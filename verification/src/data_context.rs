//! What segments read: the parsed status payload and the state of the git
//! repository around it, as plain values.

use vstd::prelude::*;

verus! {

/// A data source that a segment reads.
#[derive(Debug, Clone, Copy, PartialEq, Eq, Structural)]
#[non_exhaustive]
pub enum DataDep {
    /// The status payload.
    Status,
    /// The git repository.
    Git,
}

/// `n / d` rounded to the nearest integer, a tie to the even one.
pub open spec fn round_half_even(n: int, d: int) -> int {
    let q = n / d;
    let r = n % d;
    if 2 * r < d || (2 * r == d && q % 2 == 0) {
        q
    } else {
        q + 1
    }
}

/// `n / d` rounded to the nearest integer, a tie upwards.
pub open spec fn round_half_up(n: int, d: int) -> int {
    (2 * n + d) / (2 * d)
}

/// A percentage from 0 to 100, as an exact fraction.
#[derive(Debug, Clone, Copy, PartialEq, Eq, Structural)]
pub struct Percent {
    num: u64,
    den: u64,
}

impl Percent {
    #[verifier::type_invariant]
    closed spec fn inv(self) -> bool {
        self.wf()
    }

    /// The fraction is at most 100, and its denominator at most 2^40.
    pub open spec fn wf(self) -> bool {
        &&& 1 <= self.denominator() <= 0x100_0000_0000
        &&& self.numerator() <= 100 * self.denominator()
    }

    /// The fraction's upper part.
    pub closed spec fn numerator(self) -> u64 {
        self.num
    }

    /// The fraction's lower part.
    pub closed spec fn denominator(self) -> u64 {
        self.den
    }

    /// The percentage `num / den`; `None` where that is above 100 or `den` is
    /// not from 1 to 2^40.
    pub fn new(num: u64, den: u64) -> (r: Option<Percent>)
        ensures
            r is Some <==> 1 <= den <= 0x100_0000_0000 && num <= 100 * den,
            r matches Some(p) ==> p.numerator() == num && p.denominator() == den,
    {
        if 1 <= den && den <= 0x100_0000_0000 && num <= 100 * den {
            Some(Percent { num, den })
        } else {
            None
        }
    }

    /// The whole percentage `n`.
    pub fn whole(n: u8) -> (r: Percent)
        requires
            n <= 100,
        ensures
            r.numerator() == n,
            r.denominator() == 1,
    {
        Percent { num: n as u64, den: 1 }
    }

    /// The two parts of the fraction.
    pub fn parts(self) -> (r: (u64, u64))
        ensures
            r.0 == self.numerator(),
            r.1 == self.denominator(),
            self.wf(),
    {
        proof {
            use_type_invariant(&self);
        }
        (self.num, self.den)
    }

    /// The percentage in whole points, a tie rounded to even.
    pub open spec fn points(self) -> int {
        round_half_even(self.numerator() as int, self.denominator() as int)
    }

    /// The percentage in whole points, a tie rounded to even.
    pub fn round_ties_even(self) -> (r: u8)
        ensures
            r == self.points(),
            r <= 100,
    {
        proof {
            use_type_invariant(&self);
        }
        let q: u64 = self.num / self.den;
        let rest: u64 = self.num % self.den;
        proof {
            let (n, d) = (self.num as int, self.den as int);
            assert(n == d * (n / d) + n % d) by (nonlinear_arith)
                requires
                    d > 0,
            ;
            assert(n / d <= 100) by (nonlinear_arith)
                requires
                    d > 0,
                    n <= 100 * d,
            ;
            assert(n / d == 100 ==> n % d == 0) by (nonlinear_arith)
                requires
                    d > 0,
                    n <= 100 * d,
                    n == d * (n / d) + n % d,
                    0 <= n % d,
            ;
        }
        if 2 * rest < self.den || (2 * rest == self.den && q % 2 == 0) {
            q as u8
        } else {
            (q + 1) as u8
        }
    }
}

/// A percentage is told by its fraction.
pub proof fn lemma_same_percent(a: Percent, b: Percent)
    requires
        a.numerator() == b.numerator(),
        a.denominator() == b.denominator(),
    ensures
        a == b,
{
}

/// The context window's fill and size; each may be unknown.
#[derive(Debug, Clone, Copy, PartialEq, Eq)]
pub struct ContextWindow {
    pub used: Option<Percent>,
    pub size: Option<u32>,
}

/// The model that the session talks to.
#[derive(Debug, PartialEq, Eq)]
pub struct ModelInfo {
    pub display_name: String,
}

/// Where the session works.
#[derive(Debug, PartialEq, Eq)]
pub struct WorkspaceInfo {
    pub project_dir: String,
    pub git_worktree: Option<String>,
}

/// The parsed status payload.
#[derive(Debug, PartialEq, Eq)]
pub struct StatusContext {
    pub model: Option<ModelInfo>,
    pub workspace: Option<WorkspaceInfo>,
    pub context_window: Option<ContextWindow>,
}

/// What kind of repository was found.
#[derive(Debug, Clone, Copy, PartialEq, Eq, Structural)]
pub enum RepoKind {
    Main,
    Bare,
    LinkedWorktree,
    Submodule,
}

/// What the repository's HEAD names.
#[derive(Debug, PartialEq, Eq)]
pub enum Head {
    Branch(String),
    /// The commit's hexadecimal object id.
    Detached(String),
    Unborn { symbolic_ref: String },
    OtherRef { full_name: String },
}

/// How far a branch and its upstream have moved apart.
#[derive(Debug, Clone, Copy, PartialEq, Eq, Structural)]
pub struct UpstreamState {
    pub ahead: u32,
    pub behind: u32,
}

/// The state of a repository.
#[derive(Debug, PartialEq, Eq)]
pub struct GitContext {
    pub repo_kind: RepoKind,
    pub head: Head,
    pub dirty: bool,
    pub upstream: Option<UpstreamState>,
}

/// Everything that segments read, gathered once for all of them.
#[derive(Debug, PartialEq, Eq)]
pub struct DataContext {
    pub status: StatusContext,
    /// The repository: an error's text where looking failed, `None` outside
    /// of any.
    pub git: Result<Option<GitContext>, String>,
}

impl DataContext {
    /// The context of `status`, outside of any repository.
    pub fn new(status: StatusContext) -> (r: DataContext)
        ensures
            r == (DataContext { status, git: Ok(None) }),
    {
        DataContext { status, git: Ok(None) }
    }
}

} // verus!
