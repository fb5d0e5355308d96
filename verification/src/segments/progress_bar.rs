//! The progress bar that segments share: cells filled by a percentage,
//! colored by thresholds.

use vstd::arithmetic::div_mod::{lemma_fundamental_div_mod, lemma_fundamental_div_mod_converse};
use vstd::prelude::*;
use vstd::string::StringExecFns;

use crate::cells::{columns, display_width};
use crate::data_context::{round_half_even, round_half_up, Percent};
use crate::text::{decimal, decimal_string, digit, digit_char, same_text};
use crate::theme::{join_runs, role_style, run_views, runs_text, Role, RunView, Style, StyledRun};

verus! {

/// Threshold percentages of the green, yellow and red colors.
#[derive(Debug, Clone, Copy, PartialEq, Eq, Structural)]
pub struct Thresholds {
    green: u8,
    yellow: u8,
}

impl Thresholds {
    #[verifier::type_invariant]
    closed spec fn inv(self) -> bool {
        self.wf()
    }

    /// Below this, green.
    pub closed spec fn first(self) -> u8 {
        self.green
    }

    /// Below this, yellow; from here on, red.
    pub closed spec fn second(self) -> u8 {
        self.yellow
    }

    /// The thresholds ascend, up to 100.
    pub open spec fn wf(self) -> bool {
        self.first() <= self.second() <= 100
    }

    /// The thresholds `green` and `yellow`; `None` unless they ascend, up to
    /// 100.
    pub fn new(green: u8, yellow: u8) -> (r: Option<Thresholds>)
        ensures
            r is Some <==> green <= yellow <= 100,
            r matches Some(t) ==> t.first() == green && t.second() == yellow,
    {
        if green <= yellow && yellow <= 100 {
            Some(Thresholds { green, yellow })
        } else {
            None
        }
    }

    /// Below this, green.
    pub fn green(self) -> (r: u8)
        ensures
            r == self.first(),
            self.wf(),
    {
        proof {
            use_type_invariant(&self);
        }
        self.green
    }

    /// Below this, yellow.
    pub fn yellow(self) -> (r: u8)
        ensures
            r == self.second(),
            self.wf(),
    {
        proof {
            use_type_invariant(&self);
        }
        self.yellow
    }

    /// The role of a fill of `pct`.
    pub open spec fn role_of(self, pct: Percent) -> Role {
        if pct.numerator() < self.first() * pct.denominator() {
            Role::Success
        } else if pct.numerator() < self.second() * pct.denominator() {
            Role::Warning
        } else {
            Role::Error
        }
    }

    /// The role of a fill of `pct`: below the first threshold, below the
    /// second, or from there on.
    pub fn role_for(self, pct: Percent) -> (r: Role)
        ensures
            r == self.role_of(pct),
    {
        let (num, den) = pct.parts();
        proof {
            assert(self.green * den <= 255 * 0x100_0000_0000) by (nonlinear_arith)
                requires
                    self.green <= 255,
                    den <= 0x100_0000_0000,
            ;
            assert(self.yellow * den <= 255 * 0x100_0000_0000) by (nonlinear_arith)
                requires
                    self.yellow <= 255,
                    den <= 0x100_0000_0000,
            ;
        }
        if num < self.green as u64 * den {
            Role::Success
        } else if num < self.yellow as u64 * den {
            Role::Warning
        } else {
            Role::Error
        }
    }
}

/// A fuller bar is never greener.
pub proof fn role_ramp_is_monotone(t: Thresholds, a: Percent, b: Percent)
    requires
        t.wf(),
        a.wf(),
        b.wf(),
        a.numerator() * b.denominator() <= b.numerator() * a.denominator(),
    ensures
        t.role_of(b) == Role::Success ==> t.role_of(a) == Role::Success,
        t.role_of(a) == Role::Error ==> t.role_of(b) == Role::Error,
{
    let (an, ad) = (a.numerator() as int, a.denominator() as int);
    let (bn, bd) = (b.numerator() as int, b.denominator() as int);
    assert forall|limit: int| bn < limit * bd implies an < #[trigger] (limit * ad) by {
        assert(an * bd <= bn * ad);
        assert(an < limit * ad) by (nonlinear_arith)
            requires
                an * bd <= bn * ad,
                bn < limit * bd,
                ad > 0,
                bd > 0,
        ;
    }
    assert(bn < t.first() * bd ==> an < t.first() as int * ad);
    assert(bn < t.second() * bd ==> an < t.second() as int * ad);
    assert(t.first() as int * ad <= t.second() as int * ad) by (nonlinear_arith)
        requires
            t.first() <= t.second(),
            ad > 0,
    ;
    assert(t.first() as int * bd <= t.second() as int * bd) by (nonlinear_arith)
        requires
            t.first() <= t.second(),
            bd > 0,
    ;
}

/// How a cell that is partly full is drawn.
#[derive(Debug, Clone, Copy, PartialEq, Eq, Structural)]
pub enum FillMode {
    Half,
    Whole,
    Eighth,
    Braille,
}

/// The seven partial cells of `mode`, from 1/8 to 7/8.
pub open spec fn ramp_of(mode: FillMode) -> Seq<Seq<char>> {
    match mode {
        FillMode::Braille => seq!["⡀"@, "⡄"@, "⡆"@, "⡇"@, "⣇"@, "⣧"@, "⣷"@],
        _ => seq!["▏"@, "▎"@, "▍"@, "▌"@, "▋"@, "▊"@, "▉"@],
    }
}

impl FillMode {
    /// The mode that `s` names.
    pub open spec fn named(s: Seq<char>) -> Option<FillMode> {
        if s == "half"@ {
            Some(FillMode::Half)
        } else if s == "whole"@ {
            Some(FillMode::Whole)
        } else if s == "eighth"@ {
            Some(FillMode::Eighth)
        } else if s == "braille"@ {
            Some(FillMode::Braille)
        } else {
            None
        }
    }

    /// The mode that `s` names.
    pub fn parse(s: &str) -> (r: Option<FillMode>)
        ensures
            r == FillMode::named(s@),
    {
        if same_text(s, "half") {
            Some(FillMode::Half)
        } else if same_text(s, "whole") {
            Some(FillMode::Whole)
        } else if same_text(s, "eighth") {
            Some(FillMode::Eighth)
        } else if same_text(s, "braille") {
            Some(FillMode::Braille)
        } else {
            None
        }
    }

    /// The full and the empty cell of the mode.
    pub open spec fn preset(self) -> (Seq<char>, Seq<char>) {
        match self {
            FillMode::Braille => ("⣿"@, "⠀"@),
            _ => ("█"@, "░"@),
        }
    }

    /// The full and the empty cell of the mode.
    pub fn preset_chars(self) -> (r: (&'static str, &'static str))
        ensures
            (r.0@, r.1@) == self.preset(),
    {
        match self {
            FillMode::Braille => ("⣿", "⠀"),
            _ => ("█", "░"),
        }
    }

    /// How the mode draws a partial cell; `half_glyph` is that of `Half`.
    pub open spec fn partial_of(self, half_glyph: Seq<char>) -> PartialView {
        match self {
            FillMode::Half => PartialView::Half(half_glyph),
            FillMode::Whole => PartialView::Round,
            _ => PartialView::Ramp(ramp_of(self)),
        }
    }

    /// How the mode draws a partial cell; `half_glyph` is that of `Half`.
    pub fn partial(self, half_glyph: &str) -> (r: PartialFill)
        ensures
            r@ == self.partial_of(half_glyph@),
    {
        match self {
            FillMode::Half => PartialFill::Half(half_glyph.to_owned()),
            FillMode::Whole => PartialFill::Round,
            FillMode::Eighth => {
                let v: Vec<String> = vec![
                    "▏".to_owned(),
                    "▎".to_owned(),
                    "▍".to_owned(),
                    "▌".to_owned(),
                    "▋".to_owned(),
                    "▊".to_owned(),
                    "▉".to_owned(),
                ];
                assert(crate::diagnostics::texts(v@) =~= ramp_of(self));
                PartialFill::Ramp(v)
            },
            FillMode::Braille => {
                let v: Vec<String> = vec![
                    "⡀".to_owned(),
                    "⡄".to_owned(),
                    "⡆".to_owned(),
                    "⡇".to_owned(),
                    "⣇".to_owned(),
                    "⣧".to_owned(),
                    "⣷".to_owned(),
                ];
                assert(crate::diagnostics::texts(v@) =~= ramp_of(self));
                PartialFill::Ramp(v)
            },
        }
    }
}

/// What `PartialFill` says.
pub enum PartialView {
    Round,
    Half(Seq<char>),
    Ramp(Seq<Seq<char>>),
}

/// How a cell that is partly full is drawn: rounded to a whole one, as one
/// glyph from half full on, or as the glyph of its level.
#[derive(Debug, PartialEq, Eq)]
pub enum PartialFill {
    Round,
    Half(String),
    /// Glyph `i` stands for level `i + 1` of one level more than there are
    /// glyphs.
    Ramp(Vec<String>),
}

impl View for PartialFill {
    type V = PartialView;

    open spec fn view(&self) -> PartialView {
        match self {
            PartialFill::Round => PartialView::Round,
            PartialFill::Half(g) => PartialView::Half(g@),
            PartialFill::Ramp(v) => PartialView::Ramp(crate::diagnostics::texts(v@)),
        }
    }
}

/// The cells of a bar.
pub struct CellsView {
    pub full: int,
    pub partial: Option<Seq<char>>,
    pub empty: int,
}

/// The cells of a bar of `width` cells that is full to `pct`: exactly
/// `width * pct / 100` of them, the partial one as `partial` says.
pub open spec fn cells_of(pct: Percent, width: int, partial: PartialView) -> CellsView {
    let n = width * pct.numerator();
    let d = 100 * pct.denominator();
    match partial {
        PartialView::Round => {
            let full = round_half_up(n, d);
            CellsView { full, partial: None, empty: width - full }
        },
        PartialView::Half(glyph) => {
            let full = n / d;
            if 2 * (n % d) >= d {
                CellsView { full, partial: Some(glyph), empty: width - full - 1 }
            } else {
                CellsView { full, partial: None, empty: width - full }
            }
        },
        PartialView::Ramp(glyphs) => {
            let levels = (glyphs.len() + 1) as int;
            let steps = round_half_up(n * levels, d);
            let full = steps / levels;
            let rest = steps % levels;
            if rest > 0 {
                CellsView { full, partial: Some(glyphs[rest - 1]), empty: width - full - 1 }
            } else {
                CellsView { full, partial: None, empty: width - full }
            }
        },
    }
}

proof fn lemma_round_half_up(n: int, d: int, limit: int)
    requires
        0 <= n <= limit * d,
        d > 0,
    ensures
        0 <= round_half_up(n, d) <= limit,
{
    let r = round_half_up(n, d);
    assert(2 * n + d == (2 * d) * r + (2 * n + d) % (2 * d)) by (nonlinear_arith)
        requires
            r == (2 * n + d) / (2 * d),
            d > 0,
    ;
    assert(0 <= (2 * n + d) % (2 * d) < 2 * d) by (nonlinear_arith)
        requires
            d > 0,
    ;
    assert(r >= 0) by (nonlinear_arith)
        requires
            r == (2 * n + d) / (2 * d),
            n >= 0,
            d > 0,
    ;
    assert(r <= limit) by (nonlinear_arith)
        requires
            (2 * d) * r <= 2 * n + d,
            n <= limit * d,
            d > 0,
    ;
}

proof fn lemma_half(n: int, d: int, limit: int)
    requires
        0 <= n <= limit * d,
        d > 0,
    ensures
        0 <= n / d <= limit,
        n / d == limit ==> n % d == 0,
        0 <= n % d < d,
{
    assert(n == d * (n / d) + n % d) by (nonlinear_arith)
        requires
            d > 0,
    ;
    assert(0 <= n % d < d) by (nonlinear_arith)
        requires
            d > 0,
    ;
    assert(0 <= n / d <= limit) by (nonlinear_arith)
        requires
            d > 0,
            0 <= n <= limit * d,
    ;
    assert(n / d == limit ==> n % d == 0) by (nonlinear_arith)
        requires
            n == d * (n / d) + n % d,
            n <= limit * d,
            0 <= n % d,
            d > 0,
    ;
}

/// The cells of a bar add up to its width, and none is negative.
pub proof fn cells_fill_the_width(pct: Percent, width: int, partial: PartialView)
    requires
        width >= 0,
        pct.wf(),
    ensures
        ({
            let c = cells_of(pct, width, partial);
            &&& 0 <= c.full <= width
            &&& 0 <= c.empty <= width
            &&& c.full + c.empty + (if c.partial is Some {
                1int
            } else {
                0
            }) == width
        }),
{
    let n = width * pct.numerator();
    let d = 100 * pct.denominator();
    assert(0 <= n <= width * d) by (nonlinear_arith)
        requires
            n == width * pct.numerator(),
            d == 100 * pct.denominator(),
            0 <= pct.numerator() <= 100 * pct.denominator(),
            width >= 0,
    ;
    match partial {
        PartialView::Round => {
            lemma_round_half_up(n, d, width);
        },
        PartialView::Half(glyph) => {
            lemma_half(n, d, width);
        },
        PartialView::Ramp(glyphs) => {
            let levels = (glyphs.len() + 1) as int;
            assert(0 <= n * levels <= (width * levels) * d) by (nonlinear_arith)
                requires
                    0 <= n <= width * d,
                    levels > 0,
            ;
            lemma_round_half_up(n * levels, d, width * levels);
            let steps = round_half_up(n * levels, d);
            lemma_half(steps, levels, width);
        },
    }
}

/// The cells of a bar of `width` cells that is full to `pct`: how many are
/// full, the glyph of a partial one, how many are empty.
pub fn bar_cells<'a>(pct: Percent, width: u16, partial: &'a PartialFill) -> (r: (
    usize,
    Option<&'a str>,
    usize,
))
    ensures
        r.0 == cells_of(pct, width as int, partial@).full,
        match r.1 {
            Some(glyph) => cells_of(pct, width as int, partial@).partial == Some(glyph@),
            None => cells_of(pct, width as int, partial@).partial is None,
        },
        r.2 == cells_of(pct, width as int, partial@).empty,
        r.0 <= width,
        r.2 <= width,
{
    let (num, den) = pct.parts();
    let cells: usize = width as usize;
    proof {
        cells_fill_the_width(pct, width as int, partial@);
        assert(width * num <= 0xffff * 100 * 0x100_0000_0000) by (nonlinear_arith)
            requires
                width <= 0xffff,
                num <= 100 * 0x100_0000_0000,
        ;
    }
    let n: u128 = width as u128 * num as u128;
    let d: u128 = 100 * den as u128;
    match partial {
        PartialFill::Round => {
            let full: u128 = (2 * n + d) / (2 * d);
            (full as usize, None, cells - full as usize)
        },
        PartialFill::Half(glyph) => {
            let full: u128 = n / d;
            if 2 * (n % d) >= d {
                (full as usize, Some(glyph.as_str()), cells - full as usize - 1)
            } else {
                (full as usize, None, cells - full as usize)
            }
        },
        PartialFill::Ramp(glyphs) => {
            let levels: u128 = glyphs.len() as u128 + 1;
            proof {
                assert(n * levels <= 0xffff * 100 * 0x100_0000_0000 * 0x1_0000_0000_0000_0000)
                    by (nonlinear_arith)
                    requires
                        n <= 0xffff * 100 * 0x100_0000_0000,
                        levels <= 0x1_0000_0000_0000_0000,
                ;
            }
            let steps: u128 = (2 * (n * levels) + d) / (2 * d);
            let full: u128 = steps / levels;
            let rest: u128 = steps % levels;
            if rest > 0 {
                let glyph = &glyphs[(rest - 1) as usize];
                assert(crate::diagnostics::texts(glyphs@)[rest - 1] == glyph@);
                (full as usize, Some(glyph.as_str()), cells - full as usize - 1)
            } else {
                (full as usize, None, cells - full as usize)
            }
        },
    }
}

/// `s`, `n` times.
pub open spec fn repeated(s: Seq<char>, n: int) -> Seq<char>
    decreases n,
{
    if n <= 0 {
        seq![]
    } else {
        repeated(s, n - 1) + s
    }
}

/// `s`, `n` times.
fn repeat_text(s: &str, n: usize) -> (r: String)
    ensures
        r@ == repeated(s@, n as int),
{
    let mut out = String::new();
    let mut i: usize = 0;
    while i < n
        invariant
            i <= n,
            out@ == repeated(s@, i as int),
        decreases n - i,
    {
        out.append(s);
        i += 1;
    }
    out
}

/// Ten to the power of `d`.
pub open spec fn pow10(d: nat) -> nat
    decreases d,
{
    if d == 0 {
        1
    } else {
        10 * pow10((d - 1) as nat)
    }
}

/// `n` in exactly `d` decimal digits.
pub open spec fn padded(n: nat, d: nat) -> Seq<char>
    decreases d,
{
    if d == 0 {
        seq![]
    } else {
        padded(n / 10, (d - 1) as nat).push(digit(n % 10))
    }
}

/// `num / den` with `places` decimal places, rounded to the nearest, a tie to
/// even.
pub open spec fn fixed_point(num: nat, den: nat, places: nat) -> Seq<char> {
    let scaled = round_half_even((num * pow10(places)) as int, den as int) as nat;
    if places == 0 {
        decimal(scaled)
    } else {
        decimal(scaled / pow10(places)) + "."@ + padded(scaled % pow10(places), places)
    }
}

/// The number of the decimal digits `ds`.
spec fn digits_number(ds: Seq<u8>) -> nat
    decreases ds.len(),
{
    if ds.len() == 0 {
        0
    } else {
        10 * digits_number(ds.drop_last()) + ds.last() as nat
    }
}

/// The number of the digits `ds` behind those of `whole`.
spec fn written_number(whole: nat, ds: Seq<u8>) -> nat
    decreases ds.len(),
{
    if ds.len() == 0 {
        whole
    } else {
        10 * written_number(whole, ds.drop_last()) + ds.last() as nat
    }
}

spec fn all_digits(ds: Seq<u8>) -> bool {
    forall|i: int| 0 <= i < ds.len() ==> #[trigger] ds[i] < 10
}

proof fn lemma_written(whole: nat, ds: Seq<u8>)
    requires
        all_digits(ds),
    ensures
        pow10(ds.len()) >= 1,
        digits_number(ds) < pow10(ds.len()),
        written_number(whole, ds) == whole * pow10(ds.len()) + digits_number(ds),
        written_number(whole, ds) / pow10(ds.len()) == whole,
        written_number(whole, ds) % pow10(ds.len()) == digits_number(ds),
        padded(digits_number(ds), ds.len()) == Seq::new(ds.len(), |i: int| digit(ds[i] as nat)),
    decreases ds.len(),
{
    let p = pow10(ds.len()) as int;
    if ds.len() > 0 {
        let front = ds.drop_last();
        assert(ds[ds.len() - 1] < 10);
        assert(all_digits(front)) by {
            assert forall|i: int| 0 <= i < front.len() implies #[trigger] front[i] < 10 by {
                assert(front[i] == ds[i]);
            }
        }
        lemma_written(whole, front);
        let q = pow10(front.len()) as int;
        assert(10 * (whole * q) == whole * (10 * q)) by (nonlinear_arith);
        assert(Seq::new(ds.len(), |i: int| digit(ds[i] as nat)) =~= Seq::new(
            front.len(),
            |i: int| digit(front[i] as nat),
        ).push(digit(ds.last() as nat)));
    } else {
        assert(Seq::new(ds.len(), |i: int| digit(ds[i] as nat)) =~= seq![]);
    }
    lemma_fundamental_div_mod_converse(
        written_number(whole, ds) as int,
        p,
        whole as int,
        digits_number(ds) as int,
    );
}

/// One more than the number of `ds` behind those of `whole`.
fn next_number(whole: u64, ds: Vec<u8>) -> (r: (u64, Vec<u8>))
    requires
        whole <= 100,
        all_digits(ds@),
    ensures
        all_digits(r.1@),
        r.1@.len() == ds@.len(),
        written_number(r.0 as nat, r.1@) == written_number(whole as nat, ds@) + 1,
    decreases ds@.len(),
{
    let mut ds = ds;
    let ghost all = ds@;
    match ds.pop() {
        None => (whole + 1, ds),
        Some(last) => {
            proof {
                assert(ds@ =~= all.drop_last());
                assert(last == all[all.len() - 1]);
                assert forall|i: int| 0 <= i < ds@.len() implies #[trigger] ds@[i] < 10 by {
                    assert(ds@[i] == all[i]);
                }
            }
            if last < 9 {
                let ghost front = ds@;
                ds.push(last + 1);
                assert(ds@.drop_last() =~= front);
                (whole, ds)
            } else {
                let (more, rest) = next_number(whole, ds);
                let mut rest = rest;
                let ghost front = rest@;
                rest.push(0);
                assert(rest@.drop_last() =~= front);
                (more, rest)
            }
        },
    }
}

fn digits_string(ds: &Vec<u8>) -> (r: String)
    requires
        all_digits(ds@),
    ensures
        r@ == Seq::new(ds@.len(), |i: int| digit(ds@[i] as nat)),
{
    let mut out = String::new();
    let mut i: usize = 0;
    while i < ds.len()
        invariant
            i <= ds@.len(),
            all_digits(ds@),
            out@ == Seq::new(i as nat, |k: int| digit(ds@[k] as nat)),
        decreases ds@.len() - i,
    {
        assert(ds@[i as int] < 10);
        out.push(digit_char(ds[i]));
        assert(out@ =~= Seq::new((i + 1) as nat, |k: int| digit(ds@[k] as nat)));
        i += 1;
    }
    out
}

/// `pct` with `places` decimal places.
pub fn fixed_point_string(pct: Percent, places: u8) -> (r: String)
    ensures
        r@ == fixed_point(pct.numerator() as nat, pct.denominator() as nat, places as nat),
{
    let (num, den) = pct.parts();
    let whole: u64 = num / den;
    let mut rest: u64 = num % den;
    let mut ds: Vec<u8> = Vec::new();
    let ghost (n, d) = (num as int, den as int);
    proof {
        assert(n / d <= 100) by (nonlinear_arith)
            requires
                n <= 100 * d,
                d >= 1,
        ;
        lemma_fundamental_div_mod(n, d);
        assert(d * (n / d) == written_number(whole as nat, ds@) * d) by (nonlinear_arith)
            requires
                written_number(whole as nat, ds@) == n / d,
        ;
        assert(n * pow10(0) == n) by (nonlinear_arith)
            requires
                pow10(0) == 1,
        ;
    }
    let mut i: u8 = 0;
    while i < places
        invariant
            i <= places,
            ds@.len() == i,
            all_digits(ds@),
            n == num,
            d == den,
            1 <= den <= 0x100_0000_0000,
            rest < den,
            n * pow10(i as nat) == written_number(whole as nat, ds@) * d + rest,
        decreases places - i,
    {
        let up: u64 = 10 * rest;
        let next: u64 = up / den;
        let ghost before = ds@;
        let ghost (v, r) = (written_number(whole as nat, before) as int, rest as int);
        proof {
            lemma_fundamental_div_mod(up as int, d);
            assert(up as int / d < 10) by (nonlinear_arith)
                requires
                    up < 10 * d,
                    d >= 1,
                    up >= 0,
            ;
            let (g, s) = (up as int / d, up as int % d);
            assert(n * (10 * pow10(i as nat)) == (10 * v + g) * d + s) by (nonlinear_arith)
                requires
                    n * pow10(i as nat) == v * d + r,
                    10 * r == d * g + s,
            ;
        }
        ds.push(next as u8);
        rest = up % den;
        proof {
            assert(ds@.drop_last() =~= before);
            assert forall|k: int| 0 <= k < ds@.len() implies #[trigger] ds@[k] < 10 by {
                if k < before.len() {
                    assert(ds@[k] == before[k]);
                }
            }
        }
        i += 1;
    }
    let even: bool = if ds.len() == 0 {
        whole % 2 == 0
    } else {
        ds[ds.len() - 1] % 2 == 0
    };
    let ghost floor = written_number(whole as nat, ds@) as int;
    proof {
        lemma_fundamental_div_mod_converse(n * pow10(places as nat), d, floor, rest as int);
    }
    let (whole, ds) = if 2 * rest < den || (2 * rest == den && even) {
        (whole, ds)
    } else {
        next_number(whole, ds)
    };
    proof {
        lemma_written(whole as nat, ds@);
        assert(written_number(whole as nat, ds@) == round_half_even(
            n * pow10(places as nat),
            d,
        ));
    }
    let mut out = decimal_string(whole);
    if places > 0 {
        out.append(".");
        out.append(digits_string(&ds).as_str());
    }
    out
}

/// What `BarChars` says.
pub struct BarCharsView {
    pub full: Seq<char>,
    pub empty: Seq<char>,
    pub open: Seq<char>,
    pub close: Seq<char>,
    pub partial: PartialView,
}

/// The glyphs of a bar.
#[derive(Debug, PartialEq, Eq)]
pub struct BarChars {
    pub full: String,
    pub empty: String,
    pub open: String,
    pub close: String,
    pub partial: PartialFill,
}

impl View for BarChars {
    type V = BarCharsView;

    open spec fn view(&self) -> BarCharsView {
        BarCharsView {
            full: self.full@,
            empty: self.empty@,
            open: self.open@,
            close: self.close@,
            partial: self.partial@,
        }
    }
}

/// What `BarStyle` says.
pub struct BarStyleView {
    pub width: u16,
    pub chars: BarCharsView,
    pub brackets: bool,
    pub percentage: Option<u8>,
    pub dim_empty: bool,
}

/// Everything that shapes a bar but its fill role, which comes from the
/// percentage.
#[derive(Debug, PartialEq, Eq)]
pub struct BarStyle {
    pub width: u16,
    pub chars: BarChars,
    pub brackets: bool,
    /// Decimal places of the percentage behind the bar; `None` leaves it out.
    pub percentage: Option<u8>,
    /// Draw the empty cells muted instead of in the fill role.
    pub dim_empty: bool,
}

impl View for BarStyle {
    type V = BarStyleView;

    open spec fn view(&self) -> BarStyleView {
        BarStyleView {
            width: self.width,
            chars: self.chars@,
            brackets: self.brackets,
            percentage: self.percentage,
            dim_empty: self.dim_empty,
        }
    }
}

/// `text` as one run in `role`, or no run where there is no text.
pub open spec fn run_unless_empty(text: Seq<char>, role: Role) -> Seq<RunView> {
    if text.len() == 0 {
        seq![]
    } else {
        seq![RunView { text, style: role_style(role) }]
    }
}

/// A bracket as one muted run, where there are brackets.
pub open spec fn bracket_run(style: BarStyleView, text: Seq<char>) -> Seq<RunView> {
    if style.brackets {
        seq![RunView { text, style: role_style(Role::Muted) }]
    } else {
        seq![]
    }
}

/// The filled cells of a bar.
pub open spec fn filled_text(pct: Percent, style: BarStyleView) -> Seq<char> {
    let cells = cells_of(pct, style.width as int, style.chars.partial);
    repeated(style.chars.full, cells.full) + match cells.partial {
        Some(glyph) => glyph,
        None => seq![],
    }
}

/// The empty cells of a bar.
pub open spec fn trough_text(pct: Percent, style: BarStyleView) -> Seq<char> {
    repeated(style.chars.empty, cells_of(pct, style.width as int, style.chars.partial).empty)
}

/// The percentage behind a bar.
pub open spec fn suffix_run(pct: Percent, style: BarStyleView, fill_role: Role) -> Seq<RunView> {
    match style.percentage {
        Some(places) => seq![
            RunView {
                text: " "@ + fixed_point(
                    pct.numerator() as nat,
                    pct.denominator() as nat,
                    places as nat,
                ) + "%"@,
                style: role_style(fill_role),
            },
        ],
        None => seq![],
    }
}

/// The runs of a bar: bracket, filled cells, empty cells, bracket, percentage.
pub open spec fn bar_runs(pct: Percent, style: BarStyleView, fill_role: Role) -> Seq<RunView> {
    let empty_role = if style.dim_empty {
        Role::Muted
    } else {
        fill_role
    };
    bracket_run(style, style.chars.open) + run_unless_empty(filled_text(pct, style), fill_role)
        + run_unless_empty(trough_text(pct, style), empty_role) + bracket_run(
        style,
        style.chars.close,
    ) + suffix_run(pct, style, fill_role)
}

fn push_run(spans: &mut Vec<StyledRun>, text: String, role: Role)
    ensures
        run_views(final(spans)@) == run_views(old(spans)@) + seq![
            RunView { text: text@, style: role_style(role) },
        ],
{
    let ghost before = run_views(spans@);
    spans.push(StyledRun::new(text, Style::role(role)));
    assert(run_views(spans@) =~= before + seq![
        RunView { text: text@, style: role_style(role) },
    ]);
}

/// Draw the bar as styled runs. The caller folds them into a rendered segment,
/// which joins neighbors of one style.
pub fn render_bar(pct: Percent, style: &BarStyle, fill_role: Role) -> (r: Vec<StyledRun>)
    ensures
        run_views(r@) == bar_runs(pct, style@, fill_role),
{
    let (full, partial, empty) = bar_cells(pct, style.width, &style.chars.partial);
    let mut filled = repeat_text(style.chars.full.as_str(), full);
    match partial {
        Some(glyph) => {
            filled.append(glyph);
        },
        None => {},
    }
    assert(filled@ =~= filled_text(pct, style@));
    let trough = repeat_text(style.chars.empty.as_str(), empty);
    let empty_role = if style.dim_empty {
        Role::Muted
    } else {
        fill_role
    };
    let mut spans: Vec<StyledRun> = Vec::new();
    let ghost a = bracket_run(style@, style@.chars.open);
    let ghost b = run_unless_empty(filled@, fill_role);
    let ghost c = run_unless_empty(trough@, empty_role);
    let ghost d = bracket_run(style@, style@.chars.close);
    if style.brackets {
        push_run(&mut spans, style.chars.open.clone(), Role::Muted);
    }
    assert(run_views(spans@) =~= a);
    if !filled.as_str().is_empty() {
        push_run(&mut spans, filled, fill_role);
    }
    assert(run_views(spans@) =~= a + b);
    if !trough.as_str().is_empty() {
        push_run(&mut spans, trough, empty_role);
    }
    assert(run_views(spans@) =~= a + b + c);
    if style.brackets {
        push_run(&mut spans, style.chars.close.clone(), Role::Muted);
    }
    assert(run_views(spans@) =~= a + b + c + d);
    match style.percentage {
        Some(places) => {
            let mut text = " ".to_owned();
            text.append(fixed_point_string(pct, places).as_str());
            text.append("%");
            push_run(&mut spans, text, fill_role);
        },
        None => {},
    }
    assert(run_views(spans@) =~= bar_runs(pct, style@, fill_role));
    spans
}

/// The bar as plain text.
pub fn bar_text(pct: Percent, style: &BarStyle) -> (r: String)
    ensures
        r@ == runs_text(bar_runs(pct, style@, Role::Info)),
{
    join_runs(&render_bar(pct, style, Role::Info))
}

/// Does `s` take exactly one cell? A text of no width of its own would put
/// the bar out of step with its configured width.
pub fn is_single_cell(s: &str) -> (r: bool)
    ensures
        r == (columns(s@) == 1),
{
    display_width(s) == 1
}

} // verus!
