//! Styles: what a run of text asks the terminal for. Which escape sequence
//! opens a style is for the host to say.

use vstd::prelude::*;
use vstd::string::StringExecFns;

verus! {

/// The purpose of a color. A theme gives each role its color.
#[derive(Debug, Clone, Copy, PartialEq, Eq, Structural)]
pub enum Role {
    Foreground,
    Background,
    Muted,
    Primary,
    Accent,
    Success,
    Warning,
    Error,
    Info,
    SuccessDim,
    WarningDim,
    ErrorDim,
    PrimaryDim,
    AccentDim,
    Surface,
    Border,
}

/// A color given outright.
#[derive(Debug, Clone, Copy, PartialEq, Eq, Structural)]
pub enum Color {
    TrueColor { r: u8, g: u8, b: u8 },
    Palette256(u8),
}

/// What `Style` says.
pub struct StyleView {
    pub role: Option<Role>,
    pub fg: Option<Color>,
    pub bold: bool,
    pub italic: bool,
    pub underline: bool,
    pub dim: bool,
    pub hyperlink: Option<Seq<char>>,
}

/// The text in `s`, if there is one.
pub open spec fn text_in(s: Option<String>) -> Option<Seq<char>> {
    match s {
        Some(t) => Some(t@),
        None => None,
    }
}

/// A role or color, decorations, and a link target.
#[derive(Debug, PartialEq, Eq)]
pub struct Style {
    pub role: Option<Role>,
    pub fg: Option<Color>,
    pub bold: bool,
    pub italic: bool,
    pub underline: bool,
    pub dim: bool,
    pub hyperlink: Option<String>,
}

impl View for Style {
    type V = StyleView;

    open spec fn view(&self) -> StyleView {
        StyleView {
            role: self.role,
            fg: self.fg,
            bold: self.bold,
            italic: self.italic,
            underline: self.underline,
            dim: self.dim,
            hyperlink: text_in(self.hyperlink),
        }
    }
}

/// The style that asks for nothing.
pub open spec fn plain_style() -> StyleView {
    StyleView {
        role: None,
        fg: None,
        bold: false,
        italic: false,
        underline: false,
        dim: false,
        hyperlink: None,
    }
}

/// The style that asks for `role` and nothing else.
pub open spec fn role_style(role: Role) -> StyleView {
    StyleView { role: Some(role), ..plain_style() }
}

impl Default for Style {
    fn default() -> (r: Style)
        ensures
            r@ == plain_style(),
    {
        Style {
            role: None,
            fg: None,
            bold: false,
            italic: false,
            underline: false,
            dim: false,
            hyperlink: None,
        }
    }
}

/// A copy of `s`.
pub fn copy_text(s: &Option<String>) -> (r: Option<String>)
    ensures
        text_in(r) == text_in(*s),
{
    match s {
        Some(t) => Some(t.clone()),
        None => None,
    }
}

impl Clone for Style {
    fn clone(&self) -> (r: Style)
        ensures
            r@ == self@,
    {
        Style {
            role: self.role,
            fg: self.fg,
            bold: self.bold,
            italic: self.italic,
            underline: self.underline,
            dim: self.dim,
            hyperlink: copy_text(&self.hyperlink),
        }
    }
}

impl Style {
    /// The style that asks for `role` and nothing else.
    pub fn role(role: Role) -> (r: Style)
        ensures
            r@ == role_style(role),
    {
        Style {
            role: Some(role),
            fg: None,
            bold: false,
            italic: false,
            underline: false,
            dim: false,
            hyperlink: None,
        }
    }

    /// Do the two styles ask for the same?
    pub fn same(&self, other: &Style) -> (r: bool)
        ensures
            r == (self@ == other@),
    {
        let links: bool = match (&self.hyperlink, &other.hyperlink) {
            (Some(a), Some(b)) => *a == *b,
            (None, None) => true,
            _ => false,
        };
        self.role == other.role && self.fg == other.fg && self.bold == other.bold && self.italic
            == other.italic && self.underline == other.underline && self.dim == other.dim && links
    }
}

/// What `StyledRun` says.
pub struct RunView {
    pub text: Seq<char>,
    pub style: StyleView,
}

/// A stretch of text in one style.
#[derive(Debug, PartialEq, Eq)]
pub struct StyledRun {
    pub text: String,
    pub style: Style,
}

impl View for StyledRun {
    type V = RunView;

    open spec fn view(&self) -> RunView {
        RunView { text: self.text@, style: self.style@ }
    }
}

/// The runs of `v`.
pub open spec fn run_views(v: Seq<StyledRun>) -> Seq<RunView> {
    Seq::new(v.len(), |i: int| v[i]@)
}

/// The texts of `runs`, one behind the other.
pub open spec fn runs_text(runs: Seq<RunView>) -> Seq<char>
    decreases runs.len(),
{
    if runs.len() == 0 {
        seq![]
    } else {
        runs_text(runs.drop_last()) + runs.last().text
    }
}

impl Clone for StyledRun {
    fn clone(&self) -> (r: StyledRun)
        ensures
            r@ == self@,
    {
        StyledRun { text: self.text.clone(), style: self.style.clone() }
    }
}

impl StyledRun {
    /// `text` in `style`.
    pub fn new(text: String, style: Style) -> (r: StyledRun)
        ensures
            r@ == (RunView { text: text@, style: style@ }),
    {
        StyledRun { text, style }
    }

    /// The text of the run.
    pub fn text(&self) -> (r: &str)
        ensures
            r@ == self@.text,
    {
        self.text.as_str()
    }

    /// The style of the run.
    pub fn style(&self) -> (r: &Style)
        ensures
            r@ == self@.style,
    {
        &self.style
    }

}

/// A copy of `runs`.
pub fn copy_runs(runs: &Vec<StyledRun>) -> (r: Vec<StyledRun>)
    ensures
        run_views(r@) == run_views(runs@),
{
    let mut out: Vec<StyledRun> = Vec::new();
    let mut i: usize = 0;
    while i < runs.len()
        invariant
            i <= runs@.len(),
            out@.len() == i,
            forall|k: int| 0 <= k < i ==> (#[trigger] out@[k])@ == runs@[k]@,
        decreases runs@.len() - i,
    {
        out.push(runs[i].clone());
        i += 1;
    }
    assert(run_views(out@) =~= run_views(runs@));
    out
}

/// The texts of `runs`, one behind the other.
pub fn join_runs(runs: &Vec<StyledRun>) -> (r: String)
    ensures
        r@ == runs_text(run_views(runs@)),
{
    let mut out = String::new();
    let mut i: usize = 0;
    let ghost views = run_views(runs@);
    while i < runs.len()
        invariant
            i <= runs@.len(),
            views == run_views(runs@),
            out@ == runs_text(views.take(i as int)),
        decreases runs@.len() - i,
    {
        out.append(runs[i].text.as_str());
        assert(views.take(i + 1).drop_last() =~= views.take(i as int));
        i += 1;
    }
    assert(views.take(i as int) =~= views);
    out
}

} // verus!
