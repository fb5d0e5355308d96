//! Separators between segments, width bounds, and the layout intent that a
//! segment declares.

use std::borrow::Cow;

use vstd::prelude::*;
use vstd::string::StringExecFns;

use crate::cells::{cell_width, text_width};
use crate::text::{debug_quoted, decimal, decimal_string, quoted};

verus! {

/// Cell count of the Nerd Font powerline chevron (U+E0B0). Most fonts draw it
/// in one cell, some in two; no other value can be written.
#[derive(Debug, Clone, Copy, PartialEq, Eq, Structural)]
pub enum PowerlineWidth {
    One,
    Two,
}

impl Default for PowerlineWidth {
    fn default() -> (r: PowerlineWidth)
        ensures
            r == PowerlineWidth::One,
    {
        PowerlineWidth::One
    }
}

impl PowerlineWidth {
    /// 1 or 2.
    pub open spec fn count(self) -> u16 {
        match self {
            PowerlineWidth::One => 1,
            PowerlineWidth::Two => 2,
        }
    }

    /// Cell count this width represents (1 or 2).
    #[must_use]
    pub fn cells(self) -> (r: u16)
        ensures
            r == self.count(),
    {
        match self {
            PowerlineWidth::One => 1,
            PowerlineWidth::Two => 2,
        }
    }
}

/// What `Separator` says.
pub enum SeparatorView {
    Space,
    Theme,
    Literal(Seq<char>),
    Powerline { width: PowerlineWidth },
    /// Nothing is drawn.
    Empty,
}

impl SeparatorView {
    /// The text that is drawn between two segments.
    pub open spec fn text(self) -> Seq<char> {
        match self {
            SeparatorView::Space => " "@,
            SeparatorView::Theme => " "@,
            SeparatorView::Literal(s) => s,
            SeparatorView::Powerline { width } => " \u{E0B0} "@,
            SeparatorView::Empty => ""@,
        }
    }

    /// The cells that the text takes. The chevron's own cells are those of
    /// its `width`, whatever the terminal's tables say of it.
    pub open spec fn width(self) -> u16 {
        match self {
            SeparatorView::Space => 1,
            SeparatorView::Theme => 1,
            SeparatorView::Literal(s) => cell_width(s),
            SeparatorView::Powerline { width } => (width.count() + 2) as u16,
            SeparatorView::Empty => 0,
        }
    }
}

/// Separator between adjacent segments.
///
/// `Theme` stands for padding that a theme provides and draws as one space.
/// `Powerline` draws the Nerd Font chevron between two spaces.
#[derive(Debug, PartialEq, Eq)]
#[non_exhaustive]
pub enum Separator {
    Space,
    Theme,
    Literal(Cow<'static, str>),
    Powerline { width: PowerlineWidth },
    /// Nothing is drawn.
    Empty,
}

impl View for Separator {
    type V = SeparatorView;

    open spec fn view(&self) -> SeparatorView {
        match self {
            Separator::Space => SeparatorView::Space,
            Separator::Theme => SeparatorView::Theme,
            Separator::Literal(s) => SeparatorView::Literal(s@),
            Separator::Powerline { width } => SeparatorView::Powerline { width: *width },
            Separator::Empty => SeparatorView::Empty,
        }
    }
}

impl Clone for Separator {
    fn clone(&self) -> (r: Separator)
        ensures
            r@ == self@,
    {
        match self {
            Separator::Space => Separator::Space,
            Separator::Theme => Separator::Theme,
            Separator::Literal(s) => Separator::Literal(copy_cow(s)),
            Separator::Powerline { width } => Separator::Powerline { width: *width },
            Separator::Empty => Separator::Empty,
        }
    }
}

/// The separator in `s`, if there is one.
pub open spec fn separator_in(s: Option<Separator>) -> Option<SeparatorView> {
    match s {
        Some(t) => Some(t@),
        None => None,
    }
}

/// The text of `s`.
pub fn cow_text<'a>(s: &'a Cow<'static, str>) -> (r: &'a str)
    ensures
        r@ == s@,
{
    match s {
        Cow::Borrowed(t) => *t,
        Cow::Owned(t) => t.as_str(),
    }
}

/// A copy of `s`, borrowed where `s` is.
pub fn copy_cow(s: &Cow<'static, str>) -> (r: Cow<'static, str>)
    ensures
        r@ == s@,
        r is Borrowed <==> s is Borrowed,
{
    match s {
        Cow::Borrowed(t) => Cow::Borrowed(*t),
        Cow::Owned(t) => Cow::Owned(t.clone()),
    }
}

impl Separator {
    /// The chevron in one cell.
    #[must_use]
    pub fn powerline() -> (r: Separator)
        ensures
            r@ == (SeparatorView::Powerline { width: PowerlineWidth::One }),
    {
        Separator::Powerline { width: PowerlineWidth::One }
    }

    /// The text that is drawn between two segments.
    #[must_use]
    pub fn text(&self) -> (r: &str)
        ensures
            r@ == self@.text(),
    {
        match self {
            Separator::Space | Separator::Theme => " ",
            Separator::Literal(s) => cow_text(s),
            Separator::Powerline { .. } => " \u{E0B0} ",
            Separator::Empty => "",
        }
    }

    /// The cells that the text takes: those of the text itself, but for a
    /// chevron, which takes its own cells and those of a blank on either
    /// side.
    #[must_use]
    pub fn width(&self) -> (r: u16)
        ensures
            r == self@.width(),
            !(self@ is Powerline) ==> r == cell_width(self@.text()),
            self@ matches SeparatorView::Powerline { width } ==> r == width.count() + 2,
    {
        proof {
            reveal_strlit(" ");
            reveal_strlit("");
        }
        match self {
            Separator::Powerline { width } => width.cells() + 2,
            _ => text_width(self.text()),
        }
    }
}

/// Width bounds in cells, the lower at most the upper.
#[derive(Debug, Clone, Copy, PartialEq, Eq, Structural)]
pub struct WidthBounds {
    min: u16,
    max: u16,
}

impl WidthBounds {
    #[verifier::type_invariant]
    closed spec fn ordered(self) -> bool {
        self.min <= self.max
    }

    /// The fewest cells.
    pub closed spec fn lo(self) -> u16 {
        self.min
    }

    /// The most cells.
    pub closed spec fn hi(self) -> u16 {
        self.max
    }

    /// The bounds from `min` to `max`; `None` when `min > max`.
    #[must_use]
    pub fn new(min: u16, max: u16) -> (r: Option<WidthBounds>)
        ensures
            r is Some <==> min <= max,
            r matches Some(b) ==> b.lo() == min && b.hi() == max,
    {
        if min <= max {
            Some(WidthBounds { min, max })
        } else {
            None
        }
    }

    /// The fewest cells.
    #[must_use]
    pub fn min(self) -> (r: u16)
        ensures
            r == self.lo(),
            self.lo() <= self.hi(),
    {
        proof {
            use_type_invariant(&self);
        }
        self.min
    }

    /// The most cells.
    #[must_use]
    pub fn max(self) -> (r: u16)
        ensures
            r == self.hi(),
            self.lo() <= self.hi(),
    {
        proof {
            use_type_invariant(&self);
        }
        self.max
    }
}

/// Layout intent that a segment declares; user configuration may override
/// each field.
///
/// Under width pressure segments leave in descending `priority`: `255` goes
/// first, `0` never goes. Of equal priorities the right-most goes first.
#[derive(Debug, Clone, Copy, PartialEq, Eq)]
#[non_exhaustive]
pub struct SegmentDefaults {
    pub priority: u8,
    pub width: Option<WidthBounds>,
    pub icon: Option<&'static str>,
    /// May the layout cut this segment's text before it drops the segment?
    pub truncatable: bool,
}

impl SegmentDefaults {
    /// `priority`, and nothing else out of the ordinary.
    pub open spec fn of_priority(priority: u8) -> SegmentDefaults {
        SegmentDefaults { priority, width: None, icon: None, truncatable: false }
    }

    /// The default intent with another priority.
    #[must_use]
    pub fn with_priority(priority: u8) -> (r: SegmentDefaults)
        ensures
            r == SegmentDefaults::of_priority(priority),
    {
        SegmentDefaults { priority, width: None, icon: None, truncatable: false }
    }

    /// The same intent with width bounds.
    #[must_use]
    pub fn with_width(self, bounds: WidthBounds) -> (r: SegmentDefaults)
        ensures
            r == (SegmentDefaults { width: Some(bounds), ..self }),
    {
        SegmentDefaults { width: Some(bounds), ..self }
    }

    /// The same intent with a built-in icon.
    #[must_use]
    pub fn with_icon(self, icon: &'static str) -> (r: SegmentDefaults)
        ensures
            r == (SegmentDefaults { icon: Some(icon), ..self }),
    {
        SegmentDefaults { icon: Some(icon), ..self }
    }

    /// The same intent with the truncate-before-drop flag set to
    /// `truncatable`.
    #[must_use]
    pub fn with_truncatable(self, truncatable: bool) -> (r: SegmentDefaults)
        ensures
            r == (SegmentDefaults { truncatable, ..self }),
    {
        SegmentDefaults { truncatable, ..self }
    }
}

impl Default for SegmentDefaults {
    fn default() -> (r: SegmentDefaults)
        ensures
            r == SegmentDefaults::of_priority(128),
    {
        SegmentDefaults { priority: 128, width: None, icon: None, truncatable: false }
    }
}

// --- For a dump ---------------------------------------------------------

/// The separator as a dump names it.
pub open spec fn separator_dump(s: SeparatorView) -> Seq<char> {
    match s {
        SeparatorView::Space => "Space"@,
        SeparatorView::Theme => "Theme"@,
        SeparatorView::Literal(text) => "Literal("@ + debug_quoted(text) + ")"@,
        SeparatorView::Powerline { width: PowerlineWidth::One } => "Powerline { width: One }"@,
        SeparatorView::Powerline { width: PowerlineWidth::Two } => "Powerline { width: Two }"@,
        SeparatorView::Empty => "None"@,
    }
}

/// The layout intent as a dump names it.
pub open spec fn defaults_dump(d: SegmentDefaults) -> Seq<char> {
    "SegmentDefaults { priority: "@ + decimal(d.priority as nat) + ", width: "@ + match d.width {
        Some(bounds) => "Some(WidthBounds { min: "@ + decimal(bounds.lo() as nat) + ", max: "@
            + decimal(bounds.hi() as nat) + " })"@,
        None => "None"@,
    } + ", icon: "@ + match d.icon {
        Some(icon) => "Some("@ + debug_quoted(icon@) + ")"@,
        None => "None"@,
    } + ", truncatable: "@ + flag_dump(d.truncatable) + " }"@
}

/// A flag as a dump names it.
pub open spec fn flag_dump(b: bool) -> Seq<char> {
    if b {
        "true"@
    } else {
        "false"@
    }
}

/// A flag for a dump.
pub(crate) fn dump_flag(b: bool) -> (r: &'static str)
    ensures
        r@ == flag_dump(b),
{
    if b {
        "true"
    } else {
        "false"
    }
}

/// A separator for a dump.
pub(crate) fn dump_separator(s: &Separator) -> (r: String)
    ensures
        r@ == separator_dump(s@),
{
    match s {
        Separator::Space => "Space".to_owned(),
        Separator::Theme => "Theme".to_owned(),
        Separator::Literal(text) => {
            let mut out = "Literal(".to_owned();
            out.append(quoted(cow_text(text)).as_str());
            out.append(")");
            out
        },
        Separator::Powerline { width: PowerlineWidth::One } => "Powerline { width: One }".to_owned(),
        Separator::Powerline { width: PowerlineWidth::Two } => "Powerline { width: Two }".to_owned(),
        Separator::Empty => "None".to_owned(),
    }
}

/// A layout intent for a dump.
pub(crate) fn dump_defaults(d: &SegmentDefaults) -> (r: String)
    ensures
        r@ == defaults_dump(*d),
{
    let mut width = "None".to_owned();
    if let Some(bounds) = d.width {
        width = "Some(WidthBounds { min: ".to_owned();
        width.append(decimal_string(bounds.min() as u64).as_str());
        width.append(", max: ");
        width.append(decimal_string(bounds.max() as u64).as_str());
        width.append(" })");
    }
    let mut icon = "None".to_owned();
    if let Some(glyph) = d.icon {
        icon = "Some(".to_owned();
        icon.append(quoted(glyph).as_str());
        icon.append(")");
    }
    let mut out = "SegmentDefaults { priority: ".to_owned();
    out.append(decimal_string(d.priority as u64).as_str());
    out.append(", width: ");
    out.append(width.as_str());
    out.append(", icon: ");
    out.append(icon.as_str());
    out.append(", truncatable: ");
    out.append(dump_flag(d.truncatable));
    out.append(" }");
    out
}

/// A dump tells separators of different kinds apart, and the two chevrons.
pub proof fn dump_tells_separators_apart(a: SeparatorView, b: SeparatorView)
    requires
        separator_dump(a) == separator_dump(b),
        !(a is Literal),
        !(b is Literal),
    ensures
        a == b,
{
    reveal_strlit("Space");
    reveal_strlit("Theme");
    reveal_strlit("Powerline { width: One }");
    reveal_strlit("Powerline { width: Two }");
    reveal_strlit("None");
    let d = separator_dump(a);
    assert("Space"@[0] == 'S');
    assert("Theme"@[0] == 'T');
    assert("Powerline { width: One }"@[19] == 'O');
    assert("Powerline { width: Two }"@[19] == 'T');
    assert("Powerline { width: One }"@.len() == 24);
    assert("Powerline { width: Two }"@.len() == 24);
    assert("None"@.len() == 4);
    assert(d == separator_dump(b));
}

} // verus!
