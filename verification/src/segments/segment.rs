//! The trait that every segment implements, the wrapper that lays user
//! configuration over a segment, and the slots of a line.

use std::borrow::Cow;

use vstd::prelude::*;
use vstd::string::StringExecFns;

use crate::cells::{cell_width, text_width};
use crate::data_context::{DataContext, DataDep};
use crate::segments::rendered::{RenderedSegment, RenderedView};
use crate::segments::separator::{
    cow_text, defaults_dump, dump_defaults, dump_flag, dump_separator, flag_dump, separator_dump,
    SegmentDefaults, Separator, WidthBounds,
};
use crate::text::{debug_quoted, quoted};
use crate::theme::{copy_text, text_in, Style, StyleView};

verus! {

/// Runtime failure of a segment's render. `source` is the text of the error
/// that caused it, where there is one.
#[derive(Debug, PartialEq, Eq)]
#[non_exhaustive]
pub struct SegmentError {
    pub message: String,
    pub source: Option<String>,
}

impl SegmentError {
    /// The failure in words: the message, and the cause behind a colon.
    pub open spec fn words(self) -> Seq<char> {
        match self.source {
            Some(source) => self.message@ + ": "@ + source@,
            None => self.message@,
        }
    }

    /// A failure without a cause.
    #[must_use]
    pub fn new(message: &str) -> (r: SegmentError)
        ensures
            r.message@ == message@,
            r.source is None,
    {
        SegmentError { message: message.to_owned(), source: None }
    }

    /// A failure with the text of its cause.
    #[must_use]
    pub fn with_source(message: &str, source: String) -> (r: SegmentError)
        ensures
            r.message@ == message@,
            r.source == Some(source),
    {
        SegmentError { message: message.to_owned(), source: Some(source) }
    }

    /// The failure in words.
    pub fn to_text(&self) -> (r: String)
        ensures
            r@ == self.words(),
    {
        let mut out = self.message.clone();
        match &self.source {
            Some(source) => {
                out.append(": ");
                out.append(source.as_str());
            },
            None => {},
        }
        out
    }
}

/// What a segment's render comes to: a render, nothing to show, or a failure.
/// A failure is reported, and shows as little as nothing does.
pub type RenderResult = Result<Option<RenderedSegment>, SegmentError>;

/// What a `RenderResult` says; a failure by its words.
pub type Outcome = Result<Option<RenderedView>, Seq<char>>;

/// What `r` says.
pub open spec fn outcome_of(r: RenderResult) -> Outcome {
    match r {
        Ok(Some(rendered)) => Ok(Some(rendered@)),
        Ok(None) => Ok(None),
        Err(e) => Err(e.words()),
    }
}

/// The words in `reason`, if there are any.
pub open spec fn reason_in(reason: Option<&'static str>) -> Option<Seq<char>> {
    match reason {
        Some(words) => Some(words@),
        None => None,
    }
}

/// The render in `r`, if there is one.
pub open spec fn rendered_in(r: Option<RenderedSegment>) -> Option<RenderedView> {
    match r {
        Some(rendered) => Some(rendered@),
        None => None,
    }
}

/// Layout state of one render, handed to every segment.
#[derive(Debug, Clone, Copy, PartialEq, Eq, Structural)]
#[non_exhaustive]
pub struct RenderContext {
    /// Total cells available to this line.
    pub terminal_width: u16,
}

impl RenderContext {
    /// A render into `terminal_width` cells.
    #[must_use]
    pub fn new(terminal_width: u16) -> (r: RenderContext)
        ensures
            r.terminal_width == terminal_width,
    {
        RenderContext { terminal_width }
    }
}

/// A piece of the status line.
///
/// The layout makes no assumption on which answer a segment gives: `renders`
/// and `shrinks` are relations, and an implementation may stand in them to
/// more than one answer.
pub trait Segment: Send {
    /// May `render` answer `out`?
    open spec fn renders(&self, ctx: DataContext, rc: RenderContext, out: Outcome) -> bool {
        true
    }

    /// May `shrink_to_fit` answer `out`?
    open spec fn shrinks(
        &self,
        ctx: DataContext,
        rc: RenderContext,
        target: u16,
        out: Option<RenderedView>,
    ) -> bool {
        true
    }

    /// May `defaults` answer `d`?
    open spec fn declares(&self, d: SegmentDefaults) -> bool {
        true
    }

    /// May `data_deps` answer `deps`?
    open spec fn reads(&self, deps: Seq<DataDep>) -> bool {
        true
    }

    /// May `user_color_pinned` answer `pinned`?
    open spec fn pins_color(&self, pinned: bool) -> bool {
        true
    }

    /// May `hiding_reason` answer `reason`?
    open spec fn explains(&self, ctx: DataContext, reason: Option<Seq<char>>) -> bool {
        true
    }

    /// Render this segment: `Ok(Some(_))` to show, `Ok(None)` to hide, `Err`
    /// on a failure that is reported and hides the segment.
    fn render(&self, ctx: &DataContext, rc: &RenderContext) -> (r: RenderResult)
        ensures
            self.renders(*ctx, *rc, outcome_of(r)),
    ;

    /// A more compact form of at most `target` cells, or `None` where the
    /// segment has none. The layout asks for it under width pressure, before
    /// it cuts or drops the segment.
    #[must_use]
    fn shrink_to_fit(&self, ctx: &DataContext, rc: &RenderContext, target: u16) -> (r: Option<
        RenderedSegment,
    >)
        ensures
            self.shrinks(*ctx, *rc, target, rendered_in(r)),
    ;

    /// The data sources that this segment reads.
    #[must_use]
    fn data_deps(&self) -> (r: &'static [DataDep])
        ensures
            self.reads(r@),
    ;

    /// Layout intent: priority, width bounds, icon, truncate-before-drop.
    #[must_use]
    fn defaults(&self) -> (r: SegmentDefaults)
        ensures
            self.declares(r),
    ;

    /// Has user configuration fixed this segment's color? Such a segment
    /// keeps its color in a group.
    #[must_use]
    fn user_color_pinned(&self) -> (r: bool)
        ensures
            self.pins_color(r),
    ;

    /// Why this segment shows nothing, for the log; asked where `render`
    /// answered that there is nothing to show.
    #[must_use]
    fn hiding_reason(&self, ctx: &DataContext) -> (r: Option<&'static str>)
        ensures
            self.explains(*ctx, reason_in(r)),
    ;
}

/// A segment of any type.
pub struct SegmentBox {
    pub segment: Box<dyn Segment>,
}

/// A user's style laid over a segment's own: every visual field is the
/// user's; the link stays the segment's unless the user's style has one.
pub open spec fn merged_style(inner: StyleView, user: StyleView) -> StyleView {
    StyleView {
        hyperlink: if user.hyperlink is None {
            inner.hyperlink
        } else {
            user.hyperlink
        },
        ..user
    }
}

/// The style in `s`, if there is one.
pub open spec fn style_in(s: Option<Style>) -> Option<StyleView> {
    match s {
        Some(t) => Some(t@),
        None => None,
    }
}

/// `rendered` under a user's style and icon. The style flattens the spans; an
/// empty icon is none.
pub open spec fn overridden(
    rendered: RenderedView,
    style: Option<StyleView>,
    icon: Option<Seq<char>>,
) -> RenderedView {
    let styled = match style {
        Some(s) => RenderedView {
            style: merged_style(rendered.style, s),
            spans: None,
            ..rendered
        },
        None => rendered,
    };
    match icon {
        Some(i) => if i.len() > 0 {
            styled.behind_icon(i)
        } else {
            styled
        },
        None => styled,
    }
}

/// The intent `below` with a user's priority and width bounds laid over it.
pub open spec fn intent_over(
    below: SegmentDefaults,
    priority: Option<u8>,
    width: Option<WidthBounds>,
) -> SegmentDefaults {
    SegmentDefaults {
        priority: match priority {
            Some(p) => p,
            None => below.priority,
        },
        width: match width {
            Some(w) => Some(w),
            None => below.width,
        },
        ..below
    }
}

/// The cells that an icon adds in front of a text: its own and a space.
pub open spec fn icon_cells(icon: Option<Seq<char>>) -> u16 {
    match icon {
        Some(i) => if i.len() > 0 {
            if cell_width(i) < u16::MAX {
                (cell_width(i) + 1) as u16
            } else {
                u16::MAX
            }
        } else {
            0
        },
        None => 0,
    }
}

/// Without a style and an icon of the user's own a render stays as it is, and
/// so does an intent without a priority and bounds of the user's own.
pub proof fn bare_override_changes_nothing(rendered: RenderedView, below: SegmentDefaults)
    ensures
        overridden(rendered, None, None) == rendered,
        overridden(rendered, None, Some(seq![])) == rendered,
        intent_over(below, None, None) == below,
{
}

/// A user's style takes no link away from a segment, and no text.
pub proof fn user_style_keeps_the_link(rendered: RenderedView, style: StyleView)
    requires
        style.hyperlink is None,
    ensures
        overridden(rendered, Some(style), None).style.hyperlink == rendered.style.hyperlink,
        overridden(rendered, Some(style), None).text == rendered.text,
        overridden(rendered, Some(style), None).width == rendered.width,
{
}

/// Lay `override_style` over `inner`.
fn merge_user_override(inner: &Style, override_style: &Style) -> (r: Style)
    ensures
        r@ == merged_style(inner@, override_style@),
{
    let mut merged = override_style.clone();
    if merged.hyperlink.is_none() {
        merged.hyperlink = copy_text(&inner.hyperlink);
    }
    merged
}

/// A segment with user configuration laid over it: another priority, other
/// width bounds, a style, an icon.
pub struct OverriddenSegment {
    inner: SegmentBox,
    priority: Option<u8>,
    width: Option<WidthBounds>,
    user_style: Option<Style>,
    user_icon: Option<String>,
}

impl OverriddenSegment {
    /// The segment below.
    pub closed spec fn below(self) -> SegmentBox {
        self.inner
    }

    /// The user's priority.
    pub closed spec fn priority_set(self) -> Option<u8> {
        self.priority
    }

    /// The user's width bounds.
    pub closed spec fn width_set(self) -> Option<WidthBounds> {
        self.width
    }

    /// The user's style.
    pub closed spec fn style_set(self) -> Option<StyleView> {
        style_in(self.user_style)
    }

    /// The user's icon.
    pub closed spec fn icon_set(self) -> Option<Seq<char>> {
        text_in(self.user_icon)
    }

    /// `inner` with nothing laid over it yet.
    #[must_use]
    pub fn new(inner: SegmentBox) -> (r: OverriddenSegment)
        ensures
            r.below() == inner,
            r.priority_set() is None,
            r.width_set() is None,
            r.style_set() is None,
            r.icon_set() is None,
    {
        OverriddenSegment { inner, priority: None, width: None, user_style: None, user_icon: None }
    }

    /// The same with another priority.
    #[must_use]
    pub fn with_priority(self, priority: u8) -> (r: OverriddenSegment)
        ensures
            r.below() == self.below(),
            r.priority_set() == Some(priority),
            r.width_set() == self.width_set(),
            r.style_set() == self.style_set(),
            r.icon_set() == self.icon_set(),
    {
        OverriddenSegment { priority: Some(priority), ..self }
    }

    /// The same with other width bounds.
    #[must_use]
    pub fn with_width(self, bounds: WidthBounds) -> (r: OverriddenSegment)
        ensures
            r.below() == self.below(),
            r.priority_set() == self.priority_set(),
            r.width_set() == Some(bounds),
            r.style_set() == self.style_set(),
            r.icon_set() == self.icon_set(),
    {
        OverriddenSegment { width: Some(bounds), ..self }
    }

    /// The same with a style that replaces the segment's own.
    #[must_use]
    pub fn with_user_style(self, style: Style) -> (r: OverriddenSegment)
        ensures
            r.below() == self.below(),
            r.priority_set() == self.priority_set(),
            r.width_set() == self.width_set(),
            r.style_set() == Some(style@),
            r.icon_set() == self.icon_set(),
    {
        OverriddenSegment { user_style: Some(style), ..self }
    }

    /// The same with an icon in front of the text.
    #[must_use]
    pub fn with_icon(self, icon: String) -> (r: OverriddenSegment)
        ensures
            r.below() == self.below(),
            r.priority_set() == self.priority_set(),
            r.width_set() == self.width_set(),
            r.style_set() == self.style_set(),
            r.icon_set() == Some(icon@),
    {
        OverriddenSegment { user_icon: Some(icon), ..self }
    }

    /// The segment below, with all that was laid over it taken off.
    #[must_use]
    pub fn into_inner(self) -> (r: SegmentBox)
        ensures
            r == self.below(),
    {
        self.inner
    }

    /// The icon to draw, if one is set and it is not empty.
    fn effective_icon(&self) -> (r: Option<&str>)
        ensures
            match r {
                Some(icon) => self.icon_set() == Some(icon@) && icon@.len() > 0,
                None => self.icon_set() is None || self.icon_set()->0.len() == 0,
            },
    {
        match &self.user_icon {
            Some(icon) => if icon.as_str().is_empty() {
                None
            } else {
                Some(icon.as_str())
            },
            None => None,
        }
    }

    /// The cells that the icon and its space add.
    fn icon_prefix_width(&self) -> (r: u16)
        ensures
            r == icon_cells(self.icon_set()),
    {
        match self.effective_icon() {
            Some(icon) => text_width(icon).saturating_add(1),
            None => 0,
        }
    }

    /// Lay the user's style and icon over `rendered`.
    fn apply_render_overrides(&self, rendered: RenderedSegment) -> (r: RenderedSegment)
        ensures
            r@ == overridden(rendered@, self.style_set(), self.icon_set()),
    {
        let mut out = rendered;
        if let Some(style) = &self.user_style {
            let merged = merge_user_override(out.style(), style);
            out = out.without_spans().with_style(merged);
        }
        if let Some(icon) = self.effective_icon() {
            out = out.with_icon_prefix(icon);
        }
        out
    }
}

impl Segment for OverriddenSegment {
    open spec fn renders(&self, ctx: DataContext, rc: RenderContext, out: Outcome) -> bool {
        exists|o: Outcome| #[trigger]
            self.below().segment.renders(ctx, rc, o) && out == match o {
                Ok(Some(r)) => Ok(Some(overridden(r, self.style_set(), self.icon_set()))),
                Ok(None) => Ok(None),
                Err(e) => Err(e),
            }
    }

    open spec fn shrinks(
        &self,
        ctx: DataContext,
        rc: RenderContext,
        target: u16,
        out: Option<RenderedView>,
    ) -> bool {
        let icon = icon_cells(self.icon_set());
        if target < icon {
            out is None
        } else {
            exists|o: Option<RenderedView>| #[trigger]
                self.below().segment.shrinks(ctx, rc, (target - icon) as u16, o) && out == match o {
                    Some(r) => Some(overridden(r, self.style_set(), self.icon_set())),
                    None => None,
                }
        }
    }

    open spec fn declares(&self, d: SegmentDefaults) -> bool {
        exists|below: SegmentDefaults| #[trigger]
            self.below().segment.declares(below) && d == intent_over(
                below,
                self.priority_set(),
                self.width_set(),
            )
    }

    open spec fn reads(&self, deps: Seq<DataDep>) -> bool {
        self.below().segment.reads(deps)
    }

    open spec fn pins_color(&self, pinned: bool) -> bool {
        pinned == match self.style_set() {
            Some(s) => s.role is Some || s.fg is Some,
            None => false,
        }
    }

    open spec fn explains(&self, ctx: DataContext, reason: Option<Seq<char>>) -> bool {
        self.below().segment.explains(ctx, reason)
    }

    fn render(&self, ctx: &DataContext, rc: &RenderContext) -> (r: RenderResult) {
        match self.inner.segment.render(ctx, rc) {
            Ok(Some(rendered)) => {
                let out = self.apply_render_overrides(rendered);
                assert(self.below().segment.renders(*ctx, *rc, Ok(Some(rendered@))));
                Ok(Some(out))
            },
            Ok(None) => {
                assert(self.below().segment.renders(*ctx, *rc, Ok(None)));
                Ok(None)
            },
            Err(e) => {
                assert(self.below().segment.renders(*ctx, *rc, Err(e.words())));
                Err(e)
            },
        }
    }

    fn shrink_to_fit(&self, ctx: &DataContext, rc: &RenderContext, target: u16) -> (r: Option<
        RenderedSegment,
    >) {
        // The icon's cells are set aside, so that the icon and the compact
        // form together still fit.
        let icon: u16 = self.icon_prefix_width();
        if target < icon {
            return None;
        }
        match self.inner.segment.shrink_to_fit(ctx, rc, target - icon) {
            Some(rendered) => {
                let out = self.apply_render_overrides(rendered);
                assert(self.below().segment.shrinks(*ctx, *rc, (target - icon) as u16, Some(rendered@)));
                Some(out)
            },
            None => {
                assert(self.below().segment.shrinks(*ctx, *rc, (target - icon) as u16, None));
                None
            },
        }
    }

    fn data_deps(&self) -> (r: &'static [DataDep]) {
        self.inner.segment.data_deps()
    }

    fn defaults(&self) -> (r: SegmentDefaults) {
        let below = self.inner.segment.defaults();
        assert(self.below().segment.declares(below));
        SegmentDefaults {
            priority: match self.priority {
                Some(p) => p,
                None => below.priority,
            },
            width: match self.width {
                Some(w) => Some(w),
                None => below.width,
            },
            ..below
        }
    }

    fn user_color_pinned(&self) -> (r: bool) {
        match &self.user_style {
            Some(s) => s.role.is_some() || s.fg.is_some(),
            None => false,
        }
    }

    fn hiding_reason(&self, ctx: &DataContext) -> (r: Option<&'static str>) {
        self.inner.segment.hiding_reason(ctx)
    }
}

/// One slot of a line: a segment, or a separator between segments.
#[non_exhaustive]
pub enum LineItem {
    /// A segment and the configuration id that names it. `fuses_left` is true
    /// where the segment shares a color group with the segment to its left.
    Segment { id: Cow<'static, str>, segment: SegmentBox, fuses_left: bool },
    Separator(Separator),
}

impl LineItem {
    /// A slot for `segment` under `id`, in no group with its left neighbor.
    pub fn seg(id: Cow<'static, str>, segment: SegmentBox) -> (r: LineItem)
        ensures
            r == (LineItem::Segment { id, segment, fuses_left: false }),
    {
        LineItem::Segment { id, segment, fuses_left: false }
    }

    /// May `dump` answer `out`? A segment is shown by its id and by an intent
    /// that it may declare.
    pub open spec fn dumps(self, out: Seq<char>) -> bool {
        match self {
            LineItem::Segment { id, segment, fuses_left } => exists|d: SegmentDefaults| #[trigger]
                segment.segment.declares(d) && out == slot_dump(id@, d, fuses_left),
            LineItem::Separator(separator) => out == "Separator("@ + separator_dump(separator@)
                + ")"@,
        }
    }

    /// The slot in words, for whoever looks for a slot in a dump.
    pub fn dump(&self) -> (r: String)
        ensures
            self.dumps(r@),
    {
        match self {
            LineItem::Segment { id, segment, fuses_left } => {
                let defaults = segment.segment.defaults();
                let mut out = "Segment { id: ".to_owned();
                out.append(quoted(cow_text(id)).as_str());
                out.append(", defaults: ");
                out.append(dump_defaults(&defaults).as_str());
                out.append(", fuses_left: ");
                out.append(dump_flag(*fuses_left));
                out.append(" }");
                assert(segment.segment.declares(defaults));
                out
            },
            LineItem::Separator(separator) => {
                let mut out = "Separator(".to_owned();
                out.append(dump_separator(separator).as_str());
                out.append(")");
                out
            },
        }
    }
}

/// A slot with a segment as a dump shows it.
pub open spec fn slot_dump(id: Seq<char>, d: SegmentDefaults, fuses_left: bool) -> Seq<char> {
    "Segment { id: "@ + debug_quoted(id) + ", defaults: "@ + defaults_dump(d) + ", fuses_left: "@
        + flag_dump(fuses_left) + " }"@
}

} // verus!
