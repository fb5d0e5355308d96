//! Context window segment: `{used}% · {size}`, the size in thousands or
//! millions where it is round. Hidden when the payload carries neither.

use vstd::prelude::*;
use vstd::string::StringExecFns;

use crate::data_context::{ContextWindow, DataContext, DataDep};
use crate::segments::rendered::{RenderedSegment, RenderedView};
use crate::segments::segment::{Outcome, RenderContext, RenderResult, Segment};
use crate::segments::separator::SegmentDefaults;
use crate::text::{decimal, decimal_string};
use crate::theme::{Role, StyleView};

verus! {

/// `size` as it is shown: millions with `M`, thousands with `k`, all else in
/// full.
pub open spec fn size_text(size: u32) -> Seq<char> {
    if size >= 1_000_000 && size % 1_000_000 == 0 {
        decimal((size / 1_000_000) as nat) + "M"@
    } else if size >= 1_000 && size % 1_000 == 0 {
        decimal((size / 1_000) as nat) + "k"@
    } else {
        decimal(size as nat)
    }
}

/// What is shown of a context window; each part that is known.
pub open spec fn window_text(window: ContextWindow) -> Option<Seq<char>> {
    match (window.used, window.size) {
        (Some(used), Some(size)) => Some(decimal(used.points() as nat) + "% · "@ + size_text(size)),
        (None, Some(size)) => Some(size_text(size)),
        (Some(used), None) => Some(decimal(used.points() as nat) + "%"@),
        (None, None) => None,
    }
}

/// `text` in `role`.
pub open spec fn text_in_role(text: Seq<char>, role: Role) -> RenderedView {
    let plain = RenderedView::of_text(text);
    RenderedView { style: StyleView { role: Some(role), ..plain.style }, ..plain }
}

/// What the segment shows of `window`.
pub open spec fn window_outcome(window: Option<ContextWindow>) -> Outcome {
    match window {
        Some(w) => match window_text(w) {
            Some(text) => Ok(Some(text_in_role(text, Role::Info))),
            None => Ok(None),
        },
        None => Ok(None),
    }
}

/// `size` as it is shown.
pub fn format_size(size: u32) -> (r: String)
    ensures
        r@ == size_text(size),
{
    if size >= 1_000_000 && size % 1_000_000 == 0 {
        let mut r = decimal_string((size / 1_000_000) as u64);
        r.append("M");
        r
    } else if size >= 1_000 && size % 1_000 == 0 {
        let mut r = decimal_string((size / 1_000) as u64);
        r.append("k");
        r
    } else {
        decimal_string(size as u64)
    }
}

/// The context window as text.
#[derive(Debug, Clone, Copy, PartialEq, Eq)]
pub struct ContextWindowSegment;

impl Segment for ContextWindowSegment {
    open spec fn renders(&self, ctx: DataContext, rc: RenderContext, out: Outcome) -> bool {
        out == window_outcome(ctx.status.context_window)
    }

    open spec fn shrinks(
        &self,
        ctx: DataContext,
        rc: RenderContext,
        target: u16,
        out: Option<RenderedView>,
    ) -> bool {
        out is None
    }

    open spec fn declares(&self, d: SegmentDefaults) -> bool {
        d == SegmentDefaults::of_priority(32)
    }

    open spec fn reads(&self, deps: Seq<DataDep>) -> bool {
        deps == seq![DataDep::Status]
    }

    open spec fn pins_color(&self, pinned: bool) -> bool {
        !pinned
    }
    open spec fn explains(&self, ctx: DataContext, reason: Option<Seq<char>>) -> bool {
        reason == match ctx.status.context_window {
            None => Some("context_window: status.context_window absent; hiding"@),
            Some(w) => if w.used is None && w.size is None {
                Some("context_window: used and size both null; hiding"@)
            } else {
                None
            },
        }
    }

    fn render(&self, ctx: &DataContext, rc: &RenderContext) -> (r: RenderResult) {
        let window = match &ctx.status.context_window {
            Some(window) => window,
            None => {
                return Ok(None);
            },
        };
        let text = match (window.used, window.size) {
            (Some(used), Some(size)) => {
                let mut text = decimal_string(used.round_ties_even() as u64);
                text.append("% · ");
                text.append(format_size(size).as_str());
                text
            },
            (None, Some(size)) => format_size(size),
            (Some(used), None) => {
                let mut text = decimal_string(used.round_ties_even() as u64);
                text.append("%");
                text
            },
            (None, None) => {
                return Ok(None);
            },
        };
        Ok(Some(RenderedSegment::new(text.as_str()).with_role(Role::Info)))
    }

    fn shrink_to_fit(&self, ctx: &DataContext, rc: &RenderContext, target: u16) -> (r: Option<
        RenderedSegment,
    >) {
        None
    }

    fn data_deps(&self) -> (r: &'static [DataDep]) {
        let deps: &'static [DataDep] = &[DataDep::Status];
        assert(deps@ =~= seq![DataDep::Status]);
        deps
    }

    fn defaults(&self) -> (r: SegmentDefaults) {
        // Just above the workspace: the percentage is the health metric that
        // silently breaks sessions.
        SegmentDefaults::with_priority(32)
    }

    fn user_color_pinned(&self) -> (r: bool) {
        false
    }

    fn hiding_reason(&self, ctx: &DataContext) -> (r: Option<&'static str>) {
        match &ctx.status.context_window {
            None => Some("context_window: status.context_window absent; hiding"),
            Some(w) => if w.used.is_none() && w.size.is_none() {
                Some("context_window: used and size both null; hiding")
            } else {
                None
            },
        }
    }
}

} // verus!
