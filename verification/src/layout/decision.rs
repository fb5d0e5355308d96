//! The events of the layout: what it did to which segment, and why.

use std::borrow::Cow;

use vstd::prelude::*;

use crate::segments::separator::copy_cow;

verus! {

/// What `LayoutDecision` says.
pub enum DecisionView {
    PriorityDrop {
        id: Seq<char>,
        priority: u8,
        terminal_width: u16,
        overflow: u32,
        dropped_width: u16,
    },
    ShrinkApplied { id: Seq<char>, from: u16, to: u16, target: u16 },
    ReflowApplied { id: Seq<char>, from: u16, to: u16, target: u16 },
    WidthBoundUnderMinDrop { id: Seq<char>, rendered_width: u16, min: u16 },
    WidthBoundOverMaxTruncate { id: Seq<char>, rendered_width: u16, max: u16 },
}

impl DecisionView {
    /// What holds of the numbers of every event.
    pub open spec fn wf(self) -> bool {
        match self {
            DecisionView::PriorityDrop { priority, overflow, dropped_width, .. } => priority > 0
                && overflow >= 1 && dropped_width >= 1,
            DecisionView::ShrinkApplied { from, to, target, .. } => to <= target < from,
            DecisionView::ReflowApplied { from, to, target, .. } => to <= target < from,
            DecisionView::WidthBoundUnderMinDrop { rendered_width, min, .. } => rendered_width
                < min,
            DecisionView::WidthBoundOverMaxTruncate { rendered_width, max, .. } => rendered_width
                > max,
        }
    }
}

/// An event of the layout. `id` names the segment as the configuration does.
#[derive(Debug, PartialEq, Eq)]
pub enum LayoutDecision {
    /// A segment was removed under width pressure. `dropped_width` is its
    /// width before; `overflow` is what the line was too wide by.
    PriorityDrop {
        id: Cow<'static, str>,
        priority: u8,
        terminal_width: u16,
        overflow: u32,
        dropped_width: u16,
    },
    /// A segment's own compact form took its place.
    ShrinkApplied { id: Cow<'static, str>, from: u16, to: u16, target: u16 },
    /// A segment's text was cut at its end.
    ReflowApplied { id: Cow<'static, str>, from: u16, to: u16, target: u16 },
    /// A render was narrower than its lower bound and is hidden.
    WidthBoundUnderMinDrop { id: Cow<'static, str>, rendered_width: u16, min: u16 },
    /// A render was wider than its upper bound and was cut.
    WidthBoundOverMaxTruncate { id: Cow<'static, str>, rendered_width: u16, max: u16 },
}

impl View for LayoutDecision {
    type V = DecisionView;

    open spec fn view(&self) -> DecisionView {
        match self {
            LayoutDecision::PriorityDrop {
                id,
                priority,
                terminal_width,
                overflow,
                dropped_width,
            } => DecisionView::PriorityDrop {
                id: id@,
                priority: *priority,
                terminal_width: *terminal_width,
                overflow: *overflow,
                dropped_width: *dropped_width,
            },
            LayoutDecision::ShrinkApplied { id, from, to, target } => DecisionView::ShrinkApplied {
                id: id@,
                from: *from,
                to: *to,
                target: *target,
            },
            LayoutDecision::ReflowApplied { id, from, to, target } => DecisionView::ReflowApplied {
                id: id@,
                from: *from,
                to: *to,
                target: *target,
            },
            LayoutDecision::WidthBoundUnderMinDrop { id, rendered_width, min } =>
                DecisionView::WidthBoundUnderMinDrop {
                    id: id@,
                    rendered_width: *rendered_width,
                    min: *min,
                },
            LayoutDecision::WidthBoundOverMaxTruncate { id, rendered_width, max } =>
                DecisionView::WidthBoundOverMaxTruncate {
                    id: id@,
                    rendered_width: *rendered_width,
                    max: *max,
                },
        }
    }
}

impl Clone for LayoutDecision {
    fn clone(&self) -> (r: LayoutDecision)
        ensures
            r@ == self@,
    {
        match self {
            LayoutDecision::PriorityDrop {
                id,
                priority,
                terminal_width,
                overflow,
                dropped_width,
            } => LayoutDecision::PriorityDrop {
                id: copy_cow(id),
                priority: *priority,
                terminal_width: *terminal_width,
                overflow: *overflow,
                dropped_width: *dropped_width,
            },
            LayoutDecision::ShrinkApplied { id, from, to, target } =>
                LayoutDecision::ShrinkApplied {
                    id: copy_cow(id),
                    from: *from,
                    to: *to,
                    target: *target,
                },
            LayoutDecision::ReflowApplied { id, from, to, target } =>
                LayoutDecision::ReflowApplied {
                    id: copy_cow(id),
                    from: *from,
                    to: *to,
                    target: *target,
                },
            LayoutDecision::WidthBoundUnderMinDrop { id, rendered_width, min } =>
                LayoutDecision::WidthBoundUnderMinDrop {
                    id: copy_cow(id),
                    rendered_width: *rendered_width,
                    min: *min,
                },
            LayoutDecision::WidthBoundOverMaxTruncate { id, rendered_width, max } =>
                LayoutDecision::WidthBoundOverMaxTruncate {
                    id: copy_cow(id),
                    rendered_width: *rendered_width,
                    max: *max,
                },
        }
    }
}

impl LayoutDecision {
    /// What the user could do about the event, where there is something.
    #[must_use]
    pub fn remediation(&self) -> (r: Option<&'static str>)
        ensures
            match self {
                LayoutDecision::ShrinkApplied { .. } => r is Some && r->0@
                    == "Set `width.max` to clamp earlier"@,
                LayoutDecision::WidthBoundOverMaxTruncate { .. } => r is Some && r->0@
                    == "Increase `width.max` or lower `priority`"@,
                _ => r is None,
            },
    {
        match self {
            LayoutDecision::ShrinkApplied { .. } => Some("Set `width.max` to clamp earlier"),
            LayoutDecision::WidthBoundOverMaxTruncate { .. } => Some(
                "Increase `width.max` or lower `priority`",
            ),
            LayoutDecision::PriorityDrop { .. } => None,
            LayoutDecision::ReflowApplied { .. } => None,
            LayoutDecision::WidthBoundUnderMinDrop { .. } => None,
        }
    }

    /// A drop: of a segment that may be dropped, in a line that is too wide.
    #[must_use]
    pub fn priority_drop(
        id: Cow<'static, str>,
        priority: u8,
        terminal_width: u16,
        overflow: u32,
        dropped_width: u16,
    ) -> (r: LayoutDecision)
        requires
            priority > 0,
            overflow >= 1,
            dropped_width >= 1,
        ensures
            r@ == (DecisionView::PriorityDrop {
                id: id@,
                priority,
                terminal_width,
                overflow,
                dropped_width,
            }),
            r@.wf(),
    {
        LayoutDecision::PriorityDrop { id, priority, terminal_width, overflow, dropped_width }
    }

    /// A segment that shrank from `from` to `to` cells.
    #[must_use]
    pub fn shrink_applied(id: Cow<'static, str>, from: u16, to: u16, target: u16) -> (r:
        LayoutDecision)
        requires
            to <= target < from,
        ensures
            r@ == (DecisionView::ShrinkApplied { id: id@, from, to, target }),
            r@.wf(),
    {
        LayoutDecision::ShrinkApplied { id, from, to, target }
    }

    /// A segment that was cut from `from` to `to` cells.
    #[must_use]
    pub fn reflow_applied(id: Cow<'static, str>, from: u16, to: u16, target: u16) -> (r:
        LayoutDecision)
        requires
            to <= target < from,
        ensures
            r@ == (DecisionView::ReflowApplied { id: id@, from, to, target }),
            r@.wf(),
    {
        LayoutDecision::ReflowApplied { id, from, to, target }
    }

    /// A render below its lower bound.
    #[must_use]
    pub fn width_bound_under_min_drop(id: Cow<'static, str>, rendered_width: u16, min: u16) -> (r:
        LayoutDecision)
        requires
            rendered_width < min,
        ensures
            r@ == (DecisionView::WidthBoundUnderMinDrop { id: id@, rendered_width, min }),
            r@.wf(),
    {
        LayoutDecision::WidthBoundUnderMinDrop { id, rendered_width, min }
    }

    /// A render above its upper bound.
    #[must_use]
    pub fn width_bound_over_max_truncate(
        id: Cow<'static, str>,
        rendered_width: u16,
        max: u16,
    ) -> (r: LayoutDecision)
        requires
            rendered_width > max,
        ensures
            r@ == (DecisionView::WidthBoundOverMaxTruncate { id: id@, rendered_width, max }),
            r@.wf(),
    {
        LayoutDecision::WidthBoundOverMaxTruncate { id, rendered_width, max }
    }
}

} // verus!
