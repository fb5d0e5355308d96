//! Layout engine. Takes a list of segments and fits their renders into a
//! terminal-width budget, dropping the segments of the highest priority
//! number first. A segment may offer a compact form, and one that allows it
//! is cut, before it is dropped. Segments of priority 0 are never dropped or
//! cut, even when the line overflows.

use std::borrow::Cow;

use vstd::prelude::*;
use vstd::string::StringExecFns;

use crate::cells::{cell_width, grapheme_clusters, graphemes, joined, str_texts, text_width};
use crate::data_context::DataContext;
use crate::diagnostics::{texts, Messages};
use crate::layout::decision::{DecisionView, LayoutDecision};
use crate::layout::model::{
    accepted, answer_notices, bound_decisions, bounded, collected, compacted, drop_rank, dropped,
    first_to_go, fit_report, fitted, fitting, heard_form, line_runs, link_open, may_answer, may_fit,
    may_render, may_say, may_say_all, may_show, next_entry, painted, placed, preference_at,
    preferences, preferred_separator, reason_traces, reflowed, replacement, run_ansi, runs_ansi,
    segment_cells, segment_placed, separator_look, separator_placed, settled, shown_as,
    shrink_target, step_decisions, step_report, stepped, total, truncated, used_cells,
    width_notices, without_trailing, CollectedView, EntryView, Heard, ItemView, ReportView,
};
use crate::segments::rendered::{GroupColor, RenderedSegment, RenderedView};
use crate::segments::segment::{
    outcome_of, reason_in, rendered_in, LineItem, RenderContext, RenderResult, Segment, SegmentBox,
};
use crate::segments::separator::{copy_cow, SegmentDefaults, Separator, WidthBounds};
use crate::text::{decimal_string, is_printable, sanitize_control_chars};
use crate::theme::{join_runs, run_views, runs_text, Role, RunView, Style, StyledRun};

pub mod decision;
pub mod laws;
pub mod line_laws;
pub mod model;
pub mod steps;

verus! {

/// What a line reports while it is rendered.
#[derive(Debug, PartialEq, Eq)]
pub struct LayoutObservers {
    /// Segments that failed to render.
    pub warnings: Messages,
    /// Segments whose compact form was wider than asked.
    pub notices: Messages,
    /// Why segments hide, where they say so.
    pub traces: Messages,
    /// What the layout did, in order.
    pub decisions: Vec<LayoutDecision>,
}

/// The events of `v`.
pub open spec fn decision_views(v: Seq<LayoutDecision>) -> Seq<DecisionView> {
    Seq::new(v.len(), |i: int| v[i]@)
}

impl View for LayoutObservers {
    type V = ReportView;

    open spec fn view(&self) -> ReportView {
        ReportView {
            warnings: self.warnings@,
            notices: self.notices@,
            traces: self.traces@,
            decisions: decision_views(self.decisions@),
        }
    }
}

impl LayoutObservers {
    /// Nothing reported yet.
    pub fn new() -> (r: LayoutObservers)
        ensures
            r@ == ReportView::empty(),
    {
        let r = LayoutObservers {
            warnings: Messages::new(),
            notices: Messages::new(),
            traces: Messages::new(),
            decisions: Vec::new(),
        };
        assert(decision_views(r.decisions@) =~= seq![]);
        r
    }

    /// Report a segment that failed.
    fn warn(&mut self, message: String)
        ensures
            final(self)@ == old(self)@.then_report(
                ReportView { warnings: seq![message@], ..ReportView::empty() },
            ),
    {
        self.warnings.push(message);
        assert(self@.warnings =~= old(self)@.warnings + seq![message@]);
        assert(self@.notices =~= old(self)@.notices + seq![]);
        assert(self@.traces =~= old(self)@.traces + seq![]);
        assert(self@.decisions =~= old(self)@.decisions + seq![]);
    }

    /// Report a segment that broke its word.
    fn notice(&mut self, message: String)
        ensures
            final(self)@ == old(self)@.then_report(
                ReportView { notices: seq![message@], ..ReportView::empty() },
            ),
    {
        self.notices.push(message);
        assert(self@.warnings =~= old(self)@.warnings + seq![]);
        assert(self@.notices =~= old(self)@.notices + seq![message@]);
        assert(self@.traces =~= old(self)@.traces + seq![]);
        assert(self@.decisions =~= old(self)@.decisions + seq![]);
    }

    /// Say why a segment hides, where it said so.
    fn trace(&mut self, reason: Option<&'static str>)
        ensures
            final(self)@ == old(self)@.then_report(
                ReportView { traces: reason_traces(reason_in(reason)), ..ReportView::empty() },
            ),
    {
        match reason {
            Some(words) => {
                self.traces.push(words.to_owned());
            },
            None => {},
        }
        assert(self@.warnings =~= old(self)@.warnings + seq![]);
        assert(self@.notices =~= old(self)@.notices + seq![]);
        assert(self@.traces =~= old(self)@.traces + reason_traces(reason_in(reason)));
        assert(self@.decisions =~= old(self)@.decisions + seq![]);
    }

    /// Report what the layout did.
    fn decide(&mut self, decision: LayoutDecision)
        ensures
            final(self)@ == old(self)@.then_report(
                ReportView { decisions: seq![decision@], ..ReportView::empty() },
            ),
    {
        self.decisions.push(decision);
        assert(self@.warnings =~= old(self)@.warnings + seq![]);
        assert(self@.notices =~= old(self)@.notices + seq![]);
        assert(self@.traces =~= old(self)@.traces + seq![]);
        assert(self@.decisions =~= old(self)@.decisions + seq![decision@]);
    }
}

/// A segment that rendered, with what is needed to place it and to ask it for
/// a compact form.
pub struct SegmentEntry<'a> {
    pub id: &'a Cow<'static, str>,
    pub rendered: RenderedSegment,
    pub defaults: SegmentDefaults,
    pub segment: &'a SegmentBox,
    /// The color that the segment takes from the lead of its group.
    pub paint: Option<GroupColor>,
}

impl<'a> View for SegmentEntry<'a> {
    type V = EntryView;

    open spec fn view(&self) -> EntryView {
        EntryView {
            id: self.id@,
            rendered: self.rendered@,
            defaults: self.defaults,
            segment: *self.segment,
            paint: self.paint,
        }
    }
}

/// One slot of a line that is laid out.
pub enum LayoutItem<'a> {
    Segment(SegmentEntry<'a>),
    Separator(Separator),
}

impl<'a> View for LayoutItem<'a> {
    type V = ItemView;

    open spec fn view(&self) -> ItemView {
        match self {
            LayoutItem::Segment(e) => ItemView::Segment(e@),
            LayoutItem::Separator(s) => ItemView::Separator(s@),
        }
    }
}

/// The slots of `v`.
pub open spec fn item_views(v: Seq<LayoutItem<'_>>) -> Seq<ItemView> {
    Seq::new(v.len(), |i: int| v[i]@)
}

proof fn lemma_joined_split(pieces: Seq<Seq<char>>, n: int)
    requires
        0 <= n <= pieces.len(),
    ensures
        joined(pieces) == joined(pieces.take(n)) + joined(pieces.skip(n)),
    decreases pieces.len() - n,
{
    if n == pieces.len() {
        assert(pieces.take(n) =~= pieces);
        assert(pieces.skip(n) =~= seq![]);
        assert(joined(pieces.skip(n)) =~= seq![]);
        assert(joined(pieces) =~= joined(pieces) + joined(pieces.skip(n)));
    } else {
        lemma_joined_split(pieces.drop_last(), n);
        assert(pieces.drop_last().take(n) =~= pieces.take(n));
        assert(pieces.drop_last().skip(n) =~= pieces.skip(n).drop_last());
        assert(pieces.skip(n).last() == pieces.last());
        assert(joined(pieces) =~= joined(pieces.take(n)) + joined(pieces.skip(n)));
    }
}

/// A cut keeps its text printable and its width within the limit.
proof fn lemma_truncated(rendered: RenderedView, max_cells: u16)
    requires
        joined(grapheme_clusters(rendered.text)) == rendered.text,
    ensures
        truncated(rendered, max_cells).width <= max_cells,
        is_printable(rendered.text) ==> is_printable(truncated(rendered, max_cells).text),
{
    if max_cells > 0 {
        let clusters = grapheme_clusters(rendered.text);
        let n = fitting(clusters, max_cells - 1) as int;
        lemma_fitting(clusters, max_cells - 1);
        lemma_joined_split(clusters, n);
        let kept = joined(clusters.take(n));
        if is_printable(rendered.text) {
            assert forall|i: int| 0 <= i < kept.push('…').len() implies !crate::text::is_control(
                #[trigger] kept.push('…')[i],
            ) by {
                if i < kept.len() {
                    assert(kept[i] == rendered.text[i]);
                }
            }
        }
    }
}

/// What fits takes no more than the budget, and one cluster more would.
pub proof fn lemma_fitting(clusters: Seq<Seq<char>>, budget: int)
    requires
        budget >= 0,
    ensures
        fitting(clusters, budget) <= clusters.len(),
        0 <= used_cells(clusters.take(fitting(clusters, budget) as int)) <= budget,
        fitting(clusters, budget) < clusters.len() ==> used_cells(
            clusters.take(fitting(clusters, budget) as int + 1),
        ) > budget,
    decreases clusters.len(),
{
    let n = fitting(clusters, budget) as int;
    if clusters.len() == 0 || cell_width(clusters[0]) > budget {
        assert(clusters.take(0) =~= seq![]);
        if clusters.len() > 0 {
            reveal_with_fuel(used_cells, 2);
            assert(clusters.take(1).drop_last() =~= seq![]);
        }
    } else {
        let rest = clusters.skip(1);
        let left = budget - cell_width(clusters[0]);
        lemma_fitting(rest, left);
        lemma_used_first(clusters.take(n));
        assert(clusters.take(n).skip(1) =~= rest.take(n - 1));
        if n < clusters.len() {
            lemma_used_first(clusters.take(n + 1));
            assert(clusters.take(n + 1).skip(1) =~= rest.take(n));
        }
    }
}

proof fn lemma_used_first(clusters: Seq<Seq<char>>)
    requires
        clusters.len() > 0,
    ensures
        used_cells(clusters) == cell_width(clusters[0]) + used_cells(clusters.skip(1)),
    decreases clusters.len(),
{
    if clusters.len() == 1 {
        reveal_with_fuel(used_cells, 2);
        assert(clusters.skip(1) =~= seq![]);
        assert(clusters.drop_last() =~= seq![]);
    } else {
        lemma_used_first(clusters.drop_last());
        assert(clusters.drop_last().skip(1) =~= clusters.skip(1).drop_last());
        assert(clusters.skip(1).last() == clusters.last());
    }
}

/// Cut `rendered` to at most `max_cells` terminal cells, with `…` as a sign
/// that something is missing. The cut falls between grapheme clusters.
pub fn truncate_to(rendered: RenderedSegment, max_cells: u16) -> (r: RenderedSegment)
    ensures
        r@ == truncated(rendered@, max_cells),
        r@.width <= max_cells,
        r@.wf(),
{
    if max_cells == 0 {
        return RenderedSegment::from_parts(rendered, String::new(), 0);
    }
    let budget: u16 = max_cells - 1;
    let mut out = String::new();
    let mut used: u16 = 0;
    let clusters = graphemes(rendered.text());
    let ghost views = str_texts(clusters@);
    let mut i: usize = 0;
    assert(views.skip(0) =~= views);
    while i < clusters.len()
        invariant
            i <= clusters@.len(),
            views == str_texts(clusters@),
            out@ == joined(views.take(i as int)),
            used == used_cells(views.take(i as int)),
            used <= budget,
            fitting(views, budget as int) == i + fitting(views.skip(i as int), budget - used),
        ensures
            fitting(views, budget as int) == i,
        decreases clusters@.len() - i,
    {
        let w: u16 = text_width(clusters[i]);
        proof {
            assert(views[i as int] == clusters@[i as int]@);
            assert(views.skip(i as int)[0] == views[i as int]);
            assert(views.take(i + 1).drop_last() =~= views.take(i as int));
            assert(views.skip(i as int).skip(1) =~= views.skip(i + 1));
        }
        if w > budget - used {
            break;
        }
        out.append(clusters[i]);
        used = used + w;
        i += 1;
    }
    proof {
        lemma_truncated(rendered@, max_cells);
    }
    out.push('…');
    RenderedSegment::from_parts(rendered, out, used + 1)
}

/// Apply `bounds`: a render below the lower bound is hidden, one above the
/// upper bound is cut.
pub fn apply_width_bounds(rendered: RenderedSegment, bounds: Option<WidthBounds>) -> (r: Option<
    RenderedSegment,
>)
    ensures
        rendered_in(r) == bounded(rendered@, bounds),
{
    match bounds {
        None => Some(rendered),
        Some(b) => {
            if rendered.width() < b.min() {
                None
            } else if rendered.width() > b.max() {
                Some(truncate_to(rendered, b.max()))
            } else {
                Some(rendered)
            }
        },
    }
}

/// A line is no wider than its slots can be, and no narrower than its front.
proof fn lemma_total(items: Seq<ItemView>, n: int)
    requires
        0 <= n <= items.len(),
    ensures
        0 <= total(items.take(n)) <= total(items) <= items.len() * 0xffff,
    decreases items.len(),
{
    if n < items.len() {
        lemma_total(items.drop_last(), n);
        assert(items.drop_last().take(n) =~= items.take(n));
    } else {
        assert(items.take(n) =~= items);
        if n > 0 {
            lemma_total(items.drop_last(), n - 1);
        }
    }
}

/// The sum of the widths of `items`.
pub fn total_width(items: &Vec<LayoutItem<'_>>) -> (r: u32)
    requires
        total(item_views(items@)) <= u32::MAX,
    ensures
        r == total(item_views(items@)),
{
    let mut sum: u32 = 0;
    let ghost views = item_views(items@);
    let mut i: usize = 0;
    while i < items.len()
        invariant
            i <= items@.len(),
            views == item_views(items@),
            sum == total(views.take(i as int)),
            total(views) <= u32::MAX,
        decreases items@.len() - i,
    {
        proof {
            assert(views.take(i + 1).drop_last() =~= views.take(i as int));
            lemma_total(views, i + 1);
        }
        let w: u16 = match &items[i] {
            LayoutItem::Segment(e) => e.rendered.width(),
            LayoutItem::Separator(s) => s.width(),
        };
        assert(w == views[i as int].width());
        sum = sum + w as u32;
        i += 1;
    }
    assert(views.take(i as int) =~= views);
    sum
}

/// The segment that goes first holds a segment that may be dropped, none may
/// be dropped before it, and of those like it it stands right-most.
pub proof fn lemma_first_to_go(items: Seq<ItemView>)
    ensures
        match first_to_go(items) {
            Some(k) => {
                &&& 0 <= k < items.len()
                &&& items[k] is Segment
                &&& drop_rank(items[k]) > 0
                &&& forall|j: int|
                    0 <= j < items.len() ==> drop_rank(#[trigger] items[j]) <= drop_rank(items[k])
                &&& forall|j: int|
                    k < j < items.len() ==> drop_rank(#[trigger] items[j]) < drop_rank(items[k])
            },
            None => forall|j: int| 0 <= j < items.len() ==> drop_rank(#[trigger] items[j]) == 0,
        },
    decreases items.len(),
{
    if items.len() > 0 {
        let before = items.drop_last();
        lemma_first_to_go(before);
        assert forall|j: int| 0 <= j < items.len() - 1 implies #[trigger] items[j] == before[j] by {
        }
    }
}

/// The segment that goes first, or `None` when every segment is pinned.
pub fn highest_priority_droppable(items: &Vec<LayoutItem<'_>>) -> (r: Option<usize>)
    ensures
        match r {
            Some(k) => first_to_go(item_views(items@)) == Some(k as int),
            None => first_to_go(item_views(items@)) is None,
        },
        match r {
            Some(k) => {
                &&& k < items@.len()
                &&& items@[k as int] matches LayoutItem::Segment(e)
                &&& e.defaults.priority > 0
                &&& forall|j: int|
                    0 <= j < items@.len() ==> (#[trigger] items@[j] matches LayoutItem::Segment(f)
                        ==> f.defaults.priority <= e.defaults.priority)
                &&& forall|j: int|
                    k < j < items@.len() ==> (#[trigger] items@[j] matches LayoutItem::Segment(f)
                        ==> f.defaults.priority < e.defaults.priority)
            },
            None => forall|j: int|
                0 <= j < items@.len() ==> (#[trigger] items@[j] matches LayoutItem::Segment(f)
                    ==> f.defaults.priority == 0),
        },
{
    let mut found: Option<usize> = None;
    let mut rank: u8 = 0;
    let ghost views = item_views(items@);
    let mut i: usize = 0;
    while i < items.len()
        invariant
            i <= items@.len(),
            views == item_views(items@),
            match found {
                Some(k) => first_to_go(views.take(i as int)) == Some(k as int) && k < i && rank
                    == drop_rank(views[k as int]),
                None => first_to_go(views.take(i as int)) is None && rank == 0,
            },
        decreases items@.len() - i,
    {
        assert(views.take(i + 1).drop_last() =~= views.take(i as int));
        let here: u8 = match &items[i] {
            LayoutItem::Segment(e) => e.defaults.priority,
            LayoutItem::Separator(_) => 0,
        };
        assert(here == drop_rank(views[i as int]));
        if here > 0 && rank <= here {
            found = Some(i);
            rank = here;
        }
        i += 1;
    }
    assert(views.take(i as int) =~= views);
    proof {
        lemma_first_to_go(views);
        assert forall|j: int| 0 <= j < items@.len() implies drop_rank(views[j]) == drop_rank(
            (#[trigger] items@[j])@,
        ) by {}
    }
    found
}

/// Remove a separator at the end of `out`.
fn pop_trailing_separator(out: &mut Vec<LayoutItem<'_>>)
    ensures
        item_views(final(out)@) == without_trailing(item_views(old(out)@)),
{
    let ghost before = item_views(out@);
    let n: usize = out.len();
    if n > 0 {
        let trailing: bool = match &out[n - 1] {
            LayoutItem::Separator(_) => true,
            LayoutItem::Segment(_) => false,
        };
        assert(before.last() == out@[n - 1]@);
        if trailing {
            let _ = out.pop();
            assert(item_views(out@) =~= before.drop_last());
        }
    }
}

/// Take the preference of the segment at `idx` over into the separator on its
/// right, where there is one.
pub fn apply_override_at(items: &mut Vec<LayoutItem<'_>>, idx: usize)
    requires
        idx < old(items)@.len(),
    ensures
        item_views(final(items)@) == preference_at(item_views(old(items)@), idx as int),
{
    let ghost before = item_views(items@);
    let wanted: Option<Separator> = match &items[idx] {
        LayoutItem::Segment(e) => match e.rendered.right_separator() {
            Some(s) => Some(s.clone()),
            None => None,
        },
        LayoutItem::Separator(_) => None,
    };
    assert(before[idx as int] == items@[idx as int]@);
    if let Some(s) = wanted {
        if idx < items.len() - 1 {
            let beside: bool = match &items[idx + 1] {
                LayoutItem::Separator(_) => true,
                LayoutItem::Segment(_) => false,
            };
            assert(before[idx + 1] == items@[idx + 1]@);
            if beside {
                items.set(idx + 1, LayoutItem::Separator(s));
                assert(item_views(items@) =~= before.update(idx + 1, ItemView::Separator(s@)));
            }
        }
    }
}

/// Drop the segment at `idx` and one separator beside it: the one on its
/// right, or else the one on its left.
pub fn drop_segment_and_adjacent_separator(items: &mut Vec<LayoutItem<'_>>, idx: usize)
    requires
        idx < old(items)@.len(),
    ensures
        item_views(final(items)@) == dropped(item_views(old(items)@), idx as int),
{
    let ghost before = item_views(items@);
    let next_is_sep: bool = if idx < items.len() - 1 {
        match &items[idx + 1] {
            LayoutItem::Separator(_) => true,
            LayoutItem::Segment(_) => false,
        }
    } else {
        false
    };
    let prev_is_sep: bool = if idx > 0 {
        match &items[idx - 1] {
            LayoutItem::Separator(_) => true,
            LayoutItem::Segment(_) => false,
        }
    } else {
        false
    };
    proof {
        if idx + 1 < items@.len() {
            assert(before[idx + 1] == items@[idx + 1]@);
        }
        if idx > 0 {
            assert(before[idx - 1] == items@[idx - 1]@);
        }
    }
    let _ = items.remove(idx);
    assert(item_views(items@) =~= before.remove(idx as int));
    if next_is_sep {
        let _ = items.remove(idx);
        assert(item_views(items@) =~= before.remove(idx as int).remove(idx as int));
    } else if prev_is_sep {
        let _ = items.remove(idx - 1);
        assert(item_views(items@) =~= before.remove(idx as int).remove(idx - 1));
    }
}

/// The width that `item` is asked to shrink to when the line is `overflow`
/// cells too wide; `None` where it cannot give that many.
pub fn shrink_request(item: &SegmentEntry<'_>, overflow: u32) -> (r: Option<u16>)
    ensures
        r == shrink_target(item@, overflow as int),
{
    let cur: u16 = item.rendered.width();
    let floor: u16 = match item.defaults.width {
        Some(b) => b.min(),
        None => 0,
    };
    if overflow > cur as u32 {
        return None;
    }
    let target: u16 = cur - overflow as u16;
    if target < floor {
        None
    } else {
        Some(target)
    }
}

/// `rendered` in the color of its group, where it takes one.
fn in_color(rendered: RenderedSegment, paint: Option<GroupColor>) -> (r: RenderedSegment)
    ensures
        r@ == painted(rendered@, paint),
{
    let mut r = rendered;
    match paint {
        Some(color) => {
            r.recolor_for_group(color);
        },
        None => {},
    }
    r
}

/// Hold a segment's `answer` to the `target` it was asked for. A form wider
/// than that is refused, and the segment's author is told; one narrower than
/// the user's lower bound is refused.
pub fn accept_shrink(
    item: &SegmentEntry<'_>,
    target: u16,
    answer: Option<RenderedSegment>,
    observers: &mut LayoutObservers,
) -> (r: Option<RenderedSegment>)
    ensures
        rendered_in(r) == accepted(item@, target, rendered_in(answer)),
        final(observers)@ == old(observers)@.then_report(
            ReportView {
                notices: width_notices(target, rendered_in(answer)),
                ..ReportView::empty()
            },
        ),
{
    let floor: u16 = match item.defaults.width {
        Some(b) => b.min(),
        None => 0,
    };
    proof {
        lemma_report_empty(observers@);
    }
    match answer {
        Some(shrunk) => {
            let width: u16 = shrunk.width();
            if width > target {
                let mut message = "segment shrink_to_fit returned width ".to_owned();
                message.append(decimal_string(width as u64).as_str());
                message.append(" > target ");
                message.append(decimal_string(target as u64).as_str());
                message.append("; rejecting");
                observers.notice(message);
                None
            } else if width < floor {
                None
            } else {
                Some(in_color(shrunk, item.paint))
            }
        },
        None => None,
    }
}

/// Ask `item` for a form that is `overflow` cells narrower.
pub fn try_shrink(
    item: &SegmentEntry<'_>,
    ctx: &DataContext,
    rc: &RenderContext,
    overflow: u32,
    observers: &mut LayoutObservers,
) -> (r: Option<RenderedSegment>)
    ensures
        exists|answer: Option<RenderedView>|
            {
                &&& #[trigger] may_say(item@, overflow as int, *ctx, *rc, answer)
                &&& rendered_in(r) == compacted(item@, overflow as int, answer)
                &&& final(observers)@ == old(observers)@.then_report(
                    ReportView {
                        notices: answer_notices(item@, overflow as int, answer),
                        ..ReportView::empty()
                    },
                )
            },
{
    proof {
        lemma_report_empty(observers@);
    }
    match shrink_request(item, overflow) {
        None => {
            assert(may_say(item@, overflow as int, *ctx, *rc, None));
            None
        },
        Some(target) => {
            let answer = item.segment.segment.shrink_to_fit(ctx, rc, target);
            assert(may_say(item@, overflow as int, *ctx, *rc, rendered_in(answer)));
            accept_shrink(item, target, answer, observers)
        },
    }
}

/// Cut `item` by `overflow` cells, or `None` where less than a cluster and
/// the ellipsis, or less than the user's lower bound, would be left.
pub fn try_reflow(item: &SegmentEntry<'_>, overflow: u32) -> (r: Option<RenderedSegment>)
    ensures
        rendered_in(r) == reflowed(item@, overflow as int),
        r matches Some(cut) ==> overflow <= item@.rendered.width && cut@.width
            <= item@.rendered.width - overflow,
{
    let floor: u16 = match item.defaults.width {
        Some(b) => if b.min() > 2 {
            b.min()
        } else {
            2
        },
        None => 2,
    };
    let cur: u16 = item.rendered.width();
    if overflow > cur as u32 {
        return None;
    }
    let target: u16 = cur - overflow as u16;
    if target < floor {
        return None;
    }
    let cut = truncate_to(item.rendered.clone(), target);
    if cut.width() < floor {
        None
    } else {
        Some(cut)
    }
}

proof fn lemma_report_empty(report: ReportView)
    ensures
        report.then_report(ReportView::empty()) == report,
        ReportView::empty().then_report(report) == report,
{
    assert(report.warnings + seq![] =~= report.warnings);
    assert(report.notices + seq![] =~= report.notices);
    assert(report.traces + seq![] =~= report.traces);
    assert(report.decisions + seq![] =~= report.decisions);
    assert(seq![] + report.warnings =~= report.warnings);
    assert(seq![] + report.notices =~= report.notices);
    assert(seq![] + report.traces =~= report.traces);
    assert(seq![] + report.decisions =~= report.decisions);
}

proof fn lemma_report_assoc(a: ReportView, b: ReportView, c: ReportView)
    ensures
        a.then_report(b).then_report(c) == a.then_report(b.then_report(c)),
{
    assert((a.warnings + b.warnings) + c.warnings =~= a.warnings + (b.warnings + c.warnings));
    assert((a.notices + b.notices) + c.notices =~= a.notices + (b.notices + c.notices));
    assert((a.traces + b.traces) + c.traces =~= a.traces + (b.traces + c.traces));
    assert((a.decisions + b.decisions) + c.decisions =~= a.decisions + (b.decisions + c.decisions));
}

/// What a segment says of itself: its layout intent, whether the user fixed
/// its color, its render, and why it hides.
pub struct Said {
    pub defaults: SegmentDefaults,
    pub pinned: bool,
    pub outcome: RenderResult,
    pub reason: Option<&'static str>,
}

/// What `said` says.
pub open spec fn heard_of(said: Said) -> Heard {
    Heard {
        defaults: said.defaults,
        pinned: said.pinned,
        outcome: outcome_of(said.outcome),
        reason: reason_in(said.reason),
    }
}

/// Ask `segment` what it says of itself. Only one that hides is asked why.
fn hear(segment: &SegmentBox, ctx: &DataContext, rc: &RenderContext) -> (r: Said)
    ensures
        may_say_all(*segment, *ctx, *rc, heard_of(r)),
{
    let defaults = segment.segment.defaults();
    let pinned: bool = segment.segment.user_color_pinned();
    let outcome = segment.segment.render(ctx, rc);
    let reason = match &outcome {
        Ok(None) => segment.segment.hiding_reason(ctx),
        _ => None,
    };
    Said { defaults, pinned, outcome, reason }
}

/// Place a segment of which `said` was heard behind `out`, in the color of the
/// group `lead` where it fuses with that; the first of a group to show leads
/// it. A segment that fails or hides takes the separator in front of it away,
/// as does one below its lower width bound.
pub fn place_segment<'a>(
    out: &mut Vec<LayoutItem<'a>>,
    id: &'a Cow<'static, str>,
    segment: &'a SegmentBox,
    fuses_left: bool,
    said: Said,
    lead: &mut Option<GroupColor>,
    observers: &mut LayoutObservers,
)
    ensures
        (CollectedView {
            items: item_views(final(out)@),
            report: final(observers)@,
            lead: *final(lead),
        }) == segment_placed(
            CollectedView {
                items: item_views(old(out)@),
                report: old(observers)@,
                lead: *old(lead),
            },
            id@,
            *segment,
            fuses_left,
            heard_of(said),
        ),
{
    let ghost before = item_views(out@);
    proof {
        lemma_report_empty(observers@);
    }
    let defaults = said.defaults;
    if !fuses_left {
        *lead = None;
    }
    let paint: Option<GroupColor> = if said.pinned {
        None
    } else {
        *lead
    };
    match said.outcome {
        Ok(Some(rendered)) => {
            let width: u16 = rendered.width();
            match defaults.width {
                Some(b) => {
                    if width < b.min() {
                        observers.decide(
                            LayoutDecision::width_bound_under_min_drop(
                                copy_cow(id),
                                width,
                                b.min(),
                            ),
                        );
                    } else if width > b.max() {
                        observers.decide(
                            LayoutDecision::width_bound_over_max_truncate(
                                copy_cow(id),
                                width,
                                b.max(),
                            ),
                        );
                    }
                },
                None => {},
            }
            match apply_width_bounds(rendered, defaults.width) {
                Some(rendered) => {
                    if lead.is_none() {
                        *lead = Some(rendered.group_lead_color());
                    }
                    let rendered = in_color(rendered, paint);
                    out.push(
                        LayoutItem::Segment(
                            SegmentEntry { id, rendered, defaults, segment, paint },
                        ),
                    );
                    assert(item_views(out@) =~= before.push(out@[before.len() as int]@));
                },
                None => {
                    pop_trailing_separator(out);
                },
            }
        },
        Ok(None) => {
            observers.trace(said.reason);
            pop_trailing_separator(out);
        },
        Err(error) => {
            let mut message = "segment error: ".to_owned();
            message.append(error.to_text().as_str());
            observers.warn(message);
            pop_trailing_separator(out);
        },
    }
}

/// Place a separator behind `out`, if a segment stands there.
pub fn place_separator(out: &mut Vec<LayoutItem<'_>>, sep: &Separator)
    ensures
        item_views(final(out)@) == separator_placed(
            CollectedView {
                items: item_views(old(out)@),
                report: ReportView::empty(),
                lead: None,
            },
            sep@,
        ).items,
{
    let ghost before = item_views(out@);
    let n: usize = out.len();
    if n > 0 {
        let behind_segment: bool = match &out[n - 1] {
            LayoutItem::Segment(_) => true,
            LayoutItem::Separator(_) => false,
        };
        assert(before.last() == out@[n - 1]@);
        if behind_segment {
            out.push(LayoutItem::Separator(sep.clone()));
            assert(item_views(out@) =~= before.push(ItemView::Separator(sep@)));
        }
    }
}

proof fn lemma_placed_prefix(items: Seq<LineItem>, a: Seq<Heard>, b: Seq<Heard>)
    requires
        items.len() <= a.len(),
        items.len() <= b.len(),
        forall|i: int| 0 <= i < items.len() ==> #[trigger] a[i] == b[i],
    ensures
        placed(items, a) == placed(items, b),
    decreases items.len(),
{
    if items.len() > 0 {
        lemma_placed_prefix(items.drop_last(), a, b);
        assert(a[items.len() - 1] == b[items.len() - 1]);
    }
}

/// Render every segment of `items` and gather what shows. A group shows in the
/// color of its lead. A separator stays only between two segments that show; a
/// segment's own preference replaces the separator on its right.
pub fn collect_items_with<'a>(
    items: &'a [LineItem],
    ctx: &DataContext,
    rc: &RenderContext,
    observers: &mut LayoutObservers,
) -> (r: Vec<LayoutItem<'a>>)
    ensures
        r@.len() <= items@.len(),
        exists|heard: Seq<Heard>|
            {
                &&& #[trigger] may_render(items@, *ctx, *rc, heard)
                &&& item_views(r@) == collected(items@, heard).items
                &&& final(observers)@ == old(observers)@.then_report(
                    collected(items@, heard).report,
                )
            },
{
    let mut out: Vec<LayoutItem<'a>> = Vec::new();
    let mut lead: Option<GroupColor> = None;
    let ghost mut heard: Seq<Heard> = seq![];
    let ghost start = observers@;
    proof {
        lemma_report_empty(start);
        assert(item_views(out@) =~= seq![]);
        assert(items@.take(0) =~= seq![]);
    }
    let mut i: usize = 0;
    while i < items.len()
        invariant
            i <= items@.len(),
            out@.len() <= i,
            heard.len() == i,
            forall|k: int|
                0 <= k < i ==> (#[trigger] items@[k] matches LineItem::Segment { segment, .. }
                    ==> may_say_all(segment, *ctx, *rc, heard[k])),
            lead == placed(items@.take(i as int), heard).lead,
            item_views(out@) == placed(items@.take(i as int), heard).items,
            observers@ == start.then_report(placed(items@.take(i as int), heard).report),
        decreases items@.len() - i,
    {
        let ghost before = placed(items@.take(i as int), heard);
        assert(item_views(out@).len() == before.items.len());
        let ghost heard_before = heard;
        assert(items@.take(i + 1).drop_last() =~= items@.take(i as int));
        match &items[i] {
            LineItem::Segment { id, segment, fuses_left } => {
                let said = hear(segment, ctx, rc);
                proof {
                    heard = heard.push(heard_of(said));
                    lemma_placed_prefix(items@.take(i as int), heard_before, heard);
                    lemma_segment_placed_report(
                        start,
                        before,
                        id@,
                        *segment,
                        *fuses_left,
                        heard_of(said),
                    );
                }
                place_segment(&mut out, id, segment, *fuses_left, said, &mut lead, observers);
            },
            LineItem::Separator(sep) => {
                proof {
                    heard = heard.push(
                        Heard {
                            defaults: SegmentDefaults::of_priority(0),
                            pinned: false,
                            outcome: Ok(None),
                            reason: None,
                        },
                    );
                    lemma_placed_prefix(items@.take(i as int), heard_before, heard);
                }
                place_separator(&mut out, sep);
            },
        }
        assert(item_views(out@).len() <= before.items.len() + 1);
        i += 1;
    }
    assert(items@.take(i as int) =~= items@);
    let ghost all = item_views(out@);
    pop_trailing_separator(&mut out);
    let ghost line = item_views(out@);
    assert(line.len() <= all.len());
    assert(preferences_until(line, 0) =~= line);
    let mut k: usize = 0;
    while k < out.len()
        invariant
            k <= out@.len() <= items@.len(),
            line.len() == out@.len(),
            item_views(out@) == preferences_until(line, k as int),
        decreases out@.len() - k,
    {
        proof {
            lemma_preference_step(line, k as int);
        }
        apply_override_at(&mut out, k);
        assert(item_views(out@).len() == line.len());
        k += 1;
    }
    assert(preferences_until(line, k as int) =~= preferences(line));
    assert(may_render(items@, *ctx, *rc, heard));
    out
}

proof fn lemma_segment_placed_report(
    start: ReportView,
    before: CollectedView,
    id: Seq<char>,
    segment: SegmentBox,
    fuses_left: bool,
    heard: Heard,
)
    ensures
        segment_placed(
            CollectedView { report: start.then_report(before.report), ..before },
            id,
            segment,
            fuses_left,
            heard,
        ) == (CollectedView {
            report: start.then_report(
                segment_placed(before, id, segment, fuses_left, heard).report,
            ),
            ..segment_placed(before, id, segment, fuses_left, heard)
        }),
{
    match heard.outcome {
        Ok(Some(r)) => {
            lemma_report_assoc(
                start,
                before.report,
                ReportView {
                    decisions: bound_decisions(id, r.width, heard.defaults.width),
                    ..ReportView::empty()
                },
            );
        },
        Ok(None) => {
            lemma_report_assoc(
                start,
                before.report,
                ReportView { traces: reason_traces(heard.reason), ..ReportView::empty() },
            );
        },
        Err(words) => {
            lemma_report_assoc(
                start,
                before.report,
                ReportView { warnings: seq!["segment error: "@ + words], ..ReportView::empty() },
            );
        },
    }
}

/// The preferences of the first `n` slots taken over.
spec fn preferences_until(items: Seq<ItemView>, n: int) -> Seq<ItemView> {
    Seq::new(
        items.len(),
        |i: int|
            if 0 < i <= n && items[i] is Separator && preferred_separator(items[i - 1]) is Some {
                ItemView::Separator(preferred_separator(items[i - 1])->0)
            } else {
                items[i]
            },
    )
}

proof fn lemma_preference_step(items: Seq<ItemView>, n: int)
    requires
        0 <= n < items.len(),
    ensures
        preference_at(preferences_until(items, n), n) == preferences_until(items, n + 1),
{
    let before = preferences_until(items, n);
    assert(preferred_separator(before[n]) == preferred_separator(items[n]));
    assert(preference_at(before, n) =~= preferences_until(items, n + 1));
}

/// One step of the layout: the segment at `idx`, which goes first, is
/// replaced by `compact`, or cut where it allows that, or dropped.
pub fn step_with(
    items: &mut Vec<LayoutItem<'_>>,
    idx: usize,
    terminal_width: u16,
    overflow: u32,
    compact: Option<RenderedSegment>,
    observers: &mut LayoutObservers,
)
    requires
        first_to_go(item_views(old(items)@)) == Some(idx as int),
        total(item_views(old(items)@)) == terminal_width + overflow,
        overflow >= 1,
        compact matches Some(c) ==> overflow <= next_entry(
            item_views(old(items)@),
        ).rendered.width && c@.width <= next_entry(item_views(old(items)@)).rendered.width
            - overflow,
    ensures
        item_views(final(items)@) == stepped(
            item_views(old(items)@),
            terminal_width as int,
            rendered_in(compact),
        ),
        final(observers)@ == old(observers)@.then_report(
            ReportView {
                decisions: step_decisions(
                    item_views(old(items)@),
                    terminal_width,
                    rendered_in(compact),
                ),
                ..ReportView::empty()
            },
        ),
{
    let ghost before = item_views(items@);
    proof {
        lemma_first_to_go(before);
        lemma_report_empty(observers@);
        assert(before[idx as int] == items@[idx as int]@);
    }
    let mut replaced: Option<LayoutItem<'_>> = None;
    if let LayoutItem::Segment(e) = &items[idx] {
        assert(e@ == next_entry(before));
        let from: u16 = e.rendered.width();
        match compact {
            Some(rendered) => {
                let target: u16 = from - overflow as u16;
                observers.decide(
                    LayoutDecision::shrink_applied(
                        copy_cow(e.id),
                        from,
                        rendered.width(),
                        target,
                    ),
                );
                replaced = Some(
                    LayoutItem::Segment(
                        SegmentEntry {
                            id: e.id,
                            rendered,
                            defaults: e.defaults,
                            segment: e.segment,
                            paint: e.paint,
                        },
                    ),
                );
            },
            None => {
                let cut = if e.defaults.truncatable {
                    try_reflow(e, overflow)
                } else {
                    None
                };
                match cut {
                    Some(rendered) => {
                        let target: u16 = from - overflow as u16;
                        observers.decide(
                            LayoutDecision::reflow_applied(
                                copy_cow(e.id),
                                from,
                                rendered.width(),
                                target,
                            ),
                        );
                        replaced = Some(
                            LayoutItem::Segment(
                                SegmentEntry {
                                    id: e.id,
                                    rendered,
                                    defaults: e.defaults,
                                    segment: e.segment,
                                    paint: e.paint,
                                },
                            ),
                        );
                    },
                    None => {
                        if from >= 1 {
                            observers.decide(
                                LayoutDecision::priority_drop(
                                    copy_cow(e.id),
                                    e.defaults.priority,
                                    terminal_width,
                                    overflow,
                                    from,
                                ),
                            );
                        }
                    },
                }
            },
        }
    }
    match replaced {
        Some(item) => {
            items.set(idx, item);
            assert(item_views(items@) =~= before.update(idx as int, item@));
            apply_override_at(items, idx);
        },
        None => {
            drop_segment_and_adjacent_separator(items, idx);
        },
    }
}

proof fn lemma_segment_cells_update(items: Seq<ItemView>, k: int, item: ItemView)
    requires
        0 <= k < items.len(),
        items[k] is Segment <==> item is Segment,
    ensures
        segment_cells(items.update(k, item)) == segment_cells(items) + match (items[k], item) {
            (ItemView::Segment(a), ItemView::Segment(b)) => b.rendered.width - a.rendered.width,
            _ => 0,
        },
    decreases items.len(),
{
    let out = items.update(k, item);
    if k < items.len() - 1 {
        assert(out.drop_last() =~= items.drop_last().update(k, item));
        lemma_segment_cells_update(items.drop_last(), k, item);
    } else {
        assert(out.drop_last() =~= items.drop_last());
    }
}

/// A step of the layout removes slots, or keeps their number and takes cells
/// from a segment.
proof fn lemma_step_progress(items: Seq<ItemView>, budget: int, compact: Option<RenderedView>)
    requires
        !settled(items, budget),
        compact matches Some(c) ==> c.width < next_entry(items).rendered.width,
    ensures
        stepped(items, budget, compact).len() <= items.len(),
        stepped(items, budget, compact).len() == items.len() ==> segment_cells(
            stepped(items, budget, compact),
        ) < segment_cells(items),
{
    lemma_first_to_go(items);
    let k = first_to_go(items)->0;
    let e = next_entry(items);
    let overflow = total(items) - budget;
    match replacement(e, overflow, compact) {
        Some(rendered) => {
            if compact is None {
                lemma_cut_width(e.rendered, (e.rendered.width - overflow) as u16);
            }
            let item = ItemView::Segment(EntryView { rendered, ..e });
            let out = items.update(k, item);
            lemma_segment_cells_update(items, k, item);
            match preferred_separator(item) {
                Some(s) => {
                    if k + 1 < out.len() && out[k + 1] is Separator {
                        lemma_segment_cells_update(out, k + 1, ItemView::Separator(s));
                    }
                },
                None => {},
            }
        },
        None => {},
    }
}

/// A cut is as wide as asked at the most.
pub proof fn lemma_cut_width(rendered: RenderedView, max_cells: u16)
    ensures
        truncated(rendered, max_cells).width <= max_cells,
{
    if max_cells > 0 {
        lemma_fitting(grapheme_clusters(rendered.text), max_cells - 1);
    }
}

/// Fit `items` into `terminal_width` cells. While the line is too wide, the
/// segment that goes first is asked for a compact form, else cut where it
/// allows that, else dropped with a separator beside it.
pub fn apply_layout<'a>(
    items: Vec<LayoutItem<'a>>,
    ctx: &DataContext,
    rc: &RenderContext,
    terminal_width: u16,
    observers: &mut LayoutObservers,
) -> (r: Vec<LayoutItem<'a>>)
    requires
        items@.len() <= 0x1_0001,
    ensures
        settled(item_views(r@), terminal_width as int),
        exists|answers: Seq<Option<RenderedView>>|
            {
                &&& #[trigger] may_fit(item_views(items@), terminal_width, *ctx, *rc, answers)
                &&& item_views(r@) == fitted(item_views(items@), terminal_width as int, answers)
                &&& final(observers)@ == old(observers)@.then_report(
                    fit_report(item_views(items@), terminal_width, answers),
                )
            },
{
    let mut items = items;
    let ghost start = item_views(items@);
    let ghost report = observers@;
    let ghost budget = terminal_width as int;
    let ghost mut answers: Seq<Option<RenderedView>> = seq![];
    proof {
        lemma_report_empty(report);
    }
    loop
        invariant
            items@.len() <= 0x1_0001,
            budget == terminal_width,
            item_views(items@) == fitted(start, budget, answers),
            observers@ == report.then_report(fit_report(start, terminal_width, answers)),
            forall|i: int|
                0 <= i < answers.len() ==> {
                    let at = fitted(start, budget, #[trigger] answers.take(i));
                    !settled(at, budget) && may_answer(at, terminal_width, *ctx, *rc, answers[i])
                },
        ensures
            settled(item_views(items@), budget),
        decreases items@.len(), segment_cells(item_views(items@)),
    {
        let ghost views = item_views(items@);
        proof {
            lemma_total(views, 0);
        }
        let width: u32 = total_width(&items);
        if width <= terminal_width as u32 {
            break;
        }
        let idx: usize = match highest_priority_droppable(&items) {
            Some(idx) => idx,
            None => {
                break;
            },
        };
        let overflow: u32 = width - terminal_width as u32;
        proof {
            lemma_first_to_go(views);
            assert(views[idx as int] == items@[idx as int]@);
        }
        let ghost before = observers@;
        let compact = match &items[idx] {
            LayoutItem::Segment(e) => try_shrink(e, ctx, rc, overflow, observers),
            LayoutItem::Separator(_) => None,
        };
        let ghost answer = choose|answer: Option<RenderedView>|
            {
                &&& #[trigger] may_say(next_entry(views), overflow as int, *ctx, *rc, answer)
                &&& rendered_in(compact) == compacted(next_entry(views), overflow as int, answer)
                &&& observers@ == before.then_report(
                    ReportView {
                        notices: answer_notices(next_entry(views), overflow as int, answer),
                        ..ReportView::empty()
                    },
                )
            };
        proof {
            lemma_step_progress(views, budget, rendered_in(compact));
            lemma_step_report(
                report,
                fit_report(start, terminal_width, answers),
                views,
                terminal_width,
                answer,
            );
        }
        step_with(&mut items, idx, terminal_width, overflow, compact, observers);
        proof {
            let longer = answers.push(answer);
            assert(longer.drop_last() =~= answers);
            assert forall|i: int| 0 <= i < longer.len() implies {
                let at = fitted(start, budget, #[trigger] longer.take(i));
                !settled(at, budget) && may_answer(at, terminal_width, *ctx, *rc, longer[i])
            } by {
                if i < answers.len() {
                    assert(longer.take(i) =~= answers.take(i));
                } else {
                    assert(longer.take(i) =~= answers);
                }
            }
            answers = longer;
            assert(item_views(items@).len() == items@.len());
        }
    }
    assert(may_fit(start, terminal_width, *ctx, *rc, answers));
    items
}

proof fn lemma_step_report(
    report: ReportView,
    so_far: ReportView,
    items: Seq<ItemView>,
    terminal_width: u16,
    answer: Option<RenderedView>,
)
    ensures
        report.then_report(so_far).then_report(
            ReportView {
                notices: answer_notices(next_entry(items), total(items) - terminal_width, answer),
                ..ReportView::empty()
            },
        ).then_report(
            ReportView {
                decisions: step_decisions(
                    items,
                    terminal_width,
                    heard_form(items, terminal_width as int, answer),
                ),
                ..ReportView::empty()
            },
        ) == report.then_report(so_far.then_report(step_report(items, terminal_width, answer))),
{
    let step = step_report(items, terminal_width, answer);
    let a = ReportView { notices: step.notices, ..ReportView::empty() };
    let b = ReportView { decisions: step.decisions, ..ReportView::empty() };
    assert(seq![] + step.decisions =~= step.decisions);
    assert(step.notices + seq![] =~= step.notices);
    assert(Seq::<Seq<char>>::empty() + seq![] =~= seq![]);
    assert(a.then_report(b) == step);
    lemma_report_assoc(report.then_report(so_far), a, b);
    lemma_report_assoc(report, so_far, step);
}

/// Style of a separator: a chevron is muted, all else is plain.
pub fn separator_style(sep: &Separator) -> (r: Style)
    ensures
        r@ == separator_look(sep@),
{
    match sep {
        Separator::Powerline { .. } => Style::role(Role::Muted),
        _ => Style::default(),
    }
}

/// The runs of a line: the spans of a segment or the segment as one run, and
/// one run for each separator that draws something.
pub fn items_to_runs(items: &Vec<LayoutItem<'_>>) -> (r: Vec<StyledRun>)
    ensures
        run_views(r@) == line_runs(item_views(items@)),
        forall|k: int|
            0 <= k < items@.len() ==> (#[trigger] item_views(items@)[k] matches ItemView::Segment(e)
                ==> e.rendered.wf()),
{
    let mut out: Vec<StyledRun> = Vec::new();
    let ghost views = item_views(items@);
    let mut i: usize = 0;
    assert(run_views(out@) =~= seq![]);
    while i < items.len()
        invariant
            i <= items@.len(),
            views == item_views(items@),
            run_views(out@) == line_runs(views.take(i as int)),
            forall|k: int|
                0 <= k < i ==> (#[trigger] views[k] matches ItemView::Segment(e)
                    ==> e.rendered.wf()),
        decreases items@.len() - i,
    {
        let ghost before = run_views(out@);
        assert(views.take(i + 1).drop_last() =~= views.take(i as int));
        match &items[i] {
            LayoutItem::Segment(e) => {
                match e.rendered.spans() {
                    Some(spans) => {
                        let ghost painted = run_views(spans@);
                        let mut k: usize = 0;
                        assert(before + painted.take(0) =~= before);
                        while k < spans.len()
                            invariant
                                k <= spans@.len(),
                                painted == run_views(spans@),
                                run_views(out@) == before + painted.take(k as int),
                            decreases spans@.len() - k,
                        {
                            let ghost was = run_views(out@);
                            out.push(spans[k].clone());
                            assert(run_views(out@) =~= was.push(painted[k as int]));
                            assert(painted.take(k + 1) =~= painted.take(k as int).push(
                                painted[k as int],
                            ));
                            assert(run_views(out@) =~= before + painted.take(k + 1));
                            k += 1;
                        }
                        assert(painted.take(k as int) =~= painted);
                    },
                    None => {
                        let run = StyledRun {
                            text: e.rendered.text().to_owned(),
                            style: e.rendered.style().clone(),
                        };
                        out.push(run);
                        assert(run_views(out@) =~= before + seq![run@]);
                    },
                }
            },
            LayoutItem::Separator(sep) => {
                let text = sep.text();
                if text.is_empty() {
                    assert(before + seq![] =~= before);
                } else {
                    let run = StyledRun { text: text.to_owned(), style: separator_style(sep) };
                    out.push(run);
                    assert(run_views(out@) =~= before + seq![run@]);
                }
            },
        }
        i += 1;
    }
    assert(views.take(i as int) =~= views);
    out
}

/// Render `items` into a flat sequence of runs.
#[must_use]
pub fn render_to_runs(
    items: &[LineItem],
    ctx: &DataContext,
    terminal_width: u16,
    observers: &mut LayoutObservers,
) -> (r: Vec<StyledRun>)
    requires
        items@.len() <= 0x1_0001,
    ensures
        exists|report: ReportView|
            {
                &&& #[trigger] may_show(
                    items@,
                    *ctx,
                    terminal_width,
                    run_views(r@),
                    report,
                )
                &&& final(observers)@ == old(observers)@.then_report(report)
            },
{
    let rc = RenderContext::new(terminal_width);
    let ghost start = observers@;
    let collected_items = collect_items_with(items, ctx, &rc, observers);
    let ghost middle = observers@;
    let ghost heard = choose|heard: Seq<Heard>|
        {
            &&& #[trigger] may_render(items@, *ctx, rc, heard)
            &&& item_views(collected_items@) == collected(items@, heard).items
            &&& observers@ == start.then_report(collected(items@, heard).report)
        };
    let ghost line = item_views(collected_items@);
    let laid_out = apply_layout(collected_items, ctx, &rc, terminal_width, observers);
    let ghost answers = choose|answers: Seq<Option<RenderedView>>|
        {
            &&& #[trigger] may_fit(line, terminal_width, *ctx, rc, answers)
            &&& item_views(laid_out@) == fitted(line, terminal_width as int, answers)
            &&& observers@ == middle.then_report(fit_report(line, terminal_width, answers))
        };
    let runs = items_to_runs(&laid_out);
    proof {
        let report = collected(items@, heard).report.then_report(
            fit_report(line, terminal_width, answers),
        );
        lemma_report_assoc(
            start,
            collected(items@, heard).report,
            fit_report(line, terminal_width, answers),
        );
        assert(shown_as(items@, *ctx, terminal_width, heard, answers, run_views(runs@), report));
        assert(may_show(items@, *ctx, terminal_width, run_views(runs@), report));
    }
    runs
}

/// Open a link: `ESC ] 8 ; ; url ESC \\`. Control characters of the url are
/// left out, so that none of them can close the sequence.
fn push_osc8_open(out: &mut String, url: &str)
    ensures
        final(out)@ == old(out)@ + link_open(url@),
{
    let ghost start = out@;
    out.append("\x1b]8;;");
    let clean = sanitize_control_chars(url);
    out.append(clean.as_str());
    out.append("\x1b\\");
    assert(out@ =~= start + link_open(url@));
}

/// Close a link.
fn push_osc8_close(out: &mut String)
    ensures
        final(out)@ == old(out)@ + "\x1b]8;;\x1b\\"@,
{
    out.append("\x1b]8;;\x1b\\");
}

/// `runs` as the terminal gets them, where `opens` holds the escape sequence
/// that opens each run's style, empty where nothing is to be opened. A style
/// that was opened is reset behind its run; a link, where `hyperlinks` allows
/// it, stands around both.
#[must_use]
pub fn emit_runs(runs: &[StyledRun], opens: &Vec<String>, hyperlinks: bool) -> (r: String)
    requires
        opens@.len() == runs@.len(),
    ensures
        r@ == runs_ansi(run_views(runs@), texts(opens@), hyperlinks),
{
    let mut out = String::new();
    let ghost views = run_views(runs@);
    let mut i: usize = 0;
    while i < runs.len()
        invariant
            i <= runs@.len() == opens@.len(),
            views == run_views(runs@),
            out@ == runs_ansi(views.take(i as int), texts(opens@), hyperlinks),
        decreases runs@.len() - i,
    {
        let ghost before = out@;
        assert(views.take(i + 1).drop_last() =~= views.take(i as int));
        let run = &runs[i];
        let open = &opens[i];
        assert(texts(opens@)[i as int] == open@);
        match &run.style.hyperlink {
            Some(url) => if hyperlinks {
                push_osc8_open(&mut out, url.as_str());
            },
            None => {},
        }
        if open.as_str().is_empty() {
            out.append(run.text.as_str());
        } else {
            out.append(open.as_str());
            out.append(run.text.as_str());
            out.append("\x1b[0m");
        }
        match &run.style.hyperlink {
            Some(_) => if hyperlinks {
                push_osc8_close(&mut out);
            },
            None => {},
        }
        assert(out@ =~= before + run_ansi(run@, open@, hyperlinks));
        i += 1;
    }
    assert(views.take(i as int) =~= views);
    out
}

/// `runs` as the terminal gets them. `sgr_open` gives the escape sequence
/// that opens a style, empty where there is nothing to open.
#[must_use]
pub fn runs_to_ansi<F: Fn(&Style) -> String>(
    runs: &[StyledRun],
    sgr_open: &F,
    hyperlinks: bool,
) -> (r: String)
    requires
        forall|style: &Style| #[trigger] call_requires(sgr_open, (style,)),
    ensures
        may_emit(*sgr_open, runs@, hyperlinks, r@),
{
    let mut opens: Vec<String> = Vec::new();
    let mut i: usize = 0;
    while i < runs.len()
        invariant
            i <= runs@.len(),
            opens@.len() == i,
            forall|style: &Style| #[trigger] call_requires(sgr_open, (style,)),
            forall|k: int|
                0 <= k < i ==> call_ensures(*sgr_open, (&runs@[k].style,), #[trigger] opens@[k]),
        decreases runs@.len() - i,
    {
        let open = sgr_open(&runs[i].style);
        opens.push(open);
        i += 1;
    }
    assert(may_open(*sgr_open, runs@, opens@));
    emit_runs(runs, &opens, hyperlinks)
}

/// May `sgr_open` answer `opens` for the styles of `runs`?
pub open spec fn may_open<F: Fn(&Style) -> String>(
    sgr_open: F,
    runs: Seq<StyledRun>,
    opens: Seq<String>,
) -> bool {
    &&& opens.len() == runs.len()
    &&& forall|k: int|
        0 <= k < runs.len() ==> call_ensures(sgr_open, (&runs[k].style,), #[trigger] opens[k])
}

/// May `runs` reach the terminal as `text`?
pub open spec fn may_emit<F: Fn(&Style) -> String>(
    sgr_open: F,
    runs: Seq<StyledRun>,
    hyperlinks: bool,
    text: Seq<char>,
) -> bool {
    exists|opens: Seq<String>|
        {
            &&& #[trigger] may_open(sgr_open, runs, opens)
            &&& text == runs_ansi(run_views(runs), texts(opens), hyperlinks)
        }
}

/// May a line of `items` in `terminal_width` cells reach the terminal as
/// `text`, with `report`?
pub open spec fn may_show_ansi<F: Fn(&Style) -> String>(
    items: Seq<LineItem>,
    ctx: DataContext,
    terminal_width: u16,
    sgr_open: F,
    hyperlinks: bool,
    text: Seq<char>,
    report: ReportView,
) -> bool {
    exists|runs: Seq<StyledRun>|
        {
            &&& #[trigger] may_emit(sgr_open, runs, hyperlinks, text)
            &&& may_show(items, ctx, terminal_width, run_views(runs), report)
        }
}

/// May a line of `items` in `terminal_width` cells come to the bare `text`,
/// with `report`?
pub open spec fn may_show_text(
    items: Seq<LineItem>,
    ctx: DataContext,
    terminal_width: u16,
    text: Seq<char>,
    report: ReportView,
) -> bool {
    exists|runs: Seq<RunView>|
        {
            &&& #[trigger] may_show(items, ctx, terminal_width, runs, report)
            &&& text == runs_text(runs)
        }
}

/// Render `items` within `terminal_width` cells, with the escape sequences
/// that `sgr_open` gives for each style and, where `hyperlinks` allows them,
/// with links. The line comes without a newline, and is what `runs_to_ansi`
/// makes of runs that `render_to_runs` may give.
#[must_use]
pub fn render_with_warn<F: Fn(&Style) -> String>(
    items: &[LineItem],
    ctx: &DataContext,
    terminal_width: u16,
    observers: &mut LayoutObservers,
    sgr_open: &F,
    hyperlinks: bool,
) -> (r: String)
    requires
        items@.len() <= 0x1_0001,
        forall|style: &Style| #[trigger] call_requires(sgr_open, (style,)),
    ensures
        exists|report: ReportView|
            {
                &&& #[trigger] may_show_ansi(
                    items@,
                    *ctx,
                    terminal_width,
                    *sgr_open,
                    hyperlinks,
                    r@,
                    report,
                )
                &&& final(observers)@ == old(observers)@.then_report(report)
            },
{
    let ghost start = observers@;
    let runs = render_to_runs(items, ctx, terminal_width, observers);
    let r = runs_to_ansi(runs.as_slice(), sgr_open, hyperlinks);
    proof {
        let report = choose|report: ReportView|
            {
                &&& #[trigger] may_show(items@, *ctx, terminal_width, run_views(runs@), report)
                &&& observers@ == start.then_report(report)
            };
        assert(may_emit(*sgr_open, runs@, hyperlinks, r@));
        assert(may_show_ansi(
            items@,
            *ctx,
            terminal_width,
            *sgr_open,
            hyperlinks,
            r@,
            report,
        ));
    }
    r
}

/// Render `items` within `terminal_width` cells as bare text, without a
/// newline.
#[must_use]
pub fn render(
    items: &[LineItem],
    ctx: &DataContext,
    terminal_width: u16,
    observers: &mut LayoutObservers,
) -> (r: String)
    requires
        items@.len() <= 0x1_0001,
    ensures
        exists|report: ReportView|
            {
                &&& #[trigger] may_show_text(items@, *ctx, terminal_width, r@, report)
                &&& final(observers)@ == old(observers)@.then_report(report)
            },
{
    let ghost start = observers@;
    let runs = render_to_runs(items, ctx, terminal_width, observers);
    let r = join_runs(&runs);
    proof {
        let report = choose|report: ReportView|
            {
                &&& #[trigger] may_show(items@, *ctx, terminal_width, run_views(runs@), report)
                &&& observers@ == start.then_report(report)
            };
        assert(may_show_text(items@, *ctx, terminal_width, r@, report));
    }
    r
}

} // verus!
