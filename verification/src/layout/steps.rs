//! What each step of the layout does to a line that is too wide.

use vstd::prelude::*;

use crate::cells::{grapheme_clusters, joined};
use crate::data_context::DataContext;
use crate::layout::decision::DecisionView;
use crate::layout::laws::shown;
use crate::layout::model::{
    drop_rank, first_to_go, fit_report, fitted, fitting, heard_form, may_answer, may_fit, next_entry,
    settled, shown_as, step_report, stepped, total, truncated, used_cells, width_notices,
    EntryView, Heard, ItemView, ReportView,
};
use crate::layout::{lemma_first_to_go, lemma_fitting};
use crate::segments::rendered::RenderedView;
use crate::segments::segment::{LineItem, RenderContext, Segment};
use crate::text::decimal;
use crate::text_laws::{lemma_mentions, mentions};
use crate::theme::RunView;

verus! {

/// The segment at `k` may go, and none of the others goes before it: no
/// priority is above its own, and every one to its right is below.
pub open spec fn goes_first(items: Seq<ItemView>, k: int) -> bool {
    &&& 0 <= k < items.len()
    &&& items[k] matches ItemView::Segment(e)
    &&& e.defaults.priority > 0
    &&& forall|j: int|
        0 <= j < items.len() ==> (#[trigger] items[j] matches ItemView::Segment(f)
            ==> f.defaults.priority <= e.defaults.priority)
    &&& forall|j: int|
        k < j < items.len() ==> (#[trigger] items[j] matches ItemView::Segment(f)
            ==> f.defaults.priority < e.defaults.priority)
}

/// `out` is `items` with another render in the slot `k`; of the other slots
/// only the separator behind it may differ.
pub open spec fn replaced_at(items: Seq<ItemView>, out: Seq<ItemView>, k: int) -> bool {
    &&& out.len() == items.len()
    &&& forall|j: int|
        0 <= j < items.len() && j != k && j != k + 1 ==> #[trigger] out[j] == items[j]
    &&& k + 1 < items.len() ==> (out[k + 1] == items[k + 1] || (items[k + 1] is Separator && out[k
        + 1] is Separator))
    &&& items[k] matches ItemView::Segment(e)
    &&& out[k] matches ItemView::Segment(f)
    &&& f.id == e.id
    &&& f.defaults == e.defaults
    &&& f.segment == e.segment
    &&& f.paint == e.paint
}

/// `out` is `items` without the slot `k` and without one separator beside it:
/// the one on its right, or the one on its left where none stands on its
/// right.
pub open spec fn taken_out(items: Seq<ItemView>, out: Seq<ItemView>, k: int) -> bool {
    let right = k + 1 < items.len() && items[k + 1] is Separator;
    let left = k > 0 && items[k - 1] is Separator;
    if right {
        out == items.take(k) + items.skip(k + 2)
    } else if left {
        out == items.take(k - 1) + items.skip(k + 1)
    } else {
        out == items.take(k) + items.skip(k + 1)
    }
}

/// In a step of the layout the segment of the highest priority gives way, the
/// right-most where several share it, and never one of priority 0. All others
/// keep their place and their render.
pub proof fn highest_priority_gives_way(
    items: Seq<ItemView>,
    budget: int,
    compact: Option<RenderedView>,
) -> (k: int)
    requires
        total(items) > budget,
        exists|j: int|
            0 <= j < items.len() && (#[trigger] items[j] matches ItemView::Segment(e)
                && e.defaults.priority > 0),
    ensures
        goes_first(items, k),
        replaced_at(items, stepped(items, budget, compact), k) || taken_out(
            items,
            stepped(items, budget, compact),
            k,
        ),
{
    lemma_first_to_go(items);
    let w = choose|j: int|
        0 <= j < items.len() && (#[trigger] items[j] matches ItemView::Segment(e)
            && e.defaults.priority > 0);
    assert(drop_rank(items[w]) > 0);
    let k = first_to_go(items)->0;
    assert forall|j: int| 0 <= j < items.len() implies (
    #[trigger] items[j] matches ItemView::Segment(f) ==> f.defaults.priority == drop_rank(
        items[j],
    )) by {}
    let out = stepped(items, budget, compact);
    if k + 1 < items.len() && items[k + 1] is Separator {
        assert(items.remove(k).remove(k) =~= items.take(k) + items.skip(k + 2));
    } else if k > 0 && items[k - 1] is Separator {
        assert(items.remove(k).remove(k - 1) =~= items.take(k - 1) + items.skip(k + 1));
    } else {
        assert(items.remove(k) =~= items.take(k) + items.skip(k + 1));
    }
    assert(replaced_at(items, out, k) || taken_out(items, out, k));
    k
}

/// So it is in every step on the way from a line to the line that fits.
pub proof fn every_step_takes_the_highest_priority(
    items: Seq<ItemView>,
    terminal_width: u16,
    ctx: DataContext,
    rc: RenderContext,
    answers: Seq<Option<RenderedView>>,
    n: int,
) -> (k: int)
    requires
        may_fit(items, terminal_width, ctx, rc, answers),
        0 <= n < answers.len(),
    ensures
        goes_first(fitted(items, terminal_width as int, answers.take(n)), k),
        replaced_at(
            fitted(items, terminal_width as int, answers.take(n)),
            fitted(items, terminal_width as int, answers.take(n + 1)),
            k,
        ) || taken_out(
            fitted(items, terminal_width as int, answers.take(n)),
            fitted(items, terminal_width as int, answers.take(n + 1)),
            k,
        ),
{
    let budget = terminal_width as int;
    let before = fitted(items, budget, answers.take(n));
    assert(!settled(before, budget));
    assert(answers.take(n + 1).drop_last() =~= answers.take(n));
    assert(answers.take(n + 1).last() == answers[n]);
    let compact = heard_form(before, budget, answers[n]);
    lemma_first_to_go(before);
    let f = first_to_go(before)->0;
    assert(before[f] is Segment);
    assert(before[f]->Segment_0.defaults.priority > 0);
    highest_priority_gives_way(before, budget, compact)
}

/// The user's lower bound of the segment, where there is one, is kept by
/// `cells`.
pub open spec fn within_floor(e: EntryView, cells: int) -> bool {
    e.defaults.width matches Some(b) ==> b.lo() <= cells
}

/// `cut` is `whole` cut to `limit` cells: as many clusters as fit beside one
/// cell, and the ellipsis. The look stays, as one run.
pub open spec fn is_cut_of(cut: RenderedView, whole: RenderedView, limit: int, n: int) -> bool {
    let clusters = grapheme_clusters(whole.text);
    &&& 0 <= n <= clusters.len()
    &&& cut.text == joined(clusters.take(n)) + seq!['…']
    &&& cut.width == used_cells(clusters.take(n)) + 1
    &&& cut.width <= limit
    &&& n < clusters.len() ==> used_cells(clusters.take(n + 1)) + 1 > limit
    &&& cut.spans is None
    &&& cut.style == whole.style
    &&& cut.right_separator == whole.right_separator
}

/// A cut keeps as many clusters as fit beside the ellipsis, and not one less.
pub proof fn cut_is_the_longest_that_fits(rendered: RenderedView, max_cells: u16) -> (n: int)
    requires
        max_cells > 0,
    ensures
        is_cut_of(truncated(rendered, max_cells), rendered, max_cells as int, n),
{
    let clusters = grapheme_clusters(rendered.text);
    lemma_fitting(clusters, max_cells - 1);
    let n = fitting(clusters, max_cells - 1) as int;
    assert(truncated(rendered, max_cells).text =~= joined(clusters.take(n)) + seq!['…']);
    n
}

/// The segment at `k` takes its compact form under `overflow`: the line asks
/// for no less than the user's lower bound, and gets between that bound and
/// what it asked for.
pub open spec fn compact_form_helps(e: EntryView, overflow: int, answer: Option<RenderedView>) -> bool {
    &&& within_floor(e, e.rendered.width - overflow)
    &&& 0 <= e.rendered.width - overflow
    &&& answer matches Some(r)
    &&& r.width <= e.rendered.width - overflow
    &&& within_floor(e, r.width as int)
}

/// A cut of the segment helps under `overflow`: it may be cut, and both what
/// it is cut to and what comes of it are two cells or more, and not below the
/// user's lower bound.
pub open spec fn cut_helps(e: EntryView, overflow: int) -> bool {
    let left = e.rendered.width - overflow;
    &&& e.defaults.truncatable
    &&& left >= 2
    &&& within_floor(e, left)
    &&& truncated(e.rendered, left as u16).width >= 2
    &&& within_floor(e, truncated(e.rendered, left as u16).width as int)
}

/// A segment gives way in the mildest form there is: its compact form where
/// that helps, else a cut where that helps, else it is dropped. What stands
/// there then takes no more cells than the line has for it.
pub proof fn mildest_form_is_taken(
    items: Seq<ItemView>,
    budget: int,
    answer: Option<RenderedView>,
    k: int,
)
    requires
        total(items) > budget,
        goes_first(items, k),
    ensures
        ({
            let e = items[k]->Segment_0;
            let overflow = total(items) - budget;
            let out = stepped(items, budget, heard_form(items, budget, answer));
            &&& compact_form_helps(e, overflow, answer) ==> {
                &&& replaced_at(items, out, k)
                &&& out[k]->Segment_0.rendered.text == answer->0.text
                &&& out[k]->Segment_0.rendered.width == answer->0.width
                &&& out[k]->Segment_0.rendered.right_separator == answer->0.right_separator
                &&& e.paint is None ==> out[k]->Segment_0.rendered == answer->0
                &&& e.paint matches Some(color) ==> out[k]->Segment_0.rendered
                    == answer->0.recolored(color)
            }
            &&& !compact_form_helps(e, overflow, answer) && cut_helps(e, overflow) ==> {
                &&& replaced_at(items, out, k)
                &&& exists|n: int|
                    #[trigger] is_cut_of(
                        out[k]->Segment_0.rendered,
                        e.rendered,
                        e.rendered.width - overflow,
                        n,
                    )
            }
            &&& !compact_form_helps(e, overflow, answer) && !cut_helps(e, overflow) ==> taken_out(
                items,
                out,
                k,
            )
        }),
{
    lemma_goes_first(items, k);
    let e = items[k]->Segment_0;
    let overflow = total(items) - budget;
    let out = stepped(items, budget, heard_form(items, budget, answer));
    assert(items.remove(k) =~= items.take(k) + items.skip(k + 1));
    if k + 1 < items.len() {
        assert(items.remove(k).remove(k) =~= items.take(k) + items.skip(k + 2));
    }
    if k > 0 {
        assert(items.remove(k).remove(k - 1) =~= items.take(k - 1) + items.skip(k + 1));
    }
    if !compact_form_helps(e, overflow, answer) && cut_helps(e, overflow) {
        let n = cut_is_the_longest_that_fits(e.rendered, (e.rendered.width - overflow) as u16);
        assert(is_cut_of(
            out[k]->Segment_0.rendered,
            e.rendered,
            e.rendered.width - overflow,
            n,
        ));
    }
}

/// The segment that goes first is the one whose priority says so.
proof fn lemma_goes_first(items: Seq<ItemView>, k: int)
    requires
        goes_first(items, k),
    ensures
        first_to_go(items) == Some(k),
        next_entry(items) == items[k]->Segment_0,
{
    lemma_first_to_go(items);
    let f = first_to_go(items)->0;
    assert(drop_rank(items[k]) > 0);
    assert(items[f] is Segment);
    if f < k {
        assert(drop_rank(items[k]) < drop_rank(items[f]));
    } else if f > k {
        assert(items[f]->Segment_0.defaults.priority < items[k]->Segment_0.defaults.priority);
    }
}

proof fn lemma_total_fits(items: Seq<ItemView>)
    ensures
        0 <= total(items) <= items.len() * 0xffff,
    decreases items.len(),
{
    if items.len() > 0 {
        lemma_total_fits(items.drop_last());
    }
}

/// Every step is reported by one event, which names the segment, its width
/// before, and what became of it; a segment without any width goes unreported.
/// A notice tells of a compact form that is wider than asked.
pub proof fn each_step_is_reported(
    items: Seq<ItemView>,
    terminal_width: u16,
    answer: Option<RenderedView>,
    k: int,
)
    requires
        total(items) > terminal_width,
        goes_first(items, k),
        items.len() <= 0x1_0001,
    ensures
        ({
            let e = items[k]->Segment_0;
            let overflow = total(items) - terminal_width;
            let left = e.rendered.width - overflow;
            let budget = terminal_width as int;
            let out = stepped(items, budget, heard_form(items, budget, answer));
            let report = step_report(items, terminal_width, answer);
            let asked = left >= 0 && within_floor(e, left);
            &&& report.warnings.len() == 0
            &&& report.traces.len() == 0
            &&& report.notices.len() == (if asked && answer is Some && answer->0.width > left {
                1nat
            } else {
                0nat
            })
            &&& compact_form_helps(e, overflow, answer) ==> report.decisions == seq![
                DecisionView::ShrinkApplied {
                    id: e.id,
                    from: e.rendered.width,
                    to: answer->0.width,
                    target: left as u16,
                },
            ]
            &&& !compact_form_helps(e, overflow, answer) && cut_helps(e, overflow)
                ==> report.decisions == seq![
                DecisionView::ReflowApplied {
                    id: e.id,
                    from: e.rendered.width,
                    to: out[k]->Segment_0.rendered.width,
                    target: left as u16,
                },
            ]
            &&& !compact_form_helps(e, overflow, answer) && !cut_helps(e, overflow)
                ==> report.decisions == (if e.rendered.width == 0 {
                seq![]
            } else {
                seq![
                    DecisionView::PriorityDrop {
                        id: e.id,
                        priority: e.defaults.priority,
                        terminal_width,
                        overflow: overflow as u32,
                        dropped_width: e.rendered.width,
                    },
                ]
            })
            &&& 0 < overflow <= u32::MAX
        }),
{
    lemma_goes_first(items, k);
    lemma_total_fits(items);
}

/// What is reported of a line is what its steps report, in their order.
pub proof fn reports_follow_the_steps(
    items: Seq<ItemView>,
    terminal_width: u16,
    answers: Seq<Option<RenderedView>>,
    n: int,
)
    requires
        0 <= n < answers.len(),
    ensures
        ({
            let before = fitted(items, terminal_width as int, answers.take(n));
            let step = step_report(before, terminal_width, answers[n]);
            let was = fit_report(items, terminal_width, answers.take(n));
            let now = fit_report(items, terminal_width, answers.take(n + 1));
            &&& now.decisions == was.decisions + step.decisions
            &&& now.notices == was.notices + step.notices
            &&& now.warnings == was.warnings + step.warnings
            &&& now.traces == was.traces + step.traces
            &&& fit_report(items, terminal_width, answers.take(0)).decisions.len() == 0
            &&& fit_report(items, terminal_width, answers.take(0)).notices.len() == 0
        }),
{
    assert(answers.take(n + 1).drop_last() =~= answers.take(n));
    assert(answers.take(n + 1).last() == answers[n]);
}

/// A render shows within its bounds: as it is where it keeps to them, not at
/// all where it is too narrow, and cut to the upper bound where it is too wide.
pub proof fn what_shows_is_within_bounds(heard: Heard)
    ensures
        match heard.outcome {
            Ok(Some(r)) => match heard.defaults.width {
                None => shown(heard) == Some(r),
                Some(b) => {
                    &&& r.width < b.lo() ==> shown(heard) is None
                    &&& b.lo() <= r.width <= b.hi() ==> shown(heard) == Some(r)
                    &&& b.lo() <= r.width && b.hi() < r.width && b.hi() > 0 ==> (shown(
                        heard,
                    ) matches Some(cut) && exists|n: int| #[trigger]
                        is_cut_of(cut, r, b.hi() as int, n))
                    &&& b.lo() <= r.width && b.hi() < r.width && b.hi() == 0 ==> (shown(
                        heard,
                    ) matches Some(cut) && cut.text.len() == 0 && cut.width == 0)
                },
            },
            _ => shown(heard) is None,
        },
{
    match (heard.outcome, heard.defaults.width) {
        (Ok(Some(r)), Some(b)) => {
            if b.hi() > 0 {
                let n = cut_is_the_longest_that_fits(r, b.hi());
                assert(is_cut_of(truncated(r, b.hi()), r, b.hi() as int, n));
            }
        },
        _ => {},
    }
}

/// The segment that gives way is asked for a compact form of exactly the cells
/// that the line has left for it; where these are fewer than none, or below the
/// user's lower bound, it is not asked.
pub proof fn segment_is_asked_for_what_is_left(
    items: Seq<ItemView>,
    terminal_width: u16,
    ctx: DataContext,
    rc: RenderContext,
    answer: Option<RenderedView>,
    k: int,
)
    requires
        total(items) > terminal_width,
        goes_first(items, k),
        may_answer(items, terminal_width, ctx, rc, answer),
    ensures
        ({
            let e = items[k]->Segment_0;
            let left = e.rendered.width - (total(items) - terminal_width);
            if left >= 0 && within_floor(e, left) {
                e.segment.segment.shrinks(ctx, rc, left as u16, answer)
            } else {
                answer is None
            }
        }),
{
    lemma_goes_first(items, k);
}

/// Every segment of a line is rendered on the same data within the whole width,
/// and placed by what it declares; only one that hides is asked why.
pub proof fn segments_are_asked_with_the_whole_width(
    items: Seq<LineItem>,
    ctx: DataContext,
    terminal_width: u16,
    heard: Seq<Heard>,
    answers: Seq<Option<RenderedView>>,
    runs: Seq<RunView>,
    report: ReportView,
    j: int,
)
    requires
        shown_as(items, ctx, terminal_width, heard, answers, runs, report),
        0 <= j < items.len(),
        items[j] is Segment,
    ensures
        items[j] matches LineItem::Segment { segment, .. } && ({
            let rc = RenderContext { terminal_width };
            &&& segment.segment.renders(ctx, rc, heard[j].outcome)
            &&& segment.segment.declares(heard[j].defaults)
            &&& segment.segment.pins_color(heard[j].pinned)
            &&& heard[j].outcome matches Ok(None) ==> segment.segment.explains(ctx, heard[j].reason)
        }),
{
}

/// The notice on a compact form that is too wide names its width, and behind it
/// the width that was asked for.
pub proof fn notice_names_both_widths(target: u16, answer: RenderedView)
    requires
        answer.width > target,
    ensures
        width_notices(target, Some(answer)).len() == 1,
        mentions(
            width_notices(target, Some(answer))[0],
            decimal(answer.width as nat) + " > target "@ + decimal(target as nat),
        ),
{
    let a = "segment shrink_to_fit returned width "@;
    let both = decimal(answer.width as nat) + " > target "@ + decimal(target as nat);
    let b = "; rejecting"@;
    lemma_mentions(a, both, b);
    assert(width_notices(target, Some(answer))[0] =~= a + both + b);
}

} // verus!
