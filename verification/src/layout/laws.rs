//! What holds of every line that the layout makes.

use vstd::prelude::*;

use crate::data_context::DataContext;
use crate::diagnostics::texts;
use crate::layout::model::{
    bounded, collected, drop_rank, dropped, first_to_go, fit_report, fitted, heard_form, item_runs,
    lead_color, link_open, may_answer, may_fit, may_say_all, may_show, next_entry, placed,
    preferences, preferred_separator, reflowed, replacement, runs_ansi, segment_placed, settled,
    shown_as, step_report, stepped, total, without_trailing, CollectedView, EntryView, Heard,
    ItemView, ReportView,
};
use crate::layout::{
    lemma_cut_width, lemma_first_to_go, may_emit, may_open, may_show_ansi, may_show_text,
};
use crate::segments::rendered::{lemma_printable, RenderedView};
use crate::segments::segment::{LineItem, Outcome, RenderContext, Segment, SegmentBox};
use crate::segments::separator::{SegmentDefaults, WidthBounds};
use crate::text::{is_control, is_printable, printable};
use crate::theme::{run_views, runs_text, RunView, Style, StyledRun};

verus! {

/// A settled line fits, or holds no segment that may be dropped.
pub proof fn fits_or_is_pinned(items: Seq<ItemView>, budget: int)
    requires
        settled(items, budget),
    ensures
        total(items) <= budget || forall|i: int|
            0 <= i < items.len() ==> (#[trigger] items[i] matches ItemView::Segment(e)
                ==> e.defaults.priority == 0),
{
    lemma_first_to_go(items);
    if total(items) > budget {
        assert forall|i: int| 0 <= i < items.len() implies (
        #[trigger] items[i] matches ItemView::Segment(e) ==> e.defaults.priority == 0) by {
            assert(drop_rank(items[i]) == 0);
        }
    }
}

/// A line that fits is left as it is, and nothing is reported of it.
pub proof fn fitting_line_is_kept(
    items: Seq<ItemView>,
    terminal_width: u16,
    ctx: DataContext,
    rc: RenderContext,
    answers: Seq<Option<RenderedView>>,
)
    requires
        total(items) <= terminal_width,
        may_fit(items, terminal_width, ctx, rc, answers),
    ensures
        fitted(items, terminal_width as int, answers) == items,
        fit_report(items, terminal_width, answers) == ReportView::empty(),
{
    if answers.len() > 0 {
        assert(answers.take(0) =~= seq![]);
        assert(fitted(items, terminal_width as int, answers.take(0)) == items);
        assert(false);
    }
}

// --- Pinned segments ----------------------------------------------------

/// The segments of priority 0, in order.
pub open spec fn pinned(items: Seq<ItemView>) -> Seq<EntryView>
    decreases items.len(),
{
    if items.len() == 0 {
        seq![]
    } else {
        match items.last() {
            ItemView::Segment(e) => if e.defaults.priority == 0 {
                pinned(items.drop_last()).push(e)
            } else {
                pinned(items.drop_last())
            },
            ItemView::Separator(_) => pinned(items.drop_last()),
        }
    }
}

spec fn is_pinned(item: ItemView) -> bool {
    item matches ItemView::Segment(e) && e.defaults.priority == 0
}

proof fn lemma_pinned_remove(items: Seq<ItemView>, k: int)
    requires
        0 <= k < items.len(),
        !is_pinned(items[k]),
    ensures
        pinned(items.remove(k)) == pinned(items),
    decreases items.len(),
{
    if k == items.len() - 1 {
        assert(items.remove(k) =~= items.drop_last());
    } else {
        lemma_pinned_remove(items.drop_last(), k);
        assert(items.remove(k).drop_last() =~= items.drop_last().remove(k));
        assert(items.remove(k).last() == items.last());
    }
}

proof fn lemma_pinned_update(items: Seq<ItemView>, k: int, item: ItemView)
    requires
        0 <= k < items.len(),
        !is_pinned(items[k]),
        !is_pinned(item),
    ensures
        pinned(items.update(k, item)) == pinned(items),
    decreases items.len(),
{
    let out = items.update(k, item);
    if k == items.len() - 1 {
        assert(out.drop_last() =~= items.drop_last());
    } else {
        lemma_pinned_update(items.drop_last(), k, item);
        assert(out.drop_last() =~= items.drop_last().update(k, item));
    }
}

proof fn lemma_pinned_step(items: Seq<ItemView>, budget: int, compact: Option<RenderedView>)
    requires
        !settled(items, budget),
    ensures
        pinned(stepped(items, budget, compact)) == pinned(items),
{
    lemma_first_to_go(items);
    let k = first_to_go(items)->0;
    let e = next_entry(items);
    match replacement(e, total(items) - budget, compact) {
        Some(rendered) => {
            let item = ItemView::Segment(EntryView { rendered, ..e });
            let out = items.update(k, item);
            lemma_pinned_update(items, k, item);
            match preferred_separator(item) {
                Some(s) => {
                    if k + 1 < out.len() && out[k + 1] is Separator {
                        lemma_pinned_update(out, k + 1, ItemView::Separator(s));
                    }
                },
                None => {},
            }
        },
        None => {
            lemma_pinned_remove(items, k);
            if k + 1 < items.len() && items[k + 1] is Separator {
                lemma_pinned_remove(items.remove(k), k);
            } else if k > 0 && items[k - 1] is Separator {
                lemma_pinned_remove(items.remove(k), k - 1);
            }
        },
    }
}

/// Segments of priority 0 are never dropped, cut or shrunk, not even in a line
/// that is too wide.
pub proof fn pinned_segments_stay(
    items: Seq<ItemView>,
    terminal_width: u16,
    ctx: DataContext,
    rc: RenderContext,
    answers: Seq<Option<RenderedView>>,
)
    requires
        may_fit(items, terminal_width, ctx, rc, answers),
    ensures
        pinned(fitted(items, terminal_width as int, answers)) == pinned(items),
{
    lemma_pinned_prefix(items, terminal_width, ctx, rc, answers, answers.len() as int);
    assert(answers.take(answers.len() as int) =~= answers);
}

proof fn lemma_pinned_prefix(
    items: Seq<ItemView>,
    terminal_width: u16,
    ctx: DataContext,
    rc: RenderContext,
    answers: Seq<Option<RenderedView>>,
    n: int,
)
    requires
        may_fit(items, terminal_width, ctx, rc, answers),
        0 <= n <= answers.len(),
    ensures
        pinned(fitted(items, terminal_width as int, answers.take(n))) == pinned(items),
    decreases n,
{
    let budget = terminal_width as int;
    if n > 0 {
        lemma_pinned_prefix(items, terminal_width, ctx, rc, answers, n - 1);
        assert(answers.take(n).drop_last() =~= answers.take(n - 1));
        let before = fitted(items, budget, answers.take(n - 1));
        lemma_pinned_step(before, budget, heard_form(before, budget, answers[n - 1]));
    }
}

// --- Separators ---------------------------------------------------------

/// Separators stand only between two segments: none leads, none trails, no
/// two meet.
pub open spec fn well_placed(items: Seq<ItemView>) -> bool {
    &&& items.len() > 0 ==> items[0] is Segment && items.last() is Segment
    &&& forall|i: int|
        0 <= i < items.len() - 1 ==> (#[trigger] items[i] is Separator ==> items[i + 1] is Segment)
}

spec fn well_started(items: Seq<ItemView>) -> bool {
    &&& items.len() > 0 ==> items[0] is Segment
    &&& forall|i: int|
        0 <= i < items.len() - 1 ==> (#[trigger] items[i] is Separator ==> items[i + 1] is Segment)
}

proof fn lemma_well_started_trim(items: Seq<ItemView>)
    requires
        well_started(items),
    ensures
        well_placed(without_trailing(items)),
{
    let out = without_trailing(items);
    if items.len() > 0 && items.last() is Separator {
        assert forall|i: int| 0 <= i < out.len() - 1 && #[trigger] out[i] is Separator implies out[i + 1] is Segment by {
            assert(out[i] == items[i]);
        }
        if out.len() > 0 {
            assert(out.last() == items[items.len() - 2]);
            assert(items[items.len() - 2] is Separator ==> items[items.len() - 1] is Segment);
        }
    }
}

proof fn lemma_placed_started(items: Seq<LineItem>, heard: Seq<Heard>)
    ensures
        well_started(placed(items, heard).items),
    decreases items.len(),
{
    if items.len() > 0 {
        lemma_placed_started(items.drop_last(), heard);
        let before = placed(items.drop_last(), heard).items;
        lemma_well_started_trim(before);
        let out = placed(items, heard).items;
        if out.len() == before.len() + 1 {
            assert forall|i: int| 0 <= i < out.len() - 1 && #[trigger] out[i] is Separator implies out[i + 1] is Segment by {
                assert(out[i] == before[i]);
                if i < before.len() - 1 {
                    assert(out[i + 1] == before[i + 1]);
                }
            }
        }
    }
}

proof fn lemma_same_kinds(a: Seq<ItemView>, b: Seq<ItemView>)
    requires
        well_placed(a),
        a.len() == b.len(),
        forall|i: int| 0 <= i < a.len() ==> (#[trigger] b[i] is Segment <==> a[i] is Segment),
    ensures
        well_placed(b),
{
    if b.len() > 0 {
        assert(b[0] is Segment <==> a[0] is Segment);
        assert(b[b.len() - 1] is Segment <==> a[b.len() - 1] is Segment);
    }
    assert forall|i: int| 0 <= i < b.len() - 1 && #[trigger] b[i] is Separator implies b[i + 1] is Segment by {
        assert(b[i] is Segment <==> a[i] is Segment);
        assert(b[i + 1] is Segment <==> a[i + 1] is Segment);
    }
}

/// In the line that goes into the layout, separators stand only between two
/// segments that show.
pub proof fn collected_line_is_well_placed(items: Seq<LineItem>, heard: Seq<Heard>)
    ensures
        well_placed(collected(items, heard).items),
{
    lemma_placed_started(items, heard);
    let all = placed(items, heard).items;
    lemma_well_started_trim(all);
    lemma_same_kinds(without_trailing(all), preferences(without_trailing(all)));
}

proof fn lemma_dropped_placed(items: Seq<ItemView>, k: int)
    requires
        well_placed(items),
        0 <= k < items.len(),
        items[k] is Segment,
    ensures
        well_placed(dropped(items, k)),
{
    let out = dropped(items, k);
    if k + 1 < items.len() && items[k + 1] is Separator {
        assert(items[k + 1] is Separator ==> items[k + 2] is Segment) by {
            if k + 1 == items.len() - 1 {
                assert(items.last() is Segment);
            }
        }
        assert(out =~= items.take(k) + items.skip(k + 2));
    } else if k > 0 && items[k - 1] is Separator {
        assert(items[k - 1] is Separator);
        assert(out =~= items.take(k - 1) + items.skip(k + 1));
        assert(items[0] is Segment);
        assert(k >= 2);
        assert(items[k - 2] is Segment) by {
            if items[k - 2] is Separator {
                assert(items[k - 1] is Segment);
            }
        }
    } else {
        assert(out =~= items.take(k) + items.skip(k + 1));
    }
    assert forall|i: int| 0 <= i < out.len() - 1 && #[trigger] out[i] is Separator implies out[i + 1] is Segment by {
        if out[i] is Separator {
            if i < k {
                assert(out[i] == items[i] || items[i] is Separator);
                assert(items[i] is Separator ==> items[i + 1] is Segment);
            }
            let shift = items.len() - out.len();
            if i >= k {
                assert(out[i] == items[i + shift]);
            }
        }
    }
    if out.len() > 0 {
        assert(items[items.len() - 1] is Segment);
    }
}

pub(crate) proof fn lemma_placed_step(items: Seq<ItemView>, budget: int, compact: Option<RenderedView>)
    requires
        !settled(items, budget),
        well_placed(items),
    ensures
        well_placed(stepped(items, budget, compact)),
{
    lemma_first_to_go(items);
    let k = first_to_go(items)->0;
    let e = next_entry(items);
    match replacement(e, total(items) - budget, compact) {
        Some(rendered) => {
            lemma_same_kinds(items, stepped(items, budget, compact));
        },
        None => {
            lemma_dropped_placed(items, k);
        },
    }
}

/// The layout keeps separators between two segments.
pub proof fn fitted_line_is_well_placed(
    items: Seq<ItemView>,
    terminal_width: u16,
    ctx: DataContext,
    rc: RenderContext,
    answers: Seq<Option<RenderedView>>,
)
    requires
        may_fit(items, terminal_width, ctx, rc, answers),
        well_placed(items),
    ensures
        well_placed(fitted(items, terminal_width as int, answers)),
{
    lemma_well_placed_prefix(items, terminal_width, ctx, rc, answers, answers.len() as int);
    assert(answers.take(answers.len() as int) =~= answers);
}

proof fn lemma_well_placed_prefix(
    items: Seq<ItemView>,
    terminal_width: u16,
    ctx: DataContext,
    rc: RenderContext,
    answers: Seq<Option<RenderedView>>,
    n: int,
)
    requires
        may_fit(items, terminal_width, ctx, rc, answers),
        well_placed(items),
        0 <= n <= answers.len(),
    ensures
        well_placed(fitted(items, terminal_width as int, answers.take(n))),
    decreases n,
{
    let budget = terminal_width as int;
    if n > 0 {
        lemma_well_placed_prefix(items, terminal_width, ctx, rc, answers, n - 1);
        assert(answers.take(n).drop_last() =~= answers.take(n - 1));
        let before = fitted(items, budget, answers.take(n - 1));
        lemma_placed_step(before, budget, heard_form(before, budget, answers[n - 1]));
    }
}

// --- Order --------------------------------------------------------------

/// `at` picks slots of a line of `len` slots from left to right.
pub open spec fn picks(at: Seq<int>, len: nat) -> bool {
    &&& forall|i: int| 0 <= i < at.len() ==> 0 <= #[trigger] at[i] < len
    &&& forall|i: int, j: int| 0 <= i < j < at.len() ==> #[trigger] at[i] < #[trigger] at[j]
}

/// The slot `b` is what became of the slot `a`: of the same segment, or a
/// separator again.
pub open spec fn descends(a: ItemView, b: ItemView) -> bool {
    match (a, b) {
        (ItemView::Segment(x), ItemView::Segment(y)) => x.id == y.id && x.defaults == y.defaults
            && x.segment == y.segment && x.paint == y.paint,
        (ItemView::Separator(_), ItemView::Separator(_)) => true,
        _ => false,
    }
}

/// The slots of `out` are slots of `items`, in the same order.
pub open spec fn survivors(items: Seq<ItemView>, out: Seq<ItemView>, at: Seq<int>) -> bool {
    &&& at.len() == out.len()
    &&& picks(at, items.len())
    &&& forall|i: int| 0 <= i < out.len() ==> descends(items[at[i]], #[trigger] out[i])
}

proof fn lemma_survivors_step(
    items: Seq<ItemView>,
    budget: int,
    compact: Option<RenderedView>,
) -> (at: Seq<int>)
    requires
        !settled(items, budget),
    ensures
        survivors(items, stepped(items, budget, compact), at),
{
    lemma_first_to_go(items);
    let k = first_to_go(items)->0;
    let e = next_entry(items);
    let out = stepped(items, budget, compact);
    match replacement(e, total(items) - budget, compact) {
        Some(rendered) => {
            let at = Seq::new(items.len(), |i: int| i);
            assert(survivors(items, out, at));
            at
        },
        None => {
            if k + 1 < items.len() && items[k + 1] is Separator {
                let at = Seq::new(
                    out.len(),
                    |i: int|
                        if i < k {
                            i
                        } else {
                            i + 2
                        },
                );
                assert(survivors(items, out, at));
                at
            } else if k > 0 && items[k - 1] is Separator {
                let at = Seq::new(
                    out.len(),
                    |i: int|
                        if i < k - 1 {
                            i
                        } else {
                            i + 2
                        },
                );
                assert(survivors(items, out, at));
                at
            } else {
                let at = Seq::new(
                    out.len(),
                    |i: int|
                        if i < k {
                            i
                        } else {
                            i + 1
                        },
                );
                assert(survivors(items, out, at));
                at
            }
        },
    }
}

/// What the layout leaves stands in the order in which it came, and every
/// segment keeps its id and its intent.
pub proof fn survivors_keep_their_order(
    items: Seq<ItemView>,
    terminal_width: u16,
    ctx: DataContext,
    rc: RenderContext,
    answers: Seq<Option<RenderedView>>,
)
    requires
        may_fit(items, terminal_width, ctx, rc, answers),
    ensures
        exists|at: Seq<int>| #[trigger]
            survivors(items, fitted(items, terminal_width as int, answers), at),
{
    let at = lemma_survivors_prefix(
        items,
        terminal_width,
        ctx,
        rc,
        answers,
        answers.len() as int,
    );
    assert(answers.take(answers.len() as int) =~= answers);
    assert(survivors(items, fitted(items, terminal_width as int, answers), at));
}

proof fn lemma_survivors_prefix(
    items: Seq<ItemView>,
    terminal_width: u16,
    ctx: DataContext,
    rc: RenderContext,
    answers: Seq<Option<RenderedView>>,
    n: int,
) -> (at: Seq<int>)
    requires
        may_fit(items, terminal_width, ctx, rc, answers),
        0 <= n <= answers.len(),
    ensures
        survivors(items, fitted(items, terminal_width as int, answers.take(n)), at),
    decreases n,
{
    let budget = terminal_width as int;
    if n == 0 {
        let at = Seq::new(items.len(), |i: int| i);
        assert(survivors(items, fitted(items, budget, answers.take(n)), at));
        at
    } else {
        let first = lemma_survivors_prefix(items, terminal_width, ctx, rc, answers, n - 1);
        assert(answers.take(n).drop_last() =~= answers.take(n - 1));
        let before = fitted(items, budget, answers.take(n - 1));
        let compact = heard_form(before, budget, answers[n - 1]);
        let second = lemma_survivors_step(before, budget, compact);
        let out = stepped(before, budget, compact);
        let at = Seq::new(second.len(), |i: int| first[second[i]]);
        assert forall|i: int| 0 <= i < out.len() implies descends(items[at[i]], #[trigger] out[i]) by {
            assert(descends(before[second[i]], out[i]));
            assert(descends(items[first[second[i]]], before[second[i]]));
        }
        assert(survivors(items, out, at));
        at
    }
}

// --- Events -------------------------------------------------------------

proof fn lemma_total_bound(items: Seq<ItemView>)
    ensures
        0 <= total(items) <= items.len() * 0xffff,
    decreases items.len(),
{
    if items.len() > 0 {
        lemma_total_bound(items.drop_last());
    }
}

proof fn lemma_step_decisions(
    items: Seq<ItemView>,
    terminal_width: u16,
    answer: Option<RenderedView>,
)
    requires
        !settled(items, terminal_width as int),
        items.len() <= 0x1_0001,
    ensures
        forall|i: int|
            0 <= i < step_report(items, terminal_width, answer).decisions.len()
                ==> (#[trigger] step_report(items, terminal_width, answer).decisions[i]).wf(),
{
    lemma_first_to_go(items);
    lemma_total_bound(items);
    let e = next_entry(items);
    let overflow = total(items) - terminal_width;
    let compact = heard_form(items, terminal_width as int, answer);
    assert(overflow as u32 == overflow);
    if compact is None && e.defaults.truncatable && reflowed(e, overflow) is Some {
        lemma_cut_width(e.rendered, (e.rendered.width - overflow) as u16);
    }
}

proof fn lemma_step_len(items: Seq<ItemView>, budget: int, compact: Option<RenderedView>)
    requires
        !settled(items, budget),
    ensures
        stepped(items, budget, compact).len() <= items.len(),
{
    lemma_first_to_go(items);
}

/// Every event of a line keeps to what `DecisionView::wf` says of its numbers.
pub proof fn reported_decisions_are_sound(
    items: Seq<ItemView>,
    terminal_width: u16,
    ctx: DataContext,
    rc: RenderContext,
    answers: Seq<Option<RenderedView>>,
)
    requires
        may_fit(items, terminal_width, ctx, rc, answers),
        items.len() <= 0x1_0001,
    ensures
        forall|i: int|
            0 <= i < fit_report(items, terminal_width, answers).decisions.len() ==> (
            #[trigger] fit_report(items, terminal_width, answers).decisions[i]).wf(),
{
    lemma_decisions_prefix(items, terminal_width, ctx, rc, answers, answers.len() as int);
    assert(answers.take(answers.len() as int) =~= answers);
}

proof fn lemma_decisions_prefix(
    items: Seq<ItemView>,
    terminal_width: u16,
    ctx: DataContext,
    rc: RenderContext,
    answers: Seq<Option<RenderedView>>,
    n: int,
)
    requires
        may_fit(items, terminal_width, ctx, rc, answers),
        items.len() <= 0x1_0001,
        0 <= n <= answers.len(),
    ensures
        fitted(items, terminal_width as int, answers.take(n)).len() <= items.len(),
        forall|i: int|
            0 <= i < fit_report(items, terminal_width, answers.take(n)).decisions.len() ==> (
            #[trigger] fit_report(items, terminal_width, answers.take(n)).decisions[i]).wf(),
    decreases n,
{
    let budget = terminal_width as int;
    if n > 0 {
        lemma_decisions_prefix(items, terminal_width, ctx, rc, answers, n - 1);
        assert(answers.take(n).drop_last() =~= answers.take(n - 1));
        let before = fitted(items, budget, answers.take(n - 1));
        lemma_step_len(before, budget, heard_form(before, budget, answers[n - 1]));
        lemma_step_decisions(before, terminal_width, answers[n - 1]);
        let earlier = fit_report(items, terminal_width, answers.take(n - 1)).decisions;
        let step = step_report(before, terminal_width, answers[n - 1]).decisions;
        let all = fit_report(items, terminal_width, answers.take(n)).decisions;
        assert(all == earlier + step);
        assert forall|i: int| 0 <= i < all.len() implies (#[trigger] all[i]).wf() by {
            if i < earlier.len() {
                assert(all[i] == earlier[i]);
            } else {
                assert(all[i] == step[i - earlier.len()]);
            }
        }
    }
}

/// Every event of collecting a line keeps to what `DecisionView::wf` says.
pub proof fn collected_decisions_are_sound(items: Seq<LineItem>, heard: Seq<Heard>)
    ensures
        forall|i: int|
            0 <= i < collected(items, heard).report.decisions.len() ==> (#[trigger] collected(
                items,
                heard,
            ).report.decisions[i]).wf(),
    decreases items.len(),
{
    if items.len() > 0 {
        collected_decisions_are_sound(items.drop_last(), heard);
        assert(collected(items.drop_last(), heard).report == placed(
            items.drop_last(),
            heard,
        ).report);
    }
}

// --- Widths and texts ---------------------------------------------------

/// What passes its width bounds is not wider than the upper one, and is the
/// render itself where that was within both.
pub proof fn bounded_render_keeps_its_bounds(rendered: RenderedView, bounds: WidthBounds)
    requires
        bounds.lo() <= bounds.hi(),
    ensures
        bounded(rendered, Some(bounds)) matches Some(r) ==> r.width <= bounds.hi(),
        bounds.lo() <= rendered.width <= bounds.hi() ==> bounded(rendered, Some(bounds)) == Some(
            rendered,
        ),
        bounded(rendered, Some(bounds)) is None <==> rendered.width < bounds.lo(),
{
    lemma_cut_width(rendered, bounds.hi());
}

proof fn lemma_runs_printable(runs: Seq<RunView>)
    requires
        is_printable(runs_text(runs)),
    ensures
        forall|i: int| 0 <= i < runs.len() ==> is_printable((#[trigger] runs[i]).text),
    decreases runs.len(),
{
    if runs.len() > 0 {
        let rest = runs_text(runs.drop_last());
        let all = runs_text(runs);
        assert(is_printable(rest)) by {
            assert forall|i: int| 0 <= i < rest.len() implies !is_control(#[trigger] rest[i]) by {
                assert(all[i] == rest[i]);
            }
        }
        lemma_runs_printable(runs.drop_last());
        assert(is_printable(runs.last().text)) by {
            assert forall|i: int| 0 <= i < runs.last().text.len() implies !is_control(
                #[trigger] runs.last().text[i],
            ) by {
                assert(all[rest.len() + i] == runs.last().text[i]);
            }
        }
        assert forall|i: int| 0 <= i < runs.len() implies is_printable((#[trigger] runs[i]).text) by {
            if i < runs.len() - 1 {
                assert(runs.drop_last()[i] == runs[i]);
            }
        }
    }
}

/// No run of a segment holds a control character, so no segment can send the
/// terminal an escape sequence of its own; and its runs spell its text.
pub proof fn segment_runs_are_printable(e: EntryView)
    requires
        e.rendered.wf(),
    ensures
        forall|i: int|
            0 <= i < item_runs(ItemView::Segment(e)).len() ==> is_printable(
                (#[trigger] item_runs(ItemView::Segment(e))[i]).text,
            ),
        runs_text(item_runs(ItemView::Segment(e))) == e.rendered.text,
{
    let runs = item_runs(ItemView::Segment(e));
    if e.rendered.spans is None {
        reveal_with_fuel(runs_text, 2);
        assert(runs.drop_last() =~= seq![]);
        assert(runs_text(runs) =~= e.rendered.text);
    }
    lemma_runs_printable(runs);
}

/// Where nothing is opened and links are off, the terminal gets the bare text.
pub proof fn unstyled_output_is_the_text(runs: Seq<RunView>, opens: Seq<Seq<char>>)
    requires
        opens.len() >= runs.len(),
        forall|i: int| 0 <= i < runs.len() ==> (#[trigger] opens[i]).len() == 0,
    ensures
        runs_ansi(runs, opens, false) == runs_text(runs),
    decreases runs.len(),
{
    if runs.len() > 0 {
        unstyled_output_is_the_text(runs.drop_last(), opens);
        assert(opens[runs.len() - 1].len() == 0);
    }
}

/// Runs one behind the other reach the terminal one behind the other: nothing
/// of a run reaches into the next.
pub proof fn emitted_runs_stand_apart(
    a: Seq<RunView>,
    b: Seq<RunView>,
    opens: (Seq<Seq<char>>, Seq<Seq<char>>),
    hyperlinks: bool,
)
    requires
        opens.0.len() == a.len(),
        opens.1.len() == b.len(),
    ensures
        runs_ansi(a + b, opens.0 + opens.1, hyperlinks) == runs_ansi(a, opens.0, hyperlinks)
            + runs_ansi(b, opens.1, hyperlinks),
    decreases b.len(),
{
    if b.len() == 0 {
        assert(a + b =~= a);
        assert(opens.0 + opens.1 =~= opens.0);
        assert(runs_ansi(a, opens.0, hyperlinks) + runs_ansi(b, opens.1, hyperlinks) =~= runs_ansi(
            a,
            opens.0,
            hyperlinks,
        ));
    } else {
        let n = b.len() - 1;
        emitted_runs_stand_apart(a, b.drop_last(), (opens.0, opens.1.drop_last()), hyperlinks);
        assert((a + b).drop_last() =~= a + b.drop_last());
        assert((opens.0 + opens.1)[a.len() + n] == opens.1[n]);
        lemma_ansi_once(
            a + b.drop_last(),
            opens.0 + opens.1,
            opens.0 + opens.1.drop_last(),
            hyperlinks,
        );
        lemma_ansi_once(b.drop_last(), opens.1, opens.1.drop_last(), hyperlinks);
        assert(runs_ansi(a + b, opens.0 + opens.1, hyperlinks) =~= runs_ansi(
            a,
            opens.0,
            hyperlinks,
        ) + runs_ansi(b, opens.1, hyperlinks));
    }
}

/// The target of a link reaches the terminal without control characters, so it
/// cannot end the link before its time.
pub proof fn links_carry_no_control_characters(url: Seq<char>)
    ensures
        link_open(url) == "\x1b]8;;"@ + printable(url) + "\x1b\\"@,
        is_printable(printable(url)),
{
    lemma_printable(url);
}

// --- Groups -------------------------------------------------------------

/// The render of a segment of which `heard` was heard, where it shows.
pub open spec fn shown(heard: Heard) -> Option<RenderedView> {
    match heard.outcome {
        Ok(Some(r)) => bounded(r, heard.defaults.width),
        _ => None,
    }
}

/// `e` shows in the color that it takes from its group, every span of it.
pub open spec fn in_group_color(e: EntryView) -> bool {
    e.paint matches Some(color) ==> {
        &&& lead_color(e.rendered) == color
        &&& e.rendered.spans matches Some(spans) ==> forall|i: int|
            0 <= i < spans.len() ==> (#[trigger] spans[i]).style.role == color.role
                && spans[i].style.fg == color.fg
    }
}

/// Every segment of `items` shows in the color that it takes from its group.
pub open spec fn all_in_group_color(items: Seq<ItemView>) -> bool {
    forall|i: int|
        0 <= i < items.len() ==> (#[trigger] items[i] matches ItemView::Segment(e)
            ==> in_group_color(e))
}

proof fn lemma_lead_stays(items: Seq<LineItem>, heard: Seq<Heard>, i: int, n: int)
    requires
        0 <= i < n <= items.len(),
        items[i] matches LineItem::Segment { fuses_left, .. } && !fuses_left,
        shown(heard[i]) is Some,
        forall|k: int|
            i < k < n ==> (#[trigger] items[k] matches LineItem::Segment { fuses_left, .. }
                ==> fuses_left),
    ensures
        placed(items.take(n), heard).lead == Some(lead_color(shown(heard[i])->0)),
    decreases n,
{
    assert(items.take(n).drop_last() =~= items.take(n - 1));
    assert(items.take(n).last() == items[n - 1]);
    if n - 1 > i {
        lemma_lead_stays(items, heard, i, n - 1);
    }
}

proof fn lemma_segments_stay(items: Seq<LineItem>, heard: Seq<Heard>, n: int, e: EntryView)
    requires
        0 <= n <= items.len(),
        placed(items.take(n), heard).items.contains(ItemView::Segment(e)),
    ensures
        placed(items, heard).items.contains(ItemView::Segment(e)),
    decreases items.len() - n,
{
    if n < items.len() {
        let before = placed(items.take(n), heard).items;
        let after = placed(items.take(n + 1), heard).items;
        assert(items.take(n + 1).drop_last() =~= items.take(n));
        let k = choose|k: int| 0 <= k < before.len() && before[k] == ItemView::Segment(e);
        assert(after[k] == before[k]);
        lemma_segments_stay(items, heard, n + 1, e);
    } else {
        assert(items.take(n) =~= items);
    }
}

/// A segment that fuses with the lead of a group to its left, or with other
/// members of the group, shows in the lead's color, unless the user fixed its
/// own.
pub proof fn group_shows_in_its_leads_color(
    items: Seq<LineItem>,
    heard: Seq<Heard>,
    i: int,
    j: int,
) -> (e: EntryView)
    requires
        0 <= i < j < items.len(),
        items[i] matches LineItem::Segment { fuses_left, .. } && !fuses_left,
        items[j] is Segment,
        forall|k: int|
            i < k <= j ==> (#[trigger] items[k] matches LineItem::Segment { fuses_left, .. }
                ==> fuses_left),
        shown(heard[i]) is Some,
        shown(heard[j]) is Some,
        !heard[j].pinned,
    ensures
        collected(items, heard).items.contains(ItemView::Segment(e)),
        items[j] matches LineItem::Segment { id, .. } && e.id == id@,
        e.paint == Some(lead_color(shown(heard[i])->0)),
        e.rendered == shown(heard[j])->0.recolored(lead_color(shown(heard[i])->0)),
        e.rendered.style.role == shown(heard[i])->0.style.role,
        e.rendered.style.fg == shown(heard[i])->0.style.fg,
        in_group_color(e),
{
    lemma_lead_stays(items, heard, i, j);
    assert(items.take(j + 1).drop_last() =~= items.take(j));
    let after = placed(items.take(j + 1), heard).items;
    let e = after.last()->Segment_0;
    assert(after[after.len() - 1] == ItemView::Segment(e));
    lemma_segments_stay(items, heard, j + 1, e);
    lemma_collected_keeps(items, heard, e);
    e
}

/// No segment from `from` up to `to` shows.
pub open spec fn none_shows(items: Seq<LineItem>, heard: Seq<Heard>, from: int, to: int) -> bool {
    forall|k: int|
        from <= k < to ==> (#[trigger] items[k] is Segment ==> shown(heard[k]) is None)
}

proof fn lemma_no_lead(items: Seq<LineItem>, heard: Seq<Heard>, g: int, n: int)
    requires
        0 <= g < n <= items.len(),
        items[g] matches LineItem::Segment { fuses_left, .. } && !fuses_left,
        none_shows(items, heard, g, n),
    ensures
        placed(items.take(n), heard).lead is None,
    decreases n,
{
    assert(items.take(n).drop_last() =~= items.take(n - 1));
    assert(items.take(n).last() == items[n - 1]);
    assert(items[n - 1] is Segment ==> shown(heard[n - 1]) is None);
    if n - 1 > g {
        lemma_no_lead(items, heard, g, n - 1);
    }
}

proof fn lemma_late_lead_stays(items: Seq<LineItem>, heard: Seq<Heard>, g: int, i: int, n: int)
    requires
        0 <= g < i < n <= items.len(),
        items[g] matches LineItem::Segment { fuses_left, .. } && !fuses_left,
        items[i] is Segment,
        forall|k: int|
            i < k < n ==> (#[trigger] items[k] matches LineItem::Segment { fuses_left, .. }
                ==> fuses_left),
        none_shows(items, heard, g, i),
        shown(heard[i]) is Some,
    ensures
        placed(items.take(n), heard).lead == Some(lead_color(shown(heard[i])->0)),
    decreases n,
{
    assert(items.take(n).drop_last() =~= items.take(n - 1));
    assert(items.take(n).last() == items[n - 1]);
    if n - 1 > i {
        lemma_late_lead_stays(items, heard, g, i, n - 1);
    } else {
        lemma_no_lead(items, heard, g, i);
    }
}

/// Where the segments from the start `g` of a group up to `j` all hide, the one
/// at `j` takes no color: it shows in its own, whatever group stands before.
pub proof fn first_to_show_keeps_its_color(
    items: Seq<LineItem>,
    heard: Seq<Heard>,
    g: int,
    j: int,
) -> (e: EntryView)
    requires
        0 <= g < j < items.len(),
        items[g] matches LineItem::Segment { fuses_left, .. } && !fuses_left,
        items[j] is Segment,
        none_shows(items, heard, g, j),
        shown(heard[j]) is Some,
    ensures
        collected(items, heard).items.contains(ItemView::Segment(e)),
        items[j] matches LineItem::Segment { id, .. } && e.id == id@,
        e.paint is None,
        e.rendered == shown(heard[j])->0,
{
    lemma_no_lead(items, heard, g, j);
    assert(items.take(j + 1).drop_last() =~= items.take(j));
    let after = placed(items.take(j + 1), heard).items;
    let e = after.last()->Segment_0;
    assert(after[after.len() - 1] == ItemView::Segment(e));
    lemma_segments_stay(items, heard, j + 1, e);
    lemma_collected_keeps(items, heard, e);
    e
}

/// Where the start `g` of a group hides, the first of it to show leads it: the
/// members behind that one show in its color, unless the user fixed their own.
pub proof fn first_to_show_leads_the_group(
    items: Seq<LineItem>,
    heard: Seq<Heard>,
    g: int,
    i: int,
    j: int,
) -> (e: EntryView)
    requires
        0 <= g < i < j < items.len(),
        items[g] matches LineItem::Segment { fuses_left, .. } && !fuses_left,
        items[i] is Segment,
        items[j] is Segment,
        forall|k: int|
            i < k <= j ==> (#[trigger] items[k] matches LineItem::Segment { fuses_left, .. }
                ==> fuses_left),
        none_shows(items, heard, g, i),
        shown(heard[i]) is Some,
        shown(heard[j]) is Some,
        !heard[j].pinned,
    ensures
        collected(items, heard).items.contains(ItemView::Segment(e)),
        items[j] matches LineItem::Segment { id, .. } && e.id == id@,
        e.paint == Some(lead_color(shown(heard[i])->0)),
        e.rendered == shown(heard[j])->0.recolored(lead_color(shown(heard[i])->0)),
        e.rendered.style.role == shown(heard[i])->0.style.role,
        e.rendered.style.fg == shown(heard[i])->0.style.fg,
{
    lemma_late_lead_stays(items, heard, g, i, j);
    assert(items.take(j + 1).drop_last() =~= items.take(j));
    let after = placed(items.take(j + 1), heard).items;
    let e = after.last()->Segment_0;
    assert(after[after.len() - 1] == ItemView::Segment(e));
    lemma_segments_stay(items, heard, j + 1, e);
    lemma_collected_keeps(items, heard, e);
    e
}

proof fn lemma_collected_keeps(items: Seq<LineItem>, heard: Seq<Heard>, e: EntryView)
    requires
        placed(items, heard).items.contains(ItemView::Segment(e)),
    ensures
        collected(items, heard).items.contains(ItemView::Segment(e)),
{
    let all = placed(items, heard).items;
    let k = choose|k: int| 0 <= k < all.len() && all[k] == ItemView::Segment(e);
    assert(collected(items, heard).items[k] == ItemView::Segment(e));
}

/// A segment that fuses with nothing to its left keeps its own color, and so
/// does one whose color the user fixed.
pub proof fn own_colors_stay(
    before: CollectedView,
    id: Seq<char>,
    segment: SegmentBox,
    fuses_left: bool,
    heard: Heard,
)
    requires
        !fuses_left || heard.pinned,
        shown(heard) is Some,
    ensures
        segment_placed(before, id, segment, fuses_left, heard).items == before.items.push(
            ItemView::Segment(
                EntryView {
                    id,
                    rendered: shown(heard)->0,
                    defaults: heard.defaults,
                    segment,
                    paint: None,
                },
            ),
        ),
{
}

proof fn lemma_placed_in_color(items: Seq<LineItem>, heard: Seq<Heard>)
    ensures
        all_in_group_color(placed(items, heard).items),
    decreases items.len(),
{
    if items.len() > 0 {
        lemma_placed_in_color(items.drop_last(), heard);
        let before = placed(items.drop_last(), heard).items;
        let after = placed(items, heard).items;
        assert forall|i: int| 0 <= i < after.len() implies (
        #[trigger] after[i] matches ItemView::Segment(e) ==> in_group_color(e)) by {
            if i < before.len() {
                assert(after[i] == before[i]);
            }
        }
    }
}

/// Every segment of a collected line shows in the color that it takes from its
/// group.
pub proof fn collected_line_is_in_color(items: Seq<LineItem>, heard: Seq<Heard>)
    ensures
        all_in_group_color(collected(items, heard).items),
{
    lemma_placed_in_color(items, heard);
    let all = without_trailing(placed(items, heard).items);
    let line = collected(items, heard).items;
    assert forall|i: int| 0 <= i < line.len() implies (
    #[trigger] line[i] matches ItemView::Segment(e) ==> in_group_color(e)) by {
        assert(line[i] is Segment ==> line[i] == all[i]);
        assert(all[i] == placed(items, heard).items[i]);
    }
}

proof fn lemma_step_in_color(items: Seq<ItemView>, budget: int, answer: Option<RenderedView>)
    requires
        !settled(items, budget),
        all_in_group_color(items),
    ensures
        all_in_group_color(stepped(items, budget, heard_form(items, budget, answer))),
{
    lemma_first_to_go(items);
    let k = first_to_go(items)->0;
    let e = next_entry(items);
    let compact = heard_form(items, budget, answer);
    let out = stepped(items, budget, compact);
    assert(items[k] == ItemView::Segment(e));
    match replacement(e, total(items) - budget, compact) {
        Some(rendered) => {
            assert(in_group_color(EntryView { rendered, ..e }));
            assert forall|i: int| 0 <= i < out.len() implies (
            #[trigger] out[i] matches ItemView::Segment(x) ==> in_group_color(x)) by {
                if i != k && out[i] is Segment {
                    assert(out[i] == items[i]);
                }
            }
        },
        None => {
            let shift = items.len() - out.len();
            assert forall|i: int| 0 <= i < out.len() implies (
            #[trigger] out[i] matches ItemView::Segment(x) ==> in_group_color(x)) by {
                assert(out[i] == items[i] || out[i] == items[i + shift]);
            }
        },
    }
}

/// The layout leaves the members of a group in the color of their lead, cut or
/// compact, whether the lead itself stays or not.
pub proof fn fitted_line_is_in_color(
    items: Seq<ItemView>,
    terminal_width: u16,
    ctx: DataContext,
    rc: RenderContext,
    answers: Seq<Option<RenderedView>>,
)
    requires
        may_fit(items, terminal_width, ctx, rc, answers),
        all_in_group_color(items),
    ensures
        all_in_group_color(fitted(items, terminal_width as int, answers)),
{
    lemma_in_color_prefix(items, terminal_width, ctx, rc, answers, answers.len() as int);
    assert(answers.take(answers.len() as int) =~= answers);
}

proof fn lemma_in_color_prefix(
    items: Seq<ItemView>,
    terminal_width: u16,
    ctx: DataContext,
    rc: RenderContext,
    answers: Seq<Option<RenderedView>>,
    n: int,
)
    requires
        may_fit(items, terminal_width, ctx, rc, answers),
        all_in_group_color(items),
        0 <= n <= answers.len(),
    ensures
        all_in_group_color(fitted(items, terminal_width as int, answers.take(n))),
    decreases n,
{
    let budget = terminal_width as int;
    if n > 0 {
        lemma_in_color_prefix(items, terminal_width, ctx, rc, answers, n - 1);
        assert(answers.take(n).drop_last() =~= answers.take(n - 1));
        let before = fitted(items, budget, answers.take(n - 1));
        lemma_step_in_color(before, budget, answers[n - 1]);
    }
}

// --- One answer ---------------------------------------------------------

/// `s` has one answer to each question that it is asked of `ctx` and `rc`.
pub open spec fn answers_once(s: SegmentBox, ctx: DataContext, rc: RenderContext) -> bool {
    &&& forall|a: SegmentDefaults, b: SegmentDefaults| #[trigger]
        s.segment.declares(a) && #[trigger] s.segment.declares(b) ==> a == b
    &&& forall|a: bool, b: bool| #[trigger]
        s.segment.pins_color(a) && #[trigger] s.segment.pins_color(b) ==> a == b
    &&& forall|a: Outcome, b: Outcome| #[trigger]
        s.segment.renders(ctx, rc, a) && #[trigger] s.segment.renders(ctx, rc, b) ==> a == b
    &&& forall|target: u16, a: Option<RenderedView>, b: Option<RenderedView>| #[trigger]
        s.segment.shrinks(ctx, rc, target, a) && #[trigger] s.segment.shrinks(ctx, rc, target, b)
            ==> a == b
    &&& forall|a: Option<Seq<char>>, b: Option<Seq<char>>| #[trigger]
        s.segment.explains(ctx, a) && #[trigger] s.segment.explains(ctx, b) ==> a == b
}

/// Every segment of `items` has one answer to each question.
pub open spec fn all_answer_once(items: Seq<LineItem>, ctx: DataContext, rc: RenderContext) -> bool {
    forall|i: int|
        0 <= i < items.len() ==> (#[trigger] items[i] matches LineItem::Segment { segment, .. }
            ==> answers_once(segment, ctx, rc))
}

/// `sgr_open` has one answer for a style.
pub open spec fn opens_once<F: Fn(&Style) -> String>(sgr_open: F) -> bool {
    forall|s: &Style, t: &Style, a: String, b: String|
        s@ == t@ && #[trigger] call_ensures(sgr_open, (s,), a) && #[trigger] call_ensures(
            sgr_open,
            (t,),
            b,
        ) ==> a@ == b@
}

/// Every segment of a line that is laid out has one answer to each question.
spec fn entries_answer_once(items: Seq<ItemView>, ctx: DataContext, rc: RenderContext) -> bool {
    forall|i: int|
        0 <= i < items.len() ==> (#[trigger] items[i] matches ItemView::Segment(e) ==> answers_once(
            e.segment,
            ctx,
            rc,
        ))
}

/// The two say the same, as far as they were asked.
spec fn same_heard(a: Heard, b: Heard) -> bool {
    &&& a.defaults == b.defaults
    &&& a.pinned == b.pinned
    &&& a.outcome == b.outcome
    &&& a.outcome == Ok::<Option<RenderedView>, Seq<char>>(None) ==> a.reason == b.reason
}

proof fn lemma_placed_once(items: Seq<LineItem>, a: Seq<Heard>, b: Seq<Heard>)
    requires
        a.len() >= items.len(),
        b.len() >= items.len(),
        forall|i: int|
            0 <= i < items.len() ==> (#[trigger] items[i] is Segment ==> same_heard(a[i], b[i])),
    ensures
        placed(items, a) == placed(items, b),
    decreases items.len(),
{
    if items.len() > 0 {
        let front = items.drop_last();
        assert forall|i: int| 0 <= i < front.len() implies (#[trigger] front[i] is Segment
            ==> same_heard(a[i], b[i])) by {
            assert(front[i] == items[i]);
        }
        lemma_placed_once(front, a, b);
        let n = items.len() - 1;
        assert(items[n] is Segment ==> same_heard(a[n], b[n]));
    }
}

proof fn lemma_placed_answer_once(
    items: Seq<LineItem>,
    ctx: DataContext,
    rc: RenderContext,
    heard: Seq<Heard>,
)
    requires
        all_answer_once(items, ctx, rc),
    ensures
        entries_answer_once(placed(items, heard).items, ctx, rc),
    decreases items.len(),
{
    if items.len() > 0 {
        let front = items.drop_last();
        assert(all_answer_once(front, ctx, rc)) by {
            assert forall|i: int| 0 <= i < front.len() implies (
            #[trigger] front[i] matches LineItem::Segment { segment, .. } ==> answers_once(
                segment,
                ctx,
                rc,
            )) by {
                assert(front[i] == items[i]);
            }
        }
        lemma_placed_answer_once(front, ctx, rc, heard);
        let before = placed(front, heard).items;
        let after = placed(items, heard).items;
        assert(items[items.len() - 1] matches LineItem::Segment { segment, .. } ==> answers_once(
            segment,
            ctx,
            rc,
        ));
        assert forall|i: int| 0 <= i < after.len() implies (
        #[trigger] after[i] matches ItemView::Segment(e) ==> answers_once(e.segment, ctx, rc)) by {
            if i < before.len() {
                assert(after[i] == before[i]);
            }
        }
    }
}

proof fn lemma_step_answer_once(
    items: Seq<ItemView>,
    budget: int,
    compact: Option<RenderedView>,
    ctx: DataContext,
    rc: RenderContext,
)
    requires
        !settled(items, budget),
        entries_answer_once(items, ctx, rc),
    ensures
        entries_answer_once(stepped(items, budget, compact), ctx, rc),
{
    let at = lemma_survivors_step(items, budget, compact);
    let out = stepped(items, budget, compact);
    assert forall|i: int| 0 <= i < out.len() implies (
    #[trigger] out[i] matches ItemView::Segment(e) ==> answers_once(e.segment, ctx, rc)) by {
        assert(descends(items[at[i]], out[i]));
        assert(0 <= at[i] < items.len());
    }
}

proof fn lemma_answers_once(
    items: Seq<ItemView>,
    terminal_width: u16,
    ctx: DataContext,
    rc: RenderContext,
    a: Seq<Option<RenderedView>>,
    b: Seq<Option<RenderedView>>,
    n: int,
)
    requires
        entries_answer_once(items, ctx, rc),
        may_fit(items, terminal_width, ctx, rc, a),
        may_fit(items, terminal_width, ctx, rc, b),
        0 <= n <= a.len(),
    ensures
        n <= b.len(),
        a.take(n) == b.take(n),
        entries_answer_once(fitted(items, terminal_width as int, a.take(n)), ctx, rc),
    decreases n,
{
    let budget = terminal_width as int;
    if n > 0 {
        lemma_answers_once(items, terminal_width, ctx, rc, a, b, n - 1);
        let at = fitted(items, budget, a.take(n - 1));
        assert(!settled(at, budget));
        if b.len() == n - 1 {
            assert(b.take(n - 1) =~= b);
            assert(settled(at, budget));
        }
        assert(may_answer(at, terminal_width, ctx, rc, a[n - 1]));
        assert(fitted(items, budget, b.take(n - 1)) == at);
        assert(may_answer(at, terminal_width, ctx, rc, b[n - 1]));
        lemma_first_to_go(at);
        let k = first_to_go(at)->0;
        assert(at[k] == ItemView::Segment(next_entry(at)));
        assert(answers_once(next_entry(at).segment, ctx, rc));
        assert(a[n - 1] == b[n - 1]);
        assert(a.take(n) =~= a.take(n - 1).push(a[n - 1]));
        assert(b.take(n) =~= b.take(n - 1).push(b[n - 1]));
        assert(a.take(n).drop_last() =~= a.take(n - 1));
        lemma_step_answer_once(at, budget, heard_form(at, budget, a[n - 1]), ctx, rc);
    } else {
        assert(a.take(0) =~= seq![]);
        assert(b.take(0) =~= seq![]);
    }
}

/// Where every segment has one answer to each question, a line has one set of
/// runs and one report: to render it again gives the same.
pub proof fn line_shows_one_way(
    items: Seq<LineItem>,
    ctx: DataContext,
    terminal_width: u16,
    runs: (Seq<RunView>, Seq<RunView>),
    report: (ReportView, ReportView),
)
    requires
        all_answer_once(items, ctx, (RenderContext { terminal_width })),
        may_show(items, ctx, terminal_width, runs.0, report.0),
        may_show(items, ctx, terminal_width, runs.1, report.1),
    ensures
        runs.0 == runs.1,
        report.0 == report.1,
{
    let rc = RenderContext { terminal_width };
    let (h, a) = choose|heard: Seq<Heard>, answers: Seq<Option<RenderedView>>| #[trigger]
        shown_as(items, ctx, terminal_width, heard, answers, runs.0, report.0);
    let (g, b) = choose|heard: Seq<Heard>, answers: Seq<Option<RenderedView>>| #[trigger]
        shown_as(items, ctx, terminal_width, heard, answers, runs.1, report.1);
    assert forall|i: int| 0 <= i < items.len() implies (#[trigger] items[i] is Segment
        ==> same_heard(h[i], g[i])) by {
        if items[i] is Segment {
            let segment = items[i]->segment;
            assert(answers_once(segment, ctx, rc));
            assert(may_say_all(segment, ctx, rc, h[i]));
            assert(may_say_all(segment, ctx, rc, g[i]));
        }
    }
    lemma_placed_once(items, h, g);
    let line = collected(items, h).items;
    assert(collected(items, h) == collected(items, g));
    lemma_placed_answer_once(items, ctx, rc, h);
    let all = placed(items, h).items;
    assert(entries_answer_once(line, ctx, rc)) by {
        assert forall|i: int| 0 <= i < line.len() implies (
        #[trigger] line[i] matches ItemView::Segment(e) ==> answers_once(e.segment, ctx, rc)) by {
            assert(line[i] is Segment ==> line[i] == all[i]);
        }
    }
    lemma_answers_once(line, terminal_width, ctx, rc, a, b, a.len() as int);
    lemma_answers_once(line, terminal_width, ctx, rc, b, a, b.len() as int);
    assert(a.take(a.len() as int) =~= a);
    assert(b.take(b.len() as int) =~= b);
}

/// Where every segment has one answer to each question, `render` gives the
/// text of the runs that `render_to_runs` gives, and reports the same.
pub proof fn rendered_text_is_that_of_the_runs(
    items: Seq<LineItem>,
    ctx: DataContext,
    terminal_width: u16,
    text: Seq<char>,
    runs: Seq<RunView>,
    report: (ReportView, ReportView),
)
    requires
        all_answer_once(items, ctx, (RenderContext { terminal_width })),
        may_show_text(items, ctx, terminal_width, text, report.0),
        may_show(items, ctx, terminal_width, runs, report.1),
    ensures
        text == runs_text(runs),
        report.0 == report.1,
{
    let own = choose|own: Seq<RunView>|
        {
            &&& #[trigger] may_show(items, ctx, terminal_width, own, report.0)
            &&& text == runs_text(own)
        };
    line_shows_one_way(items, ctx, terminal_width, (own, runs), report);
}

proof fn lemma_ansi_once(
    runs: Seq<RunView>,
    a: Seq<Seq<char>>,
    b: Seq<Seq<char>>,
    hyperlinks: bool,
)
    requires
        forall|i: int| 0 <= i < runs.len() ==> #[trigger] a[i] == b[i],
    ensures
        runs_ansi(runs, a, hyperlinks) == runs_ansi(runs, b, hyperlinks),
    decreases runs.len(),
{
    if runs.len() > 0 {
        lemma_ansi_once(runs.drop_last(), a, b, hyperlinks);
        assert(a[runs.len() - 1] == b[runs.len() - 1]);
    }
}

/// Where the opener has one answer for a style, runs that look the same reach
/// the terminal as the same text.
pub proof fn runs_are_emitted_one_way<F: Fn(&Style) -> String>(
    sgr_open: F,
    runs: (Seq<StyledRun>, Seq<StyledRun>),
    hyperlinks: bool,
    text: (Seq<char>, Seq<char>),
)
    requires
        opens_once(sgr_open),
        run_views(runs.0) == run_views(runs.1),
        may_emit(sgr_open, runs.0, hyperlinks, text.0),
        may_emit(sgr_open, runs.1, hyperlinks, text.1),
    ensures
        text.0 == text.1,
{
    let views = run_views(runs.0);
    let a = choose|opens: Seq<String>|
        {
            &&& #[trigger] may_open(sgr_open, runs.0, opens)
            &&& text.0 == runs_ansi(run_views(runs.0), texts(opens), hyperlinks)
        };
    let b = choose|opens: Seq<String>|
        {
            &&& #[trigger] may_open(sgr_open, runs.1, opens)
            &&& text.1 == runs_ansi(run_views(runs.1), texts(opens), hyperlinks)
        };
    assert(run_views(runs.0).len() == run_views(runs.1).len());
    assert forall|i: int| 0 <= i < views.len() implies #[trigger] texts(a)[i] == texts(b)[i] by {
        assert(run_views(runs.0)[i] == run_views(runs.1)[i]);
        assert(runs.0[i]@.style == runs.1[i]@.style);
        assert(call_ensures(sgr_open, (&runs.0[i].style,), a[i]));
        assert(call_ensures(sgr_open, (&runs.1[i].style,), b[i]));
    }
    lemma_ansi_once(views, texts(a), texts(b), hyperlinks);
}

/// Where every segment has one answer to each question and the opener one for
/// a style, `render_with_warn` gives character for character what
/// `runs_to_ansi` makes of the runs that `render_to_runs` gives, and reports
/// the same.
pub proof fn rendered_line_is_that_of_the_runs<F: Fn(&Style) -> String>(
    items: Seq<LineItem>,
    ctx: DataContext,
    terminal_width: u16,
    sgr_open: F,
    hyperlinks: bool,
    line: Seq<char>,
    runs: Seq<StyledRun>,
    emitted: Seq<char>,
    report: (ReportView, ReportView),
)
    requires
        all_answer_once(items, ctx, (RenderContext { terminal_width })),
        opens_once(sgr_open),
        may_show_ansi(items, ctx, terminal_width, sgr_open, hyperlinks, line, report.0),
        may_show(items, ctx, terminal_width, run_views(runs), report.1),
        may_emit(sgr_open, runs, hyperlinks, emitted),
    ensures
        line == emitted,
        report.0 == report.1,
{
    let own = choose|own: Seq<StyledRun>|
        {
            &&& #[trigger] may_emit(sgr_open, own, hyperlinks, line)
            &&& may_show(items, ctx, terminal_width, run_views(own), report.0)
        };
    line_shows_one_way(
        items,
        ctx,
        terminal_width,
        (run_views(own), run_views(runs)),
        report,
    );
    runs_are_emitted_one_way(sgr_open, (own, runs), hyperlinks, (line, emitted));
}

/// Where every segment has one answer to each question and the opener one for
/// a style, a line reaches the terminal in one way.
pub proof fn line_comes_out_one_way<F: Fn(&Style) -> String>(
    items: Seq<LineItem>,
    ctx: DataContext,
    terminal_width: u16,
    sgr_open: F,
    hyperlinks: bool,
    line: (Seq<char>, Seq<char>),
    report: (ReportView, ReportView),
)
    requires
        all_answer_once(items, ctx, (RenderContext { terminal_width })),
        opens_once(sgr_open),
        may_show_ansi(items, ctx, terminal_width, sgr_open, hyperlinks, line.0, report.0),
        may_show_ansi(items, ctx, terminal_width, sgr_open, hyperlinks, line.1, report.1),
    ensures
        line.0 == line.1,
        report.0 == report.1,
{
    let own = choose|own: Seq<StyledRun>|
        {
            &&& #[trigger] may_emit(sgr_open, own, hyperlinks, line.1)
            &&& may_show(items, ctx, terminal_width, run_views(own), report.1)
        };
    rendered_line_is_that_of_the_runs(
        items,
        ctx,
        terminal_width,
        sgr_open,
        hyperlinks,
        line.0,
        own,
        line.1,
        report,
    );
}

// --- Failures -----------------------------------------------------------

/// The reports on the segments of `items` that failed, in order.
pub open spec fn failures(items: Seq<LineItem>, heard: Seq<Heard>) -> Seq<Seq<char>>
    decreases items.len(),
{
    if items.len() == 0 {
        seq![]
    } else {
        let before = failures(items.drop_last(), heard);
        match (items.last(), heard[items.len() - 1].outcome) {
            (LineItem::Segment { .. }, Err(words)) => before.push("segment error: "@ + words),
            _ => before,
        }
    }
}

proof fn lemma_placed_failures(items: Seq<LineItem>, heard: Seq<Heard>)
    ensures
        placed(items, heard).report.warnings == failures(items, heard),
    decreases items.len(),
{
    if items.len() > 0 {
        lemma_placed_failures(items.drop_last(), heard);
        let before = failures(items.drop_last(), heard);
        assert(placed(items, heard).report.warnings =~= failures(items, heard));
    }
}

proof fn lemma_fit_warns_nothing(
    items: Seq<ItemView>,
    terminal_width: u16,
    answers: Seq<Option<RenderedView>>,
)
    ensures
        fit_report(items, terminal_width, answers).warnings == Seq::<Seq<char>>::empty(),
    decreases answers.len(),
{
    if answers.len() > 0 {
        lemma_fit_warns_nothing(items, terminal_width, answers.drop_last());
        assert(fit_report(items, terminal_width, answers).warnings =~= seq![]);
    }
}

/// Every segment that fails is warned of once, in the order of the line, and
/// nothing else is.
pub proof fn every_failure_is_reported_once(
    items: Seq<LineItem>,
    ctx: DataContext,
    terminal_width: u16,
    heard: Seq<Heard>,
    answers: Seq<Option<RenderedView>>,
    runs: Seq<RunView>,
    report: ReportView,
)
    requires
        shown_as(items, ctx, terminal_width, heard, answers, runs, report),
    ensures
        report.warnings == failures(items, heard),
{
    lemma_placed_failures(items, heard);
    lemma_fit_warns_nothing(collected(items, heard).items, terminal_width, answers);
    assert(report.warnings =~= failures(items, heard));
}

} // verus!
