//! What holds of a line from what its segments say to what the terminal gets.

use vstd::prelude::*;

use crate::cells::{cell_width, columns, joined};
use crate::data_context::DataContext;
use crate::layout::decision::DecisionView;
use crate::layout::laws::{lemma_placed_step, shown, well_placed};
use crate::layout::lemma_first_to_go;
use crate::layout::model::{
    collected, dropped, first_to_go, fitted, heard_form, line_runs, may_fit, next_entry, placed,
    preference_at, replacement, runs_ansi, segment_placed, settled, stepped, total,
    used_cells, without_trailing, CollectedView, EntryView, Heard, ItemView,
};
use crate::segments::git_branch::all_columns;
use crate::segments::rendered::RenderedView;
use crate::segments::segment::{LineItem, RenderContext, SegmentBox};
use crate::segments::separator::{PowerlineWidth, SeparatorView};
use crate::text::printable;
use crate::theme::{Role, RunView};

verus! {

// --- Widths -------------------------------------------------------------

/// A line is as wide as its slots together: a segment as its render says, a
/// separator as its text, a chevron as its own cells and a blank on either
/// side.
pub proof fn width_is_the_sum_of_the_slots(a: Seq<ItemView>, b: Seq<ItemView>, item: ItemView)
    ensures
        total(a + b) == total(a) + total(b),
        total(seq![item]) == match item {
            ItemView::Segment(e) => e.rendered.width as int,
            ItemView::Separator(SeparatorView::Space) => 1,
            ItemView::Separator(SeparatorView::Theme) => 1,
            ItemView::Separator(SeparatorView::Empty) => 0,
            ItemView::Separator(SeparatorView::Literal(text)) => cell_width(text) as int,
            ItemView::Separator(SeparatorView::Powerline { width }) => if width
                == PowerlineWidth::Two {
                4
            } else {
                3
            },
        },
        total(Seq::empty()) == 0,
    decreases b.len(),
{
    reveal_with_fuel(total, 2);
    assert(seq![item].drop_last() =~= seq![]);
    if b.len() == 0 {
        assert(a + b =~= a);
    } else {
        width_is_the_sum_of_the_slots(a, b.drop_last(), item);
        assert((a + b).drop_last() =~= a + b.drop_last());
        assert((a + b).last() == b.last());
    }
}

/// The cells of clusters are those of each, counted by itself up to what a
/// width can hold; joined they stand one behind the other.
pub proof fn clusters_add_up(a: Seq<Seq<char>>, b: Seq<Seq<char>>, c: Seq<char>)
    ensures
        used_cells(a + b) == used_cells(a) + used_cells(b),
        columns(c) <= 0xffff ==> used_cells(seq![c]) == columns(c),
        columns(c) > 0xffff ==> used_cells(seq![c]) == 0xffff,
        all_columns(a + b) == all_columns(a) + all_columns(b),
        all_columns(seq![c]) == columns(c),
        joined(a + b) == joined(a) + joined(b),
        joined(seq![c]) == c,
    decreases b.len(),
{
    reveal_with_fuel(used_cells, 2);
    reveal_with_fuel(all_columns, 2);
    reveal_with_fuel(joined, 2);
    assert(seq![c].drop_last() =~= seq![]);
    assert(joined(seq![c]) =~= c);
    if b.len() == 0 {
        assert(a + b =~= a);
        assert(joined(a + b) =~= joined(a) + joined(b));
    } else {
        clusters_add_up(a, b.drop_last(), c);
        assert((a + b).drop_last() =~= a + b.drop_last());
        assert((a + b).last() == b.last());
        assert(joined(a + b) =~= joined(a) + joined(b));
    }
}

// --- Runs ---------------------------------------------------------------

/// A line is drawn slot by slot, from left to right: a segment in its spans,
/// or whole in its own look; a separator as its text, muted where it is a
/// chevron and plain else, and not at all where it is empty.
pub proof fn line_is_drawn_slot_by_slot(a: Seq<ItemView>, b: Seq<ItemView>, item: ItemView)
    ensures
        line_runs(a + b) == line_runs(a) + line_runs(b),
        match item {
            ItemView::Segment(e) => match e.rendered.spans {
                Some(spans) => line_runs(seq![item]) == spans,
                None => {
                    &&& line_runs(seq![item]).len() == 1
                    &&& line_runs(seq![item])[0].text == e.rendered.text
                    &&& line_runs(seq![item])[0].style == e.rendered.style
                },
            },
            ItemView::Separator(s) => {
                let runs = line_runs(seq![item]);
                &&& s is Empty ==> runs.len() == 0
                &&& s is Space || s is Theme ==> runs.len() == 1 && runs[0].text == seq![' ']
                &&& s is Powerline ==> runs.len() == 1 && runs[0].text == seq![' ', '\u{E0B0}', ' ']
                &&& s matches SeparatorView::Literal(text) ==> (if text.len() == 0 {
                    runs.len() == 0
                } else {
                    runs.len() == 1 && runs[0].text == text
                })
                &&& runs.len() == 1 ==> {
                    let look = runs[0].style;
                    &&& look.role == (if s is Powerline {
                        Some(Role::Muted)
                    } else {
                        None
                    })
                    &&& look.fg is None
                    &&& !look.bold && !look.italic && !look.underline && !look.dim
                    &&& look.hyperlink is None
                }
            },
        },
    decreases b.len(),
{
    reveal_with_fuel(line_runs, 2);
    reveal_strlit(" ");
    reveal_strlit("");
    reveal_strlit(" \u{E0B0} ");
    assert(" "@ =~= seq![' ']);
    assert(" \u{E0B0} "@ =~= seq![' ', '\u{E0B0}', ' ']);
    assert(seq![item].drop_last() =~= seq![]);
    assert(line_runs(seq![item]) =~= crate::layout::model::item_runs(item));
    if b.len() == 0 {
        assert(a + b =~= a);
        assert(line_runs(a + b) =~= line_runs(a) + line_runs(b));
    } else {
        line_is_drawn_slot_by_slot(a, b.drop_last(), item);
        assert((a + b).drop_last() =~= a + b.drop_last());
        assert((a + b).last() == b.last());
        assert(line_runs(a + b) =~= line_runs(a) + line_runs(b));
    }
}

/// What the terminal gets of one run: its text, between what opens its look
/// and a reset where something does, and all that between the start and the
/// end of a link where it has one and the terminal knows links.
pub proof fn run_closes_what_it_opens(run: RunView, open: Seq<char>, links: bool)
    ensures
        ({
            let out = runs_ansi(seq![run], seq![open], links);
            let esc = '\u{1b}';
            let styled = if open.len() > 0 {
                open + run.text + seq![esc, '[', '0', 'm']
            } else {
                run.text
            };
            match run.style.hyperlink {
                Some(url) => if links {
                    out == seq![esc, ']', '8', ';', ';'] + printable(url) + seq![esc, '\\'] + styled
                        + seq![esc, ']', '8', ';', ';', esc, '\\']
                } else {
                    out == styled
                },
                None => out == styled,
            }
        }),
{
    reveal_with_fuel(runs_ansi, 2);
    reveal_strlit("\x1b[0m");
    reveal_strlit("\x1b]8;;");
    reveal_strlit("\x1b\\");
    reveal_strlit("\x1b]8;;\x1b\\");
    let esc = '\u{1b}';
    assert("\x1b[0m"@ =~= seq![esc, '[', '0', 'm']);
    assert("\x1b]8;;"@ =~= seq![esc, ']', '8', ';', ';']);
    assert("\x1b\\"@ =~= seq![esc, '\\']);
    assert("\x1b]8;;\x1b\\"@ =~= seq![esc, ']', '8', ';', ';', esc, '\\']);
    assert(seq![run].drop_last() =~= seq![]);
    let out = runs_ansi(seq![run], seq![open], links);
    let one = crate::layout::model::run_ansi(run, open, links);
    assert(out =~= one);
    match run.style.hyperlink {
        Some(url) => {
            if links {
                let styled = crate::layout::model::styled_text(run, open);
                assert(one =~= seq![esc, ']', '8', ';', ';'] + printable(url) + seq![esc, '\\']
                    + styled + seq![esc, ']', '8', ';', ';', esc, '\\']);
            }
        },
        None => {},
    }
}

// --- What segments say --------------------------------------------------

/// What is reported of a segment: an event where its render breaks a bound, the
/// reason where it hides for one, a warning where it fails; and nothing else.
pub proof fn segment_is_reported_by_what_it_says(
    before: CollectedView,
    id: Seq<char>,
    segment: SegmentBox,
    fuses_left: bool,
    heard: Heard,
)
    ensures
        ({
            let was = before.report;
            let now = segment_placed(before, id, segment, fuses_left, heard).report;
            &&& now.notices == was.notices
            &&& match heard.outcome {
                Ok(Some(r)) => {
                    &&& now.warnings == was.warnings
                    &&& now.traces == was.traces
                    &&& match heard.defaults.width {
                        Some(b) => {
                            &&& b.lo() <= r.width <= b.hi() ==> now.decisions == was.decisions
                            &&& r.width < b.lo() ==> now.decisions == was.decisions.push(
                                DecisionView::WidthBoundUnderMinDrop {
                                    id,
                                    rendered_width: r.width,
                                    min: b.lo(),
                                },
                            )
                            &&& r.width >= b.lo() && r.width > b.hi() ==> now.decisions
                                == was.decisions.push(
                                DecisionView::WidthBoundOverMaxTruncate {
                                    id,
                                    rendered_width: r.width,
                                    max: b.hi(),
                                },
                            )
                        },
                        None => now.decisions == was.decisions,
                    }
                },
                Ok(None) => {
                    &&& now.warnings == was.warnings
                    &&& now.decisions == was.decisions
                    &&& heard.reason is None ==> now.traces == was.traces
                    &&& heard.reason matches Some(why) ==> now.traces == was.traces.push(why)
                },
                Err(words) => {
                    &&& now.traces == was.traces
                    &&& now.decisions == was.decisions
                    &&& now.warnings.len() == was.warnings.len() + 1
                    &&& now.warnings.drop_last() == was.warnings
                    &&& words.is_suffix_of(now.warnings.last())
                    &&& now.warnings.last().len() > words.len()
                },
            }
        }),
{
    let was = before.report;
    let now = segment_placed(before, id, segment, fuses_left, heard).report;
    reveal_strlit("segment error: ");
    assert(was.notices + Seq::<Seq<char>>::empty() =~= was.notices);
    assert(was.warnings + Seq::<Seq<char>>::empty() =~= was.warnings);
    assert(was.traces + Seq::<Seq<char>>::empty() =~= was.traces);
    assert(was.decisions + Seq::<DecisionView>::empty() =~= was.decisions);
    match heard.outcome {
        Ok(Some(r)) => {
            match heard.defaults.width {
                Some(b) => {
                    assert(r.width < b.lo() ==> now.decisions =~= was.decisions.push(
                        DecisionView::WidthBoundUnderMinDrop {
                            id,
                            rendered_width: r.width,
                            min: b.lo(),
                        },
                    ));
                },
                None => {},
            }
        },
        Ok(None) => {
            match heard.reason {
                Some(why) => {
                    assert(now.traces =~= was.traces.push(why));
                },
                None => {},
            }
        },
        Err(words) => {
            assert(now.warnings =~= was.warnings.push("segment error: "@ + words));
            assert(now.warnings.drop_last() =~= was.warnings);
            let line = now.warnings.last();
            assert(line.skip(line.len() - words.len()) =~= words);
        },
    }
}

// --- Which slots there are ----------------------------------------------

proof fn lemma_slots_stay(items: Seq<LineItem>, heard: Seq<Heard>, n: int, m: int)
    requires
        0 <= n <= m <= items.len(),
        placed(items.take(n), heard).items.len() > 0,
        placed(items.take(n), heard).items.last() is Segment,
    ensures
        placed(items.take(n), heard).items.is_prefix_of(placed(items.take(m), heard).items),
    decreases m,
{
    let first = placed(items.take(n), heard).items;
    if n < m {
        lemma_slots_stay(items, heard, n, m - 1);
        assert(items.take(m).drop_last() =~= items.take(m - 1));
        assert(items.take(m).last() == items[m - 1]);
        let before = placed(items.take(m - 1), heard).items;
        let after = placed(items.take(m), heard).items;
        assert(first =~= before.take(first.len() as int));
        assert(before[first.len() - 1] == first.last());
        if after.len() < before.len() {
            assert(before.last() is Separator);
            assert(after =~= before.drop_last());
            assert(before.len() > first.len());
        } else {
            assert(after.take(before.len() as int) =~= before);
        }
        assert(after.take(first.len() as int) =~= first);
    } else {
        assert(first.take(first.len() as int) =~= first);
    }
}

proof fn lemma_slot_of(items: Seq<LineItem>, heard: Seq<Heard>, j: int)
    requires
        0 <= j < items.len(),
        items[j] is Segment,
        shown(heard[j]) is Some,
    ensures
        ({
            let before = placed(items.take(j), heard).items;
            let after = placed(items.take(j + 1), heard).items;
            &&& after.len() == before.len() + 1
            &&& after.drop_last() == before
            &&& after.last() is Segment
        }),
{
    assert(items.take(j + 1).drop_last() =~= items.take(j));
    assert(items.take(j + 1).last() == items[j]);
    let before = placed(items.take(j), heard).items;
    let after = placed(items.take(j + 1), heard).items;
    assert(after.drop_last() =~= before);
}

/// Where the segment at `j` stands in the collected line: behind all that
/// shows of the slots to its left.
pub open spec fn slot_in_line(items: Seq<LineItem>, heard: Seq<Heard>, j: int) -> int {
    placed(items.take(j), heard).items.len() as int
}

proof fn lemma_in_line(items: Seq<LineItem>, heard: Seq<Heard>, j: int)
    requires
        0 <= j < items.len(),
        items[j] is Segment,
        shown(heard[j]) is Some,
    ensures
        ({
            let p = slot_in_line(items, heard, j);
            let all = placed(items, heard).items;
            let line = collected(items, heard).items;
            let after = placed(items.take(j + 1), heard).items;
            &&& 0 <= p < line.len() <= all.len()
            &&& after.len() == p + 1
            &&& all.take(p + 1) == after
            &&& after.is_prefix_of(all)
            &&& line[p] == after[p]
        }),
{
    lemma_slot_of(items, heard, j);
    lemma_slots_stay(items, heard, j + 1, items.len() as int);
    assert(items.take(items.len() as int) =~= items);
    let p = slot_in_line(items, heard, j);
    let all = placed(items, heard).items;
    let after = placed(items.take(j + 1), heard).items;
    assert(all.take(p + 1) =~= after);
    assert(all[p] == after[p]);
    assert(all[p] is Segment);
}

/// Every segment that shows stands in the line, under its id and with its
/// intent, with the text and the width of its render within its bounds.
pub proof fn what_shows_stands_in_the_line(items: Seq<LineItem>, heard: Seq<Heard>, j: int) -> (p:
    int)
    requires
        0 <= j < items.len(),
        items[j] is Segment,
        shown(heard[j]) is Some,
    ensures
        0 <= p < collected(items, heard).items.len(),
        collected(items, heard).items[p] matches ItemView::Segment(e) && ({
            let r = shown(heard[j])->0;
            &&& items[j] matches LineItem::Segment { id, segment, .. }
            &&& e.id == id@
            &&& e.segment == segment
            &&& e.defaults == heard[j].defaults
            &&& e.rendered.text == r.text
            &&& e.rendered.width == r.width
            &&& e.rendered.right_separator == r.right_separator
            &&& heard[j].pinned ==> e.rendered == r
        }),
{
    lemma_in_line(items, heard, j);
    assert(items.take(j + 1).drop_last() =~= items.take(j));
    slot_in_line(items, heard, j)
}

/// Segments stand in the line in the order of their slots.
pub proof fn what_shows_keeps_its_order(items: Seq<LineItem>, heard: Seq<Heard>, i: int, j: int)
    requires
        0 <= i < j < items.len(),
        items[i] is Segment,
        items[j] is Segment,
        shown(heard[i]) is Some,
        shown(heard[j]) is Some,
    ensures
        slot_in_line(items, heard, i) < slot_in_line(items, heard, j),
{
    lemma_slot_of(items, heard, i);
    lemma_slots_stay(items, heard, i + 1, j);
}

proof fn lemma_stems(items: Seq<LineItem>, heard: Seq<Heard>, n: int, p: int) -> (j: int)
    requires
        0 <= n <= items.len(),
        0 <= p < placed(items.take(n), heard).items.len(),
        placed(items.take(n), heard).items[p] is Segment,
    ensures
        0 <= j < n,
        items[j] is Segment,
        shown(heard[j]) is Some,
        p == slot_in_line(items, heard, j),
    decreases n,
{
    if n == 0 {
        assert(items.take(0) =~= seq![]);
        0
    } else {
        assert(items.take(n).drop_last() =~= items.take(n - 1));
        assert(items.take(n).last() == items[n - 1]);
        let before = placed(items.take(n - 1), heard).items;
        let after = placed(items.take(n), heard).items;
        if p < before.len() {
            assert(after[p] == before[p]);
            lemma_stems(items, heard, n - 1, p)
        } else {
            n - 1
        }
    }
}

/// Nothing else stands in the line: every segment of it is one that shows.
pub proof fn only_what_shows_stands_in_the_line(
    items: Seq<LineItem>,
    heard: Seq<Heard>,
    p: int,
) -> (j: int)
    requires
        0 <= p < collected(items, heard).items.len(),
        collected(items, heard).items[p] is Segment,
    ensures
        0 <= j < items.len(),
        items[j] is Segment,
        shown(heard[j]) is Some,
        p == slot_in_line(items, heard, j),
{
    assert(items.take(items.len() as int) =~= items);
    let all = placed(items, heard).items;
    assert(all[p] is Segment);
    lemma_stems(items, heard, items.len() as int, p)
}

/// What stands in front of a segment that shows: nothing where nothing to its
/// left does; else a separator where one is configured there, and no separator
/// where none is. It is the one that the segment in front prefers, or else the
/// one that is configured.
pub proof fn separators_stand_where_configured(items: Seq<LineItem>, heard: Seq<Heard>, j: int)
    requires
        0 < j < items.len(),
        items[j] is Segment,
        shown(heard[j]) is Some,
    ensures
        ({
            let line = collected(items, heard).items;
            let p = slot_in_line(items, heard, j);
            &&& items[j - 1] is Segment && p > 0 ==> line[p - 1] is Segment
            &&& items[j - 1] is Separator && p > 0 ==> {
                &&& p > 1
                &&& line[p - 2] is Segment
                &&& line[p - 1] is Separator
                &&& line[p - 2]->Segment_0.rendered.right_separator matches Some(own) ==> line[p
                    - 1]->Separator_0 == own
                &&& line[p - 2]->Segment_0.rendered.right_separator is None && (j == 1 || items[j
                    - 2] is Segment) ==> line[p - 1]->Separator_0 == items[j - 1]->Separator_0@
            }
        }),
{
    lemma_in_line(items, heard, j);
    let p = slot_in_line(items, heard, j);
    let all = placed(items, heard).items;
    let before = placed(items.take(j), heard).items;
    let after = placed(items.take(j + 1), heard).items;
    lemma_slot_of(items, heard, j);
    assert(after.take(p) =~= before);
    assert(items.take(j).drop_last() =~= items.take(j - 1));
    assert(items.take(j).last() == items[j - 1]);
    let earlier = placed(items.take(j - 1), heard).items;
    lemma_kinds(items, heard, j - 1);
    lemma_kinds(items, heard, j);
    if p > 0 {
        assert(all[p - 1] == before[p - 1]);
        if p > 1 {
            assert(all[p - 2] == before[p - 2]);
        }
    }
    if j > 1 && items[j - 2] is Segment {
        lemma_no_separator_behind(items, heard, j - 1);
    }
    if j == 1 {
        assert(items.take(0) =~= seq![]);
    }
}

/// A line starts with a segment, and no two separators meet in it.
spec fn kinds_alternate(items: Seq<ItemView>) -> bool {
    &&& items.len() > 0 ==> items[0] is Segment
    &&& forall|i: int|
        0 <= i < items.len() && #[trigger] items[i] is Separator ==> i > 0 && items[i
            - 1] is Segment
}

proof fn lemma_kinds(items: Seq<LineItem>, heard: Seq<Heard>, n: int)
    requires
        0 <= n <= items.len(),
    ensures
        kinds_alternate(placed(items.take(n), heard).items),
    decreases n,
{
    if n > 0 {
        lemma_kinds(items, heard, n - 1);
        assert(items.take(n).drop_last() =~= items.take(n - 1));
        let before = placed(items.take(n - 1), heard).items;
        let after = placed(items.take(n), heard).items;
        assert forall|i: int|
            0 <= i < after.len() && #[trigger] after[i] is Separator implies i > 0 && after[i
            - 1] is Segment by {
            if i < before.len() {
                assert(after[i] == before[i]);
                assert(before[i] is Separator);
                assert(after[i - 1] == before[i - 1]);
            } else {
                assert(after[i - 1] == before[i - 1]);
            }
        }
        if before.len() > 0 && after.len() > 0 {
            assert(after[0] == before[0]);
        }
    } else {
        assert(items.take(0) =~= seq![]);
    }
}

proof fn lemma_no_separator_behind(items: Seq<LineItem>, heard: Seq<Heard>, n: int)
    requires
        0 < n <= items.len(),
        items[n - 1] is Segment,
    ensures
        placed(items.take(n), heard).items.len() > 0 ==> placed(
            items.take(n),
            heard,
        ).items.last() is Segment,
{
    assert(items.take(n).drop_last() =~= items.take(n - 1));
    assert(items.take(n).last() == items[n - 1]);
    lemma_kinds(items, heard, n - 1);
    let before = placed(items.take(n - 1), heard).items;
    if before.len() > 0 && before.last() is Separator {
        assert(before[before.len() - 1] is Separator);
        assert(before[before.len() - 2] is Segment);
    }
}

// --- Preferred separators -----------------------------------------------

/// Every separator behind a segment that prefers one is the one it prefers.
pub open spec fn preferences_hold(items: Seq<ItemView>) -> bool {
    forall|i: int|
        0 <= i < items.len() - 1 ==> {
            (#[trigger] items[i] matches ItemView::Segment(e) && e.rendered.right_separator is Some
                && items[i + 1] is Separator) ==> items[i + 1]->Separator_0
                == items[i]->Segment_0.rendered.right_separator->0
        }
}

/// In a collected line every preference for a separator holds.
pub proof fn collected_line_keeps_preferences(items: Seq<LineItem>, heard: Seq<Heard>)
    ensures
        preferences_hold(collected(items, heard).items),
{
    let all = without_trailing(placed(items, heard).items);
    let line = collected(items, heard).items;
    assert forall|i: int| 0 <= i < line.len() - 1 implies {
        (#[trigger] line[i] matches ItemView::Segment(e) && e.rendered.right_separator is Some
            && line[i + 1] is Separator) ==> line[i + 1]->Separator_0
            == line[i]->Segment_0.rendered.right_separator->0
    } by {
        assert(line[i] is Segment ==> line[i] == all[i]);
        assert(line[i + 1] is Separator ==> all[i + 1] is Separator);
    }
}

proof fn lemma_replaced_keeps_preferences(
    items: Seq<ItemView>,
    k: int,
    e: EntryView,
    rendered: RenderedView,
)
    requires
        preferences_hold(items),
        0 <= k < items.len(),
        items[k] == ItemView::Segment(e),
    ensures
        preferences_hold(
            preference_at(items.update(k, ItemView::Segment(EntryView { rendered, ..e })), k),
        ),
{
    let out = preference_at(items.update(k, ItemView::Segment(EntryView { rendered, ..e })), k);
    assert forall|i: int| 0 <= i < out.len() - 1 implies {
        (#[trigger] out[i] matches ItemView::Segment(f) && f.rendered.right_separator is Some
            && out[i + 1] is Separator) ==> out[i + 1]->Separator_0
            == out[i]->Segment_0.rendered.right_separator->0
    } by {
        if i != k && out[i] is Segment {
            assert(out[i] == items[i]);
            assert(out[i + 1] is Separator ==> out[i + 1] == items[i + 1]);
        }
    }
}

/// Taking out the slots from `from` up to `to` breaks no preference, where no
/// separator stands behind them.
proof fn lemma_gap_keeps_preferences(items: Seq<ItemView>, from: int, to: int)
    requires
        preferences_hold(items),
        0 <= from <= to <= items.len(),
        to < items.len() ==> items[to] is Segment,
    ensures
        preferences_hold(items.take(from) + items.skip(to)),
{
    let out = items.take(from) + items.skip(to);
    assert forall|i: int| 0 <= i < out.len() - 1 implies {
        (#[trigger] out[i] matches ItemView::Segment(f) && f.rendered.right_separator is Some
            && out[i + 1] is Separator) ==> out[i + 1]->Separator_0
            == out[i]->Segment_0.rendered.right_separator->0
    } by {
        if i + 1 < from {
            assert(out[i] == items[i]);
            assert(out[i + 1] == items[i + 1]);
        } else if i >= from {
            assert(out[i] == items[i - from + to]);
            assert(out[i + 1] == items[i + 1 - from + to]);
        } else {
            assert(out[i + 1] == items[to]);
        }
    }
}

proof fn lemma_step_keeps_preferences(
    items: Seq<ItemView>,
    budget: int,
    compact: Option<RenderedView>,
)
    requires
        !settled(items, budget),
        preferences_hold(items),
        well_placed(items),
    ensures
        preferences_hold(stepped(items, budget, compact)),
{
    lemma_first_to_go(items);
    let k = first_to_go(items)->0;
    let e = next_entry(items);
    match replacement(e, total(items) - budget, compact) {
        Some(rendered) => {
            lemma_replaced_keeps_preferences(items, k, e, rendered);
        },
        None => {
            if k + 1 < items.len() && items[k + 1] is Separator {
                assert(dropped(items, k) =~= items.take(k) + items.skip(k + 2));
                lemma_gap_keeps_preferences(items, k, k + 2);
            } else if k > 0 && items[k - 1] is Separator {
                assert(dropped(items, k) =~= items.take(k - 1) + items.skip(k + 1));
                lemma_gap_keeps_preferences(items, k - 1, k + 1);
            } else {
                assert(dropped(items, k) =~= items.take(k) + items.skip(k + 1));
                lemma_gap_keeps_preferences(items, k, k + 1);
            }
        },
    }
}

/// The layout keeps every preference, also that of a segment in its compact
/// form.
pub proof fn fitted_line_keeps_preferences(
    items: Seq<ItemView>,
    terminal_width: u16,
    ctx: DataContext,
    rc: RenderContext,
    answers: Seq<Option<RenderedView>>,
)
    requires
        may_fit(items, terminal_width, ctx, rc, answers),
        preferences_hold(items),
        well_placed(items),
    ensures
        preferences_hold(fitted(items, terminal_width as int, answers)),
{
    lemma_preferences_prefix(items, terminal_width, ctx, rc, answers, answers.len() as int);
    assert(answers.take(answers.len() as int) =~= answers);
}

proof fn lemma_preferences_prefix(
    items: Seq<ItemView>,
    terminal_width: u16,
    ctx: DataContext,
    rc: RenderContext,
    answers: Seq<Option<RenderedView>>,
    n: int,
)
    requires
        may_fit(items, terminal_width, ctx, rc, answers),
        preferences_hold(items),
        well_placed(items),
        0 <= n <= answers.len(),
    ensures
        preferences_hold(fitted(items, terminal_width as int, answers.take(n))),
        well_placed(fitted(items, terminal_width as int, answers.take(n))),
    decreases n,
{
    let budget = terminal_width as int;
    if n > 0 {
        lemma_preferences_prefix(items, terminal_width, ctx, rc, answers, n - 1);
        assert(answers.take(n).drop_last() =~= answers.take(n - 1));
        let before = fitted(items, budget, answers.take(n - 1));
        let compact = heard_form(before, budget, answers[n - 1]);
        lemma_step_keeps_preferences(before, budget, compact);
        lemma_placed_step(before, budget, compact);
    }
}

} // verus!
