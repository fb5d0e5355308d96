//! What holds of a line and the entries that it is built from.

use vstd::prelude::*;

use crate::config::{LineEntry, LineEntryItem};
use crate::segments::builder::model::{
    empty_line, entry_added, line_built, Found, LineState, SlotView,
};
use crate::segments::separator::SeparatorView;
use crate::text_laws::{lemma_mentions, mentions};

verus! {

/// The id under which `entry` asks for a segment; `None` for a separator and
/// for an entry that names nothing.
pub open spec fn asks_for(entry: LineEntry) -> Option<Seq<char>> {
    let name = match entry {
        LineEntry::Id(id) => Some(id@),
        LineEntry::Item(item) => match item.kind {
            Some(kind) => Some(kind@),
            None => None,
        },
    };
    match name {
        Some(id) => if id == "separator"@ {
            None
        } else {
            Some(id)
        },
        None => None,
    }
}

/// Is `entry` a separator?
pub open spec fn is_separator(entry: LineEntry) -> bool {
    match entry {
        LineEntry::Id(id) => id@ == "separator"@,
        LineEntry::Item(item) => item.kind is Some && item.kind->0@ == "separator"@,
    }
}

/// The separator that the entry asks for: its own character, or the line's.
pub open spec fn separator_of(entry: LineEntry, layout: SeparatorView) -> SeparatorView {
    match entry {
        LineEntry::Item(LineEntryItem { character: Some(c), .. }) => SeparatorView::Literal(c@),
        _ => layout,
    }
}

/// Does the segment of `entry` meet the next one without a separator?
pub open spec fn meets_the_next(entry: LineEntry) -> bool {
    entry matches LineEntry::Item(item) && item.merge == Some(true)
}

/// Does the segment of `entry` share its color with the next one? It does
/// where it says so, and where it meets it without saying otherwise.
pub open spec fn shares_with_the_next(entry: LineEntry) -> bool {
    entry matches LineEntry::Item(item) && (item.group == Some(true) || (item.group is None
        && item.merge == Some(true)))
}

/// Does entry `i` become a segment? It does where it is the first to ask for
/// its id, and there is a segment of that id.
pub open spec fn becomes_segment(entries: Seq<LineEntry>, found: Seq<Found>, i: int) -> bool {
    &&& 0 <= i < entries.len()
    &&& asks_for(entries[i]) is Some
    &&& found[i].segment is Some
    &&& forall|k: int| 0 <= k < i ==> asks_for(#[trigger] entries[k]) != asks_for(entries[i])
}

/// Is `i` the last of the first `n` entries to become a segment?
pub open spec fn last_segment(entries: Seq<LineEntry>, found: Seq<Found>, n: int, i: int) -> bool {
    &&& i < n
    &&& becomes_segment(entries, found, i)
    &&& forall|k: int| i < k < n ==> !#[trigger] becomes_segment(entries, found, k)
}

/// Is `s` the first separator entry between `i` and `n`?
pub open spec fn first_separator(entries: Seq<LineEntry>, n: int, i: int, s: int) -> bool {
    &&& i < s < n
    &&& is_separator(entries[s])
    &&& forall|k: int| i < k < s ==> !is_separator(#[trigger] entries[k])
}

/// The slot of the segment that entry `i` becomes.
pub open spec fn is_slot_of(
    slot: SlotView,
    entries: Seq<LineEntry>,
    found: Seq<Found>,
    i: int,
) -> bool {
    slot matches SlotView::Segment { id, segment, .. } && Some(id) == asks_for(entries[i])
        && Some(segment) == found[i].segment
}

/// What the first `n` entries leave of a line.
spec fn left_behind(
    entries: Seq<LineEntry>,
    found: Seq<Found>,
    layout: SeparatorView,
    n: int,
    state: LineState,
) -> bool {
    &&& forall|id: Seq<char>|
        #[trigger] state.seen.contains(id) <==> exists|k: int|
            0 <= k < n && asks_for(#[trigger] entries[k]) == Some(id)
    &&& (forall|k: int| 0 <= k < n ==> !#[trigger] becomes_segment(entries, found, k)) ==> {
        &&& state.items.len() == 0
        &&& !state.merge
        &&& !state.group
    }
    &&& forall|i: int| #[trigger]
        last_segment(entries, found, n, i) ==> {
            let items = state.items;
            &&& state.merge == meets_the_next(entries[i])
            &&& state.group == shares_with_the_next(entries[i])
            &&& items.len() > 0
            &&& (state.merge || forall|k: int|
                i < k < n ==> !is_separator(#[trigger] entries[k])) ==> is_slot_of(
                items.last(),
                entries,
                found,
                i,
            )
            &&& forall|s: int|
                !state.merge && #[trigger] first_separator(entries, n, i, s) ==> {
                    &&& items.len() > 1
                    &&& items.last() == SlotView::Separator(separator_of(entries[s], layout))
                    &&& is_slot_of(items[items.len() - 2], entries, found, i)
                }
        }
}

proof fn lemma_kind(entry: LineEntry)
    ensures
        is_separator(entry) <==> entry.spec_kind() == Some("separator"@),
        asks_for(entry) is Some ==> entry.spec_kind() == asks_for(entry),
        asks_for(entry) is None && !is_separator(entry) ==> entry.spec_kind() is None,
        entry.merges() == meets_the_next(entry),
        entry.groups() == shares_with_the_next(entry),
        match entry.spec_character() {
            Some(c) => separator_of(entry, SeparatorView::Space) == SeparatorView::Literal(c),
            None => true,
        },
{
}

/// The first separator entry behind `i`, where one stands before `n`.
proof fn lemma_first_separator(entries: Seq<LineEntry>, n: int, i: int) -> (s: int)
    requires
        0 <= i,
        n <= entries.len(),
    ensures
        first_separator(entries, n, i, s) || forall|k: int|
            i < k < n ==> !is_separator(#[trigger] entries[k]),
    decreases n - i,
{
    if i + 1 >= n {
        i
    } else {
        let earlier = lemma_first_separator(entries, n - 1, i);
        if first_separator(entries, n - 1, i, earlier) {
            earlier
        } else {
            n - 1
        }
    }
}

/// The last entry before `n` that becomes a segment, where there is one.
proof fn lemma_last_segment(entries: Seq<LineEntry>, found: Seq<Found>, n: int) -> (i: int)
    requires
        0 <= n <= entries.len(),
    ensures
        last_segment(entries, found, n, i) || forall|k: int|
            0 <= k < n ==> !#[trigger] becomes_segment(entries, found, k),
    decreases n,
{
    if n == 0 {
        0
    } else if becomes_segment(entries, found, n - 1) {
        n - 1
    } else {
        lemma_last_segment(entries, found, n - 1)
    }
}

proof fn lemma_seen(
    entries: Seq<LineEntry>,
    n: int,
    before: Seq<Seq<char>>,
    after: Seq<Seq<char>>,
)
    requires
        0 < n <= entries.len(),
        forall|id: Seq<char>|
            #[trigger] before.contains(id) <==> exists|k: int|
                0 <= k < n - 1 && asks_for(#[trigger] entries[k]) == Some(id),
        match asks_for(entries[n - 1]) {
            Some(id) => if before.contains(id) {
                after == before
            } else {
                after == before.push(id)
            },
            None => after == before,
        },
    ensures
        forall|id: Seq<char>|
            #[trigger] after.contains(id) <==> exists|k: int|
                0 <= k < n && asks_for(#[trigger] entries[k]) == Some(id),
{
    assert forall|id: Seq<char>| #[trigger] after.contains(id) implies exists|k: int|
        0 <= k < n && asks_for(#[trigger] entries[k]) == Some(id) by {
        if before.contains(id) {
            let k = choose|k: int|
                0 <= k < n - 1 && asks_for(#[trigger] entries[k]) == Some(id);
            assert(asks_for(entries[k]) == Some(id));
        } else {
            assert(asks_for(entries[n - 1]) == Some(id));
        }
    }
    assert forall|id: Seq<char>|
        (exists|k: int|
            0 <= k < n && asks_for(#[trigger] entries[k]) == Some(id)) implies #[trigger] after.contains(
        id,
    ) by {
        let k = choose|k: int| 0 <= k < n && asks_for(#[trigger] entries[k]) == Some(id);
        if k < n - 1 {
            assert(before.contains(id));
            let p = before.index_of(id);
            assert(after[p] == id);
        } else if before.contains(id) {
            assert(after == before);
        } else {
            assert(after[before.len() as int] == id);
        }
    }
}

proof fn lemma_left_behind(
    start: LineState,
    entries: Seq<LineEntry>,
    found: Seq<Found>,
    layout: SeparatorView,
    n: int,
)
    requires
        0 <= n <= entries.len(),
        start == empty_line(start.left, start.used, start.warnings),
    ensures
        left_behind(
            entries,
            found,
            layout,
            n,
            line_built(start, entries.take(n), layout, found),
        ),
    decreases n,
{
    if n == 0 {
        assert(entries.take(0) =~= seq![]);
        let state = line_built(start, entries.take(n), layout, found);
        assert(state.seen =~= seq![]);
    } else {
        lemma_left_behind(start, entries, found, layout, n - 1);
        assert(entries.take(n).drop_last() =~= entries.take(n - 1));
        let before = line_built(start, entries.take(n - 1), layout, found);
        let after = line_built(start, entries.take(n), layout, found);
        let entry = entries[n - 1];
        assert(entries.take(n).last() == entry);
        assert(after == entry_added(before, entry, layout, found[n - 1]));
        lemma_kind(entry);
        lemma_seen(entries, n, before.seen, after.seen);
        lemma_step(entries, found, layout, n, before, after);
    }
}

proof fn lemma_step(
    entries: Seq<LineEntry>,
    found: Seq<Found>,
    layout: SeparatorView,
    n: int,
    before: LineState,
    after: LineState,
)
    requires
        0 < n <= entries.len(),
        left_behind(entries, found, layout, n - 1, before),
        after == entry_added(before, entries[n - 1], layout, found[n - 1]),
        forall|id: Seq<char>|
            #[trigger] after.seen.contains(id) <==> exists|k: int|
                0 <= k < n && asks_for(#[trigger] entries[k]) == Some(id),
    ensures
        left_behind(entries, found, layout, n, after),
{
    let entry = entries[n - 1];
    lemma_kind(entry);
    let earlier = lemma_last_segment(entries, found, n - 1);
    if becomes_segment(entries, found, n - 1) {
        assert(!before.seen.contains(asks_for(entry)->0)) by {
            if before.seen.contains(asks_for(entry)->0) {
                let k = choose|k: int|
                    0 <= k < n - 1 && asks_for(#[trigger] entries[k]) == asks_for(entry);
                assert(asks_for(entries[k]) != asks_for(entry));
            }
        }
        assert(last_segment(entries, found, n, n - 1));
        assert forall|i: int| #[trigger] last_segment(entries, found, n, i) implies i == n - 1 by {
            if i < n - 1 {
                assert(!becomes_segment(entries, found, n - 1));
            }
        }
        assert(is_slot_of(after.items.last(), entries, found, n - 1));
    } else {
        assert(asks_for(entry) is Some ==> before.seen.contains(asks_for(entry)->0)
            || found[n - 1].segment is None) by {
            if asks_for(entry) is Some && found[n - 1].segment is Some {
                let k = choose|k: int|
                    0 <= k < n - 1 && asks_for(#[trigger] entries[k]) == asks_for(entry);
                assert(asks_for(entries[k]) == asks_for(entry));
            }
        }
        assert(after.merge == before.merge);
        assert(after.group == before.group);
        if forall|k: int| 0 <= k < n ==> !#[trigger] becomes_segment(entries, found, k) {
            assert(before.items.len() == 0);
        }
        assert forall|i: int| #[trigger] last_segment(entries, found, n, i) implies ({
            let items = after.items;
            &&& after.merge == meets_the_next(entries[i])
            &&& after.group == shares_with_the_next(entries[i])
            &&& items.len() > 0
            &&& (after.merge || forall|k: int|
                i < k < n ==> !is_separator(#[trigger] entries[k])) ==> is_slot_of(
                items.last(),
                entries,
                found,
                i,
            )
            &&& forall|s: int|
                !after.merge && #[trigger] first_separator(entries, n, i, s) ==> {
                    &&& items.len() > 1
                    &&& items.last() == SlotView::Separator(separator_of(entries[s], layout))
                    &&& is_slot_of(items[items.len() - 2], entries, found, i)
                }
        }) by {
            assert(last_segment(entries, found, n - 1, i)) by {
                assert(i != n - 1);
                assert forall|k: int| i < k < n - 1 implies !#[trigger] becomes_segment(
                    entries,
                    found,
                    k,
                ) by {}
            }
            lemma_separators(entries, found, layout, n, before, after, i);
        }
    }
}

proof fn lemma_separators(
    entries: Seq<LineEntry>,
    found: Seq<Found>,
    layout: SeparatorView,
    n: int,
    before: LineState,
    after: LineState,
    i: int,
)
    requires
        0 < n <= entries.len(),
        left_behind(entries, found, layout, n - 1, before),
        after == entry_added(before, entries[n - 1], layout, found[n - 1]),
        last_segment(entries, found, n - 1, i),
        !becomes_segment(entries, found, n - 1),
        asks_for(entries[n - 1]) is Some ==> before.seen.contains(asks_for(entries[n - 1])->0)
            || found[n - 1].segment is None,
    ensures
        after.merge == meets_the_next(entries[i]),
        after.group == shares_with_the_next(entries[i]),
        after.items.len() > 0,
        (after.merge || forall|k: int|
            i < k < n ==> !is_separator(#[trigger] entries[k])) ==> is_slot_of(
            after.items.last(),
            entries,
            found,
            i,
        ),
        forall|s: int|
            !after.merge && #[trigger] first_separator(entries, n, i, s) ==> {
                &&& after.items.len() > 1
                &&& after.items.last() == SlotView::Separator(separator_of(entries[s], layout))
                &&& is_slot_of(after.items[after.items.len() - 2], entries, found, i)
            },
{
    let entry = entries[n - 1];
    lemma_kind(entry);
    let s = lemma_first_separator(entries, n - 1, i);
    if first_separator(entries, n - 1, i, s) {
        assert forall|t: int| #[trigger] first_separator(entries, n, i, t) implies t == s by {
            if t < s {
                assert(!is_separator(entries[t]));
            } else if s < t {
                assert(!is_separator(entries[s]));
            }
        }
        assert(is_separator(entries[s]));
        assert(after.items == before.items);
    } else if is_separator(entry) {
        assert(before.merge ==> after.items == before.items);
        assert(is_slot_of(before.items.last(), entries, found, i));
        assert forall|t: int| #[trigger] first_separator(entries, n, i, t) implies t == n - 1 by {
            if t < n - 1 {
                assert(is_separator(entries[t]));
            }
        }
        assert(!before.merge ==> after.items == before.items.push(
            SlotView::Separator(separator_of(entry, layout)),
        ));
        assert(is_separator(entries[n - 1]));
    } else {
        assert(after.items == before.items);
        assert forall|t: int| #[trigger] first_separator(entries, n, i, t) implies false by {
            if t < n - 1 {
                assert(!is_separator(entries[t]));
            }
        }
    }
}

proof fn lemma_items_stay(
    start: LineState,
    entries: Seq<LineEntry>,
    found: Seq<Found>,
    layout: SeparatorView,
    n: int,
    m: int,
)
    requires
        0 <= n <= m <= entries.len(),
    ensures
        line_built(start, entries.take(n), layout, found).items.is_prefix_of(
            line_built(start, entries.take(m), layout, found).items,
        ),
    decreases m,
{
    let first = line_built(start, entries.take(n), layout, found).items;
    if n < m {
        lemma_items_stay(start, entries, found, layout, n, m - 1);
        assert(entries.take(m).drop_last() =~= entries.take(m - 1));
        let before = line_built(start, entries.take(m - 1), layout, found).items;
        let after = line_built(start, entries.take(m), layout, found).items;
        assert(after.take(before.len() as int) =~= before);
        assert(after.take(first.len() as int) =~= first);
    } else {
        assert(first.take(first.len() as int) =~= first);
    }
}

/// Two entries that become segments, one behind the other, stand side by side
/// as they ask for. Where the first meets the next, nothing stands between
/// them; else one separator does: that of the first separator entry between
/// the two, or that of the line. They share a color exactly where the first
/// says so.
pub proof fn neighbors_stand_as_configured(
    start: LineState,
    entries: Seq<LineEntry>,
    found: Seq<Found>,
    layout: SeparatorView,
    i: int,
    j: int,
) -> (p: int)
    requires
        start == empty_line(start.left, start.used, start.warnings),
        becomes_segment(entries, found, j),
        last_segment(entries, found, j, i),
    ensures
        ({
            let line = line_built(start, entries, layout, found).items;
            let next = if meets_the_next(entries[i]) {
                p + 1
            } else {
                p + 2
            };
            &&& 0 <= p && next < line.len()
            &&& is_slot_of(line[p], entries, found, i)
            &&& is_slot_of(line[next], entries, found, j)
            &&& line[next]->fuses_left == shares_with_the_next(entries[i])
            &&& !meets_the_next(entries[i]) ==> {
                &&& line[p + 1] is Separator
                &&& forall|s: int| #[trigger]
                    first_separator(entries, j, i, s) ==> line[p + 1]->Separator_0 == separator_of(
                        entries[s],
                        layout,
                    )
                &&& (forall|k: int| i < k < j ==> !is_separator(#[trigger] entries[k])) ==> line[p
                    + 1]->Separator_0 == layout
            }
        }),
{
    lemma_left_behind(start, entries, found, layout, j);
    lemma_items_stay(start, entries, found, layout, j + 1, entries.len() as int);
    assert(entries.take(entries.len() as int) =~= entries);
    assert(entries.take(j + 1).drop_last() =~= entries.take(j));
    assert(entries.take(j + 1).last() == entries[j]);
    let before = line_built(start, entries.take(j), layout, found);
    let after = line_built(start, entries.take(j + 1), layout, found);
    let line = line_built(start, entries, layout, found).items;
    lemma_kind(entries[j]);
    assert(!before.seen.contains(asks_for(entries[j])->0)) by {
        if before.seen.contains(asks_for(entries[j])->0) {
            let k = choose|k: int|
                0 <= k < j && asks_for(#[trigger] entries[k]) == asks_for(entries[j]);
            assert(asks_for(entries[k]) != asks_for(entries[j]));
        }
    }
    assert(after == entry_added(before, entries[j], layout, found[j]));
    let s = lemma_first_separator(entries, j, i);
    assert(after.items =~= line.take(after.items.len() as int));
    let n = after.items.len() as int;
    assert(line[n - 1] == after.items[n - 1]);
    assert(line[n - 2] == after.items[n - 2]);
    if before.merge {
        assert(after.items.drop_last() =~= before.items);
        n - 2
    } else {
        assert(line[n - 3] == after.items[n - 3]);
        assert forall|t: int| #[trigger] first_separator(entries, j, i, t) implies t == s by {
            if first_separator(entries, j, i, s) {
                if t < s {
                    assert(!is_separator(entries[t]));
                } else if s < t {
                    assert(!is_separator(entries[s]));
                }
            } else {
                assert(!is_separator(entries[t]));
            }
        }
        n - 3
    }
}

/// The first entry to become a segment stands first in the line, and shares
/// its color with nothing to its left.
pub proof fn first_segment_stands_first(
    start: LineState,
    entries: Seq<LineEntry>,
    found: Seq<Found>,
    layout: SeparatorView,
    j: int,
)
    requires
        start == empty_line(start.left, start.used, start.warnings),
        becomes_segment(entries, found, j),
        forall|k: int| 0 <= k < j ==> !#[trigger] becomes_segment(entries, found, k),
    ensures
        line_built(start, entries, layout, found).items.len() > 0,
        is_slot_of(line_built(start, entries, layout, found).items[0], entries, found, j),
        !(line_built(start, entries, layout, found).items[0]->fuses_left),
{
    lemma_left_behind(start, entries, found, layout, j);
    lemma_items_stay(start, entries, found, layout, j + 1, entries.len() as int);
    assert(entries.take(entries.len() as int) =~= entries);
    assert(entries.take(j + 1).drop_last() =~= entries.take(j));
    let before = line_built(start, entries.take(j), layout, found);
    let after = line_built(start, entries.take(j + 1), layout, found);
    let line = line_built(start, entries, layout, found).items;
    lemma_kind(entries[j]);
    assert(!before.seen.contains(asks_for(entries[j])->0)) by {
        if before.seen.contains(asks_for(entries[j])->0) {
            let k = choose|k: int|
                0 <= k < j && asks_for(#[trigger] entries[k]) == asks_for(entries[j]);
            assert(asks_for(entries[k]) != asks_for(entries[j]));
        }
    }
    assert(after.items =~= line.take(after.items.len() as int));
    assert(line[0] == after.items[0]);
}

/// Where no entry becomes a segment the line is empty.
pub proof fn line_without_segments_is_empty(
    start: LineState,
    entries: Seq<LineEntry>,
    found: Seq<Found>,
    layout: SeparatorView,
)
    requires
        start == empty_line(start.left, start.used, start.warnings),
        forall|k: int| 0 <= k < entries.len() ==> !#[trigger] becomes_segment(entries, found, k),
    ensures
        line_built(start, entries, layout, found).items.len() == 0,
{
    lemma_left_behind(start, entries, found, layout, entries.len() as int);
    assert(entries.take(entries.len() as int) =~= entries);
}

/// Every segment of a line is one that an entry became.
pub proof fn every_segment_has_its_entry(
    start: LineState,
    entries: Seq<LineEntry>,
    found: Seq<Found>,
    layout: SeparatorView,
    n: int,
    p: int,
) -> (j: int)
    requires
        start == empty_line(start.left, start.used, start.warnings),
        0 <= n <= entries.len(),
        0 <= p < line_built(start, entries.take(n), layout, found).items.len(),
        line_built(start, entries.take(n), layout, found).items[p] is Segment,
    ensures
        0 <= j < n,
        becomes_segment(entries, found, j),
        is_slot_of(
            line_built(start, entries.take(n), layout, found).items[p],
            entries,
            found,
            j,
        ),
    decreases n,
{
    if n == 0 {
        assert(entries.take(0) =~= seq![]);
        0
    } else {
        assert(entries.take(n).drop_last() =~= entries.take(n - 1));
        assert(entries.take(n).last() == entries[n - 1]);
        let before = line_built(start, entries.take(n - 1), layout, found);
        let after = line_built(start, entries.take(n), layout, found);
        if p < before.items.len() {
            assert(after.items[p] == before.items[p]);
            every_segment_has_its_entry(start, entries, found, layout, n - 1, p)
        } else {
            lemma_left_behind(start, entries, found, layout, n - 1);
            lemma_kind(entries[n - 1]);
            let id = entries[n - 1].spec_kind()->0;
            assert(!before.seen.contains(id));
            assert forall|k: int| 0 <= k < n - 1 implies asks_for(#[trigger] entries[k])
                != asks_for(entries[n - 1]) by {
                if asks_for(entries[k]) == asks_for(entries[n - 1]) {
                    assert(before.seen.contains(id));
                }
            }
            n - 1
        }
    }
}

/// An entry that asks for a segment and gets none is reported, by its id; one
/// that names nothing is reported too. Reports are only ever added.
pub proof fn what_is_skipped_is_reported(
    start: LineState,
    entries: Seq<LineEntry>,
    found: Seq<Found>,
    layout: SeparatorView,
    n: int,
)
    requires
        start == empty_line(start.left, start.used, start.warnings),
        0 <= n < entries.len(),
    ensures
        ({
            let was = line_built(start, entries.take(n), layout, found).warnings;
            let now = line_built(start, entries.take(n + 1), layout, found).warnings;
            &&& was.is_prefix_of(now)
            &&& asks_for(entries[n]) is None && !is_separator(entries[n]) ==> now.len() > was.len()
            &&& asks_for(entries[n]) matches Some(id) ==> !becomes_segment(entries, found, n)
                ==> now.len() > was.len() && mentions(now.last(), id)
        }),
{
    lemma_left_behind(start, entries, found, layout, n);
    assert(entries.take(n + 1).drop_last() =~= entries.take(n));
    assert(entries.take(n + 1).last() == entries[n]);
    let before = line_built(start, entries.take(n), layout, found);
    let after = line_built(start, entries.take(n + 1), layout, found);
    lemma_kind(entries[n]);
    assert(after.warnings.take(before.warnings.len() as int) =~= before.warnings);
    match asks_for(entries[n]) {
        Some(id) => {
            if before.seen.contains(id) {
                lemma_mentions(
                    "segment '"@,
                    id,
                    "' listed more than once; keeping first occurrence"@,
                );
                let k = choose|k: int|
                    0 <= k < n && asks_for(#[trigger] entries[k]) == Some(id);
                assert(asks_for(entries[k]) == asks_for(entries[n]));
            } else {
                assert forall|k: int| 0 <= k < n implies asks_for(#[trigger] entries[k])
                    != asks_for(entries[n]) by {
                    if asks_for(entries[k]) == asks_for(entries[n]) {
                        assert(before.seen.contains(id));
                    }
                }
                lemma_mentions(
                    "plugin '"@,
                    id,
                    "' was rendered on an earlier line; v0.1 supports each plugin on at most one line per render — skipping"@,
                );
                lemma_mentions("unknown segment id '"@, id, "' — skipping"@);
            }
        },
        None => {},
    }
}

} // verus!
