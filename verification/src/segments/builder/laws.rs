//! What holds of every line that is built.

use vstd::prelude::*;

use crate::config::{Config, LayoutMode, LineEntry};
use crate::data_context::DataContext;
use crate::layout::laws::answers_once;
use crate::plugins::script::ScriptValue;
use crate::segments::builder::catalog::{
    answers_as, is_built_in, is_complete, keys_of, may_build, HostSegment,
};
use crate::segments::builder::lines::{
    entry_lists, icon_mode_of, layout_separator_setting, lines_are_ordered, numbered_lines,
    ordered_lines, owned,
};
use crate::segments::builder::model::{
    default_slots, empty_line, extras_of, has_numbered, has_segments, is_default_entries,
    line_built, line_lists, line_of, lines_built, lines_made, looks_for, may_find, may_find_all,
    may_follow, mode_of, settings_for, shown_line, single_made, without, Found, LineState,
    SlotView,
};
use crate::segments::context_bar::{self, bar_shows_one_way, ContextBarSegment};
use crate::segments::context_window::ContextWindowSegment;
use crate::segments::git_branch::{self, GitBranchSegment};
use crate::segments::rendered::RenderedView;
use crate::segments::segment::{
    Outcome, OverriddenSegment, RenderContext, Segment, SegmentBox,
};
use crate::segments::separator::{SegmentDefaults, SeparatorView};
use crate::value::{Table, Value};

verus! {

/// No separator leads, and no two meet.
pub open spec fn separators_apart(items: Seq<SlotView>) -> bool {
    &&& items.len() > 0 ==> items[0] is Segment
    &&& forall|i: int|
        0 <= i < items.len() - 1 ==> (#[trigger] items[i] is Separator ==> items[i + 1] is Segment)
}

/// No two segments meet.
pub open spec fn segments_apart(items: Seq<SlotView>) -> bool {
    forall|i: int|
        0 <= i < items.len() - 1 ==> (#[trigger] items[i] is Segment ==> items[i + 1] is Separator)
}

/// Every segment's id is one of `seen`, and none occurs twice.
pub open spec fn ids_once(items: Seq<SlotView>, seen: Seq<Seq<char>>) -> bool {
    &&& forall|i: int|
        0 <= i < items.len() ==> (#[trigger] items[i] is Segment ==> seen.contains(
            items[i]->Segment_id,
        ))
    &&& forall|i: int, j: int|
        0 <= i < j < items.len() && (#[trigger] items[i]) is Segment && (#[trigger] items[j]) is Segment
            ==> items[i]->Segment_id != items[j]->Segment_id
}

proof fn lemma_apart_push(items: Seq<SlotView>, item: SlotView)
    requires
        separators_apart(items),
        items.len() == 0 ==> item is Segment,
        items.len() > 0 && items.last() is Separator ==> item is Segment,
    ensures
        separators_apart(items.push(item)),
{
    let out = items.push(item);
    assert forall|i: int| 0 <= i < out.len() - 1 && #[trigger] out[i] is Separator implies out[i
        + 1] is Segment by {
        assert(out[i] == items[i]);
        if i < items.len() - 1 {
            assert(out[i + 1] == items[i + 1]);
        }
    }
}

proof fn lemma_segments_push(items: Seq<SlotView>, item: SlotView)
    requires
        segments_apart(items),
        items.len() > 0 && items.last() is Segment ==> item is Separator,
    ensures
        segments_apart(items.push(item)),
{
    let out = items.push(item);
    assert forall|i: int| 0 <= i < out.len() - 1 && #[trigger] out[i] is Segment implies out[i
        + 1] is Separator by {
        assert(out[i] == items[i]);
        if i < items.len() - 1 {
            assert(out[i + 1] == items[i + 1]);
        }
    }
}

/// In a line that is built no separator leads, and no two meet.
pub proof fn built_separators_are_apart(
    left: Seq<Seq<char>>,
    used: Seq<Seq<char>>,
    warnings: Seq<Seq<char>>,
    entries: Seq<LineEntry>,
    sep: SeparatorView,
    found: Seq<Found>,
)
    ensures
        separators_apart(
            line_built(empty_line(left, used, warnings), entries, sep, found).items,
        ),
    decreases entries.len(),
{
    if entries.len() > 0 {
        built_separators_are_apart(left, used, warnings, entries.drop_last(), sep, found);
        let before = line_built(empty_line(left, used, warnings), entries.drop_last(), sep, found);
        let here = found[entries.len() - 1];
        let after = line_built(empty_line(left, used, warnings), entries, sep, found);
        if after.items != before.items {
            match here.segment {
                Some(segment) => {
                    let slot = SlotView::Separator(sep);
                    if before.items.len() > 0 && before.items.last() is Segment {
                        lemma_apart_push(before.items, slot);
                        lemma_apart_push(
                            before.items.push(slot),
                            SlotView::Segment {
                                id: entries.last().spec_kind()->0,
                                segment,
                                fuses_left: before.group,
                            },
                        );
                    }
                    lemma_apart_push(
                        before.items,
                        SlotView::Segment {
                            id: entries.last().spec_kind()->0,
                            segment,
                            fuses_left: before.group,
                        },
                    );
                },
                None => {},
            }
            if entries.last().spec_kind() == Some("separator"@) {
                lemma_apart_push(before.items, after.items.last());
            }
        }
    }
}

/// In a line whose entries do not merge, a separator stands between any two
/// segments.
pub proof fn unmerged_segments_are_apart(
    left: Seq<Seq<char>>,
    used: Seq<Seq<char>>,
    warnings: Seq<Seq<char>>,
    entries: Seq<LineEntry>,
    sep: SeparatorView,
    found: Seq<Found>,
)
    requires
        forall|i: int| 0 <= i < entries.len() ==> !(#[trigger] entries[i]).merges(),
    ensures
        segments_apart(line_built(empty_line(left, used, warnings), entries, sep, found).items),
        !line_built(empty_line(left, used, warnings), entries, sep, found).merge,
    decreases entries.len(),
{
    if entries.len() > 0 {
        let earlier = entries.drop_last();
        assert forall|i: int| 0 <= i < earlier.len() implies !(#[trigger] earlier[i]).merges() by {
            assert(earlier[i] == entries[i]);
        }
        unmerged_segments_are_apart(left, used, warnings, earlier, sep, found);
        let before = line_built(empty_line(left, used, warnings), earlier, sep, found);
        let here = found[entries.len() - 1];
        let after = line_built(empty_line(left, used, warnings), entries, sep, found);
        assert(!entries[entries.len() - 1].merges());
        if after.items != before.items {
            match here.segment {
                Some(segment) => {
                    let slot = SlotView::Segment {
                        id: entries.last().spec_kind()->0,
                        segment,
                        fuses_left: before.group,
                    };
                    if before.items.len() > 0 && before.items.last() is Segment {
                        lemma_segments_push(before.items, SlotView::Separator(sep));
                        lemma_segments_push(before.items.push(SlotView::Separator(sep)), slot);
                    } else {
                        lemma_segments_push(before.items, slot);
                    }
                },
                None => {},
            }
            if entries.last().spec_kind() == Some("separator"@) {
                lemma_segments_push(before.items, after.items.last());
            }
        }
    }
}

proof fn lemma_once_push(items: Seq<SlotView>, seen: Seq<Seq<char>>, item: SlotView, id: Seq<char>)
    requires
        ids_once(items, seen),
        item is Segment ==> item->Segment_id == id && !seen.contains(id),
    ensures
        ids_once(items.push(item), seen.push(id)),
{
    let out = items.push(item);
    let now = seen.push(id);
    assert(now[seen.len() as int] == id);
    assert forall|s: Seq<char>| seen.contains(s) implies now.contains(s) by {
        let k = choose|k: int| 0 <= k < seen.len() && seen[k] == s;
        assert(now[k] == s);
    }
    assert forall|i: int| 0 <= i < out.len() && #[trigger] out[i] is Segment implies now.contains(
        out[i]->Segment_id,
    ) by {
        if i < items.len() {
            assert(out[i] == items[i]);
        }
    }
    assert forall|i: int, j: int|
        0 <= i < j < out.len() && (#[trigger] out[i]) is Segment && (#[trigger] out[j]) is Segment
        implies out[i]->Segment_id != out[j]->Segment_id by {
        assert(out[i] == items[i]);
        if j < items.len() {
            assert(out[j] == items[j]);
        } else {
            assert(seen.contains(items[i]->Segment_id));
        }
    }
}

proof fn lemma_once_grow(items: Seq<SlotView>, seen: Seq<Seq<char>>, id: Seq<char>)
    requires
        ids_once(items, seen),
    ensures
        ids_once(items, seen.push(id)),
{
    let now = seen.push(id);
    assert forall|s: Seq<char>| seen.contains(s) implies now.contains(s) by {
        let k = choose|k: int| 0 <= k < seen.len() && seen[k] == s;
        assert(now[k] == s);
    }
}

proof fn lemma_once_separator(items: Seq<SlotView>, seen: Seq<Seq<char>>, item: SlotView)
    requires
        ids_once(items, seen),
        item is Separator,
    ensures
        ids_once(items.push(item), seen),
{
    let out = items.push(item);
    assert forall|i: int| 0 <= i < out.len() && #[trigger] out[i] is Segment implies seen.contains(
        out[i]->Segment_id,
    ) by {
        assert(out[i] == items[i]);
    }
    assert forall|i: int, j: int|
        0 <= i < j < out.len() && (#[trigger] out[i]) is Segment && (#[trigger] out[j]) is Segment
        implies out[i]->Segment_id != out[j]->Segment_id by {
        assert(out[i] == items[i] && out[j] == items[j]);
    }
}

/// No segment stands twice in a line.
pub proof fn built_ids_occur_once(
    left: Seq<Seq<char>>,
    used: Seq<Seq<char>>,
    warnings: Seq<Seq<char>>,
    entries: Seq<LineEntry>,
    sep: SeparatorView,
    found: Seq<Found>,
)
    ensures
        ids_once(
            line_built(empty_line(left, used, warnings), entries, sep, found).items,
            line_built(empty_line(left, used, warnings), entries, sep, found).seen,
        ),
    decreases entries.len(),
{
    if entries.len() > 0 {
        built_ids_occur_once(left, used, warnings, entries.drop_last(), sep, found);
        let before = line_built(empty_line(left, used, warnings), entries.drop_last(), sep, found);
        let entry = entries.last();
        let here = found[entries.len() - 1];
        let after = line_built(empty_line(left, used, warnings), entries, sep, found);
        match entry.spec_kind() {
            Some(kind) => {
                if kind == "separator"@ {
                    if after.items != before.items {
                        lemma_once_separator(before.items, before.seen, after.items.last());
                    }
                } else if !before.seen.contains(kind) {
                    lemma_once_grow(before.items, before.seen, kind);
                    match here.segment {
                        Some(segment) => {
                            let slot = SlotView::Segment {
                                id: kind,
                                segment,
                                fuses_left: before.group,
                            };
                            if before.items.len() > 0 && before.items.last() is Segment
                                && !before.merge {
                                lemma_once_separator(
                                    before.items,
                                    before.seen,
                                    SlotView::Separator(sep),
                                );
                                lemma_once_push(
                                    before.items.push(SlotView::Separator(sep)),
                                    before.seen,
                                    slot,
                                    kind,
                                );
                            } else {
                                lemma_once_push(before.items, before.seen, slot, kind);
                            }
                        },
                        None => {},
                    }
                }
            },
            None => {},
        }
    }
}

/// No plugin that is used up is left.
pub open spec fn used_up(left: Seq<Seq<char>>, used: Seq<Seq<char>>) -> bool {
    forall|i: int| 0 <= i < used.len() ==> !left.contains(#[trigger] used[i])
}

proof fn lemma_without(ids: Seq<Seq<char>>, id: Seq<char>, other: Seq<char>)
    ensures
        without(ids, id).contains(other) ==> ids.contains(other) && other != id,
    decreases ids.len(),
{
    reveal(Seq::filter);
    if ids.len() > 0 {
        lemma_without(ids.drop_last(), id, other);
        let rest = without(ids.drop_last(), id);
        if without(ids, id).contains(other) {
            let k = choose|k: int|
                0 <= k < without(ids, id).len() && without(ids, id)[k] == other;
            if k < rest.len() {
                assert(rest[k] == other);
                assert(rest.contains(other));
                let j = choose|j: int| 0 <= j < ids.drop_last().len() && ids.drop_last()[j] == other;
                assert(ids[j] == other);
            } else {
                assert(ids[ids.len() - 1] == other);
            }
        }
    }
}

proof fn lemma_line_used_up(start: LineState, entries: Seq<LineEntry>, sep: SeparatorView, found: Seq<Found>)
    requires
        used_up(start.left, start.used),
    ensures
        used_up(
            line_built(start, entries, sep, found).left,
            line_built(start, entries, sep, found).used,
        ),
    decreases entries.len(),
{
    if entries.len() > 0 {
        lemma_line_used_up(start, entries.drop_last(), sep, found);
        let before = line_built(start, entries.drop_last(), sep, found);
        let after = line_built(start, entries, sep, found);
        if after.used != before.used {
            let id = entries.last().spec_kind()->0;
            assert forall|i: int| 0 <= i < after.used.len() implies !after.left.contains(
                #[trigger] after.used[i],
            ) by {
                lemma_without(before.left, id, after.used[i]);
                if i < before.used.len() {
                    assert(after.used[i] == before.used[i]);
                }
            }
        }
    }
}

/// A plugin that rendered on one line is left for none of the later ones.
pub proof fn plugins_render_once(
    left: Seq<Seq<char>>,
    warnings: Seq<Seq<char>>,
    lists: Seq<Seq<LineEntry>>,
    sep: SeparatorView,
    found: Seq<Seq<Found>>,
)
    ensures
        used_up(
            lines_built(left, seq![], warnings, lists, sep, found).left,
            lines_built(left, seq![], warnings, lists, sep, found).used,
        ),
    decreases lists.len(),
{
    if lists.len() > 0 {
        plugins_render_once(left, warnings, lists.drop_last(), sep, found);
        let before = lines_built(left, seq![], warnings, lists.drop_last(), sep, found);
        lemma_line_used_up(
            empty_line(before.left, before.used, before.warnings),
            lists.last(),
            sep,
            found[lists.len() - 1],
        );
    }
}

/// The first segment of a line belongs to no group to its left.
pub proof fn first_segment_leads_its_group(
    left: Seq<Seq<char>>,
    used: Seq<Seq<char>>,
    warnings: Seq<Seq<char>>,
    entries: Seq<LineEntry>,
    sep: SeparatorView,
    found: Seq<Found>,
)
    ensures
        ({
            let line = line_built(empty_line(left, used, warnings), entries, sep, found);
            &&& line.items.len() == 0 ==> !line.group
            &&& line.items.len() > 0 ==> !(line.items[0]->fuses_left)
        }),
    decreases entries.len(),
{
    built_separators_are_apart(left, used, warnings, entries, sep, found);
    if entries.len() > 0 {
        first_segment_leads_its_group(left, used, warnings, entries.drop_last(), sep, found);
        let before = line_built(empty_line(left, used, warnings), entries.drop_last(), sep, found);
        let after = line_built(empty_line(left, used, warnings), entries, sep, found);
        if before.items.len() > 0 {
            assert(after.items[0] == before.items[0]);
        }
    }
}

/// The default line groups nothing, and has a space between any two segments.
pub proof fn default_line_is_plain(segments: Seq<Option<SegmentBox>>)
    ensures
        forall|i: int|
            0 <= i < default_slots(segments).len() ==> match #[trigger] default_slots(
                segments,
            )[i] {
                SlotView::Segment { fuses_left, .. } => i % 2 == 0 && !fuses_left,
                SlotView::Separator(s) => i % 2 == 1 && s == SeparatorView::Space,
            },
        default_slots(segments).len() > 0 ==> default_slots(segments).len() % 2 == 1,
    decreases segments.len(),
{
    if segments.len() > 0 {
        default_line_is_plain(segments.drop_last());
    }
}

// --- One line and the first of many -------------------------------------

/// The slots are the same but for the segments themselves: the same ids in the
/// same groups, with the same separators between them.
pub open spec fn same_slots(a: Seq<SlotView>, b: Seq<SlotView>) -> bool {
    &&& a.len() == b.len()
    &&& forall|i: int| 0 <= i < a.len() ==> same_slot(#[trigger] a[i], b[i])
}

/// The two slots are the same but for the segment itself.
pub open spec fn same_slot(a: SlotView, b: SlotView) -> bool {
    match (a, b) {
        (
            SlotView::Segment { id: x, fuses_left: f, .. },
            SlotView::Segment { id: y, fuses_left: g, .. },
        ) => x == y && f == g,
        (SlotView::Separator(x), SlotView::Separator(y)) => x == y,
        _ => false,
    }
}

/// Whether `host` has a built-in segment depends on the id alone: it has those
/// of `known`.
pub open spec fn knows<F: Fn(&str, Option<&Table<Value>>) -> HostSegment>(
    host: F,
    known: spec_fn(Seq<char>) -> bool,
) -> bool {
    forall|id: &str, extras: Option<&Table<Value>>, h: HostSegment| #[trigger]
        call_ensures(host, (id, extras), h) && is_built_in(id@) ==> (h.segment is Some <==> known(
            id@,
        ))
}

/// A host that has a segment for every built-in id answers by the id alone.
pub proof fn complete_host_knows_every_id<
    F: Fn(&str, Option<&Table<Value>>) -> HostSegment,
>(host: F)
    requires
        is_complete(host),
    ensures
        knows(host, |id: Seq<char>| true),
{
}

/// Is there a built-in segment of `id`?
spec fn resolves(known: spec_fn(Seq<char>) -> bool, id: Seq<char>) -> bool {
    ||| id == "context_window"@
    ||| id == "context_bar"@
    ||| id == "git_branch"@
    ||| is_built_in(id) && known(id)
}

/// The entries say the same of the line.
spec fn alike(a: LineEntry, b: LineEntry) -> bool {
    &&& a.spec_kind() == b.spec_kind()
    &&& a.spec_character() == b.spec_character()
    &&& a.merge_field() == b.merge_field()
    &&& a.group_field() == b.group_field()
}

spec fn all_alike(a: Seq<LineEntry>, b: Seq<LineEntry>) -> bool {
    &&& a.len() == b.len()
    &&& forall|i: int| 0 <= i < a.len() ==> alike(#[trigger] a[i], b[i])
}

/// The lines are the same but for their segments and reports.
spec fn same_state(a: LineState, b: LineState) -> bool {
    &&& same_slots(a.items, b.items)
    &&& a.seen == b.seen
    &&& a.merge == b.merge
    &&& a.group == b.group
    &&& a.left == b.left
    &&& a.used == b.used
}

proof fn lemma_found<
    F: Fn(&str, Option<&Table<Value>>) -> HostSegment,
    G: Fn(&str, Table<ScriptValue>) -> SegmentBox,
>(
    host: F,
    make_plugin: G,
    config: Option<Config>,
    known: spec_fn(Seq<char>) -> bool,
    left: Seq<Seq<char>>,
    id: Seq<char>,
    found: Found,
)
    requires
        knows(host, known),
        may_find(host, make_plugin, config, left, id, found),
    ensures
        found.segment is Some <==> resolves(known, id) || left.contains(id),
        found.from_plugin <==> !resolves(known, id) && left.contains(id),
{
    let settings = settings_for(config, id);
    let (name, extras, raw, raw_warnings) = choose|
        name: &str,
        extras: Option<&Table<Value>>,
        raw: Option<SegmentBox>,
        raw_warnings: Seq<Seq<char>>,
    |
        {
            &&& name@ == id
            &&& owned(extras) == extras_of(settings)
            &&& #[trigger] may_build(host, name, extras, raw, raw_warnings)
            &&& may_follow(
                make_plugin,
                settings,
                icon_mode_of(config),
                left,
                name,
                raw,
                raw_warnings,
                found,
            )
        };
    assert(raw is Some <==> resolves(known, id));
}

proof fn lemma_same_built<
    F: Fn(&str, Option<&Table<Value>>) -> HostSegment,
    G: Fn(&str, Table<ScriptValue>) -> SegmentBox,
>(
    host: F,
    make_plugin: G,
    config: Option<Config>,
    known: spec_fn(Seq<char>) -> bool,
    start: (LineState, LineState),
    entries: (Seq<LineEntry>, Seq<LineEntry>),
    sep: SeparatorView,
    found: (Seq<Found>, Seq<Found>),
    n: int,
)
    requires
        knows(host, known),
        same_state(start.0, start.1),
        all_alike(entries.0, entries.1),
        may_find_all(host, make_plugin, config, start.0, entries.0, sep, found.0),
        may_find_all(host, make_plugin, config, start.1, entries.1, sep, found.1),
        0 <= n <= entries.0.len(),
    ensures
        same_state(
            line_built(start.0, entries.0.take(n), sep, found.0),
            line_built(start.1, entries.1.take(n), sep, found.1),
        ),
    decreases n,
{
    if n > 0 {
        lemma_same_built(
            host,
            make_plugin,
            config,
            known,
            start,
            entries,
            sep,
            found,
            n - 1,
        );
        assert(entries.0.take(n).drop_last() =~= entries.0.take(n - 1));
        assert(entries.1.take(n).drop_last() =~= entries.1.take(n - 1));
        let a = line_built(start.0, entries.0.take(n - 1), sep, found.0);
        let b = line_built(start.1, entries.1.take(n - 1), sep, found.1);
        let (x, y) = (entries.0[n - 1], entries.1[n - 1]);
        assert(alike(x, y));
        assert(looks_for(a, x) == looks_for(b, y));
        if let Some(id) = looks_for(a, x) {
            lemma_found(host, make_plugin, config, known, a.left, id, found.0[n - 1]);
            lemma_found(host, make_plugin, config, known, b.left, id, found.1[n - 1]);
        }
        if a.items.len() > 0 {
            assert(same_slot(a.items[a.items.len() - 1], b.items[b.items.len() - 1]));
        }
    }
}

proof fn lemma_first_line(
    left: Seq<Seq<char>>,
    used: Seq<Seq<char>>,
    warnings: Seq<Seq<char>>,
    lists: Seq<Seq<LineEntry>>,
    sep: SeparatorView,
    found: Seq<Seq<Found>>,
)
    requires
        lists.len() > 0,
    ensures
        lines_built(left, used, warnings, lists, sep, found).lines.len() == lists.len(),
        lines_built(left, used, warnings, lists, sep, found).lines[0] == line_built(
            empty_line(left, used, warnings),
            lists[0],
            sep,
            found[0],
        ).items,
    decreases lists.len(),
{
    if lists.len() == 1 {
        assert(lists.drop_last() =~= seq![]);
        reveal_with_fuel(lines_built, 2);
    } else {
        lemma_first_line(left, used, warnings, lists.drop_last(), sep, found);
    }
}

/// What `build_segments` gives is the first line of what `build_lines` gives,
/// unless numbered lines stand in for a single line that is not there: the
/// same ids in the same groups, with the same separators. In multi-line mode
/// that is the line of the smallest number, and the user is told of
/// `build_lines`.
pub proof fn single_line_is_the_first_line<
    F: Fn(&str, Option<&Table<Value>>) -> HostSegment,
    G: Fn(&str, Table<ScriptValue>) -> SegmentBox,
>(
    host: F,
    make_plugin: G,
    config: Option<Config>,
    plugins: Seq<Seq<char>>,
    known: spec_fn(Seq<char>) -> bool,
    before: (Seq<Seq<char>>, Seq<Seq<char>>),
    defaults: (Seq<LineEntry>, Seq<LineEntry>),
    found: (Seq<Found>, Seq<Seq<Found>>),
    items: Seq<SlotView>,
    lines: Seq<Seq<SlotView>>,
    warnings: (Seq<Seq<char>>, Seq<Seq<char>>),
)
    requires
        knows(host, known),
        single_made(
            host,
            make_plugin,
            config,
            plugins,
            before.0,
            defaults.0,
            found.0,
            items,
            warnings.0,
        ),
        lines_made(
            host,
            make_plugin,
            config,
            plugins,
            before.1,
            defaults.1,
            found.1,
            lines,
            warnings.1,
        ),
        !(mode_of(config) == LayoutMode::SingleLine && has_numbered(line_of(config))
            && !has_segments(line_of(config))),
    ensures
        lines.len() > 0,
        same_slots(items, lines[0]),
        mode_of(config) == LayoutMode::MultiLine && numbered_lines(line_of(config)).value is Some
            ==> {
            let numbered = ordered_lines(line_of(config)->0.numbered@).value;
            &&& shown_line(config, defaults.0).value == numbered[0].entries
            &&& forall|i: int|
                0 <= i < numbered.len() ==> numbered[0].number <= (#[trigger] numbered[i]).number
            &&& shown_line(config, defaults.0).warnings.last()
                == "layout = \"multi-line\" passed to build_segments (the single-line API); rendering line 1 only. Call build_lines to render every [line.N] sub-table."@
        },
{
    let entries = shown_line(config, defaults.0);
    let lists = line_lists(config, defaults.1);
    let sep = layout_separator_setting(config);
    let one = empty_line(plugins, seq![], before.0 + entries.warnings + sep.warnings);
    let reports = before.1 + lists.warnings + sep.warnings;
    let many = empty_line(plugins, seq![], reports);
    assert(lists.value.len() > 0);
    assert(all_alike(defaults.0, defaults.1)) by {
        assert forall|i: int| 0 <= i < 6 implies alike(#[trigger] defaults.0[i], defaults.1[i]) by {
            assert(is_default_entries(defaults.0) && is_default_entries(defaults.1));
            assert(defaults.1[i] is Id);
        }
    }
    assert(all_alike(entries.value, lists.value[0]));
    assert(lists.value.take(0) =~= seq![]);
    let at = lines_built(plugins, seq![], reports, lists.value.take(0), sep.value, found.1);
    assert(at.left == plugins && at.used == Seq::<Seq<char>>::empty() && at.warnings == reports);
    assert(may_find_all(
        host,
        make_plugin,
        config,
        many,
        lists.value[0],
        sep.value,
        found.1[0],
    ));
    lemma_same_built(
        host,
        make_plugin,
        config,
        known,
        (one, many),
        (entries.value, lists.value[0]),
        sep.value,
        (found.0, found.1[0]),
        entries.value.len() as int,
    );
    assert(entries.value.take(entries.value.len() as int) =~= entries.value);
    assert(lists.value[0].take(entries.value.len() as int) =~= lists.value[0]);
    lemma_first_line(plugins, seq![], reports, lists.value, sep.value, found.1);
    if mode_of(config) == LayoutMode::MultiLine && numbered_lines(line_of(config)).value is Some {
        let numbered = ordered_lines(line_of(config)->0.numbered@).value;
        lines_are_ordered(line_of(config)->0.numbered@);
        assert(entry_lists(numbered)[0] == numbered[0].entries);
        assert forall|i: int| 0 <= i < numbered.len() implies numbered[0].number <= (
        #[trigger] numbered[i]).number by {
            if i > 0 {
                assert(numbered[0].number <= numbered[i].number);
            }
        }
    }
}

// --- One answer ---------------------------------------------------------

/// The segments that are built here have one answer to each question.
pub proof fn segments_built_here_answer_once<
    F: Fn(&str, Option<&Table<Value>>) -> HostSegment,
>(
    host: F,
    id: &str,
    extras: Option<&Table<Value>>,
    segment: SegmentBox,
    warnings: Seq<Seq<char>>,
    ctx: DataContext,
    rc: RenderContext,
)
    requires
        may_build(host, id, extras, Some(segment), warnings),
        id@ == "context_window"@ || id@ == "context_bar"@ || id@ == "git_branch"@,
    ensures
        answers_once(segment, ctx, rc),
{
    if id@ == "context_window"@ {
        lemma_window_answers_once(segment, ctx, rc);
    } else if id@ == "context_bar"@ {
        let s = choose|s: ContextBarSegment|
            s.cfg@ == context_bar::settings(keys_of(extras)).value && #[trigger] answers_as(
                segment,
                s,
            );
        lemma_bar_answers_once(segment, s, ctx, rc);
    } else {
        let s = choose|s: GitBranchSegment|
            s.cfg@ == git_branch::settings(keys_of(extras)).value && #[trigger] answers_as(
                segment,
                s,
            );
        lemma_branch_answers_once(segment, s, ctx, rc);
    }
}

proof fn lemma_window_answers_once(b: SegmentBox, ctx: DataContext, rc: RenderContext)
    requires
        answers_as(b, ContextWindowSegment),
    ensures
        answers_once(b, ctx, rc),
{
}

proof fn lemma_branch_answers_once(
    b: SegmentBox,
    s: GitBranchSegment,
    ctx: DataContext,
    rc: RenderContext,
)
    requires
        answers_as(b, s),
    ensures
        answers_once(b, ctx, rc),
{
}

proof fn lemma_bar_answers_once(
    b: SegmentBox,
    s: ContextBarSegment,
    ctx: DataContext,
    rc: RenderContext,
)
    requires
        answers_as(b, s),
    ensures
        answers_once(b, ctx, rc),
{
    assert forall|x: Outcome, y: Outcome| #[trigger] b.segment.renders(ctx, rc, x)
        && #[trigger] b.segment.renders(ctx, rc, y) implies x == y by {
        assert(s.renders(ctx, rc, x) && s.renders(ctx, rc, y));
        if let Some(window) = ctx.status.context_window {
            if let Some(used) = window.used {
                bar_shows_one_way(s.cfg, used, x->Ok_0->0, y->Ok_0->0);
            }
        }
    }
}

/// A segment with user configuration laid over it has one answer to each
/// question where the segment below has.
pub proof fn overridden_segment_answers_once(
    inner: SegmentBox,
    over: OverriddenSegment,
    b: SegmentBox,
    ctx: DataContext,
    rc: RenderContext,
)
    requires
        over.below() == inner,
        answers_as(b, over),
        answers_once(inner, ctx, rc),
    ensures
        answers_once(b, ctx, rc),
{
    assert forall|x: SegmentDefaults, y: SegmentDefaults| #[trigger] b.segment.declares(x)
        && #[trigger] b.segment.declares(y) implies x == y by {
        assert(over.declares(x) && over.declares(y));
    }
    assert forall|x: bool, y: bool| #[trigger] b.segment.pins_color(x)
        && #[trigger] b.segment.pins_color(y) implies x == y by {
        assert(over.pins_color(x) && over.pins_color(y));
    }
    assert forall|x: Outcome, y: Outcome| #[trigger] b.segment.renders(ctx, rc, x)
        && #[trigger] b.segment.renders(ctx, rc, y) implies x == y by {
        assert(over.renders(ctx, rc, x) && over.renders(ctx, rc, y));
    }
    assert forall|target: u16, x: Option<RenderedView>, y: Option<RenderedView>| #[trigger]
        b.segment.shrinks(ctx, rc, target, x) && #[trigger] b.segment.shrinks(
        ctx,
        rc,
        target,
        y,
    ) implies x == y by {
        assert(over.shrinks(ctx, rc, target, x) && over.shrinks(ctx, rc, target, y));
    }
    assert forall|x: Option<Seq<char>>, y: Option<Seq<char>>| #[trigger]
        b.segment.explains(ctx, x) && #[trigger] b.segment.explains(ctx, y) implies x == y by {
        assert(over.explains(ctx, x) && over.explains(ctx, y));
    }
}

} // verus!
