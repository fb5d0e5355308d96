//! What a line is built to, as functions on mathematical values.

use vstd::prelude::*;

use crate::config::{settings_of, Config, IconMode, LayoutMode, LineConfig, LineEntry, SegmentOverride};
use crate::plugins::script::{mirrors, ScriptValue};
use crate::segments::builder::catalog::{
    is_built_in, may_build, HostSegment, DEFAULT_SEGMENT_IDS,
};
use crate::segments::builder::lines::{
    icon_mode_of, layout_separator_setting, numbered_lines, owned,
};
use crate::segments::builder::overrides::{overlaid, overlay};
use crate::segments::extras::Setting;
use crate::segments::segment::{LineItem, Segment, SegmentBox};
use crate::segments::separator::{SegmentDefaults, SeparatorView};
use crate::value::{Table, Value};

verus! {

/// One slot of a line.
pub enum SlotView {
    Segment { id: Seq<char>, segment: SegmentBox, fuses_left: bool },
    Separator(SeparatorView),
}

/// What `item` says.
pub open spec fn slot_of(item: LineItem) -> SlotView {
    match item {
        LineItem::Segment { id, segment, fuses_left } => SlotView::Segment {
            id: id@,
            segment,
            fuses_left,
        },
        LineItem::Separator(s) => SlotView::Separator(s@),
    }
}

/// The slots of `items`.
pub open spec fn slots_of(items: Seq<LineItem>) -> Seq<SlotView> {
    Seq::new(items.len(), |i: int| slot_of(items[i]))
}

/// The id of a built-in segment is borrowed, so that a report on it costs no
/// allocation; that of any other is owned.
pub open spec fn id_resolved(item: LineItem) -> bool {
    item matches LineItem::Segment { id, .. } ==> (id is Borrowed <==> is_built_in(id@))
}

/// Every id of `items` is borrowed or owned as it should be.
pub open spec fn ids_resolved(items: Seq<LineItem>) -> bool {
    forall|i: int| 0 <= i < items.len() ==> id_resolved(#[trigger] items[i])
}

/// What was found for an id: its segment, configured, and what was reported
/// on the way. A plugin is used up by it.
pub struct Found {
    pub segment: Option<SegmentBox>,
    pub warnings: Seq<Seq<char>>,
    pub from_plugin: bool,
}

/// A line on its way: its slots, the ids it has had, whether its last segment
/// merges or groups with what comes, the plugins that are left and that are
/// used up, and the reports.
pub struct LineState {
    pub items: Seq<SlotView>,
    pub seen: Seq<Seq<char>>,
    pub merge: bool,
    pub group: bool,
    pub left: Seq<Seq<char>>,
    pub used: Seq<Seq<char>>,
    pub warnings: Seq<Seq<char>>,
}

/// The reports on fields that an entry should not have.
pub open spec fn field_warnings(entry: LineEntry) -> Seq<Seq<char>> {
    let a = if entry.is_separator_item() && entry.merge_field() is Some {
        seq![
            "[line].segments separator entry has `merge = ...`; ignoring (merge is for segment entries)"@,
        ]
    } else {
        seq![]
    };
    let b = if entry.is_separator_item() && entry.group_field() is Some {
        seq![
            "[line].segments separator entry has `group = ...`; ignoring (group is for segment entries)"@,
        ]
    } else {
        seq![]
    };
    let c = if !entry.is_separator_item() && entry.spec_character() is Some {
        seq![
            "[line].segments segment entry has `character = ...`; ignoring (character is for separator entries)"@,
        ]
    } else {
        seq![]
    };
    a + b + c
}

/// One report more.
pub open spec fn reported(state: LineState, message: Seq<char>) -> LineState {
    LineState { warnings: state.warnings.push(message), ..state }
}

/// The line behind a separator entry. One that would lead, or follow another,
/// is dropped; so is one behind a segment that merges.
pub open spec fn separator_added(
    state: LineState,
    entry: LineEntry,
    layout_separator: SeparatorView,
) -> LineState {
    if state.merge {
        state
    } else if state.items.len() == 0 {
        reported(state, "[line].segments leads with a separator entry; skipping"@)
    } else if state.items.last() is Separator {
        reported(
            state,
            "[line].segments has consecutive separator entries; keeping the first"@,
        )
    } else {
        LineState {
            items: state.items.push(
                SlotView::Separator(
                    match entry.spec_character() {
                        Some(c) => SeparatorView::Literal(c),
                        None => layout_separator,
                    },
                ),
            ),
            ..state
        }
    }
}

/// The line's slots with a separator behind them, where a segment stands last
/// that does not merge.
pub open spec fn interleaved(state: LineState, layout_separator: SeparatorView) -> Seq<SlotView> {
    if state.items.len() > 0 && state.items.last() is Segment && !state.merge {
        state.items.push(SlotView::Separator(layout_separator))
    } else {
        state.items
    }
}

/// The line behind an entry of a new `id`, for which `found` was found.
pub open spec fn segment_added(
    state: LineState,
    entry: LineEntry,
    id: Seq<char>,
    layout_separator: SeparatorView,
    found: Found,
) -> LineState {
    let looked = LineState {
        seen: state.seen.push(id),
        left: if found.from_plugin {
            without(state.left, id)
        } else {
            state.left
        },
        used: if found.from_plugin {
            state.used.push(id)
        } else {
            state.used
        },
        warnings: state.warnings + found.warnings,
        ..state
    };
    match found.segment {
        Some(segment) => LineState {
            items: interleaved(state, layout_separator).push(
                SlotView::Segment { id, segment, fuses_left: state.group },
            ),
            merge: entry.merges(),
            group: entry.groups(),
            ..looked
        },
        None => if looked.used.contains(id) {
            reported(
                looked,
                "plugin '"@ + id
                    + "' was rendered on an earlier line; v0.1 supports each plugin on at most one line per render — skipping"@,
            )
        } else {
            reported(looked, "unknown segment id '"@ + id + "' — skipping"@)
        },
    }
}

/// `ids` without `id`.
pub open spec fn without(ids: Seq<Seq<char>>, id: Seq<char>) -> Seq<Seq<char>> {
    ids.filter(|other: Seq<char>| other != id)
}

/// The line behind `entry`; `found` is what was found for its id, where it is
/// looked for.
pub open spec fn entry_added(
    state: LineState,
    entry: LineEntry,
    layout_separator: SeparatorView,
    found: Found,
) -> LineState {
    let checked = LineState { warnings: state.warnings + field_warnings(entry), ..state };
    match entry.spec_kind() {
        None => reported(
            checked,
            "[line].segments inline-table entry is missing `type`; skipping"@,
        ),
        Some(kind) => if kind == "separator"@ {
            separator_added(checked, entry, layout_separator)
        } else if state.seen.contains(kind) {
            reported(
                checked,
                "segment '"@ + kind + "' listed more than once; keeping first occurrence"@,
            )
        } else {
            segment_added(checked, entry, kind, layout_separator, found)
        },
    }
}

/// Is a segment looked for at `entry`? It is for an id that is new to the
/// line.
pub open spec fn looks_for(state: LineState, entry: LineEntry) -> Option<Seq<char>> {
    match entry.spec_kind() {
        Some(kind) => if kind != "separator"@ && !state.seen.contains(kind) {
            Some(kind)
        } else {
            None
        },
        None => None,
    }
}

/// A line without slots, with those plugins, behind those reports.
pub open spec fn empty_line(
    left: Seq<Seq<char>>,
    used: Seq<Seq<char>>,
    warnings: Seq<Seq<char>>,
) -> LineState {
    LineState { items: seq![], seen: seq![], merge: false, group: false, left, used, warnings }
}

/// The line of `entries`, for which `found` was found.
pub open spec fn line_built(
    start: LineState,
    entries: Seq<LineEntry>,
    layout_separator: SeparatorView,
    found: Seq<Found>,
) -> LineState
    decreases entries.len(),
{
    if entries.len() == 0 {
        start
    } else {
        entry_added(
            line_built(start, entries.drop_last(), layout_separator, found),
            entries.last(),
            layout_separator,
            found[entries.len() - 1],
        )
    }
}

/// The settings of `id`.
pub open spec fn settings_for(config: Option<Config>, id: Seq<char>) -> Option<SegmentOverride> {
    match config {
        Some(c) => settings_of(c.segments@, id),
        None => None,
    }
}

/// `map` is what a plugin sees of `settings`: its own keys, or nothing.
pub open spec fn plugin_sees(settings: Option<SegmentOverride>, map: Table<ScriptValue>) -> bool {
    match settings {
        None => map@.len() == 0,
        Some(s) => {
            &&& map@.len() == s.extra@.len()
            &&& forall|i: int|
                0 <= i < map@.len() ==> (#[trigger] s.extra@[i]).key@ == map@[i].key@ && mirrors(
                    s.extra@[i].value,
                    map@[i].value,
                )
        },
    }
}

/// `found` is `inner` with the settings of `id` laid over it, behind the
/// reports `earlier`.
pub open spec fn configured(
    id: Seq<char>,
    settings: Option<SegmentOverride>,
    icons: IconMode,
    inner: SegmentBox,
    earlier: Seq<Seq<char>>,
    found: Found,
) -> bool {
    found.segment matches Some(segment) && exists|d: SegmentDefaults|
        {
            &&& #[trigger] inner.segment.declares(d)
            &&& overlaid(inner, overlay(id, d, settings, icons).value, segment)
            &&& found.warnings == earlier + overlay(id, d, settings, icons).warnings
        }
}

/// The segment's own keys.
pub open spec fn extras_of(settings: Option<SegmentOverride>) -> Option<Table<Value>> {
    match settings {
        Some(s) => Some(s.extra),
        None => None,
    }
}

/// May `found` be found for `id`, where the built-in segment came to `raw`
/// with the reports `raw_warnings`? What is not built in may be a plugin that
/// is left.
pub open spec fn may_follow<G: Fn(&str, Table<ScriptValue>) -> SegmentBox>(
    make_plugin: G,
    settings: Option<SegmentOverride>,
    icons: IconMode,
    left: Seq<Seq<char>>,
    id: &str,
    raw: Option<SegmentBox>,
    raw_warnings: Seq<Seq<char>>,
    found: Found,
) -> bool {
    match raw {
        Some(inner) => !found.from_plugin && configured(
            id@,
            settings,
            icons,
            inner,
            raw_warnings,
            found,
        ),
        None => if left.contains(id@) {
            found.from_plugin && exists|map: Table<ScriptValue>, inner: SegmentBox|
                {
                    &&& plugin_sees(settings, map)
                    &&& #[trigger] call_ensures(make_plugin, (id, map), inner)
                    &&& configured(id@, settings, icons, inner, raw_warnings, found)
                }
        } else {
            !found.from_plugin && found.segment is None && found.warnings == raw_warnings
        },
    }
}

/// May `found` be found for `id`?
pub open spec fn may_find<
    F: Fn(&str, Option<&Table<Value>>) -> HostSegment,
    G: Fn(&str, Table<ScriptValue>) -> SegmentBox,
>(
    host: F,
    make_plugin: G,
    config: Option<Config>,
    left: Seq<Seq<char>>,
    id: Seq<char>,
    found: Found,
) -> bool {
    let settings = settings_for(config, id);
    exists|
        name: &str,
        extras: Option<&Table<Value>>,
        raw: Option<SegmentBox>,
        raw_warnings: Seq<Seq<char>>,
    |
        {
            &&& name@ == id
            &&& owned(extras) == extras_of(settings)
            &&& #[trigger] may_build(host, name, extras, raw, raw_warnings)
            &&& may_follow(
                make_plugin,
                settings,
                icon_mode_of(config),
                left,
                name,
                raw,
                raw_warnings,
                found,
            )
        }
}

/// May `found` be found for the ids that the line of `entries` looks for?
pub open spec fn may_find_all<
    F: Fn(&str, Option<&Table<Value>>) -> HostSegment,
    G: Fn(&str, Table<ScriptValue>) -> SegmentBox,
>(
    host: F,
    make_plugin: G,
    config: Option<Config>,
    start: LineState,
    entries: Seq<LineEntry>,
    layout_separator: SeparatorView,
    found: Seq<Found>,
) -> bool {
    &&& found.len() == entries.len()
    &&& forall|i: int|
        0 <= i < entries.len() ==> {
            let at = line_built(start, #[trigger] entries.take(i), layout_separator, found);
            looks_for(at, entries[i]) matches Some(id) ==> may_find(
                host,
                make_plugin,
                config,
                at.left,
                id,
                found[i],
            )
        }
}

/// Building the line of `entries` comes to the slots `items`, leaves the
/// plugins `left` and `used`, and reports up to `warnings`.
pub open spec fn line_made<
    F: Fn(&str, Option<&Table<Value>>) -> HostSegment,
    G: Fn(&str, Table<ScriptValue>) -> SegmentBox,
>(
    host: F,
    make_plugin: G,
    config: Option<Config>,
    start: LineState,
    entries: Seq<LineEntry>,
    layout_separator: SeparatorView,
    found: Seq<Found>,
    items: Seq<SlotView>,
    left: Seq<Seq<char>>,
    used: Seq<Seq<char>>,
    warnings: Seq<Seq<char>>,
) -> bool {
    let end = line_built(start, entries, layout_separator, found);
    &&& may_find_all(host, make_plugin, config, start, entries, layout_separator, found)
    &&& items == end.items
    &&& left == end.left
    &&& used == end.used
    &&& warnings == end.warnings
}

/// The lines of `lists`, one after the other, each with the plugins that the
/// ones before it left. `found` holds what was found for each.
pub open spec fn lines_built(
    left: Seq<Seq<char>>,
    used: Seq<Seq<char>>,
    warnings: Seq<Seq<char>>,
    lists: Seq<Seq<LineEntry>>,
    layout_separator: SeparatorView,
    found: Seq<Seq<Found>>,
) -> LinesState
    decreases lists.len(),
{
    if lists.len() == 0 {
        LinesState { lines: seq![], left, used, warnings }
    } else {
        let before = lines_built(left, used, warnings, lists.drop_last(), layout_separator, found);
        let line = line_built(
            empty_line(before.left, before.used, before.warnings),
            lists.last(),
            layout_separator,
            found[lists.len() - 1],
        );
        LinesState {
            lines: before.lines.push(line.items),
            left: line.left,
            used: line.used,
            warnings: line.warnings,
        }
    }
}

/// Lines on their way.
pub struct LinesState {
    pub lines: Seq<Seq<SlotView>>,
    pub left: Seq<Seq<char>>,
    pub used: Seq<Seq<char>>,
    pub warnings: Seq<Seq<char>>,
}

/// May `found` be found for the ids that the lines of `lists` look for?
pub open spec fn may_find_lines<
    F: Fn(&str, Option<&Table<Value>>) -> HostSegment,
    G: Fn(&str, Table<ScriptValue>) -> SegmentBox,
>(
    host: F,
    make_plugin: G,
    config: Option<Config>,
    left: Seq<Seq<char>>,
    used: Seq<Seq<char>>,
    warnings: Seq<Seq<char>>,
    lists: Seq<Seq<LineEntry>>,
    layout_separator: SeparatorView,
    found: Seq<Seq<Found>>,
) -> bool {
    &&& found.len() == lists.len()
    &&& forall|i: int|
        0 <= i < lists.len() ==> {
            let at = lines_built(
                left,
                used,
                warnings,
                #[trigger] lists.take(i),
                layout_separator,
                found,
            );
            may_find_all(
                host,
                make_plugin,
                config,
                empty_line(at.left, at.used, at.warnings),
                lists[i],
                layout_separator,
                found[i],
            )
        }
}

/// The entries of the default line.
pub open spec fn is_default_entries(entries: Seq<LineEntry>) -> bool {
    &&& entries.len() == 6
    &&& forall|i: int|
        0 <= i < 6 ==> ((#[trigger] entries[i]) matches LineEntry::Id(id) && id@
            == DEFAULT_SEGMENT_IDS[i]@)
}

/// The report on a line that has nothing to show.
pub open spec fn empty_segments_warnings(line: Option<LineConfig>) -> Seq<Seq<char>> {
    match line {
        Some(l) => if l.segments@.len() == 0 {
            seq!["[line].segments is empty; no segments will render"@]
        } else {
            seq![]
        },
        None => seq![],
    }
}

/// The one line's entries: those of `[line]`, or `defaults`.
pub open spec fn single_line(line: Option<LineConfig>, defaults: Seq<LineEntry>) -> Seq<LineEntry> {
    match line {
        Some(l) => l.segments@,
        None => defaults,
    }
}

/// The configuration's layout mode.
pub open spec fn mode_of(config: Option<Config>) -> LayoutMode {
    match config {
        Some(c) => c.layout,
        None => LayoutMode::SingleLine,
    }
}

/// `[line]`.
pub open spec fn line_of(config: Option<Config>) -> Option<LineConfig> {
    match config {
        Some(c) => c.line,
        None => None,
    }
}

/// Does `[line]` have keys beside `segments`?
pub open spec fn has_numbered(line: Option<LineConfig>) -> bool {
    line matches Some(l) && l.numbered@.len() > 0
}

/// Does `[line]` list segments?
pub open spec fn has_segments(line: Option<LineConfig>) -> bool {
    line matches Some(l) && l.segments@.len() > 0
}

/// Which lines a configuration has. Numbered lines count in multi-line mode,
/// and where there is nothing else; without a usable one the single line
/// does.
pub open spec fn line_lists(config: Option<Config>, defaults: Seq<LineEntry>) -> Setting<
    Seq<Seq<LineEntry>>,
> {
    let line = line_of(config);
    let numbered = numbered_lines(line);
    let single = seq![single_line(line, defaults)];
    let empty = empty_segments_warnings(line);
    match mode_of(config) {
        LayoutMode::SingleLine => if has_numbered(line) && !has_segments(line) {
            match numbered.value {
                Some(lists) => Setting {
                    value: lists,
                    warnings: numbered.warnings.push(
                        "[line.N] sub-tables present but no top-level `layout` field; treating as multi-line. Add `layout = \"multi-line\"` to silence this warning."@,
                    ),
                },
                None => Setting {
                    value: single,
                    warnings: numbered.warnings.push(
                        "[line.N] sub-tables present but none are usable, and [line].segments is empty; nothing will render"@,
                    ) + empty,
                },
            }
        } else if has_numbered(line) {
            Setting {
                value: single,
                warnings: seq![
                    "layout is single-line but [line.N] sub-tables are present; ignoring numbered tables and rendering [line].segments"@,
                ] + empty,
            }
        } else {
            Setting { value: single, warnings: empty }
        },
        LayoutMode::MultiLine => match numbered.value {
            Some(lists) => Setting { value: lists, warnings: numbered.warnings },
            None => Setting {
                value: single,
                warnings: numbered.warnings.push(
                    "layout = \"multi-line\" but no usable [line.N] sub-tables; falling back to single-line using [line].segments"@,
                ) + empty,
            },
        },
    }
}

/// Which entries the single-line interface shows: the first numbered line in
/// multi-line mode, else the single line.
pub open spec fn shown_line(config: Option<Config>, defaults: Seq<LineEntry>) -> Setting<
    Seq<LineEntry>,
> {
    let line = line_of(config);
    let numbered = numbered_lines(line);
    let single = single_line(line, defaults);
    let empty = empty_segments_warnings(line);
    match mode_of(config) {
        LayoutMode::SingleLine => Setting { value: single, warnings: empty },
        LayoutMode::MultiLine => match numbered.value {
            Some(lists) => Setting {
                value: lists[0],
                warnings: numbered.warnings.push(
                    "layout = \"multi-line\" passed to build_segments (the single-line API); rendering line 1 only. Call build_lines to render every [line.N] sub-table."@,
                ),
            },
            None => Setting { value: single, warnings: numbered.warnings + empty },
        },
    }
}

/// Building lines comes to `lines`, where the configuration's lines are built
/// one after the other, behind the reports on them.
pub open spec fn lines_made<
    F: Fn(&str, Option<&Table<Value>>) -> HostSegment,
    G: Fn(&str, Table<ScriptValue>) -> SegmentBox,
>(
    host: F,
    make_plugin: G,
    config: Option<Config>,
    plugins: Seq<Seq<char>>,
    before: Seq<Seq<char>>,
    defaults: Seq<LineEntry>,
    found: Seq<Seq<Found>>,
    lines: Seq<Seq<SlotView>>,
    warnings: Seq<Seq<char>>,
) -> bool {
    let lists = line_lists(config, defaults);
    let separator = layout_separator_setting(config);
    let reports = before + lists.warnings + separator.warnings;
    let end = lines_built(plugins, seq![], reports, lists.value, separator.value, found);
    &&& is_default_entries(defaults)
    &&& may_find_lines(
        host,
        make_plugin,
        config,
        plugins,
        seq![],
        reports,
        lists.value,
        separator.value,
        found,
    )
    &&& lines == end.lines
    &&& warnings == end.warnings
}

/// Building the single line comes to `items`.
pub open spec fn single_made<
    F: Fn(&str, Option<&Table<Value>>) -> HostSegment,
    G: Fn(&str, Table<ScriptValue>) -> SegmentBox,
>(
    host: F,
    make_plugin: G,
    config: Option<Config>,
    plugins: Seq<Seq<char>>,
    before: Seq<Seq<char>>,
    defaults: Seq<LineEntry>,
    found: Seq<Found>,
    items: Seq<SlotView>,
    warnings: Seq<Seq<char>>,
) -> bool {
    let entries = shown_line(config, defaults);
    let separator = layout_separator_setting(config);
    let start = empty_line(
        plugins,
        seq![],
        before + entries.warnings + separator.warnings,
    );
    let end = line_built(start, entries.value, separator.value, found);
    &&& is_default_entries(defaults)
    &&& may_find_all(
        host,
        make_plugin,
        config,
        start,
        entries.value,
        separator.value,
        found,
    )
    &&& items == end.items
    &&& warnings == end.warnings
}

/// The default line: of the default segments those that there are, in order,
/// with a space between two.
pub open spec fn default_slots(segments: Seq<Option<SegmentBox>>) -> Seq<SlotView>
    decreases segments.len(),
{
    if segments.len() == 0 {
        seq![]
    } else {
        let before = default_slots(segments.drop_last());
        match segments.last() {
            Some(segment) => {
                let slot = SlotView::Segment {
                    id: DEFAULT_SEGMENT_IDS[segments.len() - 1]@,
                    segment,
                    fuses_left: false,
                };
                if before.len() > 0 {
                    before.push(SlotView::Separator(SeparatorView::Space)).push(slot)
                } else {
                    before.push(slot)
                }
            },
            None => before,
        }
    }
}

/// May the built-in segment of `id`, without keys of its own, be `segment`?
pub open spec fn may_build_bare<F: Fn(&str, Option<&Table<Value>>) -> HostSegment>(
    host: F,
    id: &str,
    segment: Option<SegmentBox>,
) -> bool {
    exists|warnings: Seq<Seq<char>>| #[trigger] may_build(host, id, None, segment, warnings)
}

/// May the default segments come to `segments`?
pub open spec fn may_be_default<F: Fn(&str, Option<&Table<Value>>) -> HostSegment>(
    host: F,
    segments: Seq<Option<SegmentBox>>,
) -> bool {
    &&& segments.len() == 6
    &&& forall|i: int|
        0 <= i < 6 ==> #[trigger] may_build_bare(host, DEFAULT_SEGMENT_IDS[i], segments[i])
}

} // verus!
