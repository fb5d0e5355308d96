//! Building lines: entry by entry, line by line.

use std::borrow::Cow;

use vstd::prelude::*;
use vstd::string::StringExecFns;

use crate::config::{find_settings, Config, IconMode, LayoutMode, LineConfig, LineEntry};
use crate::diagnostics::{lemma_reports, texts, Messages};
use crate::plugins::script::{toml_table_to_dynamic, ScriptValue};
use crate::segments::builder::catalog::{
    built_in_by_id, default_line_is_built_in, may_build, resolve_segment_id, HostSegment,
    DEFAULT_SEGMENT_IDS,
};
use crate::segments::builder::lines::{
    entries_of, entry_lists, icon_mode_of, line_views, numbered_lines, owned, resolve_icon_mode,
    resolve_layout_separator, validated_numbered_lines, ParsedLine,
};
use crate::segments::builder::model::{
    configured, default_slots, empty_line, empty_segments_warnings, extras_of, field_warnings,
    id_resolved, ids_resolved, is_default_entries, line_built, line_lists, line_made, line_of,
    lines_built, lines_made,
    looks_for, may_be_default, may_build_bare, may_find, may_find_all, may_follow, plugin_sees,
    segment_added, separator_added, settings_for, shown_line, single_line, single_made,
    slot_of, slots_of, without, Found, LineState, SlotView,
};
use crate::segments::builder::overrides::{apply_override, overlaid, overlay};
use crate::segments::segment::{LineItem, Segment, SegmentBox};
use crate::segments::separator::{SegmentDefaults, Separator, SeparatorView};
use crate::text::same_text;
use crate::value::{Table, Value};

verus! {

/// The plugins: those that a line may still use, and those that are used up.
/// A plugin renders on one line only.
pub struct PluginShelf {
    pub left: Vec<String>,
    pub used: Vec<String>,
}

/// Is `id` one of `ids`?
fn holds(ids: &Vec<String>, id: &str) -> (r: bool)
    ensures
        r == texts(ids@).contains(id@),
{
    let mut i: usize = 0;
    while i < ids.len()
        invariant
            i <= ids@.len(),
            forall|k: int| 0 <= k < i ==> (#[trigger] ids@[k])@ != id@,
        decreases ids@.len() - i,
    {
        if same_text(ids[i].as_str(), id) {
            assert(texts(ids@)[i as int] == id@);
            return true;
        }
        i += 1;
    }
    assert forall|k: int| 0 <= k < texts(ids@).len() implies texts(ids@)[k] != id@ by {
        assert(texts(ids@)[k] == ids@[k]@);
    }
    false
}

impl PluginShelf {
    /// The plugins `ids`, none of them used up.
    pub fn new(ids: Vec<String>) -> (r: PluginShelf)
        ensures
            r.left == ids,
            r.used@.len() == 0,
    {
        PluginShelf { left: ids, used: Vec::new() }
    }

    /// Use up the plugin `id`.
    fn take(&mut self, id: &str)
        ensures
            texts(final(self).left@) == without(texts(old(self).left@), id@),
            texts(final(self).used@) == texts(old(self).used@).push(id@),
    {
        let ghost before = texts(self.left@);
        let mut rest: Vec<String> = Vec::new();
        let mut i: usize = 0;
        proof {
            reveal(Seq::filter);
            assert(texts(rest@) =~= seq![]);
        }
        while i < self.left.len()
            invariant
                i <= self.left@.len(),
                before == texts(self.left@),
                texts(rest@) == without(before.take(i as int), id@),
            decreases self.left@.len() - i,
        {
            proof {
                reveal(Seq::filter);
                assert(before.take(i + 1).drop_last() =~= before.take(i as int));
                assert(before.take(i + 1).last() == self.left@[i as int]@);
            }
            if !same_text(self.left[i].as_str(), id) {
                let ghost was = texts(rest@);
                rest.push(self.left[i].clone());
                assert(texts(rest@) =~= was.push(self.left@[i as int]@));
            }
            i += 1;
        }
        assert(before.take(i as int) =~= before);
        let ghost was_used = texts(self.used@);
        self.left = rest;
        self.used.push(id.to_owned());
        assert(texts(self.used@) =~= was_used.push(id@));
    }
}

/// A line on its way.
struct Line {
    items: Vec<LineItem>,
    seen: Vec<String>,
    merge: bool,
    group: bool,
}

spec fn state_of(line: Line, shelf: PluginShelf, warnings: Seq<Seq<char>>) -> LineState {
    LineState {
        items: slots_of(line.items@),
        seen: texts(line.seen@),
        merge: line.merge,
        group: line.group,
        left: texts(shelf.left@),
        used: texts(shelf.used@),
        warnings,
    }
}

fn check_fields(entry: &LineEntry, warnings: &mut Messages)
    ensures
        final(warnings)@ == old(warnings)@ + field_warnings(*entry),
{
    let ghost before = warnings@;
    let separator: bool = entry.separator_item();
    if separator && entry.merge_flag().is_some() {
        warnings.push(
            "[line].segments separator entry has `merge = ...`; ignoring (merge is for segment entries)".to_owned(),
        );
    }
    if separator && entry.group_flag().is_some() {
        warnings.push(
            "[line].segments separator entry has `group = ...`; ignoring (group is for segment entries)".to_owned(),
        );
    }
    if !separator && entry.separator_character().is_some() {
        warnings.push(
            "[line].segments segment entry has `character = ...`; ignoring (character is for separator entries)".to_owned(),
        );
    }
    assert(warnings@ =~= before + field_warnings(*entry));
}

fn push_slot(items: &mut Vec<LineItem>, item: LineItem)
    ensures
        slots_of(final(items)@) == slots_of(old(items)@).push(slot_of(item)),
        ids_resolved(old(items)@) && id_resolved(item) ==> ids_resolved(final(items)@),
{
    let ghost before = slots_of(items@);
    items.push(item);
    assert(slots_of(items@) =~= before.push(slot_of(item)));
}

fn ends_in_segment(items: &Vec<LineItem>) -> (r: bool)
    ensures
        r == (items@.len() > 0 && slots_of(items@).last() is Segment),
{
    let n: usize = items.len();
    if n == 0 {
        return false;
    }
    assert(slots_of(items@).last() == slot_of(items@[n - 1]));
    match &items[n - 1] {
        LineItem::Segment { .. } => true,
        LineItem::Separator(_) => false,
    }
}

fn add_separator(line: &mut Line, entry: &LineEntry, layout_separator: &Separator, warnings: &mut Messages)
    ensures
        forall|shelf: PluginShelf|
            state_of(*final(line), shelf, final(warnings)@) == #[trigger] separator_added(
                state_of(*old(line), shelf, old(warnings)@),
                *entry,
                layout_separator@,
            ),
        ids_resolved(old(line).items@) ==> ids_resolved(final(line).items@),
{
    assert(slots_of(line.items@).len() == line.items@.len());
    if line.merge {
        return;
    }
    if line.items.len() == 0 {
        warnings.push("[line].segments leads with a separator entry; skipping".to_owned());
        return;
    }
    if !ends_in_segment(&line.items) {
        assert(slots_of(line.items@).last() is Separator);
        warnings.push(
            "[line].segments has consecutive separator entries; keeping the first".to_owned(),
        );
        return;
    }
    let sep = match entry.separator_character() {
        Some(c) => Separator::Literal(Cow::Owned(c.to_owned())),
        None => layout_separator.clone(),
    };
    push_slot(&mut line.items, LineItem::Separator(sep));
}

/// What was found for an id.
struct Hit {
    segment: Option<SegmentBox>,
    from_plugin: bool,
}

/// Look for the segment of `id`: a built-in one, or else a plugin that is
/// left, with the settings of `id` laid over it.
fn look_up<
    F: Fn(&str, Option<&Table<Value>>) -> HostSegment,
    G: Fn(&str, Table<ScriptValue>) -> SegmentBox,
>(
    id: &str,
    config: Option<&Config>,
    host: &F,
    make_plugin: &G,
    icons: IconMode,
    left: &Vec<String>,
    warnings: &mut Messages,
) -> (r: Hit)
    requires
        icons == icon_mode_of(owned(config)),
        forall|i: &str, e: Option<&Table<Value>>| #[trigger] call_requires(host, (i, e)),
        forall|i: &str, m: Table<ScriptValue>| #[trigger] call_requires(make_plugin, (i, m)),
    ensures
        exists|found: Found|
            {
                &&& #[trigger] may_find(
                    *host,
                    *make_plugin,
                    owned(config),
                    texts(left@),
                    id@,
                    found,
                )
                &&& r.segment == found.segment
                &&& r.from_plugin == found.from_plugin
                &&& final(warnings)@ == old(warnings)@ + found.warnings
            },
{
    let ghost before = warnings@;
    let settings = match config {
        Some(c) => find_settings(&c.segments, id),
        None => None,
    };
    let extras = match settings {
        Some(s) => Some(&s.extra),
        None => None,
    };
    assert(owned(settings) == settings_for(owned(config), id@));
    assert(owned(extras) == extras_of(owned(settings)));
    let raw = built_in_by_id(id, extras, host, warnings);
    let ghost raw_warnings = choose|w: Seq<Seq<char>>|
        {
            &&& #[trigger] may_build(*host, id, extras, raw, w)
            &&& warnings@ == before + w
        };
    let ghost built = raw;
    let (inner, from_plugin) = match raw {
        Some(inner) => (inner, false),
        None => {
            if !holds(left, id) {
                proof {
                    let found = Found { segment: None, warnings: raw_warnings, from_plugin: false };
                    assert(may_follow(
                        *make_plugin,
                        owned(settings),
                        icons,
                        texts(left@),
                        id,
                        built,
                        raw_warnings,
                        found,
                    ));
                    assert(may_find(
                        *host,
                        *make_plugin,
                        owned(config),
                        texts(left@),
                        id@,
                        found,
                    ));
                }
                return Hit { segment: None, from_plugin: false };
            }
            let map = match settings {
                Some(s) => toml_table_to_dynamic(&s.extra),
                None => Table::new(),
            };
            let ghost seen = map;
            assert(plugin_sees(owned(settings), map));
            let inner = make_plugin(id, map);
            assert(call_ensures(*make_plugin, (id, seen), inner));
            (inner, true)
        },
    };
    let ghost middle = warnings@;
    let ghost plain = inner;
    let segment = apply_override(id, inner, settings, icons, warnings);
    let ghost d = choose|d: SegmentDefaults|
        {
            &&& #[trigger] plain.segment.declares(d)
            &&& overlaid(plain, overlay(id@, d, owned(settings), icons).value, segment)
            &&& warnings@ == middle + overlay(id@, d, owned(settings), icons).warnings
        };
    proof {
        let more = overlay(id@, d, owned(settings), icons).warnings;
        let found = Found {
            segment: Some(segment),
            warnings: raw_warnings + more,
            from_plugin,
        };
        lemma_reports(before, raw_warnings, more);
        assert(configured(id@, owned(settings), icons, plain, raw_warnings, found));
        assert(may_follow(
            *make_plugin,
            owned(settings),
            icons,
            texts(left@),
            id,
            built,
            raw_warnings,
            found,
        ));
        assert(may_find(*host, *make_plugin, owned(config), texts(left@), id@, found));
    }
    Hit { segment: Some(segment), from_plugin }
}

/// Add an entry of a new `id`, for which `hit` was found, to the line.
fn add_segment(
    line: &mut Line,
    entry: &LineEntry,
    id: &str,
    hit: Hit,
    shelf: &mut PluginShelf,
    layout_separator: &Separator,
    warnings: &mut Messages,
)
    ensures
        state_of(*final(line), *final(shelf), final(warnings)@) == segment_added(
            state_of(*old(line), *old(shelf), old(warnings)@),
            *entry,
            id@,
            layout_separator@,
            Found { segment: hit.segment, warnings: seq![], from_plugin: hit.from_plugin },
        ),
        ids_resolved(old(line).items@) ==> ids_resolved(final(line).items@),
{
    let ghost before = warnings@;
    assert(before + seq![] =~= before);
    let ghost was_seen = texts(line.seen@);
    assert(slots_of(line.items@).len() == line.items@.len());
    line.seen.push(id.to_owned());
    assert(texts(line.seen@) =~= was_seen.push(id@));
    if hit.from_plugin {
        shelf.take(id);
    }
    match hit.segment {
        Some(segment) => {
            if ends_in_segment(&line.items) && !line.merge {
                push_slot(&mut line.items, LineItem::Separator(layout_separator.clone()));
            }
            push_slot(
                &mut line.items,
                LineItem::Segment {
                    id: resolve_segment_id(id),
                    segment,
                    fuses_left: line.group,
                },
            );
            line.merge = entry.merge();
            line.group = entry.group();
        },
        None => {
            if holds(&shelf.used, id) {
                let mut message = "plugin '".to_owned();
                message.append(id);
                message.append(
                    "' was rendered on an earlier line; v0.1 supports each plugin on at most one line per render — skipping",
                );
                warnings.push(message);
            } else {
                let mut message = "unknown segment id '".to_owned();
                message.append(id);
                message.append("' — skipping");
                warnings.push(message);
            }
        },
    }
}

/// Build one line out of `entries`: segments with a separator between two,
/// but where a segment merges. An id counts once per line; one that is not
/// known is reported and left out.
pub fn build_one_line<
    F: Fn(&str, Option<&Table<Value>>) -> HostSegment,
    G: Fn(&str, Table<ScriptValue>) -> SegmentBox,
>(
    entries: &Vec<&LineEntry>,
    config: Option<&Config>,
    host: &F,
    make_plugin: &G,
    shelf: &mut PluginShelf,
    layout_separator: &Separator,
    warnings: &mut Messages,
) -> (r: Vec<LineItem>)
    requires
        forall|i: &str, e: Option<&Table<Value>>| #[trigger] call_requires(host, (i, e)),
        forall|i: &str, m: Table<ScriptValue>| #[trigger] call_requires(make_plugin, (i, m)),
    ensures
        exists|found: Seq<Found>| #[trigger]
            line_made(
                *host,
                *make_plugin,
                owned(config),
                empty_line(texts(old(shelf).left@), texts(old(shelf).used@), old(warnings)@),
                entries_of(entries@),
                layout_separator@,
                found,
                slots_of(r@),
                texts(final(shelf).left@),
                texts(final(shelf).used@),
                final(warnings)@,
            ),
        ids_resolved(r@),
{
    let icons = resolve_icon_mode(config);
    let mut line = Line { items: Vec::new(), seen: Vec::new(), merge: false, group: false };
    let ghost start = empty_line(texts(shelf.left@), texts(shelf.used@), warnings@);
    let ghost all = entries_of(entries@);
    let ghost sep = layout_separator@;
    let ghost mut found: Seq<Found> = seq![];
    proof {
        assert(slots_of(line.items@) =~= seq![]);
        assert(texts(line.seen@) =~= seq![]);
        assert(all.take(0) =~= seq![]);
    }
    let mut i: usize = 0;
    while i < entries.len()
        invariant
            i <= entries@.len(),
            icons == icon_mode_of(owned(config)),
            all == entries_of(entries@),
            sep == layout_separator@,
            found.len() == i,
            ids_resolved(line.items@),
            forall|i: &str, e: Option<&Table<Value>>| #[trigger] call_requires(host, (i, e)),
            forall|i: &str, m: Table<ScriptValue>| #[trigger] call_requires(make_plugin, (i, m)),
            state_of(line, *shelf, warnings@) == line_built(start, all.take(i as int), sep, found),
            forall|k: int|
                0 <= k < i ==> {
                    let at = line_built(start, #[trigger] all.take(k), sep, found);
                    looks_for(at, all[k]) matches Some(id) ==> may_find(
                        *host,
                        *make_plugin,
                        owned(config),
                        at.left,
                        id,
                        found[k],
                    )
                },
        decreases entries@.len() - i,
    {
        let entry = entries[i];
        let ghost state = line_built(start, all.take(i as int), sep, found);
        let ghost found_before = found;
        let ghost mut here = Found { segment: None, warnings: seq![], from_plugin: false };
        assert(all[i as int] == *entry);
        check_fields(entry, warnings);
        let ghost checked = LineState {
            warnings: state.warnings + field_warnings(*entry),
            ..state
        };
        assert(state_of(line, *shelf, warnings@) == checked);
        match entry.kind() {
            None => {
                warnings.push(
                    "[line].segments inline-table entry is missing `type`; skipping".to_owned(),
                );
            },
            Some(kind) => {
                if same_text(kind, "separator") {
                    assert(separator_added(
                        state_of(line, *shelf, warnings@),
                        *entry,
                        sep,
                    ) == separator_added(checked, *entry, sep));
                    add_separator(&mut line, entry, layout_separator, warnings);
                } else if holds(&line.seen, kind) {
                    let mut message = "segment '".to_owned();
                    message.append(kind);
                    message.append("' listed more than once; keeping first occurrence");
                    warnings.push(message);
                } else {
                    let hit = look_up(
                        kind,
                        config,
                        host,
                        make_plugin,
                        icons,
                        &shelf.left,
                        warnings,
                    );
                    proof {
                        here = choose|f: Found|
                            {
                                &&& #[trigger] may_find(
                                    *host,
                                    *make_plugin,
                                    owned(config),
                                    state.left,
                                    kind@,
                                    f,
                                )
                                &&& hit.segment == f.segment
                                &&& hit.from_plugin == f.from_plugin
                                &&& warnings@ == checked.warnings + f.warnings
                            };
                        lemma_found_warnings(checked, *entry, kind@, sep, here);
                    }
                    add_segment(
                        &mut line,
                        entry,
                        kind,
                        hit,
                        shelf,
                        layout_separator,
                        warnings,
                    );
                }
            },
        }
        proof {
            found = found.push(here);
            assert(all.take(i + 1).drop_last() =~= all.take(i as int));
            assert forall|k: int| 0 <= k <= i implies line_built(
                start,
                #[trigger] all.take(k),
                sep,
                found_before,
            ) == line_built(start, all.take(k), sep, found) by {
                lemma_line_built_prefix(start, all.take(k), sep, found_before, found);
            }
            assert forall|k: int| 0 <= k < i + 1 implies {
                let at = line_built(start, #[trigger] all.take(k), sep, found);
                looks_for(at, all[k]) matches Some(id) ==> may_find(
                    *host,
                    *make_plugin,
                    owned(config),
                    at.left,
                    id,
                    found[k],
                )
            } by {
                assert(line_built(start, all.take(k), sep, found_before) == line_built(
                    start,
                    all.take(k),
                    sep,
                    found,
                ));
            }
        }
        i += 1;
    }
    assert(all.take(i as int) =~= all);
    assert(line_made(
        *host,
        *make_plugin,
        owned(config),
        start,
        all,
        sep,
        found,
        slots_of(line.items@),
        texts(shelf.left@),
        texts(shelf.used@),
        warnings@,
    ));
    line.items
}

proof fn lemma_found_warnings(
    state: LineState,
    entry: LineEntry,
    id: Seq<char>,
    sep: SeparatorView,
    found: Found,
)
    ensures
        segment_added(
            LineState { warnings: state.warnings + found.warnings, ..state },
            entry,
            id,
            sep,
            Found { warnings: seq![], ..found },
        ) == segment_added(state, entry, id, sep, found),
{
    assert((state.warnings + found.warnings) + seq![] =~= state.warnings + found.warnings);
}

proof fn lemma_line_built_prefix(
    start: LineState,
    entries: Seq<LineEntry>,
    sep: SeparatorView,
    a: Seq<Found>,
    b: Seq<Found>,
)
    requires
        entries.len() <= a.len(),
        entries.len() <= b.len(),
        forall|i: int| 0 <= i < entries.len() ==> #[trigger] a[i] == b[i],
    ensures
        line_built(start, entries, sep, a) == line_built(start, entries, sep, b),
    decreases entries.len(),
{
    if entries.len() > 0 {
        lemma_line_built_prefix(start, entries.drop_last(), sep, a, b);
        assert(a[entries.len() - 1] == b[entries.len() - 1]);
    }
}

fn default_entries() -> (r: Vec<LineEntry>)
    ensures
        is_default_entries(r@),
{
    let ids = DEFAULT_SEGMENT_IDS;
    let mut out: Vec<LineEntry> = Vec::new();
    let mut i: usize = 0;
    while i < 6
        invariant
            i <= 6,
            ids == DEFAULT_SEGMENT_IDS,
            out@.len() == i,
            forall|k: int|
                0 <= k < i ==> ((#[trigger] out@[k]) matches LineEntry::Id(id) && id@
                    == DEFAULT_SEGMENT_IDS[k]@),
        decreases 6 - i,
    {
        out.push(LineEntry::Id(ids[i].to_owned()));
        i += 1;
    }
    out
}

fn refer<'a>(entries: &'a Vec<LineEntry>) -> (r: Vec<&'a LineEntry>)
    ensures
        entries_of(r@) == entries@,
{
    let mut out: Vec<&'a LineEntry> = Vec::new();
    let mut i: usize = 0;
    while i < entries.len()
        invariant
            i <= entries@.len(),
            out@.len() == i,
            forall|k: int| 0 <= k < i ==> *(#[trigger] out@[k]) == entries@[k],
        decreases entries@.len() - i,
    {
        out.push(&entries[i]);
        i += 1;
    }
    assert(entries_of(out@) =~= entries@);
    out
}

/// The entries of the one line; a `[line]` that lists none is reported.
pub fn single_line_entries<'a>(
    line: Option<&'a LineConfig>,
    defaults: &'a Vec<LineEntry>,
    warnings: &mut Messages,
) -> (r: Vec<&'a LineEntry>)
    ensures
        entries_of(r@) == single_line(owned(line), defaults@),
        final(warnings)@ == old(warnings)@ + empty_segments_warnings(owned(line)),
{
    let ghost before = warnings@;
    assert(before + seq![] =~= before);
    match line {
        Some(l) => {
            if l.segments.len() == 0 {
                warnings.push("[line].segments is empty; no segments will render".to_owned());
                assert(warnings@ =~= before + empty_segments_warnings(owned(line)));
            }
            refer(&l.segments)
        },
        None => refer(defaults),
    }
}

/// The entries of the line that the single-line interface shows.
fn choose_line<'a>(
    config: Option<&'a Config>,
    defaults: &'a Vec<LineEntry>,
    warnings: &mut Messages,
) -> (r: Vec<&'a LineEntry>)
    ensures
        entries_of(r@) == shown_line(owned(config), defaults@).value,
        final(warnings)@ == old(warnings)@ + shown_line(owned(config), defaults@).warnings,
{
    let ghost before = warnings@;
    let line = match config {
        Some(c) => match &c.line {
            Some(l) => Some(l),
            None => None,
        },
        None => None,
    };
    let multi: bool = match config {
        Some(c) => c.layout == LayoutMode::MultiLine,
        None => false,
    };
    assert(owned(line) == line_of(owned(config)));
    if multi {
        let ghost numbered = numbered_lines(owned(line));
        match validated_numbered_lines(line, warnings) {
            Some(lines) => {
                let mut lines = lines;
                let ghost views = line_views(lines@);
                let first = lines.remove(0);
                assert(entry_lists(views)[0] == entries_of(first.entries@)) by {
                    assert(views[0] == first@);
                }
                warnings.push(
                    "layout = \"multi-line\" passed to build_segments (the single-line API); rendering line 1 only. Call build_lines to render every [line.N] sub-table.".to_owned(),
                );
                assert(warnings@ =~= before + shown_line(owned(config), defaults@).warnings);
                return first.entries;
            },
            None => {
                proof {
                    lemma_reports(
                        before,
                        numbered.warnings,
                        empty_segments_warnings(owned(line)),
                    );
                }
            },
        }
    }
    single_line_entries(line, defaults, warnings)
}

/// Build the line of a configuration. Without a configuration, or without
/// `[line]` in it, that is the default line. In multi-line mode it is the
/// first numbered line, with a report.
///
/// `host` builds the built-in segments that this library does not;
/// `plugins` are the ids of the plugins, and `make_plugin` builds one.
pub fn build_segments<
    F: Fn(&str, Option<&Table<Value>>) -> HostSegment,
    G: Fn(&str, Table<ScriptValue>) -> SegmentBox,
>(
    config: Option<&Config>,
    plugins: Vec<String>,
    host: &F,
    make_plugin: &G,
    warnings: &mut Messages,
) -> (r: Vec<LineItem>)
    requires
        forall|i: &str, e: Option<&Table<Value>>| #[trigger] call_requires(host, (i, e)),
        forall|i: &str, m: Table<ScriptValue>| #[trigger] call_requires(make_plugin, (i, m)),
    ensures
        exists|defaults: Seq<LineEntry>, found: Seq<Found>| #[trigger]
            single_made(
                *host,
                *make_plugin,
                owned(config),
                texts(plugins@),
                old(warnings)@,
                defaults,
                found,
                slots_of(r@),
                final(warnings)@,
            ),
        ids_resolved(r@),
{
    let ghost before = warnings@;
    let defaults = default_entries();
    let entries = choose_line(config, &defaults, warnings);
    let separator = resolve_layout_separator(config, warnings);
    let mut shelf = PluginShelf::new(plugins);
    assert(texts(shelf.used@) =~= seq![]);
    let ghost start = empty_line(texts(plugins@), seq![], warnings@);
    let items = build_one_line(
        &entries,
        config,
        host,
        make_plugin,
        &mut shelf,
        &separator,
        warnings,
    );
    proof {
        let found = choose|found: Seq<Found>| #[trigger]
            line_made(
                *host,
                *make_plugin,
                owned(config),
                start,
                entries_of(entries@),
                separator@,
                found,
                slots_of(items@),
                texts(shelf.left@),
                texts(shelf.used@),
                warnings@,
            );
        assert(single_made(
            *host,
            *make_plugin,
            owned(config),
            texts(plugins@),
            before,
            defaults@,
            found,
            slots_of(items@),
            warnings@,
        ));
    }
    items
}

/// The entries of `lists`.
pub open spec fn lists_of(lists: Seq<Vec<&LineEntry>>) -> Seq<Seq<LineEntry>> {
    Seq::new(lists.len(), |i: int| entries_of(lists[i]@))
}

fn unnumbered<'a>(lines: Vec<ParsedLine<'a>>) -> (r: Vec<Vec<&'a LineEntry>>)
    ensures
        lists_of(r@) == entry_lists(line_views(lines@)),
{
    let ghost views = line_views(lines@);
    let mut rest = lines;
    let mut out: Vec<Vec<&'a LineEntry>> = Vec::new();
    let ghost total = lines@.len();
    assert(line_views(rest@).skip(0) =~= views);
    while rest.len() > 0
        invariant
            views.len() == total,
            rest@.len() + out@.len() == total,
            line_views(rest@) == views.skip(out@.len() as int),
            forall|k: int|
                0 <= k < out@.len() ==> entries_of((#[trigger] out@[k])@) == views[k].entries,
        decreases rest@.len(),
    {
        let ghost before = line_views(rest@);
        let ghost n = out@.len() as int;
        let line = rest.remove(0);
        assert(before[0] == line@);
        assert(views.skip(n)[0] == views[n]);
        out.push(line.entries);
        assert(line_views(rest@) =~= before.skip(1));
        assert(views.skip(n).skip(1) =~= views.skip(n + 1));
    }
    assert(lists_of(out@) =~= entry_lists(views));
    out
}

fn single_list<'a>(
    line: Option<&'a LineConfig>,
    defaults: &'a Vec<LineEntry>,
    warnings: &mut Messages,
) -> (r: Vec<Vec<&'a LineEntry>>)
    ensures
        lists_of(r@) == seq![single_line(owned(line), defaults@)],
        final(warnings)@ == old(warnings)@ + empty_segments_warnings(owned(line)),
{
    let entries = single_line_entries(line, defaults, warnings);
    let mut out: Vec<Vec<&'a LineEntry>> = Vec::new();
    out.push(entries);
    assert(lists_of(out@) =~= seq![single_line(owned(line), defaults@)]);
    out
}

/// The entries of each line of a configuration.
fn choose_lines<'a>(
    config: Option<&'a Config>,
    defaults: &'a Vec<LineEntry>,
    warnings: &mut Messages,
) -> (r: Vec<Vec<&'a LineEntry>>)
    ensures
        lists_of(r@) == line_lists(owned(config), defaults@).value,
        final(warnings)@ == old(warnings)@ + line_lists(owned(config), defaults@).warnings,
{
    let ghost before = warnings@;
    let line = match config {
        Some(c) => match &c.line {
            Some(l) => Some(l),
            None => None,
        },
        None => None,
    };
    let multi: bool = match config {
        Some(c) => c.layout == LayoutMode::MultiLine,
        None => false,
    };
    let numbered_present: bool = match line {
        Some(l) => l.numbered.len() > 0,
        None => false,
    };
    let segments_present: bool = match line {
        Some(l) => l.segments.len() > 0,
        None => false,
    };
    assert(owned(line) == line_of(owned(config)));
    let ghost numbered = numbered_lines(owned(line)).warnings;
    let ghost empty = empty_segments_warnings(owned(line));
    if multi {
        match validated_numbered_lines(line, warnings) {
            Some(lines) => unnumbered(lines),
            None => {
                let message =
                    "layout = \"multi-line\" but no usable [line.N] sub-tables; falling back to single-line using [line].segments".to_owned();
                warnings.push(message);
                proof {
                    assert(warnings@ =~= before + numbered.push(message@));
                    lemma_reports(before, numbered.push(message@), empty);
                }
                single_list(line, defaults, warnings)
            },
        }
    } else if numbered_present && !segments_present {
        match validated_numbered_lines(line, warnings) {
            Some(lines) => {
                let message =
                    "[line.N] sub-tables present but no top-level `layout` field; treating as multi-line. Add `layout = \"multi-line\"` to silence this warning.".to_owned();
                warnings.push(message);
                assert(warnings@ =~= before + numbered.push(message@));
                unnumbered(lines)
            },
            None => {
                let message =
                    "[line.N] sub-tables present but none are usable, and [line].segments is empty; nothing will render".to_owned();
                warnings.push(message);
                proof {
                    assert(warnings@ =~= before + numbered.push(message@));
                    lemma_reports(before, numbered.push(message@), empty);
                }
                single_list(line, defaults, warnings)
            },
        }
    } else {
        if numbered_present {
            let message =
                "layout is single-line but [line.N] sub-tables are present; ignoring numbered tables and rendering [line].segments".to_owned();
            warnings.push(message);
            proof {
                assert(warnings@ =~= before + seq![message@]);
                lemma_reports(before, seq![message@], empty);
            }
        }
        single_list(line, defaults, warnings)
    }
}

/// The slots of each line.
pub open spec fn lines_slots(lines: Seq<Vec<LineItem>>) -> Seq<Seq<SlotView>> {
    Seq::new(lines.len(), |i: int| slots_of(lines[i]@))
}

/// Build every line of a configuration: one in single-line mode, in
/// multi-line mode one for each numbered table, in the order of the numbers.
/// A plugin renders on one line only; on a later line it is reported as used
/// up.
pub fn build_lines<
    F: Fn(&str, Option<&Table<Value>>) -> HostSegment,
    G: Fn(&str, Table<ScriptValue>) -> SegmentBox,
>(
    config: Option<&Config>,
    plugins: Vec<String>,
    host: &F,
    make_plugin: &G,
    warnings: &mut Messages,
) -> (r: Vec<Vec<LineItem>>)
    requires
        forall|i: &str, e: Option<&Table<Value>>| #[trigger] call_requires(host, (i, e)),
        forall|i: &str, m: Table<ScriptValue>| #[trigger] call_requires(make_plugin, (i, m)),
    ensures
        exists|defaults: Seq<LineEntry>, found: Seq<Seq<Found>>| #[trigger]
            lines_made(
                *host,
                *make_plugin,
                owned(config),
                texts(plugins@),
                old(warnings)@,
                defaults,
                found,
                lines_slots(r@),
                final(warnings)@,
            ),
        forall|i: int| 0 <= i < r@.len() ==> ids_resolved((#[trigger] r@[i])@),
{
    let ghost before = warnings@;
    let defaults = default_entries();
    let lists = choose_lines(config, &defaults, warnings);
    let separator = resolve_layout_separator(config, warnings);
    let mut shelf = PluginShelf::new(plugins);
    assert(texts(shelf.used@) =~= seq![]);
    let ghost all = lists_of(lists@);
    let ghost ids = texts(plugins@);
    let ghost reports = warnings@;
    let ghost sep = separator@;
    let ghost mut found: Seq<Seq<Found>> = seq![];
    let mut out: Vec<Vec<LineItem>> = Vec::new();
    proof {
        assert(lines_slots(out@) =~= seq![]);
        assert(all.take(0) =~= seq![]);
    }
    let mut i: usize = 0;
    while i < lists.len()
        invariant
            i <= lists@.len(),
            all == lists_of(lists@),
            sep == separator@,
            found.len() == i,
            forall|k: int| 0 <= k < out@.len() ==> ids_resolved((#[trigger] out@[k])@),
            forall|i: &str, e: Option<&Table<Value>>| #[trigger] call_requires(host, (i, e)),
            forall|i: &str, m: Table<ScriptValue>| #[trigger] call_requires(make_plugin, (i, m)),
            lines_slots(out@) == lines_built(
                ids,
                seq![],
                reports,
                all.take(i as int),
                sep,
                found,
            ).lines,
            texts(shelf.left@) == lines_built(
                ids,
                seq![],
                reports,
                all.take(i as int),
                sep,
                found,
            ).left,
            texts(shelf.used@) == lines_built(
                ids,
                seq![],
                reports,
                all.take(i as int),
                sep,
                found,
            ).used,
            warnings@ == lines_built(ids, seq![], reports, all.take(i as int), sep, found).warnings,
            forall|k: int|
                0 <= k < i ==> {
                    let at = lines_built(ids, seq![], reports, #[trigger] all.take(k), sep, found);
                    may_find_all(
                        *host,
                        *make_plugin,
                        owned(config),
                        empty_line(at.left, at.used, at.warnings),
                        all[k],
                        sep,
                        found[k],
                    )
                },
        decreases lists@.len() - i,
    {
        let ghost state = lines_built(ids, seq![], reports, all.take(i as int), sep, found);
        let ghost found_before = found;
        let ghost start = empty_line(texts(shelf.left@), texts(shelf.used@), warnings@);
        let items = build_one_line(
            &lists[i],
            config,
            host,
            make_plugin,
            &mut shelf,
            &separator,
            warnings,
        );
        let ghost here = choose|found: Seq<Found>| #[trigger]
            line_made(
                *host,
                *make_plugin,
                owned(config),
                start,
                entries_of(lists@[i as int]@),
                sep,
                found,
                slots_of(items@),
                texts(shelf.left@),
                texts(shelf.used@),
                warnings@,
            );
        let ghost was = lines_slots(out@);
        out.push(items);
        proof {
            assert(lines_slots(out@) =~= was.push(slots_of(items@)));
            found = found.push(here);
            assert(all.take(i + 1).drop_last() =~= all.take(i as int));
            assert(all.take(i + 1).last() == entries_of(lists@[i as int]@));
            assert forall|k: int| 0 <= k <= i implies lines_built(
                ids,
                seq![],
                reports,
                #[trigger] all.take(k),
                sep,
                found_before,
            ) == lines_built(ids, seq![], reports, all.take(k), sep, found) by {
                lemma_lines_built_prefix(
                    ids,
                    seq![],
                    reports,
                    all.take(k),
                    sep,
                    found_before,
                    found,
                );
            }
            assert forall|k: int| 0 <= k < i + 1 implies {
                let at = lines_built(ids, seq![], reports, #[trigger] all.take(k), sep, found);
                may_find_all(
                    *host,
                    *make_plugin,
                    owned(config),
                    empty_line(at.left, at.used, at.warnings),
                    all[k],
                    sep,
                    found[k],
                )
            } by {
                assert(lines_built(ids, seq![], reports, all.take(k), sep, found_before)
                    == lines_built(ids, seq![], reports, all.take(k), sep, found));
            }
        }
        i += 1;
    }
    assert(all.take(i as int) =~= all);
    assert(lines_made(
        *host,
        *make_plugin,
        owned(config),
        ids,
        before,
        defaults@,
        found,
        lines_slots(out@),
        warnings@,
    ));
    out
}

proof fn lemma_lines_built_prefix(
    left: Seq<Seq<char>>,
    used: Seq<Seq<char>>,
    warnings: Seq<Seq<char>>,
    lists: Seq<Seq<LineEntry>>,
    sep: SeparatorView,
    a: Seq<Seq<Found>>,
    b: Seq<Seq<Found>>,
)
    requires
        lists.len() <= a.len(),
        lists.len() <= b.len(),
        forall|i: int| 0 <= i < lists.len() ==> #[trigger] a[i] == b[i],
    ensures
        lines_built(left, used, warnings, lists, sep, a) == lines_built(
            left,
            used,
            warnings,
            lists,
            sep,
            b,
        ),
    decreases lists.len(),
{
    if lists.len() > 0 {
        lemma_lines_built_prefix(left, used, warnings, lists.drop_last(), sep, a, b);
        assert(a[lists.len() - 1] == b[lists.len() - 1]);
    }
}

/// Build the default line, without any configuration.
#[must_use]
pub fn build_default_segments<F: Fn(&str, Option<&Table<Value>>) -> HostSegment>(host: &F) -> (r:
    Vec<LineItem>)
    requires
        forall|i: &str, e: Option<&Table<Value>>| #[trigger] call_requires(host, (i, e)),
    ensures
        exists|segments: Seq<Option<SegmentBox>>| #[trigger]
            may_be_default(*host, segments) && slots_of(r@) == default_slots(segments),
        ids_resolved(r@),
{
    let ids = DEFAULT_SEGMENT_IDS;
    let mut ignored = Messages::new();
    let mut items: Vec<LineItem> = Vec::new();
    let ghost mut segments: Seq<Option<SegmentBox>> = seq![];
    assert(slots_of(items@) =~= seq![]);
    let mut i: usize = 0;
    while i < 6
        invariant
            i <= 6,
            ids == DEFAULT_SEGMENT_IDS,
            forall|i: &str, e: Option<&Table<Value>>| #[trigger] call_requires(host, (i, e)),
            segments.len() == i,
            forall|k: int|
                0 <= k < i ==> #[trigger] may_build_bare(
                    *host,
                    DEFAULT_SEGMENT_IDS[k],
                    segments[k],
                ),
            slots_of(items@) == default_slots(segments),
            ids_resolved(items@),
        decreases 6 - i,
    {
        proof {
            default_line_is_built_in(i as int);
        }
        let built = built_in_by_id(ids[i], None, host, &mut ignored);
        let ghost before = segments;
        assert(slots_of(items@).len() == items@.len());
        proof {
            segments = segments.push(built);
            assert(segments.drop_last() =~= before);
            assert(may_build_bare(*host, DEFAULT_SEGMENT_IDS[i as int], built));
            assert forall|k: int| 0 <= k < i + 1 implies #[trigger] may_build_bare(
                *host,
                DEFAULT_SEGMENT_IDS[k],
                segments[k],
            ) by {
                if k < i {
                    assert(may_build_bare(*host, DEFAULT_SEGMENT_IDS[k], before[k]));
                }
            }
        }
        match built {
            Some(segment) => {
                if items.len() > 0 {
                    push_slot(&mut items, LineItem::Separator(Separator::Space));
                }
                push_slot(
                    &mut items,
                    LineItem::Segment { id: Cow::Borrowed(ids[i]), segment, fuses_left: false },
                );
            },
            None => {},
        }
        i += 1;
    }
    assert(may_be_default(*host, segments));
    items
}

} // verus!
