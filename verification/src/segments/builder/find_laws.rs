//! What holds of the segment that is found for an id.

use vstd::prelude::*;

use crate::config::{Config, IconMode, LineEntry, SegmentOverride};
use crate::data_context::DataContext;
use crate::plugins::laws::script_finds_every_key;
use crate::plugins::script::{mirrors, ScriptValue};
use crate::segments::builder::catalog::{
    answers_as, built_in_ids_resolve, is_built_in, is_complete, is_context_bar, is_git_branch,
    keys_of, may_build, HostSegment, BUILT_IN_SEGMENT_IDS,
};
use crate::segments::builder::entry_laws::is_separator;
use crate::segments::builder::lines::{icon_mode_of, owned};
use crate::segments::builder::model::{
    configured, extras_of, field_warnings, may_find, may_follow, plugin_sees, segment_added,
    settings_for, without, Found, LineState,
};
use crate::segments::builder::overrides::{
    lays, overlaid, overlay, style_setting, width_setting, OverlayView,
};
use crate::segments::context_bar::{self, ContextBarSegment};
use crate::segments::context_window::ContextWindowSegment;
use crate::segments::git_branch::{self, GitBranchSegment};
use crate::segments::override_laws::{
    icon_or_none, lies_over, user_configuration_lies_over_the_render,
};
use crate::segments::segment::{
    intent_over, Outcome, OverriddenSegment, RenderContext, Segment, SegmentBox,
};
use crate::segments::separator::{SegmentDefaults, SeparatorView};
use crate::segments::settings_laws::{
    bar_is_set_by, bar_settings_go_by_their_keys, branch_is_set_by,
    branch_settings_go_by_their_keys,
};
use crate::value::{lookup, Entry, Table, Value};

verus! {

/// A built-in id gives its built-in segment, never a plugin of that name. Any
/// other id gives a plugin of that name where one is left, and else nothing.
pub proof fn plugins_stand_behind_built_ins<
    F: Fn(&str, Option<&Table<Value>>) -> HostSegment,
    G: Fn(&str, Table<ScriptValue>) -> SegmentBox,
>(
    host: F,
    make_plugin: G,
    config: Option<Config>,
    left: Seq<Seq<char>>,
    id: Seq<char>,
    found: Found,
)
    requires
        is_complete(host),
        may_find(host, make_plugin, config, left, id, found),
    ensures
        is_built_in(id) ==> !found.from_plugin && found.segment is Some,
        !is_built_in(id) && left.contains(id) ==> found.from_plugin && found.segment is Some,
        !is_built_in(id) && !left.contains(id) ==> {
            &&& !found.from_plugin
            &&& found.segment is None
            &&& found.warnings.len() == 0
        },
{
    let settings = settings_for(config, id);
    let (name, extras, raw, raw_warnings) = choose|
        name: &str,
        extras: Option<&Table<Value>>,
        raw: Option<SegmentBox>,
        raw_warnings: Seq<Seq<char>>,
    |
        {
            &&& name@ == id
            &&& owned(extras) == extras_of(settings)
            &&& #[trigger] may_build(host, name, extras, raw, raw_warnings)
            &&& may_follow(
                make_plugin,
                settings,
                icon_mode_of(config),
                left,
                name,
                raw,
                raw_warnings,
                found,
            )
        };
    built_in_ids_resolve(host, name, extras, raw, raw_warnings);
    assert(BUILT_IN_SEGMENT_IDS[1]@ == "context_window"@);
    assert(BUILT_IN_SEGMENT_IDS[2]@ == "context_bar"@);
    assert(BUILT_IN_SEGMENT_IDS[9]@ == "git_branch"@);
}

/// The bar and the branch of a line are set by their own keys of the
/// configuration, whatever the host has.
pub proof fn own_segments_are_set_by_their_keys<
    F: Fn(&str, Option<&Table<Value>>) -> HostSegment,
>(
    host: F,
    id: &str,
    extras: Option<&Table<Value>>,
    segment: SegmentBox,
    warnings: Seq<Seq<char>>,
)
    requires
        may_build(host, id, extras, Some(segment), warnings),
    ensures
        id@ == "context_bar"@ ==> exists|s: ContextBarSegment| #[trigger]
            answers_as(segment, s) && bar_is_set_by(s.cfg@, keys_of(extras)),
        id@ == "git_branch"@ ==> exists|s: GitBranchSegment| #[trigger]
            answers_as(segment, s) && branch_is_set_by(s.cfg@, keys_of(extras)),
        id@ == "context_window"@ ==> answers_as(segment, ContextWindowSegment),
{
    reveal_strlit("context_bar");
    reveal_strlit("git_branch");
    reveal_strlit("context_window");
    assert("context_bar"@.len() == 11);
    assert("git_branch"@.len() == 10);
    assert("context_window"@.len() == 14);
    if id@ == "context_bar"@ {
        lemma_bar_is_set(segment, keys_of(extras));
    } else if id@ == "git_branch"@ {
        lemma_branch_is_set(segment, keys_of(extras));
    }
}

proof fn lemma_bar_is_set(b: SegmentBox, keys: Seq<Entry<Value>>)
    requires
        is_context_bar(b, keys),
    ensures
        exists|s: ContextBarSegment| #[trigger]
            answers_as(b, s) && bar_is_set_by(s.cfg@, keys),
{
    let s = choose|s: ContextBarSegment|
        s.cfg@ == context_bar::settings(keys).value && #[trigger] answers_as(b, s);
    bar_settings_go_by_their_keys(keys);
    assert(answers_as(b, s));
}

proof fn lemma_branch_is_set(b: SegmentBox, keys: Seq<Entry<Value>>)
    requires
        is_git_branch(b, keys),
    ensures
        exists|s: GitBranchSegment| #[trigger]
            answers_as(b, s) && branch_is_set_by(s.cfg@, keys),
{
    let s = choose|s: GitBranchSegment|
        s.cfg@ == git_branch::settings(keys).value && #[trigger] answers_as(b, s);
    branch_settings_go_by_their_keys(keys);
    assert(answers_as(b, s));
}

/// A plugin finds its own keys of the configuration, each with what it holds,
/// and no others; without settings it finds none.
pub proof fn plugin_finds_its_own_keys(
    settings: Option<SegmentOverride>,
    map: Table<ScriptValue>,
    key: Seq<char>,
)
    requires
        plugin_sees(settings, map),
    ensures
        settings is None ==> lookup(map@, key) is None,
        settings matches Some(s) ==> {
            &&& lookup(map@, key) is None <==> lookup(s.extra@, key) is None
            &&& lookup(s.extra@, key) matches Some(v) ==> mirrors(v, lookup(map@, key)->0)
        },
{
    match settings {
        Some(s) => {
            script_finds_every_key(s.extra@, map@, key);
        },
        None => {},
    }
}

/// The intent of a configured segment is the user's where the user wrote one,
/// and that of the segment below else: the priority, and each side of the width
/// bounds as they were merged. Icon and truncation stay those of the segment
/// below.
pub proof fn user_intent_reaches_the_line(
    id: Seq<char>,
    settings: Option<SegmentOverride>,
    icons: IconMode,
    inner: SegmentBox,
    earlier: Seq<Seq<char>>,
    found: Found,
    d: SegmentDefaults,
) -> (below: (SegmentDefaults, SegmentDefaults))
    requires
        configured(id, settings, icons, inner, earlier, found),
        found.segment->0.segment.declares(d),
    ensures
        inner.segment.declares(below.0),
        inner.segment.declares(below.1),
        settings is None ==> d.priority == below.1.priority && d.width == below.1.width,
        settings matches Some(s) ==> {
            let bounds = width_setting(id, below.0.width, s.width).value;
            &&& s.priority matches Some(p) ==> d.priority == p
            &&& s.priority is None ==> d.priority == below.1.priority
            &&& bounds matches Some(b) ==> (d.width matches Some(w) && w.lo() == b.0 && w.hi()
                == b.1)
            &&& bounds is None ==> d.width == below.1.width
        },
        d.icon == below.1.icon,
        d.truncatable == below.1.truncatable,
{
    let asked = lemma_configured(id, settings, icons, inner, earlier, found);
    let o = overlay(id, asked, settings, icons).value;
    let below = lemma_intent(inner, o, found.segment->0, d);
    (asked, below)
}

proof fn lemma_intent(
    inner: SegmentBox,
    o: Option<OverlayView>,
    b: SegmentBox,
    d: SegmentDefaults,
) -> (below: SegmentDefaults)
    requires
        overlaid(inner, o, b),
        b.segment.declares(d),
    ensures
        inner.segment.declares(below),
        o is None ==> d == below,
        o matches Some(v) ==> {
            &&& v.priority matches Some(p) ==> d.priority == p
            &&& v.priority is None ==> d.priority == below.priority
            &&& v.width matches Some(w) ==> (d.width matches Some(bounds) && bounds.lo() == w.0
                && bounds.hi() == w.1)
            &&& v.width is None ==> d.width == below.width
        },
        d.icon == below.icon,
        d.truncatable == below.truncatable,
{
    match o {
        None => d,
        Some(v) => {
            let s = lemma_declares(inner, v, b, d);
            choose|below: SegmentDefaults| #[trigger]
                s.below().segment.declares(below) && d == intent_over(
                    below,
                    s.priority_set(),
                    s.width_set(),
                )
        },
    }
}

proof fn lemma_declares(inner: SegmentBox, v: OverlayView, b: SegmentBox, d: SegmentDefaults) -> (s:
    OverriddenSegment)
    requires
        overlaid(inner, Some(v), b),
        b.segment.declares(d),
    ensures
        lays(s, inner, v),
        s.declares(d),
{
    choose|s: OverriddenSegment| lays(s, inner, v) && #[trigger] answers_as(b, s)
}

proof fn lemma_renders(
    inner: SegmentBox,
    v: OverlayView,
    b: SegmentBox,
    ctx: DataContext,
    rc: RenderContext,
    out: Outcome,
) -> (s: OverriddenSegment)
    requires
        overlaid(inner, Some(v), b),
        b.segment.renders(ctx, rc, out),
    ensures
        lays(s, inner, v),
        s.renders(ctx, rc, out),
{
    choose|s: OverriddenSegment| lays(s, inner, v) && #[trigger] answers_as(b, s)
}

proof fn lemma_look(
    inner: SegmentBox,
    o: Option<OverlayView>,
    b: SegmentBox,
    ctx: DataContext,
    rc: RenderContext,
    out: Outcome,
) -> (below: Outcome)
    requires
        overlaid(inner, o, b),
        b.segment.renders(ctx, rc, out),
    ensures
        inner.segment.renders(ctx, rc, below),
        o is None ==> out == below,
        o matches Some(v) ==> match below {
            Ok(Some(r)) => out matches Ok(Some(top)) && lies_over(
                top,
                r,
                v.style,
                icon_or_none(v.icon),
            ),
            _ => out == below,
        },
{
    match o {
        None => out,
        Some(v) => {
            let s = lemma_renders(inner, v, b, ctx, rc, out);
            user_configuration_lies_over_the_render(s, ctx, rc, out)
        },
    }
}

proof fn lemma_configured(
    id: Seq<char>,
    settings: Option<SegmentOverride>,
    icons: IconMode,
    inner: SegmentBox,
    earlier: Seq<Seq<char>>,
    found: Found,
) -> (d: SegmentDefaults)
    requires
        configured(id, settings, icons, inner, earlier, found),
    ensures
        inner.segment.declares(d),
        overlaid(
            inner,
            overlay(id, d, settings, icons).value,
            found.segment->0,
        ),
        found.warnings == earlier + overlay(id, d, settings, icons).warnings,
{
    choose|d: SegmentDefaults|
        {
            &&& #[trigger] inner.segment.declares(d)
            &&& overlaid(
                inner,
                overlay(id, d, settings, icons).value,
                found.segment->0,
            )
            &&& found.warnings == earlier + overlay(id, d, settings, icons).warnings
        }
}

/// What a configured segment shows is what the segment below renders, under the
/// user's style where there is one that can be read, and behind the icon: the
/// user's, or the segment's own where icons are drawn.
pub proof fn user_look_reaches_the_line(
    id: Seq<char>,
    settings: Option<SegmentOverride>,
    icons: IconMode,
    inner: SegmentBox,
    earlier: Seq<Seq<char>>,
    found: Found,
    ctx: DataContext,
    rc: RenderContext,
    out: Outcome,
) -> (below: (SegmentDefaults, Outcome))
    requires
        configured(id, settings, icons, inner, earlier, found),
        found.segment->0.segment.renders(ctx, rc, out),
    ensures
        inner.segment.declares(below.0),
        inner.segment.renders(ctx, rc, below.1),
        match below.1 {
            Ok(Some(r)) => out matches Ok(Some(top)) && ({
                let style = match settings {
                    Some(s) => style_setting(id, s.style).value,
                    None => None,
                };
                let own = if icons == IconMode::NerdFont && below.0.icon is Some {
                    below.0.icon->0@
                } else {
                    seq![]
                };
                let icon = if settings is Some && settings->0.icon is Some {
                    settings->0.icon->0@
                } else {
                    own
                };
                lies_over(top, r, style, icon)
            }),
            _ => out == below.1,
        },
{
    let asked = lemma_configured(id, settings, icons, inner, earlier, found);
    let o = overlay(id, asked, settings, icons).value;
    let below = lemma_look(inner, o, found.segment->0, ctx, rc, out);
    (asked, below)
}

proof fn lemma_without(ids: Seq<Seq<char>>, id: Seq<char>, other: Seq<char>)
    ensures
        without(ids, id).contains(other) <==> ids.contains(other) && other != id,
    decreases ids.len(),
{
    reveal(Seq::filter);
    if ids.len() > 0 {
        let front = ids.drop_last();
        let last = ids.last();
        lemma_without(front, id, other);
        assert(ids =~= front.push(last));
        assert(ids.contains(other) <==> front.contains(other) || other == last) by {
            if front.contains(other) {
                assert(ids[front.index_of(other)] == other);
            }
            if other == last {
                assert(ids[ids.len() - 1] == other);
            }
            if ids.contains(other) && other != last {
                let i = ids.index_of(other);
                assert(front[i] == other);
            }
        }
        let kept = without(front, id);
        if last != id {
            assert(without(ids, id) =~= kept.push(last));
            assert(kept.push(last).contains(other) <==> kept.contains(other) || other == last) by {
                if kept.contains(other) {
                    assert(kept.push(last)[kept.index_of(other)] == other);
                }
                if other == last {
                    assert(kept.push(last)[kept.len() as int] == other);
                }
                if kept.push(last).contains(other) && other != last {
                    let i = kept.push(last).index_of(other);
                    assert(kept[i] == other);
                }
            }
        } else {
            assert(without(ids, id) =~= kept);
        }
    } else {
        assert(without(ids, id) =~= ids);
    }
}

/// A plugin that a line takes is left for no other, and every other plugin
/// stays; where the line takes none, all stay.
pub proof fn a_plugin_is_taken_alone(
    state: LineState,
    entry: LineEntry,
    id: Seq<char>,
    sep: SeparatorView,
    found: Found,
    other: Seq<char>,
)
    ensures
        ({
            let after = segment_added(state, entry, id, sep, found);
            &&& found.from_plugin ==> {
                &&& !after.left.contains(id)
                &&& other != id ==> (after.left.contains(other) <==> state.left.contains(other))
                &&& after.used == state.used.push(id)
            }
            &&& !found.from_plugin ==> after.left == state.left && after.used == state.used
        }),
{
    lemma_without(state.left, id, id);
    lemma_without(state.left, id, other);
}

/// A separator that is written as a table is told of `merge` and `group`, each
/// by itself, and a segment of `character`; nothing else is said of fields.
pub proof fn misplaced_fields_are_told(entry: LineEntry)
    ensures
        ({
            let told = field_warnings(entry).len();
            match entry {
                LineEntry::Id(_) => told == 0,
                LineEntry::Item(item) => if is_separator(entry) {
                    told == (if item.merge is Some {
                        1int
                    } else {
                        0
                    }) + (if item.group is Some {
                        1int
                    } else {
                        0
                    })
                } else {
                    told == (if item.character is Some {
                        1int
                    } else {
                        0
                    })
                },
            }
        }),
{
}

} // verus!
