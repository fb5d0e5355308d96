//! What holds of the settings of a segment and the keys that they are read
//! from.

use vstd::prelude::*;

use crate::cells::columns;
use crate::diagnostics::Messages;
use crate::segments::context_bar::{self, ContextBarSegment};
use crate::segments::extras::{flag_warnings, kind_warning, table_warnings, text_warnings};
use crate::segments::git_branch::{self, has_placeholder, GitBranchSegment};
use crate::segments::progress_bar::FillMode;
use crate::text::decimal;
use crate::text_laws::{lemma_mentions, mentions};
use crate::value::{lookup, Entry, Table, Value};

verus! {

/// The integer from `lo` to `hi` under `key`, where there is one.
pub open spec fn number_under(
    entries: Seq<Entry<Value>>,
    key: Seq<char>,
    lo: int,
    hi: int,
) -> Option<int> {
    match lookup(entries, key) {
        Some(Value::Integer(n)) => if lo <= n && n <= hi {
            Some(n as int)
        } else {
            None
        },
        _ => None,
    }
}

/// The text under `key`, where there is one.
pub open spec fn text_under(entries: Seq<Entry<Value>>, key: Seq<char>) -> Option<Seq<char>> {
    match lookup(entries, key) {
        Some(Value::String(s)) => Some(s@),
        _ => None,
    }
}

/// The entries of the table under `key`; none where there is no table.
pub open spec fn table_under(entries: Seq<Entry<Value>>, key: Seq<char>) -> Seq<Entry<Value>> {
    match lookup(entries, key) {
        Some(Value::Table(t)) => t@,
        _ => seq![],
    }
}

/// Is `false` set under `key`?
pub open spec fn says_no(entries: Seq<Entry<Value>>, key: Seq<char>) -> bool {
    lookup(entries, key) == Some(Value::Boolean(false))
}

/// `value`, or `default` in its place.
pub open spec fn or<T>(value: Option<T>, default: T) -> T {
    match value {
        Some(v) => v,
        None => default,
    }
}

/// The glyph of one cell under `key` of `characters`, where there is one.
pub open spec fn glyph_under(entries: Seq<Entry<Value>>, key: Seq<char>) -> Option<Seq<char>> {
    match text_under(table_under(entries, "characters"@), key) {
        Some(s) => if columns(s) == 1 {
            Some(s)
        } else {
            None
        },
        None => None,
    }
}

/// Is what stands under `key` of `thresholds` a percentage, if anything?
pub open spec fn good_threshold(entries: Seq<Entry<Value>>, key: Seq<char>) -> bool {
    let table = table_under(entries, "thresholds"@);
    lookup(table, key) is None || number_under(table, key, 0, 100) is Some
}

/// Every setting of the bar is read under its own key, and is the default
/// where that holds nothing of use. The thresholds stand or fall together.
pub open spec fn bar_is_set_by(cfg: context_bar::ConfigView, entries: Seq<Entry<Value>>) -> bool {
    let thresholds = table_under(entries, "thresholds"@);
    let green = or(number_under(thresholds, "green"@, 0, 100), 50);
    let yellow = or(number_under(thresholds, "yellow"@, 0, 100), 80);
    let fill = text_under(entries, "fill"@);
    let braille = fill == Some("braille"@);
    &&& cfg.width == or(number_under(entries, "cells"@, 1, 65535), 10)
    &&& cfg.brackets <==> !says_no(entries, "brackets"@)
    &&& cfg.percentage <==> !says_no(entries, "percentage"@)
    &&& cfg.dim_empty <==> !says_no(entries, "dim_empty"@)
    &&& cfg.fill == FillMode::Whole <==> fill == Some("whole"@)
    &&& cfg.fill == FillMode::Eighth <==> fill == Some("eighth"@)
    &&& cfg.fill == FillMode::Braille <==> braille
    &&& good_threshold(entries, "green"@) && good_threshold(entries, "yellow"@) && green
        <= yellow ==> cfg.green == green && cfg.yellow == yellow
    &&& !good_threshold(entries, "green"@) || !good_threshold(entries, "yellow"@) || green
        > yellow ==> cfg.green == 50 && cfg.yellow == 80
    &&& cfg.chars.full == or(
        glyph_under(entries, "full"@),
        if braille {
            seq!['⣿']
        } else {
            seq!['█']
        },
    )
    &&& cfg.chars.empty == or(
        glyph_under(entries, "empty"@),
        if braille {
            seq!['\u{2800}']
        } else {
            seq!['░']
        },
    )
    &&& cfg.chars.partial == or(glyph_under(entries, "partial"@), seq!['▓'])
    &&& cfg.chars.open == or(glyph_under(entries, "open"@), seq!['['])
    &&& cfg.chars.close == or(glyph_under(entries, "close"@), seq![']'])
}

/// The settings of the bar go by their keys.
pub proof fn bar_settings_go_by_their_keys(entries: Seq<Entry<Value>>)
    ensures
        bar_is_set_by(context_bar::settings(entries).value, entries),
{
    reveal_strlit("half");
    reveal_strlit("whole");
    reveal_strlit("eighth");
    reveal_strlit("braille");
    assert("half"@.len() == 4);
    assert("whole"@.len() == 5);
    assert("eighth"@.len() == 6);
    assert("braille"@.len() == 7);
    reveal_strlit("⣿");
    reveal_strlit("█");
    reveal_strlit("⠀");
    reveal_strlit("░");
    reveal_strlit("▓");
    reveal_strlit("[");
    reveal_strlit("]");
    assert("⣿"@ =~= seq!['⣿']);
    assert("█"@ =~= seq!['█']);
    assert("⠀"@ =~= seq!['\u{2800}']);
    assert("░"@ =~= seq!['░']);
    assert("▓"@ =~= seq!['▓']);
    assert("["@ =~= seq!['[']);
    assert("]"@ =~= seq![']']);
}

/// What stands under a key of the bar and is of no use is reported; without
/// any such key nothing is.
pub proof fn bar_reports_what_it_ignores(entries: Seq<Entry<Value>>)
    ensures
        ({
            let reports = context_bar::settings(entries).warnings.len();
            &&& lookup(entries, "cells"@) is Some && number_under(entries, "cells"@, 1, 65535)
                is None ==> reports > 0
            &&& lookup(entries, "brackets"@) matches Some(v) ==> !(v is Boolean) ==> reports > 0
            &&& lookup(entries, "percentage"@) matches Some(v) ==> !(v is Boolean) ==> reports > 0
            &&& lookup(entries, "dim_empty"@) matches Some(v) ==> !(v is Boolean) ==> reports > 0
            &&& lookup(entries, "fill"@) matches Some(v) ==> !(v is String) ==> reports > 0
            &&& lookup(entries, "thresholds"@) matches Some(v) ==> !(v is Table) ==> reports > 0
            &&& lookup(entries, "characters"@) matches Some(v) ==> !(v is Table) ==> reports > 0
            &&& !good_threshold(entries, "green"@) ==> reports > 0
            &&& !good_threshold(entries, "yellow"@) ==> reports > 0
            &&& lookup(table_under(entries, "characters"@), "full"@) is Some && glyph_under(
                entries,
                "full"@,
            ) is None ==> reports > 0
            &&& lookup(table_under(entries, "characters"@), "partial"@) is Some && glyph_under(
                entries,
                "partial"@,
            ) is None ==> reports > 0
            &&& lookup(table_under(entries, "characters"@), "empty"@) is Some && glyph_under(
                entries,
                "empty"@,
            ) is None ==> reports > 0
            &&& lookup(table_under(entries, "characters"@), "open"@) is Some && glyph_under(
                entries,
                "open"@,
            ) is None ==> reports > 0
            &&& lookup(table_under(entries, "characters"@), "close"@) is Some && glyph_under(
                entries,
                "close"@,
            ) is None ==> reports > 0
            &&& entries.len() == 0 ==> reports == 0
        }),
{
}

/// Thresholds that cross are told with both, the green one first; a glyph that
/// is not one cell is told by its key and its cells.
pub proof fn bar_tells_what_was_written(
    entries: Seq<Entry<Value>>,
    table: Seq<Entry<Value>>,
    key: Seq<char>,
    current: Seq<char>,
)
    ensures
        ({
            let thresholds = table_under(entries, "thresholds"@);
            let green = or(number_under(thresholds, "green"@, 0, 100), 50);
            let yellow = or(number_under(thresholds, "yellow"@, 0, 100), 80);
            let told = context_bar::thresholds_setting(entries).warnings;
            lookup(entries, "thresholds"@) is Some && good_threshold(entries, "green"@)
                && good_threshold(entries, "yellow"@) && green > yellow ==> told.len() > 0
                && mentions(
                told[0],
                "green ("@ + decimal(green as nat) + ") must be <= yellow ("@ + decimal(
                    yellow as nat,
                ) + ")"@,
            )
        }),
        text_under(table, key) matches Some(s) ==> (columns(s) != 1 ==> {
            let told = context_bar::glyph_field(table, key, current).warnings;
            &&& told.len() == 1
            &&& mentions(told[0], key)
            &&& mentions(told[0], decimal(columns(s)))
        }),
{
    reveal_strlit("segments.context_bar.thresholds: green (");
    reveal_strlit("segments.context_bar.thresholds: ");
    reveal_strlit("green (");
    reveal_strlit("); ignoring both");
    reveal_strlit(")");
    reveal_strlit("; ignoring both");
    let a = "segments.context_bar.thresholds: "@;
    let b = "; ignoring both"@;
    assert("segments.context_bar.thresholds: green ("@ =~= a + "green ("@);
    assert("); ignoring both"@ =~= ")"@ + b);
    let thresholds = table_under(entries, "thresholds"@);
    let green = or(number_under(thresholds, "green"@, 0, 100), 50);
    let yellow = or(number_under(thresholds, "yellow"@, 0, 100), 80);
    let both = "green ("@ + decimal(green as nat) + ") must be <= yellow ("@ + decimal(yellow as nat)
        + ")"@;
    lemma_mentions(a, both, b);
    let told = context_bar::thresholds_setting(entries).warnings;
    if lookup(entries, "thresholds"@) is Some && good_threshold(entries, "green"@)
        && good_threshold(entries, "yellow"@) && green > yellow {
        if lookup(entries, "thresholds"@)->0 is Table {
            assert(told[0] =~= a + both + b);
        }
    }
    match text_under(table, key) {
        Some(s) => {
            if columns(s) != 1 {
                let start = "segments.context_bar.characters."@;
                let middle = ": expected a single-cell string, got "@;
                let end = " cell(s); ignoring"@;
                let line = context_bar::glyph_field(table, key, current).warnings[0];
                lemma_mentions(start, key, middle + decimal(columns(s)) + end);
                lemma_mentions(start + key + middle, decimal(columns(s)), end);
                assert(line =~= start + key + (middle + decimal(columns(s)) + end));
                assert(line =~= (start + key + middle) + decimal(columns(s)) + end);
            }
        },
        None => {},
    }
}

/// The template under `key` of `ahead_behind`, where it has its placeholder.
pub open spec fn template_under(entries: Seq<Entry<Value>>, key: Seq<char>) -> Option<Seq<char>> {
    match text_under(table_under(entries, "ahead_behind"@), key) {
        Some(s) => if has_placeholder(s) {
            Some(s)
        } else {
            None
        },
        None => None,
    }
}

/// Every setting of the branch is read under its own key, and is the default
/// where that holds nothing of use.
pub open spec fn branch_is_set_by(cfg: git_branch::ConfigView, entries: Seq<Entry<Value>>) -> bool {
    let dirty = table_under(entries, "dirty"@);
    let ab = table_under(entries, "ahead_behind"@);
    &&& cfg.label == or(text_under(entries, "label"@), seq![])
    &&& cfg.max_length == or(number_under(entries, "max_length"@, 1, 65535), 40)
    &&& cfg.truncation_marker == or(text_under(entries, "truncation_marker"@), seq!['…'])
    &&& cfg.short_sha_length == or(number_under(entries, "short_sha_length"@, 1, 40), 7)
    &&& cfg.dirty_enabled <==> !says_no(dirty, "enabled"@) && text_under(dirty, "format"@)
        != Some("hidden"@)
    &&& cfg.dirty_indicator == or(text_under(dirty, "indicator"@), seq!['*'])
    &&& cfg.clean_indicator == or(text_under(dirty, "clean_indicator"@), seq![])
    &&& cfg.dirty_hide_below_cells == or(
        number_under(dirty, "hide_below_cells"@, 0, 65535),
        0,
    )
    &&& cfg.ahead_behind.enabled <==> !says_no(ab, "enabled"@)
    &&& cfg.ahead_behind.hide_when_zero <==> !says_no(ab, "hide_when_zero"@)
    &&& cfg.ahead_behind.hide_when_no_upstream <==> !says_no(ab, "hide_when_no_upstream"@)
    &&& cfg.ahead_behind.hide_below_cells == or(
        number_under(ab, "hide_below_cells"@, 0, 65535),
        0,
    )
    &&& cfg.ahead_behind.ahead_format == or(
        template_under(entries, "ahead_format"@),
        seq!['↑', '{', 'n', '}'],
    )
    &&& cfg.ahead_behind.behind_format == or(
        template_under(entries, "behind_format"@),
        seq!['↓', '{', 'n', '}'],
    )
}

/// The settings of the branch go by their keys.
pub proof fn branch_settings_go_by_their_keys(entries: Seq<Entry<Value>>)
    ensures
        branch_is_set_by(git_branch::settings(entries).value, entries),
{
    reveal_strlit("");
    reveal_strlit("…");
    reveal_strlit("*");
    reveal_strlit("↑{n}");
    reveal_strlit("↓{n}");
    assert(""@ =~= seq![]);
    assert("…"@ =~= seq!['…']);
    assert("*"@ =~= seq!['*']);
    assert("↑{n}"@ =~= seq!['↑', '{', 'n', '}']);
    assert("↓{n}"@ =~= seq!['↓', '{', 'n', '}']);
}

/// What stands under a key of the branch and is of no use is reported; without
/// any such key nothing is.
pub proof fn branch_reports_what_it_ignores(entries: Seq<Entry<Value>>)
    ensures
        ({
            let reports = git_branch::settings(entries).warnings.len();
            let dirty = table_under(entries, "dirty"@);
            let ab = table_under(entries, "ahead_behind"@);
            &&& lookup(entries, "label"@) matches Some(v) ==> !(v is String) ==> reports > 0
            &&& lookup(entries, "truncation_marker"@) matches Some(v) ==> !(v is String) ==> reports
                > 0
            &&& lookup(entries, "max_length"@) is Some && number_under(
                entries,
                "max_length"@,
                1,
                65535,
            ) is None ==> reports > 0
            &&& lookup(entries, "short_sha_length"@) is Some && number_under(
                entries,
                "short_sha_length"@,
                1,
                40,
            ) is None ==> reports > 0
            &&& lookup(entries, "dirty"@) matches Some(v) ==> !(v is Table) ==> reports > 0
            &&& lookup(entries, "ahead_behind"@) matches Some(v) ==> !(v is Table) ==> reports > 0
            &&& lookup(dirty, "enabled"@) matches Some(v) ==> !(v is Boolean) ==> reports > 0
            &&& lookup(dirty, "format"@) is Some && text_under(dirty, "format"@) != Some(
                "indicator"@,
            ) && text_under(dirty, "format"@) != Some("hidden"@) ==> reports > 0
            &&& lookup(dirty, "indicator"@) matches Some(v) ==> !(v is String) ==> reports > 0
            &&& lookup(dirty, "clean_indicator"@) matches Some(v) ==> !(v is String) ==> reports > 0
            &&& lookup(dirty, "hide_below_cells"@) is Some && number_under(
                dirty,
                "hide_below_cells"@,
                0,
                65535,
            ) is None ==> reports > 0
            &&& lookup(ab, "enabled"@) matches Some(v) ==> !(v is Boolean) ==> reports > 0
            &&& lookup(ab, "hide_when_zero"@) matches Some(v) ==> !(v is Boolean) ==> reports > 0
            &&& lookup(ab, "hide_when_no_upstream"@) matches Some(v) ==> !(v is Boolean) ==> reports
                > 0
            &&& lookup(ab, "ahead_format"@) is Some && template_under(entries, "ahead_format"@)
                is None ==> reports > 0
            &&& lookup(ab, "behind_format"@) is Some && template_under(entries, "behind_format"@)
                is None ==> reports > 0
            &&& lookup(ab, "hide_below_cells"@) is Some && number_under(
                ab,
                "hide_below_cells"@,
                0,
                65535,
            ) is None ==> reports > 0
            &&& entries.len() == 0 ==> reports == 0
        }),
{
}

/// What is wrong under a key is told by segment and key, in one report each;
/// a key that is not there, and one that holds what it should, is told nothing
/// of.
pub proof fn wrong_kinds_are_told_by_their_key(
    entries: Seq<Entry<Value>>,
    key: Seq<char>,
    id: Seq<char>,
)
    ensures
        ({
            let place = seq!['s', 'e', 'g', 'm', 'e', 'n', 't', 's', '.'] + id + seq!['.'] + key
                + seq![':'];
            let there = lookup(entries, key);
            &&& flag_warnings(entries, key, id).len() == (if there is Some && !(there->0
                is Boolean) {
                1nat
            } else {
                0nat
            })
            &&& text_warnings(entries, key, id).len() == (if there is Some && !(there->0
                is String) {
                1nat
            } else {
                0nat
            })
            &&& table_warnings(entries, key, id).len() == (if there is Some && !(there->0
                is Table) {
                1nat
            } else {
                0nat
            })
            &&& forall|i: int|
                0 <= i < flag_warnings(entries, key, id).len() ==> place.is_prefix_of(
                    #[trigger] flag_warnings(entries, key, id)[i],
                )
            &&& forall|i: int|
                0 <= i < text_warnings(entries, key, id).len() ==> place.is_prefix_of(
                    #[trigger] text_warnings(entries, key, id)[i],
                )
            &&& forall|i: int|
                0 <= i < table_warnings(entries, key, id).len() ==> place.is_prefix_of(
                    #[trigger] table_warnings(entries, key, id)[i],
                )
        }),
{
    lemma_place(id, key, "bool"@);
    lemma_place(id, key, "string"@);
    lemma_place(id, key, "table"@);
}

proof fn lemma_place(id: Seq<char>, key: Seq<char>, expected: Seq<char>)
    ensures
        (seq!['s', 'e', 'g', 'm', 'e', 'n', 't', 's', '.'] + id + seq!['.'] + key
            + seq![':']).is_prefix_of(kind_warning(id, key, expected)),
{
    reveal_strlit("segments.");
    reveal_strlit(".");
    reveal_strlit(": expected ");
    let place = seq!['s', 'e', 'g', 'm', 'e', 'n', 't', 's', '.'] + id + seq!['.'] + key
        + seq![':'];
    let message = kind_warning(id, key, expected);
    assert("segments."@ =~= seq!['s', 'e', 'g', 'm', 'e', 'n', 't', 's', '.']);
    assert("."@ =~= seq!['.']);
    assert(message.take(place.len() as int) =~= place);
}

/// The settings without any configuration are those of a configuration without
/// any keys.
pub proof fn defaults_are_those_without_keys()
    ensures
        bar_is_set_by(context_bar::default_config(), seq![]),
        branch_is_set_by(git_branch::default_config(), seq![]),
        context_bar::default_config() == context_bar::settings(seq![]).value,
        git_branch::default_config() == git_branch::settings(seq![]).value,
{
    bar_settings_go_by_their_keys(seq![]);
    branch_settings_go_by_their_keys(seq![]);
}

/// A bar and a branch that are read from a configuration go by its keys, and
/// every report is added behind the earlier ones.
pub proof fn segments_are_read_by_their_keys(
    extras: &Table<Value>,
    bar: ContextBarSegment,
    branch: GitBranchSegment,
)
    ensures
        forall|told: &mut Messages| #[trigger]
            call_ensures(ContextBarSegment::from_extras, (extras, told), bar) ==> {
                &&& bar_is_set_by(bar.cfg@, extras@)
                &&& (*told)@.is_prefix_of(final(told)@)
                &&& extras@.len() == 0 ==> final(told)@ == (*told)@
            },
        forall|told: &mut Messages| #[trigger]
            call_ensures(GitBranchSegment::from_extras, (extras, told), branch) ==> {
                &&& branch_is_set_by(branch.cfg@, extras@)
                &&& (*told)@.is_prefix_of(final(told)@)
                &&& extras@.len() == 0 ==> final(told)@ == (*told)@
            },
{
    bar_settings_go_by_their_keys(extras@);
    branch_settings_go_by_their_keys(extras@);
    bar_reports_what_it_ignores(extras@);
    branch_reports_what_it_ignores(extras@);
    assert forall|told: &mut Messages| #[trigger]
        call_ensures(ContextBarSegment::from_extras, (extras, told), bar) implies (
    *told)@.is_prefix_of(final(told)@) && (extras@.len() == 0 ==> final(told)@ == (*told)@) by {
        assert(final(told)@.take((*told)@.len() as int) =~= (*told)@);
        assert(extras@.len() == 0 ==> final(told)@ =~= (*told)@);
    }
    assert forall|told: &mut Messages| #[trigger]
        call_ensures(GitBranchSegment::from_extras, (extras, told), branch) implies (
    *told)@.is_prefix_of(final(told)@) && (extras@.len() == 0 ==> final(told)@ == (*told)@) by {
        assert(final(told)@.take((*told)@.len() as int) =~= (*told)@);
        assert(extras@.len() == 0 ==> final(told)@ =~= (*told)@);
    }
}

} // verus!
