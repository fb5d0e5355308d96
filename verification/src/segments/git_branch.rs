//! Git branch segment: the branch, a mark for uncommitted changes, and how far
//! the branch and its upstream have moved apart. Hidden outside of a
//! repository and in a bare one.

use vstd::prelude::*;
use vstd::string::StringExecFns;

use crate::cells::{columns, display_width, grapheme_clusters, graphemes, joined, str_texts};
use crate::data_context::{DataContext, DataDep, GitContext, Head, RepoKind};
use crate::diagnostics::{lemma_reports, texts, Messages};
use crate::segments::context_window::text_in_role;
use crate::segments::extras::{
    flag_at, flag_warnings, parse_bool, parse_table, parse_text, table_warnings, text_warnings, Setting,
};
use crate::segments::rendered::{RenderedSegment, RenderedView};
use crate::segments::segment::{Outcome, RenderContext, RenderResult, Segment};
use crate::segments::separator::SegmentDefaults;
use crate::text::{
    chars_of, debug_quoted, decimal, decimal_string, quoted, same_text, string_of,
};
use crate::theme::Role;
use crate::value::{lookup, table_at, text_at, Entry, Table, Value};

verus! {

// --- Templates ----------------------------------------------------------

/// Does `{n}` stand at `i` in `s`?
pub open spec fn placeholder_at(s: Seq<char>, i: int) -> bool {
    &&& 0 <= i <= s.len() - 3
    &&& s[i] == '{'
    &&& s[i + 1] == 'n'
    &&& s[i + 2] == '}'
}

/// Does `{n}` stand anywhere in `s`?
pub open spec fn has_placeholder(s: Seq<char>) -> bool {
    exists|i: int| placeholder_at(s, i)
}

/// `s` with every `{n}`, from the left, replaced by `count`.
pub open spec fn filled_in(s: Seq<char>, count: Seq<char>) -> Seq<char>
    decreases s.len(),
{
    if s.len() == 0 {
        s
    } else if placeholder_at(s, 0) {
        count + filled_in(s.skip(3), count)
    } else {
        seq![s[0]] + filled_in(s.skip(1), count)
    }
}

/// A template for a count. It holds the placeholder `{n}`, so that no template
/// can lose its count.
#[derive(Debug, PartialEq, Eq)]
pub struct FormatTemplate {
    text: String,
}

impl View for FormatTemplate {
    type V = Seq<char>;

    closed spec fn view(&self) -> Seq<char> {
        self.text@
    }
}

impl FormatTemplate {
    #[verifier::type_invariant]
    closed spec fn inv(self) -> bool {
        has_placeholder(self.text@)
    }

    /// The template `s`; `None` where the placeholder is missing.
    pub fn parse(s: &str) -> (r: Option<FormatTemplate>)
        ensures
            r is Some <==> has_placeholder(s@),
            r matches Some(t) ==> t@ == s@,
    {
        let chars = chars_of(s);
        let mut i: usize = 0;
        while i < chars.len()
            invariant
                i <= chars@.len(),
                chars@ == s@,
                forall|k: int| 0 <= k < i ==> !placeholder_at(s@, k),
            decreases chars@.len() - i,
        {
            if chars.len() - i >= 3 && chars[i] == '{' && chars[i + 1] == 'n' && chars[i + 2]
                == '}' {
                assert(placeholder_at(s@, i as int));
                return Some(FormatTemplate { text: s.to_owned() });
            }
            i += 1;
        }
        None
    }

    /// The template with `n` in place of its placeholders.
    pub fn render(&self, n: u32) -> (r: String)
        ensures
            r@ == filled_in(self@, decimal(n as nat)),
            has_placeholder(self@),
    {
        proof {
            use_type_invariant(self);
        }
        let count = decimal_string(n as u64);
        let chars = chars_of(self.text.as_str());
        let mut out = String::new();
        let mut i: usize = 0;
        assert(self@.skip(0) =~= self@);
        assert(out@ + filled_in(self@, count@) =~= filled_in(self@, count@));
        while i < chars.len()
            invariant
                i <= chars@.len(),
                chars@ == self@,
                filled_in(self@, count@) == out@ + filled_in(self@.skip(i as int), count@),
            decreases chars@.len() - i,
        {
            let ghost rest = self@.skip(i as int);
            if chars.len() - i >= 3 && chars[i] == '{' && chars[i + 1] == 'n' && chars[i + 2]
                == '}' {
                assert(placeholder_at(rest, 0));
                assert(rest.skip(3) =~= self@.skip(i + 3));
                let ghost before = out@;
                out.append(count.as_str());
                assert(out@ + filled_in(self@.skip(i + 3), count@) =~= before + (count@
                    + filled_in(self@.skip(i + 3), count@)));
                i += 3;
            } else {
                assert(!placeholder_at(rest, 0));
                assert(rest.skip(1) =~= self@.skip(i + 1));
                let ghost before = out@;
                out.push(chars[i]);
                assert(out@ + filled_in(self@.skip(i + 1), count@) =~= before + (seq![rest[0]]
                    + filled_in(self@.skip(i + 1), count@)));
                i += 1;
            }
        }
        assert(out@ + filled_in(self@.skip(i as int), count@) =~= out@);
        out
    }
}

/// Wherever a template has its placeholder, what it renders to holds the
/// count.
pub proof fn template_shows_its_count(s: Seq<char>, count: Seq<char>)
    requires
        has_placeholder(s),
    ensures
        exists|i: int|
            0 <= i <= filled_in(s, count).len() - count.len() && #[trigger] filled_in(
                s,
                count,
            ).subrange(i, i + count.len()) == count,
    decreases s.len(),
{
    let at = choose|i: int| placeholder_at(s, i);
    let out = filled_in(s, count);
    if placeholder_at(s, 0) {
        assert(out.subrange(0, 0int + count.len()) =~= count);
    } else {
        let rest = s.skip(1);
        assert(placeholder_at(rest, at - 1));
        template_shows_its_count(rest, count);
        let inner = filled_in(rest, count);
        let i = choose|i: int|
            0 <= i <= inner.len() - count.len() && #[trigger] inner.subrange(i, i + count.len())
                == count;
        assert(out.subrange(i + 1, i + 1 + count.len()) =~= inner.subrange(i, i + count.len()));
    }
}

// --- Settings -----------------------------------------------------------

/// What `AheadBehindConfig` says.
pub struct AheadBehindView {
    pub enabled: bool,
    pub ahead_format: Seq<char>,
    pub behind_format: Seq<char>,
    pub hide_when_zero: bool,
    pub hide_when_no_upstream: bool,
    pub hide_below_cells: u16,
}

/// How a branch and its upstream are compared.
#[derive(Debug, PartialEq, Eq)]
#[non_exhaustive]
pub struct AheadBehindConfig {
    pub enabled: bool,
    pub ahead_format: FormatTemplate,
    pub behind_format: FormatTemplate,
    pub hide_when_zero: bool,
    pub hide_when_no_upstream: bool,
    /// Hide the mark in terminals narrower than this; 0 never hides it.
    pub hide_below_cells: u16,
}

impl View for AheadBehindConfig {
    type V = AheadBehindView;

    open spec fn view(&self) -> AheadBehindView {
        AheadBehindView {
            enabled: self.enabled,
            ahead_format: self.ahead_format@,
            behind_format: self.behind_format@,
            hide_when_zero: self.hide_when_zero,
            hide_when_no_upstream: self.hide_when_no_upstream,
            hide_below_cells: self.hide_below_cells,
        }
    }
}

/// What `Config` says.
pub struct ConfigView {
    pub label: Seq<char>,
    pub max_length: u16,
    pub truncation_marker: Seq<char>,
    pub short_sha_length: u8,
    pub dirty_enabled: bool,
    pub dirty_indicator: Seq<char>,
    pub clean_indicator: Seq<char>,
    pub dirty_hide_below_cells: u16,
    pub ahead_behind: AheadBehindView,
}

/// The settings of the segment.
#[derive(Debug, PartialEq, Eq)]
pub struct Config {
    pub label: String,
    pub max_length: u16,
    pub truncation_marker: String,
    pub short_sha_length: u8,
    pub dirty_enabled: bool,
    pub dirty_indicator: String,
    pub clean_indicator: String,
    /// Hide the mark in terminals narrower than this; 0 never hides it.
    pub dirty_hide_below_cells: u16,
    pub ahead_behind: AheadBehindConfig,
}

impl View for Config {
    type V = ConfigView;

    open spec fn view(&self) -> ConfigView {
        ConfigView {
            label: self.label@,
            max_length: self.max_length,
            truncation_marker: self.truncation_marker@,
            short_sha_length: self.short_sha_length,
            dirty_enabled: self.dirty_enabled,
            dirty_indicator: self.dirty_indicator@,
            clean_indicator: self.clean_indicator@,
            dirty_hide_below_cells: self.dirty_hide_below_cells,
            ahead_behind: self.ahead_behind@,
        }
    }
}

/// The comparison without any configuration.
pub open spec fn default_ahead_behind() -> AheadBehindView {
    AheadBehindView {
        enabled: true,
        ahead_format: "↑{n}"@,
        behind_format: "↓{n}"@,
        hide_when_zero: true,
        hide_when_no_upstream: true,
        hide_below_cells: 0,
    }
}

/// The settings without any configuration.
pub open spec fn default_config() -> ConfigView {
    ConfigView {
        label: ""@,
        max_length: 40,
        truncation_marker: "…"@,
        short_sha_length: 7,
        dirty_enabled: true,
        dirty_indicator: "*"@,
        clean_indicator: ""@,
        dirty_hide_below_cells: 0,
        ahead_behind: default_ahead_behind(),
    }
}

impl Default for AheadBehindConfig {
    fn default() -> (r: AheadBehindConfig)
        ensures
            r@ == default_ahead_behind(),
    {
        proof {
            reveal_strlit("↑{n}");
            reveal_strlit("↓{n}");
            assert(placeholder_at("↑{n}"@, 1));
            assert(placeholder_at("↓{n}"@, 1));
        }
        AheadBehindConfig {
            enabled: true,
            ahead_format: FormatTemplate::parse("↑{n}").unwrap(),
            behind_format: FormatTemplate::parse("↓{n}").unwrap(),
            hide_when_zero: true,
            hide_when_no_upstream: true,
            hide_below_cells: 0,
        }
    }
}

impl Default for Config {
    fn default() -> (r: Config)
        ensures
            r@ == default_config(),
    {
        Config {
            label: "".to_owned(),
            max_length: 40,
            truncation_marker: "…".to_owned(),
            short_sha_length: 7,
            dirty_enabled: true,
            dirty_indicator: "*".to_owned(),
            clean_indicator: "".to_owned(),
            dirty_hide_below_cells: 0,
            ahead_behind: AheadBehindConfig::default(),
        }
    }
}

/// The text under `key`, or `default` in its place.
pub open spec fn text_or(entries: Seq<Entry<Value>>, key: Seq<char>, default: Seq<char>) -> Seq<char> {
    match text_at(entries, key) {
        Some(s) => s,
        None => default,
    }
}

/// The flag under `key`, or `default` in its place.
pub open spec fn flag_or(entries: Seq<Entry<Value>>, key: Seq<char>, default: bool) -> bool {
    match flag_at(entries, key) {
        Some(b) => b,
        None => default,
    }
}

/// `max_length`: at least one.
pub open spec fn max_length_setting(entries: Seq<Entry<Value>>) -> Setting<u16> {
    match lookup(entries, "max_length"@) {
        None => Setting { value: 40, warnings: seq![] },
        Some(v) => match v.integer_within(1, 65535) {
            Some(n) => Setting { value: n as u16, warnings: seq![] },
            None => Setting {
                value: 40,
                warnings: seq!["segments.git_branch.max_length: expected 1..=65535; ignoring"@],
            },
        },
    }
}

/// `short_sha_length`: from 1 to 40.
pub open spec fn short_sha_setting(entries: Seq<Entry<Value>>) -> Setting<u8> {
    match lookup(entries, "short_sha_length"@) {
        None => Setting { value: 7, warnings: seq![] },
        Some(v) => match v.integer_within(1, 40) {
            Some(n) => Setting { value: n as u8, warnings: seq![] },
            None => Setting {
                value: 7,
                warnings: seq!["segments.git_branch.short_sha_length: expected 1..=40; ignoring"@],
            },
        },
    }
}

/// `hide_below_cells` of `[segments.<scope>]`.
pub open spec fn hide_below_setting(entries: Seq<Entry<Value>>, scope: Seq<char>) -> Setting<
    Option<u16>,
> {
    match lookup(entries, "hide_below_cells"@) {
        None => Setting { value: None, warnings: seq![] },
        Some(v) => match v.integer_within(0, 65535) {
            Some(n) => Setting { value: Some(n as u16), warnings: seq![] },
            None => Setting {
                value: None,
                warnings: seq![
                    "segments."@ + scope + ".hide_below_cells: expected 0..=65535; ignoring"@,
                ],
            },
        },
    }
}

/// The report on `dirty.format`.
pub open spec fn dirty_format_warnings(table: Seq<Entry<Value>>) -> Seq<Seq<char>> {
    match text_at(table, "format"@) {
        None => if lookup(table, "format"@) is None {
            seq![]
        } else {
            seq![dirty_format_warning()]
        },
        Some(s) => if s == "indicator"@ || s == "hidden"@ {
            seq![]
        } else if s == "counts"@ {
            seq![
                "segments.git_branch.dirty.format=\"counts\" is not yet implemented; falling back to \"indicator\" (follow-up: lsm-kjj counts mode)"@,
            ]
        } else {
            seq![dirty_format_warning()]
        },
    }
}

/// The report on a format that there is not.
pub open spec fn dirty_format_warning() -> Seq<char> {
    "segments.git_branch.dirty.format: expected \"indicator\"|\"counts\"|\"hidden\"; ignoring"@
}

/// The settings of the mark for uncommitted changes.
pub struct DirtyView {
    pub enabled: bool,
    pub indicator: Seq<char>,
    pub clean_indicator: Seq<char>,
    pub hide_below_cells: u16,
}

/// `dirty`: the mark for uncommitted changes. The format `hidden` turns it
/// off whatever `enabled` says.
pub open spec fn dirty_setting(entries: Seq<Entry<Value>>) -> Setting<DirtyView> {
    match table_at(entries, "dirty"@) {
        None => Setting {
            value: DirtyView {
                enabled: true,
                indicator: "*"@,
                clean_indicator: ""@,
                hide_below_cells: 0,
            },
            warnings: table_warnings(entries, "dirty"@, "git_branch"@),
        },
        Some(table) => {
            let hide = hide_below_setting(table, "git_branch.dirty"@);
            Setting {
                value: DirtyView {
                    enabled: text_at(table, "format"@) != Some("hidden"@) && flag_or(
                        table,
                        "enabled"@,
                        true,
                    ),
                    indicator: text_or(table, "indicator"@, "*"@),
                    clean_indicator: text_or(table, "clean_indicator"@, ""@),
                    hide_below_cells: match hide.value {
                        Some(n) => n,
                        None => 0,
                    },
                },
                warnings: flag_warnings(table, "enabled"@, "git_branch.dirty"@)
                    + dirty_format_warnings(table) + text_warnings(
                    table,
                    "indicator"@,
                    "git_branch.dirty"@,
                ) + text_warnings(table, "clean_indicator"@, "git_branch.dirty"@) + hide.warnings,
            }
        },
    }
}

/// A template under `key` of `ahead_behind`, in place of `default`.
pub open spec fn template_setting(table: Seq<Entry<Value>>, key: Seq<char>, default: Seq<char>) -> Setting<
    Seq<char>,
> {
    match text_at(table, key) {
        None => Setting {
            value: default,
            warnings: text_warnings(table, key, "git_branch.ahead_behind"@),
        },
        Some(s) => if has_placeholder(s) {
            Setting { value: s, warnings: seq![] }
        } else {
            Setting {
                value: default,
                warnings: seq![
                    "segments.git_branch.ahead_behind."@ + key
                        + ": missing `{n}` placeholder in "@ + debug_quoted(s) + "; ignoring"@,
                ],
            }
        },
    }
}

/// `ahead_behind`: the comparison with the upstream.
pub open spec fn ahead_behind_setting(entries: Seq<Entry<Value>>) -> Setting<AheadBehindView> {
    match table_at(entries, "ahead_behind"@) {
        None => Setting {
            value: default_ahead_behind(),
            warnings: table_warnings(entries, "ahead_behind"@, "git_branch"@),
        },
        Some(table) => {
            let scope = "git_branch.ahead_behind"@;
            let ahead = template_setting(table, "ahead_format"@, "↑{n}"@);
            let behind = template_setting(table, "behind_format"@, "↓{n}"@);
            let hide = hide_below_setting(table, scope);
            Setting {
                value: AheadBehindView {
                    enabled: flag_or(table, "enabled"@, true),
                    ahead_format: ahead.value,
                    behind_format: behind.value,
                    hide_when_zero: flag_or(table, "hide_when_zero"@, true),
                    hide_when_no_upstream: flag_or(table, "hide_when_no_upstream"@, true),
                    hide_below_cells: match hide.value {
                        Some(n) => n,
                        None => 0,
                    },
                },
                warnings: flag_warnings(table, "enabled"@, scope) + ahead.warnings
                    + behind.warnings + flag_warnings(table, "hide_when_zero"@, scope)
                    + flag_warnings(table, "hide_when_no_upstream"@, scope) + hide.warnings,
            }
        },
    }
}

/// What `[segments.git_branch]` comes to.
pub open spec fn settings(entries: Seq<Entry<Value>>) -> Setting<ConfigView> {
    let max_length = max_length_setting(entries);
    let short_sha = short_sha_setting(entries);
    let dirty = dirty_setting(entries);
    let ahead_behind = ahead_behind_setting(entries);
    Setting {
        value: ConfigView {
            label: text_or(entries, "label"@, ""@),
            max_length: max_length.value,
            truncation_marker: text_or(entries, "truncation_marker"@, "…"@),
            short_sha_length: short_sha.value,
            dirty_enabled: dirty.value.enabled,
            dirty_indicator: dirty.value.indicator,
            clean_indicator: dirty.value.clean_indicator,
            dirty_hide_below_cells: dirty.value.hide_below_cells,
            ahead_behind: ahead_behind.value,
        },
        warnings: text_warnings(entries, "label"@, "git_branch"@) + max_length.warnings
            + text_warnings(entries, "truncation_marker"@, "git_branch"@) + short_sha.warnings
            + dirty.warnings + ahead_behind.warnings,
    }
}

// --- Reading the keys ---------------------------------------------------

fn read_text(
    table: &Table<Value>,
    key: &str,
    default: &str,
    scope: &str,
    warnings: &mut Messages,
) -> (r: String)
    ensures
        r@ == text_or(table@, key@, default@),
        final(warnings)@ == old(warnings)@ + text_warnings(table@, key@, scope@),
{
    match parse_text(table, key, scope, warnings) {
        Some(s) => s.to_owned(),
        None => default.to_owned(),
    }
}

fn read_flag(table: &Table<Value>, key: &str, scope: &str, warnings: &mut Messages) -> (r: bool)
    ensures
        r == flag_or(table@, key@, true),
        final(warnings)@ == old(warnings)@ + flag_warnings(table@, key@, scope@),
{
    match parse_bool(table, key, scope, warnings) {
        Some(b) => b,
        None => true,
    }
}

/// Read `hide_below_cells`. A value that makes no sense is reported, and the
/// threshold stays what it was.
pub fn parse_hide_below_cells(table: &Table<Value>, scope: &str, warnings: &mut Messages) -> (r: Option<
    u16,
>)
    ensures
        r == hide_below_setting(table@, scope@).value,
        final(warnings)@ == old(warnings)@ + hide_below_setting(table@, scope@).warnings,
{
    let ghost before = warnings@;
    assert(before + seq![] =~= before);
    match table.get("hide_below_cells") {
        None => None,
        Some(v) => match v.as_integer_within(0, 65535) {
            Some(n) => Some(n),
            None => {
                let mut message = "segments.".to_owned();
                message.append(scope);
                message.append(".hide_below_cells: expected 0..=65535; ignoring");
                warnings.push(message);
                assert(warnings@ =~= before + seq![message@]);
                None
            },
        },
    }
}

fn read_max_length(extras: &Table<Value>, warnings: &mut Messages) -> (r: u16)
    ensures
        r == max_length_setting(extras@).value,
        final(warnings)@ == old(warnings)@ + max_length_setting(extras@).warnings,
{
    let ghost before = warnings@;
    assert(before + seq![] =~= before);
    match extras.get("max_length") {
        None => 40,
        Some(v) => match v.as_integer_within(1, 65535) {
            Some(n) => n,
            None => {
                let message =
                    "segments.git_branch.max_length: expected 1..=65535; ignoring".to_owned();
                warnings.push(message);
                assert(warnings@ =~= before + seq![message@]);
                40
            },
        },
    }
}

fn read_short_sha(extras: &Table<Value>, warnings: &mut Messages) -> (r: u8)
    ensures
        r == short_sha_setting(extras@).value,
        final(warnings)@ == old(warnings)@ + short_sha_setting(extras@).warnings,
{
    let ghost before = warnings@;
    assert(before + seq![] =~= before);
    match extras.get("short_sha_length") {
        None => 7,
        Some(v) => match v.as_integer_within(1, 40) {
            Some(n) => n as u8,
            None => {
                let message =
                    "segments.git_branch.short_sha_length: expected 1..=40; ignoring".to_owned();
                warnings.push(message);
                assert(warnings@ =~= before + seq![message@]);
                7
            },
        },
    }
}

struct Dirty {
    enabled: bool,
    indicator: String,
    clean_indicator: String,
    hide_below_cells: u16,
}

spec fn dirty_view(d: Dirty) -> DirtyView {
    DirtyView {
        enabled: d.enabled,
        indicator: d.indicator@,
        clean_indicator: d.clean_indicator@,
        hide_below_cells: d.hide_below_cells,
    }
}

fn report_dirty_format(warnings: &mut Messages)
    ensures
        final(warnings)@ == old(warnings)@ + seq![dirty_format_warning()],
{
    let ghost before = warnings@;
    warnings.push(
        "segments.git_branch.dirty.format: expected \"indicator\"|\"counts\"|\"hidden\"; ignoring".to_owned(),
    );
    assert(warnings@ =~= before + seq![dirty_format_warning()]);
}

fn check_dirty_format(table: &Table<Value>, warnings: &mut Messages) -> (hidden: bool)
    ensures
        hidden == (text_at(table@, "format"@) == Some("hidden"@)),
        final(warnings)@ == old(warnings)@ + dirty_format_warnings(table@),
{
    let ghost before = warnings@;
    assert(before + seq![] =~= before);
    let format = match table.get("format") {
        None => {
            return false;
        },
        Some(v) => v.as_str(),
    };
    match format {
        None => {
            report_dirty_format(warnings);
            false
        },
        Some(s) => {
            let hidden: bool = same_text(s, "hidden");
            if hidden || same_text(s, "indicator") {
            } else if same_text(s, "counts") {
                let message =
                    "segments.git_branch.dirty.format=\"counts\" is not yet implemented; falling back to \"indicator\" (follow-up: lsm-kjj counts mode)".to_owned();
                warnings.push(message);
                assert(warnings@ =~= before + seq![message@]);
            } else {
                report_dirty_format(warnings);
            }
            hidden
        },
    }
}

fn read_dirty(extras: &Table<Value>, warnings: &mut Messages) -> (r: Dirty)
    ensures
        dirty_view(r) == dirty_setting(extras@).value,
        final(warnings)@ == old(warnings)@ + dirty_setting(extras@).warnings,
{
    let ghost before = warnings@;
    let table = match parse_table(extras, "dirty", "git_branch", warnings) {
        Some(table) => table,
        None => {
            return Dirty {
                enabled: true,
                indicator: "*".to_owned(),
                clean_indicator: "".to_owned(),
                hide_below_cells: 0,
            };
        },
    };
    let ghost a = flag_warnings(table@, "enabled"@, "git_branch.dirty"@);
    let ghost b = dirty_format_warnings(table@);
    let ghost c = text_warnings(table@, "indicator"@, "git_branch.dirty"@);
    let ghost d = text_warnings(table@, "clean_indicator"@, "git_branch.dirty"@);
    let ghost e = hide_below_setting(table@, "git_branch.dirty"@).warnings;
    proof {
        lemma_reports(before, seq![], seq![]);
        lemma_reports(before, a, b);
        lemma_reports(before, a + b, c);
        lemma_reports(before, a + b + c, d);
        lemma_reports(before, a + b + c + d, e);
    }
    let enabled: bool = read_flag(table, "enabled", "git_branch.dirty", warnings);
    let hidden: bool = check_dirty_format(table, warnings);
    let indicator = read_text(table, "indicator", "*", "git_branch.dirty", warnings);
    let clean_indicator = read_text(table, "clean_indicator", "", "git_branch.dirty", warnings);
    let hide_below_cells: u16 = match parse_hide_below_cells(table, "git_branch.dirty", warnings) {
        Some(n) => n,
        None => 0,
    };
    Dirty { enabled: enabled && !hidden, indicator, clean_indicator, hide_below_cells }
}

fn read_template(table: &Table<Value>, key: &str, default: FormatTemplate, warnings: &mut Messages) -> (r:
    FormatTemplate)
    ensures
        r@ == template_setting(table@, key@, default@).value,
        final(warnings)@ == old(warnings)@ + template_setting(table@, key@, default@).warnings,
{
    let ghost before = warnings@;
    assert(before + seq![] =~= before);
    match parse_text(table, key, "git_branch.ahead_behind", warnings) {
        None => default,
        Some(s) => match FormatTemplate::parse(s) {
            Some(template) => template,
            None => {
                let mut message = "segments.git_branch.ahead_behind.".to_owned();
                message.append(key);
                message.append(": missing `{n}` placeholder in ");
                message.append(quoted(s).as_str());
                message.append("; ignoring");
                warnings.push(message);
                assert(warnings@ =~= before + seq![message@]);
                default
            },
        },
    }
}

fn read_ahead_behind(extras: &Table<Value>, warnings: &mut Messages) -> (r: AheadBehindConfig)
    ensures
        r@ == ahead_behind_setting(extras@).value,
        final(warnings)@ == old(warnings)@ + ahead_behind_setting(extras@).warnings,
{
    let ghost before = warnings@;
    let defaults = AheadBehindConfig::default();
    let table = match parse_table(extras, "ahead_behind", "git_branch", warnings) {
        Some(table) => table,
        None => {
            return defaults;
        },
    };
    let ghost scope = "git_branch.ahead_behind"@;
    let ghost a = flag_warnings(table@, "enabled"@, scope);
    let ghost b = template_setting(table@, "ahead_format"@, "↑{n}"@).warnings;
    let ghost c = template_setting(table@, "behind_format"@, "↓{n}"@).warnings;
    let ghost d = flag_warnings(table@, "hide_when_zero"@, scope);
    let ghost e = flag_warnings(table@, "hide_when_no_upstream"@, scope);
    let ghost f = hide_below_setting(table@, scope).warnings;
    proof {
        lemma_reports(before, seq![], seq![]);
        lemma_reports(before, a, b);
        lemma_reports(before, a + b, c);
        lemma_reports(before, a + b + c, d);
        lemma_reports(before, a + b + c + d, e);
        lemma_reports(before, a + b + c + d + e, f);
    }
    let enabled: bool = read_flag(table, "enabled", "git_branch.ahead_behind", warnings);
    let ahead_format = read_template(table, "ahead_format", defaults.ahead_format, warnings);
    let behind_format = read_template(table, "behind_format", defaults.behind_format, warnings);
    let hide_when_zero: bool = read_flag(
        table,
        "hide_when_zero",
        "git_branch.ahead_behind",
        warnings,
    );
    let hide_when_no_upstream: bool = read_flag(
        table,
        "hide_when_no_upstream",
        "git_branch.ahead_behind",
        warnings,
    );
    let hide_below_cells: u16 = match parse_hide_below_cells(
        table,
        "git_branch.ahead_behind",
        warnings,
    ) {
        Some(n) => n,
        None => 0,
    };
    AheadBehindConfig {
        enabled,
        ahead_format,
        behind_format,
        hide_when_zero,
        hide_when_no_upstream,
        hide_below_cells,
    }
}

/// The branch of the repository, with its marks.
#[derive(Debug, PartialEq, Eq)]
pub struct GitBranchSegment {
    pub cfg: Config,
}

impl Default for GitBranchSegment {
    fn default() -> (r: GitBranchSegment)
        ensures
            r.cfg@ == default_config(),
    {
        GitBranchSegment { cfg: Config::default() }
    }
}

impl GitBranchSegment {
    /// Read `[segments.git_branch]`. What makes no sense is reported and left
    /// at its default.
    pub fn from_extras(extras: &Table<Value>, warnings: &mut Messages) -> (r: GitBranchSegment)
        ensures
            r.cfg@ == settings(extras@).value,
            final(warnings)@ == old(warnings)@ + settings(extras@).warnings,
    {
        let ghost before = warnings@;
        let ghost a = text_warnings(extras@, "label"@, "git_branch"@);
        let ghost b = max_length_setting(extras@).warnings;
        let ghost c = text_warnings(extras@, "truncation_marker"@, "git_branch"@);
        let ghost d = short_sha_setting(extras@).warnings;
        let ghost e = dirty_setting(extras@).warnings;
        let ghost f = ahead_behind_setting(extras@).warnings;
        proof {
            lemma_reports(before, a, b);
            lemma_reports(before, a + b, c);
            lemma_reports(before, a + b + c, d);
            lemma_reports(before, a + b + c + d, e);
            lemma_reports(before, a + b + c + d + e, f);
        }
        let label = read_text(extras, "label", "", "git_branch", warnings);
        let max_length: u16 = read_max_length(extras, warnings);
        let truncation_marker = read_text(
            extras,
            "truncation_marker",
            "…",
            "git_branch",
            warnings,
        );
        let short_sha_length: u8 = read_short_sha(extras, warnings);
        let dirty = read_dirty(extras, warnings);
        let ahead_behind = read_ahead_behind(extras, warnings);
        GitBranchSegment {
            cfg: Config {
                label,
                max_length,
                truncation_marker,
                short_sha_length,
                dirty_enabled: dirty.enabled,
                dirty_indicator: dirty.indicator,
                clean_indicator: dirty.clean_indicator,
                dirty_hide_below_cells: dirty.hide_below_cells,
                ahead_behind,
            },
        }
    }
}

// --- Rendering ----------------------------------------------------------

/// How many of `clusters`, from the left, take no more than `budget` columns.
pub open spec fn fitting_front(clusters: Seq<Seq<char>>, budget: int) -> nat
    decreases clusters.len(),
{
    if clusters.len() == 0 || columns(clusters[0]) > budget {
        0
    } else {
        1 + fitting_front(clusters.skip(1), budget - columns(clusters[0]))
    }
}

/// How many of `clusters`, from the right, take no more than `budget` columns.
pub open spec fn fitting_back(clusters: Seq<Seq<char>>, budget: int) -> nat
    decreases clusters.len(),
{
    if clusters.len() == 0 || columns(clusters.last()) > budget {
        0
    } else {
        1 + fitting_back(clusters.drop_last(), budget - columns(clusters.last()))
    }
}

/// `s` cut in its middle to fit `max` columns, with `marker` in place of what
/// is missing; the larger half of what is left over stays in front. A marker
/// that leaves no room is left out. `max` 0 is no limit.
pub open spec fn cut_in_middle(s: Seq<char>, max: u16, marker: Seq<char>) -> Seq<char> {
    let clusters = grapheme_clusters(s);
    if max == 0 || columns(s) <= max {
        s
    } else if columns(marker) >= max {
        joined(clusters.take(fitting_front(clusters, max as int) as int))
    } else {
        let budget = max - columns(marker);
        let front = (budget + 1) / 2;
        let head = fitting_front(clusters, front) as int;
        let tail = fitting_back(clusters, budget - front) as int;
        joined(clusters.take(head)) + marker + joined(clusters.skip(clusters.len() - tail))
    }
}

/// The columns that `clusters` take, each counted by itself.
pub open spec fn all_columns(clusters: Seq<Seq<char>>) -> int
    decreases clusters.len(),
{
    if clusters.len() == 0 {
        0
    } else {
        all_columns(clusters.drop_last()) + columns(clusters.last())
    }
}

proof fn lemma_front_fits(clusters: Seq<Seq<char>>, budget: int)
    requires
        budget >= 0,
    ensures
        fitting_front(clusters, budget) <= clusters.len(),
        all_columns(clusters.take(fitting_front(clusters, budget) as int)) <= budget,
        fitting_front(clusters, budget) < clusters.len() ==> all_columns(
            clusters.take(fitting_front(clusters, budget) as int + 1),
        ) > budget,
    decreases clusters.len(),
{
    let n = fitting_front(clusters, budget) as int;
    if n > 0 {
        let rest = clusters.skip(1);
        lemma_front_fits(rest, budget - columns(clusters[0]));
        lemma_columns_from_front(clusters.take(n));
        assert(clusters.take(n).skip(1) =~= rest.take(n - 1));
        if n < clusters.len() {
            lemma_columns_from_front(clusters.take(n + 1));
            assert(clusters.take(n + 1).skip(1) =~= rest.take(n));
        }
    } else if clusters.len() > 0 {
        lemma_columns_from_front(clusters.take(1));
        assert(clusters.take(1).skip(1) =~= seq![]);
    }
}

proof fn lemma_columns_from_front(clusters: Seq<Seq<char>>)
    requires
        clusters.len() > 0,
    ensures
        all_columns(clusters) == columns(clusters[0]) + all_columns(clusters.skip(1)),
    decreases clusters.len(),
{
    if clusters.len() > 1 {
        lemma_columns_from_front(clusters.drop_last());
        assert(clusters.drop_last().skip(1) =~= clusters.skip(1).drop_last());
    } else {
        assert(clusters.drop_last() =~= clusters.skip(1));
    }
}

proof fn lemma_back_fits(clusters: Seq<Seq<char>>, budget: int)
    requires
        budget >= 0,
    ensures
        fitting_back(clusters, budget) <= clusters.len(),
        all_columns(clusters.skip(clusters.len() - fitting_back(clusters, budget))) <= budget,
        fitting_back(clusters, budget) < clusters.len() ==> all_columns(
            clusters.skip(clusters.len() - fitting_back(clusters, budget) - 1),
        ) > budget,
    decreases clusters.len(),
{
    let n = fitting_back(clusters, budget) as int;
    if n > 0 {
        let rest = clusters.drop_last();
        lemma_back_fits(rest, budget - columns(clusters.last()));
        assert(clusters.skip(clusters.len() - n).drop_last() =~= rest.skip(rest.len() - (n - 1)));
        assert(clusters.skip(clusters.len() - n).last() == clusters.last());
        if n < clusters.len() {
            assert(clusters.skip(clusters.len() - n - 1).drop_last() =~= rest.skip(
                rest.len() - n,
            ));
            assert(clusters.skip(clusters.len() - n - 1).last() == clusters.last());
        }
    } else if clusters.len() > 0 {
        let last = clusters.skip(clusters.len() - 1);
        assert(last.drop_last() =~= seq![]);
        assert(last.last() == clusters.last());
        assert(all_columns(last.drop_last()) == 0);
    }
}

/// The first `n` of `clusters` take no more than `room` columns, and one more
/// would.
pub open spec fn fills_its_half(clusters: Seq<Seq<char>>, room: int, n: int) -> bool {
    &&& 0 <= n <= clusters.len()
    &&& all_columns(clusters.take(n)) <= room
    &&& n < clusters.len() ==> all_columns(clusters.take(n + 1)) > room
}

/// The last `n` of `clusters` take no more than `room` columns, and one more
/// would.
pub open spec fn fills_its_end(clusters: Seq<Seq<char>>, room: int, n: int) -> bool {
    &&& 0 <= n <= clusters.len()
    &&& all_columns(clusters.skip(clusters.len() - n)) <= room
    &&& n < clusters.len() ==> all_columns(clusters.skip(clusters.len() - n - 1)) > room
}

/// A text that is cut in its middle is put together from a front, the marker
/// and a back that take `max` cells at the most, each cluster counted by
/// itself; without the marker where that alone would fill the room.
pub proof fn middle_cut_fits(s: Seq<char>, max: u16, marker: Seq<char>) -> (parts: (
    Seq<Seq<char>>,
    Seq<Seq<char>>,
))
    requires
        0 < max < columns(s),
    ensures
        columns(marker) >= max ==> cut_in_middle(s, max, marker) == joined(parts.0) && all_columns(
            parts.0,
        ) <= max,
        columns(marker) < max ==> cut_in_middle(s, max, marker) == joined(parts.0) + marker
            + joined(parts.1) && all_columns(parts.0) + columns(marker) + all_columns(parts.1)
            <= max,
        parts.0.is_prefix_of(grapheme_clusters(s)),
        parts.1.is_suffix_of(grapheme_clusters(s)),
        fills_its_half(
            grapheme_clusters(s),
            if columns(marker) >= max {
                max as int
            } else {
                (max - columns(marker) + 1) / 2
            },
            parts.0.len() as int,
        ),
        columns(marker) < max ==> fills_its_end(
            grapheme_clusters(s),
            (max - columns(marker)) / 2,
            parts.1.len() as int,
        ),
{
    let clusters = grapheme_clusters(s);
    if columns(marker) >= max {
        lemma_front_fits(clusters, max as int);
        (clusters.take(fitting_front(clusters, max as int) as int), seq![])
    } else {
        let budget = max - columns(marker);
        let front = (budget + 1) / 2;
        lemma_front_fits(clusters, front);
        lemma_back_fits(clusters, budget - front);
        (
            clusters.take(fitting_front(clusters, front) as int),
            clusters.skip(clusters.len() - fitting_back(clusters, budget - front)),
        )
    }
}

fn front_text(clusters: &Vec<&str>, budget: usize) -> (r: String)
    ensures
        r@ == joined(
            str_texts(clusters@).take(
                fitting_front(str_texts(clusters@), budget as int) as int,
            ),
        ),
{
    let ghost views = str_texts(clusters@);
    let mut out = String::new();
    let mut left: usize = budget;
    let mut i: usize = 0;
    assert(views.skip(0) =~= views);
    while i < clusters.len()
        invariant
            i <= clusters@.len(),
            views == str_texts(clusters@),
            out@ == joined(views.take(i as int)),
            fitting_front(views, budget as int) == i + fitting_front(
                views.skip(i as int),
                left as int,
            ),
        ensures
            fitting_front(views, budget as int) == i,
        decreases clusters@.len() - i,
    {
        let w: usize = display_width(clusters[i]);
        proof {
            assert(views.skip(i as int)[0] == views[i as int]);
            assert(views.take(i + 1).drop_last() =~= views.take(i as int));
            assert(views.skip(i as int).skip(1) =~= views.skip(i + 1));
        }
        if w > left {
            break;
        }
        out.append(clusters[i]);
        left = left - w;
        i += 1;
    }
    out
}

fn back_count(clusters: &Vec<&str>, budget: usize) -> (r: usize)
    ensures
        r == fitting_back(str_texts(clusters@), budget as int),
        r <= clusters@.len(),
{
    let ghost views = str_texts(clusters@);
    let mut left: usize = budget;
    let mut n: usize = clusters.len();
    assert(views.take(views.len() as int) =~= views);
    while n > 0
        invariant
            n <= clusters@.len(),
            views == str_texts(clusters@),
            fitting_back(views, budget as int) == (clusters@.len() - n) + fitting_back(
                views.take(n as int),
                left as int,
            ),
        ensures
            fitting_back(views, budget as int) == clusters@.len() - n,
        decreases n,
    {
        let w: usize = display_width(clusters[n - 1]);
        proof {
            assert(views.take(n as int).last() == views[n - 1]);
            assert(views.take(n as int).drop_last() =~= views.take(n - 1));
        }
        if w > left {
            break;
        }
        left = left - w;
        n -= 1;
    }
    clusters.len() - n
}

/// Cut `s` in its middle to fit `max` cells. The cuts fall between grapheme
/// clusters.
pub fn truncate_middle(s: &str, max: u16, marker: &str) -> (r: String)
    ensures
        r@ == cut_in_middle(s@, max, marker@),
{
    let limit: usize = max as usize;
    if max == 0 || display_width(s) <= limit {
        return s.to_owned();
    }
    let clusters = graphemes(s);
    let marker_width: usize = display_width(marker);
    if marker_width >= limit {
        return front_text(&clusters, limit);
    }
    let budget: usize = limit - marker_width;
    let front: usize = (budget + 1) / 2;
    let mut out = front_text(&clusters, front);
    out.append(marker);
    let tail: usize = back_count(&clusters, budget - front);
    let from: usize = clusters.len() - tail;
    let ghost views = str_texts(clusters@);
    let ghost kept = out@;
    let mut i: usize = from;
    assert(views.subrange(from as int, from as int) =~= seq![]);
    assert(kept + joined(views.subrange(from as int, from as int)) =~= kept);
    while i < clusters.len()
        invariant
            from <= i <= clusters@.len(),
            views == str_texts(clusters@),
            out@ == kept + joined(views.subrange(from as int, i as int)),
        decreases clusters@.len() - i,
    {
        proof {
            let longer = views.subrange(from as int, i + 1);
            assert(longer.drop_last() =~= views.subrange(from as int, i as int));
            assert(longer.last() == clusters@[i as int]@);
            assert(kept + joined(longer) =~= (kept + joined(longer.drop_last())) + longer.last());
        }
        out.append(clusters[i]);
        i += 1;
    }
    assert(views.subrange(from as int, i as int) =~= views.skip(views.len() - tail));
    out
}

/// `true` when a threshold is set and the terminal is narrower.
pub open spec fn below_threshold(rc: RenderContext, threshold: u16) -> bool {
    threshold > 0 && rc.terminal_width < threshold
}

fn is_below_threshold(rc: &RenderContext, threshold: u16) -> (r: bool)
    ensures
        r == below_threshold(*rc, threshold),
{
    threshold > 0 && rc.terminal_width < threshold
}

/// What is shown of HEAD: a name cut in its middle, or the start of a commit
/// id in brackets.
pub open spec fn head_text(cfg: ConfigView, head: Head) -> Seq<char> {
    match head {
        Head::Branch(name) => cut_in_middle(name@, cfg.max_length, cfg.truncation_marker),
        Head::Detached(oid) => "("@ + oid@.take(
            if cfg.short_sha_length <= oid@.len() {
                cfg.short_sha_length as int
            } else {
                oid@.len() as int
            },
        ) + ")"@,
        Head::Unborn { symbolic_ref } => cut_in_middle(
            symbolic_ref@,
            cfg.max_length,
            cfg.truncation_marker,
        ),
        Head::OtherRef { full_name } => cut_in_middle(
            full_name@,
            cfg.max_length,
            cfg.truncation_marker,
        ),
    }
}

/// `text`, or nothing where it is empty.
pub open spec fn unless_empty(text: Seq<char>) -> Option<Seq<char>> {
    if text.len() == 0 {
        None
    } else {
        Some(text)
    }
}

/// The mark for uncommitted changes, or for none.
pub open spec fn dirty_mark(cfg: ConfigView, gc: GitContext) -> Option<Seq<char>> {
    unless_empty(
        if gc.dirty {
            cfg.dirty_indicator
        } else {
            cfg.clean_indicator
        },
    )
}

/// The comparison with the upstream. Only a branch has one; without an
/// upstream it is `?`, where that is not hidden.
pub open spec fn upstream_mark(cfg: AheadBehindView, gc: GitContext) -> Option<Seq<char>> {
    match gc.head {
        Head::Branch(_) => match gc.upstream {
            None => if cfg.hide_when_no_upstream {
                None
            } else {
                Some("?"@)
            },
            Some(state) => {
                let ahead = if state.ahead > 0 || !cfg.hide_when_zero {
                    filled_in(cfg.ahead_format, decimal(state.ahead as nat))
                } else {
                    seq![]
                };
                let behind = if state.behind > 0 || !cfg.hide_when_zero {
                    filled_in(cfg.behind_format, decimal(state.behind as nat))
                } else {
                    seq![]
                };
                unless_empty(
                    if state.behind > 0 || !cfg.hide_when_zero {
                        if ahead.len() > 0 {
                            ahead + " "@ + behind
                        } else {
                            behind
                        }
                    } else {
                        ahead
                    },
                )
            },
        },
        _ => None,
    }
}

/// `words`, with a space between two.
pub open spec fn spaced_out(words: Seq<Seq<char>>) -> Seq<char>
    decreases words.len(),
{
    if words.len() == 0 {
        seq![]
    } else if words.len() == 1 {
        words[0]
    } else {
        spaced_out(words.drop_last()) + " "@ + words.last()
    }
}

/// The words of `o`: one or none.
pub open spec fn word(o: Option<Seq<char>>) -> Seq<Seq<char>> {
    match o {
        Some(w) => seq![w],
        None => seq![],
    }
}

/// The label and HEAD, each where there is one.
pub open spec fn compact_words(cfg: ConfigView, gc: GitContext) -> Seq<Seq<char>> {
    word(unless_empty(cfg.label)) + word(unless_empty(head_text(cfg, gc.head)))
}

/// All that is shown of `gc` in a terminal of that width.
pub open spec fn full_words(cfg: ConfigView, gc: GitContext, rc: RenderContext) -> Seq<Seq<char>> {
    compact_words(cfg, gc) + word(
        if cfg.dirty_enabled && !below_threshold(rc, cfg.dirty_hide_below_cells) {
            dirty_mark(cfg, gc)
        } else {
            None
        },
    ) + word(
        if cfg.ahead_behind.enabled && !below_threshold(rc, cfg.ahead_behind.hide_below_cells) {
            upstream_mark(cfg.ahead_behind, gc)
        } else {
            None
        },
    )
}

fn push_word(words: &mut Vec<String>, w: String)
    ensures
        texts(final(words)@) == texts(old(words)@) + seq![w@],
{
    let ghost before = texts(words@);
    words.push(w);
    assert(texts(words@) =~= before + seq![w@]);
}

fn join_words(words: &Vec<String>) -> (r: String)
    ensures
        r@ == spaced_out(texts(words@)),
{
    let ghost views = texts(words@);
    let mut out = String::new();
    let mut i: usize = 0;
    while i < words.len()
        invariant
            i <= words@.len(),
            views == texts(words@),
            out@ == spaced_out(views.take(i as int)),
        decreases words@.len() - i,
    {
        proof {
            assert(views.take(i + 1).drop_last() =~= views.take(i as int));
            assert(views.take(i + 1).last() == words@[i as int]@);
        }
        if i > 0 {
            out.append(" ");
        }
        let ghost before = out@;
        out.append(words[i].as_str());
        assert(i == 0 ==> out@ =~= words@[i as int]@);
        i += 1;
    }
    assert(views.take(i as int) =~= views);
    out
}

impl GitBranchSegment {
    fn render_head(&self, head: &Head) -> (r: String)
        ensures
            r@ == head_text(self.cfg@, *head),
    {
        match head {
            Head::Branch(name) => truncate_middle(
                name.as_str(),
                self.cfg.max_length,
                self.cfg.truncation_marker.as_str(),
            ),
            Head::Detached(oid) => {
                let chars = chars_of(oid.as_str());
                let n: usize = if self.cfg.short_sha_length as usize <= chars.len() {
                    self.cfg.short_sha_length as usize
                } else {
                    chars.len()
                };
                let mut out = "(".to_owned();
                out.append(string_of(&chars, 0, n).as_str());
                out.append(")");
                out
            },
            Head::Unborn { symbolic_ref } => truncate_middle(
                symbolic_ref.as_str(),
                self.cfg.max_length,
                self.cfg.truncation_marker.as_str(),
            ),
            Head::OtherRef { full_name } => truncate_middle(
                full_name.as_str(),
                self.cfg.max_length,
                self.cfg.truncation_marker.as_str(),
            ),
        }
    }

    fn render_dirty(&self, gc: &GitContext) -> (r: Option<String>)
        ensures
            crate::theme::text_in(r) == dirty_mark(self.cfg@, *gc),
    {
        let mark = if gc.dirty {
            &self.cfg.dirty_indicator
        } else {
            &self.cfg.clean_indicator
        };
        if mark.as_str().is_empty() {
            None
        } else {
            Some(mark.clone())
        }
    }

    fn render_ahead_behind(&self, gc: &GitContext) -> (r: Option<String>)
        ensures
            crate::theme::text_in(r) == upstream_mark(self.cfg.ahead_behind@, *gc),
    {
        // Only a local branch is compared: the `?` is for a branch without an
        // upstream, not for a HEAD that can have none.
        match &gc.head {
            Head::Branch(_) => {},
            _ => {
                return None;
            },
        }
        let cfg = &self.cfg.ahead_behind;
        match &gc.upstream {
            None => {
                if cfg.hide_when_no_upstream {
                    None
                } else {
                    Some("?".to_owned())
                }
            },
            Some(state) => {
                let mut out = String::new();
                if state.ahead > 0 || !cfg.hide_when_zero {
                    out = cfg.ahead_format.render(state.ahead);
                }
                if state.behind > 0 || !cfg.hide_when_zero {
                    let behind = cfg.behind_format.render(state.behind);
                    if out.as_str().is_empty() {
                        out = behind;
                    } else {
                        out.append(" ");
                        out.append(behind.as_str());
                    }
                }
                if out.as_str().is_empty() {
                    None
                } else {
                    Some(out)
                }
            },
        }
    }

    fn compact_parts(&self, gc: &GitContext) -> (r: Vec<String>)
        ensures
            texts(r@) == compact_words(self.cfg@, *gc),
    {
        let mut words: Vec<String> = Vec::new();
        if !self.cfg.label.as_str().is_empty() {
            push_word(&mut words, self.cfg.label.clone());
        }
        assert(texts(words@) =~= word(unless_empty(self.cfg@.label)));
        let head = self.render_head(&gc.head);
        if !head.as_str().is_empty() {
            push_word(&mut words, head);
        }
        assert(texts(words@) =~= compact_words(self.cfg@, *gc));
        words
    }

    fn assemble(&self, gc: &GitContext, rc: &RenderContext) -> (r: String)
        ensures
            r@ == spaced_out(full_words(self.cfg@, *gc, *rc)),
    {
        let mut words = self.compact_parts(gc);
        let ghost compact = texts(words@);
        let ghost mut dirty: Option<Seq<char>> = None;
        if self.cfg.dirty_enabled && !is_below_threshold(rc, self.cfg.dirty_hide_below_cells) {
            proof {
                dirty = dirty_mark(self.cfg@, *gc);
            }
            if let Some(mark) = self.render_dirty(gc) {
                push_word(&mut words, mark);
            }
        }
        assert(texts(words@) =~= compact + word(dirty));
        if self.cfg.ahead_behind.enabled && !is_below_threshold(
            rc,
            self.cfg.ahead_behind.hide_below_cells,
        ) {
            if let Some(mark) = self.render_ahead_behind(gc) {
                push_word(&mut words, mark);
            }
        }
        assert(texts(words@) =~= full_words(self.cfg@, *gc, *rc));
        join_words(&words)
    }

    /// The label and HEAD without the marks: what is left under width
    /// pressure.
    fn assemble_compact(&self, gc: &GitContext) -> (r: String)
        ensures
            r@ == spaced_out(compact_words(self.cfg@, *gc)),
    {
        let words = self.compact_parts(gc);
        join_words(&words)
    }
}

/// The repository whose branch is shown: one that was found, and is not bare.
pub open spec fn shown_repository(ctx: DataContext) -> Option<GitContext> {
    match ctx.git {
        Ok(Some(gc)) => if gc.repo_kind == RepoKind::Bare {
            None
        } else {
            Some(gc)
        },
        _ => None,
    }
}

/// What the segment shows.
pub open spec fn branch_shown(cfg: ConfigView, ctx: DataContext, rc: RenderContext) -> Option<
    RenderedView,
> {
    match shown_repository(ctx) {
        Some(gc) => match unless_empty(spaced_out(full_words(cfg, gc, rc))) {
            Some(text) => Some(text_in_role(text, Role::Accent)),
            None => None,
        },
        None => None,
    }
}

/// The compact form, where it takes no more than `target` cells.
pub open spec fn branch_compact(cfg: ConfigView, ctx: DataContext, target: u16) -> Option<
    RenderedView,
> {
    match shown_repository(ctx) {
        Some(gc) => match unless_empty(spaced_out(compact_words(cfg, gc))) {
            Some(text) => if text_in_role(text, Role::Accent).width <= target {
                Some(text_in_role(text, Role::Accent))
            } else {
                None
            },
            None => None,
        },
        None => None,
    }
}

/// The compact form is never wider than asked, whatever the configuration.
pub proof fn compact_branch_fits(cfg: ConfigView, ctx: DataContext, target: u16)
    ensures
        branch_compact(cfg, ctx, target) matches Some(compact) ==> compact.width <= target,
{
}

fn visible_repository(ctx: &DataContext) -> (r: Option<&GitContext>)
    ensures
        match r {
            Some(gc) => shown_repository(*ctx) == Some(*gc),
            None => shown_repository(*ctx) is None,
        },
{
    match &ctx.git {
        Ok(Some(gc)) => if gc.repo_kind == RepoKind::Bare {
            None
        } else {
            Some(gc)
        },
        _ => None,
    }
}

impl Segment for GitBranchSegment {
    open spec fn renders(&self, ctx: DataContext, rc: RenderContext, out: Outcome) -> bool {
        out == Ok::<Option<RenderedView>, Seq<char>>(branch_shown(self.cfg@, ctx, rc))
    }

    open spec fn shrinks(
        &self,
        ctx: DataContext,
        rc: RenderContext,
        target: u16,
        out: Option<RenderedView>,
    ) -> bool {
        out == branch_compact(self.cfg@, ctx, target)
    }

    open spec fn declares(&self, d: SegmentDefaults) -> bool {
        d == (SegmentDefaults { icon: Some("\u{f126}"), ..SegmentDefaults::of_priority(48) })
    }

    open spec fn reads(&self, deps: Seq<DataDep>) -> bool {
        deps == seq![DataDep::Git]
    }

    open spec fn pins_color(&self, pinned: bool) -> bool {
        !pinned
    }
    open spec fn explains(&self, ctx: DataContext, reason: Option<Seq<char>>) -> bool {
        reason == match ctx.git {
            Ok(Some(gc)) => if gc.repo_kind == RepoKind::Bare {
                Some("git_branch: bare repo; hiding"@)
            } else {
                None
            },
            _ => None,
        }
    }

    fn render(&self, ctx: &DataContext, rc: &RenderContext) -> (r: RenderResult) {
        match visible_repository(ctx) {
            None => Ok(None),
            Some(gc) => {
                let text = self.assemble(gc, rc);
                if text.as_str().is_empty() {
                    return Ok(None);
                }
                Ok(Some(RenderedSegment::new(text.as_str()).with_role(Role::Accent)))
            },
        }
    }

    fn shrink_to_fit(&self, ctx: &DataContext, rc: &RenderContext, target: u16) -> (r: Option<
        RenderedSegment,
    >) {
        match visible_repository(ctx) {
            None => None,
            Some(gc) => {
                let text = self.assemble_compact(gc);
                if text.as_str().is_empty() {
                    return None;
                }
                let rendered = RenderedSegment::new(text.as_str()).with_role(Role::Accent);
                if rendered.width() <= target {
                    Some(rendered)
                } else {
                    None
                }
            },
        }
    }

    fn data_deps(&self) -> (r: &'static [DataDep]) {
        let deps: &'static [DataDep] = &[DataDep::Git];
        assert(deps@ =~= seq![DataDep::Git]);
        deps
    }

    fn defaults(&self) -> (r: SegmentDefaults) {
        // Between the workspace and the model: the branch is worth more than
        // cost or effort in a narrow terminal, and less than the model.
        SegmentDefaults::with_priority(48).with_icon("\u{f126}")
    }

    fn user_color_pinned(&self) -> (r: bool) {
        false
    }

    fn hiding_reason(&self, ctx: &DataContext) -> (r: Option<&'static str>) {
        match &ctx.git {
            Ok(Some(gc)) => if gc.repo_kind == RepoKind::Bare {
                Some("git_branch: bare repo; hiding")
            } else {
                None
            },
            _ => None,
        }
    }
}

} // verus!
