//! Context bar segment: the fill of the context window as a bar of cells,
//! colored by thresholds. Hidden when the payload carries no percentage.

use vstd::prelude::*;
use vstd::string::StringExecFns;

use crate::cells::{columns, display_width};
use crate::data_context::{
    lemma_same_percent, round_half_even, ContextWindow, DataContext, DataDep, Percent,
};
use crate::diagnostics::{lemma_reports, Messages};
use crate::segments::context_window::window_text;
use crate::segments::extras::{parse_table, table_warnings, Setting};
use crate::segments::progress_bar::{
    bar_runs, render_bar, suffix_run, BarChars as DrawnChars, BarCharsView, BarStyle, BarStyleView,
    FillMode, Thresholds,
};
use crate::segments::rendered::{lemma_printable, merged, RenderedSegment, RenderedView};
use crate::segments::segment::{Outcome, RenderContext, RenderResult, Segment};
use crate::segments::separator::SegmentDefaults;
use crate::text::{decimal, decimal_string, digit, is_control, is_printable};
use crate::theme::{runs_text, Role, RunView, StyleView};
use crate::value::{lookup, table_at, Entry, Table, Value};

verus! {

/// What `BarChars` says.
pub struct GlyphsView {
    pub full: Seq<char>,
    pub partial: Seq<char>,
    pub empty: Seq<char>,
    pub open: Seq<char>,
    pub close: Seq<char>,
}

/// The glyphs that a user may choose. `partial` is the half-full cell of
/// `FillMode::Half`.
#[derive(Debug, PartialEq, Eq)]
pub struct BarChars {
    pub full: String,
    pub partial: String,
    pub empty: String,
    pub open: String,
    pub close: String,
}

impl View for BarChars {
    type V = GlyphsView;

    open spec fn view(&self) -> GlyphsView {
        GlyphsView {
            full: self.full@,
            partial: self.partial@,
            empty: self.empty@,
            open: self.open@,
            close: self.close@,
        }
    }
}

/// What `Config` says.
pub struct ConfigView {
    pub width: u16,
    pub green: u8,
    pub yellow: u8,
    pub fill: FillMode,
    pub chars: GlyphsView,
    pub brackets: bool,
    pub percentage: bool,
    pub dim_empty: bool,
}

/// The settings of the bar.
#[derive(Debug, PartialEq, Eq)]
pub struct Config {
    pub width: u16,
    pub thresholds: Thresholds,
    pub fill: FillMode,
    pub chars: BarChars,
    /// Put brackets around the cells.
    pub brackets: bool,
    /// Put the percentage behind the bar.
    pub percentage: bool,
    /// Draw the empty cells muted.
    pub dim_empty: bool,
}

impl View for Config {
    type V = ConfigView;

    open spec fn view(&self) -> ConfigView {
        ConfigView {
            width: self.width,
            green: self.thresholds.first(),
            yellow: self.thresholds.second(),
            fill: self.fill,
            chars: self.chars@,
            brackets: self.brackets,
            percentage: self.percentage,
            dim_empty: self.dim_empty,
        }
    }
}

/// The settings without any configuration.
pub open spec fn default_config() -> ConfigView {
    ConfigView {
        width: 10,
        green: 50,
        yellow: 80,
        fill: FillMode::Half,
        chars: GlyphsView { full: "█"@, partial: "▓"@, empty: "░"@, open: "["@, close: "]"@ },
        brackets: true,
        percentage: true,
        dim_empty: true,
    }
}

impl Default for Config {
    fn default() -> (r: Config)
        ensures
            r@ == default_config(),
    {
        Config {
            width: 10,
            thresholds: Thresholds::new(50, 80).unwrap(),
            fill: FillMode::Half,
            chars: BarChars {
                full: "█".to_owned(),
                partial: "▓".to_owned(),
                empty: "░".to_owned(),
                open: "[".to_owned(),
                close: "]".to_owned(),
            },
            brackets: true,
            percentage: true,
            dim_empty: true,
        }
    }
}

// --- What the keys come to ----------------------------------------------

/// `cells`: the number of cells, at least one.
pub open spec fn cells_setting(entries: Seq<Entry<Value>>) -> Setting<u16> {
    match lookup(entries, "cells"@) {
        None => Setting { value: 10, warnings: seq![] },
        Some(v) => match v.integer_within(1, 65535) {
            Some(n) => Setting { value: n as u16, warnings: seq![] },
            None => Setting {
                value: 10,
                warnings: seq!["segments.context_bar.cells: expected 1..=65535; ignoring"@],
            },
        },
    }
}

/// A field of `thresholds`: a percentage.
pub open spec fn threshold_field(table: Seq<Entry<Value>>, field: Seq<char>) -> Setting<Option<u8>> {
    match lookup(table, field) {
        None => Setting { value: None, warnings: seq![] },
        Some(v) => match v.integer_within(0, 100) {
            Some(n) => Setting { value: Some(n as u8), warnings: seq![] },
            None => Setting {
                value: None,
                warnings: seq![
                    "segments.context_bar.thresholds."@ + field + ": expected 0..=100; ignoring"@,
                ],
            },
        },
    }
}

/// `value`, or `default` in its place.
pub open spec fn or_default(value: Option<u8>, default: u8) -> u8 {
    match value {
        Some(n) => n,
        None => default,
    }
}

/// `thresholds`: the pair, which stands or falls together. A field that is no
/// percentage is reported by itself; a pair that crosses is reported as one.
pub open spec fn thresholds_setting(entries: Seq<Entry<Value>>) -> Setting<(u8, u8)> {
    match table_at(entries, "thresholds"@) {
        None => Setting {
            value: (50, 80),
            warnings: table_warnings(entries, "thresholds"@, "context_bar"@),
        },
        Some(table) => {
            let green = threshold_field(table, "green"@);
            let yellow = threshold_field(table, "yellow"@);
            let g = or_default(green.value, 50);
            let y = or_default(yellow.value, 80);
            let fields = green.warnings + yellow.warnings;
            if fields.len() > 0 {
                Setting { value: (50, 80), warnings: fields }
            } else if g <= y {
                Setting { value: (g, y), warnings: seq![] }
            } else {
                Setting {
                    value: (50, 80),
                    warnings: seq![
                        "segments.context_bar.thresholds: green ("@ + decimal(g as nat)
                            + ") must be <= yellow ("@ + decimal(y as nat) + "); ignoring both"@,
                    ],
                }
            }
        },
    }
}

/// `fill`: the fill mode.
pub open spec fn fill_setting(entries: Seq<Entry<Value>>) -> Setting<Option<FillMode>> {
    match lookup(entries, "fill"@) {
        None => Setting { value: None, warnings: seq![] },
        Some(v) => match v.text() {
            Some(s) => match FillMode::named(s) {
                Some(mode) => Setting { value: Some(mode), warnings: seq![] },
                None => Setting { value: None, warnings: seq![fill_warning()] },
            },
            None => Setting { value: None, warnings: seq![fill_warning()] },
        },
    }
}

/// The report on a fill mode that there is not.
pub open spec fn fill_warning() -> Seq<char> {
    "segments.context_bar.fill: expected one of half|whole|eighth|braille; ignoring"@
}

/// `brackets`, `percentage` and `dim_empty`: flags, on unless set.
pub open spec fn toggle_setting(entries: Seq<Entry<Value>>, key: Seq<char>) -> Setting<bool> {
    match lookup(entries, key) {
        None => Setting { value: true, warnings: seq![] },
        Some(Value::Boolean(b)) => Setting { value: b, warnings: seq![] },
        Some(_) => Setting {
            value: true,
            warnings: seq!["segments.context_bar."@ + key + ": expected boolean; ignoring"@],
        },
    }
}

/// A field of `characters`: a text of one cell, in place of `current`.
pub open spec fn glyph_field(table: Seq<Entry<Value>>, field: Seq<char>, current: Seq<char>) -> Setting<
    Seq<char>,
> {
    match lookup(table, field) {
        None => Setting { value: current, warnings: seq![] },
        Some(v) => match v.text() {
            Some(s) => if columns(s) == 1 {
                Setting { value: s, warnings: seq![] }
            } else {
                Setting {
                    value: current,
                    warnings: seq![
                        "segments.context_bar.characters."@ + field
                            + ": expected a single-cell string, got "@ + decimal(columns(s))
                            + " cell(s); ignoring"@,
                    ],
                }
            },
            None => Setting {
                value: current,
                warnings: seq![
                    "segments.context_bar.characters."@ + field
                        + ": expected string; ignoring"@,
                ],
            },
        },
    }
}

/// `characters`: the glyphs, in place of those of `preset`.
pub open spec fn glyphs_setting(entries: Seq<Entry<Value>>, preset: GlyphsView) -> Setting<GlyphsView> {
    match table_at(entries, "characters"@) {
        None => Setting {
            value: preset,
            warnings: table_warnings(entries, "characters"@, "context_bar"@),
        },
        Some(table) => {
            let full = glyph_field(table, "full"@, preset.full);
            let partial = glyph_field(table, "partial"@, preset.partial);
            let empty = glyph_field(table, "empty"@, preset.empty);
            let open = glyph_field(table, "open"@, preset.open);
            let close = glyph_field(table, "close"@, preset.close);
            Setting {
                value: GlyphsView {
                    full: full.value,
                    partial: partial.value,
                    empty: empty.value,
                    open: open.value,
                    close: close.value,
                },
                warnings: full.warnings + partial.warnings + empty.warnings + open.warnings
                    + close.warnings,
            }
        },
    }
}

/// The glyphs before the user's own: those of the fill mode.
pub open spec fn preset_glyphs(mode: Option<FillMode>) -> GlyphsView {
    match mode {
        Some(m) => GlyphsView {
            full: m.preset().0,
            empty: m.preset().1,
            ..default_config().chars
        },
        None => default_config().chars,
    }
}

/// What `[segments.context_bar]` comes to.
pub open spec fn settings(entries: Seq<Entry<Value>>) -> Setting<ConfigView> {
    let cells = cells_setting(entries);
    let thresholds = thresholds_setting(entries);
    let fill = fill_setting(entries);
    let brackets = toggle_setting(entries, "brackets"@);
    let percentage = toggle_setting(entries, "percentage"@);
    let dim_empty = toggle_setting(entries, "dim_empty"@);
    let glyphs = glyphs_setting(entries, preset_glyphs(fill.value));
    Setting {
        value: ConfigView {
            width: cells.value,
            green: thresholds.value.0,
            yellow: thresholds.value.1,
            fill: match fill.value {
                Some(mode) => mode,
                None => FillMode::Half,
            },
            chars: glyphs.value,
            brackets: brackets.value,
            percentage: percentage.value,
            dim_empty: dim_empty.value,
        },
        warnings: cells.warnings + thresholds.warnings + fill.warnings + brackets.warnings
            + percentage.warnings + dim_empty.warnings + glyphs.warnings,
    }
}

// --- Reading the keys ---------------------------------------------------

fn read_threshold(table: &Table<Value>, field: &str, warnings: &mut Messages) -> (r: Option<u8>)
    ensures
        r == threshold_field(table@, field@).value,
        r matches Some(n) ==> n <= 100,
        final(warnings)@ == old(warnings)@ + threshold_field(table@, field@).warnings,
{
    let ghost before = warnings@;
    assert(before + seq![] =~= before);
    match table.get(field) {
        None => None,
        Some(v) => match v.as_integer_within(0, 100) {
            Some(n) => Some(n as u8),
            None => {
                let mut message = "segments.context_bar.thresholds.".to_owned();
                message.append(field);
                message.append(": expected 0..=100; ignoring");
                warnings.push(message);
                assert(warnings@ =~= before + seq![message@]);
                None
            },
        },
    }
}

fn read_toggle(extras: &Table<Value>, key: &str, warnings: &mut Messages) -> (r: bool)
    ensures
        r == toggle_setting(extras@, key@).value,
        final(warnings)@ == old(warnings)@ + toggle_setting(extras@, key@).warnings,
{
    let ghost before = warnings@;
    assert(before + seq![] =~= before);
    match extras.get(key) {
        None => true,
        Some(v) => match v {
            Value::Boolean(b) => *b,
            _ => {
                let mut message = "segments.context_bar.".to_owned();
                message.append(key);
                message.append(": expected boolean; ignoring");
                warnings.push(message);
                assert(warnings@ =~= before + seq![message@]);
                true
            },
        },
    }
}

fn read_glyph(table: &Table<Value>, field: &str, current: String, warnings: &mut Messages) -> (r: String)
    ensures
        r@ == glyph_field(table@, field@, current@).value,
        final(warnings)@ == old(warnings)@ + glyph_field(table@, field@, current@).warnings,
{
    let ghost before = warnings@;
    assert(before + seq![] =~= before);
    match table.get(field) {
        None => current,
        Some(v) => match v.as_str() {
            Some(s) => {
                let width: usize = display_width(s);
                if width == 1 {
                    s.to_owned()
                } else {
                    let mut message = "segments.context_bar.characters.".to_owned();
                    message.append(field);
                    message.append(": expected a single-cell string, got ");
                    message.append(decimal_string(width as u64).as_str());
                    message.append(" cell(s); ignoring");
                    warnings.push(message);
                    assert(warnings@ =~= before + seq![message@]);
                    current
                }
            },
            None => {
                let mut message = "segments.context_bar.characters.".to_owned();
                message.append(field);
                message.append(": expected string; ignoring");
                warnings.push(message);
                assert(warnings@ =~= before + seq![message@]);
                current
            },
        },
    }
}

fn read_thresholds(extras: &Table<Value>, warnings: &mut Messages) -> (r: Thresholds)
    ensures
        (r.first(), r.second()) == thresholds_setting(extras@).value,
        final(warnings)@ == old(warnings)@ + thresholds_setting(extras@).warnings,
{
    let ghost before = warnings@;
    assert(before + seq![] =~= before);
    let table = match parse_table(extras, "thresholds", "context_bar", warnings) {
        Some(table) => table,
        None => {
            return Thresholds::new(50, 80).unwrap();
        },
    };
    // Both fields are read before the pair is judged, so that a pair above
    // the defaults stands whichever field comes first.
    let reported: usize = warnings.lines.len();
    let green = read_threshold(table, "green", warnings);
    let yellow = read_threshold(table, "yellow", warnings);
    let ghost fields = threshold_field(table@, "green"@).warnings + threshold_field(
        table@,
        "yellow"@,
    ).warnings;
    assert(warnings@ =~= before + fields);
    assert(warnings@.len() == warnings.lines@.len());
    if warnings.lines.len() > reported {
        return Thresholds::new(50, 80).unwrap();
    }
    assert(fields =~= seq![]);
    let green: u8 = match green {
        Some(n) => n,
        None => 50,
    };
    let yellow: u8 = match yellow {
        Some(n) => n,
        None => 80,
    };
    match Thresholds::new(green, yellow) {
        Some(t) => t,
        None => {
            let mut message = "segments.context_bar.thresholds: green (".to_owned();
            message.append(decimal_string(green as u64).as_str());
            message.append(") must be <= yellow (");
            message.append(decimal_string(yellow as u64).as_str());
            message.append("); ignoring both");
            warnings.push(message);
            assert(warnings@ =~= before + seq![message@]);
            Thresholds::new(50, 80).unwrap()
        },
    }
}

fn read_cells(extras: &Table<Value>, warnings: &mut Messages) -> (r: u16)
    ensures
        r == cells_setting(extras@).value,
        r >= 1,
        final(warnings)@ == old(warnings)@ + cells_setting(extras@).warnings,
{
    let ghost before = warnings@;
    assert(before + seq![] =~= before);
    match extras.get("cells") {
        None => 10,
        Some(v) => match v.as_integer_within(1, 65535) {
            Some(n) => n,
            None => {
                let message = "segments.context_bar.cells: expected 1..=65535; ignoring".to_owned();
                warnings.push(message);
                assert(warnings@ =~= before + seq![message@]);
                10
            },
        },
    }
}

fn read_fill(extras: &Table<Value>, warnings: &mut Messages) -> (r: Option<FillMode>)
    ensures
        r == fill_setting(extras@).value,
        final(warnings)@ == old(warnings)@ + fill_setting(extras@).warnings,
{
    let ghost before = warnings@;
    assert(before + seq![] =~= before);
    match extras.get("fill") {
        None => None,
        Some(v) => {
            let mode = match v.as_str() {
                Some(s) => FillMode::parse(s),
                None => None,
            };
            if mode.is_none() {
                let message =
                    "segments.context_bar.fill: expected one of half|whole|eighth|braille; ignoring".to_owned();
                warnings.push(message);
                assert(warnings@ =~= before + seq![message@]);
            }
            mode
        },
    }
}

fn read_glyphs(extras: &Table<Value>, preset: BarChars, warnings: &mut Messages) -> (r: BarChars)
    ensures
        r@ == glyphs_setting(extras@, preset@).value,
        final(warnings)@ == old(warnings)@ + glyphs_setting(extras@, preset@).warnings,
{
    let ghost before = warnings@;
    assert(before + seq![] =~= before);
    let table = match parse_table(extras, "characters", "context_bar", warnings) {
        Some(table) => table,
        None => {
            return preset;
        },
    };
    let ghost a = glyph_field(table@, "full"@, preset.full@).warnings;
    let ghost b = glyph_field(table@, "partial"@, preset.partial@).warnings;
    let ghost c = glyph_field(table@, "empty"@, preset.empty@).warnings;
    let ghost d = glyph_field(table@, "open"@, preset.open@).warnings;
    let ghost e = glyph_field(table@, "close"@, preset.close@).warnings;
    proof {
        lemma_reports(before, a, b);
        lemma_reports(before, a + b, c);
        lemma_reports(before, a + b + c, d);
        lemma_reports(before, a + b + c + d, e);
    }
    let full = read_glyph(table, "full", preset.full, warnings);
    let partial = read_glyph(table, "partial", preset.partial, warnings);
    let empty = read_glyph(table, "empty", preset.empty, warnings);
    let open = read_glyph(table, "open", preset.open, warnings);
    let close = read_glyph(table, "close", preset.close, warnings);
    BarChars { full, partial, empty, open, close }
}

/// The fill of the context window as a bar.
#[derive(Debug, PartialEq, Eq)]
pub struct ContextBarSegment {
    pub cfg: Config,
}

impl Default for ContextBarSegment {
    fn default() -> (r: ContextBarSegment)
        ensures
            r.cfg@ == default_config(),
    {
        ContextBarSegment { cfg: Config::default() }
    }
}

/// The bar's style: that of the configuration, the percentage in whole points.
pub open spec fn style_of(cfg: ConfigView) -> BarStyleView {
    BarStyleView {
        width: cfg.width,
        chars: BarCharsView {
            full: cfg.chars.full,
            empty: cfg.chars.empty,
            open: cfg.chars.open,
            close: cfg.chars.close,
            partial: cfg.fill.partial_of(cfg.chars.partial),
        },
        brackets: cfg.brackets,
        percentage: if cfg.percentage {
            Some(0)
        } else {
            None
        },
        dim_empty: cfg.dim_empty,
    }
}

/// Is `p` the whole percentage that `used` rounds to?
pub open spec fn rounds_to(used: Percent, p: Percent) -> bool {
    &&& p.numerator() == used.points()
    &&& p.denominator() == 1
}

/// `rendered` is the bar that `cfg` makes of the whole percentage `p`.
pub open spec fn is_bar_of(cfg: Config, p: Percent, rendered: RenderedView) -> bool {
    let role = cfg.thresholds.role_of(p);
    let bar = RenderedView::of_spans(bar_runs(p, style_of(cfg@), role));
    rendered == (RenderedView { style: StyleView { role: Some(role), ..bar.style }, ..bar })
}

/// `rendered` is the bar that `cfg` makes of `used`.
pub open spec fn shows_bar(cfg: Config, used: Percent, rendered: RenderedView) -> bool {
    exists|p: Percent| #[trigger] rounds_to(used, p) && is_bar_of(cfg, p, rendered)
}

impl Config {
    /// Project the configuration onto the style of the shared bar.
    pub fn bar_style(&self) -> (r: BarStyle)
        ensures
            r@ == style_of(self@),
    {
        BarStyle {
            width: self.width,
            chars: DrawnChars {
                full: self.chars.full.clone(),
                empty: self.chars.empty.clone(),
                open: self.chars.open.clone(),
                close: self.chars.close.clone(),
                partial: self.fill.partial(self.chars.partial.as_str()),
            },
            brackets: self.brackets,
            percentage: if self.percentage {
                Some(0)
            } else {
                None
            },
            dim_empty: self.dim_empty,
        }
    }
}

impl ContextBarSegment {
    /// Read `[segments.context_bar]`. What makes no sense is reported and
    /// left at its default.
    pub fn from_extras(extras: &Table<Value>, warnings: &mut Messages) -> (r: ContextBarSegment)
        ensures
            r.cfg@ == settings(extras@).value,
            r.cfg.width >= 1,
            final(warnings)@ == old(warnings)@ + settings(extras@).warnings,
    {
        let ghost before = warnings@;
        let ghost a = cells_setting(extras@).warnings;
        let ghost b = thresholds_setting(extras@).warnings;
        let ghost c = fill_setting(extras@).warnings;
        let ghost d = toggle_setting(extras@, "brackets"@).warnings;
        let ghost e = toggle_setting(extras@, "percentage"@).warnings;
        let ghost f = toggle_setting(extras@, "dim_empty"@).warnings;
        let ghost g = glyphs_setting(
            extras@,
            preset_glyphs(fill_setting(extras@).value),
        ).warnings;
        proof {
            lemma_reports(before, a, b);
            lemma_reports(before, a + b, c);
            lemma_reports(before, a + b + c, d);
            lemma_reports(before, a + b + c + d, e);
            lemma_reports(before, a + b + c + d + e, f);
            lemma_reports(before, a + b + c + d + e + f, g);
        }
        let width: u16 = read_cells(extras, warnings);
        let thresholds = read_thresholds(extras, warnings);
        // The fill mode comes before the glyphs: a glyph of the user's own
        // wins over the mode's.
        let mode = read_fill(extras, warnings);
        let brackets: bool = read_toggle(extras, "brackets", warnings);
        let percentage: bool = read_toggle(extras, "percentage", warnings);
        let dim_empty: bool = read_toggle(extras, "dim_empty", warnings);
        let defaults = Config::default();
        let fill = match mode {
            Some(m) => m,
            None => FillMode::Half,
        };
        let preset = match mode {
            Some(m) => {
                let (full, empty) = m.preset_chars();
                BarChars {
                    full: full.to_owned(),
                    partial: defaults.chars.partial,
                    empty: empty.to_owned(),
                    open: defaults.chars.open,
                    close: defaults.chars.close,
                }
            },
            None => defaults.chars,
        };
        assert(preset@ == preset_glyphs(mode));
        let chars = read_glyphs(extras, preset, warnings);
        ContextBarSegment {
            cfg: Config { width, thresholds, fill, chars, brackets, percentage, dim_empty },
        }
    }
}

impl Segment for ContextBarSegment {
    open spec fn renders(&self, ctx: DataContext, rc: RenderContext, out: Outcome) -> bool {
        match ctx.status.context_window {
            Some(window) => match window.used {
                Some(used) => out matches Ok(Some(rendered)) && shows_bar(
                    self.cfg,
                    used,
                    rendered,
                ),
                None => out == Ok::<Option<RenderedView>, Seq<char>>(None),
            },
            None => out == Ok::<Option<RenderedView>, Seq<char>>(None),
        }
    }

    open spec fn shrinks(
        &self,
        ctx: DataContext,
        rc: RenderContext,
        target: u16,
        out: Option<RenderedView>,
    ) -> bool {
        out is None
    }

    open spec fn declares(&self, d: SegmentDefaults) -> bool {
        d == (SegmentDefaults {
            icon: Some("\u{f035b}"),
            ..SegmentDefaults::of_priority(112)
        })
    }

    open spec fn reads(&self, deps: Seq<DataDep>) -> bool {
        deps == seq![DataDep::Status]
    }

    open spec fn pins_color(&self, pinned: bool) -> bool {
        !pinned
    }
    open spec fn explains(&self, ctx: DataContext, reason: Option<Seq<char>>) -> bool {
        reason == match ctx.status.context_window {
            None => Some("context_bar: status.context_window absent; hiding"@),
            Some(w) => if w.used is None {
                Some("context_bar: used null; hiding"@)
            } else {
                None
            },
        }
    }

    fn render(&self, ctx: &DataContext, rc: &RenderContext) -> (r: RenderResult) {
        let window = match &ctx.status.context_window {
            Some(window) => window,
            None => {
                return Ok(None);
            },
        };
        let used = match window.used {
            Some(used) => used,
            None => {
                return Ok(None);
            },
        };
        // Cells, color and suffix all go by the one rounded percentage, which
        // is also the one that the context window segment shows.
        let pct = Percent::whole(used.round_ties_even());
        assert(rounds_to(used, pct));
        let role = self.cfg.thresholds.role_for(pct);
        let spans = render_bar(pct, &self.cfg.bar_style(), role);
        Ok(Some(RenderedSegment::from_spans(spans).with_role(role)))
    }

    fn shrink_to_fit(&self, ctx: &DataContext, rc: &RenderContext, target: u16) -> (r: Option<
        RenderedSegment,
    >) {
        None
    }

    fn data_deps(&self) -> (r: &'static [DataDep]) {
        let deps: &'static [DataDep] = &[DataDep::Status];
        assert(deps@ =~= seq![DataDep::Status]);
        deps
    }

    fn defaults(&self) -> (r: SegmentDefaults) {
        // The bar repeats the percentage, so it goes before what it repeats.
        SegmentDefaults::with_priority(112).with_icon("\u{f035b}")
    }

    fn user_color_pinned(&self) -> (r: bool) {
        false
    }

    fn hiding_reason(&self, ctx: &DataContext) -> (r: Option<&'static str>) {
        match &ctx.status.context_window {
            None => Some("context_bar: status.context_window absent; hiding"),
            Some(w) => if w.used.is_none() {
                Some("context_bar: used null; hiding")
            } else {
                None
            },
        }
    }
}

proof fn lemma_decimal_printable(n: nat)
    ensures
        is_printable(decimal(n)),
    decreases n,
{
    assert(!is_control(digit(n % 10)));
    if n >= 10 {
        lemma_decimal_printable(n / 10);
        assert forall|i: int| 0 <= i < decimal(n).len() implies !is_control(
            #[trigger] decimal(n)[i],
        ) by {
            if i < decimal(n / 10).len() {
                assert(decimal(n)[i] == decimal(n / 10)[i]);
            }
        }
    }
}

/// A run of printable text behind `runs` stands at the end of what they paint.
proof fn lemma_last_run_shows(runs: Seq<RunView>, last: RunView)
    requires
        is_printable(last.text),
        last.text.len() > 0,
    ensures
        runs_text(merged(runs.push(last))) == runs_text(merged(runs)) + last.text,
{
    lemma_printable(last.text);
    assert(runs.push(last).drop_last() =~= runs);
    let m = merged(runs);
    if m.len() > 0 && m.last().style == last.style {
        let grown = RunView { text: m.last().text + last.text, style: last.style };
        assert(m.drop_last().push(grown).drop_last() =~= m.drop_last());
        assert(runs_text(m.drop_last().push(grown)) =~= runs_text(m) + last.text);
    } else {
        assert(m.push(RunView { text: last.text, style: last.style }).drop_last() =~= m);
    }
}

/// The text of the percentage that `p`, in whole points, shows behind a bar.
proof fn lemma_suffix(used: Percent, p: Percent, style: BarStyleView, role: Role)
    requires
        rounds_to(used, p),
        used.wf(),
        style.percentage == Some(0u8),
    ensures
        suffix_run(p, style, role).len() == 1,
        suffix_run(p, style, role)[0].text == " "@ + decimal(used.points() as nat) + "%"@,
        used.points() >= 0,
{
    let points = used.points();
    assert(points >= 0) by {
        assert(used.numerator() as int / used.denominator() as int >= 0) by (nonlinear_arith)
            requires
                used.denominator() >= 1,
        ;
    }
    assert(round_half_even(points * 1, 1) == points);
}

proof fn lemma_suffix_printable(n: nat)
    ensures
        is_printable(" "@ + decimal(n) + "%"@),
        (" "@ + decimal(n) + "%"@).len() > 0,
{
    let number = decimal(n);
    let text = " "@ + number + "%"@;
    reveal_strlit(" ");
    reveal_strlit("%");
    lemma_decimal_printable(n);
    assert forall|i: int| 0 <= i < text.len() implies !is_control(#[trigger] text[i]) by {
        if 1 <= i <= number.len() {
            assert(text[i] == number[i - 1]);
        }
    }
}

/// The bar without the percentage behind it.
spec fn bare_runs(pct: Percent, style: BarStyleView, role: Role) -> Seq<RunView> {
    bar_runs(pct, style, role).drop_last()
}

proof fn lemma_bar_ends_in_suffix(pct: Percent, style: BarStyleView, role: Role)
    requires
        suffix_run(pct, style, role).len() == 1,
    ensures
        bar_runs(pct, style, role) == bare_runs(pct, style, role).push(
            suffix_run(pct, style, role)[0],
        ),
{
    let runs = bar_runs(pct, style, role);
    assert(runs.last() == suffix_run(pct, style, role)[0]);
    assert(runs =~= runs.drop_last().push(runs.last()));
}

proof fn lemma_bar_text(used: Percent, p: Percent, style: BarStyleView, role: Role)
    requires
        rounds_to(used, p),
        used.wf(),
        style.percentage == Some(0u8),
    ensures
        runs_text(merged(bar_runs(p, style, role))) == runs_text(
            merged(bare_runs(p, style, role)),
        ) + (" "@ + decimal(used.points() as nat) + "%"@),
        used.points() >= 0,
{
    lemma_suffix(used, p, style, role);
    lemma_suffix_printable(used.points() as nat);
    lemma_bar_ends_in_suffix(p, style, role);
    lemma_last_run_shows(bare_runs(p, style, role), suffix_run(p, style, role)[0]);
}

/// Where the bar shows a percentage, its text ends in the one that the context
/// window segment shows for the same use.
pub proof fn bar_agrees_with_window(cfg: Config, used: Percent, rendered: RenderedView) -> (front:
    Seq<char>)
    requires
        shows_bar(cfg, used, rendered),
        used.wf(),
        cfg.percentage,
    ensures
        rendered.text == front + " "@ + window_text(
            ContextWindow { used: Some(used), size: None },
        )->0,
{
    let p = choose|p: Percent| #[trigger] rounds_to(used, p) && is_bar_of(cfg, p, rendered);
    let role = cfg.thresholds.role_of(p);
    let style = style_of(cfg@);
    lemma_bar_text(used, p, style, role);
    let front = runs_text(merged(bare_runs(p, style, role)));
    let number = decimal(used.points() as nat);
    let percent = number + "%"@;
    assert(window_text(ContextWindow { used: Some(used), size: None }) == Some(percent));
    assert(rendered.text == runs_text(merged(bar_runs(p, style, role))));
    assert(front + (" "@ + number + "%"@) =~= front + " "@ + percent);
    front
}

/// A configuration makes one bar of a use.
pub proof fn bar_shows_one_way(cfg: Config, used: Percent, a: RenderedView, b: RenderedView)
    requires
        shows_bar(cfg, used, a),
        shows_bar(cfg, used, b),
    ensures
        a == b,
{
    let p = choose|p: Percent| #[trigger] rounds_to(used, p) && is_bar_of(cfg, p, a);
    let q = choose|q: Percent| #[trigger] rounds_to(used, q) && is_bar_of(cfg, q, b);
    lemma_same_percent(p, q);
}

} // verus!
