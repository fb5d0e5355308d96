use std::collections::BTreeMap;

use linesmith_core::data_context::{
    ContextWindow, DataContext, DataDep, ModelInfo, Percent, StatusContext, WorkspaceInfo,
};
use linesmith_core::diagnostics::Messages;
use linesmith_core::segments::context_bar::ContextBarSegment;
use linesmith_core::segments::context_window::ContextWindowSegment;
use linesmith_core::segments::progress_bar::{FillMode, Thresholds};
use linesmith_core::segments::{text_width, RenderContext, RenderedSegment, Segment};
use linesmith_core::theme::Role;
use linesmith_core::value::{Table, Value};

/// The percentage `used` as an exact fraction.
fn percent(used: f32) -> Percent {
    let mut den: u64 = 1;
    let mut num = f64::from(used);
    while num.fract() != 0.0 {
        num *= 2.0;
        den *= 2;
    }
    Percent::new(num as u64, den).expect("in range")
}

fn ctx(window: Option<ContextWindow>) -> DataContext {
    DataContext::new(StatusContext {
        model: Some(ModelInfo {
            display_name: "X".into(),
        }),
        workspace: Some(WorkspaceInfo {
            project_dir: "/repo".into(),
            git_worktree: None,
        }),
        context_window: window,
    })
}

fn window(used: f32, size: u32) -> ContextWindow {
    ContextWindow {
        used: Some(percent(used)),
        size: Some(size),
    }
}

fn value(v: &toml::Value) -> Value {
    match v {
        toml::Value::String(s) => Value::String(s.clone()),
        toml::Value::Integer(i) => Value::Integer(*i),
        toml::Value::Float(f) => Value::Float(f.to_bits()),
        toml::Value::Boolean(b) => Value::Boolean(*b),
        toml::Value::Datetime(d) => Value::Datetime(d.to_string()),
        toml::Value::Array(items) => Value::Array(items.iter().map(value).collect()),
        toml::Value::Table(t) => Value::Table(table(t, &[])),
    }
}

/// `t` without the keys that are read elsewhere.
fn table(t: &toml::Table, known: &[&str]) -> Table<Value> {
    let mut out = Table::new();
    for (key, v) in t {
        if !known.contains(&key.as_str()) {
            out = out.insert(key.clone(), value(v));
        }
    }
    out
}

fn bar_from(
    extras: &BTreeMap<String, toml::Value>,
    warn: &mut dyn FnMut(&str),
) -> ContextBarSegment {
    let keys: toml::Table = extras.clone().into_iter().collect();
    let mut warnings = Messages::new();
    let seg = ContextBarSegment::from_extras(&table(&keys, &[]), &mut warnings);
    for message in &warnings.lines {
        warn(message);
    }
    seg
}

fn rc() -> RenderContext {
    RenderContext::new(80)
}

fn bare() -> ContextBarSegment {
    strip_decoration(ContextBarSegment::default())
}

fn strip_decoration(mut seg: ContextBarSegment) -> ContextBarSegment {
    seg.cfg.brackets = false;
    seg.cfg.percentage = false;
    seg.cfg.dim_empty = false;
    seg
}

#[test]
fn renders_zero_percent_as_all_empty() {
    let r = bare()
        .render(&ctx(Some(window(0.0, 200_000))), &rc())
        .unwrap()
        .expect("rendered");
    assert_eq!(r.text(), "░░░░░░░░░░");
    assert_eq!(r.style().role, Some(Role::Success));
}

#[test]
fn renders_full_at_one_hundred() {
    let r = bare()
        .render(&ctx(Some(window(100.0, 200_000))), &rc())
        .unwrap()
        .expect("rendered");
    assert_eq!(r.text(), "██████████");
    assert_eq!(r.style().role, Some(Role::Error));
}

#[test]
fn renders_partial_block_when_fraction_geq_half() {
    let r = bare()
        .render(&ctx(Some(window(45.0, 200_000))), &rc())
        .unwrap()
        .expect("rendered");
    assert_eq!(r.text(), "████▓░░░░░");
}

#[test]
fn rounds_down_when_fraction_lt_half() {
    let r = bare()
        .render(&ctx(Some(window(42.0, 200_000))), &rc())
        .unwrap()
        .expect("rendered");
    assert_eq!(r.text(), "████░░░░░░");
}

#[test]
fn renders_fifty_percent_at_threshold_boundary_yellow() {
    let r = bare()
        .render(&ctx(Some(window(50.0, 200_000))), &rc())
        .unwrap()
        .expect("rendered");
    assert_eq!(r.text(), "█████░░░░░");
    assert_eq!(r.style().role, Some(Role::Warning));
}

#[test]
fn red_threshold_at_eighty_percent() {
    let r = ContextBarSegment::default()
        .render(&ctx(Some(window(80.0, 200_000))), &rc())
        .unwrap()
        .expect("rendered");
    assert_eq!(r.style().role, Some(Role::Error));
}

#[test]
fn green_at_one_below_threshold() {
    let r = ContextBarSegment::default()
        .render(&ctx(Some(window(49.0, 200_000))), &rc())
        .unwrap()
        .expect("rendered");
    assert_eq!(r.style().role, Some(Role::Success));
}

#[test]
fn yellow_at_one_below_red_threshold() {
    let r = ContextBarSegment::default()
        .render(&ctx(Some(window(79.0, 200_000))), &rc())
        .unwrap()
        .expect("rendered");
    assert_eq!(r.style().role, Some(Role::Warning));
}

#[test]
fn context_bar_hidden_when_context_window_absent() {
    assert_eq!(
        ContextBarSegment::default()
            .render(&ctx(None), &rc())
            .unwrap(),
        None
    );
}

#[test]
fn context_bar_defaults_use_expected_priority() {
    assert_eq!(ContextBarSegment::default().defaults().priority, 112);
}

#[test]
fn rendered_width_matches_configured_cells_for_default_chars() {
    let r = bare()
        .render(&ctx(Some(window(45.0, 200_000))), &rc())
        .unwrap()
        .expect("rendered");
    assert_eq!(r.width(), 10);
}

#[test]
fn from_extras_sets_width() {
    let extras = BTreeMap::from([("cells".to_string(), toml::Value::Integer(5))]);
    let seg = bar_from(&extras, &mut |_| {});
    assert_eq!(seg.cfg.width, 5);
}

#[test]
fn from_extras_warns_on_zero_width() {
    let extras = BTreeMap::from([("cells".to_string(), toml::Value::Integer(0))]);
    let mut warnings = vec![];
    let seg = bar_from(&extras, &mut |m| warnings.push(m.to_string()));
    assert_eq!(seg.cfg.width, 10);
    assert!(warnings.iter().any(|w| w.contains("cells")));
}

#[test]
fn from_extras_warns_on_negative_width() {
    let extras = BTreeMap::from([("cells".to_string(), toml::Value::Integer(-1))]);
    let mut warnings = vec![];
    let seg = bar_from(&extras, &mut |m| warnings.push(m.to_string()));
    assert_eq!(seg.cfg.width, 10);
    assert!(warnings.iter().any(|w| w.contains("cells")));
}

#[test]
fn from_extras_reads_thresholds_table() {
    let mut t = toml::value::Table::new();
    t.insert("green".to_string(), toml::Value::Integer(30));
    t.insert("yellow".to_string(), toml::Value::Integer(70));
    let extras = BTreeMap::from([("thresholds".to_string(), toml::Value::Table(t))]);
    let seg = bar_from(&extras, &mut |_| {});
    assert_eq!(seg.cfg.thresholds.green(), 30);
    assert_eq!(seg.cfg.thresholds.yellow(), 70);
}

#[test]
fn from_extras_accepts_high_pair_above_defaults() {
    let mut t = toml::value::Table::new();
    t.insert("green".to_string(), toml::Value::Integer(90));
    t.insert("yellow".to_string(), toml::Value::Integer(95));
    let extras = BTreeMap::from([("thresholds".to_string(), toml::Value::Table(t))]);
    let mut warnings = vec![];
    let seg = bar_from(&extras, &mut |m| warnings.push(m.to_string()));
    assert_eq!(seg.cfg.thresholds.green(), 90);
    assert_eq!(seg.cfg.thresholds.yellow(), 95);
    assert!(
        warnings.is_empty(),
        "no warnings expected; got {warnings:?}"
    );
}

#[test]
fn from_extras_accepts_low_pair_below_defaults() {
    let mut t = toml::value::Table::new();
    t.insert("green".to_string(), toml::Value::Integer(10));
    t.insert("yellow".to_string(), toml::Value::Integer(20));
    let extras = BTreeMap::from([("thresholds".to_string(), toml::Value::Table(t))]);
    let seg = bar_from(&extras, &mut |_| {});
    assert_eq!(seg.cfg.thresholds.green(), 10);
    assert_eq!(seg.cfg.thresholds.yellow(), 20);
}

#[test]
fn from_extras_rejects_inverted_pair_and_keeps_defaults() {
    let mut t = toml::value::Table::new();
    t.insert("green".to_string(), toml::Value::Integer(80));
    t.insert("yellow".to_string(), toml::Value::Integer(50));
    let extras = BTreeMap::from([("thresholds".to_string(), toml::Value::Table(t))]);
    let mut warnings = vec![];
    let seg = bar_from(&extras, &mut |m| warnings.push(m.to_string()));
    assert_eq!(seg.cfg.thresholds.green(), 50);
    assert_eq!(seg.cfg.thresholds.yellow(), 80);
    assert!(warnings
        .iter()
        .any(|w| w.contains("must be <=") && w.contains("ignoring both")));
}

#[test]
fn from_extras_rejects_lone_green_against_default_yellow() {
    let mut t = toml::value::Table::new();
    t.insert("green".to_string(), toml::Value::Integer(90));
    let extras = BTreeMap::from([("thresholds".to_string(), toml::Value::Table(t))]);
    let seg = bar_from(&extras, &mut |_| {});
    assert_eq!(seg.cfg.thresholds.green(), 50);
    assert_eq!(seg.cfg.thresholds.yellow(), 80);
}

#[test]
fn from_extras_warns_when_threshold_out_of_range() {
    let mut t = toml::value::Table::new();
    t.insert("green".to_string(), toml::Value::Integer(150));
    let extras = BTreeMap::from([("thresholds".to_string(), toml::Value::Table(t))]);
    let mut warnings = vec![];
    let seg = bar_from(&extras, &mut |m| warnings.push(m.to_string()));
    assert_eq!(seg.cfg.thresholds.green(), 50);
    assert_eq!(seg.cfg.thresholds.yellow(), 80);
    assert!(warnings.iter().any(|w| w.contains("green")));
}

#[test]
fn thresholds_new_rejects_inverted() {
    assert!(Thresholds::new(80, 50).is_none());
    assert!(Thresholds::new(50, 80).is_some());
    assert!(Thresholds::new(50, 50).is_some());
    assert!(Thresholds::new(0, 100).is_some());
    assert!(Thresholds::new(0, 101).is_none());
}

#[test]
fn from_extras_reads_characters_table() {
    let mut c = toml::value::Table::new();
    c.insert("full".to_string(), toml::Value::String("#".to_string()));
    c.insert("partial".to_string(), toml::Value::String("=".to_string()));
    c.insert("empty".to_string(), toml::Value::String("-".to_string()));
    let extras = BTreeMap::from([("characters".to_string(), toml::Value::Table(c))]);
    let seg = strip_decoration(bar_from(&extras, &mut |_| {}));
    let r = seg
        .render(&ctx(Some(window(45.0, 200_000))), &rc())
        .unwrap()
        .expect("rendered");
    assert_eq!(r.text(), "####=-----");
}

#[test]
fn custom_width_changes_bar_length() {
    let extras = BTreeMap::from([("cells".to_string(), toml::Value::Integer(5))]);
    let seg = strip_decoration(bar_from(&extras, &mut |_| {}));
    let r = seg
        .render(&ctx(Some(window(40.0, 200_000))), &rc())
        .unwrap()
        .expect("rendered");
    assert_eq!(r.text(), "██░░░");
}

#[test]
fn pct_is_rounded_before_threshold_so_text_and_bar_agree() {
    let r = ContextBarSegment::default()
        .render(&ctx(Some(window(49.9, 200_000))), &rc())
        .unwrap()
        .expect("rendered");
    assert_eq!(r.style().role, Some(Role::Warning));
}

#[test]
fn pct_is_rounded_so_high_fractional_paints_red_with_full_bar() {
    let r = bare()
        .render(&ctx(Some(window(99.9, 200_000))), &rc())
        .unwrap()
        .expect("rendered");
    assert_eq!(r.text(), "██████████");
    assert_eq!(r.style().role, Some(Role::Error));
}

#[test]
fn frac_above_half_renders_partial_distinct_from_round() {
    let r = bare()
        .render(&ctx(Some(window(47.0, 200_000))), &rc())
        .unwrap()
        .expect("rendered");
    assert_eq!(r.text(), "████▓░░░░░");
}

#[test]
fn pct_round_ties_to_even_matches_format_rounding() {
    let r = bare()
        .render(&ctx(Some(window(50.5, 200_000))), &rc())
        .unwrap()
        .expect("rendered");
    assert_eq!(r.text(), "█████░░░░░");
    assert_eq!(r.style().role, Some(Role::Warning));
}

#[test]
fn cells_one_below_half_renders_empty_with_color_role() {
    let extras = BTreeMap::from([("cells".to_string(), toml::Value::Integer(1))]);
    let seg = strip_decoration(bar_from(&extras, &mut |_| {}));
    let r = seg
        .render(&ctx(Some(window(30.0, 200_000))), &rc())
        .unwrap()
        .expect("rendered");
    assert_eq!(r.text(), "░");
    assert_eq!(r.style().role, Some(Role::Success));
}

#[test]
fn frac_just_below_half_drops_partial_block() {
    let r = bare()
        .render(&ctx(Some(window(44.0, 200_000))), &rc())
        .unwrap()
        .expect("rendered");
    assert_eq!(r.text(), "████░░░░░░");
}

#[test]
fn from_extras_warns_on_non_string_character() {
    let mut c = toml::value::Table::new();
    c.insert("full".to_string(), toml::Value::Integer(42));
    let extras = BTreeMap::from([("characters".to_string(), toml::Value::Table(c))]);
    let mut warnings = vec![];
    let seg = bar_from(&extras, &mut |m| warnings.push(m.to_string()));
    assert_eq!(seg.cfg.chars.full, "█".to_string());
    assert!(warnings
        .iter()
        .any(|w| w.contains("full") && w.contains("string")));
}

#[test]
fn from_extras_rejects_multi_cell_glyph() {
    let mut c = toml::value::Table::new();
    c.insert("full".to_string(), toml::Value::String("漢".to_string()));
    let extras = BTreeMap::from([("characters".to_string(), toml::Value::Table(c))]);
    let mut warnings = vec![];
    let seg = bar_from(&extras, &mut |m| warnings.push(m.to_string()));
    assert_eq!(seg.cfg.chars.full, "█".to_string());
    assert!(warnings.iter().any(|w| w.contains("single-cell")));
}

#[test]
fn from_extras_partial_characters_override_leaves_others_default() {
    let mut c = toml::value::Table::new();
    c.insert("full".to_string(), toml::Value::String("#".to_string()));
    let extras = BTreeMap::from([("characters".to_string(), toml::Value::Table(c))]);
    let seg = bar_from(&extras, &mut |_| {});
    assert_eq!(seg.cfg.chars.full, "#");
    assert_eq!(seg.cfg.chars.partial, "▓".to_string());
    assert_eq!(seg.cfg.chars.empty, "░".to_string());
}

#[test]
fn priority_drops_before_context_window() {
    let bar_pri = ContextBarSegment::default().defaults().priority;
    let window_pri = ContextWindowSegment
        .defaults()
        .priority;
    assert!(bar_pri > window_pri);
}

#[test]
fn one_cell_width_renders_single_char() {
    let extras = BTreeMap::from([("cells".to_string(), toml::Value::Integer(1))]);
    let seg = strip_decoration(bar_from(&extras, &mut |_| {}));
    let empty = seg
        .render(&ctx(Some(window(0.0, 200_000))), &rc())
        .unwrap()
        .expect("rendered");
    assert_eq!(empty.text(), "░");
    let full = seg
        .render(&ctx(Some(window(100.0, 200_000))), &rc())
        .unwrap()
        .expect("rendered");
    assert_eq!(full.text(), "█");
}

fn span_pairs(r: &RenderedSegment) -> Vec<(String, Option<Role>)> {
    r.spans()
        .expect("context_bar always renders spans")
        .iter()
        .map(|s| (s.text().to_string(), s.style().role))
        .collect()
}

#[test]
fn default_renders_brackets_percentage_and_dim_trough() {
    let r = ContextBarSegment::default()
        .render(&ctx(Some(window(42.0, 200_000))), &rc())
        .unwrap()
        .expect("rendered");
    assert_eq!(r.text(), "[████░░░░░░] 42%");
    assert_eq!(r.style().role, Some(Role::Success));
}

#[test]
fn default_spans_color_frame_fill_trough_and_percentage() {
    let r = ContextBarSegment::default()
        .render(&ctx(Some(window(42.0, 200_000))), &rc())
        .unwrap()
        .expect("rendered");
    assert_eq!(
        span_pairs(&r),
        vec![
            ("[".to_string(), Some(Role::Muted)),
            ("████".to_string(), Some(Role::Success)),
            ("░░░░░░]".to_string(), Some(Role::Muted)),
            (" 42%".to_string(), Some(Role::Success)),
        ]
    );
}

#[test]
fn brackets_false_omits_delimiters() {
    let mut seg = ContextBarSegment::default();
    seg.cfg.brackets = false;
    let r = seg
        .render(&ctx(Some(window(42.0, 200_000))), &rc())
        .unwrap()
        .expect("rendered");
    assert_eq!(r.text(), "████░░░░░░ 42%");
}

#[test]
fn percentage_false_omits_suffix() {
    let mut seg = ContextBarSegment::default();
    seg.cfg.percentage = false;
    let r = seg
        .render(&ctx(Some(window(42.0, 200_000))), &rc())
        .unwrap()
        .expect("rendered");
    assert_eq!(r.text(), "[████░░░░░░]");
}

#[test]
fn dim_empty_false_colors_trough_with_threshold_role() {
    let mut seg = ContextBarSegment::default();
    seg.cfg.dim_empty = false;
    let r = seg
        .render(&ctx(Some(window(42.0, 200_000))), &rc())
        .unwrap()
        .expect("rendered");
    assert_eq!(
        span_pairs(&r),
        vec![
            ("[".to_string(), Some(Role::Muted)),
            ("████░░░░░░".to_string(), Some(Role::Success)),
            ("]".to_string(), Some(Role::Muted)),
            (" 42%".to_string(), Some(Role::Success)),
        ]
    );
}

#[test]
fn all_decoration_off_collapses_to_a_single_styled_run() {
    let r = bare()
        .render(&ctx(Some(window(42.0, 200_000))), &rc())
        .unwrap()
        .expect("rendered");
    assert!(r.spans().is_none(), "single-style bar folds to no spans");
    assert_eq!(r.text(), "████░░░░░░");
    assert_eq!(r.style().role, Some(Role::Success));
}

#[test]
fn percentage_uses_bankers_rounding_to_match_text() {
    let mut seg = ContextBarSegment::default();
    seg.cfg.brackets = false;
    let r = seg
        .render(&ctx(Some(window(50.5, 200_000))), &rc())
        .unwrap()
        .expect("rendered");
    assert!(r.text().ends_with(" 50%"), "got {:?}", r.text());
}

#[test]
fn from_extras_reads_open_close_chars() {
    let mut c = toml::value::Table::new();
    c.insert("open".to_string(), toml::Value::String("(".to_string()));
    c.insert("close".to_string(), toml::Value::String(")".to_string()));
    let extras = BTreeMap::from([("characters".to_string(), toml::Value::Table(c))]);
    let seg = bar_from(&extras, &mut |_| {});
    assert_eq!(seg.cfg.chars.open, "(");
    assert_eq!(seg.cfg.chars.close, ")");
    let r = seg
        .render(&ctx(Some(window(100.0, 200_000))), &rc())
        .unwrap()
        .expect("rendered");
    assert_eq!(r.text(), "(██████████) 100%");
}

#[test]
fn from_extras_reads_toggle_bools() {
    let extras = BTreeMap::from([
        ("brackets".to_string(), toml::Value::Boolean(false)),
        ("percentage".to_string(), toml::Value::Boolean(false)),
        ("dim_empty".to_string(), toml::Value::Boolean(false)),
    ]);
    let seg = bar_from(&extras, &mut |_| {});
    assert!(!seg.cfg.brackets);
    assert!(!seg.cfg.percentage);
    assert!(!seg.cfg.dim_empty);
}

#[test]
fn from_extras_warns_on_non_bool_toggle() {
    let extras = BTreeMap::from([("percentage".to_string(), toml::Value::Integer(1))]);
    let mut warnings = vec![];
    let seg = bar_from(&extras, &mut |m| warnings.push(m.to_string()));
    assert!(seg.cfg.percentage);
    assert!(warnings
        .iter()
        .any(|w| w.contains("percentage") && w.contains("boolean")));
}

#[test]
fn from_extras_rejects_multi_cell_bracket() {
    let mut c = toml::value::Table::new();
    c.insert("open".to_string(), toml::Value::String("漢".to_string()));
    let extras = BTreeMap::from([("characters".to_string(), toml::Value::Table(c))]);
    let mut warnings = vec![];
    let seg = bar_from(&extras, &mut |m| warnings.push(m.to_string()));
    assert_eq!(seg.cfg.chars.open, "[".to_string());
    assert!(warnings
        .iter()
        .any(|w| w.contains("open") && w.contains("single-cell")));
}

#[test]
fn from_extras_parses_eighth_fill() {
    let extras = BTreeMap::from([("fill".to_string(), toml::Value::String("eighth".into()))]);
    let seg = bar_from(&extras, &mut |_| {});
    assert_eq!(seg.cfg.fill, FillMode::Eighth);
}

#[test]
fn braille_fill_swaps_full_and_empty_preset_glyphs() {
    let extras = BTreeMap::from([("fill".to_string(), toml::Value::String("braille".into()))]);
    let seg = bar_from(&extras, &mut |_| {});
    assert_eq!(seg.cfg.fill, FillMode::Braille);
    assert_eq!(seg.cfg.chars.full, "⣿");
    assert_eq!(seg.cfg.chars.empty, "⠀");
    let r = seg
        .render(&ctx(Some(window(100.0, 200_000))), &rc())
        .unwrap()
        .expect("rendered");
    assert_eq!(r.text(), "[⣿⣿⣿⣿⣿⣿⣿⣿⣿⣿] 100%");
}

#[test]
fn characters_override_wins_over_fill_preset() {
    let mut c = toml::value::Table::new();
    c.insert("full".to_string(), toml::Value::String("#".into()));
    let extras = BTreeMap::from([
        ("fill".to_string(), toml::Value::String("braille".into())),
        ("characters".to_string(), toml::Value::Table(c)),
    ]);
    let seg = bar_from(&extras, &mut |_| {});
    assert_eq!(seg.cfg.chars.full, "#");
    assert_eq!(seg.cfg.chars.empty, "⠀");
}

#[test]
fn from_extras_warns_on_unknown_fill() {
    let extras = BTreeMap::from([("fill".to_string(), toml::Value::String("rainbow".into()))]);
    let mut warnings = vec![];
    let seg = bar_from(&extras, &mut |m| warnings.push(m.to_string()));
    assert_eq!(seg.cfg.fill, FillMode::Half);
    assert!(warnings.iter().any(|w| w.contains("fill")));
}

#[test]
fn zero_percent_span_structure_is_all_trough() {
    let r = ContextBarSegment::default()
        .render(&ctx(Some(window(0.0, 200_000))), &rc())
        .unwrap()
        .expect("rendered");
    assert_eq!(
        span_pairs(&r),
        vec![
            ("[░░░░░░░░░░]".to_string(), Some(Role::Muted)),
            (" 0%".to_string(), Some(Role::Success)),
        ]
    );
}

#[test]
fn full_percent_span_structure_has_no_trough() {
    let r = ContextBarSegment::default()
        .render(&ctx(Some(window(100.0, 200_000))), &rc())
        .unwrap()
        .expect("rendered");
    assert_eq!(
        span_pairs(&r),
        vec![
            ("[".to_string(), Some(Role::Muted)),
            ("██████████".to_string(), Some(Role::Error)),
            ("]".to_string(), Some(Role::Muted)),
            (" 100%".to_string(), Some(Role::Error)),
        ]
    );
}

#[test]
fn decorated_render_width_matches_text_width() {
    let r = ContextBarSegment::default()
        .render(&ctx(Some(window(42.0, 200_000))), &rc())
        .unwrap()
        .expect("rendered");
    assert_eq!(r.width(), 16);
    assert_eq!(r.width(), text_width(r.text()));
}

#[test]
fn percentage_rounding_matches_format_at_more_boundaries() {
    let mut seg = ContextBarSegment::default();
    seg.cfg.brackets = false;
    for (used, expected) in [(49.5, " 50%"), (50.4, " 50%"), (50.6, " 51%")] {
        let r = seg
            .render(&ctx(Some(window(used, 200_000))), &rc())
            .unwrap()
            .expect("rendered");
        assert!(
            r.text().ends_with(expected),
            "{used} → expected suffix {expected:?}, got {:?}",
            r.text()
        );
    }
}

#[test]
fn bar_and_window_show_the_same_percentage() {
    for used in [0.0, 0.5, 1.5, 42.3, 49.9, 50.5, 99.5, 100.0] {
        let data = ctx(Some(ContextWindow {
            used: Some(percent(used)),
            size: None,
        }));
        let bar = ContextBarSegment::default()
            .render(&data, &rc())
            .unwrap()
            .expect("rendered");
        let text = ContextWindowSegment
            .render(&data, &rc())
            .unwrap()
            .expect("rendered");
        assert!(
            bar.text().ends_with(&format!(" {}", text.text())),
            "{used}: {:?} against {:?}",
            bar.text(),
            text.text()
        );
    }
}

#[test]
fn threshold_pair_falls_with_a_field_out_of_range() {
    for (green, yellow, field) in [(150, 95, "green"), (20, -1, "yellow")] {
        let mut t = toml::value::Table::new();
        t.insert("green".to_string(), toml::Value::Integer(green));
        t.insert("yellow".to_string(), toml::Value::Integer(yellow));
        let extras = BTreeMap::from([("thresholds".to_string(), toml::Value::Table(t))]);
        let mut warnings = Vec::<String>::new();
        let seg = bar_from(&extras, &mut |m| warnings.push(m.to_string()));
        assert_eq!(seg.cfg.thresholds.green(), 50);
        assert_eq!(seg.cfg.thresholds.yellow(), 80);
        assert_eq!(
            warnings,
            vec![format!(
                "segments.context_bar.thresholds.{field}: expected 0..=100; ignoring"
            )]
        );
    }
}

#[test]
fn tables_of_the_bar_that_are_none_are_reported() {
    for key in ["thresholds", "characters"] {
        let extras = BTreeMap::from([(key.to_string(), toml::Value::Integer(1))]);
        let mut warnings = Vec::<String>::new();
        let seg = bar_from(&extras, &mut |m| warnings.push(m.to_string()));
        assert_eq!(seg, ContextBarSegment::default());
        assert_eq!(
            warnings,
            vec![format!("segments.context_bar.{key}: expected table; ignoring")]
        );
    }
}

#[test]
fn bar_says_why_it_hides() {
    let bar = ContextBarSegment::default();
    assert_eq!(
        bar.hiding_reason(&ctx(None)),
        Some("context_bar: status.context_window absent; hiding")
    );
    let unknown = ContextWindow {
        used: None,
        size: Some(1),
    };
    assert_eq!(
        bar.hiding_reason(&ctx(Some(unknown))),
        Some("context_bar: used null; hiding")
    );
    let nothing = ContextWindow {
        used: None,
        size: None,
    };
    assert_eq!(
        ContextWindowSegment.hiding_reason(&ctx(Some(nothing))),
        Some("context_window: used and size both null; hiding")
    );
}

#[test]
fn context_bar_reads_only_the_payload() {
    assert_eq!(ContextBarSegment::default().data_deps(), &[DataDep::Status]);
}
