use std::borrow::Cow;

use linesmith_core::config::{
    Config, IconMode, LayoutMode, LayoutOptions, LineConfig, LineEntry, LineEntryItem,
    NamedOverride, NumberedLine, RawEntry, RawField, RawLine, SegmentOverride, UserStyle,
    WidthBoundsConfig,
};
use linesmith_core::data_context::{
    DataContext, DataDep, ModelInfo, StatusContext, WorkspaceInfo,
};
use linesmith_core::diagnostics::Messages;
use linesmith_core::layout::{render_with_warn, LayoutObservers};
use linesmith_core::plugins::output::validate_return;
use linesmith_core::plugins::script::ScriptValue;
use linesmith_core::segments::builder::catalog::{resolve_segment_id, HostSegment};
use linesmith_core::segments::builder::lines::{parse_layout_separator, validate_powerline_width};
use linesmith_core::segments::builder::overrides::apply_override;
use linesmith_core::segments::{
    built_in_by_id, LineItem, PowerlineWidth, RenderContext, RenderResult, RenderedSegment,
    Segment, SegmentBox, SegmentDefaults, SegmentError, Separator, WidthBounds,
    BUILT_IN_SEGMENT_IDS, DEFAULT_SEGMENT_IDS,
};
use linesmith_core::theme::{Color, Role, Style};
use linesmith_core::value::{Table, Value, ValueKind};
use rhai::{Array, Dynamic, Engine, Scope};

/// A segment of a test: what it renders, and the rest where it matters.
trait Stub {
    fn render(&self, ctx: &DataContext, rc: &RenderContext) -> RenderResult;

    fn shrink_to_fit(
        &self,
        _ctx: &DataContext,
        _rc: &RenderContext,
        _target: u16,
    ) -> Option<RenderedSegment> {
        None
    }

    fn defaults(&self) -> SegmentDefaults {
        SegmentDefaults::default()
    }

    fn user_color_pinned(&self) -> bool {
        false
    }

    fn hiding_reason(&self) -> Option<&'static str> {
        None
    }
}

struct Stubbed<S>(S);

impl<S: Stub + Send> Segment for Stubbed<S> {
    fn render(&self, ctx: &DataContext, rc: &RenderContext) -> RenderResult {
        self.0.render(ctx, rc)
    }

    fn shrink_to_fit(
        &self,
        ctx: &DataContext,
        rc: &RenderContext,
        target: u16,
    ) -> Option<RenderedSegment> {
        self.0.shrink_to_fit(ctx, rc, target)
    }

    fn data_deps(&self) -> &'static [DataDep] {
        &[DataDep::Status]
    }

    fn defaults(&self) -> SegmentDefaults {
        self.0.defaults()
    }

    fn user_color_pinned(&self) -> bool {
        self.0.user_color_pinned()
    }

    fn hiding_reason(&self, _ctx: &DataContext) -> Option<&'static str> {
        self.0.hiding_reason()
    }
}

fn stub<S: Stub + Send + 'static>(s: S) -> SegmentBox {
    SegmentBox {
        segment: Box::new(Stubbed(s)),
    }
}

fn value(v: &toml::Value) -> Value {
    match v {
        toml::Value::String(s) => Value::String(s.clone()),
        toml::Value::Integer(i) => Value::Integer(*i),
        toml::Value::Float(f) => Value::Float(f.to_bits()),
        toml::Value::Boolean(b) => Value::Boolean(*b),
        toml::Value::Datetime(d) => Value::Datetime(d.to_string()),
        toml::Value::Array(items) => Value::Array(items.iter().map(value).collect()),
        toml::Value::Table(t) => Value::Table(table(t, &[])),
    }
}

/// `t` without the keys that are read elsewhere.
fn table(t: &toml::Table, known: &[&str]) -> Table<Value> {
    let mut out = Table::new();
    for (key, v) in t {
        if !known.contains(&key.as_str()) {
            out = out.insert(key.clone(), value(v));
        }
    }
    out
}

/// An inline table of a segment list, or why it cannot be read.
fn inline_entry(t: &toml::Table) -> Result<LineEntryItem, String> {
    let text = |key: &str| match t.get(key) {
        None => Ok(None),
        Some(toml::Value::String(s)) => Ok(Some(s.clone())),
        Some(other) => Err(format!("invalid type: {}, expected a string", other.type_str())),
    };
    let flag = |key: &str| match t.get(key) {
        None => Ok(None),
        Some(toml::Value::Boolean(b)) => Ok(Some(*b)),
        Some(other) => Err(format!("invalid type: {}, expected a boolean", other.type_str())),
    };
    Ok(LineEntryItem {
        kind: text("type")?,
        character: text("character")?,
        merge: flag("merge")?,
        group: flag("group")?,
        extra: table(t, &["type", "character", "merge", "group"]),
    })
}

/// An item of `[line].segments`. What cannot be read is an entry without a
/// `type`.
fn top_entry(v: &toml::Value) -> LineEntry {
    let blank = || LineEntryItem {
        kind: None,
        character: None,
        merge: None,
        group: None,
        extra: Table::new(),
    };
    match v {
        toml::Value::String(s) => LineEntry::Id(s.clone()),
        toml::Value::Table(t) => LineEntry::Item(inline_entry(t).unwrap_or_else(|_| blank())),
        _ => LineEntry::Item(blank()),
    }
}

fn kind_of(v: &toml::Value) -> ValueKind {
    value(v).kind()
}

fn raw_entry(v: &toml::Value) -> RawEntry {
    match v {
        toml::Value::String(s) => RawEntry::Entry(LineEntry::Id(s.clone())),
        toml::Value::Table(t) => match inline_entry(t) {
            Ok(item) => RawEntry::Entry(LineEntry::Item(item)),
            Err(message) => RawEntry::Unreadable(message),
        },
        other => RawEntry::Other(kind_of(other)),
    }
}

fn raw_field(v: &toml::Value) -> RawField {
    match v {
        toml::Value::Array(items) => RawField::List(items.iter().map(raw_entry).collect()),
        other => RawField::Other(kind_of(other)),
    }
}

fn raw_line(v: &toml::Value) -> RawLine {
    match v {
        toml::Value::Table(t) => {
            let mut fields = Table::new();
            for (key, field) in t {
                fields = fields.insert(key.clone(), raw_field(field));
            }
            RawLine::Table(fields)
        }
        other => RawLine::Other(kind_of(other)),
    }
}

fn line_config(t: &toml::Table) -> LineConfig {
    LineConfig {
        segments: match t.get("segments") {
            Some(toml::Value::Array(items)) => items.iter().map(top_entry).collect(),
            _ => Vec::new(),
        },
        numbered: t
            .iter()
            .filter(|(key, _)| key.as_str() != "segments")
            .map(|(key, v)| NumberedLine {
                key: key.clone(),
                line: raw_line(v),
            })
            .collect(),
    }
}

fn parse_style(text: &str) -> Result<Style, String> {
    let mut style = Style::default();
    for word in text.split_whitespace() {
        match word {
            "bold" => style.bold = true,
            "italic" => style.italic = true,
            "underline" => style.underline = true,
            "dim" => style.dim = true,
            "role:accent" => style.role = Some(Role::Accent),
            "fg:#ff0000" => style.fg = Some(Color::TrueColor { r: 255, g: 0, b: 0 }),
            other => return Err(format!("unknown style token '{other}'")),
        }
    }
    Ok(style)
}

fn segment_override(t: &toml::Table) -> SegmentOverride {
    let cells = |t: &toml::Table, key: &str| {
        t.get(key)
            .and_then(|v| v.as_integer())
            .and_then(|n| u16::try_from(n).ok())
    };
    SegmentOverride {
        priority: t
            .get("priority")
            .and_then(|v| v.as_integer())
            .and_then(|n| u8::try_from(n).ok()),
        width: t
            .get("width")
            .and_then(|v| v.as_table())
            .map(|w| WidthBoundsConfig {
                min: cells(w, "min"),
                max: cells(w, "max"),
            }),
        style: t.get("style").and_then(|v| v.as_str()).map(|s| UserStyle {
            text: s.to_string(),
            parsed: parse_style(s),
        }),
        icon: t.get("icon").and_then(|v| v.as_str()).map(str::to_string),
        extra: table(t, &["priority", "width", "style", "icon"]),
    }
}

fn config(text: &str) -> Config {
    let t: toml::Table = text.parse().expect("parse");
    Config {
        layout: match t.get("layout").and_then(|v| v.as_str()) {
            Some("multi-line") => LayoutMode::MultiLine,
            _ => LayoutMode::SingleLine,
        },
        line: t.get("line").and_then(|v| v.as_table()).map(line_config),
        layout_options: t
            .get("layout_options")
            .and_then(|v| v.as_table())
            .map(|o| LayoutOptions {
                separator: o.get("separator").and_then(|v| v.as_str()).map(str::to_string),
                powerline_width: o
                    .get("powerline_width")
                    .and_then(|v| v.as_integer())
                    .and_then(|n| u16::try_from(n).ok()),
                icons: match o.get("icons").and_then(|v| v.as_str()) {
                    Some("off") => IconMode::Off,
                    _ => IconMode::NerdFont,
                },
            }),
        segments: t
            .get("segments")
            .and_then(|v| v.as_table())
            .map(|s| {
                s.iter()
                    .filter_map(|(id, v)| {
                        v.as_table().map(|t| NamedOverride {
                            id: id.clone(),
                            settings: segment_override(t),
                        })
                    })
                    .collect()
            })
            .unwrap_or_default(),
    }
}

/// The segments that the host brings: a text under a priority, and an icon.
struct HostText {
    id: &'static str,
    priority: u8,
    icon: Option<&'static str>,
}

impl Stub for HostText {
    fn render(&self, ctx: &DataContext, _rc: &RenderContext) -> RenderResult {
        let text = match self.id {
            "model" => ctx.status.model.as_ref().map(|m| m.display_name.clone()),
            "workspace" => ctx.status.workspace.as_ref().map(|w| {
                w.project_dir
                    .rsplit('/')
                    .next()
                    .unwrap_or_default()
                    .to_string()
            }),
            _ => None,
        };
        Ok(text.map(|t| RenderedSegment::new(&t).with_role(Role::Primary)))
    }

    fn defaults(&self) -> SegmentDefaults {
        let d = SegmentDefaults::with_priority(self.priority);
        match self.icon {
            Some(icon) => d.with_icon(icon),
            None => d,
        }
    }
}

fn host(id: &str, _extras: Option<&Table<Value>>) -> HostSegment {
    let known = [
        ("model", 64, Some("\u{2726}")),
        ("workspace", 16, None),
        ("cost", 192, None),
        ("effort", 160, None),
        ("session_duration", 168, None),
        ("rate_limit_5h", 96, None),
        ("rate_limit_7d", 97, None),
    ];
    let segment = BUILT_IN_SEGMENT_IDS.iter().find(|b| **b == id).map(|b| {
        let (priority, icon) = known
            .iter()
            .find(|(k, _, _)| k == b)
            .map_or((128, None), |(_, p, i)| (*p, *i));
        stub(HostText {
            id: b,
            priority,
            icon,
        })
    });
    HostSegment {
        segment,
        warnings: Vec::new(),
    }
}

/// The plugins of a test: their scripts.
struct Plugins {
    scripts: Vec<(String, String)>,
}

/// The one plugin `script`, under the `ID` that it declares.
fn plugins(script: &str) -> Plugins {
    let id = script
        .lines()
        .find_map(|l| l.trim().strip_prefix("const ID = \""))
        .and_then(|l| l.split('"').next())
        .expect("script declares its id");
    Plugins {
        scripts: vec![(id.to_string(), script.to_string())],
    }
}

struct ScriptSegment {
    id: String,
    script: String,
    config: rhai::Map,
}

impl Stub for ScriptSegment {
    fn render(&self, _ctx: &DataContext, _rc: &RenderContext) -> RenderResult {
        let engine = Engine::new();
        let ast = engine.compile(&self.script).expect("script compiles");
        let mut ctx = rhai::Map::new();
        ctx.insert("config".into(), Dynamic::from_map(self.config.clone()));
        let returned: Dynamic = engine
            .call_fn(&mut Scope::new(), &ast, "render", (ctx,))
            .expect("script runs");
        validate_return(&script_value(returned), &self.id)
            .map_err(|e| SegmentError::new(&format!("{e:?}")))
    }
}

fn script_value(value: Dynamic) -> ScriptValue {
    if value.is_unit() {
        return ScriptValue::Unit;
    }
    if value.is_string() {
        return ScriptValue::Text(value.into_string().expect("string"));
    }
    if value.is_array() {
        let items = value.cast::<Array>();
        return ScriptValue::Array(items.into_iter().map(script_value).collect());
    }
    if value.is_map() {
        let mut table = Table::new();
        for (key, item) in value.cast::<rhai::Map>() {
            table = table.insert(key.to_string(), script_value(item));
        }
        return ScriptValue::Table(table);
    }
    ScriptValue::Other
}

fn script_map(table: &Table<ScriptValue>) -> rhai::Map {
    let mut map = rhai::Map::new();
    for entry in table.entries() {
        let value = match &entry.value {
            ScriptValue::Text(s) => Dynamic::from(s.clone()),
            ScriptValue::Integer(i) => Dynamic::from_int(*i),
            ScriptValue::Boolean(b) => Dynamic::from_bool(*b),
            _ => Dynamic::UNIT,
        };
        map.insert(entry.key.as_str().into(), value);
    }
    map
}

fn ids_and_maker(
    plugins: Option<Plugins>,
) -> (Vec<String>, impl Fn(&str, Table<ScriptValue>) -> SegmentBox) {
    let scripts = plugins.map_or(Vec::new(), |p| p.scripts);
    let ids = scripts.iter().map(|(id, _)| id.clone()).collect();
    let make = move |id: &str, config: Table<ScriptValue>| {
        let (_, script) = scripts
            .iter()
            .find(|(known, _)| known == id)
            .expect("only declared plugins are made");
        stub(ScriptSegment {
            id: id.to_string(),
            script: script.clone(),
            config: script_map(&config),
        })
    };
    (ids, make)
}

fn build_segments(
    cfg: Option<&Config>,
    plugins: Option<Plugins>,
    mut warn: impl FnMut(&str),
) -> Vec<LineItem> {
    let (ids, make) = ids_and_maker(plugins);
    let mut warnings = Messages::new();
    let items = linesmith_core::build_segments(cfg, ids, &host, &make, &mut warnings);
    for message in &warnings.lines {
        warn(message);
    }
    items
}

fn build_lines(
    cfg: Option<&Config>,
    plugins: Option<Plugins>,
    mut warn: impl FnMut(&str),
) -> Vec<Vec<LineItem>> {
    let (ids, make) = ids_and_maker(plugins);
    let mut warnings = Messages::new();
    let lines = linesmith_core::build_lines(cfg, ids, &host, &make, &mut warnings);
    for message in &warnings.lines {
        warn(message);
    }
    lines
}

fn catalog_built_in(id: &str) -> Option<SegmentBox> {
    built_in_by_id(id, None, &host, &mut Messages::new())
}

fn parsed(text: &str) -> Result<Config, String> {
    Ok(config(text))
}

fn plain(_style: &Style) -> String {
    String::new()
}

fn model_ctx(display_name: &str) -> DataContext {
    DataContext::new(StatusContext {
        model: Some(ModelInfo {
            display_name: display_name.into(),
        }),
        workspace: Some(WorkspaceInfo {
            project_dir: "/repo".into(),
            git_worktree: None,
        }),
        context_window: None,
    })
}

fn stub_ctx() -> DataContext {
    model_ctx("X")
}

fn built(cfg: Option<&Config>) -> Vec<LineItem> {
    build_segments(cfg, None, |_| {})
}

fn built_with_warns(cfg: Option<&Config>) -> (Vec<LineItem>, Vec<String>) {
    let mut warns = Vec::new();
    let items = build_segments(cfg, None, |m| warns.push(m.to_string()));
    (items, warns)
}

fn segment_count(items: &[LineItem]) -> usize {
    items
        .iter()
        .filter(|i| matches!(i, LineItem::Segment { .. }))
        .count()
}

fn nth_segment(items: &[LineItem], n: usize) -> &dyn Segment {
    items
        .iter()
        .filter_map(|i| match i {
            LineItem::Segment { segment, .. } => Some(segment.segment.as_ref()),
            _ => None,
        })
        .nth(n)
        .unwrap_or_else(|| {
            panic!(
                "expected at least {} segments, got {}",
                n + 1,
                segment_count(items)
            )
        })
}

fn first_inline_separator(items: &[LineItem]) -> Option<&Separator> {
    items.iter().find_map(|i| match i {
        LineItem::Separator(s) => Some(s),
        _ => None,
    })
}

fn resolve_inline_separator(separator_toml_value: &str) -> (Separator, Vec<String>) {
    let cfg = parsed(&format!(
        r#"
            [line]
            segments = ["model", "workspace"]
            [layout_options]
            separator = {separator_toml_value}
        "#,
    ))
    .expect("parse");
    let (items, warns) = built_with_warns(Some(&cfg));
    let sep = first_inline_separator(&items)
        .expect("two-segment line must have one inline separator")
        .clone();
    (sep, warns)
}

#[test]
fn build_segments_uses_default_order_when_config_missing() {
    assert_eq!(segment_count(&built(None)), DEFAULT_SEGMENT_IDS.len());
}

#[test]
fn layout_separator_powerline_lays_chevrons_between_segments() {
    let cfg = parsed(
        r#"
            [line]
            segments = ["model", "workspace"]
            [layout_options]
            separator = "powerline"
        "#,
    )
    .expect("parse");
    let items = built(Some(&cfg));
    assert_eq!(
        first_inline_separator(&items),
        Some(&Separator::powerline()),
    );
}

#[test]
fn layout_separator_space_is_default() {
    let (sep, warns) = resolve_inline_separator("\"space\"");
    assert_eq!(sep, Separator::Space);
    assert!(warns.is_empty());
}

#[test]
fn layout_separator_capsule_warns_and_falls_back_to_space() {
    let (sep, warns) = resolve_inline_separator("\"capsule\"");
    assert_eq!(sep, Separator::Space);
    assert!(
        warns
            .iter()
            .any(|m| m.contains("capsule") && m.contains("v0.2+")),
        "missing capsule deferral warning: {warns:?}"
    );
}

#[test]
fn layout_separator_arbitrary_string_renders_as_literal() {
    let (sep, warns) = resolve_inline_separator("\" | \"");
    assert_eq!(
        sep,
        Separator::Literal(Cow::Owned(" | ".to_string()))
    );
    assert!(warns.is_empty(), "no warnings on literal: {warns:?}");
}

#[test]
fn layout_separator_empty_string_yields_none() {
    let (sep, warns) = resolve_inline_separator("\"\"");
    assert_eq!(sep, Separator::Empty);
    assert!(
        warns.is_empty(),
        "empty string is a valid choice: {warns:?}"
    );
}

#[test]
fn build_segments_empty_config_falls_back_to_defaults() {
    let cfg = Config::default();
    assert_eq!(segment_count(&built(Some(&cfg))), DEFAULT_SEGMENT_IDS.len());
}

#[test]
fn layout_separator_handles_mixed_case_and_whitespace() {
    let mut warn = Messages::new();
    assert_eq!(
        parse_layout_separator("Powerline", PowerlineWidth::One, &mut warn),
        Separator::powerline()
    );
    assert_eq!(
        parse_layout_separator("  POWERLINE  ", PowerlineWidth::One, &mut warn),
        Separator::powerline()
    );
    assert_eq!(
        parse_layout_separator(" Space ", PowerlineWidth::One, &mut warn),
        Separator::Space
    );
    let warns = &warn.lines;
    assert!(
        warns.is_empty(),
        "no warnings on case/whitespace: {warns:?}"
    );
}

#[test]
fn layout_separator_whitespace_only_renders_as_literal() {
    let mut warn = Messages::new();
    assert_eq!(
        parse_layout_separator("   ", PowerlineWidth::One, &mut warn),
        Separator::Literal(Cow::Owned("   ".to_string()))
    );
    assert_eq!(
        parse_layout_separator("", PowerlineWidth::One, &mut warn),
        Separator::Empty
    );
    let warns = &warn.lines;
    assert!(
        warns.is_empty(),
        "no warns on whitespace literal: {warns:?}"
    );
}

#[test]
fn layout_separator_typo_renders_as_literal_not_warn() {
    let mut warn = Messages::new();
    assert_eq!(
        parse_layout_separator("powereline", PowerlineWidth::One, &mut warn),
        Separator::Literal(Cow::Owned("powereline".to_string()))
    );
    let warns = &warn.lines;
    assert!(warns.is_empty(), "typos don't warn: {warns:?}");
}

#[test]
fn plugin_runtime_separator_override_replaces_inline_separator() {
    struct OverrideNoneSeg(&'static str);
    impl Stub for OverrideNoneSeg {
        fn render(
            &self,
            _: &DataContext,
            _: &RenderContext,
        ) -> RenderResult {
            Ok(Some(RenderedSegment::with_separator(
                self.0,
                Separator::Empty,
            )))
        }
        fn defaults(&self) -> SegmentDefaults {
            SegmentDefaults::with_priority(0)
        }
    }
    let items: Vec<LineItem> = vec![
        LineItem::seg(Cow::Borrowed("a"), stub(OverrideNoneSeg("a"))),
        LineItem::Separator(Separator::powerline()),
        LineItem::seg(Cow::Borrowed("b"), stub(OverrideNoneSeg("b"))),
    ];
    let mut observers = LayoutObservers::new();
    let line = render_with_warn(&items, &stub_ctx(), 100, &mut observers, &plain, false);
    assert_eq!(line, "ab");
}

#[test]
fn plugin_runtime_literal_override_replaces_inline_powerline() {
    struct OverrideLiteralSeg(&'static str);
    impl Stub for OverrideLiteralSeg {
        fn render(
            &self,
            _: &DataContext,
            _: &RenderContext,
        ) -> RenderResult {
            Ok(Some(RenderedSegment::with_separator(
                self.0,
                Separator::Literal(Cow::Borrowed(" | ")),
            )))
        }
        fn defaults(&self) -> SegmentDefaults {
            SegmentDefaults::with_priority(0)
        }
    }
    let items: Vec<LineItem> = vec![
        LineItem::seg(Cow::Borrowed("a"), stub(OverrideLiteralSeg("a"))),
        LineItem::Separator(Separator::powerline()),
        LineItem::seg(Cow::Borrowed("b"), stub(OverrideLiteralSeg("b"))),
    ];
    let mut observers = LayoutObservers::new();
    let line = render_with_warn(&items, &stub_ctx(), 100, &mut observers, &plain, false);
    assert_eq!(line, "a | b");
}

#[test]
fn plugin_runtime_override_on_last_segment_is_silently_discarded() {
    struct OverrideNoneSeg(&'static str);
    impl Stub for OverrideNoneSeg {
        fn render(
            &self,
            _: &DataContext,
            _: &RenderContext,
        ) -> RenderResult {
            Ok(Some(RenderedSegment::with_separator(
                self.0,
                Separator::powerline(),
            )))
        }
        fn defaults(&self) -> SegmentDefaults {
            SegmentDefaults::with_priority(0)
        }
    }
    let items: Vec<LineItem> = vec![LineItem::seg(
        Cow::Borrowed("a"),
        stub(OverrideNoneSeg("a")),
    )];
    let mut observers = LayoutObservers::new();
    let line = render_with_warn(&items, &stub_ctx(), 100, &mut observers, &plain, false);
    assert_eq!(line, "a");
}

#[test]
fn plugin_compact_form_separator_override_wins_over_pre_shrink_inline() {
    struct ChevronUnlessCompactSeg;
    impl Stub for ChevronUnlessCompactSeg {
        fn render(
            &self,
            _: &DataContext,
            _: &RenderContext,
        ) -> RenderResult {
            Ok(Some(RenderedSegment::with_separator(
                "longprefix-with-tail",
                Separator::powerline(),
            )))
        }
        fn shrink_to_fit(
            &self,
            _: &DataContext,
            _: &RenderContext,
            target: u16,
        ) -> Option<RenderedSegment> {
            let r = RenderedSegment::with_separator("compact", Separator::Empty);
            (r.width() <= target).then_some(r)
        }
        fn defaults(&self) -> SegmentDefaults {
            SegmentDefaults::with_priority(200)
        }
    }
    struct AnchorSeg;
    impl Stub for AnchorSeg {
        fn render(
            &self,
            _: &DataContext,
            _: &RenderContext,
        ) -> RenderResult {
            Ok(Some(RenderedSegment::new("X")))
        }
        fn defaults(&self) -> SegmentDefaults {
            SegmentDefaults::with_priority(0)
        }
    }
    let items: Vec<LineItem> = vec![
        LineItem::seg(Cow::Borrowed("chevron"), stub(ChevronUnlessCompactSeg)),
        LineItem::Separator(Separator::powerline()),
        LineItem::seg(Cow::Borrowed("anchor"), stub(AnchorSeg)),
    ];
    let mut observers = LayoutObservers::new();
    let line = render_with_warn(&items, &stub_ctx(), 11, &mut observers, &plain, false);
    assert!(
        !line.contains('\u{E0B0}'),
        "chevron must be suppressed: {line:?}"
    );
    assert_eq!(line, "compactX");
}

#[test]
fn user_constructed_adjacent_separators_drop_second() {
    struct RawSeg(&'static str);
    impl Stub for RawSeg {
        fn render(
            &self,
            _: &DataContext,
            _: &RenderContext,
        ) -> RenderResult {
            Ok(Some(RenderedSegment::new(self.0)))
        }
        fn defaults(&self) -> SegmentDefaults {
            SegmentDefaults::with_priority(0)
        }
    }
    let items: Vec<LineItem> = vec![
        LineItem::seg(Cow::Borrowed("a"), stub(RawSeg("a"))),
        LineItem::Separator(Separator::Literal(Cow::Borrowed(" | "))),
        LineItem::Separator(Separator::Literal(Cow::Borrowed(" - "))),
        LineItem::seg(Cow::Borrowed("b"), stub(RawSeg("b"))),
    ];
    let mut observers = LayoutObservers::new();
    let line = render_with_warn(&items, &stub_ctx(), 100, &mut observers, &plain, false);
    assert_eq!(line, "a | b");
}

#[test]
fn layout_separator_pipe_literal_no_warning() {
    let mut warn = Messages::new();
    assert_eq!(
        parse_layout_separator("|", PowerlineWidth::One, &mut warn),
        Separator::Literal(Cow::Owned("|".to_string()))
    );
    let warns = &warn.lines;
    assert!(warns.is_empty(), "no warning on literal: {warns:?}");
}

#[test]
fn layout_separator_single_space_renders_as_literal_not_keyword() {
    let mut warn = Messages::new();
    assert_eq!(
        parse_layout_separator(" ", PowerlineWidth::One, &mut warn),
        Separator::Literal(Cow::Owned(" ".to_string()))
    );
    let warns = &warn.lines;
    assert!(
        warns.is_empty(),
        "no warning on single-space literal: {warns:?}"
    );
}

#[test]
fn powerline_width_2_propagates_to_inline_separator() {
    let cfg = parsed(
        r#"
            [line]
            segments = ["model", "workspace"]
            [layout_options]
            separator = "powerline"
            powerline_width = 2
        "#,
    )
    .expect("parse");
    let items = built(Some(&cfg));
    assert_eq!(
        first_inline_separator(&items),
        Some(&Separator::Powerline {
            width: PowerlineWidth::Two,
        }),
    );
}

#[test]
fn powerline_width_default_is_1_when_unset() {
    let (sep, _) = resolve_inline_separator("\"powerline\"");
    assert_eq!(sep, Separator::powerline());
}

#[test]
fn powerline_width_invalid_warns_and_falls_back_to_1() {
    let cfg = parsed(
        r#"
            [line]
            segments = ["model", "workspace"]
            [layout_options]
            separator = "powerline"
            powerline_width = 3
        "#,
    )
    .expect("parse");
    let (items, warns) = built_with_warns(Some(&cfg));
    assert_eq!(
        first_inline_separator(&items),
        Some(&Separator::powerline())
    );
    assert!(
        warns
            .iter()
            .any(|m| m.contains("powerline_width") && m.contains("3")),
        "missing invalid-width warning: {warns:?}"
    );
}

#[test]
fn powerline_width_zero_warns_and_falls_back_to_1() {
    let mut warn = Messages::new();
    assert_eq!(validate_powerline_width(0, &mut warn), PowerlineWidth::One);
    let warns = &warn.lines;
    assert!(
        warns
            .iter()
            .any(|m| m.contains("powerline_width") && m.contains('0')),
        "missing zero warning: {warns:?}"
    );
}

#[test]
fn powerline_width_max_warns_and_falls_back_to_1() {
    let mut warn = Messages::new();
    assert_eq!(
        validate_powerline_width(u16::MAX, &mut warn),
        PowerlineWidth::One
    );
    let warns = &warn.lines;
    assert!(
        warns.iter().any(|m| m.contains("powerline_width")),
        "missing max-width warning: {warns:?}"
    );
}

#[test]
fn layout_separator_absent_section_resolves_to_space() {
    let cfg = parsed(
        r#"
            [line]
            segments = ["model", "workspace"]
        "#,
    )
    .expect("parse");
    let items = built(Some(&cfg));
    assert_eq!(first_inline_separator(&items), Some(&Separator::Space));
}

#[test]
fn build_segments_uses_configured_line_order() {
    let cfg = parsed(
        r#"
            [line]
            segments = ["workspace", "model"]
        "#,
    )
    .expect("parse");
    let got = built(Some(&cfg));
    assert_eq!(segment_count(&got), 2);
    assert_eq!(nth_segment(&got, 0).defaults().priority, 16); // workspace
    assert_eq!(nth_segment(&got, 1).defaults().priority, 64); // model
}

#[test]
fn build_segments_applies_priority_override() {
    let cfg = parsed(
        r#"
            [line]
            segments = ["model"]
            [segments.model]
            priority = 0
        "#,
    )
    .expect("parse");
    let got = built(Some(&cfg));
    assert_eq!(nth_segment(&got, 0).defaults().priority, 0);
}

#[test]
fn build_segments_applies_width_override() {
    let cfg = parsed(
        r#"
            [line]
            segments = ["workspace"]
            [segments.workspace.width]
            min = 5
            max = 30
        "#,
    )
    .expect("parse");
    let got = built(Some(&cfg));
    let bounds = nth_segment(&got, 0).defaults().width.expect("width set");
    assert_eq!(bounds.min(), 5);
    assert_eq!(bounds.max(), 30);
}

#[test]
fn build_segments_skips_unknown_ids_and_warns() {
    let cfg = parsed(
        r#"
            [line]
            segments = ["model", "does_not_exist", "workspace"]
        "#,
    )
    .expect("parse");
    let mut warnings = Vec::new();
    let got = build_segments(Some(&cfg), None, |msg| warnings.push(msg.to_string()));
    assert_eq!(segment_count(&got), 2);
    assert_eq!(warnings.len(), 1);
    assert!(warnings[0].contains("does_not_exist"));
}

#[test]
fn build_segments_dedupes_duplicates_with_warning() {
    let cfg = parsed(
        r#"
            [line]
            segments = ["model", "model", "workspace"]
        "#,
    )
    .expect("parse");
    let mut warnings = Vec::new();
    let got = build_segments(Some(&cfg), None, |msg| warnings.push(msg.to_string()));
    assert_eq!(segment_count(&got), 2); // one model, one workspace
    assert_eq!(warnings.len(), 1);
    assert!(warnings[0].contains("model"));
    assert!(warnings[0].contains("more than once"));
}

#[test]
fn build_segments_warns_on_explicitly_empty_segment_list() {
    let cfg = parsed(
        r#"
            [line]
            segments = []
        "#,
    )
    .expect("parse");
    let mut warnings = Vec::new();
    let got = build_segments(Some(&cfg), None, |msg| warnings.push(msg.to_string()));
    assert!(got.is_empty());
    assert_eq!(warnings.len(), 1);
    assert!(warnings[0].contains("empty"));
}

#[test]
fn build_segments_warns_on_inverted_width_bounds() {
    let cfg = parsed(
        r#"
            [line]
            segments = ["workspace"]
            [segments.workspace.width]
            min = 40
            max = 10
        "#,
    )
    .expect("parse");
    let mut warnings = Vec::new();
    let got = build_segments(Some(&cfg), None, |msg| warnings.push(msg.to_string()));
    assert_eq!(segment_count(&got), 1);
    assert_eq!(nth_segment(&got, 0).defaults().width, None);
    assert_eq!(warnings.len(), 1);
    assert!(warnings[0].contains("min"));
    assert!(warnings[0].contains("max"));
}

struct StubWithWidth;

impl Stub for StubWithWidth {
    fn render(
        &self,
        _: &DataContext,
        _: &RenderContext,
    ) -> RenderResult {
        Ok(Some(RenderedSegment::new("x")))
    }
    fn defaults(&self) -> SegmentDefaults {
        SegmentDefaults::with_priority(128)
            .with_width(WidthBounds::new(10, 50).expect("valid"))
    }
}

fn merge_width(min: Option<u16>, max: Option<u16>) -> WidthBounds {
    let ov = SegmentOverride {
        priority: None,
        width: Some(WidthBoundsConfig { min, max }),
        style: None,
        icon: None,
        extra: Table::new(),
    };
    let wrapped = apply_override(
        "stub",
        stub(StubWithWidth),
        Some(&ov),
        IconMode::NerdFont,
        &mut Messages::new(),
    );
    wrapped.segment.defaults().width.expect("width preserved")
}

#[test]
fn width_merge_min_only_inherits_max_from_inner_default() {
    let got = merge_width(Some(5), None);
    assert_eq!(got.min(), 5);
    assert_eq!(got.max(), 50);
}

#[test]
fn width_merge_max_only_inherits_min_from_inner_default() {
    let got = merge_width(None, Some(80));
    assert_eq!(got.min(), 10);
    assert_eq!(got.max(), 80);
}

#[test]
fn width_merge_both_sides_override_inner_default() {
    let got = merge_width(Some(3), Some(40));
    assert_eq!(got.min(), 3);
    assert_eq!(got.max(), 40);
}

#[test]
fn width_merge_empty_override_keeps_inner_default() {
    let got = merge_width(None, None);
    assert_eq!(got.min(), 10);
    assert_eq!(got.max(), 50);
}

fn rc() -> RenderContext {
    RenderContext::new(80)
}

#[test]
fn style_override_replaces_segment_declared_style_at_render_time() {
    let cfg = parsed(
        r#"
            [line]
            segments = ["model"]
            [segments.model]
            style = "role:accent bold italic"
        "#,
    )
    .expect("parse");
    let built = build_segments(Some(&cfg), None, |_| {});
    let rendered = nth_segment(&built, 0)
        .render(&model_ctx("Sonnet 4.6"), &rc())
        .expect("render ok")
        .expect("visible");
    assert_eq!(rendered.style().role, Some(Role::Accent));
    assert_eq!(rendered.style().fg, None::<Color>);
    assert!(rendered.style().bold);
    assert!(rendered.style().italic);
    assert!(!rendered.style().underline);
    assert!(!rendered.style().dim);
}

#[test]
fn style_override_with_explicit_fg_populates_fg_slot() {
    let cfg = parsed(
        r#"
            [line]
            segments = ["model"]
            [segments.model]
            style = "fg:#ff0000 underline"
        "#,
    )
    .expect("parse");
    let built = build_segments(Some(&cfg), None, |_| {});
    let rendered = nth_segment(&built, 0)
        .render(&model_ctx("Sonnet 4.6"), &rc())
        .expect("render ok")
        .expect("visible");
    assert_eq!(
        rendered.style().fg,
        Some(Color::TrueColor { r: 255, g: 0, b: 0 })
    );
    assert!(rendered.style().underline);
}

#[test]
fn invalid_style_string_warns_and_leaves_segment_style_unchanged() {
    let cfg = parsed(
        r#"
            [line]
            segments = ["model"]
            [segments.model]
            style = "role:mauve"
        "#,
    )
    .expect("parse");
    let mut warnings = Vec::new();
    let built = build_segments(Some(&cfg), None, |m| warnings.push(m.to_string()));
    let rendered = nth_segment(&built, 0)
        .render(&model_ctx("Sonnet 4.6"), &rc())
        .expect("render ok")
        .expect("visible");
    assert_eq!(rendered.style().role, Some(Role::Primary));
    assert_eq!(warnings.len(), 1);
    assert!(warnings[0].contains("segments.model.style"));
    assert!(warnings[0].contains("mauve"));
    assert!(warnings[0].contains("ignoring"));
}

#[test]
fn empty_style_string_is_noop_and_preserves_segment_declared_style() {
    let cfg = parsed(
        r#"
            [line]
            segments = ["model"]
            [segments.model]
            style = ""
        "#,
    )
    .expect("parse");
    let built = build_segments(Some(&cfg), None, |_| {});
    let rendered = nth_segment(&built, 0)
        .render(&model_ctx("Sonnet 4.6"), &rc())
        .expect("render ok")
        .expect("visible");
    assert_eq!(rendered.style().role, Some(Role::Primary));
}

#[test]
fn whitespace_only_style_string_is_noop_and_preserves_segment_declared_style() {
    let cfg = parsed(
        r#"
            [line]
            segments = ["model"]
            [segments.model]
            style = "   "
        "#,
    )
    .expect("parse");
    let built = build_segments(Some(&cfg), None, |_| {});
    let rendered = nth_segment(&built, 0)
        .render(&model_ctx("Sonnet 4.6"), &rc())
        .expect("render ok")
        .expect("visible");
    assert_eq!(rendered.style().role, Some(Role::Primary));
}

#[test]
fn default_icon_renders_when_icons_mode_is_nerdfont() {
    let cfg = parsed(
        r#"
            [line]
            segments = ["model"]
            [layout_options]
            icons = "nerdfont"
        "#,
    )
    .expect("parse");
    let built = build_segments(Some(&cfg), None, |_| {});
    let rendered = nth_segment(&built, 0)
        .render(&model_ctx("Sonnet 4.6"), &rc())
        .expect("render ok")
        .expect("visible");
    assert_eq!(rendered.text(), "\u{2726} Sonnet 4.6");
}

#[test]
fn default_icon_renders_when_layout_options_are_absent() {
    let cfg = parsed(
        r#"
            [line]
            segments = ["model"]
        "#,
    )
    .expect("parse");
    let built = build_segments(Some(&cfg), None, |_| {});
    let rendered = nth_segment(&built, 0)
        .render(&model_ctx("Sonnet 4.6"), &rc())
        .expect("render ok")
        .expect("visible");
    assert_eq!(rendered.text(), "\u{2726} Sonnet 4.6");
}

#[test]
fn segment_icon_override_replaces_default() {
    let cfg = parsed(
        r#"
            [line]
            segments = ["model"]
            [segments.model]
            icon = "AI"
        "#,
    )
    .expect("parse");
    let built = build_segments(Some(&cfg), None, |_| {});
    let rendered = nth_segment(&built, 0)
        .render(&model_ctx("Sonnet 4.6"), &rc())
        .expect("render ok")
        .expect("visible");
    assert_eq!(rendered.text(), "AI Sonnet 4.6");
}

#[test]
fn empty_segment_icon_disables_default() {
    let cfg = parsed(
        r#"
            [line]
            segments = ["model"]
            [segments.model]
            icon = ""
        "#,
    )
    .expect("parse");
    let built = build_segments(Some(&cfg), None, |_| {});
    let rendered = nth_segment(&built, 0)
        .render(&model_ctx("Sonnet 4.6"), &rc())
        .expect("render ok")
        .expect("visible");
    assert_eq!(rendered.text(), "Sonnet 4.6");
}

#[test]
fn icons_off_suppresses_default_icon() {
    let cfg = parsed(
        r#"
            [line]
            segments = ["model"]
            [layout_options]
            icons = "off"
        "#,
    )
    .expect("parse");
    let built = build_segments(Some(&cfg), None, |_| {});
    let rendered = nth_segment(&built, 0)
        .render(&model_ctx("Sonnet 4.6"), &rc())
        .expect("render ok")
        .expect("visible");
    assert_eq!(rendered.text(), "Sonnet 4.6");
}

#[test]
fn segment_icon_override_renders_when_icons_off() {
    let cfg = parsed(
        r#"
            [line]
            segments = ["model"]
            [layout_options]
            icons = "off"
            [segments.model]
            icon = "AI"
        "#,
    )
    .expect("parse");
    let built = build_segments(Some(&cfg), None, |_| {});
    let rendered = nth_segment(&built, 0)
        .render(&model_ctx("Sonnet 4.6"), &rc())
        .expect("render ok")
        .expect("visible");
    assert_eq!(rendered.text(), "AI Sonnet 4.6");
}


#[test]
fn plugin_id_resolves_through_build_segments() {
    let registry = plugins(r#"
        const ID = "my_plugin";
        fn render(ctx) { #{ runs: [#{ text: "from-plugin" }] } }
        "#);

    let cfg = parsed(
        r#"
            [line]
            segments = ["model", "my_plugin"]
        "#,
    )
    .expect("parse");
    let built = build_segments(Some(&cfg), Some(registry), |_| {});
    assert_eq!(segment_count(&built), 2);
    assert_eq!(nth_segment(&built, 0).defaults().priority, 64);
    assert_eq!(nth_segment(&built, 1).defaults().priority, 128);
    let dc = model_ctx("Sonnet");
    let plugin_render = nth_segment(&built, 1)
        .render(&dc, &rc())
        .expect("plugin render ok")
        .expect("visible");
    assert_eq!(plugin_render.text(), "from-plugin");
    let plugin_item = built
        .iter()
        .find_map(|i| match i {
            LineItem::Segment { id, .. } if id.as_ref() == "my_plugin" => Some(id.clone()),
            _ => None,
        })
        .expect("plugin slot in built items");
    assert!(
        matches!(plugin_item, Cow::Owned(_)),
        "plugin id must be Cow::Owned, got {plugin_item:?}",
    );
}

#[test]
fn build_segments_falls_back_to_first_line_for_multi_line_configs() {
    let cfg = parsed(
        r#"
            layout = "multi-line"
            [line.1]
            segments = ["model", "workspace"]
            [line.2]
            segments = ["context_window", "cost"]
        "#,
    )
    .expect("parse");
    let (segs, warns) = built_with_warns(Some(&cfg));
    assert_eq!(
        segment_count(&segs),
        2,
        "expected line 1's two segments, got {} segs",
        segment_count(&segs),
    );
    let actual: Vec<u8> = segs
        .iter()
        .filter_map(|i| match i {
            LineItem::Segment { segment, .. } => Some(segment.segment.defaults().priority),
            _ => None,
        })
        .collect();
    assert_eq!(actual, priorities_for(&["model", "workspace"]));
    assert!(
        warns
            .iter()
            .any(|w| w.contains("multi-line") && w.contains("build_lines")),
        "expected migration hint pointing at build_lines, got: {warns:?}"
    );
}

#[test]
fn build_lines_plugin_referenced_in_two_lines_warns_specifically_on_second() {
    let registry = plugins(r#"
        const ID = "my_plugin";
        fn render(ctx) { #{ runs: [#{ text: "from-plugin" }] } }
        "#);

    let cfg = parsed(
        r#"
            layout = "multi-line"
            [line.1]
            segments = ["my_plugin", "model"]
            [line.2]
            segments = ["my_plugin", "workspace"]
        "#,
    )
    .expect("parse");
    let mut warns: Vec<String> = Vec::new();
    let lines = build_lines(Some(&cfg), Some(registry), |m| {
        warns.push(m.to_string())
    });

    assert_eq!(lines.len(), 2);
    assert_eq!(segment_count(&lines[0]), 2, "line 1 keeps plugin + model");
    assert_eq!(
        segment_count(&lines[1]),
        1,
        "line 2 drops the reused plugin, keeps workspace"
    );
    assert!(
        warns
            .iter()
            .any(|w| w.contains("'my_plugin'") && w.contains("rendered on an earlier line")),
        "expected specific cross-line plugin warning, got: {warns:?}"
    );
    assert!(
        !warns
            .iter()
            .any(|w| w.contains("unknown segment id 'my_plugin'")),
        "should NOT use the generic 'unknown segment id' text for cross-line reuse, got: {warns:?}"
    );
}

#[test]
fn unknown_id_with_plugin_registry_still_warns() {
    let registry = plugins(r#"
        const ID = "loaded";
        fn render(ctx) { () }
        "#);

    let cfg = parsed(
        r#"
            [line]
            segments = ["loaded", "missing_plugin"]
        "#,
    )
    .expect("parse");
    let mut warnings = Vec::new();
    let built = build_segments(Some(&cfg), Some(registry), |m| {
        warnings.push(m.to_string())
    });
    assert_eq!(built.len(), 1);
    assert_eq!(warnings.len(), 1);
    assert!(warnings[0].contains("missing_plugin"));
}

#[test]
fn plugin_receives_extra_keys_from_segments_table_as_ctx_config() {
    let registry = plugins(r#"
        const ID = "labelled";
        fn render(ctx) {
            #{ runs: [#{ text: ctx.config.label }] }
        }
        "#);

    let cfg = parsed(
        r#"
            [line]
            segments = ["labelled"]
            [segments.labelled]
            label = "from-toml"
        "#,
    )
    .expect("parse");
    let built = build_segments(Some(&cfg), Some(registry), |_| {});
    assert_eq!(segment_count(&built), 1);
    let dc = model_ctx("Sonnet");
    let rendered = nth_segment(&built, 0)
        .render(&dc, &rc())
        .expect("render ok")
        .expect("visible");
    assert_eq!(rendered.text(), "from-toml");
}

#[test]
fn built_in_id_wins_over_plugin_with_same_id() {
    let registry = plugins(r#"
        const ID = "model";
        fn render(_) { #{ runs: [#{ text: "from-plugin" }] } }
        "#);

    let cfg = parsed(
        r#"
            [line]
            segments = ["model"]
        "#,
    )
    .expect("parse");
    let built = build_segments(Some(&cfg), Some(registry), |_| {});
    assert_eq!(segment_count(&built), 1);
    assert_eq!(nth_segment(&built, 0).defaults().priority, 64);
}

#[test]
fn build_segments_forward_compat_keys_dont_break_parsing() {
    let cfg = parsed(
        r#"
            theme = "catppuccin-mocha"
            preset = "developer"
            layout = "single-line"
            [line]
            segments = ["model"]
            [layout_options]
            separator = "powerline"
        "#,
    )
    .expect("parse");
    assert_eq!(segment_count(&built(Some(&cfg))), 1);
}


fn lines(cfg: Option<&Config>) -> Vec<Vec<LineItem>> {
    build_lines(cfg, None, |_| {})
}

fn lines_with_warns(cfg: Option<&Config>) -> (Vec<Vec<LineItem>>, Vec<String>) {
    let mut warns = Vec::new();
    let result = build_lines(cfg, None, |m| warns.push(m.to_string()));
    (result, warns)
}

fn line_segment_priorities(items: &[LineItem]) -> Vec<u8> {
    items
        .iter()
        .filter_map(|i| match i {
            LineItem::Segment { segment, .. } => Some(segment.segment.defaults().priority),
            _ => None,
        })
        .collect()
}

fn priorities_for(ids: &[&str]) -> Vec<u8> {
    ids.iter()
        .map(|id| {
            catalog_built_in(id)
                .unwrap_or_else(|| panic!("unknown built-in id in test fixture: {id}"))
                .segment
                .defaults()
                .priority
        })
        .collect()
}

fn priorities_per_line(built: &[Vec<LineItem>]) -> Vec<Vec<u8>> {
    built
        .iter()
        .map(|line| line_segment_priorities(line))
        .collect()
}

#[test]
fn build_lines_single_line_default_returns_one_line_with_default_segments() {
    let result = lines(None);
    assert_eq!(result.len(), 1);
    assert_eq!(segment_count(&result[0]), DEFAULT_SEGMENT_IDS.len());
}

#[test]
fn build_lines_explicit_single_line_returns_one_line_from_segments() {
    let cfg = parsed(
        r#"
            layout = "single-line"
            [line]
            segments = ["model", "workspace"]
        "#,
    )
    .expect("parse");
    let result = lines(Some(&cfg));
    assert_eq!(
        priorities_per_line(&result),
        vec![priorities_for(&["model", "workspace"])]
    );
}

#[test]
fn build_lines_multi_line_returns_one_inner_vec_per_numbered_table() {
    let cfg = parsed(
        r#"
            layout = "multi-line"
            [line.1]
            segments = ["model", "context_window"]
            [line.2]
            segments = ["workspace", "cost"]
        "#,
    )
    .expect("parse");
    let result = lines(Some(&cfg));
    assert_eq!(
        priorities_per_line(&result),
        vec![
            priorities_for(&["model", "context_window"]),
            priorities_for(&["workspace", "cost"]),
        ]
    );
}

#[test]
fn build_lines_multi_line_sorts_by_parsed_integer_not_lexicographic() {
    let cfg = parsed(
        r#"
            layout = "multi-line"
            [line.2]
            segments = ["workspace"]
            [line.10]
            segments = ["context_window"]
            [line.1]
            segments = ["model"]
        "#,
    )
    .expect("parse");
    let result = lines(Some(&cfg));
    assert_eq!(
        priorities_per_line(&result),
        vec![
            priorities_for(&["model"]),
            priorities_for(&["workspace"]),
            priorities_for(&["context_window"]),
        ]
    );
}

#[test]
fn build_lines_multi_line_with_no_numbered_tables_falls_back_to_single_line() {
    let cfg = parsed(
        r#"
            layout = "multi-line"
            [line]
            segments = ["model", "workspace"]
        "#,
    )
    .expect("parse");
    let (result, warns) = lines_with_warns(Some(&cfg));
    assert_eq!(
        priorities_per_line(&result),
        vec![priorities_for(&["model", "workspace"])]
    );
    assert!(
        warns.iter().any(|w| w.contains("no usable [line.N]")),
        "expected fallback warning, got: {warns:?}"
    );
}

#[test]
fn build_lines_single_line_with_numbered_tables_warns_and_ignores_them() {
    let cfg = parsed(
        r#"
            layout = "single-line"
            [line]
            segments = ["model"]
            [line.1]
            segments = ["workspace"]
        "#,
    )
    .expect("parse");
    let (result, warns) = lines_with_warns(Some(&cfg));
    assert_eq!(
        priorities_per_line(&result),
        vec![priorities_for(&["model"])]
    );
    assert!(
        warns
            .iter()
            .any(|w| w.contains("single-line") && w.contains("[line.N]")),
        "expected mode-mismatch warning, got: {warns:?}"
    );
}

#[test]
fn build_lines_default_layout_with_numbered_tables_warns_and_ignores_them() {
    let cfg = parsed(
        r#"
            [line]
            segments = ["model"]
            [line.1]
            segments = ["workspace"]
        "#,
    )
    .expect("parse");
    let (result, warns) = lines_with_warns(Some(&cfg));
    assert_eq!(
        priorities_per_line(&result),
        vec![priorities_for(&["model"])]
    );
    assert!(
        warns.iter().any(|w| w.contains("[line.N]")),
        "expected mode-mismatch warning, got: {warns:?}"
    );
}

#[test]
fn build_lines_promotes_to_multi_line_when_layout_unset_and_segments_empty() {
    let cfg = parsed(
        r#"
            [line.1]
            segments = ["model"]
            [line.2]
            segments = ["workspace"]
        "#,
    )
    .expect("parse");
    let (result, warns) = lines_with_warns(Some(&cfg));
    assert_eq!(
        priorities_per_line(&result),
        vec![priorities_for(&["model"]), priorities_for(&["workspace"]),],
        "must render both numbered lines, not a blank single-line"
    );
    assert!(
        warns
            .iter()
            .any(|w| w.contains("treating as multi-line") && w.contains("layout")),
        "expected auto-promote hint, got: {warns:?}"
    );
}

#[test]
fn build_lines_does_not_promote_when_segments_populated() {
    let cfg = parsed(
        r#"
            [line]
            segments = ["model"]
            [line.1]
            segments = ["workspace"]
        "#,
    )
    .expect("parse");
    let (result, warns) = lines_with_warns(Some(&cfg));
    assert_eq!(
        priorities_per_line(&result),
        vec![priorities_for(&["model"])],
        "must render single-line `[line].segments`, not promote"
    );
    assert!(
        warns.iter().any(|w| w.contains("ignoring numbered tables")),
        "expected the existing 'ignoring' warning, not the promote hint, got: {warns:?}"
    );
    assert!(
        !warns.iter().any(|w| w.contains("treating as multi-line")),
        "must NOT auto-promote when segments is populated, got: {warns:?}"
    );
}

#[test]
fn build_lines_unknown_scalar_key_under_line_warns_and_drops() {
    let cfg = parsed(
        r#"
            layout = "multi-line"
            [line]
            segmnts = ["model"]
            [line.1]
            segments = ["workspace"]
        "#,
    )
    .expect("parse");
    let (result, warns) = lines_with_warns(Some(&cfg));
    assert_eq!(
        priorities_per_line(&result),
        vec![priorities_for(&["workspace"])]
    );
    assert!(
        warns
            .iter()
            .any(|w| w.contains("unknown key 'segmnts'") && w.contains("array")),
        "expected unknown-key warning naming the key + type, got: {warns:?}"
    );
}

#[test]
fn build_lines_consumed_plugins_threads_across_three_or_more_lines() {
    let registry = plugins(r#"
        const ID = "my_plugin";
        fn render(ctx) { #{ runs: [#{ text: "from-plugin" }] } }
        "#);

    let cfg = parsed(
        r#"
            layout = "multi-line"
            [line.1]
            segments = ["my_plugin", "model"]
            [line.2]
            segments = ["my_plugin", "workspace"]
            [line.3]
            segments = ["my_plugin", "context_window"]
        "#,
    )
    .expect("parse");
    let mut warns: Vec<String> = Vec::new();
    let lines = build_lines(Some(&cfg), Some(registry), |m| {
        warns.push(m.to_string())
    });

    assert_eq!(lines.len(), 3);
    assert_eq!(segment_count(&lines[0]), 2, "line 1: plugin + model");
    assert_eq!(
        segment_count(&lines[1]),
        1,
        "line 2: plugin dropped, only workspace"
    );
    assert_eq!(
        segment_count(&lines[2]),
        1,
        "line 3: plugin dropped, only context_window"
    );
    let cross_line_warns = warns
        .iter()
        .filter(|w| w.contains("rendered on an earlier line"))
        .count();
    assert_eq!(
        cross_line_warns, 2,
        "expected exactly two cross-line warnings (lines 2 + 3), got {cross_line_warns}: {warns:?}"
    );
}

#[test]
fn build_segments_falls_back_to_line_one_even_when_top_segments_populated() {
    let cfg = parsed(
        r#"
            layout = "multi-line"
            [line]
            segments = ["cost"]
            [line.1]
            segments = ["model"]
        "#,
    )
    .expect("parse");
    let (segs, _warns) = built_with_warns(Some(&cfg));
    let actual = line_segment_priorities(&segs);
    assert_eq!(
        actual,
        priorities_for(&["model"]),
        "fallback must use [line.1].segments, not the top-level [line].segments"
    );
}

#[test]
fn build_segments_multi_line_with_only_invalid_numbered_keys_falls_through_to_single_line() {
    let cfg = parsed(
        r#"
            layout = "multi-line"
            [line.foo]
            segments = ["bogus"]
        "#,
    )
    .expect("parse");
    let (segs, warns) = built_with_warns(Some(&cfg));
    assert!(segs.is_empty(), "no usable line means no segments rendered");
    assert!(
        warns
            .iter()
            .any(|w| w.contains("[line.foo]") && w.contains("not a positive integer")),
        "must warn about the dropped non-numeric key, got: {warns:?}"
    );
    assert!(
        warns.iter().any(|w| w.contains("[line].segments is empty")),
        "must warn that the fallback finds nothing to render, got: {warns:?}"
    );
}

#[test]
fn build_lines_multi_line_drops_non_numeric_keys_with_warning() {
    let cfg = parsed(
        r#"
            layout = "multi-line"
            [line.1]
            segments = ["model"]
            [line.foo]
            segments = ["bogus"]
            [line.2]
            segments = ["workspace"]
        "#,
    )
    .expect("parse");
    let (result, warns) = lines_with_warns(Some(&cfg));
    assert_eq!(
        priorities_per_line(&result),
        vec![priorities_for(&["model"]), priorities_for(&["workspace"])]
    );
    assert!(
        warns
            .iter()
            .any(|w| w.contains("[line.foo]") && w.contains("not a positive integer")),
        "expected non-numeric-key warning, got: {warns:?}"
    );
}

#[test]
fn build_lines_multi_line_drops_zero_and_negative_keys() {
    let cfg = parsed(
        r#"
            layout = "multi-line"
            [line.0]
            segments = ["context_window"]
            [line.1]
            segments = ["model"]
            [line."-1"]
            segments = ["cost"]
        "#,
    )
    .expect("parse");
    let (result, warns) = lines_with_warns(Some(&cfg));
    assert_eq!(
        priorities_per_line(&result),
        vec![priorities_for(&["model"])]
    );
    assert!(warns.iter().any(|w| w.contains("[line.0]")));
    assert!(warns.iter().any(|w| w.contains("[line.-1]")));
}

#[test]
fn build_lines_multi_line_with_only_invalid_keys_falls_back_to_single_line() {
    let cfg = parsed(
        r#"
            layout = "multi-line"
            [line]
            segments = ["model"]
            [line.foo]
            segments = ["bogus"]
        "#,
    )
    .expect("parse");
    let (result, warns) = lines_with_warns(Some(&cfg));
    assert_eq!(
        priorities_per_line(&result),
        vec![priorities_for(&["model"])]
    );
    assert!(warns.iter().any(|w| w.contains("[line.foo]")));
    assert!(warns.iter().any(|w| w.contains("no usable [line.N]")));
}

#[test]
fn build_lines_multi_line_warns_per_empty_numbered_segments() {
    let cfg = parsed(
        r#"
            layout = "multi-line"
            [line.1]
            segments = ["model"]
            [line.2]
            segments = []
        "#,
    )
    .expect("parse");
    let (result, warns) = lines_with_warns(Some(&cfg));
    assert_eq!(
        priorities_per_line(&result),
        vec![priorities_for(&["model"]), Vec::<u8>::new()]
    );
    assert!(
        warns
            .iter()
            .any(|w| w.contains("[line.2].segments is empty")),
        "expected empty-segments warning for line 2, got: {warns:?}"
    );
}

#[test]
fn build_lines_multi_line_ignores_top_level_segments_when_numbered_present() {
    let cfg = parsed(
        r#"
            layout = "multi-line"
            [line]
            segments = ["workspace"]
            [line.1]
            segments = ["model"]
        "#,
    )
    .expect("parse");
    let result = lines(Some(&cfg));
    assert_eq!(
        priorities_per_line(&result),
        vec![priorities_for(&["model"])]
    );
}

#[test]
fn build_lines_multi_line_dedupes_within_line_but_not_across_lines() {
    let cfg = parsed(
        r#"
            layout = "multi-line"
            [line.1]
            segments = ["model", "model", "workspace"]
            [line.2]
            segments = ["model"]
        "#,
    )
    .expect("parse");
    let (result, warns) = lines_with_warns(Some(&cfg));
    assert_eq!(
        priorities_per_line(&result),
        vec![
            priorities_for(&["model", "workspace"]),
            priorities_for(&["model"]),
        ]
    );
    let dedup_warns: Vec<_> = warns
        .iter()
        .filter(|w| w.contains("listed more than once"))
        .collect();
    assert_eq!(
        dedup_warns.len(),
        1,
        "expected one dedup warning, got: {warns:?}"
    );
}


fn separators_in_order(items: &[LineItem]) -> Vec<&Separator> {
    items
        .iter()
        .filter_map(|i| match i {
            LineItem::Separator(s) => Some(s),
            _ => None,
        })
        .collect()
}

#[test]
fn inline_table_separator_with_character_overrides_global_default() {
    let cfg = parsed(
        r#"
            [line]
            segments = ["model", { type = "separator", character = " | " }, "workspace"]
        "#,
    )
    .expect("parse");
    let (items, warns) = built_with_warns(Some(&cfg));
    assert!(warns.is_empty(), "no warnings expected: {warns:?}");
    assert_eq!(segment_count(&items), 2);
    let seps = separators_in_order(&items);
    assert_eq!(seps.len(), 1, "exactly one separator between two segments");
    assert_eq!(
        seps[0],
        &Separator::Literal(Cow::Owned(" | ".to_string())),
    );
}

#[test]
fn inline_table_separator_without_character_uses_layout_default() {
    let cfg = parsed(
        r#"
            [line]
            segments = ["model", { type = "separator" }, "workspace"]
            [layout_options]
            separator = " · "
        "#,
    )
    .expect("parse");
    let items = built(Some(&cfg));
    let seps = separators_in_order(&items);
    assert_eq!(seps.len(), 1);
    assert_eq!(
        seps[0],
        &Separator::Literal(Cow::Owned(" · ".to_string())),
    );
}

#[test]
fn merge_flag_suppresses_implicit_interleave_at_boundary() {
    let cfg = parsed(
        r#"
            [line]
            segments = [{ type = "model", merge = true }, "workspace"]
            [layout_options]
            separator = " | "
        "#,
    )
    .expect("parse");
    let items = built(Some(&cfg));
    assert_eq!(segment_count(&items), 2);
    assert_eq!(
        separators_in_order(&items).len(),
        0,
        "merge=true on left segment must drop the boundary separator",
    );
}

#[test]
fn merge_flag_suppresses_explicit_separator_entry_at_boundary() {
    let cfg = parsed(
        r#"
            [line]
            segments = [
                { type = "model", merge = true },
                { type = "separator", character = " | " },
                "workspace",
            ]
        "#,
    )
    .expect("parse");
    let items = built(Some(&cfg));
    assert_eq!(segment_count(&items), 2);
    assert_eq!(
        separators_in_order(&items).len(),
        0,
        "merge=true must consume the next explicit separator AND skip implicit interleave",
    );
}

#[test]
fn merge_flag_clears_after_one_boundary() {
    let cfg = parsed(
        r#"
            [line]
            segments = [{ type = "model", merge = true }, "workspace", "cost"]
            [layout_options]
            separator = " | "
        "#,
    )
    .expect("parse");
    let items = built(Some(&cfg));
    assert_eq!(segment_count(&items), 3);
    let seps = separators_in_order(&items);
    assert_eq!(seps.len(), 1, "only the second boundary gets a separator");
    assert_eq!(
        seps[0],
        &Separator::Literal(Cow::Owned(" | ".to_string())),
    );
}

#[test]
fn back_to_back_merge_chains_drop_every_intermediate_separator() {
    let cfg = parsed(
        r#"
            [line]
            segments = [
                { type = "model", merge = true },
                { type = "workspace", merge = true },
                "cost",
            ]
            [layout_options]
            separator = " | "
        "#,
    )
    .expect("parse");
    let items = built(Some(&cfg));
    assert_eq!(segment_count(&items), 3);
    assert_eq!(separators_in_order(&items).len(), 0);
}

fn fuses_flags(items: &[LineItem]) -> Vec<bool> {
    items
        .iter()
        .filter_map(|i| match i {
            LineItem::Segment { fuses_left, .. } => Some(*fuses_left),
            _ => None,
        })
        .collect()
}

#[test]
fn group_absent_divides_with_separator() {
    let cfg = parsed(
        r#"
            [line]
            segments = ["model", "workspace"]
            [layout_options]
            separator = " | "
        "#,
    )
    .expect("parse");
    let items = built(Some(&cfg));
    assert_eq!(
        separators_in_order(&items).len(),
        1,
        "no merge → separator stays"
    );
    assert_eq!(
        fuses_flags(&items),
        vec![false, false],
        "no group → divides"
    );
}

#[test]
fn group_true_fuses_while_keeping_the_separator() {
    let cfg = parsed(
        r#"
            [line]
            segments = [{ type = "model", group = true }, "workspace"]
            [layout_options]
            separator = " | "
        "#,
    )
    .expect("parse");
    let items = built(Some(&cfg));
    assert_eq!(
        separators_in_order(&items).len(),
        1,
        "group must NOT suppress the separator (that is merge's job)"
    );
    assert_eq!(
        fuses_flags(&items),
        vec![false, true],
        "right member fuses into the lead"
    );
}

#[test]
fn merge_implies_group_when_group_unset() {
    let cfg = parsed(
        r#"
            [line]
            segments = [{ type = "model", merge = true }, "workspace"]
            [layout_options]
            separator = " | "
        "#,
    )
    .expect("parse");
    let items = built(Some(&cfg));
    assert_eq!(separators_in_order(&items).len(), 0, "merge abuts");
    assert_eq!(
        fuses_flags(&items),
        vec![false, true],
        "merge implies grouping"
    );
}

#[test]
fn group_false_overrides_the_merge_implication() {
    let cfg = parsed(
        r#"
            [line]
            segments = [{ type = "model", merge = true, group = false }, "workspace"]
            [layout_options]
            separator = " | "
        "#,
    )
    .expect("parse");
    let items = built(Some(&cfg));
    assert_eq!(separators_in_order(&items).len(), 0, "merge still abuts");
    assert_eq!(
        fuses_flags(&items),
        vec![false, false],
        "group = false divides despite merge"
    );
}

#[test]
fn group_persists_across_an_explicit_separator() {
    let cfg = parsed(
        r#"
            [line]
            segments = [
                { type = "model", group = true },
                { type = "separator", character = " " },
                "workspace",
            ]
        "#,
    )
    .expect("parse");
    let items = built(Some(&cfg));
    assert_eq!(
        separators_in_order(&items).len(),
        1,
        "the space separator stays"
    );
    assert_eq!(
        fuses_flags(&items),
        vec![false, true],
        "fusion carries across the explicit separator"
    );
}

#[test]
fn group_on_separator_entry_warns_and_is_ignored() {
    let cfg = parsed(
        r#"
            [line]
            segments = [
                "model",
                { type = "separator", character = " | ", group = true },
                "workspace",
            ]
        "#,
    )
    .expect("parse");
    let (items, warns) = built_with_warns(Some(&cfg));
    assert_eq!(
        fuses_flags(&items),
        vec![false, false],
        "separator `group` has no effect"
    );
    assert!(
        warns
            .iter()
            .any(|w| w.contains("separator entry has `group")),
        "expected a group-on-separator warning, got {warns:?}"
    );
}

#[test]
fn group_chains_across_three_segments() {
    let cfg = parsed(
        r#"
            [line]
            segments = [
                { type = "model", group = true },
                { type = "workspace", group = true },
                "cost",
            ]
            [layout_options]
            separator = " | "
        "#,
    )
    .expect("parse");
    let items = built(Some(&cfg));
    assert_eq!(
        separators_in_order(&items).len(),
        2,
        "grouping keeps both separators"
    );
    assert_eq!(
        fuses_flags(&items),
        vec![false, true, true],
        "one three-member group led by the leftmost"
    );
}

#[test]
fn merge_and_group_true_together_abut_and_fuse() {
    let cfg = parsed(
        r#"
            [line]
            segments = [{ type = "model", merge = true, group = true }, "workspace"]
            [layout_options]
            separator = " | "
        "#,
    )
    .expect("parse");
    let items = built(Some(&cfg));
    assert_eq!(separators_in_order(&items).len(), 0, "merge abuts");
    assert_eq!(fuses_flags(&items), vec![false, true], "group fuses");
}

#[test]
fn group_pending_carries_to_the_next_surviving_segment() {
    let cfg = parsed(
        r#"
            [line]
            segments = [{ type = "model", group = true }, "nonexistent_seg", "workspace"]
            [layout_options]
            separator = " | "
        "#,
    )
    .expect("parse");
    let (items, warns) = built_with_warns(Some(&cfg));
    assert_eq!(segment_count(&items), 2, "the unknown segment is dropped");
    assert!(warns.iter().any(|w| w.contains("nonexistent_seg")));
    assert_eq!(
        fuses_flags(&items),
        vec![false, true],
        "fusion carries to the next surviving segment, like merge"
    );
}

#[test]
fn group_true_on_trailing_segment_is_inert() {
    let cfg = parsed(
        r#"
            [line]
            segments = ["model", { type = "workspace", group = true }]
            [layout_options]
            separator = " | "
        "#,
    )
    .expect("parse");
    let items = built(Some(&cfg));
    assert_eq!(
        fuses_flags(&items),
        vec![false, false],
        "trailing group fuses nothing"
    );
}

#[test]
fn default_line_fuses_nothing() {
    let items = built(None);
    assert!(
        fuses_flags(&items).iter().all(|&f| !f),
        "default line must fuse nothing: {:?}",
        fuses_flags(&items)
    );
}

#[test]
fn consecutive_separator_entries_warn_with_specific_message() {
    let cfg = parsed(
        r#"
            [line]
            segments = [
                "model",
                { type = "separator", character = " | " },
                { type = "separator", character = " · " },
                "workspace",
            ]
        "#,
    )
    .expect("parse");
    let (items, warns) = built_with_warns(Some(&cfg));
    assert_eq!(segment_count(&items), 2);
    assert_eq!(
        separators_in_order(&items).len(),
        1,
        "duplicate adjacent separator entries collapse to one",
    );
    assert!(
        warns.iter().any(|w| w.contains("consecutive separator")),
        "missing 'consecutive separator' warn: {warns:?}",
    );
    assert!(
        !warns.iter().any(|w| w.contains("without a preceding")),
        "incorrect 'without a preceding' warn fired for adjacent separators: {warns:?}",
    );
}

#[test]
fn leading_separator_entry_warns_with_specific_message() {
    let cfg = parsed(
        r#"
            [line]
            segments = [{ type = "separator", character = " | " }, "model"]
        "#,
    )
    .expect("parse");
    let (items, warns) = built_with_warns(Some(&cfg));
    assert_eq!(segment_count(&items), 1);
    assert_eq!(separators_in_order(&items).len(), 0);
    assert!(
        warns.iter().any(|w| w.contains("leads with a separator")),
        "missing 'leads with a separator' warn: {warns:?}",
    );
}

#[test]
fn kindless_inline_table_entry_warns_and_drops() {
    let cfg = parsed(
        r#"
            [line]
            segments = ["model", { character = " | " }, "workspace"]
        "#,
    )
    .expect("parse");
    let (items, warns) = built_with_warns(Some(&cfg));
    assert_eq!(segment_count(&items), 2, "kindless entry dropped");
    assert!(
        warns.iter().any(|w| w.contains("missing `type`")),
        "missing kindless-entry warn: {warns:?}",
    );
}

#[test]
fn merge_field_on_separator_entry_warns_and_is_ignored() {
    let cfg = parsed(
        r#"
            [line]
            segments = [
                "model",
                { type = "separator", character = " | ", merge = true },
                "workspace",
                "cost",
            ]
            [layout_options]
            separator = " · "
        "#,
    )
    .expect("parse");
    let (items, warns) = built_with_warns(Some(&cfg));
    assert_eq!(segment_count(&items), 3);
    let seps = separators_in_order(&items);
    assert_eq!(
        seps.len(),
        2,
        "boundary count unaffected by separator merge"
    );
    assert!(
        warns.iter().any(|w| w.contains("`merge")),
        "missing merge-on-separator warn: {warns:?}",
    );
}

#[test]
fn character_field_on_segment_entry_warns_and_is_ignored() {
    let cfg = parsed(
        r#"
            [line]
            segments = [{ type = "model", character = "ignored" }, "workspace"]
        "#,
    )
    .expect("parse");
    let (_, warns) = built_with_warns(Some(&cfg));
    assert!(
        warns.iter().any(|w| w.contains("`character")),
        "missing character-on-segment warn: {warns:?}",
    );
}

#[test]
fn unknown_inline_table_keys_round_trip_through_extra_bag() {
    let cfg = parsed(
        r#"
            [line]
            segments = [
                "model",
                { type = "separator", character = " | ", color = "red", bold = true },
                "workspace",
            ]
        "#,
    )
    .expect("config with unknown inline-table keys must parse");
    let (items, _warns) = built_with_warns(Some(&cfg));
    let seps = separators_in_order(&items);
    assert_eq!(
        seps[0],
        &Separator::Literal(Cow::Owned(" | ".to_string())),
    );
    let line = cfg.line.as_ref().expect("line config present");
    let entry = &line.segments[1];
    let extra_keys: Vec<&str> = match entry {
        LineEntry::Item(item) => item.extra.entries().iter().map(|e| e.key.as_str()).collect(),
        LineEntry::Id(_) => panic!("expected LineEntry::Item"),
    };
    assert!(
        extra_keys.contains(&"color"),
        "color preserved: {extra_keys:?}",
    );
    assert!(
        extra_keys.contains(&"bold"),
        "bold preserved: {extra_keys:?}",
    );
}

#[test]
fn malformed_segment_entry_with_wrong_value_type_warns_at_build_time() {
    let cfg = parsed(
        r#"
            [line]
            segments = ["model", { type = 42 }, "workspace"]
        "#,
    )
    .expect("malformed entry must not abort the whole parse");
    let (items, warns) = built_with_warns(Some(&cfg));
    assert_eq!(
        segment_count(&items),
        2,
        "well-formed neighbors render; malformed entry drops",
    );
    assert!(
        warns.iter().any(|w| w.contains("missing `type`")),
        "missing-type warn must fire on the malformed entry: {warns:?}",
    );
}

#[test]
fn resolve_segment_id_returns_borrowed_for_every_built_in() {
    for built_in in &BUILT_IN_SEGMENT_IDS {
        let resolved = resolve_segment_id(built_in);
        assert_eq!(
            resolved.as_ref(),
            *built_in,
            "resolved id content must round-trip — catches a regression that returns a fixed borrowed constant",
        );
        assert!(
            matches!(resolved, Cow::Borrowed(_)),
            "built-in id {built_in:?} must resolve to Cow::Borrowed, got {resolved:?}",
        );
    }
}

#[test]
fn resolve_segment_id_returns_owned_for_non_built_in_ids() {
    for non_built_in in &["my_plugin", "totally-not-a-segment", ""] {
        let resolved = resolve_segment_id(non_built_in);
        assert!(
            matches!(resolved, Cow::Owned(_)),
            "non-built-in id {non_built_in:?} must resolve to Cow::Owned, got {resolved:?}",
        );
    }
}

#[test]
fn build_default_segments_emits_borrowed_ids_in_canonical_order() {
    let items = linesmith_core::build_default_segments(&host);
    let ids: Vec<&str> = items
        .iter()
        .filter_map(|i| match i {
            LineItem::Segment { id, .. } => Some(id.as_ref()),
            _ => None,
        })
        .collect();
    assert_eq!(ids, DEFAULT_SEGMENT_IDS.to_vec());
    for item in &items {
        if let LineItem::Segment { id, .. } = item {
            assert!(
                matches!(id, Cow::Borrowed(_)),
                "default-path id {id:?} must be Cow::Borrowed",
            );
        }
    }
}

#[test]
fn build_segments_records_config_id_on_each_segment() {
    let cfg = parsed(
        r#"
            [line]
            segments = ["model", "git_branch", "workspace"]
        "#,
    )
    .expect("parse");
    let (items, warns) = built_with_warns(Some(&cfg));
    assert!(warns.is_empty(), "expected no warnings, got {warns:?}");
    let ids: Vec<&str> = items
        .iter()
        .filter_map(|i| match i {
            LineItem::Segment { id, .. } => Some(id.as_ref()),
            _ => None,
        })
        .collect();
    assert_eq!(ids, vec!["model", "git_branch", "workspace"]);
    for item in &items {
        if let LineItem::Segment { id, .. } = item {
            assert!(
                matches!(id, Cow::Borrowed(_)),
                "built-in id {id:?} must be Cow::Borrowed on the production-config path",
            );
        }
    }
}

#[test]
fn inline_table_separator_round_trips_through_config_parse() {
    let cfg = parsed(
        r#"
            [line]
            segments = ["model", { type = "separator", character = " | " }, "workspace"]
        "#,
    )
    .expect("parse");
    let line = cfg.line.as_ref().expect("line present");
    match &line.segments[1] {
        LineEntry::Item(item) => {
            assert_eq!(item.kind.as_deref(), Some("separator"));
            assert_eq!(item.character.as_deref(), Some(" | "));
        }
        other => panic!("expected LineEntry::Item, got {other:?}"),
    }
}

#[test]
fn numbered_lines_report_what_is_no_line() {
    let cfg = parsed(
        r#"
            layout = "multi-line"
            [line.1]
            segments = "model"
            [line.2]
            [line.3]
            segments = [1, "model", { type = "workspace", merge = "x" }]
        "#,
    )
    .expect("parse");
    let (result, warns) = lines_with_warns(Some(&cfg));
    assert_eq!(
        priorities_per_line(&result),
        vec![priorities_for(&["model"])]
    );
    assert_eq!(
        warns,
        vec![
            "[line.1].segments is a string (expected an array of strings or inline tables); skipping",
            "[line.2] has no `segments` array; skipping",
            "[line.3].segments[0] is a integer (expected a string or inline table); skipping that item",
            "[line.3].segments[2] inline table didn't parse (invalid type: string, expected a boolean); skipping that item",
        ]
    );
}

fn shape(items: &[LineItem]) -> Vec<String> {
    items
        .iter()
        .map(|i| match i {
            LineItem::Segment { id, fuses_left, .. } => format!("{id} {fuses_left}"),
            LineItem::Separator(sep) => format!("{sep:?}"),
            _ => panic!("no other slot"),
        })
        .collect()
}

#[test]
fn single_line_is_the_first_of_all_lines() {
    for text in [
        "",
        "[line]\nsegments = [\"model\", \"nope\", \"git_branch\"]",
        "layout = \"multi-line\"\n[line]\nsegments = [\"cost\"]\n[line.10]\nsegments = [\"effort\"]\n[line.2]\nsegments = [{ type = \"model\", group = true }, \"workspace\"]",
        "layout = \"multi-line\"\n[line]\nsegments = [\"cost\"]\n[line.x]\nsegments = []",
        "[line]\nsegments = [\"cost\", \"model\"]\n[line.1]\nsegments = [\"effort\"]",
    ] {
        let cfg = config(text);
        assert_eq!(
            shape(&built(Some(&cfg))),
            shape(&lines(Some(&cfg))[0]),
            "{text}"
        );
    }
}

#[test]
fn reports_come_in_the_order_of_the_entries() {
    let cfg = parsed(
        r#"
            [line]
            segments = ["model", "nope", "model"]
            [layout_options]
            separator = "flex"
            powerline_width = 9
            [segments.model]
            style = "role:mauve"
            [segments.model.width]
            min = 9
            max = 3
        "#,
    )
    .expect("parse");
    let (_, warns) = built_with_warns(Some(&cfg));
    assert_eq!(
        warns,
        vec![
            "[layout_options].powerline_width = 9 is not 1 or 2; using 1",
            "[layout_options].separator 'flex' is reserved for v0.2+; rendering as 'space'",
            "segments.model.width: min (9) > max (3); ignoring override",
            "segments.model.style: unknown style token 'role:mauve'; ignoring override",
            "unknown segment id 'nope' — skipping",
            "segment 'model' listed more than once; keeping first occurrence",
        ]
    );
}

#[test]
fn built_lines_hold_no_segment_twice_and_no_stray_separator() {
    let cfg = parsed(
        r#"
            [line]
            segments = [
                { type = "separator" },
                "model",
                { type = "separator" },
                { type = "separator" },
                "model",
                "workspace",
                "workspace",
                { type = "cost", merge = true },
                { type = "separator" },
                "effort",
            ]
        "#,
    )
    .expect("parse");
    let items = built(Some(&cfg));
    let shape: String = items
        .iter()
        .map(|i| match i {
            LineItem::Segment { .. } => 's',
            _ => '|',
        })
        .collect();
    assert_eq!(shape, "s|s|ss");
}
