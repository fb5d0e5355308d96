use linesmith_core::build_lines;
use linesmith_core::config::{
    Config, IconMode, LayoutMode, LayoutOptions, LineConfig, LineEntry, LineEntryItem,
    NamedOverride, NumberedLine, RawEntry, RawField, RawLine, SegmentOverride, UserStyle,
    WidthBoundsConfig,
};
use linesmith_core::data_context::{DataContext, DataDep};
use linesmith_core::diagnostics::Messages;
use linesmith_core::plugins::script::ScriptValue;
use linesmith_core::presets::{body, names};
use linesmith_core::segments::builder::catalog::HostSegment;
use linesmith_core::segments::{
    RenderContext, RenderResult, RenderedSegment, Segment, SegmentBox, SegmentDefaults,
    BUILT_IN_SEGMENT_IDS,
};
use linesmith_core::theme::{Color, Role, Style};
use linesmith_core::value::{Table, Value, ValueKind};

/// A segment of a test: what it renders, and the rest where it matters.
trait Stub {
    fn render(&self, ctx: &DataContext, rc: &RenderContext) -> RenderResult;

    fn shrink_to_fit(
        &self,
        _ctx: &DataContext,
        _rc: &RenderContext,
        _target: u16,
    ) -> Option<RenderedSegment> {
        None
    }

    fn defaults(&self) -> SegmentDefaults {
        SegmentDefaults::default()
    }

    fn user_color_pinned(&self) -> bool {
        false
    }

    fn hiding_reason(&self) -> Option<&'static str> {
        None
    }
}

struct Stubbed<S>(S);

impl<S: Stub + Send> Segment for Stubbed<S> {
    fn render(&self, ctx: &DataContext, rc: &RenderContext) -> RenderResult {
        self.0.render(ctx, rc)
    }

    fn shrink_to_fit(
        &self,
        ctx: &DataContext,
        rc: &RenderContext,
        target: u16,
    ) -> Option<RenderedSegment> {
        self.0.shrink_to_fit(ctx, rc, target)
    }

    fn data_deps(&self) -> &'static [DataDep] {
        &[DataDep::Status]
    }

    fn defaults(&self) -> SegmentDefaults {
        self.0.defaults()
    }

    fn user_color_pinned(&self) -> bool {
        self.0.user_color_pinned()
    }

    fn hiding_reason(&self, _ctx: &DataContext) -> Option<&'static str> {
        self.0.hiding_reason()
    }
}

fn stub<S: Stub + Send + 'static>(s: S) -> SegmentBox {
    SegmentBox {
        segment: Box::new(Stubbed(s)),
    }
}

fn value(v: &toml::Value) -> Value {
    match v {
        toml::Value::String(s) => Value::String(s.clone()),
        toml::Value::Integer(i) => Value::Integer(*i),
        toml::Value::Float(f) => Value::Float(f.to_bits()),
        toml::Value::Boolean(b) => Value::Boolean(*b),
        toml::Value::Datetime(d) => Value::Datetime(d.to_string()),
        toml::Value::Array(items) => Value::Array(items.iter().map(value).collect()),
        toml::Value::Table(t) => Value::Table(table(t, &[])),
    }
}

/// `t` without the keys that are read elsewhere.
fn table(t: &toml::Table, known: &[&str]) -> Table<Value> {
    let mut out = Table::new();
    for (key, v) in t {
        if !known.contains(&key.as_str()) {
            out = out.insert(key.clone(), value(v));
        }
    }
    out
}

/// An inline table of a segment list, or why it cannot be read.
fn inline_entry(t: &toml::Table) -> Result<LineEntryItem, String> {
    let text = |key: &str| match t.get(key) {
        None => Ok(None),
        Some(toml::Value::String(s)) => Ok(Some(s.clone())),
        Some(other) => Err(format!("invalid type: {}, expected a string", other.type_str())),
    };
    let flag = |key: &str| match t.get(key) {
        None => Ok(None),
        Some(toml::Value::Boolean(b)) => Ok(Some(*b)),
        Some(other) => Err(format!("invalid type: {}, expected a boolean", other.type_str())),
    };
    Ok(LineEntryItem {
        kind: text("type")?,
        character: text("character")?,
        merge: flag("merge")?,
        group: flag("group")?,
        extra: table(t, &["type", "character", "merge", "group"]),
    })
}

/// An item of `[line].segments`. What cannot be read is an entry without a
/// `type`.
fn top_entry(v: &toml::Value) -> LineEntry {
    let blank = || LineEntryItem {
        kind: None,
        character: None,
        merge: None,
        group: None,
        extra: Table::new(),
    };
    match v {
        toml::Value::String(s) => LineEntry::Id(s.clone()),
        toml::Value::Table(t) => LineEntry::Item(inline_entry(t).unwrap_or_else(|_| blank())),
        _ => LineEntry::Item(blank()),
    }
}

fn kind_of(v: &toml::Value) -> ValueKind {
    value(v).kind()
}

fn raw_entry(v: &toml::Value) -> RawEntry {
    match v {
        toml::Value::String(s) => RawEntry::Entry(LineEntry::Id(s.clone())),
        toml::Value::Table(t) => match inline_entry(t) {
            Ok(item) => RawEntry::Entry(LineEntry::Item(item)),
            Err(message) => RawEntry::Unreadable(message),
        },
        other => RawEntry::Other(kind_of(other)),
    }
}

fn raw_field(v: &toml::Value) -> RawField {
    match v {
        toml::Value::Array(items) => RawField::List(items.iter().map(raw_entry).collect()),
        other => RawField::Other(kind_of(other)),
    }
}

fn raw_line(v: &toml::Value) -> RawLine {
    match v {
        toml::Value::Table(t) => {
            let mut fields = Table::new();
            for (key, field) in t {
                fields = fields.insert(key.clone(), raw_field(field));
            }
            RawLine::Table(fields)
        }
        other => RawLine::Other(kind_of(other)),
    }
}

fn line_config(t: &toml::Table) -> LineConfig {
    LineConfig {
        segments: match t.get("segments") {
            Some(toml::Value::Array(items)) => items.iter().map(top_entry).collect(),
            _ => Vec::new(),
        },
        numbered: t
            .iter()
            .filter(|(key, _)| key.as_str() != "segments")
            .map(|(key, v)| NumberedLine {
                key: key.clone(),
                line: raw_line(v),
            })
            .collect(),
    }
}

fn parse_style(text: &str) -> Result<Style, String> {
    let mut style = Style::default();
    for word in text.split_whitespace() {
        match word {
            "bold" => style.bold = true,
            "italic" => style.italic = true,
            "underline" => style.underline = true,
            "dim" => style.dim = true,
            "role:accent" => style.role = Some(Role::Accent),
            "fg:#ff0000" => style.fg = Some(Color::TrueColor { r: 255, g: 0, b: 0 }),
            other => return Err(format!("unknown style token '{other}'")),
        }
    }
    Ok(style)
}

fn segment_override(t: &toml::Table) -> SegmentOverride {
    let cells = |t: &toml::Table, key: &str| {
        t.get(key)
            .and_then(|v| v.as_integer())
            .and_then(|n| u16::try_from(n).ok())
    };
    SegmentOverride {
        priority: t
            .get("priority")
            .and_then(|v| v.as_integer())
            .and_then(|n| u8::try_from(n).ok()),
        width: t
            .get("width")
            .and_then(|v| v.as_table())
            .map(|w| WidthBoundsConfig {
                min: cells(w, "min"),
                max: cells(w, "max"),
            }),
        style: t.get("style").and_then(|v| v.as_str()).map(|s| UserStyle {
            text: s.to_string(),
            parsed: parse_style(s),
        }),
        icon: t.get("icon").and_then(|v| v.as_str()).map(str::to_string),
        extra: table(t, &["priority", "width", "style", "icon"]),
    }
}

fn config(text: &str) -> Config {
    let t: toml::Table = text.parse().expect("parse");
    Config {
        layout: match t.get("layout").and_then(|v| v.as_str()) {
            Some("multi-line") => LayoutMode::MultiLine,
            _ => LayoutMode::SingleLine,
        },
        line: t.get("line").and_then(|v| v.as_table()).map(line_config),
        layout_options: t
            .get("layout_options")
            .and_then(|v| v.as_table())
            .map(|o| LayoutOptions {
                separator: o.get("separator").and_then(|v| v.as_str()).map(str::to_string),
                powerline_width: o
                    .get("powerline_width")
                    .and_then(|v| v.as_integer())
                    .and_then(|n| u16::try_from(n).ok()),
                icons: match o.get("icons").and_then(|v| v.as_str()) {
                    Some("off") => IconMode::Off,
                    _ => IconMode::NerdFont,
                },
            }),
        segments: t
            .get("segments")
            .and_then(|v| v.as_table())
            .map(|s| {
                s.iter()
                    .filter_map(|(id, v)| {
                        v.as_table().map(|t| NamedOverride {
                            id: id.clone(),
                            settings: segment_override(t),
                        })
                    })
                    .collect()
            })
            .unwrap_or_default(),
    }
}

/// The segments that the host brings: a text under a priority, and an icon.
struct HostText {
    id: &'static str,
    priority: u8,
    icon: Option<&'static str>,
}

impl Stub for HostText {
    fn render(&self, ctx: &DataContext, _rc: &RenderContext) -> RenderResult {
        let text = match self.id {
            "model" => ctx.status.model.as_ref().map(|m| m.display_name.clone()),
            "workspace" => ctx.status.workspace.as_ref().map(|w| {
                w.project_dir
                    .rsplit('/')
                    .next()
                    .unwrap_or_default()
                    .to_string()
            }),
            _ => None,
        };
        Ok(text.map(|t| RenderedSegment::new(&t).with_role(Role::Primary)))
    }

    fn defaults(&self) -> SegmentDefaults {
        let d = SegmentDefaults::with_priority(self.priority);
        match self.icon {
            Some(icon) => d.with_icon(icon),
            None => d,
        }
    }
}

fn host(id: &str, _extras: Option<&Table<Value>>) -> HostSegment {
    let known = [
        ("model", 64, Some("\u{2726}")),
        ("workspace", 16, None),
        ("cost", 192, None),
        ("effort", 160, None),
        ("session_duration", 168, None),
        ("rate_limit_5h", 96, None),
        ("rate_limit_7d", 97, None),
    ];
    let segment = BUILT_IN_SEGMENT_IDS.iter().find(|b| **b == id).map(|b| {
        let (priority, icon) = known
            .iter()
            .find(|(k, _, _)| k == b)
            .map_or((128, None), |(_, p, i)| (*p, *i));
        stub(HostText {
            id: b,
            priority,
            icon,
        })
    });
    HostSegment {
        segment,
        warnings: Vec::new(),
    }
}

fn segments_of(preset: &str) -> Vec<String> {
    let body = body(preset).expect("preset registered");
    let cfg = config(body);
    cfg.line
        .expect("preset has [line]")
        .segments
        .into_iter()
        .filter_map(|e| e.kind().map(str::to_string))
        .collect()
}

fn lines_of(preset: &str) -> Vec<Vec<String>> {
    let body = body(preset).expect("preset registered");
    let cfg = config(body);
    let line = cfg.line.expect("preset has [line]");
    let mut sorted: Vec<(u32, Vec<String>)> = line
        .numbered
        .into_iter()
        .map(|numbered| {
            let n: u32 = numbered
                .key
                .parse()
                .expect("preset uses positive-integer line keys");
            let RawLine::Table(fields) = &numbered.line else {
                panic!("preset [line.N] is a table");
            };
            let Some(RawField::List(items)) = fields.get("segments") else {
                panic!("preset [line.N].segments is an array");
            };
            let segs: Vec<String> = items
                .iter()
                .map(|item| match item {
                    RawEntry::Entry(LineEntry::Id(id)) => id.clone(),
                    other => panic!("preset segment is a string, got {other:?}"),
                })
                .collect();
            (n, segs)
        })
        .collect();
    sorted.sort_by_key(|(n, _)| *n);
    sorted.into_iter().map(|(_, segs)| segs).collect()
}

#[test]
fn registry_has_five_presets_in_stable_order() {
    let got: Vec<&str> = names();
    assert_eq!(
        got,
        vec![
            "minimal",
            "developer",
            "power-user",
            "cost-focused",
            "worktree-heavy",
        ]
    );
}

#[test]
fn every_preset_parses_without_warnings() {
    for name in names() {
        let body = body(name).expect("preset registered");
        let cfg = config(body);
        let mut warnings: Vec<String> = Vec::new();
        let mut messages = Messages::new();
        let no_plugins = |_: &str, _: Table<ScriptValue>| -> SegmentBox {
            unreachable!("no plugin is declared")
        };
        let _ = build_lines(Some(&cfg), Vec::new(), &host, &no_plugins, &mut messages);
        warnings.append(&mut messages.lines);
        assert!(
            warnings.is_empty(),
            "preset '{name}' emitted warnings: {warnings:?}"
        );
    }
}

#[test]
fn minimal_preset_segments_are_model_and_context_window() {
    assert_eq!(segments_of("minimal"), vec!["model", "context_window"]);
}

#[test]
fn developer_preset_segments_match_spec() {
    assert_eq!(
        segments_of("developer"),
        vec![
            "model",
            "workspace",
            "context_window",
            "cost",
            "session_duration",
            "rate_limit_5h",
            "rate_limit_7d",
        ]
    );
}

#[test]
fn power_user_preset_is_multi_line_with_two_lines() {
    let body = body("power-user").expect("preset registered");
    let cfg = config(body);
    assert_eq!(
        cfg.layout,
        LayoutMode::MultiLine,
        "power-user must declare layout = \"multi-line\""
    );
    assert_eq!(
        lines_of("power-user"),
        vec![
            vec!["model", "context_window", "workspace"],
            vec![
                "rate_limit_5h",
                "rate_limit_7d",
                "cost",
                "effort",
                "tokens_total",
            ],
        ]
    );
}

#[test]
fn cost_focused_preset_segments_match_spec() {
    assert_eq!(
        segments_of("cost-focused"),
        vec![
            "model",
            "context_window",
            "cost",
            "rate_limit_5h",
            "rate_limit_7d",
        ]
    );
}

#[test]
fn worktree_heavy_preset_segments_match_spec() {
    assert_eq!(
        segments_of("worktree-heavy"),
        vec!["model", "workspace", "context_window"]
    );
}

#[test]
fn preset_names_are_unique() {
    let mut seen = std::collections::HashSet::new();
    for name in names() {
        assert!(seen.insert(name), "duplicate preset name: {name}");
    }
}

#[test]
fn body_returns_none_for_unknown_name() {
    assert!(body("definitely-not-a-preset").is_none());
    assert!(body("").is_none());
}

#[test]
fn body_lookup_is_case_sensitive() {
    assert!(body("minimal").is_some());
    assert!(body("Minimal").is_none());
    assert!(body("MINIMAL").is_none());
    assert!(body("Developer").is_none());
}

#[test]
fn every_listed_preset_has_a_body() {
    for name in names() {
        assert!(body(name).is_some_and(|b| b.contains("segments")), "{name}");
    }
}
