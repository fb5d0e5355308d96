use std::borrow::Cow;

use linesmith_core::data_context::{
    DataContext, DataDep, ModelInfo, StatusContext, WorkspaceInfo,
};
use linesmith_core::layout;
use linesmith_core::layout::decision::LayoutDecision;
use linesmith_core::layout::{
    apply_layout, apply_width_bounds, emit_runs, items_to_runs, render_to_runs, total_width, truncate_to,
    try_reflow, LayoutItem, LayoutObservers, SegmentEntry,
};
use linesmith_core::segments::context_bar::ContextBarSegment;
use linesmith_core::segments::context_window::ContextWindowSegment;
use linesmith_core::segments::{
    text_width, LineItem, RenderContext, RenderResult, RenderedSegment, Segment, SegmentBox,
    SegmentDefaults, SegmentError, Separator, WidthBounds,
};
use linesmith_core::theme::{Role, Style, StyledRun};

/// A segment of a test: what it renders, and the rest where it matters.
trait Stub {
    fn render(&self, ctx: &DataContext, rc: &RenderContext) -> RenderResult;

    fn shrink_to_fit(
        &self,
        _ctx: &DataContext,
        _rc: &RenderContext,
        _target: u16,
    ) -> Option<RenderedSegment> {
        None
    }

    fn defaults(&self) -> SegmentDefaults {
        SegmentDefaults::default()
    }

    fn user_color_pinned(&self) -> bool {
        false
    }

    fn hiding_reason(&self) -> Option<&'static str> {
        None
    }
}

struct Stubbed<S>(S);

impl<S: Stub + Send> Segment for Stubbed<S> {
    fn render(&self, ctx: &DataContext, rc: &RenderContext) -> RenderResult {
        self.0.render(ctx, rc)
    }

    fn shrink_to_fit(
        &self,
        ctx: &DataContext,
        rc: &RenderContext,
        target: u16,
    ) -> Option<RenderedSegment> {
        self.0.shrink_to_fit(ctx, rc, target)
    }

    fn data_deps(&self) -> &'static [DataDep] {
        &[DataDep::Status]
    }

    fn defaults(&self) -> SegmentDefaults {
        self.0.defaults()
    }

    fn user_color_pinned(&self) -> bool {
        self.0.user_color_pinned()
    }

    fn hiding_reason(&self, _ctx: &DataContext) -> Option<&'static str> {
        self.0.hiding_reason()
    }
}

fn stub<S: Stub + Send + 'static>(s: S) -> SegmentBox {
    SegmentBox {
        segment: Box::new(Stubbed(s)),
    }
}

struct NoopSegment;

impl Stub for NoopSegment {
    fn render(&self, _ctx: &DataContext, _rc: &RenderContext) -> RenderResult {
        Ok(None)
    }
}

fn noop_segment() -> &'static SegmentBox {
    Box::leak(Box::new(stub(NoopSegment)))
}

fn test_id() -> &'static Cow<'static, str> {
    Box::leak(Box::new(Cow::Borrowed("test")))
}

fn empty_ctx() -> DataContext {
    DataContext::new(StatusContext {
        model: Some(ModelInfo {
            display_name: "X".into(),
        }),
        workspace: Some(WorkspaceInfo {
            project_dir: "/".into(),
            git_worktree: None,
        }),
        context_window: None,
    })
}

/// What a terminal can do about colors.
#[derive(Clone, Copy, Debug)]
enum Capability {
    Plain,
    Palette16,
}

struct Palette;

fn default_theme() -> Palette {
    Palette
}

fn sgr_open(style: &Style, _theme: Palette, capability: Capability) -> String {
    let code = match (capability, style.role) {
        (Capability::Plain, _) | (_, None) => return String::new(),
        (_, Some(Role::Primary)) => 95,
        (_, Some(Role::Warning)) => 93,
        (_, Some(Role::Error)) => 91,
        (_, Some(Role::Info)) => 94,
        (_, Some(Role::Muted)) => 90,
        (_, Some(_)) => 37,
    };
    format!("\x1b[{code}m")
}

fn render_with_warn(
    items: &[LineItem],
    ctx: &DataContext,
    terminal_width: u16,
    warn: &mut dyn FnMut(&str),
    _theme: Palette,
    capability: Capability,
    hyperlinks: bool,
) -> String {
    let mut observers = LayoutObservers::new();
    let line = layout::render_with_warn(
        items,
        ctx,
        terminal_width,
        &mut observers,
        &|style: &Style| sgr_open(style, Palette, capability),
        hyperlinks,
    );
    for message in &observers.warnings.lines {
        warn(message);
    }
    line
}

fn runs_to_ansi(
    runs: &[StyledRun],
    _theme: Palette,
    capability: Capability,
    hyperlinks: bool,
) -> String {
    layout::runs_to_ansi(
        runs,
        &|style: &Style| sgr_open(style, Palette, capability),
        hyperlinks,
    )
}

fn render_items(
    items: Vec<LayoutItem<'_>>,
    ctx: &DataContext,
    rc: &RenderContext,
    terminal_width: u16,
    theme: Palette,
    capability: Capability,
) -> String {
    let fitted = apply_layout(items, ctx, rc, terminal_width, &mut LayoutObservers::new());
    runs_to_ansi(&items_to_runs(&fitted), theme, capability, false)
}

fn collect_items_with<'a>(
    line: &'a [LineItem],
    ctx: &DataContext,
    rc: &RenderContext,
    warn: &mut dyn FnMut(&str),
) -> Vec<LayoutItem<'a>> {
    let mut observers = LayoutObservers::new();
    let items = layout::collect_items_with(line, ctx, rc, &mut observers);
    for message in &observers.warnings.lines {
        warn(message);
    }
    items
}

fn styled(text: impl Into<String>, style: Style) -> StyledRun {
    StyledRun::new(text.into(), style)
}

fn linked(style: Style, url: &str) -> Style {
    Style {
        hyperlink: Some(url.to_string()),
        ..style
    }
}

fn empty_rc() -> RenderContext {
    RenderContext::new(80)
}

fn item(text: &str, priority: u8) -> LayoutItem<'static> {
    LayoutItem::Segment(SegmentEntry {
        id: test_id(),
        rendered: RenderedSegment::new(text),
        defaults: SegmentDefaults::with_priority(priority),
        segment: noop_segment(),
        paint: None,
    })
}

fn space() -> LayoutItem<'static> {
    LayoutItem::Separator(Separator::Space)
}

fn pl() -> LayoutItem<'static> {
    LayoutItem::Separator(Separator::powerline())
}

fn lit(s: &'static str) -> LayoutItem<'static> {
    LayoutItem::Separator(Separator::Literal(Cow::Borrowed(s)))
}

fn none_sep() -> LayoutItem<'static> {
    LayoutItem::Separator(Separator::Empty)
}

fn spaced(specs: &[(&str, u8)]) -> Vec<LayoutItem<'static>> {
    interleaved(specs, space)
}

fn pl_spec(specs: &[(&str, u8)]) -> Vec<LayoutItem<'static>> {
    interleaved(specs, pl)
}

fn interleaved(
    specs: &[(&str, u8)],
    mut sep: impl FnMut() -> LayoutItem<'static>,
) -> Vec<LayoutItem<'static>> {
    let mut out = Vec::with_capacity(specs.len().saturating_mul(2));
    for (i, &(text, priority)) in specs.iter().enumerate() {
        out.push(item(text, priority));
        if i + 1 < specs.len() {
            out.push(sep());
        }
    }
    out
}

fn line_items_with(segments: Vec<SegmentBox>, sep: Separator) -> Vec<LineItem> {
    let n = segments.len();
    let mut out = Vec::with_capacity(n.saturating_mul(2));
    for (i, segment) in segments.into_iter().enumerate() {
        out.push(LineItem::seg(Cow::Owned(format!("seg{i}")), segment));
        if i + 1 < n {
            out.push(LineItem::Separator(sep.clone()));
        }
    }
    out
}

fn line_items_spaced(segments: Vec<SegmentBox>) -> Vec<LineItem> {
    line_items_with(segments, Separator::Space)
}

fn render_plain(items: Vec<LayoutItem<'_>>, terminal_width: u16) -> String {
    render_items(
        items,
        &empty_ctx(),
        &empty_rc(),
        terminal_width,
        default_theme(),
        Capability::Plain,
    )
}

#[test]
fn render_items_wraps_each_styled_segment_under_palette16() {
    let items = vec![
        item("a", 10),
        space(),
        LayoutItem::Segment(SegmentEntry {
            id: test_id(),
            rendered: RenderedSegment::new("b").with_role(Role::Warning),
            defaults: SegmentDefaults::with_priority(10),
            segment: noop_segment(),
            paint: None,
        }),
        space(),
        item("c", 10),
    ];
    let out = render_items(
        items,
        &empty_ctx(),
        &empty_rc(),
        100,
        default_theme(),
        Capability::Palette16,
    );
    assert_eq!(out, "a \x1b[93mb\x1b[0m c");
}

#[test]
fn total_width_sums_all_layout_items() {
    let items = spaced(&[("ab", 10), ("cd", 10), ("ef", 10)]);
    assert_eq!(total_width(&items), 8);
}

#[test]
fn total_width_zero_for_empty() {
    assert_eq!(total_width(&vec![]), 0);
}

#[test]
fn total_width_single_segment_has_no_separator() {
    let items = vec![item("abcde", 10)];
    assert_eq!(total_width(&items), 5);
}

#[test]
fn no_width_pressure_renders_all_with_separators() {
    let items = spaced(&[("one", 10), ("two", 20), ("three", 30)]);
    assert_eq!(render_plain(items, 100), "one two three");
}

#[test]
fn drops_highest_priority_under_pressure() {
    let items = spaced(&[
        ("aaaa", 10),
        ("bbbb", 200), // highest priority → drops first
        ("cccc", 50),
    ]);
    let out = render_plain(items, 10);
    assert!(!out.contains("bbbb"));
    assert!(out.contains("aaaa"));
    assert!(out.contains("cccc"));
}

#[test]
fn drops_in_descending_priority_order() {
    let items = spaced(&[
        ("one", 10),
        ("two", 200), // drops first
        ("three", 20),
        ("four", 150), // drops second
        ("five", 30),
    ]);
    assert_eq!(render_plain(items, 15), "one three five");
}

#[test]
fn priority_zero_never_drops_even_over_budget() {
    let items = spaced(&[("aaaa", 0), ("bbbb", 0)]);
    let out = render_plain(items, 3);
    assert_eq!(out, "aaaa bbbb");
}

#[test]
fn priority_drop_recomputes_budget_with_powerline_separators() {
    let items = pl_spec(&[("aaaa", 0), ("bbbb", 200), ("cccc", 0)]);
    let out = render_plain(items, 14);
    assert!(out.contains("aaaa"));
    assert!(!out.contains("bbbb"));
    assert!(out.contains("cccc"));
    assert!(
        out.contains('\u{E0B0}'),
        "chevron survives the drop: {out:?}"
    );
}

#[test]
fn mix_drops_positives_keeps_zeros() {
    let items = spaced(&[("keep-me", 0), ("droppable", 200), ("sticky", 0)]);
    let out = render_plain(items, 20);
    assert_eq!(out, "keep-me sticky");
}

#[test]
fn no_trailing_separator() {
    let items = spaced(&[("a", 10), ("b", 10)]);
    assert_eq!(render_plain(items, 100), "a b");
}

#[test]
fn empty_input_renders_empty_string() {
    assert_eq!(render_plain(vec![], 100), "");
}

#[test]
fn respects_inline_literal_separator() {
    let items = vec![item("a", 10), lit(" | "), item("b", 10)];
    assert_eq!(render_plain(items, 100), "a | b");
}

#[test]
fn render_inline_none_separator_collapses_neighbors() {
    let items = vec![item("a", 10), none_sep(), item("b", 10)];
    assert_eq!(render_plain(items, 100), "ab");
}


#[test]
fn apply_width_bounds_drops_below_min() {
    let bounds = WidthBounds::new(5, 10);
    let rendered = RenderedSegment::new("abc"); // width 3
    assert!(apply_width_bounds(rendered, bounds).is_none());
}

#[test]
fn apply_width_bounds_truncates_above_max() {
    let bounds = WidthBounds::new(0, 5);
    let rendered = RenderedSegment::new("abcdefghij"); // width 10
    let truncated = apply_width_bounds(rendered, bounds).expect("truncated");
    assert_eq!(truncated.width(), 5);
    assert!(truncated.text().ends_with('…'));
    assert_eq!(truncated.text(), "abcd…");
}

#[test]
fn apply_width_bounds_passthrough_within_range() {
    let bounds = WidthBounds::new(2, 10);
    let original = RenderedSegment::new("hello");
    let result = apply_width_bounds(original.clone(), bounds).expect("kept");
    assert_eq!(result, original);
}

#[test]
fn apply_width_bounds_none_is_passthrough() {
    let original = RenderedSegment::new("anything");
    let result = apply_width_bounds(original.clone(), None).expect("kept");
    assert_eq!(result, original);
}

#[test]
fn truncate_to_zero_yields_empty() {
    let out = truncate_to(RenderedSegment::new("abc"), 0);
    assert_eq!(out.text(), "");
    assert_eq!(out.width(), 0);
}

#[test]
fn truncate_handles_wide_grapheme_without_splitting() {
    let bounds = WidthBounds::new(0, 6);
    let truncated =
        apply_width_bounds(RenderedSegment::new("42% · 200k"), bounds).expect("truncated");
    assert_eq!(truncated.text(), "42% ·…");
    assert_eq!(truncated.width(), 6);
}

#[test]
fn truncate_preserves_combining_mark_with_base() {
    let r = RenderedSegment::new("ab\u{65}\u{301}de");
    assert_eq!(r.width(), 5);
    let out = truncate_to(r, 4);
    assert_eq!(out.text(), "ab\u{65}\u{301}…");
    assert_eq!(out.width(), 4);
}

#[test]
fn truncate_does_not_split_zwj_emoji_sequence() {
    let text = "a\u{1F468}\u{200D}\u{1F469}\u{200D}\u{1F466}b";
    let r = RenderedSegment::new(text);
    let out = truncate_to(r, 3);
    assert_eq!(out.text(), "a…");
    assert_eq!(out.width(), 2);
}

#[test]
fn truncate_to_max_cells_one_emits_only_ellipsis() {
    let r = RenderedSegment::new("anything");
    let out = truncate_to(r, 1);
    assert_eq!(out.text(), "…");
    assert_eq!(out.width(), 1);
}

#[test]
fn priority_ties_drop_rightmost_first() {
    let items = spaced(&[("left", 200), ("mid", 50), ("right", 200)]);
    assert_eq!(render_plain(items, 10), "left mid");
}

#[test]
fn separator_none_not_charged_to_budget() {
    let items = vec![
        item("a", 200),
        space(),
        item("b", 200),
        none_sep(),
        item("c", 200),
    ];
    assert_eq!(render_plain(items, 4), "a bc");
}

#[test]
fn total_width_returns_u32_beyond_u16_range() {
    fn wide(text: String) -> LayoutItem<'static> {
        LayoutItem::Segment(SegmentEntry {
            id: test_id(),
            rendered: RenderedSegment::new(&text),
            defaults: SegmentDefaults::with_priority(10),
            segment: noop_segment(),
            paint: None,
        })
    }
    let items = vec![
        wide("x".repeat(u16::MAX as usize)),
        space(),
        wide("x".repeat(u16::MAX as usize)),
        space(),
        wide("x".repeat(u16::MAX as usize)),
    ];
    assert_eq!(total_width(&items), 3 * u32::from(u16::MAX) + 2);
}

#[test]
fn all_priority_zero_keeps_every_segment_even_when_overfull() {
    let items = spaced(&[("aaa", 0), ("bbb", 0), ("ccc", 0)]);
    assert_eq!(render_plain(items, 4), "aaa bbb ccc");
}



struct StubSegment(RenderResult);

impl Stub for StubSegment {
    fn render(&self, _ctx: &DataContext, _rc: &RenderContext) -> RenderResult {
        match &self.0 {
            Ok(Some(r)) => Ok(Some(r.clone())),
            Ok(None) => Ok(None),
            Err(e) => Err(SegmentError::new(&e.message)),
        }
    }
}

#[test]
fn segment_error_is_logged_and_hides_segment() {
    let line = line_items_spaced(vec![
        stub(StubSegment(Ok(Some(RenderedSegment::new("ok-before"))))),
        stub(StubSegment(Err(SegmentError::new("boom")))),
        stub(StubSegment(Ok(Some(RenderedSegment::new("ok-after"))))),
    ]);
    let mut warnings = Vec::new();
    let items = collect_items_with(&line, &empty_ctx(), &empty_rc(), &mut |msg| {
        warnings.push(msg.to_string());
    });
    assert_eq!(items.len(), 3);
    assert_eq!(segment_text(&items[0]), "ok-before");
    assert!(matches!(items[1], LayoutItem::Separator(_)));
    assert_eq!(segment_text(&items[2]), "ok-after");
    assert_eq!(warnings.len(), 1);
    assert!(warnings[0].contains("segment error"));
    assert!(warnings[0].contains("boom"));
}

#[test]
fn ok_none_is_silently_hidden() {
    let line = line_items_spaced(vec![
        stub(StubSegment(Ok(Some(RenderedSegment::new("visible"))))),
        stub(StubSegment(Ok(None))),
    ]);
    let mut warnings = Vec::new();
    let items = collect_items_with(&line, &empty_ctx(), &empty_rc(), &mut |msg| {
        warnings.push(msg.to_string());
    });
    assert_eq!(items.len(), 1);
    assert_eq!(segment_text(&items[0]), "visible");
    assert!(warnings.is_empty());
}

struct WidthEcho;
impl Stub for WidthEcho {
    fn render(&self, _ctx: &DataContext, rc: &RenderContext) -> RenderResult {
        Ok(Some(RenderedSegment::new(&rc.terminal_width.to_string())))
    }
}

#[test]
fn render_context_threads_terminal_width_into_segments() {
    let line = line_items_spaced(vec![stub(WidthEcho)]);
    let mut warnings = Vec::new();
    let rc = RenderContext::new(42);
    let items = collect_items_with(&line, &empty_ctx(), &rc, &mut |msg| {
        warnings.push(msg.to_string());
    });
    assert_eq!(items.len(), 1);
    assert_eq!(segment_text(&items[0]), "42");
}

#[test]
fn render_with_warn_constructs_render_context_from_terminal_width_arg() {
    let line = line_items_spaced(vec![stub(WidthEcho)]);
    let mut warnings = Vec::new();
    let out = render_with_warn(
        &line,
        &empty_ctx(),
        137,
        &mut |msg| warnings.push(msg.to_string()),
        default_theme(),
        Capability::Plain,
        false,
    );
    assert!(out.contains("137"), "got {out:?}");
}


fn truncatable_item(text: &str, priority: u8) -> LayoutItem<'static> {
    LayoutItem::Segment(SegmentEntry {
        id: test_id(),
        rendered: RenderedSegment::new(text),
        defaults: SegmentDefaults::with_priority(priority).with_truncatable(true),
        segment: noop_segment(),
        paint: None,
    })
}

fn segment_text<'a>(item: &'a LayoutItem<'_>) -> &'a str {
    match item {
        LayoutItem::Segment(seg) => seg.rendered.text(),
        LayoutItem::Separator(_) => panic!("expected segment, got separator"),
    }
}

#[test]
fn reflow_truncates_highest_priority_before_dropping() {
    let items = vec![
        truncatable_item("linesmith/very-long-feature-branch-name", 200),
        space(),
        item("Sonnet", 0),
    ];
    let out = render_plain(items, 30);
    assert!(out.starts_with("linesmith/very-long-fe"), "got {out:?}");
    assert!(out.ends_with("… Sonnet"), "got {out:?}");
    assert_eq!(text_width(&out), 30);
}

#[test]
fn reflow_drops_when_truncation_would_fall_below_floor() {
    let items = vec![
        truncatable_item("workspace-name", 200),
        space(),
        item("KEEP", 0),
    ];
    let out = render_plain(items, 4);
    assert_eq!(out, "KEEP");
}

fn truncatable_with_bounds(text: &str, priority: u8, bounds: WidthBounds) -> LayoutItem<'static> {
    LayoutItem::Segment(SegmentEntry {
        id: test_id(),
        rendered: RenderedSegment::new(text),
        defaults: SegmentDefaults::with_priority(priority)
            .with_truncatable(true)
            .with_width(bounds),
        segment: noop_segment(),
        paint: None,
    })
}

#[test]
fn reflow_respects_explicit_width_min_floor() {
    let bounds = WidthBounds::new(8, u16::MAX).expect("valid");
    let items = vec![
        truncatable_with_bounds("abcdefghijklmnop", 200, bounds), // width 16
        space(),
        item("X", 0),
    ];
    let out = render_plain(items, 10);
    assert!(out.contains('…'), "got {out:?}");
    assert!(out.ends_with(" X"), "got {out:?}");

    let items = vec![
        truncatable_with_bounds("abcdefghijklmnop", 200, bounds),
        space(),
        item("X", 0),
    ];
    let out = render_plain(items, 9);
    assert_eq!(out, "X");
}

#[test]
fn non_truncatable_drops_unchanged_under_pressure() {
    let items = spaced(&[("45% · 200k", 200), ("Sonnet", 0)]);
    let out = render_plain(items, 10);
    assert_eq!(out, "Sonnet");
}

#[test]
fn reflow_iterates_when_first_truncation_insufficient() {
    let items = vec![
        truncatable_item("aaaaaaaaaa", 100),
        space(),
        truncatable_item("bbbbbbbbbb", 100),
        space(),
        item("KEEP", 0),
    ];
    let out = render_plain(items, 12);
    assert_eq!(out, "aaaaaa… KEEP");
    assert_eq!(text_width(&out), 12);
}

#[test]
fn reflow_does_not_touch_priority_zero_even_when_truncatable() {
    let items = vec![
        LayoutItem::Segment(SegmentEntry {
            id: test_id(),
            rendered: RenderedSegment::new("untouchable-long-name"),
            defaults: SegmentDefaults::with_priority(0).with_truncatable(true),
            segment: noop_segment(),
            paint: None,
        }),
        space(),
        item("Sonnet", 0),
    ];
    let out = render_plain(items, 5);
    assert_eq!(out, "untouchable-long-name Sonnet");
}


struct ShrinkableSegment {
    full: &'static str,
    compact: &'static str,
}
impl Stub for ShrinkableSegment {
    fn render(&self, _ctx: &DataContext, _rc: &RenderContext) -> RenderResult {
        Ok(Some(RenderedSegment::new(self.full)))
    }
    fn shrink_to_fit(
        &self,
        _ctx: &DataContext,
        _rc: &RenderContext,
        target: u16,
    ) -> Option<RenderedSegment> {
        let r = RenderedSegment::new(self.compact);
        (r.width() <= target).then_some(r)
    }
    fn defaults(&self) -> SegmentDefaults {
        SegmentDefaults::with_priority(200)
    }
}

struct AnchorSegment(&'static str);
impl Stub for AnchorSegment {
    fn render(&self, _ctx: &DataContext, _rc: &RenderContext) -> RenderResult {
        Ok(Some(RenderedSegment::new(self.0)))
    }
    fn defaults(&self) -> SegmentDefaults {
        SegmentDefaults::with_priority(0)
    }
}

#[test]
fn shrink_to_fit_replaces_full_render_when_compact_form_fits() {
    let items = line_items_spaced(vec![
        stub(ShrinkableSegment {
            full: "longbranch * ↑2 ↓1",
            compact: "longbranch",
        }),
        stub(AnchorSegment("KEEP")),
    ]);
    let mut warnings = Vec::new();
    let line = render_with_warn(
        &items,
        &empty_ctx(),
        17,
        &mut |m| warnings.push(m.to_string()),
        default_theme(),
        Capability::Plain,
        false,
    );
    assert_eq!(line, "longbranch KEEP");
}

#[test]
fn shrink_to_fit_falls_back_to_drop_when_compact_form_too_wide() {
    let items = line_items_spaced(vec![
        stub(ShrinkableSegment {
            full: "longbranch",
            compact: "stilltoolongtruly",
        }),
        stub(AnchorSegment("X")),
    ]);
    let mut warnings = Vec::new();
    let line = render_with_warn(
        &items,
        &empty_ctx(),
        5,
        &mut |m| warnings.push(m.to_string()),
        default_theme(),
        Capability::Plain,
        false,
    );
    assert_eq!(line, "X");
}

#[test]
fn shrink_to_fit_honors_configured_width_min_floor() {
    struct LowFloorShrink;
    impl Stub for LowFloorShrink {
        fn render(&self, _: &DataContext, _: &RenderContext) -> RenderResult {
            Ok(Some(RenderedSegment::new("longerprefix")))
        }
        fn shrink_to_fit(
            &self,
            _: &DataContext,
            _: &RenderContext,
            _target: u16,
        ) -> Option<RenderedSegment> {
            Some(RenderedSegment::new("five5"))
        }
        fn defaults(&self) -> SegmentDefaults {
            SegmentDefaults::with_priority(200)
                .with_width(WidthBounds::new(8, u16::MAX).expect("valid"))
        }
    }
    let items = line_items_spaced(vec![stub(LowFloorShrink), stub(AnchorSegment("X"))]);
    let line = render_with_warn(
        &items,
        &empty_ctx(),
        7,
        &mut |_| {},
        default_theme(),
        Capability::Plain,
        false,
    );
    assert_eq!(line, "X");
}

#[test]
fn shrink_to_fit_rejects_too_wide_response_and_drops() {
    struct MisbehavingSegment;
    impl Stub for MisbehavingSegment {
        fn render(&self, _: &DataContext, _: &RenderContext) -> RenderResult {
            Ok(Some(RenderedSegment::new("longbranch")))
        }
        fn shrink_to_fit(
            &self,
            _: &DataContext,
            _: &RenderContext,
            _target: u16,
        ) -> Option<RenderedSegment> {
            Some(RenderedSegment::new("stilltoolongtruly"))
        }
        fn defaults(&self) -> SegmentDefaults {
            SegmentDefaults::with_priority(200)
        }
    }
    let items = line_items_spaced(vec![
        stub(MisbehavingSegment),
        stub(AnchorSegment("X")),
    ]);
    let line = render_with_warn(
        &items,
        &empty_ctx(),
        5,
        &mut |_| {},
        default_theme(),
        Capability::Plain,
        false,
    );
    assert_eq!(line, "X");
}

#[test]
fn shrink_to_fit_runs_before_truncatable_end_ellipsis() {
    struct DualSegment;
    impl Stub for DualSegment {
        fn render(&self, _ctx: &DataContext, _rc: &RenderContext) -> RenderResult {
            Ok(Some(RenderedSegment::new("longprefix-with-tail")))
        }
        fn shrink_to_fit(
            &self,
            _ctx: &DataContext,
            _rc: &RenderContext,
            target: u16,
        ) -> Option<RenderedSegment> {
            let r = RenderedSegment::new("longprefix");
            (r.width() <= target).then_some(r)
        }
        fn defaults(&self) -> SegmentDefaults {
            SegmentDefaults::with_priority(200).with_truncatable(true)
        }
    }
    let items = line_items_spaced(vec![
        stub(DualSegment),
        stub(StubSegment(Ok(Some(RenderedSegment::new("X"))))),
    ]);
    let mut warnings = Vec::new();
    let line = render_with_warn(
        &items,
        &empty_ctx(),
        13,
        &mut |m| warnings.push(m.to_string()),
        default_theme(),
        Capability::Plain,
        false,
    );
    assert!(line.contains("longprefix"), "got {line:?}");
    assert!(!line.contains('…'), "no end-ellipsis: {line:?}");
}


#[test]
fn render_to_runs_empty_input_yields_no_runs() {
    let items: Vec<LineItem> = vec![];
    let runs = render_to_runs(&items, &empty_ctx(), 100, &mut LayoutObservers::new());
    assert!(runs.is_empty());
}

#[test]
fn render_to_runs_emits_segment_then_separator_then_segment() {
    let items = line_items_spaced(vec![
        stub(StubSegment(Ok(Some(RenderedSegment::new("a"))))),
        stub(StubSegment(Ok(Some(RenderedSegment::new("b"))))),
    ]);
    let runs = render_to_runs(&items, &empty_ctx(), 100, &mut LayoutObservers::new());
    assert_eq!(runs.len(), 3);
    assert_eq!(runs[0].text, "a");
    assert_eq!(runs[0].style, Style::default());
    assert_eq!(runs[1].text, " ");
    assert_eq!(runs[1].style, Style::default());
    assert_eq!(runs[2].text, "b");
    assert_eq!(runs[2].style, Style::default());
}

#[test]
fn render_to_runs_preserves_segment_style() {
    let items = line_items_spaced(vec![
        stub(StubSegment(Ok(Some(RenderedSegment::new("plain"))))),
        stub(StubSegment(Ok(Some(
            RenderedSegment::new("warn").with_role(Role::Warning),
        )))),
    ]);
    let runs = render_to_runs(&items, &empty_ctx(), 100, &mut LayoutObservers::new());
    assert_eq!(runs.len(), 3);
    assert_eq!(runs[2].text, "warn");
    assert_eq!(runs[2].style.role, Some(Role::Warning));
}

#[test]
fn render_to_runs_skips_separator_none_between_segments() {
    let items = line_items_with(
        vec![
            stub(StubSegment(Ok(Some(RenderedSegment::with_separator(
                "a",
                Separator::Empty,
            ))))),
            stub(StubSegment(Ok(Some(RenderedSegment::new("b"))))),
        ],
        Separator::Space,
    );
    let runs = render_to_runs(&items, &empty_ctx(), 100, &mut LayoutObservers::new());
    assert_eq!(runs.len(), 2);
    assert_eq!(runs[0].text, "a");
    assert_eq!(runs[1].text, "b");
}

#[test]
fn render_to_runs_drops_segments_under_width_pressure() {
    let items = line_items_spaced(vec![
        stub(StubSegment(Ok(Some(
            RenderedSegment::new("keep").with_role(Role::Primary),
        )))),
        stub(DroppableStub("droppable")),
        stub(StubSegment(Ok(Some(RenderedSegment::new("anchor"))))),
    ]);
    let runs = render_to_runs(&items, &empty_ctx(), 12, &mut LayoutObservers::new());
    let texts: Vec<&str> = runs.iter().map(|r| r.text()).collect();
    assert_eq!(texts, vec!["keep", " ", "anchor"]);
}

fn round_trip_line() -> Vec<LineItem> {
    line_items_spaced(vec![
        stub(StubSegment(Ok(Some(
            RenderedSegment::new("ctx").with_role(Role::Info),
        )))),
        stub(StubSegment(Ok(Some(RenderedSegment::new("|"))))),
        stub(StubSegment(Ok(Some(
            RenderedSegment::new("err").with_role(Role::Error),
        )))),
    ])
}

fn round_trip_assert(terminal_width: u16, capability: Capability, hyperlinks: bool) {
    let items = round_trip_line();
    let direct = render_with_warn(
        &items,
        &empty_ctx(),
        terminal_width,
        &mut |_| {},
        default_theme(),
        capability,
        hyperlinks,
    );
    let runs = render_to_runs(&items, &empty_ctx(), terminal_width, &mut LayoutObservers::new());
    let recomposed = runs_to_ansi(&runs, default_theme(), capability, hyperlinks);
    assert_eq!(
        direct, recomposed,
        "cap={capability:?} width={terminal_width} hyperlinks={hyperlinks}"
    );
}

#[test]
fn render_to_runs_then_runs_to_ansi_matches_render_with_warn() {
    round_trip_assert(100, Capability::Palette16, false);
}

#[test]
fn render_to_runs_round_trip_holds_under_capability_none() {
    round_trip_assert(100, Capability::Plain, false);
}

#[test]
fn render_to_runs_round_trip_holds_under_width_pressure() {
    round_trip_assert(5, Capability::Palette16, false);
}

#[test]
fn render_to_runs_round_trip_holds_with_hyperlinks_enabled() {
    round_trip_assert(100, Capability::Palette16, true);
}

#[test]
fn render_to_runs_with_one_survivor_emits_no_trailing_separator() {
    let items = line_items_spaced(vec![
        stub(StubSegment(Ok(Some(RenderedSegment::new("a"))))),
        stub(DroppableStub("droppable")),
    ]);
    let runs = render_to_runs(&items, &empty_ctx(), 1, &mut LayoutObservers::new());
    assert_eq!(runs.len(), 1);
    assert_eq!(runs[0].text, "a");
}

#[test]
fn render_to_runs_emits_powerline_chevron_with_muted_role() {
    let items = line_items_with(
        vec![
            stub(StubSegment(Ok(Some(
                RenderedSegment::new("a").with_role(Role::Primary),
            )))),
            stub(StubSegment(Ok(Some(RenderedSegment::new("b"))))),
        ],
        Separator::powerline(),
    );
    let runs = render_to_runs(&items, &empty_ctx(), 100, &mut LayoutObservers::new());
    assert_eq!(runs.len(), 3);
    assert_eq!(runs[1].text, " \u{E0B0} ");
    assert_eq!(runs[1].style.role, Some(Role::Muted));
}

#[test]
fn powerline_separator_emits_padded_chevron_with_correct_width() {
    assert_eq!(Separator::powerline().width(), 3);
    assert_eq!(Separator::powerline().text(), " \u{E0B0} ");
}

#[test]
fn powerline_chevrons_are_charged_to_total_width_in_layout() {
    let items = pl_spec(&[("aaaa", 0), ("bbbb", 0), ("cccc", 0)]);
    let chev = u32::from(Separator::powerline().width());
    assert_eq!(total_width(&items), 4 + chev + 4 + chev + 4);
}

#[test]
fn render_with_warn_emits_powerline_chevron_wrapped_in_muted_sgr() {
    struct RoledSeg(&'static str, Role);
    impl Stub for RoledSeg {
        fn render(&self, _: &DataContext, _: &RenderContext) -> RenderResult {
            Ok(Some(RenderedSegment::new(self.0).with_role(self.1)))
        }
        fn defaults(&self) -> SegmentDefaults {
            SegmentDefaults::with_priority(10)
        }
    }
    let items = line_items_with(
        vec![
            stub(RoledSeg("a", Role::Primary)),
            stub(RoledSeg("b", Role::Info)),
        ],
        Separator::powerline(),
    );
    let line = render_with_warn(
        &items,
        &empty_ctx(),
        100,
        &mut |_| {},
        default_theme(),
        Capability::Palette16,
        false,
    );
    let muted_sgr = sgr_open(
        &Style::role(Role::Muted),
        default_theme(),
        Capability::Palette16,
    );
    let expected = format!("{muted_sgr} \u{E0B0} \x1b[0m");
    assert!(
        line.contains(&expected),
        "padded chevron with Muted SGR not in line: {line:?} (expected substring: {expected:?})"
    );
}

#[test]
fn render_to_runs_emits_literal_separator_with_default_style() {
    let items = line_items_with(
        vec![
            stub(StubSegment(Ok(Some(
                RenderedSegment::new("a").with_role(Role::Warning),
            )))),
            stub(StubSegment(Ok(Some(RenderedSegment::new("b"))))),
        ],
        Separator::Literal(Cow::Borrowed(" | ")),
    );
    let runs = render_to_runs(&items, &empty_ctx(), 100, &mut LayoutObservers::new());
    assert_eq!(runs.len(), 3);
    assert_eq!(runs[1].text, " | ");
    assert_eq!(runs[1].style, Style::default());
}

#[test]
fn runs_to_ansi_emits_osc8_around_styled_run_when_hyperlinks_supported() {
    let runs = vec![styled(
        "branch",
        linked(Style::role(Role::Primary), "https://example.com/b"),
    )];
    let out = runs_to_ansi(
        &runs,
        default_theme(),
        Capability::Palette16,
        true,
    );
    assert_eq!(
        out, "\x1b]8;;https://example.com/b\x1b\\\x1b[95mbranch\x1b[0m\x1b]8;;\x1b\\",
        "got {out:?}"
    );
}

#[test]
fn runs_to_ansi_drops_hyperlink_when_not_supported() {
    let runs = vec![styled(
        "branch",
        linked(Style::role(Role::Primary), "https://example.com/b"),
    )];
    let out = runs_to_ansi(
        &runs,
        default_theme(),
        Capability::Palette16,
        false,
    );
    assert_eq!(out, "\x1b[95mbranch\x1b[0m");
    assert!(!out.contains("\x1b]8"), "no OSC 8: {out:?}");
}

#[test]
fn runs_to_ansi_emits_no_osc8_when_style_has_no_hyperlink() {
    let runs = vec![styled("plain", Style::default())];
    let out = runs_to_ansi(&runs, default_theme(), Capability::Plain, true);
    assert_eq!(out, "plain");
    assert!(!out.contains("\x1b]8"), "no OSC 8: {out:?}");
}

#[test]
fn runs_to_ansi_emits_osc8_around_unstyled_run() {
    let runs = vec![styled(
        "click",
        linked(Style::default(), "https://example.com"),
    )];
    let out = runs_to_ansi(&runs, default_theme(), Capability::Plain, true);
    assert_eq!(out, "\x1b]8;;https://example.com\x1b\\click\x1b]8;;\x1b\\");
}

#[test]
fn osc8_pair_balanced_when_hyperlinked_run_is_truncated() {
    let mut rendered = RenderedSegment::new("very-long-branch-name")
        .with_style(linked(Style::default(), "https://example.com/branch"));
    rendered = truncate_to(rendered, 8);
    let runs = vec![styled(
        rendered.text().to_string(),
        rendered.style().clone(),
    )];
    let out = runs_to_ansi(&runs, default_theme(), Capability::Plain, true);
    assert!(
        out.starts_with("\x1b]8;;https://example.com/branch\x1b\\"),
        "OSC 8 open present: {out:?}"
    );
    assert!(
        out.ends_with("\x1b]8;;\x1b\\"),
        "OSC 8 close present: {out:?}"
    );
    assert!(out.contains('…'), "truncation marker preserved: {out:?}");
    assert_eq!(
        out.matches("\x1b]8;;").count(),
        2,
        "exactly one open and one close: {out:?}"
    );
}

#[test]
fn osc8_pair_balanced_when_hyperlinked_run_truncated_to_zero() {
    let rendered = RenderedSegment::new("anything")
        .with_style(linked(Style::default(), "https://example.com"));
    let truncated = truncate_to(rendered, 0);
    let runs = vec![styled(
        truncated.text().to_string(),
        truncated.style().clone(),
    )];
    let out = runs_to_ansi(&runs, default_theme(), Capability::Plain, true);
    assert_eq!(
        out, "\x1b]8;;https://example.com\x1b\\\x1b]8;;\x1b\\",
        "empty-text run still emits balanced OSC 8 pair: {out:?}"
    );
}

#[test]
fn runs_to_ansi_emits_independent_osc8_pairs_for_adjacent_hyperlinked_runs() {
    let runs = vec![
        styled("a", linked(Style::default(), "https://a.example")),
        styled("b", linked(Style::default(), "https://b.example")),
    ];
    let out = runs_to_ansi(&runs, default_theme(), Capability::Plain, true);
    assert_eq!(
        out,
        "\x1b]8;;https://a.example\x1b\\a\x1b]8;;\x1b\\\x1b]8;;https://b.example\x1b\\b\x1b]8;;\x1b\\"
    );
    assert_eq!(out.matches("\x1b]8;;").count(), 4, "two opens + two closes");
}

#[test]
fn push_osc8_open_strips_control_chars_from_url() {
    let runs = vec![styled(
        "x",
        linked(Style::default(), "https://example.com\x1b\\evil\x07more"),
    )];
    let out = runs_to_ansi(&runs, default_theme(), Capability::Plain, true);
    assert_eq!(
        out.matches("\x1b]8;;").count(),
        2,
        "exactly one pair: {out:?}"
    );
    assert!(!out.contains("\x1b\\evil"), "ESC \\ stripped: {out:?}");
    assert!(!out.contains('\x07'), "BEL stripped: {out:?}");
    assert!(
        out.contains("https://example.com\\evilmore"),
        "non-control chars survive: {out:?}"
    );
}

#[test]
fn push_osc8_open_strips_c1_string_terminator_and_nul() {
    let runs = vec![styled(
        "x",
        linked(Style::default(), "https://a.example\x00b\x7fc\u{009C}d"),
    )];
    let out = runs_to_ansi(&runs, default_theme(), Capability::Plain, true);
    assert_eq!(out.matches("\x1b]8;;").count(), 2, "single pair: {out:?}");
    assert!(!out.contains('\x00'), "NUL stripped: {out:?}");
    assert!(!out.contains('\x7f'), "DEL stripped: {out:?}");
    assert!(!out.contains('\u{009C}'), "C1 ST stripped: {out:?}");
    assert!(out.contains("https://a.examplebcd"));
}

#[test]
fn runs_to_ansi_capability_none_emits_unwrapped_text() {
    let runs = vec![
        styled("plain", Style::default()),
        styled(" ", Style::default()),
        styled("warn", Style::role(Role::Warning)),
    ];
    let out = runs_to_ansi(
        &runs,
        default_theme(),
        Capability::Plain,
        false,
    );
    assert_eq!(out, "plain warn");
    assert!(!out.contains('\x1b'), "unexpected ANSI escape: {out:?}");
}

struct DroppableStub(&'static str);
impl Stub for DroppableStub {
    fn render(&self, _: &DataContext, _: &RenderContext) -> RenderResult {
        Ok(Some(RenderedSegment::new(self.0)))
    }
    fn defaults(&self) -> SegmentDefaults {
        SegmentDefaults::with_priority(200)
    }
}

#[test]
fn try_reflow_preserves_segment_id_reference() {
    let alt_id: &'static Cow<'static, str> = Box::leak(Box::new(Cow::Borrowed("alt")));
    let entry = SegmentEntry {
        id: alt_id,
        rendered: RenderedSegment::new("workspace-with-extra-content"),
        defaults: SegmentDefaults::with_priority(100).with_truncatable(true),
        segment: noop_segment(),
        paint: None,
    };
    let original_id_ptr = std::ptr::from_ref(entry.id);
    let cut = try_reflow(&entry, 10).expect("reflow must succeed at target 18 / floor 2");
    assert_eq!(cut.width(), 18);
    let fitted = apply_layout(
        vec![LayoutItem::Segment(entry)],
        &empty_ctx(),
        &empty_rc(),
        18,
        &mut LayoutObservers::new(),
    );
    let reflowed = match &fitted[0] {
        LayoutItem::Segment(seg) => seg,
        LayoutItem::Separator(_) => panic!("expected segment, got separator"),
    };
    assert_eq!(reflowed.rendered, cut);
    assert!(
        std::ptr::eq(std::ptr::from_ref(reflowed.id), original_id_ptr),
        "try_reflow must preserve the id reference, not clone it",
    );
    assert_eq!(reflowed.id.as_ref(), "alt");
}

// --- reports ---

fn laid_out(items: Vec<LayoutItem<'_>>, terminal_width: u16) -> (String, LayoutObservers) {
    let mut observers = LayoutObservers::new();
    let fitted = apply_layout(items, &empty_ctx(), &empty_rc(), terminal_width, &mut observers);
    let text = items_to_runs(&fitted).iter().map(|r| r.text()).collect();
    (text, observers)
}

#[test]
fn drops_are_reported_with_their_numbers() {
    let (text, observers) = laid_out(spaced(&[("aaaa", 10), ("bbbb", 200), ("cccc", 50)]), 10);
    assert_eq!(text, "aaaa cccc");
    assert_eq!(
        observers.decisions,
        vec![LayoutDecision::priority_drop(Cow::Borrowed("test"), 200, 10, 4, 4)]
    );
    assert!(observers.warnings.lines.is_empty());
    assert!(observers.notices.lines.is_empty());
}

#[test]
fn cuts_are_reported_with_their_numbers() {
    let items = vec![truncatable_item("workspace-name", 200), space(), item("KEEP", 0)];
    let (text, observers) = laid_out(items, 12);
    assert_eq!(text, "worksp… KEEP");
    assert_eq!(
        observers.decisions,
        vec![LayoutDecision::reflow_applied(Cow::Borrowed("test"), 14, 7, 7)]
    );
}

#[test]
fn compact_forms_are_reported_with_their_numbers() {
    let line = line_items_spaced(vec![
        stub(ShrinkableSegment {
            full: "longbranch * ↑2 ↓1",
            compact: "longbranch",
        }),
        stub(AnchorSegment("KEEP")),
    ]);
    let mut observers = LayoutObservers::new();
    let runs = render_to_runs(&line, &empty_ctx(), 17, &mut observers);
    assert_eq!(runs.len(), 3);
    assert_eq!(
        observers.decisions,
        vec![LayoutDecision::shrink_applied(Cow::Borrowed("seg0"), 18, 10, 12)]
    );
}

#[test]
fn too_wide_compact_forms_are_noticed() {
    struct Misbehaving;
    impl Stub for Misbehaving {
        fn render(&self, _: &DataContext, _: &RenderContext) -> RenderResult {
            Ok(Some(RenderedSegment::new("longbranch")))
        }
        fn shrink_to_fit(
            &self,
            _: &DataContext,
            _: &RenderContext,
            _target: u16,
        ) -> Option<RenderedSegment> {
            Some(RenderedSegment::new("stilltoolongtruly"))
        }
    }
    let line = line_items_spaced(vec![stub(Misbehaving), stub(AnchorSegment("X"))]);
    let mut observers = LayoutObservers::new();
    let runs = render_to_runs(&line, &empty_ctx(), 5, &mut observers);
    assert_eq!(runs.len(), 1);
    assert_eq!(
        observers.notices.lines,
        vec!["segment shrink_to_fit returned width 17 > target 3; rejecting"]
    );
    assert_eq!(
        observers.decisions,
        vec![LayoutDecision::priority_drop(Cow::Borrowed("seg0"), 128, 5, 7, 10)]
    );
}

#[test]
fn width_bounds_are_reported_when_they_bite() {
    struct Bounded(u16, u16);
    impl Stub for Bounded {
        fn render(&self, _: &DataContext, _: &RenderContext) -> RenderResult {
            Ok(Some(RenderedSegment::new("abcdef")))
        }
        fn defaults(&self) -> SegmentDefaults {
            SegmentDefaults::with_priority(10)
                .with_width(WidthBounds::new(self.0, self.1).expect("valid"))
        }
    }
    let line = line_items_spaced(vec![
        stub(Bounded(8, 20)),
        stub(Bounded(0, 4)),
        stub(Bounded(1, 6)),
    ]);
    let mut observers = LayoutObservers::new();
    let text = layout::render(&line, &empty_ctx(), 80, &mut observers);
    assert_eq!(text, "abc… abcdef");
    assert_eq!(
        observers.decisions,
        vec![
            LayoutDecision::width_bound_under_min_drop(Cow::Borrowed("seg0"), 6, 8),
            LayoutDecision::width_bound_over_max_truncate(Cow::Borrowed("seg1"), 6, 4),
        ]
    );
}

#[test]
fn every_line_fits_or_is_pinned() {
    for budget in 0..40u16 {
        let items = vec![
            truncatable_item("a-long-name", 200),
            space(),
            item("middle", 50),
            pl(),
            item("PIN", 0),
            lit(" | "),
            truncatable_item("tail", 120),
        ];
        let (text, observers) = laid_out(items, budget);
        assert!(text.contains("PIN"), "{budget}: {text:?}");
        assert!(
            text == "PIN" || text_width(&text) <= budget,
            "{budget}: {text:?}"
        );
        assert!(!text.starts_with(' ') && !text.ends_with(' '));
        for decision in &observers.decisions {
            match decision {
                LayoutDecision::PriorityDrop { priority, .. } => assert!(*priority > 0),
                LayoutDecision::ReflowApplied { from, to, target, .. } => {
                    assert!(to <= target && target < from);
                }
                other => panic!("unexpected {other:?}"),
            }
        }
    }
}

/// A segment in a role of its own, with a compact form in the same role.
struct Colored {
    text: &'static str,
    role: Role,
    pinned: bool,
}

impl Stub for Colored {
    fn render(&self, _: &DataContext, _: &RenderContext) -> RenderResult {
        if self.text.is_empty() {
            return Ok(None);
        }
        Ok(Some(RenderedSegment::new(self.text).with_role(self.role)))
    }

    fn shrink_to_fit(
        &self,
        _: &DataContext,
        _: &RenderContext,
        _target: u16,
    ) -> Option<RenderedSegment> {
        Some(RenderedSegment::new(&self.text[..1]).with_role(self.role))
    }

    fn user_color_pinned(&self) -> bool {
        self.pinned
    }

    fn hiding_reason(&self) -> Option<&'static str> {
        Some("colored: no text; hiding")
    }
}

fn colored(text: &'static str, role: Role, fuses_left: bool, pinned: bool) -> LineItem {
    LineItem::Segment {
        id: Cow::Borrowed(text),
        segment: stub(Colored { text, role, pinned }),
        fuses_left,
    }
}

fn roles(line: &[LineItem], terminal_width: u16) -> Vec<(String, Option<Role>)> {
    render_to_runs(line, &empty_ctx(), terminal_width, &mut LayoutObservers::new())
        .into_iter()
        .map(|r| (r.text().to_string(), r.style().role))
        .collect()
}

fn pairs(expected: &[(&str, Option<Role>)]) -> Vec<(String, Option<Role>)> {
    expected.iter().map(|(t, r)| (t.to_string(), *r)).collect()
}

#[test]
fn groups_show_in_the_color_of_their_lead() {
    let line = vec![
        colored("lead", Role::Primary, false, false),
        LineItem::Separator(Separator::powerline()),
        colored("second", Role::Info, true, false),
        colored("third", Role::Error, true, false),
        colored("other", Role::Warning, false, false),
    ];
    assert_eq!(
        roles(&line, 100),
        pairs(&[
            ("lead", Some(Role::Primary)),
            (" \u{E0B0} ", Some(Role::Muted)),
            ("second", Some(Role::Primary)),
            ("third", Some(Role::Primary)),
            ("other", Some(Role::Warning)),
        ])
    );
}

#[test]
fn colors_that_the_user_fixed_stay_in_a_group() {
    let line = vec![
        colored("lead", Role::Primary, false, false),
        colored("fixed", Role::Info, true, true),
        colored("third", Role::Error, true, false),
    ];
    assert_eq!(
        roles(&line, 100),
        pairs(&[
            ("lead", Some(Role::Primary)),
            ("fixed", Some(Role::Info)),
            ("third", Some(Role::Primary)),
        ])
    );
}

#[test]
fn first_member_that_shows_leads_its_group() {
    let line = vec![
        colored("other", Role::Warning, false, false),
        colored("", Role::Primary, false, false),
        colored("second", Role::Info, true, false),
        colored("third", Role::Error, true, false),
    ];
    assert_eq!(
        roles(&line, 100),
        pairs(&[
            ("other", Some(Role::Warning)),
            ("second", Some(Role::Info)),
            ("third", Some(Role::Info)),
        ])
    );
}

#[test]
fn compact_forms_stay_in_the_color_of_their_group() {
    let line = vec![
        colored("lead", Role::Primary, false, false),
        colored("second", Role::Info, true, false),
    ];
    assert_eq!(
        roles(&line, 6),
        pairs(&[("lead", Some(Role::Primary)), ("s", Some(Role::Primary))])
    );
}

#[test]
fn spans_of_a_member_take_the_color_of_its_group() {
    struct Spanned;
    impl Stub for Spanned {
        fn render(&self, _: &DataContext, _: &RenderContext) -> RenderResult {
            Ok(Some(RenderedSegment::from_spans(vec![
                styled("AB", Style::role(Role::Success)),
                styled("CD", Style::role(Role::Muted)),
            ])))
        }
    }
    let line = vec![
        colored("lead", Role::Primary, false, false),
        LineItem::Segment {
            id: Cow::Borrowed("spanned"),
            segment: stub(Spanned),
            fuses_left: true,
        },
    ];
    assert_eq!(
        roles(&line, 100),
        pairs(&[
            ("lead", Some(Role::Primary)),
            ("AB", Some(Role::Primary)),
            ("CD", Some(Role::Primary)),
        ])
    );
}

#[test]
fn hidden_segments_say_why() {
    let line = vec![
        colored("", Role::Primary, false, false),
        colored("shown", Role::Info, false, false),
        LineItem::seg(
            Cow::Borrowed("context_window"),
            SegmentBox {
                segment: Box::new(ContextWindowSegment),
            },
        ),
        LineItem::seg(
            Cow::Borrowed("context_bar"),
            SegmentBox {
                segment: Box::new(ContextBarSegment::default()),
            },
        ),
    ];
    let mut observers = LayoutObservers::new();
    let text = layout::render(&line, &empty_ctx(), 80, &mut observers);
    assert_eq!(text, "shown");
    assert_eq!(
        observers.traces.lines,
        vec![
            "colored: no text; hiding",
            "context_window: status.context_window absent; hiding",
            "context_bar: status.context_window absent; hiding",
        ]
    );
}

#[test]
fn plain_separators_are_as_wide_as_their_text() {
    for sep in [
        Separator::Space,
        Separator::Theme,
        Separator::Empty,
        Separator::Literal(Cow::Borrowed(" | ")),
        Separator::Literal(Cow::Borrowed(" 日 ")),
    ] {
        assert_eq!(sep.width(), text_width(sep.text()), "{sep:?}");
    }
}

#[test]
fn bare_text_is_that_of_the_runs() {
    for width in [0u16, 3, 5, 9, 100] {
        let line = round_trip_line();
        let mut first = LayoutObservers::new();
        let mut second = LayoutObservers::new();
        let text = layout::render(&line, &empty_ctx(), width, &mut first);
        let runs = render_to_runs(&line, &empty_ctx(), width, &mut second);
        let joined: String = runs.iter().map(|r| r.text()).collect();
        assert_eq!(text, joined);
        assert_eq!(first, second);
    }
}

#[test]
fn every_failure_is_warned_of_once() {
    let line = line_items_spaced(vec![
        stub(StubSegment(Err(SegmentError::new("one")))),
        stub(StubSegment(Ok(Some(RenderedSegment::new("a"))))),
        stub(StubSegment(Err(SegmentError::new("two")))),
    ]);
    let mut observers = LayoutObservers::new();
    assert_eq!(layout::render(&line, &empty_ctx(), 0, &mut observers), "");
    assert_eq!(
        observers.warnings.lines,
        vec!["segment error: one", "segment error: two"]
    );
}

#[test]
fn emitted_runs_use_the_given_openings() {
    let runs = vec![styled("a", Style::default()), styled("b", Style::default())];
    let opens = vec!["<".to_string(), String::new()];
    assert_eq!(emit_runs(&runs, &opens, false), "<a\x1b[0mb");
}

#[test]
fn spans_fan_out_into_runs() {
    struct Spanned;
    impl Stub for Spanned {
        fn render(&self, _: &DataContext, _: &RenderContext) -> RenderResult {
            Ok(Some(RenderedSegment::from_spans(vec![
                styled("AB", Style::role(Role::Success)),
                styled("CD", Style::role(Role::Muted)),
            ])))
        }
    }
    let line = line_items_spaced(vec![stub(Spanned)]);
    let runs = render_to_runs(&line, &empty_ctx(), 80, &mut LayoutObservers::new());
    let pairs: Vec<(&str, Option<Role>)> =
        runs.iter().map(|r| (r.text(), r.style().role)).collect();
    assert_eq!(
        pairs,
        vec![("AB", Some(Role::Success)), ("CD", Some(Role::Muted))]
    );
}
