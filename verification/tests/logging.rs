use std::cell::Cell;
use std::fmt;

use linesmith_core::diagnostics::Messages;
use linesmith_core::logging::{
    apply, decide_init, emit, emit_error, from_u8, install_sink, is_enabled, level, set_level,
    CaptureGuard, CapturedSink, InitDecision, Level, LogSink, Logger, SinkGuard, StderrSink,
    DEFAULT_LEVEL, ENV_VAR,
};

fn logger() -> Logger<CapturedSink> {
    Logger::new(CapturedSink::default())
}

/// Run `f` on a logger behind a fresh capture, and give what was captured.
fn capture_warns<R>(
    log: &mut Logger<CapturedSink>,
    f: impl FnOnce(&mut Logger<CapturedSink>) -> R,
) -> (R, Vec<String>) {
    let guard = CaptureGuard::install(log);
    let result = f(log);
    (result, guard.restore(log))
}

fn lsm_debug(log: &mut Logger<CapturedSink>, message: impl Fn() -> String) {
    if is_enabled(log, Level::Debug) {
        emit(log, Level::Debug, &message());
    }
}

#[test]
fn default_level_is_warn() {
    let mut log = logger();
    set_level(&mut log, DEFAULT_LEVEL);
    assert_eq!(level(&log), Level::Warn);
    assert!(is_enabled(&log, Level::Warn));
    assert!(!is_enabled(&log, Level::Debug));
}

#[test]
fn debug_enables_every_lower_level() {
    let mut log = logger();
    set_level(&mut log, Level::Debug);
    assert!(is_enabled(&log, Level::Warn));
    assert!(is_enabled(&log, Level::Debug));
}

#[test]
fn off_suppresses_every_level() {
    let mut log = logger();
    set_level(&mut log, Level::Off);
    assert!(!is_enabled(&log, Level::Warn));
    assert!(!is_enabled(&log, Level::Debug));
}

#[test]
fn parse_accepts_common_aliases() {
    assert_eq!(Level::parse("warn"), Some(Level::Warn));
    assert_eq!(Level::parse("WARN"), Some(Level::Warn));
    assert_eq!(Level::parse(" warn "), Some(Level::Warn));
    assert_eq!(Level::parse("warning"), Some(Level::Warn));
    assert_eq!(Level::parse("debug"), Some(Level::Debug));
    assert_eq!(Level::parse("trace"), Some(Level::Debug));
    assert_eq!(Level::parse("all"), Some(Level::Debug));
    assert_eq!(Level::parse("off"), Some(Level::Off));
    assert_eq!(Level::parse("none"), Some(Level::Off));
    assert_eq!(Level::parse("0"), Some(Level::Off));
}

#[test]
fn parse_rejects_error_and_info_aliases() {
    assert_eq!(Level::parse("error"), None);
    assert_eq!(Level::parse("info"), None);
}

#[test]
fn parse_rejects_garbage() {
    assert_eq!(Level::parse("verbose"), None);
    assert_eq!(Level::parse(""), None);
    assert_eq!(Level::parse("debug2"), None);
}

#[test]
fn decide_init_keeps_default_when_env_unset() {
    assert_eq!(decide_init(None), InitDecision::Keep);
}

#[test]
fn decide_init_parses_recognized_levels() {
    assert_eq!(decide_init(Some("debug")), InitDecision::Adopt(Level::Debug));
    assert_eq!(decide_init(Some("warn")), InitDecision::Adopt(Level::Warn));
    assert_eq!(decide_init(Some("off")), InitDecision::Adopt(Level::Off));
}

#[test]
fn decide_init_warns_on_garbage() {
    assert_eq!(decide_init(Some("loud")), InitDecision::Warn("loud"));
    assert_eq!(decide_init(Some("")), InitDecision::Warn(""));
}

#[test]
fn apply_writes_warning_to_injected_sink_and_resets_to_default() {
    let mut log = logger();
    set_level(&mut log, Level::Off);
    let mut sink = Messages::new();
    apply(&mut log, Some("loud"), &mut sink);
    let written = sink.lines.join("\n");
    assert!(
        written.contains("LINESMITH_LOG=\"loud\""),
        "expected the unrecognized value echoed, got {written:?}"
    );
    assert!(written.contains("unrecognized"));
    assert_eq!(level(&log), DEFAULT_LEVEL);
}

#[test]
fn apply_keeps_level_when_env_unset() {
    let mut log = logger();
    set_level(&mut log, Level::Debug);
    let mut sink = Messages::new();
    apply(&mut log, None, &mut sink);
    assert!(sink.lines.is_empty(), "no-env must not write: {sink:?}");
    assert_eq!(level(&log), Level::Debug);
}

#[test]
fn apply_sets_recognized_level_without_writing() {
    let mut log = logger();
    set_level(&mut log, Level::Off);
    let mut sink = Messages::new();
    apply(&mut log, Some("debug"), &mut sink);
    assert!(sink.lines.is_empty());
    assert_eq!(level(&log), Level::Debug);
}

#[test]
fn lsm_debug_skips_format_when_suppressed() {
    struct CountingDisplay<'a>(&'a Cell<u32>);
    impl fmt::Display for CountingDisplay<'_> {
        fn fmt(&self, f: &mut fmt::Formatter<'_>) -> fmt::Result {
            self.0.set(self.0.get() + 1);
            f.write_str("x")
        }
    }

    let mut log = logger();
    let counter = Cell::new(0u32);

    set_level(&mut log, Level::Warn);
    lsm_debug(&mut log, || format!("{}", CountingDisplay(&counter)));
    assert_eq!(counter.get(), 0, "format! must not run when suppressed");

    set_level(&mut log, Level::Debug);
    lsm_debug(&mut log, || format!("{}", CountingDisplay(&counter)));
    assert_eq!(counter.get(), 1, "format! must run when enabled");
}

#[test]
fn from_u8_roundtrips_known_bytes() {
    assert_eq!(from_u8(0), Level::Off);
    assert_eq!(from_u8(1), Level::Warn);
    assert_eq!(from_u8(2), Level::Debug);
    for l in [Level::Off, Level::Warn, Level::Debug] {
        assert_eq!(from_u8(l.to_u8()), l);
    }
}

#[test]
fn from_u8_saturates_out_of_range_to_debug_in_release() {
    assert_eq!(from_u8(3), Level::Debug);
    assert_eq!(from_u8(99), Level::Debug);
    assert_eq!(from_u8(u8::MAX), Level::Debug);
}

#[test]
fn captured_sink_records_warn_emit_with_compact_format() {
    let mut log = logger();
    set_level(&mut log, Level::Warn);
    let _restore = SinkGuard::install(&mut log, CapturedSink::default());
    emit(&mut log, Level::Warn, "hello");
    assert_eq!(log.sink().snapshot(), vec!["[warn] hello".to_string()]);
}

#[test]
fn captured_sink_records_error_bypassing_off_level() {
    let mut log = logger();
    set_level(&mut log, Level::Off);
    let _restore = SinkGuard::install(&mut log, CapturedSink::default());
    emit_error(&mut log, "render panic");
    assert_eq!(
        log.sink().snapshot(),
        vec!["[error] render panic".to_string()]
    );
}

#[test]
fn captured_sink_skips_debug_emit_when_level_warn() {
    let mut log = logger();
    set_level(&mut log, Level::Warn);
    let _restore = SinkGuard::install(&mut log, CapturedSink::default());
    emit(&mut log, Level::Debug, "verbose");
    assert!(log.sink().snapshot().is_empty());
}

#[test]
fn emit_error_fires_at_every_level() {
    for l in [Level::Off, Level::Warn, Level::Debug] {
        let mut log = logger();
        set_level(&mut log, l);
        let _restore = SinkGuard::install(&mut log, CapturedSink::default());
        emit_error(&mut log, "structural failure");
        assert_eq!(
            log.sink().snapshot(),
            vec!["[error] structural failure".to_string()],
            "emit_error must fire at level {l:?}",
        );
    }
}

#[test]
fn captured_sink_drain_returns_entries_and_empties_buffer() {
    let mut log = logger();
    set_level(&mut log, Level::Warn);
    let restore = SinkGuard::install(&mut log, CapturedSink::default());
    emit(&mut log, Level::Warn, "first");
    emit(&mut log, Level::Warn, "second");
    let mut captured = restore.restore(&mut log);
    assert_eq!(
        captured.drain(),
        vec!["[warn] first".to_string(), "[warn] second".to_string()]
    );
    assert!(captured.drain().is_empty());
}

#[test]
fn sink_guard_restores_prior_sink_on_drop_lifo_three_deep() {
    let mut log = logger();
    set_level(&mut log, Level::Warn);
    let outer_g = SinkGuard::install(&mut log, CapturedSink::default());
    let middle_g = SinkGuard::install(&mut log, CapturedSink::default());
    let inner_g = SinkGuard::install(&mut log, CapturedSink::default());
    emit(&mut log, Level::Warn, "inner");
    let inner = inner_g.restore(&mut log);
    assert_eq!(inner.snapshot(), vec!["[warn] inner".to_string()]);
    assert!(log.sink().snapshot().is_empty(), "middle heard nothing yet");

    emit(&mut log, Level::Warn, "middle");
    let middle = middle_g.restore(&mut log);
    assert_eq!(middle.snapshot(), vec!["[warn] middle".to_string()]);
    assert!(log.sink().snapshot().is_empty(), "outer heard nothing yet");

    emit(&mut log, Level::Warn, "outer");
    assert_eq!(log.sink().snapshot(), vec!["[warn] outer".to_string()]);
    let outer = outer_g.restore(&mut log);
    assert_eq!(outer.snapshot(), vec!["[warn] outer".to_string()]);
    assert!(log.sink().snapshot().is_empty());
}

#[test]
fn install_sink_returns_prior_for_manual_restore() {
    let mut log = logger();
    set_level(&mut log, Level::Warn);
    let prior = install_sink(&mut log, CapturedSink::default());
    emit(&mut log, Level::Warn, "captured");
    let captured = install_sink(&mut log, prior);
    assert_eq!(captured.snapshot(), vec!["[warn] captured".to_string()]);
    assert!(log.sink().snapshot().is_empty());
}

#[test]
fn test_capture_warns_returns_function_result_and_captured_emissions() {
    let mut log = logger();
    let (result, captured) = capture_warns(&mut log, |log| {
        emit(log, Level::Warn, "first");
        emit(log, Level::Warn, "second");
        42
    });
    assert_eq!(result, 42);
    assert_eq!(
        captured,
        vec!["[warn] first".to_string(), "[warn] second".to_string()]
    );
    assert!(log.sink().snapshot().is_empty());
}

#[test]
fn test_capture_warns_captures_emit_error_regardless_of_level() {
    let mut log = logger();
    let (_, captured) = capture_warns(&mut log, |log| {
        emit_error(log, "structural failure");
    });
    assert_eq!(captured, vec!["[error] structural failure".to_string()]);
}

#[test]
fn emit_routes_to_thread_local_sink_even_when_global_level_is_off() {
    let mut log = logger();
    set_level(&mut log, Level::Off);
    let guard = CaptureGuard::install(&mut log);
    emit(&mut log, Level::Warn, "still captured");
    assert_eq!(
        guard.restore(&mut log),
        vec!["[warn] still captured".to_string()]
    );
}

#[test]
fn test_capture_warns_subsequent_call_starts_empty() {
    let mut log = logger();
    let _ = capture_warns(&mut log, |log| emit(log, Level::Warn, "first"));
    let (_, second) = capture_warns(&mut log, |_| {});
    assert!(
        second.is_empty(),
        "second call must start with no captured entries, got {second:?}"
    );
}

#[test]
fn concrete_sink_types_remain_thread_safe() {
    fn assert_send_sync<T: Send + Sync>() {}
    assert_send_sync::<StderrSink>();
    assert_send_sync::<CapturedSink>();
}

#[test]
fn stderr_sink_prefixes_each_line() {
    let mut log = Logger::new(StderrSink::default());
    set_level(&mut log, Level::Debug);
    emit(&mut log, Level::Warn, "a");
    emit(&mut log, Level::Debug, "b");
    emit_error(&mut log, "c");
    emit(&mut log, Level::Off, "d");
    assert_eq!(
        log.sink().lines.lines,
        vec![
            "linesmith [warn]: a",
            "linesmith [debug]: b",
            "linesmith [error]: c"
        ]
    );
}

#[test]
fn captures_nest() {
    let mut log = logger();
    let outer = CaptureGuard::install(&mut log);
    emit(&mut log, Level::Warn, "one");
    let inner = CaptureGuard::install(&mut log);
    emit(&mut log, Level::Warn, "two");
    assert_eq!(inner.restore(&mut log), vec!["[warn] two"]);
    emit(&mut log, Level::Warn, "three");
    assert_eq!(outer.restore(&mut log), vec!["[warn] one", "[warn] three"]);
}

#[test]
fn sinks_write_nothing_at_off() {
    let mut sink = CapturedSink::default();
    sink.emit(Level::Off, "nothing");
    assert!(sink.snapshot().is_empty());
}

#[test]
fn unrecognized_levels_are_reported_in_full() {
    let mut log = logger();
    let mut sink = Messages::new();
    apply(&mut log, Some("lo\nud"), &mut sink);
    assert_eq!(
        sink.lines,
        vec!["linesmith: LINESMITH_LOG=\"lo\\nud\" unrecognized; using default (Warn)"]
    );
    assert_eq!(ENV_VAR, "LINESMITH_LOG");
}
