use std::collections::BTreeMap;

use linesmith_core::data_context::{
    DataContext, DataDep, GitContext, Head, ModelInfo, RepoKind, StatusContext, UpstreamState,
    WorkspaceInfo,
};
use linesmith_core::diagnostics::Messages;
use linesmith_core::segments::git_branch::{
    parse_hide_below_cells, truncate_middle, AheadBehindConfig, FormatTemplate, GitBranchSegment,
};
use linesmith_core::segments::{text_width, RenderContext, Segment};
use linesmith_core::theme::Role;
use linesmith_core::value::{Table, Value};

fn value(v: &toml::Value) -> Value {
    match v {
        toml::Value::String(s) => Value::String(s.clone()),
        toml::Value::Integer(i) => Value::Integer(*i),
        toml::Value::Float(f) => Value::Float(f.to_bits()),
        toml::Value::Boolean(b) => Value::Boolean(*b),
        toml::Value::Datetime(d) => Value::Datetime(d.to_string()),
        toml::Value::Array(items) => Value::Array(items.iter().map(value).collect()),
        toml::Value::Table(t) => Value::Table(table(t, &[])),
    }
}

/// `t` without the keys that are read elsewhere.
fn table(t: &toml::Table, known: &[&str]) -> Table<Value> {
    let mut out = Table::new();
    for (key, v) in t {
        if !known.contains(&key.as_str()) {
            out = out.insert(key.clone(), value(v));
        }
    }
    out
}

fn branch_from(
    extras: &BTreeMap<String, toml::Value>,
    warn: &mut dyn FnMut(&str),
) -> GitBranchSegment {
    let keys: toml::Table = extras.clone().into_iter().collect();
    let mut warnings = Messages::new();
    let seg = GitBranchSegment::from_extras(&table(&keys, &[]), &mut warnings);
    for message in &warnings.lines {
        warn(message);
    }
    seg
}

fn minimal_status() -> StatusContext {
    StatusContext {
        model: Some(ModelInfo {
            display_name: "Sonnet".into(),
        }),
        workspace: Some(WorkspaceInfo {
            project_dir: "/repo".into(),
            git_worktree: None,
        }),
        context_window: None,
    }
}

fn repo(repo_kind: RepoKind, head: Head) -> GitContext {
    GitContext {
        repo_kind,
        head,
        dirty: false,
        upstream: None,
    }
}

fn ctx_with_git(git: Result<Option<GitContext>, String>) -> DataContext {
    DataContext {
        status: minimal_status(),
        git,
    }
}

fn ctx_with_upstream(head: Head, upstream: Option<UpstreamState>) -> DataContext {
    ctx_with_git(Ok(Some(GitContext {
        upstream,
        ..repo(RepoKind::Main, head)
    })))
}

fn ctx_with_dirty_and_upstream(ahead: u32, behind: u32) -> DataContext {
    ctx_with_git(Ok(Some(GitContext {
        dirty: true,
        upstream: Some(UpstreamState { ahead, behind }),
        ..repo(RepoKind::Main, Head::Branch("main".into()))
    })))
}

fn rc() -> RenderContext {
    RenderContext::new(80)
}

#[test]
fn hides_when_not_in_repo() {
    assert!(GitBranchSegment::default()
        .render(&ctx_with_git(Ok(None)), &rc())
        .unwrap()
        .is_none());
}

#[test]
fn hides_on_gix_error() {
    let err = "corrupt repository at /x: synthetic".to_string();
    assert!(GitBranchSegment::default()
        .render(&ctx_with_git(Err(err)), &rc())
        .unwrap()
        .is_none());
}

#[test]
fn hides_on_bare_repo() {
    let gc = repo(RepoKind::Bare, Head::Unborn {
            symbolic_ref: "main".into(),
        });
    assert!(GitBranchSegment::default()
        .render(&ctx_with_git(Ok(Some(gc))), &rc())
        .unwrap()
        .is_none());
}

#[test]
fn renders_branch_name() {
    let gc = repo(RepoKind::Main, Head::Branch("main".into()));
    let rendered = GitBranchSegment::default()
        .render(&ctx_with_git(Ok(Some(gc))), &rc())
        .unwrap()
        .expect("rendered");
    assert_eq!(rendered.text(), "main");
    assert_eq!(rendered.style().role, Some(Role::Accent));
}

#[test]
fn renders_detached_as_short_sha_in_parens() {
    let gc = repo(RepoKind::Main, Head::Detached("4b825dc642cb6eb9a060e54bf8d69288fbee4904".into()));
    let rendered = GitBranchSegment::default()
        .render(&ctx_with_git(Ok(Some(gc))), &rc())
        .unwrap()
        .expect("rendered");
    assert!(rendered.text().starts_with('('));
    assert!(rendered.text().ends_with(')'));
    assert_eq!(rendered.text().chars().count(), 9);
}

#[test]
fn renders_other_ref_full_name() {
    let gc = repo(RepoKind::Main, Head::OtherRef {
            full_name: "refs/remotes/origin/feature".into(),
        });
    let rendered = GitBranchSegment::default()
        .render(&ctx_with_git(Ok(Some(gc))), &rc())
        .unwrap()
        .expect("rendered");
    assert_eq!(rendered.text(), "refs/remotes/origin/feature");
}


#[test]
fn renders_ahead_when_local_leads() {
    let rendered = GitBranchSegment::default()
        .render(
            &ctx_with_upstream(
                Head::Branch("main".into()),
                Some(UpstreamState {
                    ahead: 2,
                    behind: 0,
                }),
            ),
            &rc(),
        )
        .unwrap()
        .expect("rendered");
    assert_eq!(rendered.text(), "main ↑2");
}

#[test]
fn renders_behind_when_remote_leads() {
    let rendered = GitBranchSegment::default()
        .render(
            &ctx_with_upstream(
                Head::Branch("main".into()),
                Some(UpstreamState {
                    ahead: 0,
                    behind: 3,
                }),
            ),
            &rc(),
        )
        .unwrap()
        .expect("rendered");
    assert_eq!(rendered.text(), "main ↓3");
}

#[test]
fn renders_both_when_diverged() {
    let rendered = GitBranchSegment::default()
        .render(
            &ctx_with_upstream(
                Head::Branch("main".into()),
                Some(UpstreamState {
                    ahead: 2,
                    behind: 3,
                }),
            ),
            &rc(),
        )
        .unwrap()
        .expect("rendered");
    assert_eq!(rendered.text(), "main ↑2 ↓3");
}

#[test]
fn hides_ahead_behind_when_zero_by_default() {
    let rendered = GitBranchSegment::default()
        .render(
            &ctx_with_upstream(
                Head::Branch("main".into()),
                Some(UpstreamState {
                    ahead: 0,
                    behind: 0,
                }),
            ),
            &rc(),
        )
        .unwrap()
        .expect("rendered");
    assert_eq!(rendered.text(), "main");
}

#[test]
fn shows_zeros_when_configured() {
    let mut seg = GitBranchSegment::default();
    seg.cfg.ahead_behind.hide_when_zero = false;
    let rendered = seg
        .render(
            &ctx_with_upstream(
                Head::Branch("main".into()),
                Some(UpstreamState {
                    ahead: 0,
                    behind: 0,
                }),
            ),
            &rc(),
        )
        .unwrap()
        .expect("rendered");
    assert_eq!(rendered.text(), "main ↑0 ↓0");
}

#[test]
fn hides_ahead_behind_when_no_upstream_by_default() {
    let rendered = GitBranchSegment::default()
        .render(&ctx_with_upstream(Head::Branch("main".into()), None), &rc())
        .unwrap()
        .expect("rendered");
    assert_eq!(rendered.text(), "main");
}

#[test]
fn renders_question_mark_when_no_upstream_opted_in() {
    let mut seg = GitBranchSegment::default();
    seg.cfg.ahead_behind.hide_when_no_upstream = false;
    let rendered = seg
        .render(&ctx_with_upstream(Head::Branch("main".into()), None), &rc())
        .unwrap()
        .expect("rendered");
    assert_eq!(rendered.text(), "main ?");
}

#[test]
fn skips_ahead_behind_on_detached_head() {
    let gc = repo(RepoKind::Main, Head::Detached("4b825dc642cb6eb9a060e54bf8d69288fbee4904".into()));
    let dc = ctx_with_git(Ok(Some(gc)));
    let rendered = GitBranchSegment::default()
        .render(&dc, &rc())
        .unwrap()
        .expect("rendered");
    assert!(
        !rendered.text().contains('↑') && !rendered.text().contains('↓'),
        "expected no ahead/behind on detached HEAD, got {:?}",
        rendered.text()
    );
}

#[test]
fn from_extras_warns_on_ahead_format_missing_placeholder() {
    let mut extras = BTreeMap::new();
    let mut ab = toml::value::Table::new();
    ab.insert(
        "ahead_format".into(),
        toml::Value::String("↑{count}".into()),
    );
    extras.insert("ahead_behind".into(), toml::Value::Table(ab));
    let mut warnings = Vec::<String>::new();
    let seg = branch_from(&extras, &mut |m| warnings.push(m.to_string()));
    assert_eq!(warnings.len(), 1);
    assert!(warnings[0].contains("ahead_format"));
    assert!(warnings[0].contains("{n}"));
    assert_eq!(seg.cfg.ahead_behind.ahead_format.render(2), "↑2");
}

#[test]
fn from_extras_warns_on_behind_format_missing_placeholder() {
    let mut extras = BTreeMap::new();
    let mut ab = toml::value::Table::new();
    ab.insert(
        "behind_format".into(),
        toml::Value::String("↓{count}".into()),
    );
    extras.insert("ahead_behind".into(), toml::Value::Table(ab));
    let mut warnings = Vec::<String>::new();
    let seg = branch_from(&extras, &mut |m| warnings.push(m.to_string()));
    assert_eq!(warnings.len(), 1);
    assert!(warnings[0].contains("behind_format"));
    assert!(warnings[0].contains("{n}"));
    assert_eq!(seg.cfg.ahead_behind.behind_format.render(3), "↓3");
}

#[test]
fn format_template_parse_rejects_missing_placeholder() {
    assert!(FormatTemplate::parse("no placeholder").is_none());
    assert!(FormatTemplate::parse("↑{count}").is_none());
    assert!(FormatTemplate::parse("↑{n}").is_some());
}

#[test]
fn format_template_render_substitutes_placeholder() {
    let tpl = FormatTemplate::parse("↑{n} commits").expect("valid");
    assert_eq!(tpl.render(7), "↑7 commits");
}

#[test]
fn default_templates_contain_placeholder() {
    let default = AheadBehindConfig::default();
    assert_eq!(default.ahead_format.render(2), "↑2");
    assert_eq!(default.behind_format.render(3), "↓3");
}

#[test]
fn skips_ahead_behind_on_unborn_head() {
    let rendered = GitBranchSegment::default()
        .render(
            &ctx_with_upstream(
                Head::Unborn {
                    symbolic_ref: "main".into(),
                },
                None,
            ),
            &rc(),
        )
        .unwrap()
        .expect("rendered");
    assert!(
        !rendered.text().contains('↑')
            && !rendered.text().contains('↓')
            && !rendered.text().contains('?'),
        "expected no ahead/behind marker on Unborn HEAD, got {:?}",
        rendered.text()
    );
}

#[test]
fn skips_ahead_behind_on_other_ref_head() {
    let rendered = GitBranchSegment::default()
        .render(
            &ctx_with_upstream(
                Head::OtherRef {
                    full_name: "refs/remotes/origin/feature".into(),
                },
                None,
            ),
            &rc(),
        )
        .unwrap()
        .expect("rendered");
    assert!(
        !rendered.text().contains('↑')
            && !rendered.text().contains('↓')
            && !rendered.text().contains('?'),
        "expected no ahead/behind marker on OtherRef HEAD, got {:?}",
        rendered.text()
    );
}

#[test]
fn skips_ahead_behind_on_unborn_head_even_with_hide_when_no_upstream_false() {
    let mut seg = GitBranchSegment::default();
    seg.cfg.ahead_behind.hide_when_no_upstream = false;
    let rendered = seg
        .render(
            &ctx_with_upstream(
                Head::Unborn {
                    symbolic_ref: "main".into(),
                },
                None,
            ),
            &rc(),
        )
        .unwrap()
        .expect("rendered");
    assert!(
        !rendered.text().contains('?'),
        "Unborn HEAD should not render '?' even with hide_when_no_upstream=false; got {:?}",
        rendered.text()
    );
}

#[test]
fn renders_ahead_with_custom_format() {
    let mut seg = GitBranchSegment::default();
    seg.cfg.ahead_behind.ahead_format = FormatTemplate::parse(">>{n}").expect("valid");
    let rendered = seg
        .render(
            &ctx_with_upstream(
                Head::Branch("main".into()),
                Some(UpstreamState {
                    ahead: 5,
                    behind: 0,
                }),
            ),
            &rc(),
        )
        .unwrap()
        .expect("rendered");
    assert_eq!(rendered.text(), "main >>5");
}

#[test]
fn from_extras_reads_ahead_behind_knobs() {
    let mut extras = BTreeMap::new();
    let mut ab = toml::value::Table::new();
    ab.insert("enabled".into(), toml::Value::Boolean(true));
    ab.insert("ahead_format".into(), toml::Value::String(">>{n}".into()));
    ab.insert("behind_format".into(), toml::Value::String("<<{n}".into()));
    ab.insert("hide_when_zero".into(), toml::Value::Boolean(false));
    ab.insert("hide_when_no_upstream".into(), toml::Value::Boolean(false));
    extras.insert("ahead_behind".into(), toml::Value::Table(ab));
    let mut warnings = Vec::<String>::new();
    let seg = branch_from(&extras, &mut |m| warnings.push(m.to_string()));
    assert!(warnings.is_empty(), "{warnings:?}");
    assert!(seg.cfg.ahead_behind.enabled);
    assert_eq!(seg.cfg.ahead_behind.ahead_format.render(3), ">>3");
    assert_eq!(seg.cfg.ahead_behind.behind_format.render(5), "<<5");
    assert!(!seg.cfg.ahead_behind.hide_when_zero);
    assert!(!seg.cfg.ahead_behind.hide_when_no_upstream);
}

#[test]
fn renders_submodule_like_main() {
    let gc = repo(RepoKind::Submodule, Head::Branch("main".into()));
    let rendered = GitBranchSegment::default()
        .render(&ctx_with_git(Ok(Some(gc))), &rc())
        .unwrap()
        .expect("rendered");
    assert_eq!(rendered.text(), "main");
}

#[test]
fn from_extras_rejects_max_length_zero() {
    let mut extras = BTreeMap::new();
    extras.insert("max_length".into(), toml::Value::Integer(0));
    let mut warnings = Vec::<String>::new();
    let seg = branch_from(&extras, &mut |m| warnings.push(m.to_string()));
    assert_eq!(warnings.len(), 1);
    assert!(warnings[0].contains("max_length"));
    assert_eq!(seg.cfg.max_length, 40);
}

#[test]
fn from_extras_rejects_max_length_wrong_type() {
    let mut extras = BTreeMap::new();
    extras.insert("max_length".into(), toml::Value::String("wide".into()));
    let mut warnings = Vec::<String>::new();
    let seg = branch_from(&extras, &mut |m| warnings.push(m.to_string()));
    assert_eq!(warnings.len(), 1);
    assert!(warnings[0].contains("max_length"));
    assert_eq!(seg.cfg.max_length, 40);
}

#[test]
fn renders_unborn_as_symbolic_ref_name() {
    let gc = repo(RepoKind::Main, Head::Unborn {
            symbolic_ref: "master".into(),
        });
    let rendered = GitBranchSegment::default()
        .render(&ctx_with_git(Ok(Some(gc))), &rc())
        .unwrap()
        .expect("rendered");
    assert_eq!(rendered.text(), "master");
}

#[test]
fn applies_label_when_configured() {
    let mut seg = GitBranchSegment::default();
    seg.cfg.label = "branch:".into();
    let gc = repo(RepoKind::Main, Head::Branch("main".into()));
    let rendered = seg
        .render(&ctx_with_git(Ok(Some(gc))), &rc())
        .unwrap()
        .expect("rendered");
    assert_eq!(rendered.text(), "branch: main");
}

#[test]
fn git_branch_defaults_use_expected_priority() {
    assert_eq!(GitBranchSegment::default().defaults().priority, 48);
}

#[test]
fn declares_git_data_dep() {
    assert_eq!(GitBranchSegment::default().data_deps(), &[DataDep::Git]);
}

#[test]
fn from_extras_reads_label_and_dirty_knobs() {
    let mut extras = BTreeMap::new();
    extras.insert("label".into(), toml::Value::String("br".into()));
    extras.insert("max_length".into(), toml::Value::Integer(10));
    extras.insert("truncation_marker".into(), toml::Value::String("..".into()));
    extras.insert("short_sha_length".into(), toml::Value::Integer(12));

    let mut dirty = toml::value::Table::new();
    dirty.insert("enabled".into(), toml::Value::Boolean(true));
    dirty.insert("format".into(), toml::Value::String("indicator".into()));
    dirty.insert("indicator".into(), toml::Value::String("●".into()));
    dirty.insert("clean_indicator".into(), toml::Value::String("✓".into()));
    extras.insert("dirty".into(), toml::Value::Table(dirty));

    let mut warnings = Vec::<String>::new();
    let seg = branch_from(&extras, &mut |m| warnings.push(m.to_string()));
    assert!(warnings.is_empty(), "unexpected warnings: {warnings:?}");
    assert_eq!(seg.cfg.label, "br");
    assert_eq!(seg.cfg.max_length, 10);
    assert_eq!(seg.cfg.truncation_marker, "..");
    assert_eq!(seg.cfg.short_sha_length, 12);
    assert!(seg.cfg.dirty_enabled);
    assert_eq!(seg.cfg.dirty_indicator, "●");
    assert_eq!(seg.cfg.clean_indicator, "✓");
}

#[test]
fn from_extras_counts_mode_warns_and_falls_back_to_indicator() {
    let mut extras = BTreeMap::new();
    let mut dirty = toml::value::Table::new();
    dirty.insert("format".into(), toml::Value::String("counts".into()));
    extras.insert("dirty".into(), toml::Value::Table(dirty));

    let mut warnings = Vec::<String>::new();
    let seg = branch_from(&extras, &mut |m| warnings.push(m.to_string()));
    assert_eq!(warnings.len(), 1);
    assert!(warnings[0].contains("counts"));
    assert!(seg.cfg.dirty_enabled);
}

#[test]
fn from_extras_hidden_format_turns_dirty_off() {
    let mut extras = BTreeMap::new();
    let mut dirty = toml::value::Table::new();
    dirty.insert("format".into(), toml::Value::String("hidden".into()));
    extras.insert("dirty".into(), toml::Value::Table(dirty));

    let mut warnings = Vec::<String>::new();
    let seg = branch_from(&extras, &mut |m| warnings.push(m.to_string()));
    assert!(warnings.is_empty());
    assert!(!seg.cfg.dirty_enabled);
}

#[test]
fn from_extras_rejects_short_sha_length_out_of_range() {
    for bad in [0i64, 41, -5, 999] {
        let mut extras = BTreeMap::new();
        extras.insert("short_sha_length".into(), toml::Value::Integer(bad));
        let mut warnings = Vec::<String>::new();
        let seg = branch_from(&extras, &mut |m| warnings.push(m.to_string()));
        assert_eq!(warnings.len(), 1, "{bad}: {warnings:?}");
        assert_eq!(seg.cfg.short_sha_length, 7);
    }
}


#[test]
fn truncate_middle_keeps_short_strings_verbatim() {
    assert_eq!(truncate_middle("main", 10, "…"), "main");
    assert_eq!(truncate_middle("feature/x", 9, "…"), "feature/x");
}

#[test]
fn truncate_middle_preserves_prefix_and_suffix() {
    let out = truncate_middle("feature/authentication-v3", 10, "…");
    assert!(out.contains('…'));
    assert!(out.len() <= 25);
    assert!(out.starts_with("feat"), "expected prefix kept, got {out}");
    assert!(out.ends_with("-v3") || out.ends_with("v3"));
}

#[test]
fn truncate_middle_handles_zero_budget() {
    assert_eq!(truncate_middle("main", 0, "…"), "main");
}

#[test]
fn truncate_middle_degrades_when_marker_exceeds_budget() {
    assert_eq!(truncate_middle("hello-world", 3, "[truncated]"), "hel");
}


fn render_at(seg: &GitBranchSegment, terminal_width: u16, dc: &DataContext) -> String {
    let rendered = seg
        .render(dc, &RenderContext::new(terminal_width))
        .unwrap()
        .expect("rendered");
    rendered.text().to_string()
}

#[test]
fn dirty_hide_below_cells_default_zero_keeps_existing_behavior() {
    let seg = GitBranchSegment::default();
    let dc = ctx_with_dirty_and_upstream(0, 0);
    assert_eq!(render_at(&seg, 1, &dc), "main *");
    assert_eq!(render_at(&seg, 200, &dc), "main *");
}

#[test]
fn dirty_marker_hidden_when_terminal_width_below_threshold() {
    let mut seg = GitBranchSegment::default();
    seg.cfg.dirty_hide_below_cells = 50;
    let dc = ctx_with_dirty_and_upstream(0, 0);
    assert_eq!(render_at(&seg, 49, &dc), "main");
    assert_eq!(render_at(&seg, 50, &dc), "main *");
    assert_eq!(render_at(&seg, 100, &dc), "main *");
}

#[test]
fn ahead_behind_hidden_when_terminal_width_below_threshold() {
    let mut seg = GitBranchSegment::default();
    seg.cfg.ahead_behind.hide_below_cells = 80;
    let dc = ctx_with_dirty_and_upstream(2, 1);
    assert_eq!(render_at(&seg, 79, &dc), "main *");
    assert_eq!(render_at(&seg, 80, &dc), "main * ↑2 ↓1");
}

#[test]
fn per_marker_thresholds_compose_independently() {
    let mut seg = GitBranchSegment::default();
    seg.cfg.dirty_hide_below_cells = 50;
    seg.cfg.ahead_behind.hide_below_cells = 80;
    let dc = ctx_with_dirty_and_upstream(2, 1);
    assert_eq!(render_at(&seg, 100, &dc), "main * ↑2 ↓1"); // full
    assert_eq!(render_at(&seg, 60, &dc), "main *"); // no tracking
    assert_eq!(render_at(&seg, 40, &dc), "main"); // branch only
}

#[test]
fn enabled_false_overrides_hide_below_cells() {
    let mut seg = GitBranchSegment::default();
    seg.cfg.dirty_enabled = false;
    seg.cfg.dirty_hide_below_cells = 50;
    let dc = ctx_with_dirty_and_upstream(0, 0);
    assert_eq!(render_at(&seg, 200, &dc), "main");
}

#[test]
fn from_extras_reads_dirty_hide_below_cells() {
    let mut dirty = toml::value::Table::new();
    dirty.insert("hide_below_cells".to_string(), toml::Value::Integer(60));
    let extras = BTreeMap::from([("dirty".to_string(), toml::Value::Table(dirty))]);
    let seg = branch_from(&extras, &mut |_| {});
    assert_eq!(seg.cfg.dirty_hide_below_cells, 60);
}

#[test]
fn from_extras_reads_ahead_behind_hide_below_cells() {
    let mut ab = toml::value::Table::new();
    ab.insert("hide_below_cells".to_string(), toml::Value::Integer(90));
    let extras = BTreeMap::from([("ahead_behind".to_string(), toml::Value::Table(ab))]);
    let seg = branch_from(&extras, &mut |_| {});
    assert_eq!(seg.cfg.ahead_behind.hide_below_cells, 90);
}

#[test]
fn ahead_behind_hide_when_zero_and_hide_below_cells_compose_multiplicatively() {
    let mut seg = GitBranchSegment::default();
    seg.cfg.ahead_behind.hide_below_cells = 80;
    let dc_diverged = ctx_with_dirty_and_upstream(2, 1);
    assert_eq!(render_at(&seg, 79, &dc_diverged), "main *");
    let dc_zero = ctx_with_dirty_and_upstream(0, 0);
    assert_eq!(render_at(&seg, 100, &dc_zero), "main *");
}

#[test]
fn from_extras_warns_on_negative_hide_below_cells_and_keeps_default() {
    let mut dirty = toml::value::Table::new();
    dirty.insert("hide_below_cells".to_string(), toml::Value::Integer(-5));
    let extras = BTreeMap::from([("dirty".to_string(), toml::Value::Table(dirty))]);
    let mut warnings = vec![];
    let seg = branch_from(&extras, &mut |m| warnings.push(m.to_string()));
    assert_eq!(seg.cfg.dirty_hide_below_cells, 0);
    assert!(warnings
        .iter()
        .any(|w| w.contains("segments.git_branch.dirty.hide_below_cells")));
}


#[test]
fn shrink_to_fit_returns_compact_form_when_target_fits() {
    let seg = GitBranchSegment::default();
    let dc = ctx_with_dirty_and_upstream(2, 1);
    let dummy_rc = RenderContext::new(80);
    let shrunk = seg
        .shrink_to_fit(&dc, &dummy_rc, 4)
        .expect("compact form fits");
    assert_eq!(shrunk.text(), "main");
    assert_eq!(shrunk.style().role, Some(Role::Accent));
}

#[test]
fn shrink_to_fit_returns_none_when_even_compact_form_overflows() {
    let seg = GitBranchSegment::default();
    let dc = ctx_with_dirty_and_upstream(2, 1);
    let dummy_rc = RenderContext::new(80);
    assert!(seg.shrink_to_fit(&dc, &dummy_rc, 3).is_none());
}

#[test]
fn shrink_to_fit_returns_none_outside_repo() {
    let seg = GitBranchSegment::default();
    let dc = ctx_with_git(Ok(None));
    let dummy_rc = RenderContext::new(80);
    assert!(seg.shrink_to_fit(&dc, &dummy_rc, 100).is_none());
}

#[test]
fn shrink_to_fit_returns_none_in_bare_repo() {
    let seg = GitBranchSegment::default();
    let gc = repo(RepoKind::Bare, Head::Unborn {
            symbolic_ref: "main".into(),
        });
    let dc = ctx_with_git(Ok(Some(gc)));
    let dummy_rc = RenderContext::new(80);
    assert!(seg.shrink_to_fit(&dc, &dummy_rc, 100).is_none());
}

#[test]
fn shrink_to_fit_keeps_configured_label_in_compact_form() {
    let mut seg = GitBranchSegment::default();
    seg.cfg.label = "br:".into();
    let dc = ctx_with_dirty_and_upstream(2, 1);
    let dummy_rc = RenderContext::new(80);
    let shrunk = seg
        .shrink_to_fit(&dc, &dummy_rc, 50)
        .expect("compact form fits");
    assert_eq!(shrunk.text(), "br: main");
}

#[test]
fn shrink_to_fit_strips_markers_even_when_thresholds_would_keep_them() {
    let seg = GitBranchSegment::default();
    let dc = ctx_with_dirty_and_upstream(2, 1);
    let wide_rc = RenderContext::new(200);
    let shrunk = seg
        .shrink_to_fit(&dc, &wide_rc, 50)
        .expect("compact form fits 50 cells");
    assert_eq!(shrunk.text(), "main");
}

#[test]
fn truncate_middle_exact_cut() {
    assert_eq!(
        truncate_middle("feature/authentication-v3", 10, "…"),
        "featu…n-v3"
    );
    assert_eq!(truncate_middle("日本語ブランチ", 6, "…"), "日…チ");
}

#[test]
fn truncate_middle_stays_within_its_budget() {
    for max in 1..30u16 {
        let out = truncate_middle("feature/ünïcödé-日本語-branch", max, "..");
        assert!(text_width(&out) <= max, "{max}: {out:?}");
    }
}

#[test]
fn detached_head_shows_the_configured_length() {
    let mut seg = GitBranchSegment::default();
    seg.cfg.short_sha_length = 4;
    let dc = ctx_with_upstream(
        Head::Detached("4b825dc642cb6eb9a060e54bf8d69288fbee4904".into()),
        None,
    );
    assert_eq!(render_at(&seg, 80, &dc), "(4b82)");
}

#[test]
fn template_without_placeholder_is_quoted_in_the_warning() {
    let mut ab = toml::value::Table::new();
    ab.insert("ahead_format".into(), toml::Value::String(r#"a"b"#.into()));
    let extras = BTreeMap::from([("ahead_behind".to_string(), toml::Value::Table(ab))]);
    let mut warnings = Vec::<String>::new();
    let _ = branch_from(&extras, &mut |m| warnings.push(m.to_string()));
    assert_eq!(
        warnings,
        vec![
            r#"segments.git_branch.ahead_behind.ahead_format: missing `{n}` placeholder in "a\"b"; ignoring"#
        ]
    );
}

#[test]
fn values_of_the_wrong_kind_are_reported_once() {
    for (key, expected) in [
        ("label", "string"),
        ("max_length", "1..=65535"),
        ("truncation_marker", "string"),
        ("short_sha_length", "1..=40"),
        ("dirty", "table"),
        ("ahead_behind", "table"),
    ] {
        let extras = BTreeMap::from([(key.to_string(), toml::Value::Boolean(true))]);
        let mut warnings = Vec::<String>::new();
        let seg = branch_from(&extras, &mut |m| warnings.push(m.to_string()));
        assert_eq!(seg, GitBranchSegment::default());
        assert_eq!(
            warnings,
            vec![format!("segments.git_branch.{key}: expected {expected}; ignoring")]
        );
    }
    let extras = BTreeMap::from([(
        "short_sha_length".to_string(),
        toml::Value::String("wide".to_string()),
    )]);
    let mut warnings = Vec::<String>::new();
    let seg = branch_from(&extras, &mut |m| warnings.push(m.to_string()));
    assert_eq!(seg.cfg.short_sha_length, 7);
    assert_eq!(warnings.len(), 1);
}

#[test]
fn nested_values_of_the_wrong_kind_are_reported_once() {
    for (table, key, expected) in [
        ("dirty", "enabled", "bool"),
        ("dirty", "format", r#""indicator"|"counts"|"hidden""#),
        ("dirty", "indicator", "string"),
        ("dirty", "clean_indicator", "string"),
        ("dirty", "hide_below_cells", "0..=65535"),
        ("ahead_behind", "enabled", "bool"),
        ("ahead_behind", "ahead_format", "string"),
        ("ahead_behind", "behind_format", "string"),
        ("ahead_behind", "hide_when_zero", "bool"),
        ("ahead_behind", "hide_when_no_upstream", "bool"),
        ("ahead_behind", "hide_below_cells", "0..=65535"),
    ] {
        let mut inner = toml::value::Table::new();
        inner.insert(key.into(), toml::Value::Float(1.5));
        let extras = BTreeMap::from([(table.to_string(), toml::Value::Table(inner))]);
        let mut warnings = Vec::<String>::new();
        let seg = branch_from(&extras, &mut |m| warnings.push(m.to_string()));
        assert_eq!(seg, GitBranchSegment::default());
        assert_eq!(
            warnings,
            vec![format!(
                "segments.git_branch.{table}.{key}: expected {expected}; ignoring"
            )]
        );
    }
}

#[test]
fn bare_repository_says_why_it_hides() {
    let seg = GitBranchSegment::default();
    let bare = repo(RepoKind::Bare, Head::Branch("main".into()));
    assert_eq!(
        seg.hiding_reason(&ctx_with_git(Ok(Some(bare)))),
        Some("git_branch: bare repo; hiding")
    );
    assert_eq!(seg.hiding_reason(&ctx_with_git(Ok(None))), None);
}

#[test]
fn hide_below_cells_reads_a_number_of_cells() {
    let mut warnings = Messages::new();
    let keys = Table::new().insert("hide_below_cells".into(), Value::Integer(70000));
    assert_eq!(parse_hide_below_cells(&keys, "dirty", &mut warnings), None);
    assert_eq!(warnings.lines.len(), 1);
    let keys = Table::new().insert("hide_below_cells".into(), Value::Integer(65535));
    assert_eq!(parse_hide_below_cells(&keys, "dirty", &mut warnings), Some(65535));
    assert_eq!(warnings.lines.len(), 1);
}

#[test]
fn compact_form_is_never_wider_than_asked() {
    let dc = ctx_with_upstream(Head::Branch("a-rather-long-branch-name".into()), None);
    let seg = GitBranchSegment::default();
    for target in 0..60u16 {
        if let Some(r) = seg.shrink_to_fit(&dc, &RenderContext::new(80), target) {
            assert!(r.width() <= target);
        }
    }
}
