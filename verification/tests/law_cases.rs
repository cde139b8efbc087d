use docpact::baseline::{apply_baseline, create_baseline_from_artifact, fingerprint_for};
use docpact::check::build_missing_doc_problems;
use docpact::config::inherit::resolve_inherited_rules;
use docpact::config::normalize_path;
use docpact::metadata::{
    apply_review_metadata_to_markdown, missing_markdown_review_metadata, parse_frontmatter_keys,
    parse_frontmatter_scalar_values,
};
use docpact::rules::{collect_expected_docs, matches_pattern, MatchedRule};
use docpact::config::{RequiredDoc, Trigger};
use docpact::config::ownership::analyze_ownership_paths;
use docpact::config::{LoadedOwnershipConfig, OwnershipConfig, OwnershipDomain, OwnershipPaths};
use docpact::config::{RuleDisable, RuleOriginKind, RuleOverrides, Rule};
use docpact::diagnostics::{BaselineSummary, DiagnosticRecord, DiagnosticsArtifact, WaiverSummary};
use docpact::rules::{ExpectedDoc, RequiredDocMode};
use docpact::waiver::{
    add_waiver, apply_waivers, build_waiver, default_waiver_file, waiver_matches, WaiverFile, WaiverRecord,
    WaiverScope,
};

fn record(id: &str, path: &str) -> DiagnosticRecord {
    DiagnosticRecord {
        diagnostic_id: id.into(),
        problem_type: "missing-review".into(),
        path: path.into(),
        message: "m".into(),
        rule_id: "rule".into(),
        required_mode: Some("review_or_update".into()),
        failure_reason: "required_doc_not_touched".into(),
        suggested_action: "touch_required_doc".into(),
        baseline_state: "active".into(),
        rule_source: None,
        trigger_paths: Vec::new(),
        rule_reason: None,
        finding_state: "active".into(),
        waiver_reason: None,
        waiver_owner: None,
        waiver_expires_at: None,
    }
}

fn artifact(paths: &[&str]) -> DiagnosticsArtifact {
    DiagnosticsArtifact {
        schema_version: "docpact.diagnostics.v1".into(),
        status: "fail".into(),
        diagnostics: paths.iter().enumerate().map(|(i, p)| record(&format!("d{i}"), p)).collect(),
        baseline_status: "not-applied".into(),
        baseline_summary: BaselineSummary { active_count: paths.len(), suppressed_count: 0 },
        waiver_status: "not-applied".into(),
        waiver_summary: WaiverSummary { waived_count: 0, expired_count: 0 },
        expired_waivers: Vec::new(),
    }
}

fn waivers(ws: Vec<WaiverRecord>) -> WaiverFile {
    WaiverFile {
        schema_version: "docpact.waivers.v1".into(),
        tool_name: "docpact".into(),
        tool_version: "0.1.0".into(),
        waiver_count: ws.len(),
        waivers: ws,
    }
}

fn waiver_for(d: &DiagnosticRecord, scope_paths: Vec<String>) -> WaiverRecord {
    WaiverRecord {
        fingerprint: fingerprint_for(d),
        reason: "r".into(),
        owner: "o".into(),
        expires_at: "2030-01-01".into(),
        scope: WaiverScope { rule_ids: Vec::new(), paths: scope_paths },
    }
}

#[test]
fn own_baseline_suppresses_every_finding() {
    let mut a = artifact(&["docs/a.md", "docs/b.md", "docs/a.md"]);
    let baseline = create_baseline_from_artifact(&a, "0");
    assert_eq!(baseline.fingerprint_count, 2);
    apply_baseline(&mut a, &baseline);
    assert_eq!(a.baseline_summary.active_count, 0);
    assert_eq!(a.baseline_summary.suppressed_count, 3);
    assert_eq!(a.status, "ok");
    assert!(a.diagnostics.iter().all(|d| d.baseline_state == "suppressed_by_baseline"));
}

#[test]
fn waiver_states_partition_the_findings() {
    let mut a = artifact(&["docs/a.md", "docs/b.md", "docs/c.md"]);
    let baseline = create_baseline_from_artifact(&artifact(&["docs/b.md"]), "0");
    apply_baseline(&mut a, &baseline);
    let file = waivers(vec![waiver_for(&a.diagnostics[0], Vec::new())]);
    apply_waivers(&mut a, &file, "2026-01-01").expect("waivers apply");
    let w = a.waiver_summary.waived_count;
    let s = a.baseline_summary.suppressed_count;
    let act = a.baseline_summary.active_count;
    assert_eq!((w, s, act), (1, 1, 1));
    assert_eq!(w + s + act, a.diagnostics.len());
}

#[test]
fn applying_waivers_twice_changes_nothing_more() {
    let mut a = artifact(&["docs/a.md", "docs/b.md"]);
    let file = waivers(vec![waiver_for(&a.diagnostics[1], Vec::new())]);
    apply_waivers(&mut a, &file, "2026-01-01").expect("waivers apply");
    let first = a.diagnostics.iter().map(|d| (d.finding_state.clone(), d.waiver_owner.clone())).collect::<Vec<_>>();
    apply_waivers(&mut a, &file, "2026-01-01").expect("waivers apply");
    let second = a.diagnostics.iter().map(|d| (d.finding_state.clone(), d.waiver_owner.clone())).collect::<Vec<_>>();
    assert_eq!(first, second);
    assert_eq!(second[1].0, "waived");
}

#[test]
fn scope_only_narrows_a_waiver() {
    let a = artifact(&["docs/a.md"]);
    let scoped = waiver_for(&a.diagnostics[0], vec!["docs/*.md".into()]);
    let unscoped = waiver_for(&a.diagnostics[0], Vec::new());
    assert!(waiver_matches(&a.diagnostics[0], &scoped));
    assert!(waiver_matches(&a.diagnostics[0], &unscoped));
    let narrowed = waiver_for(&a.diagnostics[0], vec!["src/**".into()]);
    assert!(!waiver_matches(&a.diagnostics[0], &narrowed));
}

#[test]
fn expired_waiver_never_waives() {
    let mut a = artifact(&["docs/a.md"]);
    let mut w = waiver_for(&a.diagnostics[0], Vec::new());
    w.expires_at = "2020-01-01".into();
    apply_waivers(&mut a, &waivers(vec![w]), "2026-01-01").expect("waivers apply");
    assert_eq!(a.diagnostics[0].finding_state, "active");
    assert_eq!(a.waiver_status, "has-expired-waivers");
    assert_eq!(a.expired_waivers.len(), 1);
}

#[test]
fn touched_docs_are_never_reported_missing() {
    let docs = vec![
        ExpectedDoc {
            path: "docs/a.md".into(),
            rules: vec!["r1".into()],
            changed_paths: vec!["src/x.ts".into()],
            modes: vec![RequiredDocMode::ReviewOrUpdate],
        },
        ExpectedDoc {
            path: "docs/b.md".into(),
            rules: vec!["r1".into(), "r2".into()],
            changed_paths: vec!["src/x.ts".into(), "src/y.ts".into()],
            modes: vec![RequiredDocMode::ReviewOrUpdate],
        },
    ];
    let problems = build_missing_doc_problems(&["src/x.ts".into(), "docs/a.md".into()], &docs);
    assert_eq!(problems.len(), 1);
    assert_eq!(problems[0].path, "docs/b.md");
    assert_eq!(
        problems[0].message,
        "Expected reviewed doc was not touched. Triggered by src/x.ts, src/y.ts via rule(s): r1, r2"
    );
}

fn plain_rule(id: &str) -> Rule {
    Rule {
        id: id.into(),
        scope: "repo".into(),
        repo: ".".into(),
        triggers: Vec::new(),
        required_docs: Vec::new(),
        reason: "r".into(),
    }
}

#[test]
fn law_overrides_take_effect_disable_and_add() {
    let profile = vec![plain_rule("a"), plain_rule("b")];
    let overrides = RuleOverrides {
        add: vec![plain_rule("c")],
        replace: Vec::new(),
        disable: vec![RuleDisable { id: "a".into(), reason: "gone".into() }],
    };
    let rules = resolve_inherited_rules("root.yaml", "child.yaml", "child", "base", &profile, &overrides).unwrap();
    let ids: Vec<&str> = rules.iter().map(|r| r.rule.id.as_str()).collect();
    assert_eq!(ids, vec!["b", "c"]);
    assert!(matches!(rules[1].provenance.origin_kind, RuleOriginKind::OverrideAdd));
    assert_eq!(rules[1].source, "child.yaml#overrides.rules.add.c");
    assert_eq!(rules[0].source, "root.yaml#workspace.profiles.base.rules.b");
}

#[test]
fn law_overrides_take_effect_readd_after_disable() {
    let profile = vec![plain_rule("a")];
    let overrides = RuleOverrides {
        add: vec![plain_rule("a")],
        replace: Vec::new(),
        disable: vec![RuleDisable { id: "a".into(), reason: "swap".into() }],
    };
    let rules = resolve_inherited_rules("root.yaml", "child.yaml", "child", "base", &profile, &overrides).unwrap();
    assert_eq!(rules.len(), 1);
    assert!(matches!(rules[0].provenance.origin_kind, RuleOriginKind::OverrideAdd));
}

#[test]
fn law_normalize_idempotent_examples() {
    for raw in [".\\\\a//b\\c", "././/x//y", ".//./a", "a", "", "//"] {
        let once = normalize_path(raw);
        assert_eq!(normalize_path(&once), once);
    }
    assert_eq!(normalize_path("././/x//y"), "/x/y");
}

#[test]
fn reapplying_a_baseline_changes_nothing() {
    let mut a = artifact(&["docs/a.md", "docs/b.md", "docs/c.md"]);
    let baseline = create_baseline_from_artifact(&artifact(&["docs/b.md"]), "0");
    apply_baseline(&mut a, &baseline);
    let first = a.diagnostics.iter().map(|d| d.baseline_state.clone()).collect::<Vec<_>>();
    let counts = (a.baseline_summary.active_count, a.baseline_summary.suppressed_count);
    apply_baseline(&mut a, &baseline);
    let second = a.diagnostics.iter().map(|d| d.baseline_state.clone()).collect::<Vec<_>>();
    assert_eq!(first, second);
    assert_eq!(counts, (a.baseline_summary.active_count, a.baseline_summary.suppressed_count));
    assert_eq!(counts, (2, 1));
    assert_eq!(a.status, "fail");
}

#[test]
fn recorded_waiver_waives_its_finding_until_expiry() {
    let mut a = artifact(&["docs/a.md", "docs/b.md"]);
    let w = build_waiver(&a.diagnostics[1], " migration ", "team", "2026-05-31", &[], "/repo", &[])
        .expect("waiver builds");
    let mut file = default_waiver_file();
    assert!(add_waiver(&mut file, w));
    let mut later = artifact(&["docs/a.md", "docs/b.md"]);
    apply_waivers(&mut a, &file, "2026-05-31").expect("waivers apply");
    assert_eq!(a.diagnostics[1].finding_state, "waived");
    assert_eq!(a.diagnostics[1].waiver_reason.as_deref(), Some("migration"));
    assert_eq!(a.diagnostics[0].finding_state, "active");
    apply_waivers(&mut later, &file, "2026-06-01").expect("waivers apply");
    assert_eq!(later.diagnostics[1].finding_state, "active");
    assert_eq!(later.waiver_summary.expired_count, 1);
}

fn domain(id: &str, pattern: &str, owner: &str) -> OwnershipDomain {
    OwnershipDomain {
        id: id.into(),
        paths: OwnershipPaths { includes: vec![pattern.into()], exclude: Vec::new() },
        owner_repo: owner.into(),
        non_owner_repos: Vec::new(),
    }
}

#[test]
fn selected_domain_is_the_most_specific() {
    let config = LoadedOwnershipConfig {
        source: ".docpact/config.yaml".into(),
        base_dir: "".into(),
        ownership: OwnershipConfig {
            domains: vec![domain("broad", "src/**", "team-a"), domain("narrow", "src/api/**", "team-a")],
        },
    };
    let analysis = analyze_ownership_paths(&["src/api/client.ts".to_string(), "src/lib.rs".to_string()], &[config]);
    assert_eq!(analysis.paths.len(), 2);
    let api = &analysis.paths[0];
    assert_eq!(api.matches.len(), 2);
    assert_eq!(api.selected.domain_id, "narrow");
    assert!(api.matches.iter().all(|m| m.static_prefix_len <= api.selected.static_prefix_len));
    assert!(api.has_overlap && !api.has_conflict);
    assert_eq!(analysis.paths[1].selected.domain_id, "broad");
}

#[test]
fn normalized_paths_have_no_backslash_double_slash_or_leading_dot_slash() {
    for raw in [".\\a\\\\b", "././/x//y/", "a//b", "\\\\srv\\share"] {
        let n = normalize_path(raw);
        assert!(!n.contains('\\'));
        assert!(!n.contains("//"));
        assert!(!n.starts_with("./"));
    }
}

#[test]
fn glob_literal_double_star_and_directory_patterns() {
    assert!(matches_pattern("docs/a.md", "docs/a.md"));
    assert!(!matches_pattern("docs/a.md", "docs/b.md"));
    assert!(matches_pattern("anything/at/all.rs", "**"));
    assert!(matches_pattern("src/a/b.rs", "src/**"));
    assert!(!matches_pattern("srcx/a.rs", "src/**"));
    assert!(matches_pattern("src/a.rs", "src/*"));
    assert!(!matches_pattern("src/a/b.rs", "src/*"));
}

#[test]
fn scalar_values_have_the_parsed_keys_and_trimmed_values() {
    let text = "---\nlastReviewedAt:   2026-04-18  \nowner: team\n  indented: no\nowner: other\n---\nbody\n";
    let values = parse_frontmatter_scalar_values(text);
    let keys = values.iter().map(|(k, _)| k.clone()).collect::<Vec<_>>();
    assert_eq!(keys, parse_frontmatter_keys(text));
    assert_eq!(values, vec![("lastReviewedAt".to_string(), "2026-04-18".to_string()), ("owner".to_string(), "other".to_string())]);
}

fn matched(path: &str, id: &str, doc: &str) -> MatchedRule {
    MatchedRule {
        changed_path: path.into(),
        source: ".docpact/config.yaml".into(),
        config_source: ".docpact/config.yaml".into(),
        base_dir: String::new(),
        rule: Rule {
            id: id.into(),
            scope: "repo".into(),
            repo: "demo".into(),
            triggers: vec![Trigger { path: "src/**".into(), kind: None }],
            required_docs: vec![RequiredDoc { path: doc.into(), mode: None }],
            reason: "r".into(),
        },
    }
}

#[test]
fn expected_docs_ignore_match_order_and_repetition() {
    let a = collect_expected_docs(&[matched("src/a.rs", "r1", "docs/x.md"), matched("src/b.rs", "r2", "docs/a.md")]);
    let b = collect_expected_docs(&[
        matched("src/b.rs", "r2", "docs/a.md"),
        matched("src/a.rs", "r1", "docs/x.md"),
        matched("src/b.rs", "r2", "docs/a.md"),
    ]);
    let key = |v: &Vec<docpact::rules::ExpectedDoc>| {
        v.iter().map(|d| (d.path.clone(), d.rules.clone(), d.changed_paths.clone(), d.modes.clone())).collect::<Vec<_>>()
    };
    assert_eq!(key(&a), key(&b));
    assert_eq!(a.iter().map(|d| d.path.as_str()).collect::<Vec<_>>(), vec!["docs/a.md", "docs/x.md"]);
}

#[test]
fn review_metadata_applied_reads_back_and_is_stable() {
    for text in [
        "",
        "# Title\n\nBody\n",
        "---\ntitle: x\nlastReviewedAt: 2020-01-01\n---\nBody\n",
        "---\nowner: a\n---",
        "---\nowner: a\n---\n\n",
    ] {
        let out = apply_review_metadata_to_markdown(text, "2026-04-18", "abc123");
        assert!(missing_markdown_review_metadata(&out).is_empty());
        let values = parse_frontmatter_scalar_values(&out);
        assert!(values.contains(&("lastReviewedAt".to_string(), "2026-04-18".to_string())));
        assert!(values.contains(&("lastReviewedCommit".to_string(), "abc123".to_string())));
        assert_eq!(apply_review_metadata_to_markdown(&out, "2026-04-18", "abc123"), out);
    }
}
