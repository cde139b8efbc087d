use docpact::check::build_missing_doc_problems;
use docpact::cli::LintMode;
use docpact::config::model::{LoadedRule, RequiredDoc, Rule, RuleOriginKind, RuleProvenance, Trigger};
use docpact::config::paths::{normalize_path, resolve_rule_path};
use docpact::metadata::{
    is_key_markdown_doc, markdown_body, missing_markdown_metadata, missing_markdown_review_metadata,
    parse_frontmatter_scalar_values,
};
use docpact::reporters::{build_report, build_sarif_log, Problem, SARIF_SCHEMA_URI};
use docpact::rules::{collect_expected_docs, match_rules, matches_pattern, ExpectedDoc, RequiredDocMode};

fn scalar<'a>(values: &'a [(String, String)], key: &str) -> Option<&'a String> {
    values.iter().find(|(k, _)| k == key).map(|(_, v)| v)
}

fn loaded(source: &str, base_dir: &str, rule: Rule) -> LoadedRule {
    LoadedRule {
        source: source.into(),
        config_source: source.into(),
        base_dir: base_dir.into(),
        rule,
        provenance: RuleProvenance {
            config_source: source.into(),
            origin_kind: RuleOriginKind::RootLocal,
            workspace_profile: None,
        },
    }
}

#[test]
fn build_missing_doc_problems_skips_touched_docs() {
    let expected = vec![ExpectedDoc {
        path: ".ai-doc-lint/config.yaml".into(),
        rules: vec!["repo-rule".into()],
        changed_paths: vec!["src/index.ts".into()],
        modes: vec![RequiredDocMode::ReviewOrUpdate],
    }];

    let no_problem = build_missing_doc_problems(&[".ai-doc-lint/config.yaml".into()], &expected);
    assert!(no_problem.is_empty());
}

#[test]
fn normalize_path_supports_repo_relative_matching() {
    assert_eq!(
        normalize_path(".\\tiangong-lca-next\\config\\routes.ts"),
        "tiangong-lca-next/config/routes.ts"
    );
}

#[test]
fn resolve_rule_path_uses_base_dir() {
    assert_eq!(
        resolve_rule_path("subrepo", ".docpact/config.yaml"),
        "subrepo/.docpact/config.yaml"
    );
}

#[test]
fn key_markdown_doc_excludes_yaml_contract_files() {
    assert!(is_key_markdown_doc(".docpact/quality-rubric.md"));
    assert!(is_key_markdown_doc("AGENTS.md"));
    assert!(!is_key_markdown_doc(".docpact/config.yaml"));
}

#[test]
fn missing_markdown_metadata_detects_absent_frontmatter_keys() {
    let text = r#"---
title: Example
docType: contract
scope: workspace
status: draft
authoritative: false
owner: sample-workspace
language: en
whenToUse:
  - x
whenToUpdate:
  - y
checkPaths:
  - .docpact/**
lastReviewedAt: 2026-04-18
---

# Example
"#;

    assert_eq!(missing_markdown_metadata(text), vec!["lastReviewedCommit".to_string()]);
}

#[test]
fn parse_frontmatter_scalar_values_extracts_review_fields() {
    let text = r#"---
title: Example
lastReviewedAt: 2026-04-18
lastReviewedCommit: abc123
---

# Example
"#;

    let values = parse_frontmatter_scalar_values(text);
    assert_eq!(scalar(&values, "lastReviewedAt"), Some(&"2026-04-18".to_string()));
    assert_eq!(scalar(&values, "lastReviewedCommit"), Some(&"abc123".to_string()));
}

#[test]
fn markdown_body_excludes_frontmatter() {
    let text = r#"---
title: Example
lastReviewedAt: 2026-04-18
lastReviewedCommit: abc123
---

# Example
"#;

    assert_eq!(markdown_body(text), "\n# Example\n".to_string());
}

#[test]
fn missing_markdown_review_metadata_checks_only_review_keys() {
    let text = r#"---
title: Example
lastReviewedAt: 2026-04-18
---

# Example
"#;

    assert_eq!(missing_markdown_review_metadata(text), vec!["lastReviewedCommit".to_string()]);
}

#[test]
fn build_report_marks_empty_run_as_ok() {
    let report = build_report(&[], &[], 0);
    assert_eq!(report.status, "ok");
    assert!(report.problems.is_empty());
}

#[test]
fn build_sarif_log_emits_valid_top_level_shape_for_empty_results() {
    let sarif = build_sarif_log(&[], &[], 0, LintMode::Warn);
    assert_eq!(sarif.schema, SARIF_SCHEMA_URI);
    assert_eq!(sarif.version, "2.1.0");
    assert_eq!(sarif.runs.len(), 1);
    assert!(sarif.runs[0].results.is_empty());
    assert_eq!(sarif.runs[0].tool.driver.rules.len(), 2);
    assert_eq!(sarif.runs[0].properties.as_ref().map(|p| p.status.as_str()), Some("ok"));
}

#[test]
fn build_sarif_log_maps_problems_to_results() {
    let problems = vec![Problem::missing_review(
        "docs/api.md".into(),
        "Expected reviewed doc was not touched.".into(),
    )];

    let sarif = build_sarif_log(&problems, &["src/index.ts".into()], 1, LintMode::Enforce);
    let run = &sarif.runs[0];
    let result = &run.results[0];

    assert_eq!(result.rule_id, "missing-review");
    assert_eq!(result.level, "error");
    assert_eq!(result.locations[0].physical_location.artifact_location.uri, "docs/api.md");
    assert_eq!(result.properties.as_ref().map(|p| p.problem_type.as_str()), Some("missing-review"));
    assert_eq!(run.properties.as_ref().map(|p| p.changed_paths.clone()), Some(vec!["src/index.ts".to_string()]));
    assert_eq!(run.tool.driver.rules[0].default_configuration.level, "error");
}

#[test]
fn glob_matching_supports_repo_relative_paths() {
    assert!(matches_pattern("tiangong-lca-next/config/routes.ts", "tiangong-lca-next/**"));
    assert!(matches_pattern(".docpact/quality-rubric.md", ".docpact/*.md"));
    assert!(!matches_pattern(".docpact/nested/file.md", ".docpact/*.md"));
}

#[test]
fn matching_and_expected_docs_resolve_repo_paths() {
    let rules = vec![
        loaded(
            ".docpact/config.yaml",
            "",
            Rule {
                id: "root-rule".into(),
                scope: "workspace".into(),
                repo: "workspace".into(),
                triggers: vec![Trigger { path: "AGENTS.md".into(), kind: Some("doc-contract".into()) }],
                required_docs: vec![RequiredDoc {
                    path: ".docpact/config.yaml".into(),
                    mode: Some("review_or_update".into()),
                }],
                reason: "root".into(),
            },
        ),
        loaded(
            "subrepo/.docpact/config.yaml",
            "subrepo",
            Rule {
                id: "repo-rule".into(),
                scope: "repo".into(),
                repo: "subrepo".into(),
                triggers: vec![Trigger { path: "src/**".into(), kind: Some("code".into()) }],
                required_docs: vec![RequiredDoc {
                    path: ".docpact/config.yaml".into(),
                    mode: Some("review_or_update".into()),
                }],
                reason: "repo".into(),
            },
        ),
    ];

    let matches = match_rules(&["AGENTS.md".into(), "subrepo/src/index.ts".into()], &rules);
    let expected = collect_expected_docs(&matches);

    assert_eq!(matches.len(), 2);
    assert_eq!(
        expected.iter().map(|d| d.path.clone()).collect::<Vec<_>>(),
        vec![".docpact/config.yaml".to_string(), "subrepo/.docpact/config.yaml".to_string()]
    );
    assert_eq!(expected[0].modes, vec![RequiredDocMode::ReviewOrUpdate]);
}
