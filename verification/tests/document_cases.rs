use docpact::doctor::{load_failed_report, missing_config_report, DOCTOR_SCHEMA_VERSION};
use docpact::yamldoc::{build_doc_problems, missing_yaml_metadata, missing_yaml_review_metadata_from_value, YamlTop};

#[test]
fn doctor_reports_missing_config() {
    let report = missing_config_report(".docpact/config.yaml");

    assert_eq!(report.schema_version, DOCTOR_SCHEMA_VERSION);
    assert_eq!(report.command, "doctor");
    assert!(report.warnings.is_empty());
    assert!(!report.summary.config_present);
    assert_eq!(report.summary.layout, "none");
    assert_eq!(report.findings.len(), 1);
    assert_eq!(report.findings[0].code, "missing-config");
}

#[test]
fn missing_yaml_metadata_detects_absent_top_level_review_fields() {
    let text = r#"version: 1
lastReviewedAt: "2026-04-18"
"#;
    let missing = missing_yaml_metadata(text, ".docpact/example.yaml").expect("yaml should parse");
    assert_eq!(missing, vec!["lastReviewedCommit".to_string()]);
}

#[test]
fn missing_yaml_review_metadata_checks_only_review_keys() {
    // the top level of "version: 1\nlastReviewedAt: 2026-04-18\n"
    let top = YamlTop { keys: Some(vec![Some("version".to_string()), Some("lastReviewedAt".to_string())]) };
    assert_eq!(missing_yaml_review_metadata_from_value(&top), vec!["lastReviewedCommit".to_string()]);
}

#[test]
fn yaml_documents_that_are_not_mappings_lack_every_review_key() {
    assert_eq!(
        missing_yaml_review_metadata_from_value(&YamlTop { keys: None }),
        vec!["lastReviewedAt".to_string(), "lastReviewedCommit".to_string()]
    );
    let missing = missing_yaml_metadata("- lastReviewedAt\n- lastReviewedCommit\n", "a.yaml").expect("parses");
    assert_eq!(missing, vec!["lastReviewedAt".to_string(), "lastReviewedCommit".to_string()]);
    let keyed = missing_yaml_metadata("1: x\nlastReviewedCommit: abc\n", "a.yaml").expect("parses");
    assert_eq!(keyed, vec!["lastReviewedAt".to_string()]);
}

#[test]
fn doctor_load_failure_names_the_failing_config() {
    let report = load_failed_report(
        ".docpact/config.yaml",
        None,
        "repo-a/.docpact/config.yaml is not a valid docpact config file. bad layout",
    );
    assert_eq!(report.summary.layout, "unknown");
    assert!(report.summary.config_present);
    assert_eq!(report.findings.len(), 1);
    assert_eq!(report.findings[0].code, "config-load-failed");
    assert_eq!(report.findings[0].severity, "error");
    assert_eq!(report.findings[0].source, "repo-a/.docpact/config.yaml");
}

#[test]
fn doctor_load_failure_without_marker_falls_back_to_config_source() {
    let report = load_failed_report(".docpact/config.yaml", None, "permission denied");
    assert_eq!(report.findings[0].source, ".docpact/config.yaml");
    assert_eq!(report.findings[0].message, "permission denied");
}

#[test]
fn doctor_missing_config_message_names_the_path() {
    let report = missing_config_report("custom/config.yaml");
    assert_eq!(
        report.findings[0].message,
        "No docpact config was found at `custom/config.yaml`. Create a config before onboarding the repository."
    );
    assert_eq!(report.findings[0].source, "custom/config.yaml");
}

#[test]
fn invalid_yaml_is_reported_with_its_source() {
    let err = missing_yaml_metadata("a: [", "docs/contract.yaml").expect_err("yaml should not parse");
    assert!(err.starts_with("docs/contract.yaml is not valid YAML for docpact. "));
}

#[test]
fn yaml_with_all_review_keys_misses_nothing() {
    let missing = missing_yaml_metadata(
        "lastReviewedAt: 2026-04-18\nlastReviewedCommit: abc123\n",
        "docs/contract.yaml",
    )
    .expect("yaml should parse");
    assert!(missing.is_empty());
}

#[test]
fn doc_problems_only_check_governed_markdown_and_yaml() {
    let changed = vec![
        "docs/api.md".to_string(),
        "docs/freeform.md".to_string(),
        "docs/spec.json".to_string(),
        "docs/contract.yaml".to_string(),
    ];
    let governed = vec!["docs/api.md".to_string(), "docs/spec.json".to_string(), "docs/contract.yaml".to_string()];
    let contents = vec![
        Some("# API\n".to_string()),
        Some("# Freeform\n".to_string()),
        Some("{}\n".to_string()),
        Some("version: 1\n".to_string()),
    ];
    let problems = build_doc_problems(&changed, &governed, &contents).expect("metadata check should succeed");
    assert_eq!(problems.len(), 2);
    assert_eq!(problems[0].path, "docs/api.md");
    assert!(problems[0].message.starts_with("Touched required doc is missing Markdown metadata keys: "));
    assert_eq!(problems[1].path, "docs/contract.yaml");
    assert_eq!(
        problems[1].message,
        "Touched required doc is missing YAML metadata keys: lastReviewedAt, lastReviewedCommit"
    );
}

#[test]
fn doc_problems_stop_at_invalid_yaml() {
    let changed = vec!["docs/contract.yaml".to_string()];
    let governed = vec!["docs/contract.yaml".to_string()];
    let contents = vec![Some("a: [".to_string())];
    let err = build_doc_problems(&changed, &governed, &contents).expect_err("invalid yaml fails the check");
    assert!(err.starts_with("docs/contract.yaml is not valid YAML for docpact."));
}
