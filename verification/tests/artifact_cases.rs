use docpact::baseline::{apply_baseline, create_baseline_from_artifact, fingerprint_for, BASELINE_SCHEMA_VERSION};
use docpact::diagnostics::{
    BaselineSummary, DiagnosticRecord, DiagnosticsArtifact, WaiverSummary, DIAGNOSTICS_SCHEMA_VERSION,
};
use docpact::waiver::{
    apply_waivers, default_waiver_file, WaiverFile, WaiverRecord, WaiverScope, WAIVER_SCHEMA_VERSION,
};

fn record(id: &str, problem_type: &str, path: &str, rule_id: &str, mode: Option<&str>, reason: &str) -> DiagnosticRecord {
    DiagnosticRecord {
        diagnostic_id: id.into(),
        problem_type: problem_type.into(),
        path: path.into(),
        message: "missing review".into(),
        rule_id: rule_id.into(),
        required_mode: mode.map(|m| m.to_string()),
        failure_reason: reason.into(),
        suggested_action: "touch_required_doc".into(),
        baseline_state: "active".into(),
        rule_source: Some(".docpact/config.yaml".into()),
        trigger_paths: vec!["src/index.ts".into()],
        rule_reason: Some("repo rationale".into()),
        finding_state: "active".into(),
        waiver_reason: None,
        waiver_owner: None,
        waiver_expires_at: None,
    }
}

fn sample_artifact() -> DiagnosticsArtifact {
    DiagnosticsArtifact {
        schema_version: DIAGNOSTICS_SCHEMA_VERSION.into(),
        status: "fail".into(),
        diagnostics: vec![
            record("d001", "missing-review", "docs/api.md", "repo-rule", Some("review_or_update"), "required_doc_not_touched"),
            record("d002", "uncovered-change", "src/payments/charge.ts", "", None, "uncovered_change"),
        ],
        baseline_status: "not-applied".into(),
        baseline_summary: BaselineSummary { active_count: 2, suppressed_count: 0 },
        waiver_status: "not-applied".into(),
        waiver_summary: WaiverSummary { waived_count: 0, expired_count: 0 },
        expired_waivers: Vec::new(),
    }
}

fn waiver_for(diagnostic: &DiagnosticRecord, expires_at: &str) -> WaiverRecord {
    WaiverRecord {
        fingerprint: fingerprint_for(diagnostic),
        reason: "legacy migration".into(),
        owner: "docs-team".into(),
        expires_at: expires_at.into(),
        scope: WaiverScope { rule_ids: Vec::new(), paths: Vec::new() },
    }
}

fn file_with(waivers: Vec<WaiverRecord>) -> WaiverFile {
    WaiverFile {
        schema_version: WAIVER_SCHEMA_VERSION.into(),
        tool_name: "docpact".into(),
        tool_version: "0.1.0".into(),
        waiver_count: waivers.len(),
        waivers,
    }
}

#[test]
fn create_baseline_deduplicates_and_sorts_fingerprints() {
    let artifact = sample_artifact();
    let baseline = create_baseline_from_artifact(&artifact, "1700000000");

    assert_eq!(baseline.schema_version, BASELINE_SCHEMA_VERSION);
    assert_eq!(baseline.fingerprint_count, 2);
    assert_eq!(baseline.fingerprints[0].path, "docs/api.md");
    assert_eq!(baseline.fingerprints[1].path, "src/payments/charge.ts");
}

#[test]
fn apply_baseline_marks_suppressed_findings_without_erasing_them() {
    let mut artifact = sample_artifact();
    let baseline = create_baseline_from_artifact(&artifact, "1700000000");

    artifact.diagnostics.pop();
    let unmatched = DiagnosticRecord {
        diagnostic_id: "d999".into(),
        problem_type: "missing-review".into(),
        path: "docs/extra.md".into(),
        message: "extra".into(),
        rule_id: "repo-rule".into(),
        required_mode: Some("review_or_update".into()),
        failure_reason: "required_doc_not_touched".into(),
        suggested_action: "touch_required_doc".into(),
        baseline_state: "active".into(),
        rule_source: Some(".docpact/config.yaml".into()),
        trigger_paths: vec!["src/extra.ts".into()],
        rule_reason: Some("repo rationale".into()),
        finding_state: "active".into(),
        waiver_reason: None,
        waiver_owner: None,
        waiver_expires_at: None,
    };
    let unmatched_fingerprint = fingerprint_for(&unmatched);
    artifact.diagnostics.push(unmatched);

    apply_baseline(&mut artifact, &baseline);

    assert_eq!(artifact.baseline_status, "has-suppressed-findings");
    assert_eq!(artifact.baseline_summary.suppressed_count, 1);
    assert_eq!(artifact.baseline_summary.active_count, 1);
    assert_eq!(artifact.diagnostics.len(), 2);
    assert_eq!(artifact.diagnostics[0].baseline_state, "suppressed_by_baseline");
    assert_eq!(artifact.diagnostics[1].baseline_state, "active");
    assert_eq!(artifact.status, "fail");
    let restored = fingerprint_for(&artifact.diagnostics[1]);
    assert_eq!(restored.path, unmatched_fingerprint.path);
    assert_eq!(restored.problem_type, unmatched_fingerprint.problem_type);
    assert_eq!(restored.rule_id, unmatched_fingerprint.rule_id);
    assert_eq!(restored.required_mode, unmatched_fingerprint.required_mode);
    assert_eq!(restored.failure_reason, unmatched_fingerprint.failure_reason);
    assert_eq!(restored.rule_source, unmatched_fingerprint.rule_source);
}

#[test]
fn read_waiver_file_or_default_creates_empty_file_model() {
    let file = default_waiver_file();

    assert_eq!(file.schema_version, WAIVER_SCHEMA_VERSION);
    assert_eq!(file.waiver_count, 0);
    assert!(file.waivers.is_empty());
}

#[test]
fn apply_waivers_marks_findings_and_reports_expired_entries() {
    let mut artifact = sample_artifact();
    let file = file_with(vec![
        waiver_for(&artifact.diagnostics[0], "2026-05-01"),
        waiver_for(&artifact.diagnostics[1], "2026-04-20"),
    ]);

    apply_waivers(&mut artifact, &file, "2026-04-21").expect("waivers should apply");

    assert_eq!(artifact.waiver_status, "has-waived-and-expired");
    assert_eq!(artifact.waiver_summary.waived_count, 1);
    assert_eq!(artifact.waiver_summary.expired_count, 1);
    assert_eq!(artifact.baseline_summary.active_count, 1);
    assert_eq!(artifact.diagnostics[0].finding_state, "waived");
    assert_eq!(artifact.diagnostics[0].waiver_owner.as_deref(), Some("docs-team"));
    assert_eq!(artifact.expired_waivers.len(), 1);
    assert_eq!(artifact.expired_waivers[0].path, "src/payments/charge.ts");
}

#[test]
fn waiver_overrides_baseline_state() {
    let mut artifact = sample_artifact();
    let baseline = create_baseline_from_artifact(&artifact, "1700000000");
    apply_baseline(&mut artifact, &baseline);
    let file = file_with(vec![waiver_for(&artifact.diagnostics[0], "2026-05-01")]);

    apply_waivers(&mut artifact, &file, "2026-04-21").expect("waivers should apply");

    assert_eq!(artifact.diagnostics[0].finding_state, "waived");
    assert_eq!(artifact.baseline_summary.suppressed_count, 1);
    assert_eq!(artifact.waiver_summary.waived_count, 1);
}

#[test]
fn scope_does_not_expand_matches() {
    let mut artifact = sample_artifact();
    let mut waiver = waiver_for(&artifact.diagnostics[0], "2026-05-01");
    waiver.scope.paths = vec!["docs/other.md".into()];
    let file = file_with(vec![waiver]);

    apply_waivers(&mut artifact, &file, "2026-04-21").expect("waivers should apply");

    assert_eq!(artifact.waiver_status, "applied-no-match");
    assert_eq!(artifact.diagnostics[0].finding_state, "active");
}
