use docpact::config::effective::resolve_effective_configs;
use docpact::config::model::{
    ConfigFile, ConfigLayout, EffectiveConfig, ImpactFileDescriptor, ImpactLayout, LoadedRule, ParsedImpactFile,
    RequiredDoc, Rule, Trigger,
};
use docpact::config::normalize::{catalog_configs, ownership_configs};
use docpact::config::effective::impact_rules;
use docpact::doctor::{doctor_report, render_doctor_text};
use docpact::explain::{render_text_report, explain_report, EXPLAIN_SCHEMA_VERSION};
use docpact::list_rules::{list_rules_report, render_list_rules_text, LIST_RULES_SCHEMA_VERSION};
use docpact::route::{
    has_glob_syntax, needs_tracked_paths, parse_input_paths, render_route_text, resolve_inputs, route_report,
    ROUTE_SCHEMA_VERSION,
};
use docpact::validate_config::{render_text_report as render_validate_text, validate_config_report};

fn rule(id: &str, trigger: &str, doc: &str, mode: &str) -> Rule {
    Rule {
        id: id.into(),
        scope: "repo".into(),
        repo: "demo".into(),
        triggers: vec![Trigger { path: trigger.into(), kind: Some("code".into()) }],
        required_docs: vec![RequiredDoc { path: doc.into(), mode: Some(mode.into()) }],
        reason: "Keep docs aligned.".into(),
    }
}

fn repo_file(rules: Vec<Rule>) -> ParsedImpactFile {
    ParsedImpactFile {
        descriptor: ImpactFileDescriptor {
            abs_path: "/work/demo/.docpact/config.yaml".into(),
            rel_path: ".docpact/config.yaml".into(),
            base_dir: String::new(),
        },
        parsed: ConfigFile {
            layout: ConfigLayout::Repo,
            coverage: None,
            freshness: None,
            routing: None,
            catalog: None,
            ownership: None,
            doc_inventory: None,
            rules,
            workspace: None,
            inherit: None,
            overrides: None,
        },
    }
}

fn effective(files: &Vec<ParsedImpactFile>) -> Vec<EffectiveConfig> {
    resolve_effective_configs(files).expect("config graph should resolve")
}

fn loaded(files: &Vec<ParsedImpactFile>) -> Vec<LoadedRule> {
    impact_rules(&effective(files))
}

#[test]
fn explain_lists_matching_rule_and_expected_action() {
    let files = vec![repo_file(vec![rule("api-docs", "src/api/**", "docs/api.md", "body_update_required")])];
    let report = explain_report("src/api/client.ts", &loaded(&files));

    assert_eq!(report.schema_version, EXPLAIN_SCHEMA_VERSION);
    assert_eq!(report.command, "explain");
    assert_eq!(report.summary.matched_rule_count, 1);
    assert_eq!(report.matched_rules[0].triggers, vec!["src/api/**".to_string()]);
    assert_eq!(report.expected_docs[0].action, "update body for");
    assert_eq!(report.expected_docs[0].modes, vec!["body_update_required".to_string()]);
    assert!(report.warnings.is_empty());
    let text = render_text_report(&report);
    assert_eq!(
        text,
        "Docpact explain: src/api/client.ts matches 1 rule(s) and expects 1 doc(s).\n\
         Rules:\n\
         - api-docs from .docpact/config.yaml (triggers: src/api/**)\n\
         Expected docs:\n\
         - update body for docs/api.md (modes: body_update_required; rules: api-docs)\n\
         Next: run `docpact route --paths src/api/client.ts` for prioritized docs and workspace context.\n"
    );
}

#[test]
fn explain_warns_without_matching_rules() {
    let files = vec![repo_file(Vec::new())];
    let report = explain_report("./src/unknown.ts", &loaded(&files));
    let rendered = render_text_report(&report);

    assert_eq!(report.path, "src/unknown.ts");
    assert_eq!(report.summary.matched_rule_count, 0);
    assert_eq!(report.warnings[0].code, "no-rule-matches");
    assert!(rendered.contains("Docpact explain: no matching rules"));
    assert!(rendered.contains("Next: run `docpact route --paths src/unknown.ts`"));
}

#[test]
fn list_rules_resolves_paths_and_modes() {
    let files = vec![repo_file(vec![rule("api-docs", "src/api/**", "docs/api.md", "metadata_refresh_required")])];
    let report = list_rules_report(&loaded(&files));

    assert_eq!(report.schema_version, LIST_RULES_SCHEMA_VERSION);
    assert_eq!(report.command, "list-rules");
    assert_eq!(report.rule_count, 1);
    let listed = &report.rules[0];
    assert_eq!(listed.id, "api-docs");
    assert_eq!(listed.description, "Keep docs aligned.");
    assert_eq!(listed.provenance_kind, "root-local");
    assert_eq!(listed.triggers[0].path, "src/api/**");
    assert_eq!(listed.required_docs[0].mode, "metadata_refresh_required");
    let text = render_list_rules_text(&report);
    assert!(text.starts_with("Docpact list-rules: 1 effective rule(s).\nRules:\n- api-docs: 1 trigger(s) -> 1 required doc(s)"));
    assert!(text.contains("  expects: docs/api.md (from docs/api.md; mode: metadata_refresh_required)\n"));
}

#[test]
fn list_rules_without_rules_suggests_next_step() {
    let report = list_rules_report(&[]);
    assert_eq!(
        render_list_rules_text(&report),
        "Docpact list-rules: 0 effective rule(s).\nRules:\n- none\nNext: add rules to `.docpact/config.yaml`, or run `docpact doctor --root .` for onboarding diagnostics.\n"
    );
}

#[test]
fn route_recommends_required_docs_for_direct_and_glob_inputs() {
    let files = vec![repo_file(vec![rule("payments-docs", "src/payments/**", "docs/payments.md", "body_update_required")])];
    let inputs = parse_input_paths(" src/payments/**, src/payments/charge.ts ,,").expect("inputs");
    assert_eq!(inputs, vec!["src/payments/**".to_string(), "src/payments/charge.ts".to_string()]);
    assert!(needs_tracked_paths(&inputs));
    let listed = vec!["src/payments/refund.ts".to_string(), "README.md".to_string()];
    let resolved = resolve_inputs(&inputs, &listed);
    assert_eq!(resolved[0].candidates, vec!["src/payments/refund.ts".to_string()]);
    assert_eq!(resolved[1].candidates, vec!["src/payments/charge.ts".to_string()]);

    let report = route_report(&resolved, &loaded(&files));
    assert_eq!(report.schema_version, ROUTE_SCHEMA_VERSION);
    assert_eq!(report.summary.input_path_count, 2);
    assert_eq!(report.summary.matched_rule_count, 1);
    assert_eq!(report.summary.recommended_doc_count, 1);
    let rec = &report.recommended_docs[0];
    assert_eq!(rec.path, "docs/payments.md");
    assert_eq!(rec.rule_ids, vec!["payments-docs".to_string()]);
    assert_eq!(rec.matched_input_paths, vec!["src/payments/**".to_string(), "src/payments/charge.ts".to_string()]);
    assert_eq!(rec.matched_trigger_paths, vec!["src/payments/**".to_string()]);
    assert_eq!(rec.modes, vec!["body_update_required".to_string()]);
    assert_eq!(
        render_route_text(&report),
        "Docpact route recommendations:\nSummary: input_paths=2 matched_rules=1 recommended_docs=1\nRecommended docs:\n- path=docs/payments.md rules=payments-docs inputs=src/payments/**,src/payments/charge.ts\n"
    );
}

#[test]
fn route_without_matches_recommends_nothing() {
    let files = vec![repo_file(vec![rule("payments-docs", "src/payments/**", "docs/payments.md", "body_update_required")])];
    let inputs = parse_input_paths("README.md").expect("inputs");
    assert!(!needs_tracked_paths(&inputs));
    let report = route_report(&resolve_inputs(&inputs, &[]), &loaded(&files));
    assert_eq!(report.summary.matched_rule_count, 0);
    assert!(report.recommended_docs.is_empty());
    assert!(render_route_text(&report).ends_with("Recommended docs:\n- none\n"));
}

#[test]
fn route_rejects_empty_input_list() {
    assert_eq!(
        parse_input_paths(" , ,").expect_err("no inputs"),
        "Pass at least one non-empty path through --paths."
    );
    assert!(has_glob_syntax("docs/?.md"));
    assert!(!has_glob_syntax("docs/a.md"));
}

#[test]
fn validate_config_default_mode_only_warns() {
    let files = vec![repo_file(vec![rule("api-docs", "src/api/**", "docs/api.md", "review_or_update")])];
    let eff = effective(&files);
    let report = validate_config_report(false, &files, &eff, &catalog_configs(&files), &ownership_configs(&files), &[]);
    assert_eq!(report.summary.status, "ok");
    assert!(!report.summary.strict);
    assert_eq!(report.summary.rule_count, 1);
    assert_eq!(report.warnings[0].code, "strict-validation-skipped");
    assert!(report.problems.is_empty());
    assert!(render_validate_text(&report).starts_with("Docpact validate-config: config loads (1 rule(s)).\n"));
}

#[test]
fn strict_validate_config_reports_duplicate_rule_ids() {
    let files = vec![repo_file(vec![
        rule("api-docs", "src/api/**", "docs/api.md", "review_or_update"),
        rule("api-docs", "src/web/**", "docs/web.md", "review_or_update"),
    ])];
    let eff = effective(&files);
    let report = validate_config_report(true, &files, &eff, &catalog_configs(&files), &ownership_configs(&files), &[]);
    assert_eq!(report.summary.status, "fail");
    assert!(report.summary.problem_count > 0);
    assert!(report.problems.iter().all(|p| p.code == "invalid-config"));
    assert!(report.warnings.is_empty());
    assert!(render_validate_text(&report).starts_with("Docpact validate-config: failed with "));
}

#[test]
fn strict_validate_config_passes_clean_graph() {
    let files = vec![repo_file(vec![rule("api-docs", "src/api/**", "docs/api.md", "review_or_update")])];
    let eff = effective(&files);
    let report = validate_config_report(true, &files, &eff, &catalog_configs(&files), &ownership_configs(&files), &[]);
    assert_eq!(report.summary.status, "ok");
    assert!(render_validate_text(&report).starts_with("Docpact validate-config: pass in strict mode (1 rule(s)).\n"));
}

#[test]
fn doctor_flags_empty_rule_graph() {
    let files = vec![repo_file(Vec::new())];
    let eff = effective(&files);
    let report = doctor_report(".docpact/config.yaml", ImpactLayout::Repo, &eff, &catalog_configs(&files), &ownership_configs(&files), None);
    assert!(report.summary.config_present);
    assert_eq!(report.summary.layout, "repo");
    assert_eq!(report.summary.rule_count, 0);
    assert_eq!(report.findings.len(), 1);
    assert_eq!(report.findings[0].code, "empty-rule-graph");
}

#[test]
fn doctor_reports_unconfigured_scopes_as_warnings() {
    let files = vec![repo_file(vec![rule("api-docs", "src/api/**", "docs/api.md", "review_or_update")])];
    let eff = effective(&files);
    let report = doctor_report(".docpact/config.yaml", ImpactLayout::Repo, &eff, &catalog_configs(&files), &ownership_configs(&files), None);
    assert_eq!(report.summary.rule_count, 1);
    assert_eq!(report.summary.governed_doc_count, 1);
    let codes = report.findings.iter().map(|f| f.code.as_str()).collect::<Vec<_>>();
    assert_eq!(codes, vec!["missing-coverage-scope", "missing-doc-inventory", "missing-freshness-config"]);
    assert!(report.findings.iter().all(|f| f.severity == "warn"));
    assert_eq!(report.configs.len(), 1);
    assert_eq!(report.configs[0].freshness_resolution, "default");
    let text = render_doctor_text(&report);
    assert!(text.starts_with("Docpact doctor: attention required.\n"));
    assert!(text.ends_with("Next: fix the findings above, then rerun `docpact doctor --root .`.\n"));
}
