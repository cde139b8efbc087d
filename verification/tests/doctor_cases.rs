use docpact::config::effective::resolve_effective_configs;
use docpact::config::normalize::{catalog_configs, ownership_configs};
use docpact::config::{
    CatalogConfig, CatalogRepo, ConfigFile, ConfigLayout, CoverageConfig, DocInventoryConfig, FreshnessConfig,
    FreshnessOverride, ImpactFileDescriptor, ImpactLayout, InheritConfig, OverrideMode, OverridesConfig,
    OwnershipConfig, OwnershipDomain, OwnershipPaths, ParsedImpactFile, RequiredDoc, RoutingConfig, RoutingIntent,
    RoutingOverride, Rule, RuleDisable, RuleOverrides, ScopedPatternOverride, Trigger, WorkspaceProfile,
    WorkspaceSection,
};
use docpact::doctor::{doctor_report, load_failed_report, DoctorReport};

fn rule(id: &str, scope: &str, repo: &str, trigger: &str, doc: &str, mode: Option<&str>, reason: &str) -> Rule {
    Rule {
        id: id.into(),
        scope: scope.into(),
        repo: repo.into(),
        triggers: vec![Trigger { path: trigger.into(), kind: Some("code".into()) }],
        required_docs: vec![RequiredDoc { path: doc.into(), mode: mode.map(|m| m.to_string()) }],
        reason: reason.into(),
    }
}

fn empty_config(layout: ConfigLayout) -> ConfigFile {
    ConfigFile {
        layout,
        coverage: None,
        freshness: None,
        routing: None,
        catalog: None,
        ownership: None,
        doc_inventory: None,
        rules: Vec::new(),
        workspace: None,
        inherit: None,
        overrides: None,
    }
}

fn file(dir: &str, parsed: ConfigFile) -> ParsedImpactFile {
    let rel = if dir.is_empty() { ".docpact/config.yaml".to_string() } else { format!("{dir}/.docpact/config.yaml") };
    ParsedImpactFile {
        descriptor: ImpactFileDescriptor { abs_path: format!("/w/{rel}"), rel_path: rel, base_dir: dir.into() },
        parsed,
    }
}

fn intent(name: &str, paths: &[&str]) -> (String, RoutingIntent) {
    (name.into(), RoutingIntent { paths: paths.iter().map(|p| p.to_string()).collect() })
}


fn doctor_of(files: &Vec<ParsedImpactFile>, layout: ImpactLayout, listed: Option<&Vec<String>>) -> DoctorReport {
    let effective = resolve_effective_configs(files).expect("config graph resolves");
    doctor_report(".docpact/config.yaml", layout, &effective, &catalog_configs(files), &ownership_configs(files), listed)
}

fn codes(report: &DoctorReport) -> Vec<&str> {
    report.findings.iter().map(|f| f.code.as_str()).collect()
}

#[test]
fn doctor_reports_empty_rule_graph() {
    let report = doctor_of(&vec![file("", empty_config(ConfigLayout::Repo))], ImpactLayout::Repo, None);
    assert!(report.summary.config_present);
    assert_eq!(report.summary.rule_count, 0);
    assert_eq!(report.findings[0].code, "empty-rule-graph");
}

#[test]
fn doctor_reports_governance_gaps_without_repeating_strict_validation() {
    let mut config = empty_config(ConfigLayout::Repo);
    config.rules = vec![Rule {
        id: "no-governed-docs".into(),
        scope: "repo".into(),
        repo: "sample".into(),
        triggers: vec![Trigger { path: "src/**".into(), kind: Some("code".into()) }],
        required_docs: Vec::new(),
        reason: "sample".into(),
    }];
    let report = doctor_of(&vec![file("", config)], ImpactLayout::Repo, None);
    assert_eq!(report.summary.rule_count, 1);
    let codes = codes(&report);
    assert!(codes.contains(&"missing-governed-docs"));
    assert!(codes.contains(&"missing-coverage-scope"));
    assert!(codes.contains(&"missing-doc-inventory"));
    assert!(codes.contains(&"missing-freshness-config"));
    assert!(!codes.contains(&"invalid-config"));
}

#[test]
fn doctor_reports_explicit_config_load_failures() {
    let report = load_failed_report(".docpact/config.yaml", None, "failed to parse .docpact/config.yaml");
    assert_eq!(report.summary.layout, "unknown");
    assert_eq!(report.findings.len(), 1);
    assert_eq!(report.findings[0].code, "config-load-failed");
}

#[test]
fn doctor_marks_explicit_scopes_and_thresholds_as_configured() {
    let mut config = empty_config(ConfigLayout::Repo);
    config.coverage = Some(CoverageConfig { includes: vec!["src/**".into()], exclude: Vec::new() });
    config.doc_inventory = Some(DocInventoryConfig { includes: vec!["docs/**".into()], exclude: Vec::new() });
    config.freshness = Some(FreshnessConfig { warn_after_commits: 10, warn_after_days: 30, critical_after_days: 60 });
    config.routing = Some(RoutingConfig { intents: vec![intent("api", &["src/**"])] });
    config.rules = vec![rule("api-docs", "repo", "sample", "src/**", "docs/api.md", None, "sample")];
    let report = doctor_of(&vec![file("", config)], ImpactLayout::Repo, None);
    assert!(report.summary.coverage_configured);
    assert!(report.summary.routing_configured);
    assert!(report.summary.doc_inventory_configured);
    assert!(report.summary.freshness_configured);
    assert_eq!(report.summary.routing_intent_count, 1);
    assert_eq!(report.summary.governed_doc_count, 1);
    assert!(report.findings.is_empty());
}

#[test]
fn doctor_reports_inheritance_and_override_details() {
    let mut root = empty_config(ConfigLayout::Workspace);
    root.workspace = Some(WorkspaceSection {
        name: Some("demo".into()),
        profiles: vec![(
            "default".into(),
            WorkspaceProfile {
                coverage: Some(CoverageConfig { includes: vec!["src/**".into()], exclude: Vec::new() }),
                freshness: Some(FreshnessConfig { warn_after_commits: 10, warn_after_days: 30, critical_after_days: 60 }),
                routing: Some(RoutingConfig { intents: vec![intent("service", &["src/**"])] }),
                doc_inventory: Some(DocInventoryConfig { includes: vec!["docs/**".into()], exclude: Vec::new() }),
                rules: vec![
                    rule("inherited-rule", "workspace", "workspace", "src/**", "docs/guide.md", None, "inherited"),
                    rule("inherited-disable", "workspace", "workspace", "src/legacy/**", "docs/legacy.md", None, "disable me"),
                ],
            },
        )],
    });
    root.rules = vec![rule("root-only", "workspace", "workspace", "AGENTS.md", ".docpact/config.yaml", None, "root")];
    let mut service = empty_config(ConfigLayout::Repo);
    service.inherit = Some(InheritConfig { workspace_profile: "default".into() });
    service.overrides = Some(OverridesConfig {
        rules: RuleOverrides {
            add: vec![rule("local-extra", "repo", "service", "src/payments/**", "docs/payments.md", None, "local")],
            replace: vec![rule("inherited-rule", "repo", "service", "src/app/**", "docs/app.md", None, "replaced")],
            disable: vec![RuleDisable { id: "inherited-disable".into(), reason: "not applicable".into() }],
        },
        coverage: Some(ScopedPatternOverride { mode: OverrideMode::Merge, includes: vec!["tests/**".into()], exclude: Vec::new() }),
        doc_inventory: Some(ScopedPatternOverride {
            mode: OverrideMode::Replace,
            includes: vec!["README.md".into()],
            exclude: Vec::new(),
        }),
        freshness: Some(FreshnessOverride {
            mode: OverrideMode::Replace,
            warn_after_commits: 21,
            warn_after_days: 34,
            critical_after_days: 55,
        }),
        routing: Some(RoutingOverride { mode: OverrideMode::Merge, intents: vec![intent("payments", &["src/payments/**"])] }),
    });
    let report = doctor_of(&vec![file("", root), file("service", service)], ImpactLayout::Workspace, None);
    assert_eq!(report.summary.layout, "workspace");
    assert_eq!(report.summary.effective_config_count, 2);
    assert_eq!(report.summary.inherited_config_count, 1);
    let service = report.configs.iter().find(|c| c.base_dir == "service").expect("service config should exist");
    assert!(service.inheritance_enabled);
    assert_eq!(service.workspace_profile.as_deref(), Some("default"));
    assert_eq!(service.override_add_count, 1);
    assert_eq!(service.override_replace_count, 1);
    assert_eq!(service.override_disable_count, 1);
    assert_eq!(service.coverage_resolution, "override-merge");
    assert_eq!(service.routing_resolution, "override-merge");
    assert_eq!(service.doc_inventory_resolution, "override-replace");
    assert_eq!(service.freshness_resolution, "override-replace");
    assert_eq!(service.routing_intent_count, 2);
}

#[test]
fn doctor_surfaces_same_owner_ownership_overlap_as_warning() {
    let mut config = empty_config(ConfigLayout::Repo);
    config.catalog = Some(CatalogConfig {
        repos: vec![CatalogRepo {
            id: "sample".into(),
            path: ".".into(),
            canonical_repo: None,
            entry_doc: None,
            branch_policy_doc: None,
            workflow_docs: Vec::new(),
            integration_docs: Vec::new(),
            workspace_integration_required: false,
        }],
    });
    let domain = |id: &str, pattern: &str| OwnershipDomain {
        id: id.into(),
        paths: OwnershipPaths { includes: vec![pattern.into()], exclude: Vec::new() },
        owner_repo: "sample".into(),
        non_owner_repos: Vec::new(),
    };
    config.ownership = Some(OwnershipConfig { domains: vec![domain("broad", "src/**"), domain("payments", "src/payments/**")] });
    config.rules = vec![rule("api-docs", "repo", "sample", "src/**", "README.md", None, "sample")];
    let listed = vec![".docpact/config.yaml".to_string(), "src/payments/charge.ts".to_string()];
    let report = doctor_of(&vec![file("", config)], ImpactLayout::Repo, Some(&listed));
    assert_eq!(report.summary.ownership_domain_count, 2);
    assert_eq!(report.summary.ownership_overlap_count, 1);
    assert_eq!(report.summary.ownership_conflict_count, 0);
    assert!(report.findings.iter().any(|f| f.code == "ownership-overlap" && f.severity == "warn"));
}
