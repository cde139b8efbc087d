use docpact::config::effective::{impact_rules, resolve_effective_configs};
use docpact::config::validate::validate_loaded_rules;
use docpact::config::crosscheck::{validate_loaded_catalog_configs, validate_loaded_ownership_configs};
use docpact::config::graphcheck::validate_parsed_configs;
use docpact::config::ownership::{analyze_ownership_paths, validate_ownership_path_conflicts};
use docpact::config::normalize::{catalog_configs, ownership_configs};
use docpact::list_rules::list_rules_report;
use docpact::validate_config::{render_text_report, validate_config_report, VALIDATE_CONFIG_SCHEMA_VERSION};
use docpact::config::{
    CatalogConfig, CatalogRepo, OwnershipConfig, OwnershipDomain, OwnershipPaths,
    ConfigFile, ConfigLayout, CoverageConfig, DocInventoryConfig, FreshnessConfig, FreshnessOverride,
    ImpactFileDescriptor, InheritConfig, OverrideMode, OverridesConfig, ParsedImpactFile, RequiredDoc,
    RoutingConfig, RoutingIntent, RoutingOverride, Rule, RuleOriginKind, RuleOverrides, ScopedPatternOverride,
    Trigger, WorkspaceProfile, WorkspaceSection,
};

fn rule(id: &str, scope: &str, repo: &str, trigger: &str, doc: &str, mode: Option<&str>, reason: &str) -> Rule {
    Rule {
        id: id.into(),
        scope: scope.into(),
        repo: repo.into(),
        triggers: vec![Trigger { path: trigger.into(), kind: Some("code".into()) }],
        required_docs: vec![RequiredDoc { path: doc.into(), mode: mode.map(|m| m.to_string()) }],
        reason: reason.into(),
    }
}

fn empty_config(layout: ConfigLayout) -> ConfigFile {
    ConfigFile {
        layout,
        coverage: None,
        freshness: None,
        routing: None,
        catalog: None,
        ownership: None,
        doc_inventory: None,
        rules: Vec::new(),
        workspace: None,
        inherit: None,
        overrides: None,
    }
}

fn file(dir: &str, parsed: ConfigFile) -> ParsedImpactFile {
    let rel = if dir.is_empty() { ".docpact/config.yaml".to_string() } else { format!("{dir}/.docpact/config.yaml") };
    ParsedImpactFile {
        descriptor: ImpactFileDescriptor { abs_path: format!("/w/{rel}"), rel_path: rel, base_dir: dir.into() },
        parsed,
    }
}

fn intent(name: &str, paths: &[&str]) -> (String, RoutingIntent) {
    (name.into(), RoutingIntent { paths: paths.iter().map(|p| p.to_string()).collect() })
}

#[test]
fn workspace_inheritance_builds_effective_child_config() {
    let mut root = empty_config(ConfigLayout::Workspace);
    root.workspace = Some(WorkspaceSection {
        name: Some("demo".into()),
        profiles: vec![(
            "default".into(),
            WorkspaceProfile {
                coverage: Some(CoverageConfig { includes: vec!["src/**".into()], exclude: Vec::new() }),
                freshness: Some(FreshnessConfig { warn_after_commits: 10, warn_after_days: 20, critical_after_days: 30 }),
                routing: Some(RoutingConfig { intents: vec![intent("shared", &["src/**"])] }),
                doc_inventory: Some(DocInventoryConfig { includes: vec!["docs/**".into()], exclude: Vec::new() }),
                rules: vec![rule(
                    "inherited-rule",
                    "workspace",
                    "workspace",
                    "src/**",
                    "docs/guide.md",
                    Some("review_or_update"),
                    "inherited",
                )],
            },
        )],
    });
    root.rules = vec![rule("root-only", "workspace", "workspace", "AGENTS.md", ".docpact/config.yaml", None, "root")];

    let mut child = empty_config(ConfigLayout::Repo);
    child.inherit = Some(InheritConfig { workspace_profile: "default".into() });
    child.overrides = Some(OverridesConfig {
        rules: RuleOverrides {
            add: vec![rule("local-extra", "repo", "sample-sdk", "src/payments/**", "docs/payments.md", None, "local")],
            replace: vec![rule("inherited-rule", "repo", "sample-sdk", "src/app/**", "docs/app.md", None, "replaced")],
            disable: Vec::new(),
        },
        coverage: Some(ScopedPatternOverride {
            mode: OverrideMode::Merge,
            includes: vec!["tests/**".into()],
            exclude: vec!["dist/**".into()],
        }),
        doc_inventory: Some(ScopedPatternOverride {
            mode: OverrideMode::Replace,
            includes: vec!["README.md".into()],
            exclude: Vec::new(),
        }),
        freshness: Some(FreshnessOverride {
            mode: OverrideMode::Replace,
            warn_after_commits: 21,
            warn_after_days: 34,
            critical_after_days: 55,
        }),
        routing: Some(RoutingOverride {
            mode: OverrideMode::Merge,
            intents: vec![intent("payments", &["src/payments/**"]), intent("shared", &["src/app/**"])],
        }),
    });

    let files = vec![file("", root), file("sample-sdk", child)];
    let effective = resolve_effective_configs(&files).expect("effective configs");
    assert_eq!(effective.len(), 2);
    let child = effective.iter().find(|e| e.base_dir == "sample-sdk").expect("child config should exist");
    let inheritance = child.inheritance.as_ref().expect("inheritance should exist");
    assert_eq!(inheritance.workspace_profile, "default");
    assert_eq!(child.coverage.coverage.includes, vec!["src/**", "tests/**"]);
    assert_eq!(child.coverage.coverage.exclude, vec!["dist/**"]);
    let shared = child.routing.routing.intents.iter().find(|(n, _)| n == "shared").expect("shared intent");
    assert_eq!(shared.1.paths, vec!["src/app/**"]);
    let payments = child.routing.routing.intents.iter().find(|(n, _)| n == "payments").expect("payments intent");
    assert_eq!(payments.1.paths, vec!["src/payments/**"]);
    assert_eq!(child.doc_inventory.doc_inventory.includes, vec!["README.md"]);
    assert_eq!(child.freshness.freshness.warn_after_commits, 21);
    assert_eq!(child.rules.len(), 2);
    assert_eq!(child.rules[0].rule.id, "inherited-rule");
    assert!(matches!(child.rules[0].provenance.origin_kind, RuleOriginKind::OverrideReplace));
    assert_eq!(child.rules[1].rule.id, "local-extra");
    assert!(matches!(child.rules[1].provenance.origin_kind, RuleOriginKind::OverrideAdd));
    assert_eq!(child.rules[0].config_source, "sample-sdk/.docpact/config.yaml");
    assert_eq!(child.rules[0].base_dir, "sample-sdk");
    assert_eq!(inheritance.routing_mode.as_deref(), Some("merge"));
}

#[test]
fn workspace_child_without_inherit_remains_local_repo_config() {
    let mut root = empty_config(ConfigLayout::Workspace);
    root.workspace = Some(WorkspaceSection { name: Some("demo".into()), profiles: Vec::new() });
    let mut child = empty_config(ConfigLayout::Repo);
    child.coverage = Some(CoverageConfig { includes: vec!["src/**".into()], exclude: Vec::new() });
    child.rules = vec![rule("repo-rule", "repo", "sample-sdk", "src/**", "docs/guide.md", None, "local")];

    let files = vec![file("", root), file("sample-sdk", child)];
    let effective = resolve_effective_configs(&files).expect("effective configs");
    let child = effective.iter().find(|e| e.base_dir == "sample-sdk").expect("child config should exist");
    assert!(child.inheritance.is_none());
    assert_eq!(child.coverage.coverage.includes, vec!["src/**"]);
    assert_eq!(child.rules[0].source, "sample-sdk/.docpact/config.yaml");
    assert!(matches!(child.rules[0].provenance.origin_kind, RuleOriginKind::RepoLocal));
}

#[test]
fn strict_validation_reports_invalid_inheritance_shapes() {
    let mut root = empty_config(ConfigLayout::Workspace);
    root.workspace = Some(WorkspaceSection {
        name: Some("demo".into()),
        profiles: vec![(
            "default".into(),
            WorkspaceProfile {
                coverage: None,
                freshness: None,
                routing: None,
                doc_inventory: None,
                rules: vec![rule("inherited-rule", "workspace", "workspace", "src/**", "docs/guide.md", None, "inherited")],
            },
        )],
    });
    let mut child = empty_config(ConfigLayout::Repo);
    child.inherit = Some(InheritConfig { workspace_profile: "default".into() });
    child.coverage = Some(CoverageConfig { includes: vec!["src/**".into()], exclude: Vec::new() });
    child.rules = vec![rule("illegal-local", "repo", "sample-sdk", "src/**", "docs/guide.md", None, "local")];
    child.overrides = Some(OverridesConfig {
        rules: RuleOverrides { add: Vec::new(), replace: Vec::new(), disable: Vec::new() },
        coverage: None,
        doc_inventory: None,
        freshness: Some(FreshnessOverride {
            mode: OverrideMode::Merge,
            warn_after_commits: 50,
            warn_after_days: 45,
            critical_after_days: 90,
        }),
        routing: None,
    });
    let files = vec![file("", root), file("sample-sdk", child)];
    let problems = validate_parsed_configs(&files);
    let messages = problems.iter().map(|p| format!("{}: {}", p.source, p.message)).collect::<Vec<_>>();
    assert!(messages
        .iter()
        .any(|m| m.contains("must not define top-level `coverage`; move it into `overrides.coverage`")));
    assert!(messages.iter().any(|m| m.contains("must not define top-level `rules`; use `overrides.rules`")));
    assert!(messages.iter().any(|m| m.contains("overrides.freshness only supports `mode: replace`")));
    assert!(resolve_effective_configs(&files).is_err());
}

#[test]
fn strict_validation_reports_duplicate_routing_intent_aliases() {
    let root = empty_config(ConfigLayout::Workspace);
    let mut a = empty_config(ConfigLayout::Repo);
    a.routing = Some(RoutingConfig { intents: vec![intent("payments", &["src/a/**"])] });
    let mut b = empty_config(ConfigLayout::Repo);
    b.routing = Some(RoutingConfig { intents: vec![intent("payments", &["src/b/**"])] });
    let files = vec![file("", root), file("a", a), file("b", b)];
    let effective = resolve_effective_configs(&files).expect("effective configs");
    let report = validate_config_report(
        true,
        &files,
        &effective,
        &catalog_configs(&files),
        &ownership_configs(&files),
        &[],
    );
    assert_eq!(report.summary.status, "fail");
    assert!(report
        .problems
        .iter()
        .any(|p| p.message.contains("routing intent alias `payments` is duplicated across configs")));
}

fn catalog_repo(id: &str, path: &str) -> CatalogRepo {
    CatalogRepo {
        id: id.into(),
        path: path.into(),
        canonical_repo: None,
        entry_doc: None,
        branch_policy_doc: None,
        workflow_docs: Vec::new(),
        integration_docs: Vec::new(),
        workspace_integration_required: false,
    }
}

fn owned(id: &str, patterns: &[&str], owner: &str, non_owners: &[&str]) -> OwnershipDomain {
    OwnershipDomain {
        id: id.into(),
        paths: OwnershipPaths { includes: patterns.iter().map(|p| p.to_string()).collect(), exclude: Vec::new() },
        owner_repo: owner.into(),
        non_owner_repos: non_owners.iter().map(|p| p.to_string()).collect(),
    }
}

#[test]
fn load_catalog_configs_normalizes_doc_pointers_and_repo_root() {
    let mut config = empty_config(ConfigLayout::Repo);
    let mut repo = catalog_repo("sample-sdk", ".");
    repo.canonical_repo = Some("  Biaoo/sample-sdk  ".into());
    repo.entry_doc = Some("./README.md".into());
    repo.branch_policy_doc = Some("docs/branch-policy.md".into());
    repo.workflow_docs = vec![
        "./docs/workflows/local-dev.md".into(),
        "docs/workflows/local-dev.md".into(),
        "docs/workflows/release.md".into(),
    ];
    repo.integration_docs =
        vec!["docs/workflows/workspace-integration.md".into(), "./docs/workflows/workspace-integration.md".into()];
    config.catalog = Some(CatalogConfig { repos: vec![repo] });
    let files = vec![file("", config)];
    let loaded = catalog_configs(&files);
    let repo = &loaded[0].catalog.repos[0];
    assert_eq!(repo.path, ".");
    assert_eq!(repo.canonical_repo.as_deref(), Some("Biaoo/sample-sdk"));
    assert_eq!(repo.entry_doc.as_deref(), Some("README.md"));
    assert_eq!(repo.workflow_docs, vec!["docs/workflows/local-dev.md", "docs/workflows/release.md"]);
    assert_eq!(repo.integration_docs, vec!["docs/workflows/workspace-integration.md"]);
}

#[test]
fn strict_validation_reports_invalid_catalog_pointers_and_overlapping_roots() {
    let mut root = empty_config(ConfigLayout::Workspace);
    let mut app = catalog_repo("app", "apps");
    app.entry_doc = Some("docs/*.md".into());
    root.catalog = Some(CatalogConfig { repos: vec![app, catalog_repo("nested", "apps/web")] });
    let mut child = empty_config(ConfigLayout::Repo);
    child.catalog = Some(CatalogConfig { repos: vec![catalog_repo("app", "services/api")] });
    let files = vec![file("", root), file("sample-sdk", child)];

    let graph_problems = validate_parsed_configs(&files);
    assert!(graph_problems
        .iter()
        .any(|p| p.message.contains("catalog.repos[0].entryDoc must be an exact document path, not a glob")));

    let loaded_problems = validate_loaded_catalog_configs(&catalog_configs(&files));
    let messages = loaded_problems.iter().map(|p| p.message.as_str()).collect::<Vec<_>>();
    assert!(messages.iter().any(|m| m.contains("catalog repo id `app` is duplicated across configs")));
    assert!(messages.iter().any(|m| m.contains("catalog repo path `apps` overlaps with `apps/web`")));
    assert!(messages.iter().any(|m| m.contains("catalog repo path `apps/web` overlaps with `apps`")));
}

#[test]
fn load_ownership_configs_normalizes_patterns_and_repo_references() {
    let mut config = empty_config(ConfigLayout::Repo);
    config.ownership = Some(OwnershipConfig {
        domains: vec![OwnershipDomain {
            id: " payments ".into(),
            paths: OwnershipPaths {
                includes: vec!["./src/payments/**".into(), "src/payments/**".into()],
                exclude: vec!["./src/payments/generated/**".into()],
            },
            owner_repo: " sample-sdk ".into(),
            non_owner_repos: vec!["edge".into(), "edge".into(), "next".into()],
        }],
    });
    let files = vec![file("", config)];
    let loaded = ownership_configs(&files);
    let domain = &loaded[0].ownership.domains[0];
    assert_eq!(domain.id, "payments");
    assert_eq!(domain.paths.includes, vec!["src/payments/**"]);
    assert_eq!(domain.paths.exclude, vec!["src/payments/generated/**"]);
    assert_eq!(domain.owner_repo, "sample-sdk");
    assert_eq!(domain.non_owner_repos, vec!["edge", "next"]);
}

#[test]
fn strict_validation_reports_invalid_ownership_references_and_duplicate_ids() {
    let mut root = empty_config(ConfigLayout::Workspace);
    root.catalog = Some(CatalogConfig { repos: vec![catalog_repo("app", "apps/app"), catalog_repo("web", "apps/web")] });
    root.ownership = Some(OwnershipConfig {
        domains: vec![owned("payments", &["src/***"], "app", &["app", "missing"]), owned("checkout", &[], "missing", &[])],
    });
    let mut child = empty_config(ConfigLayout::Repo);
    child.ownership = Some(OwnershipConfig { domains: vec![owned("payments", &["src/web/**"], "web", &[])] });
    let files = vec![file("", root), file("sample-sdk", child)];

    let graph_problems = validate_parsed_configs(&files);
    assert!(graph_problems
        .iter()
        .any(|p| p.message.contains("ownership.domains[0].paths.include[0] contains malformed glob segment")));
    assert!(graph_problems.iter().any(|p| p
        .message
        .contains("ownership domain `payments` must not list ownerRepo `app` inside nonOwnerRepos")));
    assert!(graph_problems
        .iter()
        .any(|p| p.message.contains("ownership.domains[1].paths.include must define at least one path")));

    let loaded_problems = validate_loaded_ownership_configs(&ownership_configs(&files), &catalog_configs(&files));
    let messages = loaded_problems.iter().map(|p| p.message.as_str()).collect::<Vec<_>>();
    assert!(messages.iter().any(|m| m.contains("ownership domain `payments` references unknown nonOwnerRepo `missing`")));
    assert!(messages.iter().any(|m| m.contains("ownership domain `checkout` references unknown ownerRepo `missing`")));
    assert!(messages.iter().any(|m| m.contains("ownership domain id `payments` is duplicated across configs")));
}

#[test]
fn ownership_analysis_reports_conflicts_and_overlaps_and_selects_most_specific_domain() {
    let mut root = empty_config(ConfigLayout::Workspace);
    root.ownership = Some(OwnershipConfig {
        domains: vec![
            owned("broad-root", &["service/src/**"], "app", &[]),
            owned("payments-specific", &["service/src/payments/**"], "app", &[]),
            owned("conflicts", &["service/src/conflict/**"], "edge", &[]),
        ],
    });
    let mut child = empty_config(ConfigLayout::Repo);
    child.ownership = Some(OwnershipConfig { domains: vec![owned("child-conflict", &["src/conflict/**"], "web", &[])] });
    let files = vec![file("", root), file("service", child)];
    let analysis = analyze_ownership_paths(
        &["service/src/payments/charge.ts".to_string(), "service/src/conflict/index.ts".to_string()],
        &ownership_configs(&files),
    );
    assert_eq!(analysis.overlaps.len(), 1);
    assert_eq!(analysis.conflicts.len(), 1);
    assert_eq!(analysis.overlaps[0].selected_domain_id, "payments-specific");
    assert_eq!(analysis.conflicts[0].owner_repos, vec!["app", "edge", "web"]);
    let selected = analysis
        .paths
        .iter()
        .find(|entry| entry.path == "service/src/payments/charge.ts")
        .expect("payments path should exist");
    assert_eq!(selected.selected.domain_id, "payments-specific");
    let conflict_problems = validate_ownership_path_conflicts(&analysis);
    assert!(conflict_problems.iter().any(|p| p.message.contains("tracked path `service/src/conflict/index.ts`")));
    assert!(conflict_problems.iter().any(|p| p.message.contains("conflicting ownerRepos are present: app, edge, web")));
}

#[test]
fn duplicate_effective_rule_ids_still_report_in_strict_validation() {
    let mut root = empty_config(ConfigLayout::Workspace);
    root.rules = vec![rule("duplicate-rule", "workspace", "workspace", "AGENTS.md", ".docpact/config.yaml", None, "root")];
    let mut child = empty_config(ConfigLayout::Repo);
    child.rules = vec![rule("duplicate-rule", "repo", "subrepo", "src/**", "docs/guide.md", None, "repo")];
    let files = vec![file("", root), file("subrepo", child)];
    let loaded = impact_rules(&resolve_effective_configs(&files).expect("rules should load"));
    let problems = validate_loaded_rules(&loaded);
    assert!(problems.iter().any(|p| p.message.contains("duplicate rule id `duplicate-rule`")));
}

fn invalid_rule(id: &str) -> Rule {
    rule(id, "repo", "example", "src/***", "docs/*.md", Some("invalid_mode"), "example")
}

fn strict_report(strict: bool, rules: Vec<Rule>) -> docpact::validate_config::ValidateConfigReport {
    let mut config = empty_config(ConfigLayout::Repo);
    config.rules = rules;
    let files = vec![file("", config)];
    let effective = resolve_effective_configs(&files).expect("config loads");
    validate_config_report(strict, &files, &effective, &catalog_configs(&files), &ownership_configs(&files), &[])
}

#[test]
fn strict_validate_config_returns_lint_failure_for_invalid_rules() {
    let second = Rule {
        id: "duplicate-rule".into(),
        scope: "repo".into(),
        repo: "example".into(),
        triggers: Vec::new(),
        required_docs: Vec::new(),
        reason: "second".into(),
    };
    let report = strict_report(true, vec![invalid_rule("duplicate-rule"), second]);
    assert_eq!(report.summary.status, "fail");
}

#[test]
fn non_strict_validate_config_remains_compatible() {
    let report = strict_report(false, vec![invalid_rule("compatibility-check")]);
    assert_eq!(report.summary.status, "ok");
}

#[test]
fn strict_validate_config_returns_json_ready_report() {
    let report = strict_report(true, vec![invalid_rule("invalid")]);
    let rendered = render_text_report(&report);
    assert_eq!(report.schema_version, VALIDATE_CONFIG_SCHEMA_VERSION);
    assert_eq!(report.command, "validate-config");
    assert_eq!(report.summary.status, "fail");
    assert_eq!(report.problems[0].code, "invalid-config");
    assert!(rendered.contains("Docpact validate-config: failed"));
    assert!(rendered.contains("Next: fix the config entries above"));
}

#[test]
fn strict_validate_config_fails_for_tracked_path_ownership_conflicts() {
    let mut config = empty_config(ConfigLayout::Repo);
    config.catalog = Some(CatalogConfig { repos: vec![catalog_repo("app", "."), catalog_repo("edge", "edge")] });
    config.ownership = Some(OwnershipConfig {
        domains: vec![owned("app-domain", &["src/**"], "app", &[]), owned("edge-domain", &["src/conflict/**"], "edge", &[])],
    });
    let files = vec![file("", config)];
    let effective = resolve_effective_configs(&files).expect("config loads");
    let listed = vec![".docpact/config.yaml".to_string(), "src/conflict/index.ts".to_string()];
    let report =
        validate_config_report(true, &files, &effective, &catalog_configs(&files), &ownership_configs(&files), &listed);
    assert_eq!(report.summary.status, "fail");
    assert!(report.problems.iter().any(|p| p.message.contains("tracked path `src/conflict/index.ts`")));
}

#[test]
fn list_rules_reports_workspace_rules_with_repo_relative_paths() {
    let service_rule = |scope: &str, repo: &str| {
        rule("service-docs", scope, repo, "src/**", "docs/service.md", None, "Keep service docs aligned.")
    };
    let mut root = empty_config(ConfigLayout::Workspace);
    root.workspace = Some(WorkspaceSection {
        name: Some("demo".into()),
        profiles: vec![(
            "default".into(),
            WorkspaceProfile {
                coverage: None,
                freshness: None,
                routing: None,
                doc_inventory: None,
                rules: vec![service_rule("workspace", "workspace")],
            },
        )],
    });
    root.rules = vec![rule("root-only", "workspace", "workspace", "AGENTS.md", ".docpact/config.yaml", None, "Root rule.")];
    let mut service = empty_config(ConfigLayout::Repo);
    service.inherit = Some(InheritConfig { workspace_profile: "default".into() });
    service.overrides = Some(OverridesConfig {
        rules: RuleOverrides { add: Vec::new(), replace: vec![service_rule("repo", "service")], disable: Vec::new() },
        coverage: None,
        doc_inventory: None,
        freshness: None,
        routing: None,
    });
    let files = vec![file("", root), file("service", service)];
    let effective = resolve_effective_configs(&files).expect("effective configs");
    let report = list_rules_report(&impact_rules(&effective));
    assert_eq!(report.rule_count, 2);
    let inherited = report.rules.iter().find(|r| r.id == "service-docs").expect("inherited rule should exist");
    assert_eq!(inherited.rule_source, "service/.docpact/config.yaml#overrides.rules.replace.service-docs");
    assert_eq!(inherited.config_source, "service/.docpact/config.yaml");
    assert_eq!(inherited.provenance_kind, "override-replace");
    assert_eq!(inherited.workspace_profile.as_deref(), Some("default"));
    assert_eq!(inherited.base_dir, "service");
    assert_eq!(inherited.triggers[0].path, "service/src/**");
    assert_eq!(inherited.required_docs[0].path, "service/docs/service.md");
    assert_eq!(inherited.required_docs[0].mode, "review_or_update");
    let root_rule = report.rules.iter().find(|r| r.id == "root-only").expect("root rule should exist");
    assert_eq!(root_rule.rule_source, ".docpact/config.yaml");
    assert_eq!(root_rule.provenance_kind, "root-local");
}
