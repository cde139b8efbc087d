use docpact::baseline::{check_baseline_schema, BaselineFile};
use docpact::cli::LintMode;
use docpact::config::model::{ConfigLayout, ImpactLayout};
use docpact::config::paths::{layout_from_config, path_is_absolute, path_relative_to, relative_or_whole, workspace_repo_config};
use docpact::doctor::display_config_source;
use docpact::git::{
    dedup, is_missing_path_error, parse_file_list, parse_name_only, select_changed_paths_source,
    select_comparison_source, DiffSource,
};
use docpact::reporters::{annotation_lines, render_problems_text, Problem};
use docpact::waiver::{
    add_waiver, default_waiver_file, is_expired, non_empty_field, normalized_rule_ids, normalized_scope_paths,
    WaiverRecord, WaiverScope,
};
use docpact::baseline::BaselineFingerprint;

fn fp(problem_type: &str, path: &str) -> BaselineFingerprint {
    BaselineFingerprint {
        problem_type: problem_type.into(),
        path: path.into(),
        rule_id: "r".into(),
        required_mode: None,
        failure_reason: "required_doc_not_touched".into(),
        rule_source: None,
    }
}

fn waiver(problem_type: &str, path: &str, owner: &str) -> WaiverRecord {
    WaiverRecord {
        fingerprint: fp(problem_type, path),
        reason: "legacy".into(),
        owner: owner.into(),
        expires_at: "2026-05-01".into(),
        scope: WaiverScope { rule_ids: Vec::new(), paths: Vec::new() },
    }
}

#[test]
fn file_list_is_trimmed_normalized_and_deduplicated() {
    assert_eq!(
        parse_file_list(" ./src/a.ts, src\\b.ts ,, src/a.ts"),
        vec!["src/a.ts".to_string(), "src/b.ts".to_string()]
    );
}

#[test]
fn name_only_output_keeps_first_occurrences() {
    assert_eq!(
        parse_name_only("docs/b.md\n  docs/a.md\r\n\ndocs/b.md\n"),
        vec!["docs/b.md".to_string(), "docs/a.md".to_string()]
    );
    assert_eq!(dedup(vec!["x".into(), "y".into(), "x".into()]), vec!["x".to_string(), "y".to_string()]);
}

#[test]
fn diff_source_follows_option_precedence() {
    assert_eq!(select_changed_paths_source(true, true, false, false, false), Ok(DiffSource::Files));
    assert_eq!(select_changed_paths_source(false, false, true, true, true), Ok(DiffSource::Worktree));
    assert_eq!(select_changed_paths_source(false, false, false, false, true), Ok(DiffSource::Range));
    assert_eq!(select_comparison_source(true, true, false, false, false), Ok(DiffSource::Staged));
    assert_eq!(select_comparison_source(true, false, false, true, false), Ok(DiffSource::Worktree));
    assert_eq!(
        select_changed_paths_source(false, false, false, false, false),
        Err("Pass either --files, --staged, --worktree, --merge-base <ref>, or both --base and --head.".to_string())
    );
}

#[test]
fn missing_path_errors_are_recognized() {
    assert!(is_missing_path_error("fatal: path 'docs/a.md' does not exist in 'HEAD'"));
    assert!(is_missing_path_error("fatal: path 'docs/a.md' is in the index, but not in the index"));
    assert!(is_missing_path_error("fatal: bad revision 'abc'"));
    assert!(!is_missing_path_error("fatal: not a git repository"));
}

#[test]
fn paths_relative_to_root() {
    assert_eq!(path_relative_to("/work/repo", "/work/repo/.docpact/config.yaml"), ".docpact/config.yaml");
    assert_eq!(path_relative_to("/work/repo", "/elsewhere/config.yaml"), "/elsewhere/config.yaml");
    assert_eq!(relative_or_whole("/x/y", Some("a//b".to_string())), "a/b");
    assert!(path_is_absolute("/a"));
    assert!(!path_is_absolute("a/b"));
    assert_eq!(display_config_source("/work/repo", "/work/repo/custom.yaml"), "custom.yaml");
    assert_eq!(display_config_source("/work/repo", "./custom.yaml"), "custom.yaml");
}

#[test]
fn workspace_children_and_layouts() {
    assert_eq!(workspace_repo_config("sample-sdk"), Some("sample-sdk/.docpact/config.yaml".to_string()));
    assert_eq!(workspace_repo_config(".git"), None);
    assert_eq!(layout_from_config(ConfigLayout::Workspace), ImpactLayout::Workspace);
    assert_eq!(layout_from_config(ConfigLayout::Repo), ImpactLayout::Repo);
}

#[test]
fn waiver_fields_and_scope_are_normalized() {
    assert_eq!(
        normalized_rule_ids(&[" b ".into(), "a".into(), "  ".into(), "b".into()]),
        vec!["a".to_string(), "b".to_string()]
    );
    assert_eq!(non_empty_field("owner", "  docs-team "), Ok("docs-team".to_string()));
    assert_eq!(non_empty_field("reason", "   "), Err("--reason cannot be empty".to_string()));
    assert_eq!(
        normalized_scope_paths("/work/repo", &["/work/repo/docs/a.md".into(), "./docs/b.md".into()]),
        Ok(vec!["docs/a.md".to_string(), "docs/b.md".to_string()])
    );
    assert_eq!(
        normalized_scope_paths("/work/repo", &["/other/docs/a.md".into()]),
        Err("scope path /other/docs/a.md is outside root /work/repo".to_string())
    );
    assert!(is_expired("2026-04-21", "2026-04-20"));
    assert!(!is_expired("2026-04-21", "2026-04-21"));
}

#[test]
fn adding_waivers_keeps_them_sorted_and_unique() {
    let mut file = default_waiver_file();
    assert!(add_waiver(&mut file, waiver("missing-review", "docs/b.md", "x")));
    assert!(add_waiver(&mut file, waiver("missing-review", "docs/a.md", "x")));
    assert!(!add_waiver(&mut file, waiver("missing-review", "docs/a.md", "x")));
    assert_eq!(file.waiver_count, 2);
    assert_eq!(file.waivers[0].fingerprint.path, "docs/a.md");
    assert_eq!(file.waivers[1].fingerprint.path, "docs/b.md");
}

#[test]
fn baseline_schema_is_checked() {
    let baseline = BaselineFile {
        schema_version: "docpact.baseline.v0".into(),
        tool_name: "docpact".into(),
        tool_version: "0.1.0".into(),
        generated_at: "0".into(),
        fingerprint_count: 0,
        fingerprints: Vec::new(),
    };
    assert_eq!(
        check_baseline_schema(&baseline, "base.json"),
        Err("unsupported baseline schema `docpact.baseline.v0` in base.json".to_string())
    );
}

#[test]
fn lint_text_and_annotations() {
    let problems = vec![Problem::missing_review("docs/api.md".into(), "not touched".into())];
    assert_eq!(
        render_problems_text(&problems, LintMode::Enforce),
        "AI doc lint found blocking problems:\n- [missing-review] docs/api.md: not touched\n"
    );
    assert_eq!(render_problems_text(&[], LintMode::Warn), "AI doc lint: no problems found.\n");
    assert_eq!(annotation_lines(&problems, LintMode::Warn), vec!["::warning file=docs/api.md::not touched".to_string()]);
}
