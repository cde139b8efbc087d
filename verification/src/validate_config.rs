//! The validate-config report: in strict mode, every graph, rule, block and ownership
//! problem of a config graph, sorted; otherwise only that the graph loads.
use vstd::prelude::*;
use vstd::seq_lib::lemma_multiset_commutative;
use crate::config::copy::{copy_loaded_coverage, copy_loaded_doc_inventory, copy_loaded_freshness, copy_loaded_routing};
use crate::config::crosscheck::{
    catalog_entries, domain_entries, known_ids, loaded_catalog_problems, loaded_ownership_problems,
    loaded_routing_problems, routing_entries, validate_loaded_catalog_configs,
    validate_loaded_ownership_configs, validate_loaded_routing_configs,
};
use crate::config::effective::{all_rules, effective_views, impact_rules};
use crate::config::graphcheck::{files_problems, root_profiles, validate_parsed_configs};
use crate::config::model::{
    ConfigValidationProblem, EffectiveConfig, EffectiveView, FreshnessConfig, LoadedCatalogConfig,
    LoadedCoverageConfig, LoadedDocInventoryConfig, LoadedFreshnessConfig, LoadedOwnershipConfig,
    LoadedRoutingConfig, ParsedImpactFile, ProblemView, loaded_views, opt_view, problem_views,
};
use crate::config::ownership::{analysis_of, analyze_ownership_paths, conflict_problems, owner_entries, validate_ownership_path_conflicts};
use crate::config::problems::{is_sorted_problems_of, problems_sorted, sort_problems};
use crate::config::validate::{
    blocks_problems, coverage_views, doc_inventory_views, freshness_list_problems, freshness_views,
    loaded_rules_problems, validate_loaded_coverage_configs, validate_loaded_doc_inventory_configs,
    validate_loaded_freshness_configs, validate_loaded_rules,
};
use crate::doctor::{count_ownership_domains, total_domains};
use crate::reporters::{TOOL_NAME, TOOL_VERSION, WarningView};
use crate::text::{decimal, decimal_string, join, join_strings, str_eq, str_to_string, views};

verus! {

/// The schema version of validate-config reports.
pub const VALIDATE_CONFIG_SCHEMA_VERSION: &'static str = "docpact.validate-config.v1";

/// The validate-config report.
#[derive(Debug)]
pub struct ValidateConfigReport {
    pub schema_version: String,
    pub tool_name: String,
    pub tool_version: String,
    pub command: String,
    pub summary: ValidateConfigSummary,
    pub warnings: Vec<ValidateConfigWarning>,
    pub problems: Vec<ValidateConfigProblem>,
}

/// The outcome of a validation.
#[derive(Debug)]
pub struct ValidateConfigSummary {
    pub status: String,
    pub strict: bool,
    pub rule_count: usize,
    pub problem_count: usize,
}

/// A warning of a validation.
#[derive(Debug)]
pub struct ValidateConfigWarning {
    pub code: String,
    pub message: String,
}

/// A problem found by a validation.
#[derive(Debug)]
pub struct ValidateConfigProblem {
    pub code: String,
    pub source: String,
    pub rule_id: Option<String>,
    pub message: String,
}

/// The view of a reported problem.
pub struct ReportedProblemView {
    pub code: Seq<char>,
    pub source: Seq<char>,
    pub rule_id: Option<Seq<char>>,
    pub message: Seq<char>,
}

impl View for ValidateConfigProblem {
    type V = ReportedProblemView;

    open spec fn view(&self) -> ReportedProblemView {
        ReportedProblemView { code: self.code@, source: self.source@, rule_id: opt_view(self.rule_id), message: self.message@ }
    }
}

impl View for ValidateConfigWarning {
    type V = WarningView;

    open spec fn view(&self) -> WarningView {
        WarningView { code: self.code@, message: self.message@ }
    }
}

/// The views of reported problems.
pub open spec fn reported_views(v: Seq<ValidateConfigProblem>) -> Seq<ReportedProblemView> {
    v.map_values(|p: ValidateConfigProblem| p@)
}

/// The validation problem a reported problem carries.
pub open spec fn carried(p: ReportedProblemView) -> ProblemView {
    ProblemView { source: p.source, rule_id: p.rule_id, message: p.message }
}

/// The coverage blocks of the effective configs, as the coverage check reads them.
pub open spec fn effective_coverage(e: Seq<EffectiveView>) -> Seq<(Seq<char>, Seq<Seq<char>>, Seq<Seq<char>>)> {
    e.map_values(|x: EffectiveView| (x.coverage.source, x.coverage.block.includes, x.coverage.block.exclude))
}

/// The doc inventory blocks of the effective configs, as the inventory check reads them.
pub open spec fn effective_inventory(e: Seq<EffectiveView>) -> Seq<(Seq<char>, Seq<Seq<char>>, Seq<Seq<char>>)> {
    e.map_values(
        |x: EffectiveView| (x.doc_inventory.source, x.doc_inventory.block.includes, x.doc_inventory.block.exclude),
    )
}

/// The freshness blocks of the effective configs.
pub open spec fn effective_freshness(e: Seq<EffectiveView>) -> Seq<(Seq<char>, FreshnessConfig)> {
    e.map_values(|x: EffectiveView| (x.freshness.source, x.freshness.freshness))
}

/// The routing blocks of the effective configs.
pub open spec fn effective_routing(e: Seq<EffectiveView>) -> Seq<(Seq<char>, Seq<(Seq<char>, Seq<Seq<char>>)>)> {
    e.map_values(|x: EffectiveView| (x.routing.source, x.routing.intents))
}

/// Every problem strict validation finds: those of the parsed graph, of the effective
/// rules, of the coverage, freshness, routing and doc inventory blocks, of the catalog
/// and ownership blocks across configs, and, when some domain is declared, the
/// ownership conflicts among the tracked paths.
pub open spec fn strict_problems(
    parsed: Seq<ParsedImpactFile>,
    e: Seq<EffectiveView>,
    c: Seq<LoadedCatalogConfig>,
    o: Seq<LoadedOwnershipConfig>,
    paths: Seq<Seq<char>>,
) -> Seq<ProblemView> {
    files_problems(parsed, root_profiles(parsed)) + loaded_rules_problems(all_rules(e)) + blocks_problems(
        effective_coverage(e),
        "coverage"@,
    ) + freshness_list_problems(effective_freshness(e)) + loaded_routing_problems(effective_routing(e))
        + blocks_problems(effective_inventory(e), "docInventory"@) + loaded_catalog_problems(catalog_entries(c))
        + loaded_ownership_problems(domain_entries(o), known_ids(catalog_entries(c))) + if total_domains(o) > 0 {
        conflict_problems(analysis_of(paths, owner_entries(o)).paths)
    } else {
        Seq::empty()
    }
}

/// The warning of a validation that skipped the strict checks.
pub open spec fn skipped_warning() -> WarningView {
    WarningView {
        code: "strict-validation-skipped"@,
        message: "default mode only checks that effective config loads; use --strict for graph and ownership checks"@,
    }
}

proof fn lemma_append_multiset(a: Seq<ProblemView>, r: Seq<ProblemView>, s: Seq<ProblemView>, t: Seq<ProblemView>)
    requires
        a.to_multiset() == s.to_multiset(),
        r.to_multiset() == t.to_multiset(),
    ensures
        (a + r).to_multiset() == (s + t).to_multiset(),
{
    lemma_multiset_commutative(a, r);
    lemma_multiset_commutative(s, t);
}

fn append_problems(acc: &mut Vec<ConfigValidationProblem>, more: Vec<ConfigValidationProblem>)
    ensures
        problem_views(final(acc)@) == problem_views(old(acc)@) + problem_views(more@),
{
    let ghost a = problem_views(acc@);
    let mut m = more;
    let ghost mv = problem_views(m@);
    acc.append(&mut m);
    proof {
        assert(problem_views(acc@) =~= a + mv);
    }
}

fn coverage_blocks(effective_configs: &Vec<EffectiveConfig>) -> (r: Vec<LoadedCoverageConfig>)
    ensures
        coverage_views(r@) == effective_coverage(effective_views(effective_configs@)),
{
    let ghost target = effective_coverage(effective_views(effective_configs@));
    let mut r: Vec<LoadedCoverageConfig> = Vec::new();
    let mut i: usize = 0;
    while i < effective_configs.len()
        invariant
            i <= effective_configs.len(),
            target == effective_coverage(effective_views(effective_configs@)),
            coverage_views(r@) == target.take(i as int),
        decreases effective_configs.len() - i,
    {
        let ghost prev = coverage_views(r@);
        r.push(copy_loaded_coverage(&effective_configs[i].coverage));
        proof {
            assert(coverage_views(r@) =~= prev.push(target[i as int]));
            assert(target.take(i + 1) =~= prev.push(target[i as int]));
        }
        i += 1;
    }
    proof {
        assert(target.take(i as int) =~= target);
    }
    r
}

fn inventory_blocks(effective_configs: &Vec<EffectiveConfig>) -> (r: Vec<LoadedDocInventoryConfig>)
    ensures
        doc_inventory_views(r@) == effective_inventory(effective_views(effective_configs@)),
{
    let ghost target = effective_inventory(effective_views(effective_configs@));
    let mut r: Vec<LoadedDocInventoryConfig> = Vec::new();
    let mut i: usize = 0;
    while i < effective_configs.len()
        invariant
            i <= effective_configs.len(),
            target == effective_inventory(effective_views(effective_configs@)),
            doc_inventory_views(r@) == target.take(i as int),
        decreases effective_configs.len() - i,
    {
        let ghost prev = doc_inventory_views(r@);
        r.push(copy_loaded_doc_inventory(&effective_configs[i].doc_inventory));
        proof {
            assert(doc_inventory_views(r@) =~= prev.push(target[i as int]));
            assert(target.take(i + 1) =~= prev.push(target[i as int]));
        }
        i += 1;
    }
    proof {
        assert(target.take(i as int) =~= target);
    }
    r
}

fn freshness_blocks(effective_configs: &Vec<EffectiveConfig>) -> (r: Vec<LoadedFreshnessConfig>)
    ensures
        freshness_views(r@) == effective_freshness(effective_views(effective_configs@)),
{
    let ghost target = effective_freshness(effective_views(effective_configs@));
    let mut r: Vec<LoadedFreshnessConfig> = Vec::new();
    let mut i: usize = 0;
    while i < effective_configs.len()
        invariant
            i <= effective_configs.len(),
            target == effective_freshness(effective_views(effective_configs@)),
            freshness_views(r@) == target.take(i as int),
        decreases effective_configs.len() - i,
    {
        let ghost prev = freshness_views(r@);
        r.push(copy_loaded_freshness(&effective_configs[i].freshness));
        proof {
            assert(freshness_views(r@) =~= prev.push(target[i as int]));
            assert(target.take(i + 1) =~= prev.push(target[i as int]));
        }
        i += 1;
    }
    proof {
        assert(target.take(i as int) =~= target);
    }
    r
}

fn routing_blocks(effective_configs: &Vec<EffectiveConfig>) -> (r: Vec<LoadedRoutingConfig>)
    ensures
        routing_entries(r@) == effective_routing(effective_views(effective_configs@)),
{
    let ghost target = effective_routing(effective_views(effective_configs@));
    let mut r: Vec<LoadedRoutingConfig> = Vec::new();
    let mut i: usize = 0;
    while i < effective_configs.len()
        invariant
            i <= effective_configs.len(),
            target == effective_routing(effective_views(effective_configs@)),
            routing_entries(r@) == target.take(i as int),
        decreases effective_configs.len() - i,
    {
        let ghost prev = routing_entries(r@);
        r.push(copy_loaded_routing(&effective_configs[i].routing));
        proof {
            assert(routing_entries(r@) =~= prev.push(target[i as int]));
            assert(target.take(i + 1) =~= prev.push(target[i as int]));
        }
        i += 1;
    }
    proof {
        assert(target.take(i as int) =~= target);
    }
    r
}

/// Every strict validation problem, sorted by source, rule id and message.
pub fn strict_validation_problems(
    parsed_files: &Vec<ParsedImpactFile>,
    effective_configs: &Vec<EffectiveConfig>,
    catalog_configs: &[LoadedCatalogConfig],
    ownership_configs: &[LoadedOwnershipConfig],
    tracked_paths: &[String],
) -> (r: Vec<ConfigValidationProblem>)
    requires
        total_domains(ownership_configs@) <= usize::MAX,
    ensures
        is_sorted_problems_of(
            problem_views(r@),
            strict_problems(
                parsed_files@,
                effective_views(effective_configs@),
                catalog_configs@,
                ownership_configs@,
                views(tracked_paths@),
            ),
        ),
{
    let ghost ev = effective_views(effective_configs@);
    let mut problems = validate_parsed_configs(parsed_files);
    let ghost s1 = files_problems(parsed_files@, root_profiles(parsed_files@));
    let rules = impact_rules(effective_configs);
    let ghost a1 = problem_views(problems@);
    let p2 = validate_loaded_rules(rules.as_slice());
    let ghost s2 = loaded_rules_problems(all_rules(ev));
    proof {
        lemma_append_multiset(a1, problem_views(p2@), s1, s2);
    }
    append_problems(&mut problems, p2);
    let ghost a2 = problem_views(problems@);
    let coverage = coverage_blocks(effective_configs);
    let p3 = validate_loaded_coverage_configs(coverage.as_slice());
    let ghost s3 = blocks_problems(effective_coverage(ev), "coverage"@);
    proof {
        lemma_append_multiset(a2, problem_views(p3@), s1 + s2, s3);
    }
    append_problems(&mut problems, p3);
    let ghost a3 = problem_views(problems@);
    let freshness = freshness_blocks(effective_configs);
    let p4 = validate_loaded_freshness_configs(freshness.as_slice());
    let ghost s4 = freshness_list_problems(effective_freshness(ev));
    proof {
        lemma_append_multiset(a3, problem_views(p4@), s1 + s2 + s3, s4);
    }
    append_problems(&mut problems, p4);
    let ghost a4 = problem_views(problems@);
    let routing = routing_blocks(effective_configs);
    let p5 = validate_loaded_routing_configs(routing.as_slice());
    let ghost s5 = loaded_routing_problems(effective_routing(ev));
    proof {
        lemma_append_multiset(a4, problem_views(p5@), s1 + s2 + s3 + s4, s5);
    }
    append_problems(&mut problems, p5);
    let ghost a5 = problem_views(problems@);
    let inventory = inventory_blocks(effective_configs);
    let p6 = validate_loaded_doc_inventory_configs(inventory.as_slice());
    let ghost s6 = blocks_problems(effective_inventory(ev), "docInventory"@);
    proof {
        lemma_append_multiset(a5, problem_views(p6@), s1 + s2 + s3 + s4 + s5, s6);
    }
    append_problems(&mut problems, p6);
    let ghost a6 = problem_views(problems@);
    let p7 = validate_loaded_catalog_configs(catalog_configs);
    let ghost s7 = loaded_catalog_problems(catalog_entries(catalog_configs@));
    proof {
        lemma_append_multiset(a6, problem_views(p7@), s1 + s2 + s3 + s4 + s5 + s6, s7);
    }
    append_problems(&mut problems, p7);
    let ghost a7 = problem_views(problems@);
    let p8 = validate_loaded_ownership_configs(ownership_configs, catalog_configs);
    let ghost s8 = loaded_ownership_problems(domain_entries(ownership_configs@), known_ids(catalog_entries(catalog_configs@)));
    proof {
        lemma_append_multiset(a7, problem_views(p8@), s1 + s2 + s3 + s4 + s5 + s6 + s7, s8);
    }
    append_problems(&mut problems, p8);
    let ghost a8 = problem_views(problems@);
    let ghost before = s1 + s2 + s3 + s4 + s5 + s6 + s7 + s8;
    if count_ownership_domains(ownership_configs) > 0 {
        let analysis = analyze_ownership_paths(tracked_paths, ownership_configs);
        let p9 = validate_ownership_path_conflicts(&analysis);
        let ghost s9 = conflict_problems(analysis_of(views(tracked_paths@), owner_entries(ownership_configs@)).paths);
        proof {
            lemma_append_multiset(a8, problem_views(p9@), before, s9);
        }
        append_problems(&mut problems, p9);
    } else {
        proof {
            assert(before + Seq::<ProblemView>::empty() =~= before);
        }
    }
    sort_problems(problems)
}

fn report_problem(p: &ConfigValidationProblem) -> (r: ValidateConfigProblem)
    ensures
        r@.code == "invalid-config"@,
        carried(r@) == p@,
{
    ValidateConfigProblem {
        code: str_to_string("invalid-config"),
        source: p.source.clone(),
        rule_id: p.rule_id.clone(),
        message: p.message.clone(),
    }
}

/// The validate-config report. In strict mode its problems are the strict validation
/// problems, sorted, each with code `invalid-config`, and its status is `fail` when
/// there is any; otherwise it reports no problem, status `ok`, and the
/// `strict-validation-skipped` warning. `rule_count` counts the effective rules.
pub fn validate_config_report(
    strict: bool,
    parsed_files: &Vec<ParsedImpactFile>,
    effective_configs: &Vec<EffectiveConfig>,
    catalog_configs: &[LoadedCatalogConfig],
    ownership_configs: &[LoadedOwnershipConfig],
    tracked_paths: &[String],
) -> (r: ValidateConfigReport)
    requires
        total_domains(ownership_configs@) <= usize::MAX,
    ensures
        r.schema_version@ == VALIDATE_CONFIG_SCHEMA_VERSION@,
        r.tool_name@ == TOOL_NAME@,
        r.tool_version@ == TOOL_VERSION@,
        r.command@ == "validate-config"@,
        r.summary.strict == strict,
        r.summary.rule_count == all_rules(effective_views(effective_configs@)).len(),
        r.summary.problem_count == r.problems@.len(),
        r.summary.status@ == (if r.problems@.len() == 0 {
            "ok"@
        } else {
            "fail"@
        }),
        forall|i: int| 0 <= i < r.problems@.len() ==> (#[trigger] r.problems@[i])@.code == "invalid-config"@,
        strict ==> is_sorted_problems_of(
            reported_views(r.problems@).map_values(|p: ReportedProblemView| carried(p)),
            strict_problems(
                parsed_files@,
                effective_views(effective_configs@),
                catalog_configs@,
                ownership_configs@,
                views(tracked_paths@),
            ),
        ),
        strict ==> r.warnings@.len() == 0,
        !strict ==> r.problems@.len() == 0,
        !strict ==> r.warnings@.map_values(|w: ValidateConfigWarning| w@) == seq![skipped_warning()],
{
    let rules = impact_rules(effective_configs);
    let rule_count = rules.len();
    let mut warnings: Vec<ValidateConfigWarning> = Vec::new();
    let mut problems: Vec<ValidateConfigProblem> = Vec::new();
    if !strict {
        warnings.push(
            ValidateConfigWarning {
                code: str_to_string("strict-validation-skipped"),
                message: str_to_string(
                    "default mode only checks that effective config loads; use --strict for graph and ownership checks",
                ),
            },
        );
        proof {
            assert(warnings@.map_values(|w: ValidateConfigWarning| w@) =~= seq![skipped_warning()]);
        }
    } else {
        let found = strict_validation_problems(
            parsed_files,
            effective_configs,
            catalog_configs,
            ownership_configs,
            tracked_paths,
        );
        let ghost fv = problem_views(found@);
        let mut i: usize = 0;
        while i < found.len()
            invariant
                i <= found.len(),
                fv == problem_views(found@),
                reported_views(problems@).map_values(|p: ReportedProblemView| carried(p)) == fv.take(i as int),
                forall|k: int| 0 <= k < problems@.len() ==> (#[trigger] problems@[k])@.code == "invalid-config"@,
            decreases found.len() - i,
        {
            let ghost prev = reported_views(problems@).map_values(|p: ReportedProblemView| carried(p));
            problems.push(report_problem(&found[i]));
            proof {
                assert(reported_views(problems@).map_values(|p: ReportedProblemView| carried(p)) =~= prev.push(
                    fv[i as int],
                ));
                assert(fv.take(i + 1) =~= prev.push(fv[i as int]));
            }
            i += 1;
        }
        proof {
            assert(fv.take(i as int) =~= fv);
        }
    }
    let status = if problems.len() == 0 { str_to_string("ok") } else { str_to_string("fail") };
    let summary = ValidateConfigSummary { status, strict, rule_count, problem_count: problems.len() };
    ValidateConfigReport {
        schema_version: str_to_string(VALIDATE_CONFIG_SCHEMA_VERSION),
        tool_name: str_to_string(TOOL_NAME),
        tool_version: str_to_string(TOOL_VERSION),
        command: str_to_string("validate-config"),
        summary,
        warnings,
        problems,
    }
}

/// The text line of a reported problem.
pub open spec fn problem_text(p: ReportedProblemView) -> Seq<char> {
    match p.rule_id {
        Some(id) => "- ["@ + p.code + "] "@ + p.source + " (rule `"@ + id + "`): "@ + p.message + "\n"@,
        None => "- ["@ + p.code + "] "@ + p.source + ": "@ + p.message + "\n"@,
    }
}

/// The text line of a warning.
pub open spec fn warning_text(w: WarningView) -> Seq<char> {
    "- "@ + w.code + ": "@ + w.message + "\n"@
}

/// The text rendering of a validate-config report: the outcome with a next step, then
/// the warnings, if any.
pub open spec fn validate_text(
    status: Seq<char>,
    strict: bool,
    rule_count: nat,
    problem_count: nat,
    problems: Seq<ReportedProblemView>,
    warnings: Seq<WarningView>,
) -> Seq<char> {
    (if status == "ok"@ {
        if strict {
            "Docpact validate-config: pass in strict mode ("@ + decimal(rule_count) + " rule(s)).\n"@
                + "Next: run `docpact lint --root .` or `docpact route --paths <path>`.\n"@
        } else {
            "Docpact validate-config: config loads ("@ + decimal(rule_count) + " rule(s)).\n"@
                + "Next: run `docpact validate-config --strict` for graph and ownership checks.\n"@
        }
    } else {
        "Docpact validate-config: failed with "@ + decimal(problem_count) + " problem(s).\n"@ + "Problems:\n"@ + join(
            problems.map_values(|p: ReportedProblemView| problem_text(p)),
            ""@,
        ) + "Next: fix the config entries above, then rerun `docpact validate-config --strict`.\n"@
    }) + if warnings.len() == 0 {
        Seq::empty()
    } else {
        "Warnings:\n"@ + join(warnings.map_values(|w: WarningView| warning_text(w)), ""@)
    }
}

/// The text rendering of a validate-config report, as `validate_text` says.
pub fn render_text_report(report: &ValidateConfigReport) -> (s: String)
    ensures
        s@ == validate_text(
            report.summary.status@,
            report.summary.strict,
            report.summary.rule_count as nat,
            report.summary.problem_count as nat,
            reported_views(report.problems@),
            report.warnings@.map_values(|w: ValidateConfigWarning| w@),
        ),
{
    let mut out = String::new();
    if str_eq(report.summary.status.as_str(), "ok") {
        if report.summary.strict {
            out.append("Docpact validate-config: pass in strict mode (");
            out.append(decimal_string(report.summary.rule_count).as_str());
            out.append(" rule(s)).\n");
            out.append("Next: run `docpact lint --root .` or `docpact route --paths <path>`.\n");
        } else {
            out.append("Docpact validate-config: config loads (");
            out.append(decimal_string(report.summary.rule_count).as_str());
            out.append(" rule(s)).\n");
            out.append("Next: run `docpact validate-config --strict` for graph and ownership checks.\n");
        }
    } else {
        out.append("Docpact validate-config: failed with ");
        out.append(decimal_string(report.summary.problem_count).as_str());
        out.append(" problem(s).\n");
        out.append("Problems:\n");
        let ghost target = reported_views(report.problems@).map_values(|p: ReportedProblemView| problem_text(p));
        let mut lines: Vec<String> = Vec::new();
        let mut i: usize = 0;
        while i < report.problems.len()
            invariant
                i <= report.problems.len(),
                target == reported_views(report.problems@).map_values(|p: ReportedProblemView| problem_text(p)),
                views(lines@) == target.take(i as int),
            decreases report.problems.len() - i,
        {
            let p = &report.problems[i];
            let mut line = str_to_string("- [");
            line.append(p.code.as_str());
            line.append("] ");
            line.append(p.source.as_str());
            match &p.rule_id {
                Some(id) => {
                    line.append(" (rule `");
                    line.append(id.as_str());
                    line.append("`): ");
                },
                None => {
                    line.append(": ");
                },
            }
            line.append(p.message.as_str());
            line.append("\n");
            let ghost prev = views(lines@);
            lines.push(line);
            proof {
                assert(views(lines@) =~= prev.push(target[i as int]));
                assert(target.take(i + 1) =~= prev.push(target[i as int]));
            }
            i += 1;
        }
        proof {
            assert(target.take(i as int) =~= target);
        }
        out.append(join_strings(&lines, "").as_str());
        out.append("Next: fix the config entries above, then rerun `docpact validate-config --strict`.\n");
    }
    let ghost head = out@;
    if report.warnings.len() > 0 {
        out.append("Warnings:\n");
        let ghost target = report.warnings@.map_values(|w: ValidateConfigWarning| w@).map_values(
            |w: WarningView| warning_text(w),
        );
        let mut lines: Vec<String> = Vec::new();
        let mut i: usize = 0;
        while i < report.warnings.len()
            invariant
                i <= report.warnings.len(),
                target == report.warnings@.map_values(|w: ValidateConfigWarning| w@).map_values(
                    |w: WarningView| warning_text(w),
                ),
                views(lines@) == target.take(i as int),
            decreases report.warnings.len() - i,
        {
            let w = &report.warnings[i];
            let mut line = str_to_string("- ");
            line.append(w.code.as_str());
            line.append(": ");
            line.append(w.message.as_str());
            line.append("\n");
            let ghost prev = views(lines@);
            lines.push(line);
            proof {
                assert(views(lines@) =~= prev.push(target[i as int]));
                assert(target.take(i + 1) =~= prev.push(target[i as int]));
            }
            i += 1;
        }
        proof {
            assert(target.take(i as int) =~= target);
        }
        out.append(join_strings(&lines, "").as_str());
    } else {
        proof {
            assert(head + Seq::<char>::empty() =~= head);
        }
    }
    out
}

} // verus!
