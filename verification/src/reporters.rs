//! Lint problems and the report shapes built from them: the JSON report and SARIF.
use vstd::prelude::*;
use crate::cli::LintMode;
use crate::config::copy::copy_strings;
use crate::text::{join, join_strings, str_to_string, views};

verus! {

/// The `$schema` URI of SARIF 2.1.0 logs.
pub const SARIF_SCHEMA_URI: &'static str =
    "https://docs.oasis-open.org/sarif/sarif/v2.1.0/os/schemas/sarif-schema-2.1.0.json";

/// The tool name that reports carry.
pub const TOOL_NAME: &'static str = "docpact";

/// The tool version that reports carry.
pub const TOOL_VERSION: &'static str = "0.1.0";

/// One lint problem.
#[derive(Debug)]
pub struct Problem {
    pub problem_type: String,
    pub path: String,
    pub message: String,
}

/// The view of a lint problem.
pub struct LintProblemView {
    pub problem_type: Seq<char>,
    pub path: Seq<char>,
    pub message: Seq<char>,
}

impl View for Problem {
    type V = LintProblemView;

    open spec fn view(&self) -> LintProblemView {
        LintProblemView { problem_type: self.problem_type@, path: self.path@, message: self.message@ }
    }
}

/// The views of a list of lint problems.
pub open spec fn lint_problem_views(v: Seq<Problem>) -> Seq<LintProblemView> {
    v.map_values(|p: Problem| p@)
}

/// A warning a report carries.
#[derive(Debug)]
pub struct OutputWarning {
    pub code: String,
    pub message: String,
}

/// The view of a report warning.
pub struct WarningView {
    pub code: Seq<char>,
    pub message: Seq<char>,
}

impl View for OutputWarning {
    type V = WarningView;

    open spec fn view(&self) -> WarningView {
        WarningView { code: self.code@, message: self.message@ }
    }
}

/// The JSON lint report.
#[derive(Debug)]
pub struct Report {
    pub status: String,
    pub changed_paths: Vec<String>,
    pub problems: Vec<Problem>,
    pub matched_rule_count: usize,
}

/// A SARIF log.
#[derive(Debug)]
pub struct SarifLog {
    pub schema: String,
    pub version: String,
    pub runs: Vec<SarifRun>,
}

/// One SARIF run.
#[derive(Debug)]
pub struct SarifRun {
    pub tool: SarifTool,
    pub results: Vec<SarifResult>,
    pub properties: Option<SarifProperties>,
}

/// The SARIF tool.
#[derive(Debug)]
pub struct SarifTool {
    pub driver: SarifDriver,
}

/// The SARIF tool driver.
#[derive(Debug)]
pub struct SarifDriver {
    pub name: String,
    pub version: Option<String>,
    pub information_uri: Option<String>,
    pub rules: Vec<SarifRule>,
}

/// A SARIF rule descriptor.
#[derive(Debug)]
pub struct SarifRule {
    pub id: String,
    pub short_description: SarifMessage,
    pub default_configuration: SarifDefaultConfiguration,
    pub help_uri: Option<String>,
}

/// The default configuration of a SARIF rule.
#[derive(Debug)]
pub struct SarifDefaultConfiguration {
    pub level: String,
}

/// One SARIF result.
#[derive(Debug)]
pub struct SarifResult {
    pub rule_id: String,
    pub level: String,
    pub message: SarifMessage,
    pub locations: Vec<SarifLocation>,
    pub properties: Option<SarifResultProperties>,
}

/// A SARIF location.
#[derive(Debug)]
pub struct SarifLocation {
    pub physical_location: SarifPhysicalLocation,
}

/// A SARIF physical location.
#[derive(Debug)]
pub struct SarifPhysicalLocation {
    pub artifact_location: SarifArtifactLocation,
}

/// A SARIF artifact location.
#[derive(Debug)]
pub struct SarifArtifactLocation {
    pub uri: String,
}

/// A SARIF message.
#[derive(Debug)]
pub struct SarifMessage {
    pub text: String,
}

/// The run-level properties docpact adds to SARIF.
#[derive(Debug)]
pub struct SarifProperties {
    pub status: String,
    pub changed_paths: Vec<String>,
    pub matched_rule_count: usize,
}

/// The result-level properties docpact adds to SARIF.
#[derive(Debug)]
pub struct SarifResultProperties {
    pub problem_type: String,
}

impl Problem {
    /// A `missing-metadata` problem.
    pub fn missing_metadata(path: String, message: String) -> (p: Self)
        ensures
            p@ == (LintProblemView { problem_type: "missing-metadata"@, path: path@, message: message@ }),
    {
        Problem { problem_type: str_to_string("missing-metadata"), path, message }
    }

    /// A `missing-review` problem.
    pub fn missing_review(path: String, message: String) -> (p: Self)
        ensures
            p@ == (LintProblemView { problem_type: "missing-review"@, path: path@, message: message@ }),
    {
        Problem { problem_type: str_to_string("missing-review"), path, message }
    }
}

/// A copy of a lint problem.
pub fn copy_problem(p: &Problem) -> (r: Problem)
    ensures
        r@ == p@,
{
    Problem { problem_type: p.problem_type.clone(), path: p.path.clone(), message: p.message.clone() }
}

/// A copy of a list of lint problems.
pub fn copy_problems(v: &[Problem]) -> (r: Vec<Problem>)
    ensures
        lint_problem_views(r@) == lint_problem_views(v@),
{
    let mut r: Vec<Problem> = Vec::new();
    let mut i: usize = 0;
    while i < v.len()
        invariant
            i <= v.len(),
            r@.len() == i,
            forall|k: int| 0 <= k < i ==> (#[trigger] r@[k])@ == v@[k]@,
        decreases v.len() - i,
    {
        r.push(copy_problem(&v[i]));
        i += 1;
    }
    proof {
        assert(lint_problem_views(r@) =~= lint_problem_views(v@));
    }
    r
}

/// A copy of a slice of strings.
pub fn copy_string_slice(v: &[String]) -> (r: Vec<String>)
    ensures
        views(r@) == views(v@),
{
    let mut r: Vec<String> = Vec::new();
    let mut i: usize = 0;
    while i < v.len()
        invariant
            i <= v.len(),
            r@.len() == i,
            forall|k: int| 0 <= k < i ==> (#[trigger] r@[k])@ == v@[k]@,
        decreases v.len() - i,
    {
        r.push(v[i].clone());
        i += 1;
    }
    proof {
        assert(views(r@) =~= views(v@));
    }
    r
}

/// The text line of a problem: `- [type] path: message`.
pub open spec fn problem_line(p: LintProblemView) -> Seq<char> {
    "- ["@ + p.problem_type + "] "@ + p.path + ": "@ + p.message
}

/// Formats a problem as one text line.
pub fn format_problem(problem: &Problem) -> (s: String)
    ensures
        s@ == problem_line(problem@),
{
    let mut s = str_to_string("- [");
    s.append(problem.problem_type.as_str());
    s.append("] ");
    s.append(problem.path.as_str());
    s.append(": ");
    s.append(problem.message.as_str());
    s
}

/// The report status: `ok` without problems, `fail` with some.
pub open spec fn status_for(problem_count: nat) -> Seq<char> {
    if problem_count == 0 { "ok"@ } else { "fail"@ }
}

/// Builds the JSON lint report.
pub fn build_report(problems: &[Problem], changed_paths: &[String], matched_rule_count: usize) -> (r: Report)
    ensures
        r.status@ == status_for(problems@.len() as nat),
        views(r.changed_paths@) == views(changed_paths@),
        lint_problem_views(r.problems@) == lint_problem_views(problems@),
        r.matched_rule_count == matched_rule_count,
{
    let status = if problems.len() == 0 { str_to_string("ok") } else { str_to_string("fail") };
    Report {
        status,
        changed_paths: copy_string_slice(changed_paths),
        problems: copy_problems(problems),
        matched_rule_count,
    }
}

/// The SARIF level of a lint mode.
pub open spec fn level_name(mode: LintMode) -> Seq<char> {
    match mode {
        LintMode::Enforce => "error"@,
        LintMode::Warn => "warning"@,
    }
}

/// The SARIF level for a lint mode.
pub fn sarif_level(mode: LintMode) -> (s: &'static str)
    ensures
        s@ == level_name(mode),
{
    match mode {
        LintMode::Enforce => "error",
        LintMode::Warn => "warning",
    }
}

/// The two SARIF rule descriptors, `missing-review` then `missing-metadata`, at the
/// level of the lint mode.
pub fn sarif_rules(mode: LintMode) -> (r: Vec<SarifRule>)
    ensures
        r@.len() == 2,
        r@[0].id@ == "missing-review"@,
        r@[1].id@ == "missing-metadata"@,
        r@[0].short_description.text@
            == "A required reviewed document is missing or did not satisfy its required review mode."@,
        r@[1].short_description.text@ == "A touched key document is missing required review metadata."@,
        forall|i: int| 0 <= i < 2 ==> (#[trigger] r@[i]).default_configuration.level@ == level_name(mode)
            && r@[i].help_uri is None,
{
    let mut r: Vec<SarifRule> = Vec::new();
    r.push(SarifRule {
        id: str_to_string("missing-review"),
        short_description: SarifMessage {
            text: str_to_string(
                "A required reviewed document is missing or did not satisfy its required review mode.",
            ),
        },
        default_configuration: SarifDefaultConfiguration { level: str_to_string(sarif_level(mode)) },
        help_uri: None,
    });
    r.push(SarifRule {
        id: str_to_string("missing-metadata"),
        short_description: SarifMessage {
            text: str_to_string("A touched key document is missing required review metadata."),
        },
        default_configuration: SarifDefaultConfiguration { level: str_to_string(sarif_level(mode)) },
        help_uri: None,
    });
    r
}

/// The SARIF result of one problem at the given level.
pub open spec fn is_result_for(r: SarifResult, p: LintProblemView, level: Seq<char>) -> bool {
    &&& r.rule_id@ == p.problem_type
    &&& r.level@ == level
    &&& r.message.text@ == p.message
    &&& r.locations@.len() == 1
    &&& r.locations@[0].physical_location.artifact_location.uri@ == p.path
    &&& r.properties matches Some(pr) && pr.problem_type@ == p.problem_type
}

/// Builds the SARIF 2.1.0 log: one run whose results are the problems in order.
pub fn build_sarif_log(
    problems: &[Problem],
    changed_paths: &[String],
    matched_rule_count: usize,
    mode: LintMode,
) -> (r: SarifLog)
    ensures
        r.schema@ == SARIF_SCHEMA_URI@,
        r.version@ == "2.1.0"@,
        r.runs@.len() == 1,
        r.runs@[0].tool.driver.name@ == TOOL_NAME@,
        r.runs@[0].tool.driver.version matches Some(v) && v@ == TOOL_VERSION@,
        r.runs@[0].tool.driver.information_uri is None,
        r.runs@[0].tool.driver.rules@.len() == 2,
        r.runs@[0].tool.driver.rules@[0].id@ == "missing-review"@,
        r.runs@[0].tool.driver.rules@[1].id@ == "missing-metadata"@,
        forall|i: int| 0 <= i < 2 ==> (#[trigger] r.runs@[0].tool.driver.rules@[i]).default_configuration.level@
            == level_name(mode),
        r.runs@[0].results@.len() == problems@.len(),
        forall|i: int|
            0 <= i < problems@.len() ==> is_result_for(
                #[trigger] r.runs@[0].results@[i],
                problems@[i]@,
                level_name(mode),
            ),
        r.runs@[0].properties matches Some(pr) && pr.status@ == status_for(problems@.len() as nat)
            && views(pr.changed_paths@) == views(changed_paths@) && pr.matched_rule_count
            == matched_rule_count,
{
    let mut results: Vec<SarifResult> = Vec::new();
    let mut i: usize = 0;
    while i < problems.len()
        invariant
            i <= problems.len(),
            results@.len() == i,
            forall|k: int|
                0 <= k < i ==> is_result_for(#[trigger] results@[k], problems@[k]@, level_name(mode)),
        decreases problems.len() - i,
    {
        let p = &problems[i];
        let mut locations: Vec<SarifLocation> = Vec::new();
        locations.push(SarifLocation {
            physical_location: SarifPhysicalLocation {
                artifact_location: SarifArtifactLocation { uri: p.path.clone() },
            },
        });
        results.push(SarifResult {
            rule_id: p.problem_type.clone(),
            level: str_to_string(sarif_level(mode)),
            message: SarifMessage { text: p.message.clone() },
            locations,
            properties: Some(SarifResultProperties { problem_type: p.problem_type.clone() }),
        });
        i += 1;
    }
    let status = if problems.len() == 0 { str_to_string("ok") } else { str_to_string("fail") };
    let mut runs: Vec<SarifRun> = Vec::new();
    runs.push(SarifRun {
        tool: SarifTool {
            driver: SarifDriver {
                name: str_to_string(TOOL_NAME),
                version: Some(str_to_string(TOOL_VERSION)),
                information_uri: None,
                rules: sarif_rules(mode),
            },
        },
        results,
        properties: Some(
            SarifProperties { status, changed_paths: copy_string_slice(changed_paths), matched_rule_count },
        ),
    });
    SarifLog { schema: str_to_string(SARIF_SCHEMA_URI), version: str_to_string("2.1.0"), runs }
}

/// The text report of a lint run: a no-problem line, or a heading for the mode and
/// one line per problem.
pub open spec fn problems_text(problems: Seq<LintProblemView>, mode: LintMode) -> Seq<char> {
    if problems.len() == 0 {
        "AI doc lint: no problems found.\n"@
    } else {
        (match mode {
            LintMode::Enforce => "AI doc lint found blocking problems:\n"@,
            LintMode::Warn => "AI doc lint found warnings:\n"@,
        }) + join(problems.map_values(|p: LintProblemView| problem_line(p) + "\n"@), ""@)
    }
}

/// The text report of a lint run, as `problems_text` says.
pub fn render_problems_text(problems: &[Problem], mode: LintMode) -> (s: String)
    ensures
        s@ == problems_text(lint_problem_views(problems@), mode),
{
    if problems.len() == 0 {
        return str_to_string("AI doc lint: no problems found.\n");
    }
    let mut out = match mode {
        LintMode::Enforce => str_to_string("AI doc lint found blocking problems:\n"),
        LintMode::Warn => str_to_string("AI doc lint found warnings:\n"),
    };
    let ghost target = lint_problem_views(problems@).map_values(|p: LintProblemView| problem_line(p) + "\n"@);
    let mut lines: Vec<String> = Vec::new();
    let mut i: usize = 0;
    while i < problems.len()
        invariant
            i <= problems.len(),
            target == lint_problem_views(problems@).map_values(|p: LintProblemView| problem_line(p) + "\n"@),
            views(lines@) == target.take(i as int),
        decreases problems.len() - i,
    {
        let mut line = format_problem(&problems[i]);
        line.append("\n");
        let ghost prev = views(lines@);
        lines.push(line);
        proof {
            assert(views(lines@) =~= prev.push(target[i as int]));
            assert(target.take(i + 1) =~= prev.push(target[i as int]));
        }
        i += 1;
    }
    proof {
        assert(target.take(i as int) =~= target);
    }
    out.append(join_strings(&lines, "").as_str());
    out
}

/// The GitHub Actions annotation of a problem at the level of the mode.
pub open spec fn annotation_line(p: LintProblemView, mode: LintMode) -> Seq<char> {
    "::"@ + level_name(mode) + " file="@ + p.path + "::"@ + p.message
}

/// One GitHub Actions annotation per problem, as `annotation_line` says.
pub fn annotation_lines(problems: &[Problem], mode: LintMode) -> (r: Vec<String>)
    ensures
        views(r@) == lint_problem_views(problems@).map_values(|p: LintProblemView| annotation_line(p, mode)),
{
    let ghost target = lint_problem_views(problems@).map_values(|p: LintProblemView| annotation_line(p, mode));
    let mut r: Vec<String> = Vec::new();
    let mut i: usize = 0;
    while i < problems.len()
        invariant
            i <= problems.len(),
            target == lint_problem_views(problems@).map_values(|p: LintProblemView| annotation_line(p, mode)),
            views(r@) == target.take(i as int),
        decreases problems.len() - i,
    {
        let p = &problems[i];
        let mut line = str_to_string("::");
        line.append(sarif_level(mode));
        line.append(" file=");
        line.append(p.path.as_str());
        line.append("::");
        line.append(p.message.as_str());
        let ghost prev = views(r@);
        r.push(line);
        proof {
            assert(views(r@) =~= prev.push(target[i as int]));
            assert(target.take(i + 1) =~= prev.push(target[i as int]));
        }
        i += 1;
    }
    proof {
        assert(target.take(i as int) =~= target);
    }
    r
}

} // verus!
