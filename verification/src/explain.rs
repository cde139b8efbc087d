//! Why one path is governed: the rules it triggers and the documents they expect.
use vstd::prelude::*;
use crate::config::model::{LoadedRule, TriggerView, loaded_views};
use crate::config::paths::{normalize_path, normalized, resolve_rule_path, resolved_rule_path};
use crate::reporters::{TOOL_NAME, TOOL_VERSION, WarningView};
use crate::rules::{
    ExpectedDoc, ExpectedDocView, MatchedRule, MatchedRuleView, RequiredDocMode, all_matches,
    collect_expected_docs, expected_entries, expected_views, groups_entries, match_rules,
    matched_views, mode_name, path_matches,
};
use crate::reporters::copy_string_slice;
use crate::text::{decimal, decimal_string, join, join_strings, str_to_string, views};

verus! {

/// The schema version of explain reports.
pub const EXPLAIN_SCHEMA_VERSION: &'static str = "docpact.explain.v1";

/// The explain report of one path.
#[derive(Debug)]
pub struct ExplainReport {
    pub schema_version: String,
    pub tool_name: String,
    pub tool_version: String,
    pub command: String,
    pub summary: ExplainSummary,
    pub warnings: Vec<ExplainWarning>,
    pub path: String,
    pub matched_rules: Vec<ExplainRuleMatch>,
    pub expected_docs: Vec<ExplainExpectedDoc>,
}

/// The counts of an explain report.
#[derive(Debug)]
pub struct ExplainSummary {
    pub matched_rule_count: usize,
    pub expected_doc_count: usize,
}

/// A warning of an explain report.
#[derive(Debug)]
pub struct ExplainWarning {
    pub code: String,
    pub message: String,
}

/// A rule the path triggers, with its resolved trigger patterns.
#[derive(Debug)]
pub struct ExplainRuleMatch {
    pub rule_id: String,
    pub source: String,
    pub config_source: String,
    pub triggers: Vec<String>,
}

/// A document the triggered rules expect, with the action it calls for.
#[derive(Debug)]
pub struct ExplainExpectedDoc {
    pub path: String,
    pub action: String,
    pub modes: Vec<String>,
    pub rules: Vec<String>,
    pub changed_paths: Vec<String>,
}

/// The view of a rule match.
pub struct RuleMatchView {
    pub rule_id: Seq<char>,
    pub source: Seq<char>,
    pub config_source: Seq<char>,
    pub triggers: Seq<Seq<char>>,
}

/// The view of an expected document.
pub struct ExplainDocView {
    pub path: Seq<char>,
    pub action: Seq<char>,
    pub modes: Seq<Seq<char>>,
    pub rules: Seq<Seq<char>>,
    pub changed_paths: Seq<Seq<char>>,
}

/// The view of an explain report.
pub struct ExplainView {
    pub schema_version: Seq<char>,
    pub tool_name: Seq<char>,
    pub tool_version: Seq<char>,
    pub command: Seq<char>,
    pub matched_rule_count: nat,
    pub expected_doc_count: nat,
    pub warnings: Seq<WarningView>,
    pub path: Seq<char>,
    pub matched_rules: Seq<RuleMatchView>,
    pub expected_docs: Seq<ExplainDocView>,
}

impl View for ExplainWarning {
    type V = WarningView;

    open spec fn view(&self) -> WarningView {
        WarningView { code: self.code@, message: self.message@ }
    }
}

impl View for ExplainRuleMatch {
    type V = RuleMatchView;

    open spec fn view(&self) -> RuleMatchView {
        RuleMatchView {
            rule_id: self.rule_id@,
            source: self.source@,
            config_source: self.config_source@,
            triggers: views(self.triggers@),
        }
    }
}

impl View for ExplainExpectedDoc {
    type V = ExplainDocView;

    open spec fn view(&self) -> ExplainDocView {
        ExplainDocView {
            path: self.path@,
            action: self.action@,
            modes: views(self.modes@),
            rules: views(self.rules@),
            changed_paths: views(self.changed_paths@),
        }
    }
}

impl View for ExplainReport {
    type V = ExplainView;

    open spec fn view(&self) -> ExplainView {
        ExplainView {
            schema_version: self.schema_version@,
            tool_name: self.tool_name@,
            tool_version: self.tool_version@,
            command: self.command@,
            matched_rule_count: self.summary.matched_rule_count as nat,
            expected_doc_count: self.summary.expected_doc_count as nat,
            warnings: self.warnings@.map_values(|w: ExplainWarning| w@),
            path: self.path@,
            matched_rules: self.matched_rules@.map_values(|m: ExplainRuleMatch| m@),
            expected_docs: self.expected_docs@.map_values(|d: ExplainExpectedDoc| d@),
        }
    }
}

/// How explain lists a matched rule: its id, sources and resolved trigger patterns.
pub open spec fn rule_match_of(m: MatchedRuleView) -> RuleMatchView {
    RuleMatchView {
        rule_id: m.rule.id,
        source: m.source,
        config_source: m.config_source,
        triggers: m.rule.triggers.map_values(|t: TriggerView| resolved_rule_path(m.base_dir, t.path)),
    }
}

/// The action a set of modes calls for, the strongest first: a body update, a metadata
/// refresh, existence, or a review.
pub open spec fn action_name(modes: Seq<RequiredDocMode>) -> Seq<char> {
    if modes.contains(RequiredDocMode::BodyUpdateRequired) {
        "update body for"@
    } else if modes.contains(RequiredDocMode::MetadataRefreshRequired) {
        "refresh metadata for"@
    } else if modes.contains(RequiredDocMode::MustExist) {
        "ensure exists"@
    } else {
        "review or update"@
    }
}

/// How explain lists an expected document.
pub open spec fn doc_summary_of(d: ExpectedDocView) -> ExplainDocView {
    ExplainDocView {
        path: d.path,
        action: action_name(d.modes),
        modes: d.modes.map_values(|m: RequiredDocMode| mode_name(m)),
        rules: d.rules,
        changed_paths: d.changed_paths,
    }
}

/// The warning of a path that triggers no rule.
pub open spec fn no_match_warning() -> WarningView {
    WarningView {
        code: "no-rule-matches"@,
        message: "path did not match any effective rule trigger; route will not produce governed docs from rules"@,
    }
}

/// `docs` lists, in order, the summaries of the documents that grouping `entries` by
/// path gives.
pub open spec fn summarizes_docs(docs: Seq<ExplainDocView>, entries: Seq<crate::rules::DocEntry>) -> bool {
    exists|e: Seq<ExpectedDocView>|
        #[trigger] groups_entries(e, entries) && docs == e.map_values(|d: ExpectedDocView| doc_summary_of(d))
}

pub(crate) fn mode_contains(modes: &Vec<RequiredDocMode>, m: RequiredDocMode) -> (b: bool)
    ensures
        b == modes@.contains(m),
{
    let mut i: usize = 0;
    while i < modes.len()
        invariant
            i <= modes.len(),
            forall|j: int| 0 <= j < i ==> modes@[j] != m,
        decreases modes.len() - i,
    {
        if modes[i].rank() == m.rank() {
            proof {
                assert(modes@[i as int] == m);
            }
            return true;
        }
        i += 1;
    }
    false
}

/// The action a set of modes calls for, as `action_name` says.
pub fn action_for_modes(modes: &Vec<RequiredDocMode>) -> (s: &'static str)
    ensures
        s@ == action_name(modes@),
{
    if mode_contains(modes, RequiredDocMode::BodyUpdateRequired) {
        "update body for"
    } else if mode_contains(modes, RequiredDocMode::MetadataRefreshRequired) {
        "refresh metadata for"
    } else if mode_contains(modes, RequiredDocMode::MustExist) {
        "ensure exists"
    } else {
        "review or update"
    }
}

/// How explain lists an expected document, as `doc_summary_of` says.
pub fn expected_doc_summary(expected: &ExpectedDoc) -> (r: ExplainExpectedDoc)
    ensures
        r@ == doc_summary_of(expected@),
{
    let mut modes: Vec<String> = Vec::new();
    let mut i: usize = 0;
    while i < expected.modes.len()
        invariant
            i <= expected.modes.len(),
            views(modes@) == expected@.modes.map_values(|m: RequiredDocMode| mode_name(m)).take(i as int),
        decreases expected.modes.len() - i,
    {
        let ghost prev = views(modes@);
        modes.push(str_to_string(expected.modes[i].as_str()));
        proof {
            assert(views(modes@) =~= prev.push(mode_name(expected.modes@[i as int])));
            assert(expected@.modes.map_values(|m: RequiredDocMode| mode_name(m)).take(i + 1) =~= prev.push(
                mode_name(expected.modes@[i as int]),
            ));
        }
        i += 1;
    }
    proof {
        assert(expected@.modes.map_values(|m: RequiredDocMode| mode_name(m)).take(i as int)
            =~= expected@.modes.map_values(|m: RequiredDocMode| mode_name(m)));
    }
    ExplainExpectedDoc {
        path: expected.path.clone(),
        action: str_to_string(action_for_modes(&expected.modes)),
        modes,
        rules: copy_string_slice(expected.rules.as_slice()),
        changed_paths: copy_string_slice(expected.changed_paths.as_slice()),
    }
}

/// How explain lists a matched rule, as `rule_match_of` says.
pub fn rule_match(matched: &MatchedRule) -> (r: ExplainRuleMatch)
    ensures
        r@ == rule_match_of(matched@),
{
    let ghost target = matched@.rule.triggers.map_values(
        |t: TriggerView| resolved_rule_path(matched@.base_dir, t.path),
    );
    let mut triggers: Vec<String> = Vec::new();
    let mut i: usize = 0;
    while i < matched.rule.triggers.len()
        invariant
            i <= matched.rule.triggers.len(),
            target == matched@.rule.triggers.map_values(
                |t: TriggerView| resolved_rule_path(matched@.base_dir, t.path),
            ),
            views(triggers@) == target.take(i as int),
        decreases matched.rule.triggers.len() - i,
    {
        let ghost prev = views(triggers@);
        triggers.push(resolve_rule_path(matched.base_dir.as_str(), matched.rule.triggers[i].path.as_str()));
        proof {
            assert(views(triggers@) =~= prev.push(target[i as int]));
            assert(target.take(i + 1) =~= prev.push(target[i as int]));
        }
        i += 1;
    }
    proof {
        assert(target.take(i as int) =~= target);
    }
    ExplainRuleMatch {
        rule_id: matched.rule.id.clone(),
        source: matched.source.clone(),
        config_source: matched.config_source.clone(),
        triggers,
    }
}

/// The explain report of `path`: the path normalized, the rules it triggers in order,
/// the documents they expect grouped by path, and a `no-rule-matches` warning when it
/// triggers none.
pub fn explain_report(path: &str, loaded_rules: &[LoadedRule]) -> (r: ExplainReport)
    ensures
        r@.schema_version == EXPLAIN_SCHEMA_VERSION@,
        r@.tool_name == TOOL_NAME@,
        r@.tool_version == TOOL_VERSION@,
        r@.command == "explain"@,
        r@.path == normalized(path@),
        r@.matched_rules == path_matches(normalized(path@), loaded_views(loaded_rules@)).map_values(
            |m: MatchedRuleView| rule_match_of(m),
        ),
        summarizes_docs(
            r@.expected_docs,
            expected_entries(path_matches(normalized(path@), loaded_views(loaded_rules@))),
        ),
        r@.matched_rule_count == r@.matched_rules.len(),
        r@.expected_doc_count == r@.expected_docs.len(),
        r@.warnings == (if r@.matched_rules.len() == 0 {
            seq![no_match_warning()]
        } else {
            Seq::empty()
        }),
{
    let normalized_path = normalize_path(path);
    let mut paths: Vec<String> = Vec::new();
    paths.push(normalized_path.clone());
    let ghost pm = path_matches(normalized(path@), loaded_views(loaded_rules@));
    proof {
        assert(views(paths@) =~= seq![normalized(path@)]);
        assert(views(paths@).drop_last() =~= Seq::<Seq<char>>::empty());
        assert(views(paths@).last() == normalized(path@));
        assert(all_matches(views(paths@).drop_last(), loaded_views(loaded_rules@)) =~= Seq::<MatchedRuleView>::empty());
        assert(Seq::<MatchedRuleView>::empty() + pm =~= pm);
        assert(all_matches(views(paths@), loaded_views(loaded_rules@)) =~= pm);
    }
    let matches = match_rules(paths.as_slice(), loaded_rules);
    let expected = collect_expected_docs(matches.as_slice());
    let ghost mv = matched_views(matches@);
    let mut matched_rules: Vec<ExplainRuleMatch> = Vec::new();
    let mut i: usize = 0;
    while i < matches.len()
        invariant
            i <= matches.len(),
            mv == matched_views(matches@),
            matched_rules@.map_values(|m: ExplainRuleMatch| m@) == mv.map_values(
                |m: MatchedRuleView| rule_match_of(m),
            ).take(i as int),
        decreases matches.len() - i,
    {
        let ghost prev = matched_rules@.map_values(|m: ExplainRuleMatch| m@);
        matched_rules.push(rule_match(&matches[i]));
        proof {
            assert(matched_rules@.map_values(|m: ExplainRuleMatch| m@) =~= prev.push(rule_match_of(mv[i as int])));
            assert(mv.map_values(|m: MatchedRuleView| rule_match_of(m)).take(i + 1) =~= prev.push(
                rule_match_of(mv[i as int]),
            ));
        }
        i += 1;
    }
    proof {
        assert(mv.map_values(|m: MatchedRuleView| rule_match_of(m)).take(i as int) =~= mv.map_values(
            |m: MatchedRuleView| rule_match_of(m),
        ));
    }
    let ghost ev = expected_views(expected@);
    let mut docs: Vec<ExplainExpectedDoc> = Vec::new();
    let mut k: usize = 0;
    while k < expected.len()
        invariant
            k <= expected.len(),
            ev == expected_views(expected@),
            docs@.map_values(|d: ExplainExpectedDoc| d@) == ev.map_values(
                |d: ExpectedDocView| doc_summary_of(d),
            ).take(k as int),
        decreases expected.len() - k,
    {
        let ghost prev = docs@.map_values(|d: ExplainExpectedDoc| d@);
        docs.push(expected_doc_summary(&expected[k]));
        proof {
            assert(docs@.map_values(|d: ExplainExpectedDoc| d@) =~= prev.push(doc_summary_of(ev[k as int])));
            assert(ev.map_values(|d: ExpectedDocView| doc_summary_of(d)).take(k + 1) =~= prev.push(
                doc_summary_of(ev[k as int]),
            ));
        }
        k += 1;
    }
    proof {
        assert(ev.map_values(|d: ExpectedDocView| doc_summary_of(d)).take(k as int) =~= ev.map_values(
            |d: ExpectedDocView| doc_summary_of(d),
        ));
        assert(groups_entries(ev, expected_entries(pm)));
    }
    let mut warnings: Vec<ExplainWarning> = Vec::new();
    if matched_rules.len() == 0 {
        warnings.push(
            ExplainWarning {
                code: str_to_string("no-rule-matches"),
                message: str_to_string(
                    "path did not match any effective rule trigger; route will not produce governed docs from rules",
                ),
            },
        );
    }
    proof {
        if matched_rules.len() == 0 {
            assert(warnings@.map_values(|w: ExplainWarning| w@) =~= seq![no_match_warning()]);
        } else {
            assert(warnings@.map_values(|w: ExplainWarning| w@) =~= Seq::<WarningView>::empty());
        }
    }
    let summary = ExplainSummary { matched_rule_count: matched_rules.len(), expected_doc_count: docs.len() };
    ExplainReport {
        schema_version: str_to_string(EXPLAIN_SCHEMA_VERSION),
        tool_name: str_to_string(TOOL_NAME),
        tool_version: str_to_string(TOOL_VERSION),
        command: str_to_string("explain"),
        summary,
        warnings,
        path: normalized_path,
        matched_rules,
        expected_docs: docs,
    }
}

/// The text line of a warning.
pub open spec fn warning_line(w: WarningView) -> Seq<char> {
    "- "@ + w.code + ": "@ + w.message + "\n"@
}

/// The text line of a matched rule.
pub open spec fn rule_line(m: RuleMatchView) -> Seq<char> {
    "- "@ + m.rule_id + " from "@ + m.source + " (triggers: "@ + join(m.triggers, ","@) + ")\n"@
}

/// The text line of an expected document.
pub open spec fn doc_line(d: ExplainDocView) -> Seq<char> {
    "- "@ + d.action + " "@ + d.path + " (modes: "@ + join(d.modes, ","@) + "; rules: "@ + join(d.rules, ","@) + ")\n"@
}

/// The text rendering of an explain report: without matches, the warnings and a hint
/// to route; with matches, the rules, the expected documents and a hint to route.
pub open spec fn explain_text(r: ExplainView) -> Seq<char> {
    if r.matched_rule_count == 0 {
        "Docpact explain: no matching rules for "@ + r.path + ".\n"@ + "Warnings:\n"@ + join(
            r.warnings.map_values(|w: WarningView| warning_line(w)),
            ""@,
        ) + "Next: run `docpact route --paths "@ + r.path
            + "` for advisory navigation, or add a matching rule if this path should be governed.\n"@
    } else {
        "Docpact explain: "@ + r.path + " matches "@ + decimal(r.matched_rule_count) + " rule(s) and expects "@
            + decimal(r.expected_doc_count) + " doc(s).\n"@ + "Rules:\n"@ + join(
            r.matched_rules.map_values(|m: RuleMatchView| rule_line(m)),
            ""@,
        ) + "Expected docs:\n"@ + (if r.expected_docs.len() == 0 {
            "- none\n"@
        } else {
            join(r.expected_docs.map_values(|d: ExplainDocView| doc_line(d)), ""@)
        }) + "Next: run `docpact route --paths "@ + r.path + "` for prioritized docs and workspace context.\n"@
    }
}

fn warning_lines(warnings: &Vec<ExplainWarning>) -> (r: String)
    ensures
        r@ == join(warnings@.map_values(|w: ExplainWarning| w@).map_values(|w: WarningView| warning_line(w)), ""@),
{
    let ghost target = warnings@.map_values(|w: ExplainWarning| w@).map_values(|w: WarningView| warning_line(w));
    let mut lines: Vec<String> = Vec::new();
    let mut i: usize = 0;
    while i < warnings.len()
        invariant
            i <= warnings.len(),
            target == warnings@.map_values(|w: ExplainWarning| w@).map_values(|w: WarningView| warning_line(w)),
            views(lines@) == target.take(i as int),
        decreases warnings.len() - i,
    {
        let w = &warnings[i];
        let mut line = str_to_string("- ");
        line.append(w.code.as_str());
        line.append(": ");
        line.append(w.message.as_str());
        line.append("\n");
        let ghost prev = views(lines@);
        lines.push(line);
        proof {
            assert(views(lines@) =~= prev.push(target[i as int]));
            assert(target.take(i + 1) =~= prev.push(target[i as int]));
        }
        i += 1;
    }
    proof {
        assert(target.take(i as int) =~= target);
    }
    join_strings(&lines, "")
}

fn rule_lines(rules: &Vec<ExplainRuleMatch>) -> (r: String)
    ensures
        r@ == join(rules@.map_values(|m: ExplainRuleMatch| m@).map_values(|m: RuleMatchView| rule_line(m)), ""@),
{
    let ghost target = rules@.map_values(|m: ExplainRuleMatch| m@).map_values(|m: RuleMatchView| rule_line(m));
    let mut lines: Vec<String> = Vec::new();
    let mut i: usize = 0;
    while i < rules.len()
        invariant
            i <= rules.len(),
            target == rules@.map_values(|m: ExplainRuleMatch| m@).map_values(|m: RuleMatchView| rule_line(m)),
            views(lines@) == target.take(i as int),
        decreases rules.len() - i,
    {
        let m = &rules[i];
        let triggers = join_strings(&m.triggers, ",");
        let mut line = str_to_string("- ");
        line.append(m.rule_id.as_str());
        line.append(" from ");
        line.append(m.source.as_str());
        line.append(" (triggers: ");
        line.append(triggers.as_str());
        line.append(")\n");
        let ghost prev = views(lines@);
        lines.push(line);
        proof {
            assert(views(lines@) =~= prev.push(target[i as int]));
            assert(target.take(i + 1) =~= prev.push(target[i as int]));
        }
        i += 1;
    }
    proof {
        assert(target.take(i as int) =~= target);
    }
    join_strings(&lines, "")
}

fn doc_lines(docs: &Vec<ExplainExpectedDoc>) -> (r: String)
    ensures
        r@ == join(docs@.map_values(|d: ExplainExpectedDoc| d@).map_values(|d: ExplainDocView| doc_line(d)), ""@),
{
    let ghost target = docs@.map_values(|d: ExplainExpectedDoc| d@).map_values(|d: ExplainDocView| doc_line(d));
    let mut lines: Vec<String> = Vec::new();
    let mut i: usize = 0;
    while i < docs.len()
        invariant
            i <= docs.len(),
            target == docs@.map_values(|d: ExplainExpectedDoc| d@).map_values(|d: ExplainDocView| doc_line(d)),
            views(lines@) == target.take(i as int),
        decreases docs.len() - i,
    {
        let d = &docs[i];
        let modes = join_strings(&d.modes, ",");
        let rules = join_strings(&d.rules, ",");
        let mut line = str_to_string("- ");
        line.append(d.action.as_str());
        line.append(" ");
        line.append(d.path.as_str());
        line.append(" (modes: ");
        line.append(modes.as_str());
        line.append("; rules: ");
        line.append(rules.as_str());
        line.append(")\n");
        let ghost prev = views(lines@);
        lines.push(line);
        proof {
            assert(views(lines@) =~= prev.push(target[i as int]));
            assert(target.take(i + 1) =~= prev.push(target[i as int]));
        }
        i += 1;
    }
    proof {
        assert(target.take(i as int) =~= target);
    }
    join_strings(&lines, "")
}

/// The text rendering of an explain report, as `explain_text` says.
pub fn render_text_report(report: &ExplainReport) -> (r: String)
    ensures
        r@ == explain_text(report@),
{
    let mut out = String::new();
    if report.summary.matched_rule_count == 0 {
        out.append("Docpact explain: no matching rules for ");
        out.append(report.path.as_str());
        out.append(".\n");
        out.append("Warnings:\n");
        let w = warning_lines(&report.warnings);
        out.append(w.as_str());
        out.append("Next: run `docpact route --paths ");
        out.append(report.path.as_str());
        out.append("` for advisory navigation, or add a matching rule if this path should be governed.\n");
        return out;
    }
    let matched = decimal_string(report.summary.matched_rule_count);
    let expected = decimal_string(report.summary.expected_doc_count);
    out.append("Docpact explain: ");
    out.append(report.path.as_str());
    out.append(" matches ");
    out.append(matched.as_str());
    out.append(" rule(s) and expects ");
    out.append(expected.as_str());
    out.append(" doc(s).\n");
    out.append("Rules:\n");
    let rl = rule_lines(&report.matched_rules);
    out.append(rl.as_str());
    out.append("Expected docs:\n");
    if report.expected_docs.len() == 0 {
        out.append("- none\n");
    } else {
        let dl = doc_lines(&report.expected_docs);
        out.append(dl.as_str());
    }
    out.append("Next: run `docpact route --paths ");
    out.append(report.path.as_str());
    out.append("` for prioritized docs and workspace context.\n");
    out
}

/// The action explain names for a document follows its strongest mode: a body update
/// before a metadata refresh, before existence, before a review. So a document whose
/// modes hold a metadata refresh and no body update is to have its metadata refreshed,
/// and each mode on its own calls for its own, distinct action.
pub proof fn law_action_follows_strongest_mode(modes: Seq<RequiredDocMode>)
    ensures
        modes.contains(RequiredDocMode::BodyUpdateRequired) ==> action_name(modes) == "update body for"@,
        !modes.contains(RequiredDocMode::BodyUpdateRequired) && modes.contains(RequiredDocMode::MetadataRefreshRequired)
            ==> action_name(modes) == "refresh metadata for"@,
        !modes.contains(RequiredDocMode::BodyUpdateRequired) && !modes.contains(RequiredDocMode::MetadataRefreshRequired)
            && modes.contains(RequiredDocMode::MustExist) ==> action_name(modes) == "ensure exists"@,
        !modes.contains(RequiredDocMode::BodyUpdateRequired) && !modes.contains(RequiredDocMode::MetadataRefreshRequired)
            && !modes.contains(RequiredDocMode::MustExist) ==> action_name(modes) == "review or update"@,
        forall|a: RequiredDocMode, b: RequiredDocMode| a != b ==> action_name(seq![a]) != action_name(seq![b]),
{
    reveal_strlit("update body for");
    reveal_strlit("refresh metadata for");
    reveal_strlit("ensure exists");
    reveal_strlit("review or update");
    assert forall|a: RequiredDocMode, b: RequiredDocMode| a != b implies action_name(seq![a]) != action_name(seq![b]) by {
        assert(seq![a][0] == a);
        assert(seq![b][0] == b);
        assert(seq![a].contains(a));
        assert(seq![b].contains(b));
        assert(forall|m: RequiredDocMode| seq![a].contains(m) ==> m == a);
        assert(forall|m: RequiredDocMode| seq![b].contains(m) ==> m == b);
        assert("update body for"@[0] != "refresh metadata for"@[0]);
        assert("update body for"@[0] != "ensure exists"@[0]);
        assert("refresh metadata for"@[0] != "ensure exists"@[0]);
        assert("update body for"@.len() != "review or update"@.len());
        assert("refresh metadata for"@.len() != "review or update"@.len());
        assert("ensure exists"@.len() != "review or update"@.len());
    }
}

} // verus!
