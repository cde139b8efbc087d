//! The effective rules of a config graph, listed with their resolved paths.
use vstd::prelude::*;
use crate::config::effective::origin_name;
use crate::config::model::{LoadedRule, LoadedRuleView, RequiredDocView, TriggerView, loaded_views, opt_view};
use crate::config::paths::{resolve_rule_path, resolved_rule_path};
use crate::reporters::{OutputWarning, TOOL_NAME, TOOL_VERSION};
use crate::rules::{RequiredDocMode, mode_from, mode_name, mode_of_field};
use crate::text::{decimal, decimal_string, join, join_strings, str_to_string, views};

verus! {

/// The schema version of list-rules reports.
pub const LIST_RULES_SCHEMA_VERSION: &'static str = "docpact.list-rules.v1";

/// The list-rules report.
#[derive(Debug)]
pub struct ListRulesReport {
    pub schema_version: String,
    pub tool_name: String,
    pub tool_version: String,
    pub command: String,
    pub warnings: Vec<OutputWarning>,
    pub rule_count: usize,
    pub rules: Vec<ListedRule>,
}

/// One effective rule as listed.
#[derive(Debug)]
pub struct ListedRule {
    pub id: String,
    pub scope: String,
    pub repo: String,
    pub description: String,
    pub rule_source: String,
    pub config_source: String,
    pub provenance_kind: String,
    pub workspace_profile: Option<String>,
    pub base_dir: String,
    pub trigger_count: usize,
    pub required_doc_count: usize,
    pub triggers: Vec<ListedTrigger>,
    pub required_docs: Vec<ListedRequiredDoc>,
}

/// A trigger as written and as resolved against the rule's base directory.
#[derive(Debug)]
pub struct ListedTrigger {
    pub original_path: String,
    pub path: String,
    pub kind: Option<String>,
}

/// A required document as written and as resolved, with its mode.
#[derive(Debug)]
pub struct ListedRequiredDoc {
    pub original_path: String,
    pub path: String,
    pub mode: String,
}

/// The view of a listed trigger.
pub struct ListedTriggerView {
    pub original_path: Seq<char>,
    pub path: Seq<char>,
    pub kind: Option<Seq<char>>,
}

/// The view of a listed required document.
pub struct ListedDocView {
    pub original_path: Seq<char>,
    pub path: Seq<char>,
    pub mode: Seq<char>,
}

/// The view of a listed rule.
pub struct ListedRuleView {
    pub id: Seq<char>,
    pub scope: Seq<char>,
    pub repo: Seq<char>,
    pub description: Seq<char>,
    pub rule_source: Seq<char>,
    pub config_source: Seq<char>,
    pub provenance_kind: Seq<char>,
    pub workspace_profile: Option<Seq<char>>,
    pub base_dir: Seq<char>,
    pub trigger_count: nat,
    pub required_doc_count: nat,
    pub triggers: Seq<ListedTriggerView>,
    pub required_docs: Seq<ListedDocView>,
}

impl View for ListedTrigger {
    type V = ListedTriggerView;

    open spec fn view(&self) -> ListedTriggerView {
        ListedTriggerView { original_path: self.original_path@, path: self.path@, kind: opt_view(self.kind) }
    }
}

impl View for ListedRequiredDoc {
    type V = ListedDocView;

    open spec fn view(&self) -> ListedDocView {
        ListedDocView { original_path: self.original_path@, path: self.path@, mode: self.mode@ }
    }
}

impl View for ListedRule {
    type V = ListedRuleView;

    open spec fn view(&self) -> ListedRuleView {
        ListedRuleView {
            id: self.id@,
            scope: self.scope@,
            repo: self.repo@,
            description: self.description@,
            rule_source: self.rule_source@,
            config_source: self.config_source@,
            provenance_kind: self.provenance_kind@,
            workspace_profile: opt_view(self.workspace_profile),
            base_dir: self.base_dir@,
            trigger_count: self.trigger_count as nat,
            required_doc_count: self.required_doc_count as nat,
            triggers: self.triggers@.map_values(|t: ListedTrigger| t@),
            required_docs: self.required_docs@.map_values(|d: ListedRequiredDoc| d@),
        }
    }
}

/// The views of a list of listed rules.
pub open spec fn listed_views(v: Seq<ListedRule>) -> Seq<ListedRuleView> {
    v.map_values(|r: ListedRule| r@)
}

/// How a trigger of a rule with base directory `base` is listed.
pub open spec fn listed_trigger(base: Seq<char>, t: TriggerView) -> ListedTriggerView {
    ListedTriggerView { original_path: t.path, path: resolved_rule_path(base, t.path), kind: t.kind }
}

/// How a required document of a rule with base directory `base` is listed.
pub open spec fn listed_doc(base: Seq<char>, d: RequiredDocView) -> ListedDocView {
    ListedDocView { original_path: d.path, path: resolved_rule_path(base, d.path), mode: mode_name(mode_from(d.mode)) }
}

/// How a loaded rule is listed.
pub open spec fn listed_rule(l: LoadedRuleView) -> ListedRuleView {
    ListedRuleView {
        id: l.rule.id,
        scope: l.rule.scope,
        repo: l.rule.repo,
        description: l.rule.reason,
        rule_source: l.source,
        config_source: l.config_source,
        provenance_kind: origin_name(l.provenance.origin_kind),
        workspace_profile: l.provenance.workspace_profile,
        base_dir: l.base_dir,
        trigger_count: l.rule.triggers.len(),
        required_doc_count: l.rule.required_docs.len(),
        triggers: l.rule.triggers.map_values(|t: TriggerView| listed_trigger(l.base_dir, t)),
        required_docs: l.rule.required_docs.map_values(|d: RequiredDocView| listed_doc(l.base_dir, d)),
    }
}

/// How one loaded rule is listed, as `listed_rule` says.
pub fn list_rule(loaded: &LoadedRule) -> (r: ListedRule)
    ensures
        r@ == listed_rule(loaded@),
{
    let ghost lv = loaded@;
    let mut triggers: Vec<ListedTrigger> = Vec::new();
    let mut i: usize = 0;
    while i < loaded.rule.triggers.len()
        invariant
            i <= loaded.rule.triggers.len(),
            lv == loaded@,
            triggers@.map_values(|t: ListedTrigger| t@) == lv.rule.triggers.map_values(
                |t: TriggerView| listed_trigger(lv.base_dir, t),
            ).take(i as int),
        decreases loaded.rule.triggers.len() - i,
    {
        let t = &loaded.rule.triggers[i];
        let ghost prev = triggers@.map_values(|t: ListedTrigger| t@);
        triggers.push(
            ListedTrigger {
                original_path: t.path.clone(),
                path: resolve_rule_path(loaded.base_dir.as_str(), t.path.as_str()),
                kind: t.kind.clone(),
            },
        );
        proof {
            let target = lv.rule.triggers.map_values(|t: TriggerView| listed_trigger(lv.base_dir, t));
            assert(triggers@.map_values(|t: ListedTrigger| t@) =~= prev.push(target[i as int]));
            assert(target.take(i + 1) =~= prev.push(target[i as int]));
        }
        i += 1;
    }
    let mut docs: Vec<ListedRequiredDoc> = Vec::new();
    let mut j: usize = 0;
    while j < loaded.rule.required_docs.len()
        invariant
            j <= loaded.rule.required_docs.len(),
            lv == loaded@,
            docs@.map_values(|d: ListedRequiredDoc| d@) == lv.rule.required_docs.map_values(
                |d: RequiredDocView| listed_doc(lv.base_dir, d),
            ).take(j as int),
        decreases loaded.rule.required_docs.len() - j,
    {
        let d = &loaded.rule.required_docs[j];
        let ghost prev = docs@.map_values(|d: ListedRequiredDoc| d@);
        let mode = mode_of_field(&d.mode);
        docs.push(
            ListedRequiredDoc {
                original_path: d.path.clone(),
                path: resolve_rule_path(loaded.base_dir.as_str(), d.path.as_str()),
                mode: str_to_string(mode.as_str()),
            },
        );
        proof {
            let target = lv.rule.required_docs.map_values(|d: RequiredDocView| listed_doc(lv.base_dir, d));
            assert(docs@.map_values(|d: ListedRequiredDoc| d@) =~= prev.push(target[j as int]));
            assert(target.take(j + 1) =~= prev.push(target[j as int]));
        }
        j += 1;
    }
    proof {
        assert(lv.rule.triggers.map_values(|t: TriggerView| listed_trigger(lv.base_dir, t)).take(i as int)
            =~= lv.rule.triggers.map_values(|t: TriggerView| listed_trigger(lv.base_dir, t)));
        assert(lv.rule.required_docs.map_values(|d: RequiredDocView| listed_doc(lv.base_dir, d)).take(j as int)
            =~= lv.rule.required_docs.map_values(|d: RequiredDocView| listed_doc(lv.base_dir, d)));
    }
    ListedRule {
        id: loaded.rule.id.clone(),
        scope: loaded.rule.scope.clone(),
        repo: loaded.rule.repo.clone(),
        description: loaded.rule.reason.clone(),
        rule_source: loaded.source.clone(),
        config_source: loaded.config_source.clone(),
        provenance_kind: str_to_string(loaded.provenance.origin_kind.as_str()),
        workspace_profile: loaded.provenance.workspace_profile.clone(),
        base_dir: loaded.base_dir.clone(),
        trigger_count: triggers.len(),
        required_doc_count: docs.len(),
        triggers,
        required_docs: docs,
    }
}

/// The list-rules report of the effective rules, one listed rule per loaded rule in
/// order.
pub fn list_rules_report(loaded_rules: &[LoadedRule]) -> (r: ListRulesReport)
    ensures
        r.schema_version@ == LIST_RULES_SCHEMA_VERSION@,
        r.tool_name@ == TOOL_NAME@,
        r.tool_version@ == TOOL_VERSION@,
        r.command@ == "list-rules"@,
        r.warnings@.len() == 0,
        r.rule_count == r.rules@.len(),
        listed_views(r.rules@) == loaded_views(loaded_rules@).map_values(|l: LoadedRuleView| listed_rule(l)),
{
    let ghost target = loaded_views(loaded_rules@).map_values(|l: LoadedRuleView| listed_rule(l));
    let mut rules: Vec<ListedRule> = Vec::new();
    let mut i: usize = 0;
    while i < loaded_rules.len()
        invariant
            i <= loaded_rules.len(),
            target == loaded_views(loaded_rules@).map_values(|l: LoadedRuleView| listed_rule(l)),
            listed_views(rules@) == target.take(i as int),
        decreases loaded_rules.len() - i,
    {
        let ghost prev = listed_views(rules@);
        rules.push(list_rule(&loaded_rules[i]));
        proof {
            assert(listed_views(rules@) =~= prev.push(target[i as int]));
            assert(target.take(i + 1) =~= prev.push(target[i as int]));
        }
        i += 1;
    }
    proof {
        assert(target.take(i as int) =~= target);
    }
    ListRulesReport {
        schema_version: str_to_string(LIST_RULES_SCHEMA_VERSION),
        tool_name: str_to_string(TOOL_NAME),
        tool_version: str_to_string(TOOL_VERSION),
        command: str_to_string("list-rules"),
        warnings: Vec::new(),
        rule_count: rules.len(),
        rules,
    }
}

/// The text line of a listed trigger.
pub open spec fn trigger_text(t: ListedTriggerView) -> Seq<char> {
    match t.kind {
        Some(k) => "  trigger: "@ + t.path + " (from "@ + t.original_path + "; kind: "@ + k + ")\n"@,
        None => "  trigger: "@ + t.path + " (from "@ + t.original_path + ")\n"@,
    }
}

/// The text line of a listed required document.
pub open spec fn required_doc_text(d: ListedDocView) -> Seq<char> {
    "  expects: "@ + d.path + " (from "@ + d.original_path + "; mode: "@ + d.mode + ")\n"@
}

/// The text block of a listed rule: its header, description, profile, triggers and
/// required documents.
pub open spec fn rule_text(r: ListedRuleView) -> Seq<char> {
    "- "@ + r.id + ": "@ + decimal(r.trigger_count) + " trigger(s) -> "@ + decimal(r.required_doc_count)
        + " required doc(s) (source: "@ + r.rule_source + ", origin: "@ + r.provenance_kind + ", scope: "@ + r.scope
        + ", repo: "@ + r.repo + ")\n"@ + "  description: "@ + r.description + "\n"@ + (match r.workspace_profile {
        Some(p) => "  workspace profile: "@ + p + "\n"@,
        None => Seq::empty(),
    }) + (if r.triggers.len() == 0 {
        "  triggers: none\n"@
    } else {
        join(r.triggers.map_values(|t: ListedTriggerView| trigger_text(t)), ""@)
    }) + (if r.required_docs.len() == 0 {
        "  required docs: none\n"@
    } else {
        join(r.required_docs.map_values(|d: ListedDocView| required_doc_text(d)), ""@)
    })
}

/// The text rendering of a list-rules report.
pub open spec fn list_rules_text(rule_count: nat, rules: Seq<ListedRuleView>) -> Seq<char> {
    "Docpact list-rules: "@ + decimal(rule_count) + " effective rule(s).\n"@ + "Rules:\n"@ + if rules.len() == 0 {
        "- none\n"@
            + "Next: add rules to `.docpact/config.yaml`, or run `docpact doctor --root .` for onboarding diagnostics.\n"@
    } else {
        join(rules.map_values(|r: ListedRuleView| rule_text(r)), ""@)
            + "Next: use `docpact explain <path> --root .` to inspect one path against these rules.\n"@
    }
}

fn render_rule(r: &ListedRule) -> (s: String)
    ensures
        s@ == rule_text(r@),
{
    let mut out = str_to_string("- ");
    out.append(r.id.as_str());
    out.append(": ");
    out.append(decimal_string(r.trigger_count).as_str());
    out.append(" trigger(s) -> ");
    out.append(decimal_string(r.required_doc_count).as_str());
    out.append(" required doc(s) (source: ");
    out.append(r.rule_source.as_str());
    out.append(", origin: ");
    out.append(r.provenance_kind.as_str());
    out.append(", scope: ");
    out.append(r.scope.as_str());
    out.append(", repo: ");
    out.append(r.repo.as_str());
    out.append(")\n");
    out.append("  description: ");
    out.append(r.description.as_str());
    out.append("\n");
    match &r.workspace_profile {
        Some(p) => {
            out.append("  workspace profile: ");
            out.append(p.as_str());
            out.append("\n");
        },
        None => {
            proof {
                assert(out@ + Seq::<char>::empty() =~= out@);
            }
        },
    }
    if r.triggers.len() == 0 {
        out.append("  triggers: none\n");
    } else {
        let ghost target = r@.triggers.map_values(|t: ListedTriggerView| trigger_text(t));
        let mut lines: Vec<String> = Vec::new();
        let mut i: usize = 0;
        while i < r.triggers.len()
            invariant
                i <= r.triggers.len(),
                target == r@.triggers.map_values(|t: ListedTriggerView| trigger_text(t)),
                views(lines@) == target.take(i as int),
            decreases r.triggers.len() - i,
        {
            let t = &r.triggers[i];
            let mut line = str_to_string("  trigger: ");
            line.append(t.path.as_str());
            line.append(" (from ");
            line.append(t.original_path.as_str());
            match &t.kind {
                Some(k) => {
                    line.append("; kind: ");
                    line.append(k.as_str());
                    line.append(")\n");
                },
                None => {
                    line.append(")\n");
                },
            }
            let ghost prev = views(lines@);
            lines.push(line);
            proof {
                assert(views(lines@) =~= prev.push(target[i as int]));
                assert(target.take(i + 1) =~= prev.push(target[i as int]));
            }
            i += 1;
        }
        proof {
            assert(target.take(i as int) =~= target);
        }
        out.append(join_strings(&lines, "").as_str());
    }
    if r.required_docs.len() == 0 {
        out.append("  required docs: none\n");
    } else {
        let ghost target = r@.required_docs.map_values(|d: ListedDocView| required_doc_text(d));
        let mut lines: Vec<String> = Vec::new();
        let mut i: usize = 0;
        while i < r.required_docs.len()
            invariant
                i <= r.required_docs.len(),
                target == r@.required_docs.map_values(|d: ListedDocView| required_doc_text(d)),
                views(lines@) == target.take(i as int),
            decreases r.required_docs.len() - i,
        {
            let d = &r.required_docs[i];
            let mut line = str_to_string("  expects: ");
            line.append(d.path.as_str());
            line.append(" (from ");
            line.append(d.original_path.as_str());
            line.append("; mode: ");
            line.append(d.mode.as_str());
            line.append(")\n");
            let ghost prev = views(lines@);
            lines.push(line);
            proof {
                assert(views(lines@) =~= prev.push(target[i as int]));
                assert(target.take(i + 1) =~= prev.push(target[i as int]));
            }
            i += 1;
        }
        proof {
            assert(target.take(i as int) =~= target);
        }
        out.append(join_strings(&lines, "").as_str());
    }
    out
}

/// The text rendering of a list-rules report, as `list_rules_text` says.
pub fn render_list_rules_text(report: &ListRulesReport) -> (s: String)
    ensures
        s@ == list_rules_text(report.rule_count as nat, listed_views(report.rules@)),
{
    let mut out = str_to_string("Docpact list-rules: ");
    out.append(decimal_string(report.rule_count).as_str());
    out.append(" effective rule(s).\n");
    out.append("Rules:\n");
    if report.rules.len() == 0 {
        out.append("- none\n");
        out.append(
            "Next: add rules to `.docpact/config.yaml`, or run `docpact doctor --root .` for onboarding diagnostics.\n",
        );
        return out;
    }
    let ghost target = listed_views(report.rules@).map_values(|r: ListedRuleView| rule_text(r));
    let mut blocks: Vec<String> = Vec::new();
    let mut i: usize = 0;
    while i < report.rules.len()
        invariant
            i <= report.rules.len(),
            target == listed_views(report.rules@).map_values(|r: ListedRuleView| rule_text(r)),
            views(blocks@) == target.take(i as int),
        decreases report.rules.len() - i,
    {
        let ghost prev = views(blocks@);
        blocks.push(render_rule(&report.rules[i]));
        proof {
            assert(views(blocks@) =~= prev.push(target[i as int]));
            assert(target.take(i + 1) =~= prev.push(target[i as int]));
        }
        i += 1;
    }
    proof {
        assert(target.take(i as int) =~= target);
    }
    out.append(join_strings(&blocks, "").as_str());
    out.append("Next: use `docpact explain <path> --root .` to inspect one path against these rules.\n");
    out
}

} // verus!
