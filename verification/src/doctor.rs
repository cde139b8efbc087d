//! The onboarding diagnosis of a config graph: a summary of what is configured, one
//! line per effective config, and the findings that need attention.
use vstd::prelude::*;
use vstd::string::*;
use crate::config::effective::{all_rules, block_source_name, effective_views};
use crate::config::model::{
    ConfigBlockSourceKind, EffectiveConfig, EffectiveView, ImpactLayout, LoadedCatalogConfig,
    LoadedOwnershipConfig, LoadedRuleView, OwnershipAnalysis, loaded_views,
};
use crate::config::ownership::{AnalysisView, ConflictView, OverlapView, analysis_of, analyze_ownership_paths, owner_entries};
use crate::config::paths::{resolve_rule_path, resolved_rule_path};
use crate::reporters::{TOOL_NAME, TOOL_VERSION};
use crate::text::{
    cat2, cat3, chars_occur_at, chars_of, decimal, decimal_string, join, join_strings,
    lemma_sorted_set_is, occurs_at, sorted_set, sorted_unique_strings, str_to_string,
    string_of_range, views,
};

verus! {

/// The schema version of doctor reports.
pub const DOCTOR_SCHEMA_VERSION: &'static str = "docpact.doctor.v1";

/// The doctor report.
#[derive(Debug)]
pub struct DoctorReport {
    pub schema_version: String,
    pub tool_name: String,
    pub tool_version: String,
    pub command: String,
    pub warnings: Vec<crate::reporters::OutputWarning>,
    pub summary: DoctorSummary,
    pub configs: Vec<DoctorConfig>,
    pub findings: Vec<DoctorFinding>,
}

/// What the config graph configures, in counts and flags.
#[derive(Debug)]
pub struct DoctorSummary {
    pub config_present: bool,
    pub layout: String,
    pub effective_config_count: usize,
    pub inherited_config_count: usize,
    pub rule_count: usize,
    pub catalog_repo_count: usize,
    pub ownership_domain_count: usize,
    pub ownership_overlap_count: usize,
    pub ownership_conflict_count: usize,
    pub coverage_configured: bool,
    pub routing_configured: bool,
    pub doc_inventory_configured: bool,
    pub freshness_configured: bool,
    pub routing_intent_count: usize,
    pub governed_doc_count: usize,
}

/// One effective config as the doctor describes it.
#[derive(Debug)]
pub struct DoctorConfig {
    pub source: String,
    pub base_dir: String,
    pub rule_count: usize,
    pub catalog_repo_count: usize,
    pub ownership_domain_count: usize,
    pub governed_doc_count: usize,
    pub inheritance_enabled: bool,
    pub workspace_profile: Option<String>,
    pub coverage_resolution: String,
    pub routing_resolution: String,
    pub doc_inventory_resolution: String,
    pub freshness_resolution: String,
    pub routing_intent_count: usize,
    pub override_add_count: usize,
    pub override_replace_count: usize,
    pub override_disable_count: usize,
}

/// One finding of the doctor.
#[derive(Debug)]
pub struct DoctorFinding {
    pub code: String,
    pub severity: String,
    pub message: String,
    pub source: String,
}

/// The view of a doctor summary.
pub struct SummaryView {
    pub config_present: bool,
    pub layout: Seq<char>,
    pub effective_config_count: nat,
    pub inherited_config_count: nat,
    pub rule_count: nat,
    pub catalog_repo_count: nat,
    pub ownership_domain_count: nat,
    pub ownership_overlap_count: nat,
    pub ownership_conflict_count: nat,
    pub coverage_configured: bool,
    pub routing_configured: bool,
    pub doc_inventory_configured: bool,
    pub freshness_configured: bool,
    pub routing_intent_count: nat,
    pub governed_doc_count: nat,
}

impl View for DoctorSummary {
    type V = SummaryView;

    open spec fn view(&self) -> SummaryView {
        SummaryView {
            config_present: self.config_present,
            layout: self.layout@,
            effective_config_count: self.effective_config_count as nat,
            inherited_config_count: self.inherited_config_count as nat,
            rule_count: self.rule_count as nat,
            catalog_repo_count: self.catalog_repo_count as nat,
            ownership_domain_count: self.ownership_domain_count as nat,
            ownership_overlap_count: self.ownership_overlap_count as nat,
            ownership_conflict_count: self.ownership_conflict_count as nat,
            coverage_configured: self.coverage_configured,
            routing_configured: self.routing_configured,
            doc_inventory_configured: self.doc_inventory_configured,
            freshness_configured: self.freshness_configured,
            routing_intent_count: self.routing_intent_count as nat,
            governed_doc_count: self.governed_doc_count as nat,
        }
    }
}

/// The view of a doctor config line.
pub struct ConfigLineView {
    pub source: Seq<char>,
    pub base_dir: Seq<char>,
    pub rule_count: nat,
    pub catalog_repo_count: nat,
    pub ownership_domain_count: nat,
    pub governed_doc_count: nat,
    pub inheritance_enabled: bool,
    pub workspace_profile: Option<Seq<char>>,
    pub coverage_resolution: Seq<char>,
    pub routing_resolution: Seq<char>,
    pub doc_inventory_resolution: Seq<char>,
    pub freshness_resolution: Seq<char>,
    pub routing_intent_count: nat,
    pub override_add_count: nat,
    pub override_replace_count: nat,
    pub override_disable_count: nat,
}

impl View for DoctorConfig {
    type V = ConfigLineView;

    open spec fn view(&self) -> ConfigLineView {
        ConfigLineView {
            source: self.source@,
            base_dir: self.base_dir@,
            rule_count: self.rule_count as nat,
            catalog_repo_count: self.catalog_repo_count as nat,
            ownership_domain_count: self.ownership_domain_count as nat,
            governed_doc_count: self.governed_doc_count as nat,
            inheritance_enabled: self.inheritance_enabled,
            workspace_profile: crate::config::model::opt_view(self.workspace_profile),
            coverage_resolution: self.coverage_resolution@,
            routing_resolution: self.routing_resolution@,
            doc_inventory_resolution: self.doc_inventory_resolution@,
            freshness_resolution: self.freshness_resolution@,
            routing_intent_count: self.routing_intent_count as nat,
            override_add_count: self.override_add_count as nat,
            override_replace_count: self.override_replace_count as nat,
            override_disable_count: self.override_disable_count as nat,
        }
    }
}

/// The view of a doctor finding.
pub struct FindingView {
    pub code: Seq<char>,
    pub severity: Seq<char>,
    pub message: Seq<char>,
    pub source: Seq<char>,
}

impl View for DoctorFinding {
    type V = FindingView;

    open spec fn view(&self) -> FindingView {
        FindingView { code: self.code@, severity: self.severity@, message: self.message@, source: self.source@ }
    }
}

/// The views of a list of findings.
pub open spec fn finding_views(v: Seq<DoctorFinding>) -> Seq<FindingView> {
    v.map_values(|f: DoctorFinding| f@)
}

/// The views of a list of config lines.
pub open spec fn config_line_views(v: Seq<DoctorConfig>) -> Seq<ConfigLineView> {
    v.map_values(|c: DoctorConfig| c@)
}

/// A finding.
pub open spec fn finding(code: Seq<char>, severity: Seq<char>, message: Seq<char>, source: Seq<char>) -> FindingView {
    FindingView { code, severity, message, source }
}

/// The label of a layout.
pub open spec fn layout_name(l: ImpactLayout) -> Seq<char> {
    match l {
        ImpactLayout::Repo => "repo"@,
        ImpactLayout::Workspace => "workspace"@,
        ImpactLayout::Absent => "none"@,
    }
}

/// The label of a layout.
pub fn layout_label(layout: ImpactLayout) -> (s: &'static str)
    ensures
        s@ == layout_name(layout),
{
    match layout {
        ImpactLayout::Repo => "repo",
        ImpactLayout::Workspace => "workspace",
        ImpactLayout::Absent => "none",
    }
}

/// The first position at which `t` occurs in `s`.
pub open spec fn first_occurrence(s: Seq<char>, t: Seq<char>) -> Option<int> {
    if exists|i: int| occurs_at(s, t, i) {
        Some(choose|i: int| occurs_at(s, t, i) && forall|j: int| 0 <= j < i ==> !occurs_at(s, t, j))
    } else {
        None
    }
}

proof fn lemma_first_occurrence_is(s: Seq<char>, t: Seq<char>, i: int)
    requires
        occurs_at(s, t, i),
        forall|j: int| 0 <= j < i ==> !#[trigger] occurs_at(s, t, j),
    ensures
        first_occurrence(s, t) == Some(i),
{
    let c = choose|c: int| occurs_at(s, t, c) && forall|j: int| 0 <= j < c ==> !occurs_at(s, t, j);
    assert(occurs_at(s, t, c) && forall|j: int| 0 <= j < c ==> !occurs_at(s, t, j));
    if c < i {
        assert(!occurs_at(s, t, c));
    }
    if c > i {
        assert(!occurs_at(s, t, i));
    }
}

proof fn lemma_no_occurrence(s: Seq<char>, t: Seq<char>)
    requires
        forall|j: int| 0 <= j <= s.len() ==> !#[trigger] occurs_at(s, t, j),
    ensures
        first_occurrence(s, t) is None,
{
    if exists|c: int| occurs_at(s, t, c) {
        let c = choose|c: int| occurs_at(s, t, c);
        assert(!occurs_at(s, t, c));
    }
}

fn find_first(s: &Vec<char>, t: &Vec<char>) -> (r: Option<usize>)
    ensures
        match r {
            Some(i) => first_occurrence(s@, t@) == Some(i as int) && i <= s@.len(),
            None => first_occurrence(s@, t@) is None,
        },
{
    let mut i: usize = 0;
    loop
        invariant
            i <= s.len(),
            forall|j: int| 0 <= j < i ==> !#[trigger] occurs_at(s@, t@, j),
        decreases s.len() - i,
    {
        if chars_occur_at(s, t, i) {
            proof {
                lemma_first_occurrence_is(s@, t@, i as int);
            }
            return Some(i);
        }
        if i == s.len() {
            proof {
                lemma_no_occurrence(s@, t@);
            }
            return None;
        }
        i += 1;
    }
}

/// The config source a load error names: the text before the first marker that config
/// and YAML errors put after the source.
pub open spec fn config_source_of(message: Seq<char>) -> Option<Seq<char>> {
    match first_occurrence(message, " is not a valid docpact config file."@) {
        Some(i) => Some(message.take(i)),
        None => match first_occurrence(message, " is not valid YAML for docpact."@) {
            Some(i) => Some(message.take(i)),
            None => None,
        },
    }
}

/// The config source a load error names, as `config_source_of` says.
pub fn extract_config_source(message: &str) -> (r: Option<String>)
    ensures
        crate::config::model::opt_view(r) == config_source_of(message@),
{
    let m = chars_of(message);
    match find_first(&m, &chars_of(" is not a valid docpact config file.")) {
        Some(i) => Some(string_of_range(&m, 0, i)),
        None => match find_first(&m, &chars_of(" is not valid YAML for docpact.")) {
            Some(i) => Some(string_of_range(&m, 0, i)),
            None => None,
        },
    }
}

/// Up to three example paths joined with `, `, or `-` when there are none.
pub open spec fn path_examples(paths: Seq<Seq<char>>) -> Seq<char> {
    if paths.len() == 0 {
        "-"@
    } else {
        join(paths.take(if paths.len() < 3 { paths.len() as int } else { 3 }), ", "@)
    }
}

/// Up to three example paths, as `path_examples` says.
pub fn summarize_paths(paths: &Vec<String>) -> (r: String)
    ensures
        r@ == path_examples(views(paths@)),
{
    if paths.len() == 0 {
        return str_to_string("-");
    }
    let n: usize = if paths.len() < 3 { paths.len() } else { 3 };
    let mut first: Vec<String> = Vec::new();
    let mut i: usize = 0;
    while i < n
        invariant
            i <= n <= paths.len(),
            views(first@) == views(paths@).take(i as int),
        decreases n - i,
    {
        let ghost prev = views(first@);
        first.push(paths[i].clone());
        proof {
            assert(views(first@) =~= prev.push(paths@[i as int]@));
            assert(views(paths@).take(i + 1) =~= views(paths@).take(i as int).push(paths@[i as int]@));
        }
        i += 1;
    }
    join_strings(&first, ", ")
}

/// The resolved required document paths of the rules, in order.
pub open spec fn governed_paths(rules: Seq<LoadedRuleView>) -> Seq<Seq<char>>
    decreases rules.len(),
{
    if rules.len() == 0 {
        Seq::empty()
    } else {
        let l = rules.last();
        governed_paths(rules.drop_last()) + l.rule.required_docs.map_values(
            |d: crate::config::model::RequiredDocView| resolved_rule_path(l.base_dir, d.path),
        )
    }
}

/// The number of rules of all effective configs.
pub open spec fn total_rules(e: Seq<EffectiveView>) -> nat {
    all_rules(e).len()
}

/// The number of routing intents of all effective configs.
pub open spec fn total_intents(e: Seq<EffectiveView>) -> nat
    decreases e.len(),
{
    if e.len() == 0 {
        0
    } else {
        total_intents(e.drop_last()) + e.last().routing.intents.len()
    }
}

/// The number of effective configs that inherit from a profile.
pub open spec fn inherited_count(e: Seq<EffectiveView>) -> nat
    decreases e.len(),
{
    if e.len() == 0 {
        0
    } else {
        inherited_count(e.drop_last()) + if e.last().inheritance is Some { 1nat } else { 0nat }
    }
}

/// Some effective config has coverage patterns.
pub open spec fn coverage_configured(e: Seq<EffectiveView>) -> bool {
    exists|i: int| 0 <= i < e.len() && (#[trigger] e[i]).coverage.block.includes.len() + e[i].coverage.block.exclude.len() > 0
}

/// Some effective config has doc inventory patterns.
pub open spec fn doc_inventory_configured(e: Seq<EffectiveView>) -> bool {
    exists|i: int| 0 <= i < e.len() && (#[trigger] e[i]).doc_inventory.block.includes.len() + e[i].doc_inventory.block.exclude.len() > 0
}

/// Some effective config has routing intents.
pub open spec fn routing_configured(e: Seq<EffectiveView>) -> bool {
    exists|i: int| 0 <= i < e.len() && (#[trigger] e[i]).routing.intents.len() > 0
}

/// Some effective config has freshness thresholds that are not the defaults' source.
pub open spec fn freshness_configured(e: Seq<EffectiveView>) -> bool {
    exists|i: int| 0 <= i < e.len() && (#[trigger] e[i]).freshness.resolution.origin_kind != ConfigBlockSourceKind::Default
}

/// The number of catalog repos of all configs.
pub open spec fn total_repos(c: Seq<LoadedCatalogConfig>) -> nat
    decreases c.len(),
{
    if c.len() == 0 {
        0
    } else {
        total_repos(c.drop_last()) + c.last().catalog.repos@.len()
    }
}

/// The number of ownership domains of all configs.
pub open spec fn total_domains(o: Seq<LoadedOwnershipConfig>) -> nat
    decreases o.len(),
{
    if o.len() == 0 {
        0
    } else {
        total_domains(o.drop_last()) + o.last().ownership.domains@.len()
    }
}

/// The repo count of the last catalog config with source `source`, or 0.
pub open spec fn catalog_count_for(c: Seq<LoadedCatalogConfig>, source: Seq<char>) -> nat
    decreases c.len(),
{
    if c.len() == 0 {
        0
    } else if c.last().source@ == source {
        c.last().catalog.repos@.len()
    } else {
        catalog_count_for(c.drop_last(), source)
    }
}

/// The domain count of the last ownership config with source `source`, or 0.
pub open spec fn ownership_count_for(o: Seq<LoadedOwnershipConfig>, source: Seq<char>) -> nat
    decreases o.len(),
{
    if o.len() == 0 {
        0
    } else if o.last().source@ == source {
        o.last().ownership.domains@.len()
    } else {
        ownership_count_for(o.drop_last(), source)
    }
}

/// How the doctor describes one effective config.
pub open spec fn config_line(e: EffectiveView, c: Seq<LoadedCatalogConfig>, o: Seq<LoadedOwnershipConfig>) -> ConfigLineView {
    ConfigLineView {
        source: e.source,
        base_dir: e.base_dir,
        rule_count: e.rules.len(),
        catalog_repo_count: catalog_count_for(c, e.source),
        ownership_domain_count: ownership_count_for(o, e.source),
        governed_doc_count: sorted_set(governed_paths(e.rules)).len(),
        inheritance_enabled: e.inheritance is Some,
        workspace_profile: match e.inheritance {
            Some(i) => Some(i.workspace_profile),
            None => None,
        },
        coverage_resolution: block_source_name(e.coverage.resolution.origin_kind),
        routing_resolution: block_source_name(e.routing.resolution.origin_kind),
        doc_inventory_resolution: block_source_name(e.doc_inventory.resolution.origin_kind),
        freshness_resolution: block_source_name(e.freshness.resolution.origin_kind),
        routing_intent_count: e.routing.intents.len(),
        override_add_count: match e.inheritance {
            Some(i) => i.add_count,
            None => 0,
        },
        override_replace_count: match e.inheritance {
            Some(i) => i.replace_count,
            None => 0,
        },
        override_disable_count: match e.inheritance {
            Some(i) => i.disable_count,
            None => 0,
        },
    }
}

fn count_repos_for(c: &[LoadedCatalogConfig], source: &String) -> (r: usize)
    ensures
        r == catalog_count_for(c@, source@),
{
    let sv = chars_of(source.as_str());
    let mut i: usize = c.len();
    proof {
        assert(c@.take(i as int) =~= c@);
    }
    while i > 0
        invariant
            i <= c.len(),
            sv@ == source@,
            catalog_count_for(c@, source@) == catalog_count_for(c@.take(i as int), source@),
        decreases i,
    {
        proof {
            assert(c@.take(i as int).drop_last() =~= c@.take(i - 1));
            assert(c@.take(i as int).last() == c@[i - 1]);
        }
        if crate::text::chars_eq(&chars_of(c[i - 1].source.as_str()), &sv) {
            return c[i - 1].catalog.repos.len();
        }
        i -= 1;
    }
    0
}

fn count_domains_for(o: &[LoadedOwnershipConfig], source: &String) -> (r: usize)
    ensures
        r == ownership_count_for(o@, source@),
{
    let sv = chars_of(source.as_str());
    let mut i: usize = o.len();
    proof {
        assert(o@.take(i as int) =~= o@);
    }
    while i > 0
        invariant
            i <= o.len(),
            sv@ == source@,
            ownership_count_for(o@, source@) == ownership_count_for(o@.take(i as int), source@),
        decreases i,
    {
        proof {
            assert(o@.take(i as int).drop_last() =~= o@.take(i - 1));
            assert(o@.take(i as int).last() == o@[i - 1]);
        }
        if crate::text::chars_eq(&chars_of(o[i - 1].source.as_str()), &sv) {
            return o[i - 1].ownership.domains.len();
        }
        i -= 1;
    }
    0
}

/// Appends the resolved required document paths of `rules`.
fn push_governed_paths(rules: &Vec<crate::config::model::LoadedRule>, out: &mut Vec<String>)
    ensures
        views(final(out)@) == views(old(out)@) + governed_paths(loaded_views(rules@)),
{
    let ghost base = views(out@);
    let ghost lv = loaded_views(rules@);
    let mut i: usize = 0;
    while i < rules.len()
        invariant
            i <= rules.len(),
            lv == loaded_views(rules@),
            views(out@) == base + governed_paths(lv.take(i as int)),
        decreases rules.len() - i,
    {
        let l = &rules[i];
        proof {
            assert(lv.take(i + 1).drop_last() =~= lv.take(i as int));
            assert(lv.take(i + 1).last() == l@);
        }
        let ghost mid = views(out@);
        let ghost docs = l@.rule.required_docs.map_values(
            |d: crate::config::model::RequiredDocView| resolved_rule_path(l@.base_dir, d.path),
        );
        let mut j: usize = 0;
        while j < l.rule.required_docs.len()
            invariant
                j <= l.rule.required_docs.len(),
                docs == l@.rule.required_docs.map_values(
                    |d: crate::config::model::RequiredDocView| resolved_rule_path(l@.base_dir, d.path),
                ),
                views(out@) == mid + docs.take(j as int),
            decreases l.rule.required_docs.len() - j,
        {
            let ghost prev = views(out@);
            out.push(resolve_rule_path(l.base_dir.as_str(), l.rule.required_docs[j].path.as_str()));
            proof {
                assert(docs[j as int] == resolved_rule_path(l@.base_dir, l.rule.required_docs@[j as int].path@));
                assert(views(out@) =~= prev.push(docs[j as int]));
                assert(docs.take(j + 1) =~= docs.take(j as int).push(docs[j as int]));
            }
            j += 1;
        }
        proof {
            assert(docs.take(l.rule.required_docs.len() as int) =~= docs);
            assert(views(out@) =~= base + governed_paths(lv.take(i + 1)));
        }
        i += 1;
    }
    proof {
        assert(lv.take(rules.len() as int) =~= lv);
    }
}

fn governed_count(paths: Vec<String>) -> (r: usize)
    ensures
        r == sorted_set(views(paths@)).len(),
{
    let ghost pv = views(paths@);
    let u = sorted_unique_strings(paths);
    proof {
        lemma_sorted_set_is(views(u@), pv);
    }
    u.len()
}

/// The doctor's line for one effective config, as `config_line` says.
pub fn build_doctor_config(
    config: &EffectiveConfig,
    catalog_configs: &[LoadedCatalogConfig],
    ownership_configs: &[LoadedOwnershipConfig],
) -> (r: DoctorConfig)
    ensures
        r@ == config_line(config@, catalog_configs@, ownership_configs@),
{
    let mut paths: Vec<String> = Vec::new();
    push_governed_paths(&config.rules, &mut paths);
    proof {
        assert(views(paths@) =~= governed_paths(loaded_views(config.rules@)));
    }
    let governed_doc_count = governed_count(paths);
    let (profile, add, replace, disable) = match &config.inheritance {
        Some(i) => (Some(i.workspace_profile.clone()), i.add_count, i.replace_count, i.disable_count),
        None => (None, 0, 0, 0),
    };
    DoctorConfig {
        source: config.source.clone(),
        base_dir: config.base_dir.clone(),
        rule_count: config.rules.len(),
        catalog_repo_count: count_repos_for(catalog_configs, &config.source),
        ownership_domain_count: count_domains_for(ownership_configs, &config.source),
        governed_doc_count,
        inheritance_enabled: config.inheritance.is_some(),
        workspace_profile: profile,
        coverage_resolution: str_to_string(config.coverage.resolution.origin_kind.as_str()),
        routing_resolution: str_to_string(config.routing.resolution.origin_kind.as_str()),
        doc_inventory_resolution: str_to_string(config.doc_inventory.resolution.origin_kind.as_str()),
        freshness_resolution: str_to_string(config.freshness.resolution.origin_kind.as_str()),
        routing_intent_count: config.routing.routing.intents.len(),
        override_add_count: add,
        override_replace_count: replace,
        override_disable_count: disable,
    }
}

/// The doctor's lines for the effective configs, in order.
pub fn build_doctor_configs(
    effective_configs: &Vec<EffectiveConfig>,
    catalog_configs: &[LoadedCatalogConfig],
    ownership_configs: &[LoadedOwnershipConfig],
) -> (r: Vec<DoctorConfig>)
    ensures
        config_line_views(r@) == effective_views(effective_configs@).map_values(
            |e: EffectiveView| config_line(e, catalog_configs@, ownership_configs@),
        ),
{
    let ghost ev = effective_views(effective_configs@);
    let ghost target = ev.map_values(|e: EffectiveView| config_line(e, catalog_configs@, ownership_configs@));
    let mut r: Vec<DoctorConfig> = Vec::new();
    let mut i: usize = 0;
    while i < effective_configs.len()
        invariant
            i <= effective_configs.len(),
            ev == effective_views(effective_configs@),
            target == ev.map_values(|e: EffectiveView| config_line(e, catalog_configs@, ownership_configs@)),
            config_line_views(r@) == target.take(i as int),
        decreases effective_configs.len() - i,
    {
        let ghost prev = config_line_views(r@);
        r.push(build_doctor_config(&effective_configs[i], catalog_configs, ownership_configs));
        proof {
            assert(config_line_views(r@) =~= prev.push(target[i as int]));
            assert(target.take(i + 1) =~= target.take(i as int).push(target[i as int]));
        }
        i += 1;
    }
    proof {
        assert(target.take(effective_configs.len() as int) =~= target);
    }
    r
}


proof fn lemma_governed_paths_append(a: Seq<LoadedRuleView>, b: Seq<LoadedRuleView>)
    ensures
        governed_paths(a + b) == governed_paths(a) + governed_paths(b),
    decreases b.len(),
{
    if b.len() == 0 {
        assert(a + b =~= a);
        assert(governed_paths(a) + governed_paths(b) =~= governed_paths(a));
    } else {
        assert((a + b).drop_last() =~= a + b.drop_last());
        assert((a + b).last() == b.last());
        lemma_governed_paths_append(a, b.drop_last());
    }
}

proof fn lemma_totals_prefix(e: Seq<EffectiveView>, i: int)
    requires
        0 <= i <= e.len(),
    ensures
        total_rules(e.take(i)) <= total_rules(e),
        total_intents(e.take(i)) <= total_intents(e),
    decreases e.len() - i,
{
    if i < e.len() {
        lemma_totals_prefix(e, i + 1);
        assert(e.take(i + 1).drop_last() =~= e.take(i));
    } else {
        assert(e.take(i) =~= e);
    }
}

proof fn lemma_inherited_bound(e: Seq<EffectiveView>)
    ensures
        inherited_count(e) <= e.len(),
    decreases e.len(),
{
    if e.len() > 0 {
        lemma_inherited_bound(e.drop_last());
    }
}

/// The number of rules of all effective configs, as `total_rules` says.
fn count_rules(effective_configs: &Vec<EffectiveConfig>) -> (r: usize)
    requires
        total_rules(effective_views(effective_configs@)) <= usize::MAX,
    ensures
        r == total_rules(effective_views(effective_configs@)),
{
    let ghost ev = effective_views(effective_configs@);
    let mut total: usize = 0;
    let mut i: usize = 0;
    while i < effective_configs.len()
        invariant
            i <= effective_configs.len(),
            ev == effective_views(effective_configs@),
            total_rules(ev) <= usize::MAX,
            total == total_rules(ev.take(i as int)),
        decreases effective_configs.len() - i,
    {
        proof {
            assert(ev.take(i + 1).drop_last() =~= ev.take(i as int));
            assert(ev.take(i + 1).last() == effective_configs@[i as int]@);
            lemma_totals_prefix(ev, i + 1);
        }
        total = total + effective_configs[i].rules.len();
        i += 1;
    }
    proof {
        assert(ev.take(i as int) =~= ev);
    }
    total
}

/// The number of routing intents of all effective configs, as `total_intents` says.
fn count_intents(effective_configs: &Vec<EffectiveConfig>) -> (r: usize)
    requires
        total_intents(effective_views(effective_configs@)) <= usize::MAX,
    ensures
        r == total_intents(effective_views(effective_configs@)),
{
    let ghost ev = effective_views(effective_configs@);
    let mut total: usize = 0;
    let mut i: usize = 0;
    while i < effective_configs.len()
        invariant
            i <= effective_configs.len(),
            ev == effective_views(effective_configs@),
            total_intents(ev) <= usize::MAX,
            total == total_intents(ev.take(i as int)),
        decreases effective_configs.len() - i,
    {
        proof {
            assert(ev.take(i + 1).drop_last() =~= ev.take(i as int));
            assert(ev.take(i + 1).last() == effective_configs@[i as int]@);
            lemma_totals_prefix(ev, i + 1);
        }
        total = total + effective_configs[i].routing.routing.intents.len();
        i += 1;
    }
    proof {
        assert(ev.take(i as int) =~= ev);
    }
    total
}

/// The number of effective configs that inherit, as `inherited_count` says.
fn count_inherited(effective_configs: &Vec<EffectiveConfig>) -> (r: usize)
    ensures
        r == inherited_count(effective_views(effective_configs@)),
{
    let ghost ev = effective_views(effective_configs@);
    let mut total: usize = 0;
    let mut i: usize = 0;
    while i < effective_configs.len()
        invariant
            i <= effective_configs.len(),
            ev == effective_views(effective_configs@),
            total == inherited_count(ev.take(i as int)),
        decreases effective_configs.len() - i,
    {
        proof {
            assert(ev.take(i + 1).drop_last() =~= ev.take(i as int));
            assert(ev.take(i + 1).last() == effective_configs@[i as int]@);
            lemma_inherited_bound(ev.take(i as int));
        }
        if effective_configs[i].inheritance.is_some() {
            total = total + 1;
        }
        i += 1;
    }
    proof {
        assert(ev.take(i as int) =~= ev);
    }
    total
}

/// Which blocks some effective config configures: coverage, doc inventory, routing
/// and freshness, as the `*_configured` predicates say.
fn configured_blocks(effective_configs: &Vec<EffectiveConfig>) -> (r: (bool, bool, bool, bool))
    ensures
        r.0 == coverage_configured(effective_views(effective_configs@)),
        r.1 == doc_inventory_configured(effective_views(effective_configs@)),
        r.2 == routing_configured(effective_views(effective_configs@)),
        r.3 == freshness_configured(effective_views(effective_configs@)),
{
    let ghost ev = effective_views(effective_configs@);
    let mut coverage = false;
    let mut inventory = false;
    let mut routing = false;
    let mut freshness = false;
    let mut i: usize = 0;
    while i < effective_configs.len()
        invariant
            i <= effective_configs.len(),
            ev == effective_views(effective_configs@),
            coverage == exists|j: int| 0 <= j < i && (#[trigger] ev[j]).coverage.block.includes.len() + ev[j].coverage.block.exclude.len() > 0,
            inventory == exists|j: int| 0 <= j < i && (#[trigger] ev[j]).doc_inventory.block.includes.len() + ev[j].doc_inventory.block.exclude.len() > 0,
            routing == exists|j: int| 0 <= j < i && (#[trigger] ev[j]).routing.intents.len() > 0,
            freshness == exists|j: int| 0 <= j < i && (#[trigger] ev[j]).freshness.resolution.origin_kind != ConfigBlockSourceKind::Default,
        decreases effective_configs.len() - i,
    {
        let c = &effective_configs[i];
        proof {
            assert(ev[i as int] == c@);
        }
        if c.coverage.coverage.includes.len() > 0 || c.coverage.coverage.exclude.len() > 0 {
            coverage = true;
        }
        if c.doc_inventory.doc_inventory.includes.len() > 0 || c.doc_inventory.doc_inventory.exclude.len() > 0 {
            inventory = true;
        }
        if c.routing.routing.intents.len() > 0 {
            routing = true;
        }
        match c.freshness.resolution.origin_kind {
            ConfigBlockSourceKind::Default => {},
            _ => {
                freshness = true;
            },
        }
        i += 1;
    }
    (coverage, inventory, routing, freshness)
}

/// The number of catalog repos of all configs, as `total_repos` says.
fn count_repos(catalog_configs: &[LoadedCatalogConfig]) -> (r: usize)
    requires
        total_repos(catalog_configs@) <= usize::MAX,
    ensures
        r == total_repos(catalog_configs@),
{
    let mut total: usize = 0;
    let mut i: usize = 0;
    while i < catalog_configs.len()
        invariant
            i <= catalog_configs.len(),
            total_repos(catalog_configs@) <= usize::MAX,
            total == total_repos(catalog_configs@.take(i as int)),
        decreases catalog_configs.len() - i,
    {
        proof {
            assert(catalog_configs@.take(i + 1).drop_last() =~= catalog_configs@.take(i as int));
            lemma_repos_prefix(catalog_configs@, i + 1);
        }
        total = total + catalog_configs[i].catalog.repos.len();
        i += 1;
    }
    proof {
        assert(catalog_configs@.take(i as int) =~= catalog_configs@);
    }
    total
}

proof fn lemma_repos_prefix(c: Seq<LoadedCatalogConfig>, i: int)
    requires
        0 <= i <= c.len(),
    ensures
        total_repos(c.take(i)) <= total_repos(c),
    decreases c.len() - i,
{
    if i < c.len() {
        lemma_repos_prefix(c, i + 1);
        assert(c.take(i + 1).drop_last() =~= c.take(i));
    } else {
        assert(c.take(i) =~= c);
    }
}

proof fn lemma_domains_prefix(o: Seq<LoadedOwnershipConfig>, i: int)
    requires
        0 <= i <= o.len(),
    ensures
        total_domains(o.take(i)) <= total_domains(o),
    decreases o.len() - i,
{
    if i < o.len() {
        lemma_domains_prefix(o, i + 1);
        assert(o.take(i + 1).drop_last() =~= o.take(i));
    } else {
        assert(o.take(i) =~= o);
    }
}

/// The number of ownership domains of all configs, as `total_domains` says.
pub fn count_ownership_domains(ownership_configs: &[LoadedOwnershipConfig]) -> (r: usize)
    requires
        total_domains(ownership_configs@) <= usize::MAX,
    ensures
        r == total_domains(ownership_configs@),
{
    let mut total: usize = 0;
    let mut i: usize = 0;
    while i < ownership_configs.len()
        invariant
            i <= ownership_configs.len(),
            total_domains(ownership_configs@) <= usize::MAX,
            total == total_domains(ownership_configs@.take(i as int)),
        decreases ownership_configs.len() - i,
    {
        proof {
            assert(ownership_configs@.take(i + 1).drop_last() =~= ownership_configs@.take(i as int));
            lemma_domains_prefix(ownership_configs@, i + 1);
        }
        total = total + ownership_configs[i].ownership.domains.len();
        i += 1;
    }
    proof {
        assert(ownership_configs@.take(i as int) =~= ownership_configs@);
    }
    total
}

/// The number of distinct resolved required document paths of all effective configs.
pub open spec fn governed_total(e: Seq<EffectiveView>) -> nat {
    sorted_set(governed_paths(all_rules(e))).len()
}

/// The distinct governed document count, as `governed_total` says.
fn count_governed(effective_configs: &Vec<EffectiveConfig>) -> (r: usize)
    ensures
        r == governed_total(effective_views(effective_configs@)),
{
    let ghost ev = effective_views(effective_configs@);
    let mut paths: Vec<String> = Vec::new();
    let mut i: usize = 0;
    while i < effective_configs.len()
        invariant
            i <= effective_configs.len(),
            ev == effective_views(effective_configs@),
            views(paths@) == governed_paths(all_rules(ev.take(i as int))),
        decreases effective_configs.len() - i,
    {
        proof {
            assert(ev.take(i + 1).drop_last() =~= ev.take(i as int));
            assert(ev.take(i + 1).last() == effective_configs@[i as int]@);
            lemma_governed_paths_append(all_rules(ev.take(i as int)), ev[i as int].rules);
        }
        push_governed_paths(&effective_configs[i].rules, &mut paths);
        i += 1;
    }
    proof {
        assert(ev.take(i as int) =~= ev);
    }
    governed_count(paths)
}

/// The ownership analysis the doctor runs: over the tracked paths, when some config
/// declares a domain and the tracked paths could be read.
pub open spec fn doctor_analysis(o: Seq<LoadedOwnershipConfig>, listed: Option<Seq<Seq<char>>>) -> Option<AnalysisView> {
    match listed {
        Some(paths) => if total_domains(o) > 0 {
            Some(analysis_of(paths, owner_entries(o)))
        } else {
            None
        },
        None => None,
    }
}

/// The summary of a report with no loaded config graph.
pub open spec fn empty_summary(present: bool, layout: Seq<char>) -> SummaryView {
    SummaryView {
        config_present: present,
        layout,
        effective_config_count: 0,
        inherited_config_count: 0,
        rule_count: 0,
        catalog_repo_count: 0,
        ownership_domain_count: 0,
        ownership_overlap_count: 0,
        ownership_conflict_count: 0,
        coverage_configured: false,
        routing_configured: false,
        doc_inventory_configured: false,
        freshness_configured: false,
        routing_intent_count: 0,
        governed_doc_count: 0,
    }
}

/// The summary of a loaded config graph.
pub open spec fn graph_summary(
    layout: ImpactLayout,
    e: Seq<EffectiveView>,
    c: Seq<LoadedCatalogConfig>,
    o: Seq<LoadedOwnershipConfig>,
    a: Option<AnalysisView>,
) -> SummaryView {
    SummaryView {
        config_present: true,
        layout: layout_name(layout),
        effective_config_count: e.len(),
        inherited_config_count: inherited_count(e),
        rule_count: total_rules(e),
        catalog_repo_count: total_repos(c),
        ownership_domain_count: total_domains(o),
        ownership_overlap_count: match a {
            Some(x) => x.overlaps.len(),
            None => 0,
        },
        ownership_conflict_count: match a {
            Some(x) => x.conflicts.len(),
            None => 0,
        },
        coverage_configured: coverage_configured(e),
        routing_configured: routing_configured(e),
        doc_inventory_configured: doc_inventory_configured(e),
        freshness_configured: freshness_configured(e),
        routing_intent_count: total_intents(e),
        governed_doc_count: governed_total(e),
    }
}

/// One finding when `cond` holds, none otherwise.
pub open spec fn finding_if(cond: bool, f: FindingView) -> Seq<FindingView> {
    if cond {
        seq![f]
    } else {
        Seq::empty()
    }
}

/// The message of the ownership conflict finding.
pub open spec fn conflict_message(a: AnalysisView) -> Seq<char> {
    decimal(a.conflicts.len()) + " tracked path(s) match ownership domains with conflicting ownerRepo values. Examples: "@
        + path_examples(a.conflicts.map_values(|c: ConflictView| c.path))
}

/// The message of the ownership overlap finding.
pub open spec fn overlap_message(a: AnalysisView) -> Seq<char> {
    decimal(a.overlaps.len()) + " tracked path(s) match multiple ownership domains with the same ownerRepo. Examples: "@
        + path_examples(a.overlaps.map_values(|v: OverlapView| v.path))
}

/// The findings on a loaded config graph, sorted by severity and code: a graph with no
/// rules has only that error; otherwise the missing governed documents and ownership
/// conflicts are errors, and the unconfigured coverage, doc inventory and freshness,
/// the unavailable ownership analysis and the ownership overlaps are warnings.
pub open spec fn graph_findings(s: SummaryView, a: Option<AnalysisView>, source: Seq<char>) -> Seq<FindingView> {
    if s.rule_count == 0 {
        seq![
            finding(
                "empty-rule-graph"@,
                "error"@,
                "The loaded config graph contains zero rules. Add at least one rule before relying on docpact enforcement."@,
                source,
            ),
        ]
    } else {
        let owned = s.ownership_domain_count > 0;
        finding_if(
            s.governed_doc_count == 0,
            finding(
                "missing-governed-docs"@,
                "error"@,
                "The loaded rules do not resolve to any governed required docs. Add `requiredDocs` targets before using lint as a governance signal."@,
                source,
            ),
        ) + finding_if(
            owned && a is Some && a->0.conflicts.len() > 0,
            finding("ownership-conflict"@, "error"@, conflict_message(a->0), source),
        ) + finding_if(
            !s.coverage_configured,
            finding(
                "missing-coverage-scope"@,
                "warn"@,
                "No coverage scope is configured; diff coverage defaults to all changed paths. Configure `coverage.include` or `coverage.exclude` if the intended governance scope is narrower."@,
                source,
            ),
        ) + finding_if(
            !s.doc_inventory_configured,
            finding(
                "missing-doc-inventory"@,
                "warn"@,
                "No explicit doc inventory scope is configured; repository coverage audit will infer inventory from all tracked Markdown/YAML docs."@,
                source,
            ),
        ) + finding_if(
            !s.freshness_configured,
            finding(
                "missing-freshness-config"@,
                "warn"@,
                "No explicit freshness config is present; repository freshness audit falls back to default thresholds."@,
                source,
            ),
        ) + finding_if(
            owned && a is None,
            finding(
                "ownership-analysis-unavailable"@,
                "warn"@,
                "Ownership analysis could not read tracked files from git, so overlap/conflict checks were skipped."@,
                source,
            ),
        ) + finding_if(
            owned && a is Some && a->0.overlaps.len() > 0,
            finding("ownership-overlap"@, "warn"@, overlap_message(a->0), source),
        )
    }
}

/// The fixed fields of a doctor report: schema, tool, command and no warnings.
pub open spec fn doctor_header(r: DoctorReport) -> bool {
    &&& r.schema_version@ == DOCTOR_SCHEMA_VERSION@
    &&& r.tool_name@ == TOOL_NAME@
    &&& r.tool_version@ == TOOL_VERSION@
    &&& r.command@ == "doctor"@
    &&& r.warnings@.len() == 0
}

fn new_finding(code: &str, severity: &str, message: String, source: &str) -> (f: DoctorFinding)
    ensures
        f@ == finding(code@, severity@, message@, source@),
{
    DoctorFinding {
        code: str_to_string(code),
        severity: str_to_string(severity),
        message,
        source: str_to_string(source),
    }
}

fn report_with_findings(summary: DoctorSummary, configs: Vec<DoctorConfig>, findings: Vec<DoctorFinding>) -> (r: DoctorReport)
    ensures
        doctor_header(r),
        r.summary == summary,
        r.configs == configs,
        r.findings == findings,
{
    DoctorReport {
        schema_version: str_to_string(DOCTOR_SCHEMA_VERSION),
        tool_name: str_to_string(TOOL_NAME),
        tool_version: str_to_string(TOOL_VERSION),
        command: str_to_string("doctor"),
        warnings: Vec::new(),
        summary,
        configs,
        findings,
    }
}

fn empty_doctor_summary(present: bool, layout: &str) -> (s: DoctorSummary)
    ensures
        s@ == empty_summary(present, layout@),
{
    DoctorSummary {
        config_present: present,
        layout: str_to_string(layout),
        effective_config_count: 0,
        inherited_config_count: 0,
        rule_count: 0,
        catalog_repo_count: 0,
        ownership_domain_count: 0,
        ownership_overlap_count: 0,
        ownership_conflict_count: 0,
        coverage_configured: false,
        routing_configured: false,
        doc_inventory_configured: false,
        freshness_configured: false,
        routing_intent_count: 0,
        governed_doc_count: 0,
    }
}

/// The report when no config exists at `config_source`: one `missing-config` error.
pub fn missing_config_report(config_source: &str) -> (r: DoctorReport)
    ensures
        doctor_header(r),
        r.summary@ == empty_summary(false, "none"@),
        r.configs@.len() == 0,
        finding_views(r.findings@) == seq![
            finding(
                "missing-config"@,
                "error"@,
                "No docpact config was found at `"@ + config_source@ + "`. Create a config before onboarding the repository."@,
                config_source@,
            ),
        ],
{
    let message = cat3(
        "No docpact config was found at `",
        config_source,
        "`. Create a config before onboarding the repository.",
    );
    let mut findings: Vec<DoctorFinding> = Vec::new();
    findings.push(new_finding("missing-config", "error", message, config_source));
    proof {
        assert(finding_views(findings@) =~= seq![findings@[0]@]);
    }
    report_with_findings(empty_doctor_summary(false, "none"), Vec::new(), findings)
}

/// The layout label of a load failure: the detected layout, or `unknown` when the
/// layout itself could not be detected.
pub open spec fn failed_layout(layout: Option<ImpactLayout>) -> Seq<char> {
    match layout {
        Some(l) => layout_name(l),
        None => "unknown"@,
    }
}

/// The report when the config graph fails to load with `message`: one
/// `config-load-failed` error whose source is the config the message names, or
/// `config_source`.
pub fn load_failed_report(config_source: &str, layout: Option<ImpactLayout>, message: &str) -> (r: DoctorReport)
    ensures
        doctor_header(r),
        r.summary@ == empty_summary(true, failed_layout(layout)),
        r.configs@.len() == 0,
        finding_views(r.findings@) == seq![
            finding(
                "config-load-failed"@,
                "error"@,
                message@,
                match config_source_of(message@) {
                    Some(s) => s,
                    None => config_source@,
                },
            ),
        ],
{
    let source = match extract_config_source(message) {
        Some(s) => s,
        None => str_to_string(config_source),
    };
    let label = match layout {
        Some(l) => layout_label(l),
        None => "unknown",
    };
    let mut findings: Vec<DoctorFinding> = Vec::new();
    findings.push(new_finding("config-load-failed", "error", str_to_string(message), source.as_str()));
    proof {
        assert(finding_views(findings@) =~= seq![findings@[0]@]);
    }
    report_with_findings(empty_doctor_summary(true, label), Vec::new(), findings)
}

/// The view of an optional ownership analysis.
pub open spec fn opt_analysis(a: Option<OwnershipAnalysis>) -> Option<AnalysisView> {
    match a {
        Some(x) => Some(x@),
        None => None,
    }
}

fn push_finding_if(r: &mut Vec<DoctorFinding>, cond: bool, f: DoctorFinding)
    ensures
        finding_views(final(r)@) == finding_views(old(r)@) + finding_if(cond, f@),
{
    let ghost before = finding_views(r@);
    if cond {
        r.push(f);
        proof {
            assert(finding_views(r@) =~= before + seq![f@]);
        }
    } else {
        proof {
            assert(before + finding_if(cond, f@) =~= before);
        }
    }
}

fn conflict_finding_message(a: &OwnershipAnalysis) -> (m: String)
    ensures
        m@ == conflict_message(a@),
{
    let mut paths: Vec<String> = Vec::new();
    let mut i: usize = 0;
    while i < a.conflicts.len()
        invariant
            i <= a.conflicts.len(),
            views(paths@) == a@.conflicts.map_values(|c: ConflictView| c.path).take(i as int),
        decreases a.conflicts.len() - i,
    {
        let ghost prev = views(paths@);
        paths.push(a.conflicts[i].path.clone());
        proof {
            assert(views(paths@) =~= prev.push(a.conflicts@[i as int].path@));
            assert(a@.conflicts.map_values(|c: ConflictView| c.path).take(i + 1) =~= prev.push(
                a.conflicts@[i as int].path@,
            ));
        }
        i += 1;
    }
    proof {
        assert(a@.conflicts.map_values(|c: ConflictView| c.path).take(i as int) =~= a@.conflicts.map_values(
            |c: ConflictView| c.path,
        ));
    }
    let count = decimal_string(a.conflicts.len());
    let examples = summarize_paths(&paths);
    cat3(
        count.as_str(),
        " tracked path(s) match ownership domains with conflicting ownerRepo values. Examples: ",
        examples.as_str(),
    )
}

fn overlap_finding_message(a: &OwnershipAnalysis) -> (m: String)
    ensures
        m@ == overlap_message(a@),
{
    let mut paths: Vec<String> = Vec::new();
    let mut i: usize = 0;
    while i < a.overlaps.len()
        invariant
            i <= a.overlaps.len(),
            views(paths@) == a@.overlaps.map_values(|v: OverlapView| v.path).take(i as int),
        decreases a.overlaps.len() - i,
    {
        let ghost prev = views(paths@);
        paths.push(a.overlaps[i].path.clone());
        proof {
            assert(views(paths@) =~= prev.push(a.overlaps@[i as int].path@));
            assert(a@.overlaps.map_values(|v: OverlapView| v.path).take(i + 1) =~= prev.push(
                a.overlaps@[i as int].path@,
            ));
        }
        i += 1;
    }
    proof {
        assert(a@.overlaps.map_values(|v: OverlapView| v.path).take(i as int) =~= a@.overlaps.map_values(
            |v: OverlapView| v.path,
        ));
    }
    let count = decimal_string(a.overlaps.len());
    let examples = summarize_paths(&paths);
    cat3(
        count.as_str(),
        " tracked path(s) match multiple ownership domains with the same ownerRepo. Examples: ",
        examples.as_str(),
    )
}

/// The findings on a loaded config graph, as `graph_findings` says.
pub fn doctor_findings(summary: &DoctorSummary, analysis: &Option<OwnershipAnalysis>, source: &str) -> (r: Vec<DoctorFinding>)
    ensures
        finding_views(r@) == graph_findings(summary@, opt_analysis(*analysis), source@),
{
    let mut r: Vec<DoctorFinding> = Vec::new();
    if summary.rule_count == 0 {
        r.push(
            new_finding(
                "empty-rule-graph",
                "error",
                str_to_string(
                    "The loaded config graph contains zero rules. Add at least one rule before relying on docpact enforcement.",
                ),
                source,
            ),
        );
        proof {
            assert(finding_views(r@) =~= seq![r@[0]@]);
        }
        return r;
    }
    proof {
        assert(finding_views(r@) =~= Seq::<FindingView>::empty());
    }
    let owned = summary.ownership_domain_count > 0;
    push_finding_if(
        &mut r,
        summary.governed_doc_count == 0,
        new_finding(
            "missing-governed-docs",
            "error",
            str_to_string(
                "The loaded rules do not resolve to any governed required docs. Add `requiredDocs` targets before using lint as a governance signal.",
            ),
            source,
        ),
    );
    let ghost after_governed = finding_views(r@);
    match analysis {
        Some(a) => {
            let message = conflict_finding_message(a);
            push_finding_if(
                &mut r,
                owned && a.conflicts.len() > 0,
                new_finding("ownership-conflict", "error", message, source),
            );
        },
        None => {
            proof {
                assert(after_governed + finding_if(false, finding("ownership-conflict"@, "error"@, Seq::empty(), source@)) =~= after_governed);
            }
        },
    }
    push_finding_if(
        &mut r,
        !summary.coverage_configured,
        new_finding(
            "missing-coverage-scope",
            "warn",
            str_to_string(
                "No coverage scope is configured; diff coverage defaults to all changed paths. Configure `coverage.include` or `coverage.exclude` if the intended governance scope is narrower.",
            ),
            source,
        ),
    );
    push_finding_if(
        &mut r,
        !summary.doc_inventory_configured,
        new_finding(
            "missing-doc-inventory",
            "warn",
            str_to_string(
                "No explicit doc inventory scope is configured; repository coverage audit will infer inventory from all tracked Markdown/YAML docs.",
            ),
            source,
        ),
    );
    push_finding_if(
        &mut r,
        !summary.freshness_configured,
        new_finding(
            "missing-freshness-config",
            "warn",
            str_to_string(
                "No explicit freshness config is present; repository freshness audit falls back to default thresholds.",
            ),
            source,
        ),
    );
    push_finding_if(
        &mut r,
        owned && analysis.is_none(),
        new_finding(
            "ownership-analysis-unavailable",
            "warn",
            str_to_string(
                "Ownership analysis could not read tracked files from git, so overlap/conflict checks were skipped.",
            ),
            source,
        ),
    );
    let ghost before_overlap = finding_views(r@);
    match analysis {
        Some(a) => {
            let message = overlap_finding_message(a);
            push_finding_if(&mut r, owned && a.overlaps.len() > 0, new_finding("ownership-overlap", "warn", message, source));
        },
        None => {
            proof {
                assert(before_overlap + finding_if(false, finding("ownership-overlap"@, "warn"@, Seq::empty(), source@)) =~= before_overlap);
            }
        },
    }
    r
}

/// The doctor report on a loaded config graph: its summary, one line per effective
/// config, and the findings. `tracked_paths` are the repository's tracked paths, or
/// `None` when they could not be read; the ownership analysis runs on them when some
/// config declares a domain.
pub fn doctor_report(
    config_source: &str,
    layout: ImpactLayout,
    effective_configs: &Vec<EffectiveConfig>,
    catalog_configs: &[LoadedCatalogConfig],
    ownership_configs: &[LoadedOwnershipConfig],
    tracked_paths: Option<&Vec<String>>,
) -> (r: DoctorReport)
    requires
        total_rules(effective_views(effective_configs@)) <= usize::MAX,
        total_intents(effective_views(effective_configs@)) <= usize::MAX,
        total_repos(catalog_configs@) <= usize::MAX,
        total_domains(ownership_configs@) <= usize::MAX,
    ensures
        doctor_header(r),
        r.summary@ == graph_summary(
            layout,
            effective_views(effective_configs@),
            catalog_configs@,
            ownership_configs@,
            doctor_analysis(
                ownership_configs@,
                match tracked_paths {
                    Some(t) => Some(views(t@)),
                    None => None,
                },
            ),
        ),
        config_line_views(r.configs@) == effective_views(effective_configs@).map_values(
            |e: EffectiveView| config_line(e, catalog_configs@, ownership_configs@),
        ),
        finding_views(r.findings@) == graph_findings(
            r.summary@,
            doctor_analysis(
                ownership_configs@,
                match tracked_paths {
                    Some(t) => Some(views(t@)),
                    None => None,
                },
            ),
            config_source@,
        ),
{
    let configs = build_doctor_configs(effective_configs, catalog_configs, ownership_configs);
    let domain_count = count_ownership_domains(ownership_configs);
    let analysis: Option<OwnershipAnalysis> = match tracked_paths {
        Some(t) => if domain_count > 0 {
            Some(analyze_ownership_paths(t.as_slice(), ownership_configs))
        } else {
            None
        },
        None => None,
    };
    let (overlap_count, conflict_count) = match &analysis {
        Some(a) => (a.overlaps.len(), a.conflicts.len()),
        None => (0, 0),
    };
    let (coverage, inventory, routing, freshness) = configured_blocks(effective_configs);
    let summary = DoctorSummary {
        config_present: true,
        layout: str_to_string(layout_label(layout)),
        effective_config_count: effective_configs.len(),
        inherited_config_count: count_inherited(effective_configs),
        rule_count: count_rules(effective_configs),
        catalog_repo_count: count_repos(catalog_configs),
        ownership_domain_count: domain_count,
        ownership_overlap_count: overlap_count,
        ownership_conflict_count: conflict_count,
        coverage_configured: coverage,
        routing_configured: routing,
        doc_inventory_configured: inventory,
        freshness_configured: freshness,
        routing_intent_count: count_intents(effective_configs),
        governed_doc_count: count_governed(effective_configs),
    };
    let findings = doctor_findings(&summary, &analysis, config_source);
    report_with_findings(summary, configs, findings)
}

/// `true` or `false`, as `bool` displays.
pub open spec fn bool_text(b: bool) -> Seq<char> {
    if b {
        "true"@
    } else {
        "false"@
    }
}

fn bool_str(b: bool) -> (s: &'static str)
    ensures
        s@ == bool_text(b),
{
    if b {
        "true"
    } else {
        "false"
    }
}

/// The summary line of the doctor's text report.
pub open spec fn summary_text(s: SummaryView) -> Seq<char> {
    "Summary: config_present="@ + bool_text(s.config_present) + ", layout="@ + s.layout + ", effective_configs="@
        + decimal(s.effective_config_count) + ", inherited_configs="@ + decimal(s.inherited_config_count)
        + ", rule_count="@ + decimal(s.rule_count) + ", catalog_repos="@ + decimal(s.catalog_repo_count)
        + ", ownership_domains="@ + decimal(s.ownership_domain_count) + ", ownership_overlaps="@ + decimal(
        s.ownership_overlap_count,
    ) + ", ownership_conflicts="@ + decimal(s.ownership_conflict_count) + ", coverage_configured="@ + bool_text(
        s.coverage_configured,
    ) + ", routing_configured="@ + bool_text(s.routing_configured) + ", doc_inventory_configured="@ + bool_text(
        s.doc_inventory_configured,
    ) + ", freshness_configured="@ + bool_text(s.freshness_configured) + ", routing_intents="@ + decimal(
        s.routing_intent_count,
    ) + ", governed_doc_count="@ + decimal(s.governed_doc_count) + "\n"@
}

/// The two text lines of a config.
pub open spec fn config_text(c: ConfigLineView) -> Seq<char> {
    "- "@ + c.source + ": "@ + decimal(c.rule_count) + " rule(s), "@ + decimal(c.governed_doc_count)
        + " governed doc(s), routing intents="@ + decimal(c.routing_intent_count) + ", inherited="@ + bool_text(
        c.inheritance_enabled,
    ) + ", profile="@ + (match c.workspace_profile {
        Some(p) => p,
        None => "-"@,
    }) + ", base_dir="@ + (if c.base_dir.len() == 0 {
        "."@
    } else {
        c.base_dir
    }) + "\n"@ + "  coverage="@ + c.coverage_resolution + ", routing="@ + c.routing_resolution + ", doc_inventory="@
        + c.doc_inventory_resolution + ", freshness="@ + c.freshness_resolution + ", overrides(add="@ + decimal(
        c.override_add_count,
    ) + ", replace="@ + decimal(c.override_replace_count) + ", disable="@ + decimal(c.override_disable_count)
        + ")\n"@
}

/// The text line of a finding.
pub open spec fn finding_text(f: FindingView) -> Seq<char> {
    "- ["@ + f.severity + "] "@ + f.code + " "@ + f.source + ": "@ + f.message + "\n"@
}

/// The doctor's text report: the verdict, the summary, the configs, the findings and
/// the next step.
pub open spec fn doctor_text(s: SummaryView, configs: Seq<ConfigLineView>, findings: Seq<FindingView>) -> Seq<char> {
    "Docpact doctor: "@ + (if findings.len() == 0 {
        "pass"@
    } else {
        "attention required"@
    }) + ".\n"@ + summary_text(s) + "Configs:\n"@ + (if configs.len() == 0 {
        "- none\n"@
    } else {
        join(configs.map_values(|c: ConfigLineView| config_text(c)), ""@)
    }) + "Findings:\n"@ + if findings.len() == 0 {
        "- none\n"@ + "Next: run `docpact lint --root . <diff-source>` or `docpact route --paths <path>`.\n"@
    } else {
        join(findings.map_values(|f: FindingView| finding_text(f)), ""@)
            + "Next: fix the findings above, then rerun `docpact doctor --root .`.\n"@
    }
}

fn render_summary(s: &DoctorSummary) -> (r: String)
    ensures
        r@ == summary_text(s@),
{
    let mut out = str_to_string("Summary: config_present=");
    out.append(bool_str(s.config_present));
    out.append(", layout=");
    out.append(s.layout.as_str());
    out.append(", effective_configs=");
    out.append(decimal_string(s.effective_config_count).as_str());
    out.append(", inherited_configs=");
    out.append(decimal_string(s.inherited_config_count).as_str());
    out.append(", rule_count=");
    out.append(decimal_string(s.rule_count).as_str());
    out.append(", catalog_repos=");
    out.append(decimal_string(s.catalog_repo_count).as_str());
    out.append(", ownership_domains=");
    out.append(decimal_string(s.ownership_domain_count).as_str());
    out.append(", ownership_overlaps=");
    out.append(decimal_string(s.ownership_overlap_count).as_str());
    out.append(", ownership_conflicts=");
    out.append(decimal_string(s.ownership_conflict_count).as_str());
    out.append(", coverage_configured=");
    out.append(bool_str(s.coverage_configured));
    out.append(", routing_configured=");
    out.append(bool_str(s.routing_configured));
    out.append(", doc_inventory_configured=");
    out.append(bool_str(s.doc_inventory_configured));
    out.append(", freshness_configured=");
    out.append(bool_str(s.freshness_configured));
    out.append(", routing_intents=");
    out.append(decimal_string(s.routing_intent_count).as_str());
    out.append(", governed_doc_count=");
    out.append(decimal_string(s.governed_doc_count).as_str());
    out.append("\n");
    out
}

fn render_config(c: &DoctorConfig) -> (r: String)
    ensures
        r@ == config_text(c@),
{
    let mut out = str_to_string("- ");
    out.append(c.source.as_str());
    out.append(": ");
    out.append(decimal_string(c.rule_count).as_str());
    out.append(" rule(s), ");
    out.append(decimal_string(c.governed_doc_count).as_str());
    out.append(" governed doc(s), routing intents=");
    out.append(decimal_string(c.routing_intent_count).as_str());
    out.append(", inherited=");
    out.append(bool_str(c.inheritance_enabled));
    out.append(", profile=");
    match &c.workspace_profile {
        Some(p) => out.append(p.as_str()),
        None => out.append("-"),
    }
    out.append(", base_dir=");
    if c.base_dir.as_str().unicode_len() == 0 {
        out.append(".");
    } else {
        out.append(c.base_dir.as_str());
    }
    out.append("\n");
    out.append("  coverage=");
    out.append(c.coverage_resolution.as_str());
    out.append(", routing=");
    out.append(c.routing_resolution.as_str());
    out.append(", doc_inventory=");
    out.append(c.doc_inventory_resolution.as_str());
    out.append(", freshness=");
    out.append(c.freshness_resolution.as_str());
    out.append(", overrides(add=");
    out.append(decimal_string(c.override_add_count).as_str());
    out.append(", replace=");
    out.append(decimal_string(c.override_replace_count).as_str());
    out.append(", disable=");
    out.append(decimal_string(c.override_disable_count).as_str());
    out.append(")\n");
    out
}

/// The doctor's text report, as `doctor_text` says.
pub fn render_doctor_text(report: &DoctorReport) -> (r: String)
    ensures
        r@ == doctor_text(report.summary@, config_line_views(report.configs@), finding_views(report.findings@)),
{
    let mut out = str_to_string("Docpact doctor: ");
    if report.findings.len() == 0 {
        out.append("pass");
    } else {
        out.append("attention required");
    }
    out.append(".\n");
    out.append(render_summary(&report.summary).as_str());
    out.append("Configs:\n");
    if report.configs.len() == 0 {
        out.append("- none\n");
    } else {
        let ghost target = config_line_views(report.configs@).map_values(|c: ConfigLineView| config_text(c));
        let mut lines: Vec<String> = Vec::new();
        let mut i: usize = 0;
        while i < report.configs.len()
            invariant
                i <= report.configs.len(),
                target == config_line_views(report.configs@).map_values(|c: ConfigLineView| config_text(c)),
                views(lines@) == target.take(i as int),
            decreases report.configs.len() - i,
        {
            let ghost prev = views(lines@);
            lines.push(render_config(&report.configs[i]));
            proof {
                assert(views(lines@) =~= prev.push(target[i as int]));
                assert(target.take(i + 1) =~= prev.push(target[i as int]));
            }
            i += 1;
        }
        proof {
            assert(target.take(i as int) =~= target);
        }
        out.append(join_strings(&lines, "").as_str());
    }
    out.append("Findings:\n");
    if report.findings.len() == 0 {
        out.append("- none\n");
        out.append("Next: run `docpact lint --root . <diff-source>` or `docpact route --paths <path>`.\n");
        return out;
    }
    let ghost target = finding_views(report.findings@).map_values(|f: FindingView| finding_text(f));
    let mut lines: Vec<String> = Vec::new();
    let mut i: usize = 0;
    while i < report.findings.len()
        invariant
            i <= report.findings.len(),
            target == finding_views(report.findings@).map_values(|f: FindingView| finding_text(f)),
            views(lines@) == target.take(i as int),
        decreases report.findings.len() - i,
    {
        let f = &report.findings[i];
        let mut line = str_to_string("- [");
        line.append(f.severity.as_str());
        line.append("] ");
        line.append(f.code.as_str());
        line.append(" ");
        line.append(f.source.as_str());
        line.append(": ");
        line.append(f.message.as_str());
        line.append("\n");
        let ghost prev = views(lines@);
        lines.push(line);
        proof {
            assert(views(lines@) =~= prev.push(target[i as int]));
            assert(target.take(i + 1) =~= prev.push(target[i as int]));
        }
        i += 1;
    }
    proof {
        assert(target.take(i as int) =~= target);
    }
    out.append(join_strings(&lines, "").as_str());
    out.append("Next: fix the findings above, then rerun `docpact doctor --root .`.\n");
    out
}

/// How the doctor names the config it was pointed at: relative to the root when the
/// path is absolute, normalized as it is otherwise.
pub fn display_config_source(root_dir: &str, path: &str) -> (r: String)
    ensures
        r@ == if crate::config::paths::is_absolute_path(path@) {
            crate::config::paths::relative_display(path@, crate::config::paths::stripped_path(path@, root_dir@))
        } else {
            crate::config::paths::normalized(path@)
        },
{
    if crate::config::paths::path_is_absolute(path) {
        crate::config::paths::path_relative_to(root_dir, path)
    } else {
        crate::config::paths::normalize_path(path)
    }
}

} // verus!
