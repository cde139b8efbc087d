//! Deep copies of configuration values that keep their views.
use vstd::prelude::*;
use crate::config::model::{
    BlockResolution, CoverageConfig, DocInventoryConfig, LoadedCoverageConfig,
    LoadedDocInventoryConfig, LoadedFreshnessConfig, LoadedRoutingConfig, LoadedRule, RequiredDoc,
    Rule, RuleProvenance, Trigger, RoutingConfig, RoutingIntent,
};
use crate::text::views;

verus! {

/// A copy of a list of strings.
pub fn copy_strings(v: &Vec<String>) -> (r: Vec<String>)
    ensures
        r@ == v@,
        views(r@) == views(v@),
{
    let r = v.clone();
    proof {
        assert(r@ =~= v@);
    }
    r
}

/// A copy of a trigger.
pub fn copy_trigger(t: &Trigger) -> (r: Trigger)
    ensures
        r@ == t@,
{
    Trigger { path: t.path.clone(), kind: t.kind.clone() }
}

/// A copy of a required doc.
pub fn copy_required_doc(d: &RequiredDoc) -> (r: RequiredDoc)
    ensures
        r@ == d@,
{
    RequiredDoc { path: d.path.clone(), mode: d.mode.clone() }
}

/// A copy of a rule.
pub fn copy_rule(rule: &Rule) -> (r: Rule)
    ensures
        r@ == rule@,
{
    let mut triggers: Vec<Trigger> = Vec::new();
    let mut i: usize = 0;
    while i < rule.triggers.len()
        invariant
            i <= rule.triggers.len(),
            triggers@.len() == i,
            forall|k: int| 0 <= k < i ==> (#[trigger] triggers@[k])@ == rule.triggers@[k]@,
        decreases rule.triggers.len() - i,
    {
        triggers.push(copy_trigger(&rule.triggers[i]));
        i += 1;
    }
    let mut docs: Vec<RequiredDoc> = Vec::new();
    let mut j: usize = 0;
    while j < rule.required_docs.len()
        invariant
            j <= rule.required_docs.len(),
            docs@.len() == j,
            forall|k: int| 0 <= k < j ==> (#[trigger] docs@[k])@ == rule.required_docs@[k]@,
        decreases rule.required_docs.len() - j,
    {
        docs.push(copy_required_doc(&rule.required_docs[j]));
        j += 1;
    }
    proof {
        assert(triggers@.map_values(|t: Trigger| t@) =~= rule.triggers@.map_values(|t: Trigger| t@));
        assert(docs@.map_values(|d: RequiredDoc| d@) =~= rule.required_docs@.map_values(
            |d: RequiredDoc| d@,
        ));
    }
    Rule {
        id: rule.id.clone(),
        scope: rule.scope.clone(),
        repo: rule.repo.clone(),
        triggers,
        required_docs: docs,
        reason: rule.reason.clone(),
    }
}

/// A copy of a list of rules.
pub fn copy_rules(v: &Vec<Rule>) -> (r: Vec<Rule>)
    ensures
        r@.map_values(|x: Rule| x@) == v@.map_values(|x: Rule| x@),
{
    let mut r: Vec<Rule> = Vec::new();
    let mut i: usize = 0;
    while i < v.len()
        invariant
            i <= v.len(),
            r@.len() == i,
            forall|k: int| 0 <= k < i ==> (#[trigger] r@[k])@ == v@[k]@,
        decreases v.len() - i,
    {
        r.push(copy_rule(&v[i]));
        i += 1;
    }
    proof {
        assert(r@.map_values(|x: Rule| x@) =~= v@.map_values(|x: Rule| x@));
    }
    r
}

/// A copy of a rule provenance.
pub fn copy_provenance(p: &RuleProvenance) -> (r: RuleProvenance)
    ensures
        r@ == p@,
{
    RuleProvenance {
        config_source: p.config_source.clone(),
        origin_kind: p.origin_kind,
        workspace_profile: p.workspace_profile.clone(),
    }
}

/// A copy of a loaded rule.
pub fn copy_loaded_rule(l: &LoadedRule) -> (r: LoadedRule)
    ensures
        r@ == l@,
{
    LoadedRule {
        source: l.source.clone(),
        config_source: l.config_source.clone(),
        base_dir: l.base_dir.clone(),
        rule: copy_rule(&l.rule),
        provenance: copy_provenance(&l.provenance),
    }
}

/// A copy of a coverage block.
pub fn copy_coverage(c: &CoverageConfig) -> (r: CoverageConfig)
    ensures
        r@ == c@,
{
    CoverageConfig { includes: copy_strings(&c.includes), exclude: copy_strings(&c.exclude) }
}

/// A copy of a doc inventory block.
pub fn copy_doc_inventory(c: &DocInventoryConfig) -> (r: DocInventoryConfig)
    ensures
        r@ == c@,
{
    DocInventoryConfig { includes: copy_strings(&c.includes), exclude: copy_strings(&c.exclude) }
}

/// A copy of a routing block.
pub fn copy_routing(c: &RoutingConfig) -> (r: RoutingConfig)
    ensures
        r@ == c@,
{
    let mut intents: Vec<(String, RoutingIntent)> = Vec::new();
    let mut i: usize = 0;
    while i < c.intents.len()
        invariant
            i <= c.intents.len(),
            intents@.len() == i,
            forall|k: int| 0 <= k < i ==> (#[trigger] intents@[k]).0@ == c.intents@[k].0@
                && intents@[k].1@ == c.intents@[k].1@,
        decreases c.intents.len() - i,
    {
        let alias = c.intents[i].0.clone();
        let paths = copy_strings(&c.intents[i].1.paths);
        intents.push((alias, RoutingIntent { paths }));
        i += 1;
    }
    let r = RoutingConfig { intents };
    proof {
        assert(r@ =~= c@);
    }
    r
}

/// A copy of a block resolution.
pub fn copy_resolution(r: &BlockResolution) -> (c: BlockResolution)
    ensures
        c@ == r@,
{
    BlockResolution { origin_kind: r.origin_kind, workspace_profile: r.workspace_profile.clone(), mode: r.mode.clone() }
}

/// A copy of a loaded coverage block.
pub fn copy_loaded_coverage(c: &LoadedCoverageConfig) -> (r: LoadedCoverageConfig)
    ensures
        r@ == c@,
{
    LoadedCoverageConfig {
        source: c.source.clone(),
        base_dir: c.base_dir.clone(),
        coverage: copy_coverage(&c.coverage),
        resolution: copy_resolution(&c.resolution),
    }
}

/// A copy of a loaded doc inventory block.
pub fn copy_loaded_doc_inventory(c: &LoadedDocInventoryConfig) -> (r: LoadedDocInventoryConfig)
    ensures
        r@ == c@,
{
    LoadedDocInventoryConfig {
        source: c.source.clone(),
        base_dir: c.base_dir.clone(),
        doc_inventory: copy_doc_inventory(&c.doc_inventory),
        resolution: copy_resolution(&c.resolution),
    }
}

/// A copy of a loaded freshness block.
pub fn copy_loaded_freshness(c: &LoadedFreshnessConfig) -> (r: LoadedFreshnessConfig)
    ensures
        r@ == c@,
{
    LoadedFreshnessConfig {
        source: c.source.clone(),
        base_dir: c.base_dir.clone(),
        freshness: c.freshness,
        resolution: copy_resolution(&c.resolution),
    }
}

/// A copy of a loaded routing block.
pub fn copy_loaded_routing(c: &LoadedRoutingConfig) -> (r: LoadedRoutingConfig)
    ensures
        r@ == c@,
{
    LoadedRoutingConfig {
        source: c.source.clone(),
        base_dir: c.base_dir.clone(),
        routing: copy_routing(&c.routing),
        resolution: copy_resolution(&c.resolution),
    }
}

} // verus!
