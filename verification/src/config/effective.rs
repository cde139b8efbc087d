//! The effective configs of a graph: local configs as written, and child configs with
//! their workspace profile and overrides resolved.
use vstd::prelude::*;
use vstd::string::*;
use crate::config::copy::{copy_coverage, copy_doc_inventory, copy_routing, copy_rule};
use crate::config::graphcheck::{find_profile, lookup_profile, rule_views};
use crate::config::inherit::{InheritContext, inherited_rules, resolve_inherited_rules};
use crate::config::model::{
    BlockResolution, BlockResolutionView, ConfigBlockSourceKind, ConfigLayout, CoverageConfig,
    DocInventoryConfig, EffectiveConfig, EffectiveView, FreshnessConfig, InheritanceResolution,
    InheritanceView, LoadedCoverageConfig, LoadedDocInventoryConfig, LoadedFreshnessConfig,
    LoadedFreshnessView, LoadedRoutingConfig, LoadedRoutingView, LoadedRule, LoadedRuleView,
    LoadedScopedView, OverridesConfig, ParsedImpactFile, RoutingConfig, RoutingIntent, RuleDisable,
    RuleOriginKind, RuleOverrides, RuleProvenance, RuleProvenanceView, RuleView, ScopedView,
    WorkspaceProfile, loaded_views,
};
use crate::config::resolve::{
    default_freshness, intents_map, keys_sorted, lemma_sorted_intents_unique, override_mode_name,
    resolve_doc_inventory, resolve_fresh, resolve_freshness, resolve_route, resolve_routing,
    resolve_scoped, resolve_scoped_patterns, routing_override_view, scoped_override_view,
};
use crate::text::{cat2, cat3, str_to_string, views};

verus! {

/// A rule of a config file as its own config loads it.
pub open spec fn local_rule(p: ParsedImpactFile, kind: RuleOriginKind, r: RuleView) -> LoadedRuleView {
    LoadedRuleView {
        source: p.descriptor.rel_path@,
        config_source: p.descriptor.rel_path@,
        base_dir: p.descriptor.base_dir@,
        rule: r,
        provenance: RuleProvenanceView {
            config_source: p.descriptor.rel_path@,
            origin_kind: kind,
            workspace_profile: None,
        },
    }
}

/// The rules of a config file as its own config loads them.
pub open spec fn local_rules(p: ParsedImpactFile, kind: RuleOriginKind) -> Seq<LoadedRuleView> {
    rule_views(p.parsed.rules@).map_values(|r: RuleView| local_rule(p, kind, r))
}

/// The resolution of a block a config declares itself, or leaves to the default.
pub open spec fn local_resolution(present: bool) -> BlockResolutionView {
    BlockResolutionView {
        origin_kind: if present { ConfigBlockSourceKind::Local } else { ConfigBlockSourceKind::Default },
        workspace_profile: None,
        mode: None,
    }
}

/// An include/exclude block with no patterns.
pub open spec fn empty_scoped() -> ScopedView {
    ScopedView { includes: Seq::empty(), exclude: Seq::empty() }
}

/// The effective config of a file that stands on its own: its rules with origin
/// `kind`, and its blocks, or the defaults for those it leaves out.
pub open spec fn local_effective(p: ParsedImpactFile, kind: RuleOriginKind) -> EffectiveView {
    let source = p.descriptor.rel_path@;
    let base = p.descriptor.base_dir@;
    let f = p.parsed;
    EffectiveView {
        source,
        base_dir: base,
        rules: local_rules(p, kind),
        coverage: LoadedScopedView {
            source,
            base_dir: base,
            block: match f.coverage {
                Some(c) => c@,
                None => empty_scoped(),
            },
            resolution: local_resolution(f.coverage is Some),
        },
        freshness: LoadedFreshnessView {
            source,
            base_dir: base,
            freshness: match f.freshness {
                Some(c) => c,
                None => default_freshness(),
            },
            resolution: local_resolution(f.freshness is Some),
        },
        routing: LoadedRoutingView {
            source,
            base_dir: base,
            intents: match f.routing {
                Some(c) => c@,
                None => Seq::empty(),
            },
            resolution: local_resolution(f.routing is Some),
        },
        doc_inventory: LoadedScopedView {
            source,
            base_dir: base,
            block: match f.doc_inventory {
                Some(c) => c@,
                None => empty_scoped(),
            },
            resolution: local_resolution(f.doc_inventory is Some),
        },
        inheritance: None,
    }
}

/// The effective config of a repo-layout file loaded on its own; it may neither
/// inherit nor override.
pub open spec fn repo_local_effective(p: ParsedImpactFile) -> Result<EffectiveView, Seq<char>> {
    let source = p.descriptor.rel_path@;
    if p.parsed.inherit is Some {
        Err(
            source
                + " declares `inherit`, but workspace inheritance is only available when a workspace root config is the active entrypoint"@,
        )
    } else if p.parsed.overrides is Some {
        Err(source + " declares `overrides` without `inherit.workspace_profile`"@)
    } else {
        Ok(
            local_effective(
                p,
                if p.descriptor.base_dir@.len() == 0 {
                    RuleOriginKind::RootLocal
                } else {
                    RuleOriginKind::RepoLocal
                },
            ),
        )
    }
}

/// The effective config of a workspace root; it may neither inherit nor override.
pub open spec fn workspace_root_effective(p: ParsedImpactFile) -> Result<EffectiveView, Seq<char>> {
    let source = p.descriptor.rel_path@;
    if p.parsed.inherit is Some {
        Err(source + " must not declare `inherit` because workspace roots cannot inherit from another config"@)
    } else if p.parsed.overrides is Some {
        Err(
            source
                + " must not declare `overrides` because workspace roots define local config and reusable profiles directly"@,
        )
    } else {
        Ok(local_effective(p, RuleOriginKind::RootLocal))
    }
}

fn empty_coverage() -> (r: CoverageConfig)
    ensures
        r@ == empty_scoped(),
{
    let r = CoverageConfig { includes: Vec::new(), exclude: Vec::new() };
    proof {
        assert(r@.includes =~= Seq::<Seq<char>>::empty());
        assert(r@.exclude =~= Seq::<Seq<char>>::empty());
    }
    r
}

fn empty_doc_inventory() -> (r: DocInventoryConfig)
    ensures
        r@ == empty_scoped(),
{
    let r = DocInventoryConfig { includes: Vec::new(), exclude: Vec::new() };
    proof {
        assert(r@.includes =~= Seq::<Seq<char>>::empty());
        assert(r@.exclude =~= Seq::<Seq<char>>::empty());
    }
    r
}

fn empty_routing() -> (r: RoutingConfig)
    ensures
        r@ == Seq::<(Seq<char>, Seq<Seq<char>>)>::empty(),
{
    let r = RoutingConfig { intents: Vec::new() };
    proof {
        assert(r@ =~= Seq::<(Seq<char>, Seq<Seq<char>>)>::empty());
    }
    r
}

fn local_resolution_of(present: bool) -> (r: BlockResolution)
    ensures
        r@ == local_resolution(present),
{
    BlockResolution {
        origin_kind: if present { ConfigBlockSourceKind::Local } else { ConfigBlockSourceKind::Default },
        workspace_profile: None,
        mode: None,
    }
}

fn local_loaded_rules(parsed: &ParsedImpactFile, kind: RuleOriginKind) -> (r: Vec<LoadedRule>)
    ensures
        loaded_views(r@) == local_rules(*parsed, kind),
{
    let ghost target = local_rules(*parsed, kind);
    let rules = &parsed.parsed.rules;
    let mut r: Vec<LoadedRule> = Vec::new();
    let mut i: usize = 0;
    while i < rules.len()
        invariant
            i <= rules.len(),
            rules == &parsed.parsed.rules,
            target == local_rules(*parsed, kind),
            loaded_views(r@) == target.take(i as int),
        decreases rules.len() - i,
    {
        let source = &parsed.descriptor.rel_path;
        let loaded = LoadedRule {
            source: source.clone(),
            config_source: source.clone(),
            base_dir: parsed.descriptor.base_dir.clone(),
            rule: copy_rule(&rules[i]),
            provenance: RuleProvenance { config_source: source.clone(), origin_kind: kind, workspace_profile: None },
        };
        let ghost prev = loaded_views(r@);
        r.push(loaded);
        proof {
            assert(target[i as int] == local_rule(*parsed, kind, rules@[i as int]@));
            assert(loaded_views(r@) =~= prev.push(target[i as int]));
            assert(target.take(i + 1) =~= target.take(i as int).push(target[i as int]));
        }
        i += 1;
    }
    proof {
        assert(target.take(rules.len() as int) =~= target);
    }
    r
}

/// The effective config of a file that stands on its own, as `local_effective` says.
pub fn local_effective_config(parsed: &ParsedImpactFile, kind: RuleOriginKind) -> (r: EffectiveConfig)
    ensures
        r@ == local_effective(*parsed, kind),
{
    let source = &parsed.descriptor.rel_path;
    let base = &parsed.descriptor.base_dir;
    let f = &parsed.parsed;
    let coverage = match &f.coverage {
        Some(c) => copy_coverage(c),
        None => empty_coverage(),
    };
    let freshness = match &f.freshness {
        Some(c) => *c,
        None => FreshnessConfig::default(),
    };
    let routing = match &f.routing {
        Some(c) => copy_routing(c),
        None => empty_routing(),
    };
    let doc_inventory = match &f.doc_inventory {
        Some(c) => copy_doc_inventory(c),
        None => empty_doc_inventory(),
    };
    let r = EffectiveConfig {
        source: source.clone(),
        base_dir: base.clone(),
        rules: local_loaded_rules(parsed, kind),
        coverage: LoadedCoverageConfig {
            source: source.clone(),
            base_dir: base.clone(),
            coverage,
            resolution: local_resolution_of(f.coverage.is_some()),
        },
        freshness: LoadedFreshnessConfig {
            source: source.clone(),
            base_dir: base.clone(),
            freshness,
            resolution: local_resolution_of(f.freshness.is_some()),
        },
        routing: LoadedRoutingConfig {
            source: source.clone(),
            base_dir: base.clone(),
            routing,
            resolution: local_resolution_of(f.routing.is_some()),
        },
        doc_inventory: LoadedDocInventoryConfig {
            source: source.clone(),
            base_dir: base.clone(),
            doc_inventory,
            resolution: local_resolution_of(f.doc_inventory.is_some()),
        },
        inheritance: None,
    };
    proof {
        assert(r@ =~= local_effective(*parsed, kind));
    }
    r
}

/// The effective config of a repo-layout file loaded on its own, as
/// `repo_local_effective` says.
pub fn resolve_repo_local_effective_config(parsed: &ParsedImpactFile) -> (r: Result<EffectiveConfig, String>)
    ensures
        match r {
            Ok(e) => repo_local_effective(*parsed) == Ok::<EffectiveView, Seq<char>>(e@),
            Err(m) => repo_local_effective(*parsed) == Err::<EffectiveView, Seq<char>>(m@),
        },
{
    let source = parsed.descriptor.rel_path.as_str();
    if parsed.parsed.inherit.is_some() {
        return Err(cat2(
            source,
            " declares `inherit`, but workspace inheritance is only available when a workspace root config is the active entrypoint",
        ));
    }
    if parsed.parsed.overrides.is_some() {
        return Err(cat2(source, " declares `overrides` without `inherit.workspace_profile`"));
    }
    let kind = if parsed.descriptor.base_dir.as_str().unicode_len() == 0 {
        RuleOriginKind::RootLocal
    } else {
        RuleOriginKind::RepoLocal
    };
    Ok(local_effective_config(parsed, kind))
}

/// The effective config of a workspace root, as `workspace_root_effective` says.
pub fn resolve_workspace_root_effective_config(root: &ParsedImpactFile) -> (r: Result<EffectiveConfig, String>)
    ensures
        match r {
            Ok(e) => workspace_root_effective(*root) == Ok::<EffectiveView, Seq<char>>(e@),
            Err(m) => workspace_root_effective(*root) == Err::<EffectiveView, Seq<char>>(m@),
        },
{
    let source = root.descriptor.rel_path.as_str();
    if root.parsed.inherit.is_some() {
        return Err(cat2(source, " must not declare `inherit` because workspace roots cannot inherit from another config"));
    }
    if root.parsed.overrides.is_some() {
        return Err(cat2(
            source,
            " must not declare `overrides` because workspace roots define local config and reusable profiles directly",
        ));
    }
    Ok(local_effective_config(root, RuleOriginKind::RootLocal))
}

/// The rule overrides of an optional overrides block: replace, disable, add.
pub open spec fn ov_rules(o: Option<OverridesConfig>) -> (Seq<RuleView>, Seq<RuleDisable>, Seq<RuleView>) {
    match o {
        Some(x) => (rule_views(x.rules.replace@), x.rules.disable@, rule_views(x.rules.add@)),
        None => (Seq::empty(), Seq::empty(), Seq::empty()),
    }
}

/// The coverage override of an optional overrides block.
pub open spec fn ov_coverage(o: Option<OverridesConfig>) -> Option<(crate::config::model::OverrideMode, Seq<Seq<char>>, Seq<Seq<char>>)> {
    match o {
        Some(x) => match x.coverage {
            Some(c) => Some(scoped_override_view(c)),
            None => None,
        },
        None => None,
    }
}

/// The doc inventory override of an optional overrides block.
pub open spec fn ov_doc_inventory(o: Option<OverridesConfig>) -> Option<(crate::config::model::OverrideMode, Seq<Seq<char>>, Seq<Seq<char>>)> {
    match o {
        Some(x) => match x.doc_inventory {
            Some(c) => Some(scoped_override_view(c)),
            None => None,
        },
        None => None,
    }
}

/// The routing override of an optional overrides block.
pub open spec fn ov_routing(o: Option<OverridesConfig>) -> Option<(crate::config::model::OverrideMode, Seq<(Seq<char>, Seq<Seq<char>>)>)> {
    match o {
        Some(x) => match x.routing {
            Some(c) => Some(routing_override_view(c)),
            None => None,
        },
        None => None,
    }
}

/// The freshness override of an optional overrides block.
pub open spec fn ov_freshness(o: Option<OverridesConfig>) -> Option<crate::config::model::FreshnessOverride> {
    match o {
        Some(x) => x.freshness,
        None => None,
    }
}

/// An optional coverage block's view.
pub open spec fn opt_coverage(c: Option<CoverageConfig>) -> Option<ScopedView> {
    match c {
        Some(b) => Some(b@),
        None => None,
    }
}

/// An optional doc inventory block's view.
pub open spec fn opt_doc_inventory(c: Option<DocInventoryConfig>) -> Option<ScopedView> {
    match c {
        Some(b) => Some(b@),
        None => None,
    }
}

/// An optional routing block's view.
pub open spec fn opt_routing(c: Option<RoutingConfig>) -> Option<Seq<(Seq<char>, Seq<Seq<char>>)>> {
    match c {
        Some(b) => Some(b@),
        None => None,
    }
}

/// The intents listed by alias that hold the map `m`.
pub open spec fn routing_listing(m: Map<Seq<char>, Seq<Seq<char>>>) -> Seq<(Seq<char>, Seq<Seq<char>>)> {
    choose|s: Seq<(Seq<char>, Seq<Seq<char>>)>| keys_sorted(s) && intents_map(s) == m
}

/// The mode name of an optional override.
pub open spec fn opt_mode<T>(o: Option<T>, mode: spec_fn(T) -> crate::config::model::OverrideMode) -> Option<Seq<char>> {
    match o {
        Some(x) => Some(override_mode_name(mode(x))),
        None => None,
    }
}

/// What a child records of its inheritance: the profile, how many rules it adds,
/// replaces and disables, the ids it disables, and the mode of each block override.
pub open spec fn inheritance_view(name: Seq<char>, o: Option<OverridesConfig>) -> InheritanceView {
    match o {
        Some(x) => InheritanceView {
            workspace_profile: name,
            add_count: x.rules.add@.len(),
            replace_count: x.rules.replace@.len(),
            disable_count: x.rules.disable@.len(),
            disabled_rule_ids: x.rules.disable@.map_values(|d: RuleDisable| d.id@),
            coverage_mode: opt_mode(x.coverage, |c: crate::config::model::ScopedPatternOverride| c.mode),
            doc_inventory_mode: opt_mode(x.doc_inventory, |c: crate::config::model::ScopedPatternOverride| c.mode),
            freshness_mode: opt_mode(x.freshness, |c: crate::config::model::FreshnessOverride| c.mode),
            routing_mode: opt_mode(x.routing, |c: crate::config::model::RoutingOverride| c.mode),
        },
        None => InheritanceView {
            workspace_profile: name,
            add_count: 0,
            replace_count: 0,
            disable_count: 0,
            disabled_rule_ids: Seq::empty(),
            coverage_mode: None,
            doc_inventory_mode: None,
            freshness_mode: None,
            routing_mode: None,
        },
    }
}

/// The effective config of a child that inherits profile `prof` named `name`: the
/// inherited rules with its rule overrides applied, each block resolved against its
/// override, and the record of the inheritance.
pub open spec fn child_resolved(
    root: ParsedImpactFile,
    child: ParsedImpactFile,
    name: Seq<char>,
    prof: WorkspaceProfile,
) -> Result<EffectiveView, Seq<char>> {
    let cs = child.descriptor.rel_path@;
    let cb = child.descriptor.base_dir@;
    let o = child.parsed.overrides;
    let ctx = InheritContext { root: root.descriptor.rel_path@, child: cs, base_dir: cb, profile: name };
    match inherited_rules(ctx, rule_views(prof.rules@), ov_rules(o).0, ov_rules(o).1, ov_rules(o).2) {
        Err(e) => Err(e),
        Ok(rules) => match resolve_fresh(prof.freshness, ov_freshness(o), name) {
            Err(e) => Err(e),
            Ok(f) => {
                let cov = resolve_scoped(opt_coverage(prof.coverage), ov_coverage(o), name);
                let doc = resolve_scoped(opt_doc_inventory(prof.doc_inventory), ov_doc_inventory(o), name);
                let route = resolve_route(opt_routing(prof.routing), ov_routing(o), name);
                Ok(
                    EffectiveView {
                        source: cs,
                        base_dir: cb,
                        rules,
                        coverage: LoadedScopedView { source: cs, base_dir: cb, block: cov.0, resolution: cov.1 },
                        freshness: LoadedFreshnessView { source: cs, base_dir: cb, freshness: f.0, resolution: f.1 },
                        routing: LoadedRoutingView {
                            source: cs,
                            base_dir: cb,
                            intents: routing_listing(route.0),
                            resolution: route.1,
                        },
                        doc_inventory: LoadedScopedView { source: cs, base_dir: cb, block: doc.0, resolution: doc.1 },
                        inheritance: Some(inheritance_view(name, o)),
                    },
                )
            },
        },
    }
}

/// The effective config of a config file below a workspace root: it must use the repo
/// layout; without `inherit` it stands on its own; with it, it may not declare
/// top-level runtime blocks, and the profile must exist in the root's `workspace`.
pub open spec fn child_effective(root: ParsedImpactFile, child: ParsedImpactFile) -> Result<EffectiveView, Seq<char>> {
    let cs = child.descriptor.rel_path@;
    let f = child.parsed;
    if f.layout != ConfigLayout::Repo {
        Err(cs + " must use `layout: repo` when loaded from a workspace root"@)
    } else {
        match f.inherit {
            None => if f.overrides is Some {
                Err(cs + " declares `overrides` without `inherit.workspace_profile`"@)
            } else {
                repo_local_effective(child)
            },
            Some(inh) => if f.rules@.len() > 0 || f.coverage is Some || f.freshness is Some || f.routing is Some
                || f.doc_inventory is Some {
                Err(
                    cs
                        + " uses workspace inheritance and therefore must place all runtime changes under `overrides` instead of top-level `rules`, `coverage`, `freshness`, `routing`, or `docInventory`"@,
                )
            } else {
                let name = inh.workspace_profile@;
                match root.parsed.workspace {
                    None => Err(root.descriptor.rel_path@ + " is a workspace config but does not define a `workspace` block"@),
                    Some(w) => match find_profile(w.profiles@, name) {
                        None => Err(
                            cs + " references missing workspace profile `"@ + name + "` from "@ + root.descriptor.rel_path@,
                        ),
                        Some(k) => child_resolved(root, child, name, w.profiles@[k].1),
                    },
                }
            },
        }
    }
}

fn mode_string(m: crate::config::model::OverrideMode) -> (r: String)
    ensures
        r@ == override_mode_name(m),
{
    str_to_string(m.as_str())
}

fn inheritance_record(name: &str, o: Option<&OverridesConfig>) -> (r: InheritanceResolution)
    ensures
        r@ == inheritance_view(
            name@,
            match o {
                Some(x) => Some(*x),
                None => None,
            },
        ),
{
    match o {
        None => {
            let r = InheritanceResolution {
                workspace_profile: str_to_string(name),
                add_count: 0,
                replace_count: 0,
                disable_count: 0,
                disabled_rule_ids: Vec::new(),
                coverage_mode: None,
                doc_inventory_mode: None,
                freshness_mode: None,
                routing_mode: None,
            };
            proof {
                assert(r@.disabled_rule_ids =~= Seq::<Seq<char>>::empty());
            }
            r
        },
        Some(x) => {
            let mut ids: Vec<String> = Vec::new();
            let mut i: usize = 0;
            while i < x.rules.disable.len()
                invariant
                    i <= x.rules.disable.len(),
                    views(ids@) == x.rules.disable@.take(i as int).map_values(|d: RuleDisable| d.id@),
                decreases x.rules.disable.len() - i,
            {
                let ghost prev = views(ids@);
                ids.push(x.rules.disable[i].id.clone());
                proof {
                    assert(views(ids@) =~= prev.push(x.rules.disable@[i as int].id@));
                    assert(x.rules.disable@.take(i + 1).map_values(|d: RuleDisable| d.id@) =~= x.rules.disable@.take(
                        i as int,
                    ).map_values(|d: RuleDisable| d.id@).push(x.rules.disable@[i as int].id@));
                }
                i += 1;
            }
            proof {
                assert(x.rules.disable@.take(x.rules.disable.len() as int) =~= x.rules.disable@);
            }
            let coverage_mode = match &x.coverage {
                Some(c) => Some(mode_string(c.mode)),
                None => None,
            };
            let doc_inventory_mode = match &x.doc_inventory {
                Some(c) => Some(mode_string(c.mode)),
                None => None,
            };
            let freshness_mode = match &x.freshness {
                Some(c) => Some(mode_string(c.mode)),
                None => None,
            };
            let routing_mode = match &x.routing {
                Some(c) => Some(mode_string(c.mode)),
                None => None,
            };
            InheritanceResolution {
                workspace_profile: str_to_string(name),
                add_count: x.rules.add.len(),
                replace_count: x.rules.replace.len(),
                disable_count: x.rules.disable.len(),
                disabled_rule_ids: ids,
                coverage_mode,
                doc_inventory_mode,
                freshness_mode,
                routing_mode,
            }
        },
    }
}

fn resolve_child(
    root: &ParsedImpactFile,
    child: &ParsedImpactFile,
    name: &str,
    prof: &WorkspaceProfile,
) -> (r: Result<EffectiveConfig, String>)
    ensures
        match r {
            Ok(e) => child_resolved(*root, *child, name@, *prof) == Ok::<EffectiveView, Seq<char>>(e@),
            Err(m) => child_resolved(*root, *child, name@, *prof) == Err::<EffectiveView, Seq<char>>(m@),
        },
{
    let cs = &child.descriptor.rel_path;
    let cb = &child.descriptor.base_dir;
    let empty = RuleOverrides { add: Vec::new(), replace: Vec::new(), disable: Vec::new() };
    let o = child.parsed.overrides.as_ref();
    let rule_ov = match o {
        Some(x) => &x.rules,
        None => &empty,
    };
    proof {
        assert(rule_views(rule_ov.replace@) =~= ov_rules(child.parsed.overrides).0);
        assert(rule_ov.disable@ =~= ov_rules(child.parsed.overrides).1);
        assert(rule_views(rule_ov.add@) =~= ov_rules(child.parsed.overrides).2);
    }
    let rules = match resolve_inherited_rules(
        root.descriptor.rel_path.as_str(),
        cs.as_str(),
        cb.as_str(),
        name,
        &prof.rules,
        rule_ov,
    ) {
        Err(e) => return Err(e),
        Ok(v) => v,
    };
    let fresh_ov = match o {
        Some(x) => x.freshness.as_ref(),
        None => None,
    };
    let (freshness, fres) = match resolve_freshness(prof.freshness.as_ref(), fresh_ov, name) {
        Err(e) => return Err(e),
        Ok(p) => p,
    };
    let cov_ov = match o {
        Some(x) => x.coverage.as_ref(),
        None => None,
    };
    let doc_ov = match o {
        Some(x) => x.doc_inventory.as_ref(),
        None => None,
    };
    let route_ov = match o {
        Some(x) => x.routing.as_ref(),
        None => None,
    };
    let (coverage, cres) = resolve_scoped_patterns(prof.coverage.as_ref(), cov_ov, name);
    let (doc_inventory, dres) = resolve_doc_inventory(prof.doc_inventory.as_ref(), doc_ov, name);
    let (routing, rres) = resolve_routing(prof.routing.as_ref(), route_ov, name);
    proof {
        let m = resolve_route(opt_routing(prof.routing), ov_routing(child.parsed.overrides), name@).0;
        assert(keys_sorted(routing@) && intents_map(routing@) == m);
        let l = routing_listing(m);
        assert(keys_sorted(l) && intents_map(l) == m);
        lemma_sorted_intents_unique(l, routing@);
    }
    let inheritance = inheritance_record(name, o);
    let r = EffectiveConfig {
        source: cs.clone(),
        base_dir: cb.clone(),
        rules,
        coverage: LoadedCoverageConfig { source: cs.clone(), base_dir: cb.clone(), coverage, resolution: cres },
        freshness: LoadedFreshnessConfig { source: cs.clone(), base_dir: cb.clone(), freshness, resolution: fres },
        routing: LoadedRoutingConfig { source: cs.clone(), base_dir: cb.clone(), routing, resolution: rres },
        doc_inventory: LoadedDocInventoryConfig { source: cs.clone(), base_dir: cb.clone(), doc_inventory, resolution: dres },
        inheritance: Some(inheritance),
    };
    Ok(r)
}

/// The effective config of a config file below a workspace root, as `child_effective`
/// says.
pub fn resolve_workspace_child_effective_config(root: &ParsedImpactFile, child: &ParsedImpactFile) -> (r: Result<EffectiveConfig, String>)
    ensures
        match r {
            Ok(e) => child_effective(*root, *child) == Ok::<EffectiveView, Seq<char>>(e@),
            Err(m) => child_effective(*root, *child) == Err::<EffectiveView, Seq<char>>(m@),
        },
{
    let cs = child.descriptor.rel_path.as_str();
    let f = &child.parsed;
    match f.layout {
        ConfigLayout::Workspace => {
            return Err(cat2(cs, " must use `layout: repo` when loaded from a workspace root"));
        },
        ConfigLayout::Repo => {},
    }
    match &f.inherit {
        None => {
            if f.overrides.is_some() {
                return Err(cat2(cs, " declares `overrides` without `inherit.workspace_profile`"));
            }
            resolve_repo_local_effective_config(child)
        },
        Some(inh) => {
            if f.rules.len() > 0 || f.coverage.is_some() || f.freshness.is_some() || f.routing.is_some()
                || f.doc_inventory.is_some() {
                return Err(cat2(
                    cs,
                    " uses workspace inheritance and therefore must place all runtime changes under `overrides` instead of top-level `rules`, `coverage`, `freshness`, `routing`, or `docInventory`",
                ));
            }
            let name = inh.workspace_profile.as_str();
            match &root.parsed.workspace {
                None => Err(cat2(
                    root.descriptor.rel_path.as_str(),
                    " is a workspace config but does not define a `workspace` block",
                )),
                Some(w) => match lookup_profile(&w.profiles, name) {
                    None => {
                        let mut m = cat3(cs, " references missing workspace profile `", name);
                        m.append("` from ");
                        m.append(root.descriptor.rel_path.as_str());
                        Err(m)
                    },
                    Some(k) => resolve_child(root, child, name, &w.profiles[k].1),
                },
            }
        },
    }
}

/// The effective configs of a graph: none without files; for a repo root, its own; for
/// a workspace root, the root's then each child's, in order.
pub open spec fn effective_configs_of(files: Seq<ParsedImpactFile>) -> Result<Seq<EffectiveView>, Seq<char>> {
    if files.len() == 0 {
        Ok(Seq::empty())
    } else if files[0].parsed.layout == ConfigLayout::Repo {
        match repo_local_effective(files[0]) {
            Ok(e) => Ok(seq![e]),
            Err(m) => Err(m),
        }
    } else {
        match workspace_root_effective(files[0]) {
            Err(m) => Err(m),
            Ok(e) => children_effective(files[0], files.drop_first(), seq![e]),
        }
    }
}

/// `done` followed by the effective config of each child, or the first error.
pub open spec fn children_effective(
    root: ParsedImpactFile,
    children: Seq<ParsedImpactFile>,
    done: Seq<EffectiveView>,
) -> Result<Seq<EffectiveView>, Seq<char>>
    decreases children.len(),
{
    if children.len() == 0 {
        Ok(done)
    } else {
        match child_effective(root, children[0]) {
            Err(m) => Err(m),
            Ok(e) => children_effective(root, children.drop_first(), done.push(e)),
        }
    }
}

/// The views of a list of effective configs.
pub open spec fn effective_views(v: Seq<EffectiveConfig>) -> Seq<EffectiveView> {
    v.map_values(|e: EffectiveConfig| e@)
}

/// The effective configs of the parsed files of a graph, the first being its root, as
/// `effective_configs_of` says.
pub fn resolve_effective_configs(parsed_files: &Vec<ParsedImpactFile>) -> (r: Result<Vec<EffectiveConfig>, String>)
    ensures
        match r {
            Ok(v) => effective_configs_of(parsed_files@) == Ok::<Seq<EffectiveView>, Seq<char>>(effective_views(v@)),
            Err(m) => effective_configs_of(parsed_files@) == Err::<Seq<EffectiveView>, Seq<char>>(m@),
        },
{
    if parsed_files.len() == 0 {
        let v: Vec<EffectiveConfig> = Vec::new();
        proof {
            assert(effective_views(v@) =~= Seq::<EffectiveView>::empty());
        }
        return Ok(v);
    }
    let root = &parsed_files[0];
    match root.parsed.layout {
        ConfigLayout::Repo => {
            let e = match resolve_repo_local_effective_config(root) {
                Err(m) => return Err(m),
                Ok(e) => e,
            };
            let mut v: Vec<EffectiveConfig> = Vec::new();
            v.push(e);
            proof {
                assert(effective_views(v@) =~= seq![v@[0]@]);
            }
            Ok(v)
        },
        ConfigLayout::Workspace => {
            let e = match resolve_workspace_root_effective_config(root) {
                Err(m) => return Err(m),
                Ok(e) => e,
            };
            let ghost files = parsed_files@;
            let mut v: Vec<EffectiveConfig> = Vec::new();
            v.push(e);
            proof {
                assert(effective_views(v@) =~= seq![v@[0]@]);
            }
            let mut i: usize = 1;
            while i < parsed_files.len()
                invariant
                    1 <= i <= parsed_files.len(),
                    files == parsed_files@,
                    root == &parsed_files@[0],
                    effective_configs_of(files) == children_effective(*root, files.skip(i as int), effective_views(v@)),
                decreases parsed_files.len() - i,
            {
                let child = &parsed_files[i];
                proof {
                    assert(files.skip(i as int)[0] == *child);
                    assert(files.skip(i as int).drop_first() =~= files.skip(i + 1));
                }
                match resolve_workspace_child_effective_config(root, child) {
                    Err(m) => {
                        return Err(m);
                    },
                    Ok(c) => {
                        let ghost prev = effective_views(v@);
                        v.push(c);
                        proof {
                            assert(effective_views(v@) =~= prev.push(v@.last()@));
                        }
                    },
                }
                i += 1;
            }
            proof {
                assert(files.skip(i as int) =~= Seq::<ParsedImpactFile>::empty());
            }
            Ok(v)
        },
    }
}

/// The name of a rule origin.
pub open spec fn origin_name(k: RuleOriginKind) -> Seq<char> {
    match k {
        RuleOriginKind::RootLocal => "root-local"@,
        RuleOriginKind::RepoLocal => "repo-local"@,
        RuleOriginKind::WorkspaceProfile => "workspace-profile"@,
        RuleOriginKind::OverrideAdd => "override-add"@,
        RuleOriginKind::OverrideReplace => "override-replace"@,
    }
}

impl RuleOriginKind {
    /// The name of the origin as reports write it.
    pub fn as_str(self) -> (s: &'static str)
        ensures
            s@ == origin_name(self),
    {
        match self {
            RuleOriginKind::RootLocal => "root-local",
            RuleOriginKind::RepoLocal => "repo-local",
            RuleOriginKind::WorkspaceProfile => "workspace-profile",
            RuleOriginKind::OverrideAdd => "override-add",
            RuleOriginKind::OverrideReplace => "override-replace",
        }
    }
}

/// The name of a block source.
pub open spec fn block_source_name(k: ConfigBlockSourceKind) -> Seq<char> {
    match k {
        ConfigBlockSourceKind::Local => "local"@,
        ConfigBlockSourceKind::WorkspaceProfile => "workspace-profile"@,
        ConfigBlockSourceKind::OverrideMerge => "override-merge"@,
        ConfigBlockSourceKind::OverrideReplace => "override-replace"@,
        ConfigBlockSourceKind::Default => "default"@,
    }
}

impl ConfigBlockSourceKind {
    /// The name of the block source as reports write it.
    pub fn as_str(self) -> (s: &'static str)
        ensures
            s@ == block_source_name(self),
    {
        match self {
            ConfigBlockSourceKind::Local => "local",
            ConfigBlockSourceKind::WorkspaceProfile => "workspace-profile",
            ConfigBlockSourceKind::OverrideMerge => "override-merge",
            ConfigBlockSourceKind::OverrideReplace => "override-replace",
            ConfigBlockSourceKind::Default => "default",
        }
    }
}

/// The rules of all effective configs, in order.
pub open spec fn all_rules(e: Seq<EffectiveView>) -> Seq<LoadedRuleView>
    decreases e.len(),
{
    if e.len() == 0 {
        Seq::empty()
    } else {
        all_rules(e.drop_last()) + e.last().rules
    }
}

/// The rules of all effective configs, in order, as `all_rules` says.
pub fn impact_rules(effective_configs: &Vec<EffectiveConfig>) -> (r: Vec<LoadedRule>)
    ensures
        loaded_views(r@) == all_rules(effective_views(effective_configs@)),
{
    let ghost ev = effective_views(effective_configs@);
    let mut r: Vec<LoadedRule> = Vec::new();
    let mut i: usize = 0;
    while i < effective_configs.len()
        invariant
            i <= effective_configs.len(),
            ev == effective_views(effective_configs@),
            loaded_views(r@) == all_rules(ev.take(i as int)),
        decreases effective_configs.len() - i,
    {
        let rules = &effective_configs[i].rules;
        let ghost base = loaded_views(r@);
        proof {
            assert(ev.take(i + 1).drop_last() =~= ev.take(i as int));
            assert(ev.take(i + 1).last() == effective_configs@[i as int]@);
        }
        let mut j: usize = 0;
        while j < rules.len()
            invariant
                j <= rules.len(),
                loaded_views(r@) == base + loaded_views(rules@).take(j as int),
            decreases rules.len() - j,
        {
            let ghost prev = loaded_views(r@);
            r.push(crate::config::copy::copy_loaded_rule(&rules[j]));
            proof {
                assert(loaded_views(r@) =~= prev.push(rules@[j as int]@));
                assert(loaded_views(rules@).take(j + 1) =~= loaded_views(rules@).take(j as int).push(rules@[j as int]@));
            }
            j += 1;
        }
        proof {
            assert(loaded_views(rules@).take(j as int) =~= loaded_views(rules@));
        }
        i += 1;
    }
    proof {
        assert(ev.take(i as int) =~= ev);
    }
    r
}

} // verus!
