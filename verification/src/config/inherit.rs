//! The rules a child config inherits from a workspace profile, with its replacements,
//! removals and additions applied in that order.
use vstd::prelude::*;
use crate::config::copy::{copy_loaded_rule, copy_rule};
use crate::config::graphcheck::{ids_of, rule_ids, rule_views};
use crate::config::model::{
    LoadedRule, LoadedRuleView, RuleDisable, RuleOriginKind, RuleOverrides, RuleProvenance,
    RuleProvenanceView, Rule, RuleView, loaded_views,
};
use crate::check::contains_string;
use crate::text::{cat2, cat3, cat5, chars_eq, chars_of, str_to_string, views};

verus! {

/// The source of a rule inherited from a workspace profile:
/// `<root>#workspace.profiles.<profile>.rules.<id>`.
pub open spec fn profile_rule_source(root: Seq<char>, profile: Seq<char>, id: Seq<char>) -> Seq<char> {
    root + "#workspace.profiles."@ + profile + ".rules."@ + id
}

/// The source of a rule an override brings: `<child>#overrides.rules.<op>.<id>`.
pub open spec fn override_source(child: Seq<char>, op: Seq<char>, id: Seq<char>) -> Seq<char> {
    child + "#overrides.rules."@ + op + "."@ + id
}

/// The source of a rule inherited from a workspace profile.
pub fn workspace_profile_rule_source(root_source: &str, profile_name: &str, rule_id: &str) -> (r: String)
    ensures
        r@ == profile_rule_source(root_source@, profile_name@, rule_id@),
{
    cat5(root_source, "#workspace.profiles.", profile_name, ".rules.", rule_id)
}

/// The source of a rule an override brings.
pub fn override_rule_source(config_source: &str, operation: &str, rule_id: &str) -> (r: String)
    ensures
        r@ == override_source(config_source@, operation@, rule_id@),
{
    cat5(config_source, "#overrides.rules.", operation, ".", rule_id)
}

/// What the resolution of inherited rules works in: the root and child config
/// sources, the child's directory and the profile's name.
pub struct InheritContext {
    pub root: Seq<char>,
    pub child: Seq<char>,
    pub base_dir: Seq<char>,
    pub profile: Seq<char>,
}

/// A profile rule as the child inherits it.
pub open spec fn inherited_rule(c: InheritContext, r: RuleView) -> LoadedRuleView {
    LoadedRuleView {
        source: profile_rule_source(c.root, c.profile, r.id),
        config_source: c.child,
        base_dir: c.base_dir,
        rule: r,
        provenance: RuleProvenanceView {
            config_source: c.root,
            origin_kind: RuleOriginKind::WorkspaceProfile,
            workspace_profile: Some(c.profile),
        },
    }
}

/// A rule an override of the child brings.
pub open spec fn override_rule(c: InheritContext, op: Seq<char>, kind: RuleOriginKind, r: RuleView) -> LoadedRuleView {
    LoadedRuleView {
        source: override_source(c.child, op, r.id),
        config_source: c.child,
        base_dir: c.base_dir,
        rule: r,
        provenance: RuleProvenanceView {
            config_source: c.child,
            origin_kind: kind,
            workspace_profile: Some(c.profile),
        },
    }
}

/// The position of the first entry with id `id`.
pub open spec fn first_pos(o: Seq<(Seq<char>, LoadedRuleView)>, id: Seq<char>) -> Option<int>
    decreases o.len(),
{
    if o.len() == 0 {
        None
    } else {
        match first_pos(o.drop_last(), id) {
            Some(k) => Some(k),
            None => if o.last().0 == id { Some(o.len() - 1) } else { None },
        }
    }
}

/// The profile's rules, keyed by id, as inherited.
pub open spec fn initial_rules(c: InheritContext, rules: Seq<RuleView>) -> Seq<(Seq<char>, LoadedRuleView)> {
    rules.map_values(|r: RuleView| (r.id, inherited_rule(c, r)))
}

/// Each replacing rule takes the place of the first active rule with its id; one whose
/// id is not active is an error.
pub open spec fn apply_replaces(
    c: InheritContext,
    o: Seq<(Seq<char>, LoadedRuleView)>,
    rs: Seq<RuleView>,
) -> Result<Seq<(Seq<char>, LoadedRuleView)>, Seq<char>>
    decreases rs.len(),
{
    if rs.len() == 0 {
        Ok(o)
    } else {
        match apply_replaces(c, o, rs.drop_last()) {
            Err(e) => Err(e),
            Ok(o2) => {
                let r = rs.last();
                match first_pos(o2, r.id) {
                    None => Err(
                        c.child + " tries to replace inherited rule `"@ + r.id
                            + "` but that rule does not exist in workspace profile `"@ + c.profile + "`"@,
                    ),
                    Some(p) => Ok(o2.update(p, (r.id, override_rule(c, "replace"@, RuleOriginKind::OverrideReplace, r)))),
                }
            },
        }
    }
}

/// Each disable entry removes the first active rule with its id; an id the profile does
/// not define, or that is no longer active, is an error.
pub open spec fn apply_disables(
    c: InheritContext,
    o: Seq<(Seq<char>, LoadedRuleView)>,
    pids: Seq<Seq<char>>,
    ds: Seq<RuleDisable>,
) -> Result<Seq<(Seq<char>, LoadedRuleView)>, Seq<char>>
    decreases ds.len(),
{
    if ds.len() == 0 {
        Ok(o)
    } else {
        match apply_disables(c, o, pids, ds.drop_last()) {
            Err(e) => Err(e),
            Ok(o2) => {
                let id = ds.last().id@;
                if !pids.contains(id) {
                    Err(
                        c.child + " tries to disable `"@ + id + "` but that rule is not inherited from workspace profile `"@
                            + c.profile + "`"@,
                    )
                } else {
                    match first_pos(o2, id) {
                        None => Err(c.child + " tries to disable `"@ + id + "` but that rule is not active after replacements"@),
                        Some(p) => Ok(o2.remove(p)),
                    }
                }
            },
        }
    }
}

/// Each added rule is appended; one whose id is already active is an error.
pub open spec fn apply_adds(
    c: InheritContext,
    o: Seq<(Seq<char>, LoadedRuleView)>,
    adds: Seq<RuleView>,
) -> Result<Seq<(Seq<char>, LoadedRuleView)>, Seq<char>>
    decreases adds.len(),
{
    if adds.len() == 0 {
        Ok(o)
    } else {
        match apply_adds(c, o, adds.drop_last()) {
            Err(e) => Err(e),
            Ok(o2) => {
                let r = adds.last();
                if first_pos(o2, r.id) is Some {
                    Err(c.child + " tries to add rule `"@ + r.id + "` but that id is already active in inherited config"@)
                } else {
                    Ok(o2.push((r.id, override_rule(c, "add"@, RuleOriginKind::OverrideAdd, r))))
                }
            },
        }
    }
}

/// The rules of the ordered entries.
pub open spec fn ordered_rules(o: Seq<(Seq<char>, LoadedRuleView)>) -> Seq<LoadedRuleView> {
    o.map_values(|e: (Seq<char>, LoadedRuleView)| e.1)
}

/// The effective rules of a child config: the profile's rules, with the replacements,
/// then the removals, then the additions of its overrides applied.
pub open spec fn inherited_rules(
    c: InheritContext,
    profile_rules: Seq<RuleView>,
    replace: Seq<RuleView>,
    disable: Seq<RuleDisable>,
    add: Seq<RuleView>,
) -> Result<Seq<LoadedRuleView>, Seq<char>> {
    match apply_replaces(c, initial_rules(c, profile_rules), replace) {
        Err(e) => Err(e),
        Ok(o1) => match apply_disables(c, o1, rule_ids(profile_rules), disable) {
            Err(e) => Err(e),
            Ok(o2) => match apply_adds(c, o2, add) {
                Err(e) => Err(e),
                Ok(o3) => Ok(ordered_rules(o3)),
            },
        },
    }
}

/// The view of the ordered entries.
pub open spec fn ordered_view(v: Seq<(String, LoadedRule)>) -> Seq<(Seq<char>, LoadedRuleView)> {
    v.map_values(|e: (String, LoadedRule)| (e.0@, e.1@))
}

proof fn lemma_replaces_err(c: InheritContext, o: Seq<(Seq<char>, LoadedRuleView)>, rs: Seq<RuleView>, k: int)
    requires
        0 <= k <= rs.len(),
        apply_replaces(c, o, rs.take(k)) is Err,
    ensures
        apply_replaces(c, o, rs) == apply_replaces(c, o, rs.take(k)),
    decreases rs.len() - k,
{
    if k < rs.len() {
        assert(rs.take(k + 1).drop_last() =~= rs.take(k));
        lemma_replaces_err(c, o, rs, k + 1);
    } else {
        assert(rs.take(k) =~= rs);
    }
}

proof fn lemma_disables_err(
    c: InheritContext,
    o: Seq<(Seq<char>, LoadedRuleView)>,
    pids: Seq<Seq<char>>,
    ds: Seq<RuleDisable>,
    k: int,
)
    requires
        0 <= k <= ds.len(),
        apply_disables(c, o, pids, ds.take(k)) is Err,
    ensures
        apply_disables(c, o, pids, ds) == apply_disables(c, o, pids, ds.take(k)),
    decreases ds.len() - k,
{
    if k < ds.len() {
        assert(ds.take(k + 1).drop_last() =~= ds.take(k));
        lemma_disables_err(c, o, pids, ds, k + 1);
    } else {
        assert(ds.take(k) =~= ds);
    }
}

proof fn lemma_adds_err(c: InheritContext, o: Seq<(Seq<char>, LoadedRuleView)>, adds: Seq<RuleView>, k: int)
    requires
        0 <= k <= adds.len(),
        apply_adds(c, o, adds.take(k)) is Err,
    ensures
        apply_adds(c, o, adds) == apply_adds(c, o, adds.take(k)),
    decreases adds.len() - k,
{
    if k < adds.len() {
        assert(adds.take(k + 1).drop_last() =~= adds.take(k));
        lemma_adds_err(c, o, adds, k + 1);
    } else {
        assert(adds.take(k) =~= adds);
    }
}

fn position_of(o: &Vec<(String, LoadedRule)>, id: &str) -> (r: Option<usize>)
    ensures
        match r {
            Some(p) => first_pos(ordered_view(o@), id@) == Some(p as int) && p < o@.len(),
            None => first_pos(ordered_view(o@), id@) is None,
        },
{
    let ghost ov = ordered_view(o@);
    let iv = chars_of(id);
    let mut i: usize = 0;
    while i < o.len()
        invariant
            i <= o.len(),
            ov == ordered_view(o@),
            iv@ == id@,
            first_pos(ov.take(i as int), id@) is None,
        decreases o.len() - i,
    {
        proof {
            assert(ov.take(i + 1).drop_last() =~= ov.take(i as int));
            assert(ov.take(i + 1).last() == ov[i as int]);
        }
        if chars_eq(&chars_of(o[i].0.as_str()), &iv) {
            proof {
                lemma_first_pos_prefix(ov, id@, i + 1);
            }
            return Some(i);
        }
        i += 1;
    }
    proof {
        assert(ov.take(o.len() as int) =~= ov);
    }
    None
}

proof fn lemma_first_pos_prefix(o: Seq<(Seq<char>, LoadedRuleView)>, id: Seq<char>, n: int)
    requires
        0 <= n <= o.len(),
        first_pos(o.take(n), id) is Some,
    ensures
        first_pos(o, id) == first_pos(o.take(n), id),
    decreases o.len() - n,
{
    if n < o.len() {
        assert(o.take(n + 1).drop_last() =~= o.take(n));
        lemma_first_pos_prefix(o, id, n + 1);
    } else {
        assert(o.take(n) =~= o);
    }
}

/// A first position is within the list.
pub proof fn lemma_first_pos_bounds(o: Seq<(Seq<char>, LoadedRuleView)>, id: Seq<char>)
    ensures
        match first_pos(o, id) {
            Some(p) => 0 <= p < o.len() && o[p].0 == id,
            None => forall|k: int| 0 <= k < o.len() ==> (#[trigger] o[k]).0 != id,
        },
    decreases o.len(),
{
    if o.len() > 0 {
        lemma_first_pos_bounds(o.drop_last(), id);
        assert forall|k: int| 0 <= k < o.len() - 1 implies (#[trigger] o[k]).0 == o.drop_last()[k].0 by {}
    }
}

fn loaded_from(
    source: String,
    child_source: &str,
    child_base: &str,
    config_source: &str,
    kind: RuleOriginKind,
    profile_name: &str,
    rule: &Rule,
) -> (r: LoadedRule)
    ensures
        r@ == (LoadedRuleView {
            source: source@,
            config_source: child_source@,
            base_dir: child_base@,
            rule: rule@,
            provenance: RuleProvenanceView {
                config_source: config_source@,
                origin_kind: kind,
                workspace_profile: Some(profile_name@),
            },
        }),
{
    LoadedRule {
        source,
        config_source: str_to_string(child_source),
        base_dir: str_to_string(child_base),
        rule: copy_rule(rule),
        provenance: RuleProvenance {
            config_source: str_to_string(config_source),
            origin_kind: kind,
            workspace_profile: Some(str_to_string(profile_name)),
        },
    }
}

/// The effective rules of a child config that inherits profile `profile_name` of the
/// workspace root: the profile's rules, with the overrides' replacements, removals and
/// additions applied in that order, as `inherited_rules` says; an error names the
/// first override that cannot apply.
pub fn resolve_inherited_rules(
    root_source: &str,
    child_source: &str,
    child_base: &str,
    profile_name: &str,
    profile_rules: &Vec<Rule>,
    overrides: &RuleOverrides,
) -> (r: Result<Vec<LoadedRule>, String>)
    ensures
        ({
            let c = InheritContext {
                root: root_source@,
                child: child_source@,
                base_dir: child_base@,
                profile: profile_name@,
            };
            let expected = inherited_rules(
                c,
                rule_views(profile_rules@),
                rule_views(overrides.replace@),
                overrides.disable@,
                rule_views(overrides.add@),
            );
            match r {
                Ok(v) => expected == Ok::<Seq<LoadedRuleView>, Seq<char>>(loaded_views(v@)),
                Err(e) => expected == Err::<Seq<LoadedRuleView>, Seq<char>>(e@),
            }
        }),
{
    let ghost c = InheritContext { root: root_source@, child: child_source@, base_dir: child_base@, profile: profile_name@ };
    let ghost prs = rule_views(profile_rules@);
    let mut ordered: Vec<(String, LoadedRule)> = Vec::new();
    let mut i: usize = 0;
    while i < profile_rules.len()
        invariant
            i <= profile_rules.len(),
            prs == rule_views(profile_rules@),
            c == (InheritContext { root: root_source@, child: child_source@, base_dir: child_base@, profile: profile_name@ }),
            ordered_view(ordered@) == initial_rules(c, prs.take(i as int)),
        decreases profile_rules.len() - i,
    {
        let rule = &profile_rules[i];
        let source = workspace_profile_rule_source(root_source, profile_name, rule.id.as_str());
        let loaded = loaded_from(source, child_source, child_base, root_source, RuleOriginKind::WorkspaceProfile, profile_name, rule);
        let ghost prev = ordered_view(ordered@);
        ordered.push((rule.id.clone(), loaded));
        proof {
            assert(prs[i as int] == rule@);
            assert(ordered_view(ordered@) =~= prev.push((rule@.id, inherited_rule(c, rule@))));
            assert(initial_rules(c, prs.take(i + 1)) =~= initial_rules(c, prs.take(i as int)).push((rule@.id, inherited_rule(c, rule@))));
        }
        i += 1;
    }
    proof {
        assert(prs.take(profile_rules.len() as int) =~= prs);
    }
    let ghost o0 = ordered_view(ordered@);
    let ghost rs = rule_views(overrides.replace@);
    let mut j: usize = 0;
    while j < overrides.replace.len()
        invariant
            j <= overrides.replace.len(),
            rs == rule_views(overrides.replace@),
            prs == rule_views(profile_rules@),
            o0 == initial_rules(c, prs),
            c == (InheritContext { root: root_source@, child: child_source@, base_dir: child_base@, profile: profile_name@ }),
            apply_replaces(c, o0, rs.take(j as int)) == Ok::<Seq<(Seq<char>, LoadedRuleView)>, Seq<char>>(ordered_view(ordered@)),
        decreases overrides.replace.len() - j,
    {
        let rule = &overrides.replace[j];
        proof {
            assert(rs.take(j + 1).drop_last() =~= rs.take(j as int));
            assert(rs.take(j + 1).last() == rule@);
        }
        match position_of(&ordered, rule.id.as_str()) {
            None => {
                let mut m = cat3(child_source, " tries to replace inherited rule `", rule.id.as_str());
                m.append("` but that rule does not exist in workspace profile `");
                m.append(profile_name);
                m.append("`");
                proof {
                    lemma_replaces_err(c, o0, rs, j + 1);
                }
                return Err(m);
            },
            Some(p) => {
                let source = override_rule_source(child_source, "replace", rule.id.as_str());
                let loaded = loaded_from(source, child_source, child_base, child_source, RuleOriginKind::OverrideReplace, profile_name, rule);
                let ghost prev = ordered_view(ordered@);
                ordered.remove(p);
                ordered.insert(p, (rule.id.clone(), loaded));
                proof {
                    assert(ordered_view(ordered@) =~= prev.update(
                        p as int,
                        (rule@.id, override_rule(c, "replace"@, RuleOriginKind::OverrideReplace, rule@)),
                    ));
                }
            },
        }
        j += 1;
    }
    proof {
        assert(rs.take(overrides.replace.len() as int) =~= rs);
    }
    let ghost o1 = ordered_view(ordered@);
    let pids = ids_of(profile_rules);
    let ghost ds = overrides.disable@;
    let mut k: usize = 0;
    while k < overrides.disable.len()
        invariant
            k <= overrides.disable.len(),
            ds == overrides.disable@,
            views(pids@) == rule_ids(prs),
            prs == rule_views(profile_rules@),
            rs == rule_views(overrides.replace@),
            apply_replaces(c, initial_rules(c, prs), rs) == Ok::<Seq<(Seq<char>, LoadedRuleView)>, Seq<char>>(o1),
            c == (InheritContext { root: root_source@, child: child_source@, base_dir: child_base@, profile: profile_name@ }),
            apply_disables(c, o1, rule_ids(prs), ds.take(k as int)) == Ok::<Seq<(Seq<char>, LoadedRuleView)>, Seq<char>>(ordered_view(ordered@)),
        decreases overrides.disable.len() - k,
    {
        let d = &overrides.disable[k];
        proof {
            assert(ds.take(k + 1).drop_last() =~= ds.take(k as int));
            assert(ds.take(k + 1).last() == *d);
        }
        if !contains_string(pids.as_slice(), d.id.as_str()) {
            let mut m = cat3(child_source, " tries to disable `", d.id.as_str());
            m.append("` but that rule is not inherited from workspace profile `");
            m.append(profile_name);
            m.append("`");
            proof {
                lemma_disables_err(c, o1, rule_ids(prs), ds, k + 1);
            }
            return Err(m);
        }
        match position_of(&ordered, d.id.as_str()) {
            None => {
                let m = cat3(child_source, " tries to disable `", d.id.as_str());
                let m = cat2(m.as_str(), "` but that rule is not active after replacements");
                proof {
                    lemma_disables_err(c, o1, rule_ids(prs), ds, k + 1);
                }
                return Err(m);
            },
            Some(p) => {
                let ghost prev = ordered_view(ordered@);
                ordered.remove(p);
                proof {
                    assert(ordered_view(ordered@) =~= prev.remove(p as int));
                }
            },
        }
        k += 1;
    }
    proof {
        assert(ds.take(overrides.disable.len() as int) =~= ds);
    }
    let ghost o2 = ordered_view(ordered@);
    let ghost adds = rule_views(overrides.add@);
    let mut a: usize = 0;
    while a < overrides.add.len()
        invariant
            a <= overrides.add.len(),
            adds == rule_views(overrides.add@),
            prs == rule_views(profile_rules@),
            rs == rule_views(overrides.replace@),
            ds == overrides.disable@,
            apply_replaces(c, initial_rules(c, prs), rs) == Ok::<Seq<(Seq<char>, LoadedRuleView)>, Seq<char>>(o1),
            apply_disables(c, o1, rule_ids(prs), ds) == Ok::<Seq<(Seq<char>, LoadedRuleView)>, Seq<char>>(o2),
            c == (InheritContext { root: root_source@, child: child_source@, base_dir: child_base@, profile: profile_name@ }),
            apply_adds(c, o2, adds.take(a as int)) == Ok::<Seq<(Seq<char>, LoadedRuleView)>, Seq<char>>(ordered_view(ordered@)),
        decreases overrides.add.len() - a,
    {
        let rule = &overrides.add[a];
        proof {
            assert(adds.take(a + 1).drop_last() =~= adds.take(a as int));
            assert(adds.take(a + 1).last() == rule@);
        }
        if position_of(&ordered, rule.id.as_str()).is_some() {
            let m = cat3(child_source, " tries to add rule `", rule.id.as_str());
            let m = cat2(m.as_str(), "` but that id is already active in inherited config");
            proof {
                lemma_adds_err(c, o2, adds, a + 1);
            }
            return Err(m);
        }
        let source = override_rule_source(child_source, "add", rule.id.as_str());
        let loaded = loaded_from(source, child_source, child_base, child_source, RuleOriginKind::OverrideAdd, profile_name, rule);
        let ghost prev = ordered_view(ordered@);
        ordered.push((rule.id.clone(), loaded));
        proof {
            assert(ordered_view(ordered@) =~= prev.push((rule@.id, override_rule(c, "add"@, RuleOriginKind::OverrideAdd, rule@))));
        }
        a += 1;
    }
    proof {
        assert(adds.take(overrides.add.len() as int) =~= adds);
    }
    let ghost o3 = ordered_view(ordered@);
    let mut out: Vec<LoadedRule> = Vec::new();
    let mut q: usize = 0;
    while q < ordered.len()
        invariant
            q <= ordered.len(),
            o3 == ordered_view(ordered@),
            loaded_views(out@) == ordered_rules(o3.take(q as int)),
        decreases ordered.len() - q,
    {
        let ghost prev = loaded_views(out@);
        out.push(copy_loaded_rule(&ordered[q].1));
        proof {
            assert(loaded_views(out@) =~= prev.push(o3[q as int].1));
            assert(ordered_rules(o3.take(q + 1)) =~= ordered_rules(o3.take(q as int)).push(o3[q as int].1));
        }
        q += 1;
    }
    proof {
        assert(o3.take(ordered.len() as int) =~= o3);
    }
    Ok(out)
}


/// The ids of the ordered entries.
pub open spec fn entry_ids(o: Seq<(Seq<char>, LoadedRuleView)>) -> Seq<Seq<char>> {
    o.map_values(|e: (Seq<char>, LoadedRuleView)| e.0)
}

/// Each entry is keyed by the id of its rule.
pub open spec fn keyed(o: Seq<(Seq<char>, LoadedRuleView)>) -> bool {
    forall|k: int| 0 <= k < o.len() ==> (#[trigger] o[k]).0 == o[k].1.rule.id
}

proof fn lemma_replaces_keep_ids(c: InheritContext, o: Seq<(Seq<char>, LoadedRuleView)>, rs: Seq<RuleView>)
    requires
        apply_replaces(c, o, rs) is Ok,
        keyed(o),
    ensures
        entry_ids(apply_replaces(c, o, rs)->Ok_0) == entry_ids(o),
        keyed(apply_replaces(c, o, rs)->Ok_0),
    decreases rs.len(),
{
    if rs.len() > 0 {
        lemma_replaces_keep_ids(c, o, rs.drop_last());
        let o2 = apply_replaces(c, o, rs.drop_last())->Ok_0;
        let r = rs.last();
        lemma_first_pos_bounds(o2, r.id);
        let p = first_pos(o2, r.id)->Some_0;
        let o3 = o2.update(p, (r.id, override_rule(c, "replace"@, RuleOriginKind::OverrideReplace, r)));
        assert(entry_ids(o3) =~= entry_ids(o2)) by {
            assert forall|k: int| 0 <= k < o3.len() implies entry_ids(o3)[k] == entry_ids(o2)[k] by {
                if k == p {
                    assert(o2[p].0 == r.id);
                }
            }
        }
    }
}

proof fn lemma_disables_remove(
    c: InheritContext,
    o: Seq<(Seq<char>, LoadedRuleView)>,
    pids: Seq<Seq<char>>,
    ds: Seq<RuleDisable>,
)
    requires
        apply_disables(c, o, pids, ds) is Ok,
        keyed(o),
        entry_ids(o).no_duplicates(),
    ensures
        ({
            let o2 = apply_disables(c, o, pids, ds)->Ok_0;
            &&& keyed(o2)
            &&& entry_ids(o2).no_duplicates()
            &&& forall|j: int| 0 <= j < ds.len() ==> !entry_ids(o2).contains(#[trigger] ds[j].id@)
        }),
    decreases ds.len(),
{
    if ds.len() > 0 {
        let prefix = ds.drop_last();
        lemma_disables_remove(c, o, pids, prefix);
        let o2 = apply_disables(c, o, pids, prefix)->Ok_0;
        let id = ds.last().id@;
        lemma_first_pos_bounds(o2, id);
        let p = first_pos(o2, id)->Some_0;
        let o3 = o2.remove(p);
        assert(entry_ids(o3) =~= entry_ids(o2).remove(p));
        assert forall|j: int| 0 <= j < ds.len() implies !entry_ids(o3).contains(#[trigger] ds[j].id@) by {
            if j < prefix.len() {
                assert(prefix[j] == ds[j]);
                if entry_ids(o3).contains(ds[j].id@) {
                    let k = choose|k: int| 0 <= k < entry_ids(o3).len() && entry_ids(o3)[k] == ds[j].id@;
                    if k < p {
                        assert(entry_ids(o2)[k] == ds[j].id@);
                    } else {
                        assert(entry_ids(o2)[k + 1] == ds[j].id@);
                    }
                }
            } else {
                if entry_ids(o3).contains(id) {
                    let k = choose|k: int| 0 <= k < entry_ids(o3).len() && entry_ids(o3)[k] == id;
                    if k < p {
                        assert(entry_ids(o2)[k] == id);
                        assert(entry_ids(o2)[p] == id);
                    } else {
                        assert(entry_ids(o2)[k + 1] == id);
                        assert(entry_ids(o2)[p] == id);
                    }
                }
            }
        }
    }
}

proof fn lemma_adds_append(c: InheritContext, o: Seq<(Seq<char>, LoadedRuleView)>, adds: Seq<RuleView>)
    requires
        apply_adds(c, o, adds) is Ok,
    ensures
        apply_adds(c, o, adds)->Ok_0 == o + adds.map_values(
            |r: RuleView| (r.id, override_rule(c, "add"@, RuleOriginKind::OverrideAdd, r)),
        ),
    decreases adds.len(),
{
    if adds.len() > 0 {
        lemma_adds_append(c, o, adds.drop_last());
        let f = |r: RuleView| (r.id, override_rule(c, "add"@, RuleOriginKind::OverrideAdd, r));
        assert(adds.map_values(f) =~= adds.drop_last().map_values(f).push(f(adds.last())));
        assert((o + adds.drop_last().map_values(f)).push(f(adds.last())) =~= o + adds.map_values(f));
    }
}

/// Overrides take effect. When a child's inherited rules resolve, every rule its
/// overrides add is active, as an `OverrideAdd` rule of the child; and where the
/// profile's rule ids are distinct, no active rule has an id that the overrides disable,
/// unless they add that id again.
pub proof fn law_overrides_take_effect(
    c: InheritContext,
    profile_rules: Seq<RuleView>,
    replace: Seq<RuleView>,
    disable: Seq<RuleDisable>,
    add: Seq<RuleView>,
)
    requires
        inherited_rules(c, profile_rules, replace, disable, add) is Ok,
    ensures
        ({
            let rs = inherited_rules(c, profile_rules, replace, disable, add)->Ok_0;
            &&& forall|j: int| 0 <= j < add.len() ==> rs.contains(
                override_rule(c, "add"@, RuleOriginKind::OverrideAdd, #[trigger] add[j]),
            )
            &&& rule_ids(profile_rules).no_duplicates() ==> forall|j: int, k: int|
                0 <= j < disable.len() && 0 <= k < rs.len() && !rule_ids(add).contains(disable[j].id@)
                    ==> (#[trigger] rs[k]).rule.id != (#[trigger] disable[j]).id@
        }),
{
    let o0 = initial_rules(c, profile_rules);
    let o1 = apply_replaces(c, o0, replace)->Ok_0;
    let o2 = apply_disables(c, o1, rule_ids(profile_rules), disable)->Ok_0;
    let f = |r: RuleView| (r.id, override_rule(c, "add"@, RuleOriginKind::OverrideAdd, r));
    let o3 = apply_adds(c, o2, add)->Ok_0;
    let rs = inherited_rules(c, profile_rules, replace, disable, add)->Ok_0;
    assert(rs == ordered_rules(o3));
    lemma_adds_append(c, o2, add);
    assert(o3 == o2 + add.map_values(f));
    assert forall|j: int| 0 <= j < add.len() implies rs.contains(
        override_rule(c, "add"@, RuleOriginKind::OverrideAdd, #[trigger] add[j]),
    ) by {
        assert(o3[o2.len() + j] == f(add[j]));
        assert(rs[o2.len() + j] == o3[o2.len() + j].1);
    }
    if rule_ids(profile_rules).no_duplicates() {
        assert(keyed(o0));
        assert(entry_ids(o0) =~= rule_ids(profile_rules));
        lemma_replaces_keep_ids(c, o0, replace);
        lemma_disables_remove(c, o1, rule_ids(profile_rules), disable);
        assert forall|j: int, k: int|
            0 <= j < disable.len() && 0 <= k < rs.len() && !rule_ids(add).contains(disable[j].id@)
                implies (#[trigger] rs[k]).rule.id != (#[trigger] disable[j]).id@ by {
            if k < o2.len() {
                assert(o3[k] == o2[k]);
                assert(entry_ids(o2)[k] == o2[k].0);
                assert(rs[k] == o3[k].1);
            } else {
                let a = k - o2.len();
                assert(o3[k] == f(add[a]));
                assert(rule_ids(add)[a] == add[a].id);
                assert(rs[k] == o3[k].1);
            }
        }
    }
}

} // verus!
