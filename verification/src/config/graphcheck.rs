//! Strict validation of the parsed config files of a graph: the blocks each file
//! declares, the shape of workspace roots, and the inheritance of child configs.
use vstd::prelude::*;
use crate::config::blocks::{
    catalog_block_problems, domain_views, intent_views, intents_problems, ownership_block_problems,
    repo_views, validate_catalog_block, validate_ownership_block, validate_routing_block,
};
use crate::config::copy::copy_rule;
use crate::config::model::{
    ConfigLayout, ConfigValidationProblem, FreshnessConfig, LoadedRule, LoadedRuleView,
    OverrideMode, OverridesConfig, ParsedImpactFile, ProblemView, RuleOriginKind, RuleProvenance,
    RuleDisable, RuleProvenanceView, Rule, RuleView, WorkspaceProfile, problem_views,
};
use crate::config::problems::{is_sorted_problems_of, pview, sort_problems};
use crate::config::validate::{
    freshness_problems, push_problem, rule_problems, scoped_problems, validate_freshness_block,
    validate_rule, validate_scoped_patterns,
};
use crate::check::contains_string;
use crate::text::{cat2, cat3, cat5, is_blank, str_to_string, trim, views};

verus! {

/// The loaded form a rule of a config file is checked in.
pub open spec fn file_rule_view(source: Seq<char>, base_dir: Seq<char>, rule: RuleView) -> LoadedRuleView {
    LoadedRuleView {
        source,
        config_source: source,
        base_dir,
        rule,
        provenance: RuleProvenanceView {
            config_source: source,
            origin_kind: RuleOriginKind::RepoLocal,
            workspace_profile: None,
        },
    }
}

/// The problems of the rules of one config file, in order.
pub open spec fn file_rules_problems(source: Seq<char>, base_dir: Seq<char>, rules: Seq<RuleView>) -> Seq<ProblemView>
    decreases rules.len(),
{
    if rules.len() == 0 {
        Seq::empty()
    } else {
        file_rules_problems(source, base_dir, rules.drop_last()) + rule_problems(
            file_rule_view(source, base_dir, rules.last()),
        )
    }
}

/// The views of a list of rules.
pub open spec fn rule_views(v: Seq<Rule>) -> Seq<RuleView> {
    v.map_values(|r: Rule| r@)
}

/// Checks one rule written in a config file.
pub fn validate_single_rule(rule: &Rule, source: &str, base_dir: &str, problems: &mut Vec<ConfigValidationProblem>)
    ensures
        problem_views(final(problems)@) == problem_views(old(problems)@) + rule_problems(
            file_rule_view(source@, base_dir@, rule@),
        ),
{
    let loaded = LoadedRule {
        source: str_to_string(source),
        config_source: str_to_string(source),
        base_dir: str_to_string(base_dir),
        rule: copy_rule(rule),
        provenance: RuleProvenance {
            config_source: str_to_string(source),
            origin_kind: RuleOriginKind::RepoLocal,
            workspace_profile: None,
        },
    };
    validate_rule(&loaded, problems);
}

/// Checks the rules written in a config file.
pub fn validate_file_rules(rules: &Vec<Rule>, source: &str, base_dir: &str, problems: &mut Vec<ConfigValidationProblem>)
    ensures
        problem_views(final(problems)@) == problem_views(old(problems)@) + file_rules_problems(
            source@,
            base_dir@,
            rule_views(rules@),
        ),
{
    let ghost base = problem_views(problems@);
    let ghost rv = rule_views(rules@);
    let mut i: usize = 0;
    while i < rules.len()
        invariant
            i <= rules.len(),
            rv == rule_views(rules@),
            problem_views(problems@) == base + file_rules_problems(source@, base_dir@, rv.take(i as int)),
        decreases rules.len() - i,
    {
        proof {
            assert(rv.take(i + 1).drop_last() =~= rv.take(i as int));
            assert(rv.take(i + 1).last() == rules@[i as int]@);
        }
        validate_single_rule(&rules[i], source, base_dir, problems);
        proof {
            assert(problem_views(problems@) =~= base + file_rules_problems(source@, base_dir@, rv.take(i + 1)));
        }
        i += 1;
    }
    proof {
        assert(rv.take(rules.len() as int) =~= rv);
    }
}

/// The problems of a file's pattern and threshold blocks: coverage, docInventory, freshness.
pub open spec fn top_level_scoped(p: ParsedImpactFile) -> Seq<ProblemView> {
    let source = p.descriptor.rel_path@;
    let f = p.parsed;
    let c = match f.coverage {
        Some(b) => scoped_problems(source, "coverage"@, b@.includes, b@.exclude),
        None => Seq::empty(),
    };
    let d = match f.doc_inventory {
        Some(b) => scoped_problems(source, "docInventory"@, b@.includes, b@.exclude),
        None => Seq::empty(),
    };
    let fr = match f.freshness {
        Some(b) => freshness_problems(source, b),
        None => Seq::empty(),
    };
    c + d + fr
}

/// The problems of a file's routing, catalog and ownership blocks.
pub open spec fn top_level_maps(p: ParsedImpactFile) -> Seq<ProblemView> {
    let source = p.descriptor.rel_path@;
    let f = p.parsed;
    let r = match f.routing {
        Some(b) => intents_problems(source, b@, true),
        None => Seq::empty(),
    };
    let ca = match f.catalog {
        Some(b) => catalog_block_problems(source, b@),
        None => Seq::empty(),
    };
    let o = match f.ownership {
        Some(b) => ownership_block_problems(source, b@),
        None => Seq::empty(),
    };
    r + ca + o
}

/// The problems of the blocks a config file declares at its top level, in the order
/// they are checked: coverage, docInventory, freshness, routing, catalog, ownership,
/// then each rule.
pub open spec fn top_level_problems(p: ParsedImpactFile) -> Seq<ProblemView> {
    top_level_scoped(p) + top_level_maps(p) + file_rules_problems(
        p.descriptor.rel_path@,
        p.descriptor.base_dir@,
        rule_views(p.parsed.rules@),
    )
}

fn validate_top_level_scoped(parsed: &ParsedImpactFile, problems: &mut Vec<ConfigValidationProblem>)
    ensures
        problem_views(final(problems)@) == problem_views(old(problems)@) + top_level_scoped(*parsed),
{
    let ghost base = problem_views(problems@);
    let source = parsed.descriptor.rel_path.as_str();
    let f = &parsed.parsed;
    match &f.coverage {
        Some(b) => validate_scoped_patterns(source, "coverage", &b.includes, &b.exclude, problems),
        None => {},
    }
    match &f.doc_inventory {
        Some(b) => validate_scoped_patterns(source, "docInventory", &b.includes, &b.exclude, problems),
        None => {},
    }
    match &f.freshness {
        Some(b) => validate_freshness_block(source, b, problems),
        None => {},
    }
    proof {
        assert(problem_views(problems@) =~= base + top_level_scoped(*parsed));
    }
}

fn validate_top_level_maps(parsed: &ParsedImpactFile, problems: &mut Vec<ConfigValidationProblem>)
    ensures
        problem_views(final(problems)@) == problem_views(old(problems)@) + top_level_maps(*parsed),
{
    let ghost base = problem_views(problems@);
    let source = parsed.descriptor.rel_path.as_str();
    let f = &parsed.parsed;
    match &f.routing {
        Some(b) => {
            validate_routing_block(source, &b.intents, problems);
            proof {
                assert(intent_views(b.intents@) == b@);
            }
        },
        None => {},
    }
    match &f.catalog {
        Some(b) => {
            validate_catalog_block(source, &b.repos, problems);
            proof {
                assert(repo_views(b.repos@) == b@);
            }
        },
        None => {},
    }
    match &f.ownership {
        Some(b) => {
            validate_ownership_block(source, &b.domains, problems);
            proof {
                assert(domain_views(b.domains@) == b@);
            }
        },
        None => {},
    }
    proof {
        assert(problem_views(problems@) =~= base + top_level_maps(*parsed));
    }
}

/// Checks the blocks a config file declares at its top level.
pub fn validate_top_level_blocks(parsed: &ParsedImpactFile, problems: &mut Vec<ConfigValidationProblem>)
    ensures
        problem_views(final(problems)@) == problem_views(old(problems)@) + top_level_problems(*parsed),
{
    let ghost base = problem_views(problems@);
    validate_top_level_scoped(parsed, problems);
    validate_top_level_maps(parsed, problems);
    validate_file_rules(&parsed.parsed.rules, parsed.descriptor.rel_path.as_str(), parsed.descriptor.base_dir.as_str(), problems);
    proof {
        assert(problem_views(problems@) =~= base + top_level_problems(*parsed));
    }
}

/// The problems of a profile's blocks under the profile source `ps`.
pub open spec fn profile_block_problems(ps: Seq<char>, prof: WorkspaceProfile) -> Seq<ProblemView> {
    let c = match prof.coverage {
        Some(b) => scoped_problems(ps, "coverage"@, b@.includes, b@.exclude),
        None => Seq::empty(),
    };
    let d = match prof.doc_inventory {
        Some(b) => scoped_problems(ps, "docInventory"@, b@.includes, b@.exclude),
        None => Seq::empty(),
    };
    let fr = match prof.freshness {
        Some(b) => freshness_problems(ps, b),
        None => Seq::empty(),
    };
    let r = match prof.routing {
        Some(b) => intents_problems(ps, b@, true),
        None => Seq::empty(),
    };
    c + d + fr + r
}

/// The problems of one workspace profile, checked under the source
/// `<file>#workspace.profiles.<name>`.
pub open spec fn profile_problems(source: Seq<char>, base_dir: Seq<char>, name: Seq<char>, prof: WorkspaceProfile) -> Seq<ProblemView> {
    let ps = source + "#workspace.profiles."@ + name;
    profile_block_problems(ps, prof) + file_rules_problems(ps, base_dir, rule_views(prof.rules@))
}

/// The problems of a list of workspace profiles, in order.
pub open spec fn profiles_problems(source: Seq<char>, base_dir: Seq<char>, profiles: Seq<(String, WorkspaceProfile)>) -> Seq<ProblemView>
    decreases profiles.len(),
{
    if profiles.len() == 0 {
        Seq::empty()
    } else {
        profiles_problems(source, base_dir, profiles.drop_last()) + profile_problems(
            source,
            base_dir,
            profiles.last().0@,
            profiles.last().1,
        )
    }
}

/// The problems of a workspace root config beyond its top-level blocks: it may not
/// inherit or override, and each of its profiles is checked.
pub open spec fn workspace_problems(p: ParsedImpactFile) -> Seq<ProblemView> {
    let source = p.descriptor.rel_path@;
    let p0 = if p.parsed.inherit is Some {
        seq![pview(source, None, "workspace root configs must not declare `inherit`"@)]
    } else {
        Seq::empty()
    };
    let p1 = if p.parsed.overrides is Some {
        seq![pview(source, None, "workspace root configs must not declare `overrides`"@)]
    } else {
        Seq::empty()
    };
    let p2 = match p.parsed.workspace {
        Some(w) => profiles_problems(source, p.descriptor.base_dir@, w.profiles@),
        None => Seq::empty(),
    };
    p0 + p1 + p2
}

fn validate_profile_blocks(ps: &str, prof: &WorkspaceProfile, problems: &mut Vec<ConfigValidationProblem>)
    ensures
        problem_views(final(problems)@) == problem_views(old(problems)@) + profile_block_problems(ps@, *prof),
{
    let ghost base = problem_views(problems@);
    match &prof.coverage {
        Some(b) => validate_scoped_patterns(ps, "coverage", &b.includes, &b.exclude, problems),
        None => {},
    }
    match &prof.doc_inventory {
        Some(b) => validate_scoped_patterns(ps, "docInventory", &b.includes, &b.exclude, problems),
        None => {},
    }
    match &prof.freshness {
        Some(b) => validate_freshness_block(ps, b, problems),
        None => {},
    }
    match &prof.routing {
        Some(b) => {
            validate_routing_block(ps, &b.intents, problems);
            proof {
                assert(intent_views(b.intents@) == b@);
            }
        },
        None => {},
    }
    proof {
        assert(problem_views(problems@) =~= base + profile_block_problems(ps@, *prof));
    }
}

fn validate_profile(
    source: &str,
    base_dir: &str,
    name: &String,
    prof: &WorkspaceProfile,
    problems: &mut Vec<ConfigValidationProblem>,
)
    ensures
        problem_views(final(problems)@) == problem_views(old(problems)@) + profile_problems(
            source@,
            base_dir@,
            name@,
            *prof,
        ),
{
    let ghost base = problem_views(problems@);
    let mut ps = cat2(source, "#workspace.profiles.");
    ps.append(name.as_str());
    validate_profile_blocks(ps.as_str(), prof, problems);
    validate_file_rules(&prof.rules, ps.as_str(), base_dir, problems);
    proof {
        assert(problem_views(problems@) =~= base + profile_problems(source@, base_dir@, name@, *prof));
    }
}

/// Checks what only a workspace root must satisfy: no `inherit`, no `overrides`, and
/// valid profiles.
pub fn validate_workspace_config(parsed: &ParsedImpactFile, problems: &mut Vec<ConfigValidationProblem>)
    ensures
        problem_views(final(problems)@) == problem_views(old(problems)@) + workspace_problems(*parsed),
{
    let ghost base = problem_views(problems@);
    let source = parsed.descriptor.rel_path.as_str();
    if parsed.parsed.inherit.is_some() {
        push_problem(problems, source, &None, str_to_string("workspace root configs must not declare `inherit`"));
    }
    if parsed.parsed.overrides.is_some() {
        push_problem(problems, source, &None, str_to_string("workspace root configs must not declare `overrides`"));
    }
    let ghost head = problem_views(problems@);
    match &parsed.parsed.workspace {
        Some(w) => {
            let ghost pv = w.profiles@;
            let mut i: usize = 0;
            while i < w.profiles.len()
                invariant
                    i <= w.profiles.len(),
                    pv == w.profiles@,
                    problem_views(problems@) == head + profiles_problems(
                        source@,
                        parsed.descriptor.base_dir@,
                        pv.take(i as int),
                    ),
                decreases w.profiles.len() - i,
            {
                proof {
                    assert(pv.take(i + 1).drop_last() =~= pv.take(i as int));
                    assert(pv.take(i + 1).last() == pv[i as int]);
                }
                validate_profile(source, parsed.descriptor.base_dir.as_str(), &w.profiles[i].0, &w.profiles[i].1, problems);
                proof {
                    assert(problem_views(problems@) =~= head + profiles_problems(
                        source@,
                        parsed.descriptor.base_dir@,
                        pv.take(i + 1),
                    ));
                }
                i += 1;
            }
            proof {
                assert(pv.take(w.profiles.len() as int) =~= pv);
            }
        },
        None => {},
    }
    proof {
        assert(problem_views(problems@) =~= base + workspace_problems(*parsed));
    }
}

/// The index of the first profile named `name`.
pub open spec fn find_profile(profiles: Seq<(String, WorkspaceProfile)>, name: Seq<char>) -> Option<int>
    decreases profiles.len(),
{
    if profiles.len() == 0 {
        None
    } else {
        match find_profile(profiles.drop_last(), name) {
            Some(k) => Some(k),
            None => if profiles.last().0@ == name { Some(profiles.len() - 1) } else { None },
        }
    }
}

/// Looks up a profile by name.
pub fn lookup_profile(profiles: &Vec<(String, WorkspaceProfile)>, name: &str) -> (r: Option<usize>)
    ensures
        match r {
            Some(k) => find_profile(profiles@, name@) == Some(k as int) && k < profiles@.len(),
            None => find_profile(profiles@, name@) is None,
        },
{
    let ghost pv = profiles@;
    let mut i: usize = 0;
    while i < profiles.len()
        invariant
            i <= profiles.len(),
            pv == profiles@,
            find_profile(pv.take(i as int), name@) is None,
        decreases profiles.len() - i,
    {
        proof {
            assert(pv.take(i + 1).drop_last() =~= pv.take(i as int));
            assert(pv.take(i + 1).last() == pv[i as int]);
        }
        if crate::text::str_eq(profiles[i].0.as_str(), name) {
            proof {
                lemma_find_profile_prefix(pv, name@, i as int + 1);
            }
            return Some(i);
        }
        i += 1;
    }
    proof {
        assert(pv.take(profiles.len() as int) =~= pv);
    }
    None
}

/// A profile found in a prefix is found at the same index in the whole list.
pub proof fn lemma_find_profile_prefix(pv: Seq<(String, WorkspaceProfile)>, name: Seq<char>, n: int)
    requires
        0 <= n <= pv.len(),
        find_profile(pv.take(n), name) is Some,
    ensures
        find_profile(pv, name) == find_profile(pv.take(n), name),
    decreases pv.len() - n,
{
    if n < pv.len() {
        assert(pv.take(n + 1).drop_last() =~= pv.take(n));
        lemma_find_profile_prefix(pv, name, n + 1);
    } else {
        assert(pv.take(n) =~= pv);
    }
}

/// The top-level blocks a config that inherits may not declare.
pub open spec fn inherit_shape_problems(p: ParsedImpactFile) -> Seq<ProblemView> {
    let source = p.descriptor.rel_path@;
    let f = p.parsed;
    let c = if f.coverage is Some {
        seq![pview(source, None, "configs using workspace inheritance must not define top-level `coverage`; move it into `overrides.coverage`"@)]
    } else {
        Seq::empty()
    };
    let d = if f.doc_inventory is Some {
        seq![pview(source, None, "configs using workspace inheritance must not define top-level `docInventory`; move it into `overrides.docInventory`"@)]
    } else {
        Seq::empty()
    };
    let fr = if f.freshness is Some {
        seq![pview(source, None, "configs using workspace inheritance must not define top-level `freshness`; move it into `overrides.freshness`"@)]
    } else {
        Seq::empty()
    };
    let r = if f.routing is Some {
        seq![pview(source, None, "configs using workspace inheritance must not define top-level `routing`; move it into `overrides.routing`"@)]
    } else {
        Seq::empty()
    };
    let ru = if f.rules@.len() > 0 {
        seq![pview(source, None, "configs using workspace inheritance must not define top-level `rules`; use `overrides.rules`"@)]
    } else {
        Seq::empty()
    };
    c + d + fr + r + ru
}

fn validate_inherit_shape(parsed: &ParsedImpactFile, problems: &mut Vec<ConfigValidationProblem>)
    ensures
        problem_views(final(problems)@) == problem_views(old(problems)@) + inherit_shape_problems(*parsed),
{
    let ghost base = problem_views(problems@);
    let source = parsed.descriptor.rel_path.as_str();
    let f = &parsed.parsed;
    if f.coverage.is_some() {
        push_problem(problems, source, &None, str_to_string("configs using workspace inheritance must not define top-level `coverage`; move it into `overrides.coverage`"));
    }
    if f.doc_inventory.is_some() {
        push_problem(problems, source, &None, str_to_string("configs using workspace inheritance must not define top-level `docInventory`; move it into `overrides.docInventory`"));
    }
    if f.freshness.is_some() {
        push_problem(problems, source, &None, str_to_string("configs using workspace inheritance must not define top-level `freshness`; move it into `overrides.freshness`"));
    }
    if f.routing.is_some() {
        push_problem(problems, source, &None, str_to_string("configs using workspace inheritance must not define top-level `routing`; move it into `overrides.routing`"));
    }
    if f.rules.len() > 0 {
        push_problem(problems, source, &None, str_to_string("configs using workspace inheritance must not define top-level `rules`; use `overrides.rules`"));
    }
    proof {
        assert(problem_views(problems@) =~= base + inherit_shape_problems(*parsed));
    }
}

/// The problems of the coverage and docInventory overrides.
pub open spec fn override_scoped(source: Seq<char>, o: OverridesConfig) -> Seq<ProblemView> {
    (match o.coverage {
        Some(b) => scoped_problems(source + "#overrides.coverage"@, "coverage"@, views(b.includes@), views(b.exclude@)),
        None => Seq::empty(),
    }) + (match o.doc_inventory {
        Some(b) => scoped_problems(source + "#overrides.docInventory"@, "docInventory"@, views(b.includes@), views(b.exclude@)),
        None => Seq::empty(),
    })
}

/// The problems of the freshness and routing overrides; freshness may only replace.
pub open spec fn override_fresh_routing(source: Seq<char>, o: OverridesConfig) -> Seq<ProblemView> {
    (match o.freshness {
        Some(b) => {
            let fs = source + "#overrides.freshness"@;
            (if b.mode != OverrideMode::Replace {
                seq![pview(fs, None, "overrides.freshness only supports `mode: replace`"@)]
            } else {
                Seq::empty()
            }) + freshness_problems(
                fs,
                FreshnessConfig {
                    warn_after_commits: b.warn_after_commits,
                    warn_after_days: b.warn_after_days,
                    critical_after_days: b.critical_after_days,
                },
            )
        },
        None => Seq::empty(),
    }) + (match o.routing {
        Some(b) => intents_problems(source + "#overrides.routing"@, intent_views(b.intents@), true),
        None => Seq::empty(),
    })
}

/// The problems of the added and replacing rules.
pub open spec fn override_rules(source: Seq<char>, base_dir: Seq<char>, o: OverridesConfig) -> Seq<ProblemView> {
    file_rules_problems(source + "#overrides.rules.add"@, base_dir, rule_views(o.rules.add@))
        + file_rules_problems(source + "#overrides.rules.replace"@, base_dir, rule_views(o.rules.replace@))
}

/// The problems of the override blocks of a child config, each checked under the
/// source `<file>#overrides.<block>`.
pub open spec fn override_block_problems(source: Seq<char>, base_dir: Seq<char>, o: OverridesConfig) -> Seq<ProblemView> {
    override_scoped(source, o) + override_fresh_routing(source, o) + override_rules(source, base_dir, o)
}

fn validate_override_scoped(source: &str, o: &OverridesConfig, problems: &mut Vec<ConfigValidationProblem>)
    ensures
        problem_views(final(problems)@) == problem_views(old(problems)@) + override_scoped(source@, *o),
{
    let ghost base = problem_views(problems@);
    match &o.coverage {
        Some(b) => {
            let s = cat2(source, "#overrides.coverage");
            validate_scoped_patterns(s.as_str(), "coverage", &b.includes, &b.exclude, problems);
        },
        None => {},
    }
    let ghost mid = problem_views(problems@);
    match &o.doc_inventory {
        Some(b) => {
            let s = cat2(source, "#overrides.docInventory");
            validate_scoped_patterns(s.as_str(), "docInventory", &b.includes, &b.exclude, problems);
        },
        None => {},
    }
    proof {
        assert(problem_views(problems@) =~= base + override_scoped(source@, *o));
    }
}

fn validate_override_freshness_routing(source: &str, o: &OverridesConfig, problems: &mut Vec<ConfigValidationProblem>)
    ensures
        problem_views(final(problems)@) == problem_views(old(problems)@) + override_fresh_routing(source@, *o),
{
    let ghost base = problem_views(problems@);
    match &o.freshness {
        Some(b) => {
            let fs = cat2(source, "#overrides.freshness");
            let replace = match b.mode {
                OverrideMode::Replace => true,
                OverrideMode::Merge => false,
            };
            if !replace {
                push_problem(problems, fs.as_str(), &None, str_to_string("overrides.freshness only supports `mode: replace`"));
            }
            let f = FreshnessConfig {
                warn_after_commits: b.warn_after_commits,
                warn_after_days: b.warn_after_days,
                critical_after_days: b.critical_after_days,
            };
            validate_freshness_block(fs.as_str(), &f, problems);
        },
        None => {},
    }
    let ghost mid = problem_views(problems@);
    match &o.routing {
        Some(b) => {
            let rs = cat2(source, "#overrides.routing");
            validate_routing_block(rs.as_str(), &b.intents, problems);
        },
        None => {},
    }
    proof {
        assert(problem_views(problems@) =~= base + override_fresh_routing(source@, *o));
    }
}

fn validate_override_rules(source: &str, base_dir: &str, o: &OverridesConfig, problems: &mut Vec<ConfigValidationProblem>)
    ensures
        problem_views(final(problems)@) == problem_views(old(problems)@) + override_rules(source@, base_dir@, *o),
{
    let ghost base = problem_views(problems@);
    let add_source = cat2(source, "#overrides.rules.add");
    validate_file_rules(&o.rules.add, add_source.as_str(), base_dir, problems);
    let replace_source = cat2(source, "#overrides.rules.replace");
    validate_file_rules(&o.rules.replace, replace_source.as_str(), base_dir, problems);
    proof {
        assert(problem_views(problems@) =~= base + override_rules(source@, base_dir@, *o));
    }
}

fn validate_override_blocks(source: &str, base_dir: &str, o: &OverridesConfig, problems: &mut Vec<ConfigValidationProblem>)
    ensures
        problem_views(final(problems)@) == problem_views(old(problems)@) + override_block_problems(source@, base_dir@, *o),
{
    let ghost base = problem_views(problems@);
    validate_override_scoped(source, o, problems);
    validate_override_freshness_routing(source, o, problems);
    validate_override_rules(source, base_dir, o, problems);
    proof {
        assert(problem_views(problems@) =~= base + override_block_problems(source@, base_dir@, *o));
    }
}

/// The ids of a list of rules.
pub open spec fn rule_ids(rules: Seq<RuleView>) -> Seq<Seq<char>> {
    rules.map_values(|r: RuleView| r.id)
}

/// One problem for each replacing rule whose id the profile does not have.
pub open spec fn replace_checks(source: Seq<char>, profile: Seq<char>, pids: Seq<Seq<char>>, rules: Seq<RuleView>) -> Seq<ProblemView>
    decreases rules.len(),
{
    if rules.len() == 0 {
        Seq::empty()
    } else {
        let prefix = replace_checks(source, profile, pids, rules.drop_last());
        let id = rules.last().id;
        if pids.contains(id) {
            prefix
        } else {
            prefix.push(
                pview(
                    source,
                    Some(id),
                    "override replace rule `"@ + id + "` does not match any inherited rule in workspace profile `"@
                        + profile + "`"@,
                ),
            )
        }
    }
}

/// The problems of one disable entry: an id the profile does not have, an id only a
/// local addition has, and a blank reason.
pub open spec fn disable_check(
    source: Seq<char>,
    profile: Seq<char>,
    pids: Seq<Seq<char>>,
    add_ids: Seq<Seq<char>>,
    replace_ids: Seq<Seq<char>>,
    d: RuleDisable,
) -> Seq<ProblemView> {
    let id = d.id@;
    let p1 = if !pids.contains(id) {
        seq![
            pview(
                source,
                Some(id),
                "override disable rule `"@ + id + "` does not match any inherited rule in workspace profile `"@
                    + profile + "`"@,
            ),
        ]
    } else {
        Seq::empty()
    };
    let p2 = if add_ids.contains(id) && !replace_ids.contains(id) {
        seq![
            pview(
                source,
                Some(id),
                "override disable rule `"@ + id + "` targets a locally added rule; only inherited rules may be disabled"@,
            ),
        ]
    } else {
        Seq::empty()
    };
    let p3 = if trim(d.reason@).len() == 0 {
        seq![pview(source, Some(id), "override disable entries must include a non-empty reason"@)]
    } else {
        Seq::empty()
    };
    p1 + p2 + p3
}

/// The problems of a list of disable entries, in order.
pub open spec fn disable_checks(
    source: Seq<char>,
    profile: Seq<char>,
    pids: Seq<Seq<char>>,
    add_ids: Seq<Seq<char>>,
    replace_ids: Seq<Seq<char>>,
    ds: Seq<RuleDisable>,
) -> Seq<ProblemView>
    decreases ds.len(),
{
    if ds.len() == 0 {
        Seq::empty()
    } else {
        disable_checks(source, profile, pids, add_ids, replace_ids, ds.drop_last()) + disable_check(
            source,
            profile,
            pids,
            add_ids,
            replace_ids,
            ds.last(),
        )
    }
}

/// The checks of rule overrides against the inherited profile with rule ids `pids`.
pub open spec fn override_rule_checks(source: Seq<char>, profile: Seq<char>, pids: Seq<Seq<char>>, o: OverridesConfig) -> Seq<ProblemView> {
    replace_checks(source + "#overrides.rules.replace"@, profile, pids, rule_views(o.rules.replace@)) + disable_checks(
        source + "#overrides.rules.disable"@,
        profile,
        pids,
        rule_ids(rule_views(o.rules.add@)),
        rule_ids(rule_views(o.rules.replace@)),
        o.rules.disable@,
    )
}

/// The ids of a list of rules.
pub fn ids_of(rules: &Vec<Rule>) -> (r: Vec<String>)
    ensures
        views(r@) == rule_ids(rule_views(rules@)),
{
    let ghost rv = rule_ids(rule_views(rules@));
    let mut r: Vec<String> = Vec::new();
    let mut i: usize = 0;
    while i < rules.len()
        invariant
            i <= rules.len(),
            rv == rule_ids(rule_views(rules@)),
            views(r@) == rv.take(i as int),
        decreases rules.len() - i,
    {
        let ghost prev = views(r@);
        r.push(rules[i].id.clone());
        proof {
            assert(views(r@) =~= prev.push(rv[i as int]));
            assert(rv.take(i + 1) =~= rv.take(i as int).push(rv[i as int]));
        }
        i += 1;
    }
    proof {
        assert(rv.take(rules.len() as int) =~= rv);
    }
    r
}

fn validate_override_rule_checks(
    source: &str,
    profile: &str,
    pids: &Vec<String>,
    o: &OverridesConfig,
    problems: &mut Vec<ConfigValidationProblem>,
)
    ensures
        problem_views(final(problems)@) == problem_views(old(problems)@) + override_rule_checks(
            source@,
            profile@,
            views(pids@),
            *o,
        ),
{
    let ghost base = problem_views(problems@);
    let ghost pv = views(pids@);
    let replace_source = cat2(source, "#overrides.rules.replace");
    let ghost rr = rule_views(o.rules.replace@);
    let mut i: usize = 0;
    while i < o.rules.replace.len()
        invariant
            i <= o.rules.replace.len(),
            pv == views(pids@),
            rr == rule_views(o.rules.replace@),
            replace_source@ == source@ + "#overrides.rules.replace"@,
            problem_views(problems@) == base + replace_checks(replace_source@, profile@, pv, rr.take(i as int)),
        decreases o.rules.replace.len() - i,
    {
        let rule = &o.rules.replace[i];
        proof {
            assert(rr.take(i + 1).drop_last() =~= rr.take(i as int));
            assert(rr.take(i + 1).last() == rule@);
        }
        if !contains_string(pids.as_slice(), rule.id.as_str()) {
            let m = cat5(
                "override replace rule `",
                rule.id.as_str(),
                "` does not match any inherited rule in workspace profile `",
                profile,
                "`",
            );
            push_problem(problems, replace_source.as_str(), &Some(rule.id.clone()), m);
        }
        proof {
            assert(problem_views(problems@) =~= base + replace_checks(replace_source@, profile@, pv, rr.take(i + 1)));
        }
        i += 1;
    }
    proof {
        assert(rr.take(o.rules.replace.len() as int) =~= rr);
    }
    let ghost mid = problem_views(problems@);
    let add_ids = ids_of(&o.rules.add);
    let replace_ids = ids_of(&o.rules.replace);
    let disable_source = cat2(source, "#overrides.rules.disable");
    let ghost ds = o.rules.disable@;
    let mut j: usize = 0;
    while j < o.rules.disable.len()
        invariant
            j <= o.rules.disable.len(),
            pv == views(pids@),
            ds == o.rules.disable@,
            disable_source@ == source@ + "#overrides.rules.disable"@,
            views(add_ids@) == rule_ids(rule_views(o.rules.add@)),
            views(replace_ids@) == rule_ids(rule_views(o.rules.replace@)),
            problem_views(problems@) == mid + disable_checks(
                disable_source@,
                profile@,
                pv,
                views(add_ids@),
                views(replace_ids@),
                ds.take(j as int),
            ),
        decreases o.rules.disable.len() - j,
    {
        let d = &o.rules.disable[j];
        proof {
            assert(ds.take(j + 1).drop_last() =~= ds.take(j as int));
            assert(ds.take(j + 1).last() == *d);
        }
        let ghost before = problem_views(problems@);
        let rid = Some(d.id.clone());
        if !contains_string(pids.as_slice(), d.id.as_str()) {
            let m = cat5(
                "override disable rule `",
                d.id.as_str(),
                "` does not match any inherited rule in workspace profile `",
                profile,
                "`",
            );
            push_problem(problems, disable_source.as_str(), &rid, m);
        }
        if contains_string(add_ids.as_slice(), d.id.as_str()) && !contains_string(replace_ids.as_slice(), d.id.as_str()) {
            let m = cat3(
                "override disable rule `",
                d.id.as_str(),
                "` targets a locally added rule; only inherited rules may be disabled",
            );
            push_problem(problems, disable_source.as_str(), &rid, m);
        }
        if is_blank(d.reason.as_str()) {
            push_problem(problems, disable_source.as_str(), &rid, str_to_string("override disable entries must include a non-empty reason"));
        }
        proof {
            assert(problem_views(problems@) =~= before + disable_check(
                disable_source@,
                profile@,
                pv,
                views(add_ids@),
                views(replace_ids@),
                *d,
            ));
        }
        j += 1;
    }
    proof {
        assert(ds.take(o.rules.disable.len() as int) =~= ds);
        assert(problem_views(problems@) =~= base + override_rule_checks(source@, profile@, pv, *o));
    }
}

/// The problems of a repo-layout config beyond its top-level blocks: `overrides`
/// without `inherit`; with `inherit`, top-level blocks it may not declare, a profile
/// the workspace root does not define, and its override blocks and rule overrides.
pub open spec fn repo_problems(p: ParsedImpactFile, profiles: Seq<(String, WorkspaceProfile)>) -> Seq<ProblemView> {
    let source = p.descriptor.rel_path@;
    match p.parsed.inherit {
        None => if p.parsed.overrides is Some {
            seq![pview(source, None, "`overrides` requires `inherit.workspace_profile`"@)]
        } else {
            Seq::empty()
        },
        Some(inh) => {
            let name = inh.workspace_profile@;
            inherit_shape_problems(p) + match find_profile(profiles, name) {
                None => seq![
                    pview(
                        source,
                        None,
                        "inherit.workspace_profile `"@ + name + "` does not exist in the active workspace root"@,
                    ),
                ],
                Some(k) => match p.parsed.overrides {
                    None => Seq::empty(),
                    Some(o) => override_block_problems(source, p.descriptor.base_dir@, o) + override_rule_checks(
                        source,
                        name,
                        rule_ids(rule_views(profiles[k].1.rules@)),
                        o,
                    ),
                },
            }
        },
    }
}

/// Checks a repo-layout config against the profiles of the workspace root.
pub fn validate_repo_config(
    parsed: &ParsedImpactFile,
    root_profiles: &Vec<(String, WorkspaceProfile)>,
    problems: &mut Vec<ConfigValidationProblem>,
)
    ensures
        problem_views(final(problems)@) == problem_views(old(problems)@) + repo_problems(*parsed, root_profiles@),
{
    let ghost base = problem_views(problems@);
    let source = parsed.descriptor.rel_path.as_str();
    match &parsed.parsed.inherit {
        None => {
            if parsed.parsed.overrides.is_some() {
                push_problem(problems, source, &None, str_to_string("`overrides` requires `inherit.workspace_profile`"));
            }
            proof {
                assert(problem_views(problems@) =~= base + repo_problems(*parsed, root_profiles@));
            }
        },
        Some(inherit) => {
            validate_inherit_shape(parsed, problems);
            let ghost head = problem_views(problems@);
            let name = inherit.workspace_profile.as_str();
            match lookup_profile(root_profiles, name) {
                None => {
                    let m = cat3(
                        "inherit.workspace_profile `",
                        name,
                        "` does not exist in the active workspace root",
                    );
                    push_problem(problems, source, &None, m);
                    proof {
                        assert(problem_views(problems@) =~= base + repo_problems(*parsed, root_profiles@));
                    }
                },
                Some(k) => {
                    match &parsed.parsed.overrides {
                        None => {},
                        Some(o) => {
                            validate_override_blocks(source, parsed.descriptor.base_dir.as_str(), o, problems);
                            let pids = ids_of(&root_profiles[k].1.rules);
                            validate_override_rule_checks(source, name, &pids, o, problems);
                        },
                    }
                    proof {
                        assert(problem_views(problems@) =~= base + repo_problems(*parsed, root_profiles@));
                    }
                },
            }
        },
    }
}

/// The profiles of the workspace root: those of the first file when it is a workspace
/// root with a `workspace` block, otherwise none.
pub open spec fn root_profiles(files: Seq<ParsedImpactFile>) -> Seq<(String, WorkspaceProfile)> {
    if files.len() > 0 && files[0].parsed.layout == ConfigLayout::Workspace && files[0].parsed.workspace is Some {
        files[0].parsed.workspace->Some_0.profiles@
    } else {
        Seq::empty()
    }
}

/// The problems of one file of a graph with root profiles `profiles`.
pub open spec fn file_problems(p: ParsedImpactFile, profiles: Seq<(String, WorkspaceProfile)>) -> Seq<ProblemView> {
    top_level_problems(p) + match p.parsed.layout {
        ConfigLayout::Workspace => workspace_problems(p),
        ConfigLayout::Repo => repo_problems(p, profiles),
    }
}

/// The problems of the files of a graph, in order.
pub open spec fn files_problems(files: Seq<ParsedImpactFile>, profiles: Seq<(String, WorkspaceProfile)>) -> Seq<ProblemView>
    decreases files.len(),
{
    if files.len() == 0 {
        Seq::empty()
    } else {
        files_problems(files.drop_last(), profiles) + file_problems(files.last(), profiles)
    }
}

/// Strictly validates the parsed files of a config graph, the first being its root;
/// the problems come sorted.
pub fn validate_parsed_configs(parsed_files: &Vec<ParsedImpactFile>) -> (r: Vec<ConfigValidationProblem>)
    ensures
        is_sorted_problems_of(problem_views(r@), files_problems(parsed_files@, root_profiles(parsed_files@))),
{
    let empty: Vec<(String, WorkspaceProfile)> = Vec::new();
    let mut profiles: &Vec<(String, WorkspaceProfile)> = &empty;
    if parsed_files.len() > 0 {
        match parsed_files[0].parsed.layout {
            ConfigLayout::Workspace => {
                match &parsed_files[0].parsed.workspace {
                    Some(w) => {
                        profiles = &w.profiles;
                    },
                    None => {},
                }
            },
            ConfigLayout::Repo => {},
        }
    }
    proof {
        assert(profiles@ =~= root_profiles(parsed_files@));
    }
    let ghost fv = parsed_files@;
    let mut problems: Vec<ConfigValidationProblem> = Vec::new();
    let mut i: usize = 0;
    while i < parsed_files.len()
        invariant
            i <= parsed_files.len(),
            fv == parsed_files@,
            profiles@ == root_profiles(fv),
            problem_views(problems@) == files_problems(fv.take(i as int), profiles@),
        decreases parsed_files.len() - i,
    {
        let parsed = &parsed_files[i];
        proof {
            assert(fv.take(i + 1).drop_last() =~= fv.take(i as int));
            assert(fv.take(i + 1).last() == *parsed);
        }
        validate_top_level_blocks(parsed, &mut problems);
        match parsed.parsed.layout {
            ConfigLayout::Workspace => validate_workspace_config(parsed, &mut problems),
            ConfigLayout::Repo => validate_repo_config(parsed, profiles, &mut problems),
        }
        proof {
            assert(problem_views(problems@) =~= files_problems(fv.take(i + 1), profiles@));
        }
        i += 1;
    }
    proof {
        assert(fv.take(parsed_files.len() as int) =~= fv);
    }
    sort_problems(problems)
}

} // verus!
