//! Validation of config blocks and rules, each problem with its source and message.
use vstd::prelude::*;
use crate::config::model::{
    ConfigValidationProblem, FreshnessConfig, LoadedRule, LoadedRuleView, ProblemView, RequiredDocView,
    RoutingIntent, Rule, TriggerView, opt_view, problem_views,
};
use crate::config::pathcheck::{
    opt_string_view, repo_path_error, validate_repo_relative_path,
};
use crate::config::problems::{
    dup_problems, duplicate_problems, is_sorted_problems_of, pair_views, pview, sort_problems,
};
use crate::config::model::{
    LoadedCoverageConfig, LoadedDocInventoryConfig, LoadedFreshnessConfig, LoadedRoutingConfig,
    loaded_views,
};
use crate::text::{chars_eq, chars_of, decimal, decimal_string, is_blank, str_eq, str_to_string, trim, views};

verus! {

/// One problem per pattern of `patterns[..n]` that is malformed:
/// `label index suffix error`.
pub open spec fn pattern_problems(
    source: Seq<char>,
    rule_id: Option<Seq<char>>,
    label: Seq<char>,
    suffix: Seq<char>,
    patterns: Seq<Seq<char>>,
    allow_glob: bool,
    n: int,
) -> Seq<ProblemView>
    decreases n,
{
    if n <= 0 || n > patterns.len() {
        Seq::empty()
    } else {
        let prefix = pattern_problems(source, rule_id, label, suffix, patterns, allow_glob, n - 1);
        match repo_path_error(patterns[n - 1], allow_glob) {
            Some(m) => prefix.push(pview(source, rule_id, label + decimal((n - 1) as nat) + suffix + m)),
            None => prefix,
        }
    }
}

/// Pushes the problems of `pattern_problems` for all of `patterns`.
pub fn push_pattern_problems(
    problems: &mut Vec<ConfigValidationProblem>,
    source: &str,
    rule_id: &Option<String>,
    label: &str,
    suffix: &str,
    patterns: &Vec<String>,
    allow_glob: bool,
)
    ensures
        problem_views(final(problems)@) == problem_views(old(problems)@) + pattern_problems(
            source@,
            opt_view(*rule_id),
            label@,
            suffix@,
            views(patterns@),
            allow_glob,
            patterns@.len() as int,
        ),
{
    let ghost base = problem_views(problems@);
    let ghost pv = views(patterns@);
    let mut i: usize = 0;
    while i < patterns.len()
        invariant
            i <= patterns.len(),
            pv == views(patterns@),
            problem_views(problems@) == base + pattern_problems(
                source@,
                opt_view(*rule_id),
                label@,
                suffix@,
                pv,
                allow_glob,
                i as int,
            ),
        decreases patterns.len() - i,
    {
        match validate_repo_relative_path(patterns[i].as_str(), allow_glob) {
            Some(m) => {
                let mut message = str_to_string(label);
                let idx = decimal_string(i);
                message.append(idx.as_str());
                message.append(suffix);
                message.append(m.as_str());
                let p = ConfigValidationProblem { source: str_to_string(source), rule_id: rule_id.clone(), message };
                let ghost prev = problem_views(problems@);
                problems.push(p);
                proof {
                    assert(problem_views(problems@) =~= prev.push(problems@.last()@));
                }
            },
            None => {},
        }
        i += 1;
    }
}

/// Appends the problem `source / rule_id / message`.
pub fn push_problem(
    problems: &mut Vec<ConfigValidationProblem>,
    source: &str,
    rule_id: &Option<String>,
    message: String,
)
    ensures
        problem_views(final(problems)@) == problem_views(old(problems)@).push(
            pview(source@, opt_view(*rule_id), message@),
        ),
{
    let ghost prev = problem_views(problems@);
    problems.push(ConfigValidationProblem { source: str_to_string(source), rule_id: rule_id.clone(), message });
    proof {
        assert(problem_views(problems@) =~= prev.push(problems@.last()@));
    }
}

/// The modes a required doc may name.
pub open spec fn supported_mode(m: Seq<char>) -> bool {
    m == "review_or_update"@ || m == "metadata_refresh_required"@ || m == "body_update_required"@
        || m == "must_exist"@
}

/// The problems of the first `n` required docs of a rule: a malformed path, then an
/// unsupported mode.
pub open spec fn required_doc_problems(
    source: Seq<char>,
    rule_id: Option<Seq<char>>,
    docs: Seq<RequiredDocView>,
    n: int,
) -> Seq<ProblemView>
    decreases n,
{
    if n <= 0 || n > docs.len() {
        Seq::empty()
    } else {
        let prefix = required_doc_problems(source, rule_id, docs, n - 1);
        let d = docs[n - 1];
        let idx = decimal((n - 1) as nat);
        let with_path = match repo_path_error(d.path, false) {
            Some(m) => prefix.push(pview(source, rule_id, "requiredDocs["@ + idx + "].path "@ + m)),
            None => prefix,
        };
        match d.mode {
            Some(m) => if supported_mode(m) {
                with_path
            } else {
                with_path.push(
                    pview(
                        source,
                        rule_id,
                        "requiredDocs["@ + idx + "].mode `"@ + m
                            + "` is invalid; expected one of: review_or_update, metadata_refresh_required, body_update_required, must_exist"@,
                    ),
                )
            },
            None => with_path,
        }
    }
}

/// The trigger paths of a rule.
pub open spec fn trigger_paths(ts: Seq<TriggerView>) -> Seq<Seq<char>> {
    ts.map_values(|t: TriggerView| t.path)
}

/// The id a rule's problems carry: none when the id is blank.
pub open spec fn problem_rule_id(id: Seq<char>) -> Option<Seq<char>> {
    if trim(id).len() == 0 { None } else { Some(id) }
}

/// All problems of one loaded rule, in the order they are found.
pub open spec fn rule_problems(l: LoadedRuleView) -> Seq<ProblemView> {
    let rid = problem_rule_id(l.rule.id);
    let p0 = if trim(l.rule.id).len() == 0 {
        seq![pview(l.source, None, "rule id must not be empty"@)]
    } else {
        Seq::empty()
    };
    let p1 = if l.rule.triggers.len() == 0 {
        seq![pview(l.source, rid, "rule must define at least one trigger"@)]
    } else {
        Seq::empty()
    };
    let p2 = if l.rule.required_docs.len() == 0 {
        seq![pview(l.source, rid, "rule must define at least one required doc"@)]
    } else {
        Seq::empty()
    };
    p0 + p1 + p2 + pattern_problems(
        l.source,
        rid,
        "triggers["@,
        "].path "@,
        trigger_paths(l.rule.triggers),
        true,
        l.rule.triggers.len() as int,
    ) + required_doc_problems(l.source, rid, l.rule.required_docs, l.rule.required_docs.len() as int)
}

fn mode_supported(m: &str) -> (b: bool)
    ensures
        b == supported_mode(m@),
{
    str_eq(m, "review_or_update") || str_eq(m, "metadata_refresh_required") || str_eq(
        m,
        "body_update_required",
    ) || str_eq(m, "must_exist")
}

/// Checks one loaded rule: a non-blank id, at least one trigger and one required
/// doc, well-formed trigger patterns and doc paths, and supported modes.
pub fn validate_rule(loaded: &LoadedRule, problems: &mut Vec<ConfigValidationProblem>)
    ensures
        problem_views(final(problems)@) == problem_views(old(problems)@) + rule_problems(loaded@),
{
    let ghost base = problem_views(problems@);
    let rule = &loaded.rule;
    let blank = is_blank(rule.id.as_str());
    let rule_id: Option<String> = if blank { None } else { Some(rule.id.clone()) };
    let ghost rid = problem_rule_id(rule@.id);
    let source = loaded.source.as_str();
    if blank {
        push_problem(problems, source, &None, str_to_string("rule id must not be empty"));
    }
    if rule.triggers.len() == 0 {
        push_problem(problems, source, &rule_id, str_to_string("rule must define at least one trigger"));
    }
    if rule.required_docs.len() == 0 {
        push_problem(problems, source, &rule_id, str_to_string("rule must define at least one required doc"));
    }
    let ghost after_head = problem_views(problems@);
    let mut paths: Vec<String> = Vec::new();
    let mut t: usize = 0;
    while t < rule.triggers.len()
        invariant
            t <= rule.triggers.len(),
            paths@.len() == t,
            forall|k: int| 0 <= k < t ==> (#[trigger] paths@[k])@ == rule.triggers@[k].path@,
        decreases rule.triggers.len() - t,
    {
        paths.push(rule.triggers[t].path.clone());
        t += 1;
    }
    proof {
        assert(views(paths@) =~= trigger_paths(rule@.triggers));
    }
    push_pattern_problems(problems, source, &rule_id, "triggers[", "].path ", &paths, true);
    let ghost after_triggers = problem_views(problems@);
    let mut d: usize = 0;
    while d < rule.required_docs.len()
        invariant
            d <= rule.required_docs.len(),
            problem_views(problems@) == after_triggers + required_doc_problems(
                loaded@.source,
                rid,
                rule@.required_docs,
                d as int,
            ),
            opt_view(rule_id) == rid,
            source@ == loaded@.source,
            rule == &loaded.rule,
        decreases rule.required_docs.len() - d,
    {
        let doc = &rule.required_docs[d];
        proof {
            assert(rule@.required_docs[d as int] == doc@);
        }
        match validate_repo_relative_path(doc.path.as_str(), false) {
            Some(m) => {
                let mut message = str_to_string("requiredDocs[");
                let idx = decimal_string(d);
                message.append(idx.as_str());
                message.append("].path ");
                message.append(m.as_str());
                push_problem(problems, source, &rule_id, message);
            },
            None => {},
        }
        match &doc.mode {
            Some(mode) => {
                if !mode_supported(mode.as_str()) {
                    let mut message = str_to_string("requiredDocs[");
                    let idx = decimal_string(d);
                    message.append(idx.as_str());
                    message.append("].mode `");
                    message.append(mode.as_str());
                    message.append(
                        "` is invalid; expected one of: review_or_update, metadata_refresh_required, body_update_required, must_exist",
                    );
                    push_problem(problems, source, &rule_id, message);
                }
            },
            None => {},
        }
        d += 1;
    }
    proof {
        let p0 = if trim(rule@.id).len() == 0 {
            seq![pview(loaded@.source, None, "rule id must not be empty"@)]
        } else {
            Seq::empty()
        };
        let p1 = if rule@.triggers.len() == 0 {
            seq![pview(loaded@.source, rid, "rule must define at least one trigger"@)]
        } else {
            Seq::empty()
        };
        let p2 = if rule@.required_docs.len() == 0 {
            seq![pview(loaded@.source, rid, "rule must define at least one required doc"@)]
        } else {
            Seq::empty()
        };
        assert(after_head =~= base + p0 + p1 + p2);
        assert(problem_views(problems@) =~= base + rule_problems(loaded@));
    }
}


/// The `(id, source)` pairs of the rules with a non-blank id, in order.
pub open spec fn rule_keys(ls: Seq<LoadedRuleView>) -> Seq<(Seq<char>, Seq<char>)>
    decreases ls.len(),
{
    if ls.len() == 0 {
        Seq::empty()
    } else {
        let prefix = rule_keys(ls.drop_last());
        if trim(ls.last().rule.id).len() == 0 {
            prefix
        } else {
            prefix.push((ls.last().rule.id, ls.last().source))
        }
    }
}

/// The problems of each rule, concatenated in order.
pub open spec fn rules_problems(ls: Seq<LoadedRuleView>) -> Seq<ProblemView>
    decreases ls.len(),
{
    if ls.len() == 0 {
        Seq::empty()
    } else {
        rules_problems(ls.drop_last()) + rule_problems(ls.last())
    }
}

/// The problems of a set of effective rules before sorting: duplicate ids, then the
/// problems of each rule.
pub open spec fn loaded_rules_problems(ls: Seq<LoadedRuleView>) -> Seq<ProblemView> {
    dup_problems(
        rule_keys(ls),
        rule_keys(ls).len() as int,
        "duplicate rule id `"@,
        "` also found in: "@,
        true,
        false,
    ) + rules_problems(ls)
}

/// Validates the effective rules of a config graph: ids used by more than one rule,
/// and every rule on its own; the problems come sorted.
pub fn validate_loaded_rules(loaded_rules: &[LoadedRule]) -> (r: Vec<ConfigValidationProblem>)
    ensures
        is_sorted_problems_of(problem_views(r@), loaded_rules_problems(loaded_views(loaded_rules@))),
{
    let ghost ls = loaded_views(loaded_rules@);
    let mut keys: Vec<(String, String)> = Vec::new();
    let mut i: usize = 0;
    while i < loaded_rules.len()
        invariant
            i <= loaded_rules.len(),
            ls == loaded_views(loaded_rules@),
            pair_views(keys@) == rule_keys(ls.take(i as int)),
        decreases loaded_rules.len() - i,
    {
        proof {
            assert(ls.take(i + 1).drop_last() =~= ls.take(i as int));
            assert(ls.take(i + 1).last() == loaded_rules@[i as int]@);
        }
        let l = &loaded_rules[i];
        if !is_blank(l.rule.id.as_str()) {
            let ghost prev = pair_views(keys@);
            keys.push((l.rule.id.clone(), l.source.clone()));
            proof {
                assert(pair_views(keys@) =~= prev.push((l@.rule.id, l@.source)));
            }
        }
        i += 1;
    }
    proof {
        assert(ls.take(loaded_rules.len() as int) =~= ls);
    }
    let mut problems = duplicate_problems(&keys, "duplicate rule id `", "` also found in: ", true, false);
    let ghost dups = problem_views(problems@);
    let mut j: usize = 0;
    while j < loaded_rules.len()
        invariant
            j <= loaded_rules.len(),
            ls == loaded_views(loaded_rules@),
            problem_views(problems@) == dups + rules_problems(ls.take(j as int)),
        decreases loaded_rules.len() - j,
    {
        proof {
            assert(ls.take(j + 1).drop_last() =~= ls.take(j as int));
            assert(ls.take(j + 1).last() == loaded_rules@[j as int]@);
        }
        validate_rule(&loaded_rules[j], &mut problems);
        proof {
            assert(problem_views(problems@) =~= dups + rules_problems(ls.take(j + 1)));
        }
        j += 1;
    }
    proof {
        assert(ls.take(loaded_rules.len() as int) =~= ls);
    }
    sort_problems(problems)
}

/// The problems of an include/exclude block named `block`.
pub open spec fn scoped_problems(source: Seq<char>, block: Seq<char>, includes: Seq<Seq<char>>, exclude: Seq<Seq<char>>) -> Seq<ProblemView> {
    pattern_problems(source, None, block + ".include["@, "] "@, includes, true, includes.len() as int)
        + pattern_problems(source, None, block + ".exclude["@, "] "@, exclude, true, exclude.len() as int)
}

/// Checks the patterns of an include/exclude block.
pub fn validate_scoped_patterns(
    source: &str,
    block_name: &str,
    includes: &Vec<String>,
    exclude: &Vec<String>,
    problems: &mut Vec<ConfigValidationProblem>,
)
    ensures
        problem_views(final(problems)@) == problem_views(old(problems)@) + scoped_problems(
            source@,
            block_name@,
            views(includes@),
            views(exclude@),
        ),
{
    let ghost base = problem_views(problems@);
    let mut inc_label = str_to_string(block_name);
    inc_label.append(".include[");
    let mut exc_label = str_to_string(block_name);
    exc_label.append(".exclude[");
    push_pattern_problems(problems, source, &None, inc_label.as_str(), "] ", includes, true);
    push_pattern_problems(problems, source, &None, exc_label.as_str(), "] ", exclude, true);
    proof {
        assert(problem_views(problems@) =~= base + scoped_problems(
            source@,
            block_name@,
            views(includes@),
            views(exclude@),
        ));
    }
}

/// The views of loaded coverage blocks: source with include and exclude patterns.
pub open spec fn coverage_views(v: Seq<LoadedCoverageConfig>) -> Seq<(Seq<char>, Seq<Seq<char>>, Seq<Seq<char>>)> {
    v.map_values(|c: LoadedCoverageConfig| (c.source@, c.coverage@.includes, c.coverage@.exclude))
}

/// The views of loaded doc inventory blocks.
pub open spec fn doc_inventory_views(v: Seq<LoadedDocInventoryConfig>) -> Seq<(Seq<char>, Seq<Seq<char>>, Seq<Seq<char>>)> {
    v.map_values(|c: LoadedDocInventoryConfig| (c.source@, c.doc_inventory@.includes, c.doc_inventory@.exclude))
}

/// The pattern problems of a list of scoped blocks named `block`.
pub open spec fn blocks_problems(v: Seq<(Seq<char>, Seq<Seq<char>>, Seq<Seq<char>>)>, block: Seq<char>) -> Seq<ProblemView>
    decreases v.len(),
{
    if v.len() == 0 {
        Seq::empty()
    } else {
        blocks_problems(v.drop_last(), block) + scoped_problems(v.last().0, block, v.last().1, v.last().2)
    }
}

/// Validates the patterns of the effective coverage blocks; the problems come sorted.
pub fn validate_loaded_coverage_configs(loaded_configs: &[LoadedCoverageConfig]) -> (r: Vec<ConfigValidationProblem>)
    ensures
        is_sorted_problems_of(problem_views(r@), blocks_problems(coverage_views(loaded_configs@), "coverage"@)),
{
    let ghost cv = coverage_views(loaded_configs@);
    let mut problems: Vec<ConfigValidationProblem> = Vec::new();
    let mut i: usize = 0;
    while i < loaded_configs.len()
        invariant
            i <= loaded_configs.len(),
            cv == coverage_views(loaded_configs@),
            problem_views(problems@) == blocks_problems(cv.take(i as int), "coverage"@),
        decreases loaded_configs.len() - i,
    {
        proof {
            assert(cv.take(i + 1).drop_last() =~= cv.take(i as int));
            assert(cv.take(i + 1).last() == cv[i as int]);
        }
        let c = &loaded_configs[i];
        validate_scoped_patterns(c.source.as_str(), "coverage", &c.coverage.includes, &c.coverage.exclude, &mut problems);
        i += 1;
    }
    proof {
        assert(cv.take(loaded_configs.len() as int) =~= cv);
    }
    sort_problems(problems)
}

/// Validates the patterns of the effective doc inventory blocks; the problems come sorted.
pub fn validate_loaded_doc_inventory_configs(loaded_configs: &[LoadedDocInventoryConfig]) -> (r: Vec<ConfigValidationProblem>)
    ensures
        is_sorted_problems_of(problem_views(r@), blocks_problems(doc_inventory_views(loaded_configs@), "docInventory"@)),
{
    let ghost cv = doc_inventory_views(loaded_configs@);
    let mut problems: Vec<ConfigValidationProblem> = Vec::new();
    let mut i: usize = 0;
    while i < loaded_configs.len()
        invariant
            i <= loaded_configs.len(),
            cv == doc_inventory_views(loaded_configs@),
            problem_views(problems@) == blocks_problems(cv.take(i as int), "docInventory"@),
        decreases loaded_configs.len() - i,
    {
        proof {
            assert(cv.take(i + 1).drop_last() =~= cv.take(i as int));
            assert(cv.take(i + 1).last() == cv[i as int]);
        }
        let c = &loaded_configs[i];
        validate_scoped_patterns(c.source.as_str(), "docInventory", &c.doc_inventory.includes, &c.doc_inventory.exclude, &mut problems);
        i += 1;
    }
    proof {
        assert(cv.take(loaded_configs.len() as int) =~= cv);
    }
    sort_problems(problems)
}

/// The threshold problems of one freshness block.
pub open spec fn freshness_problems(source: Seq<char>, f: FreshnessConfig) -> Seq<ProblemView> {
    let p0 = if f.warn_after_commits == 0 {
        seq![pview(source, None, "freshness.warn_after_commits must be greater than 0"@)]
    } else {
        Seq::empty()
    };
    let p1 = if f.warn_after_days == 0 {
        seq![pview(source, None, "freshness.warn_after_days must be greater than 0"@)]
    } else {
        Seq::empty()
    };
    let p2 = if f.critical_after_days == 0 {
        seq![pview(source, None, "freshness.critical_after_days must be greater than 0"@)]
    } else {
        Seq::empty()
    };
    let p3 = if f.critical_after_days < f.warn_after_days {
        seq![
            pview(
                source,
                None,
                "freshness.critical_after_days must be greater than or equal to freshness.warn_after_days"@,
            ),
        ]
    } else {
        Seq::empty()
    };
    p0 + p1 + p2 + p3
}

/// Checks the thresholds of a freshness block: all positive, critical not below warn.
pub fn validate_freshness_block(source: &str, freshness: &FreshnessConfig, problems: &mut Vec<ConfigValidationProblem>)
    ensures
        problem_views(final(problems)@) == problem_views(old(problems)@) + freshness_problems(source@, *freshness),
{
    let ghost base = problem_views(problems@);
    if freshness.warn_after_commits == 0 {
        push_problem(problems, source, &None, str_to_string("freshness.warn_after_commits must be greater than 0"));
    }
    if freshness.warn_after_days == 0 {
        push_problem(problems, source, &None, str_to_string("freshness.warn_after_days must be greater than 0"));
    }
    if freshness.critical_after_days == 0 {
        push_problem(problems, source, &None, str_to_string("freshness.critical_after_days must be greater than 0"));
    }
    if freshness.critical_after_days < freshness.warn_after_days {
        push_problem(
            problems,
            source,
            &None,
            str_to_string("freshness.critical_after_days must be greater than or equal to freshness.warn_after_days"),
        );
    }
    proof {
        assert(problem_views(problems@) =~= base + freshness_problems(source@, *freshness));
    }
}

/// The freshness problems of a list of `(source, block)` pairs.
pub open spec fn freshness_list_problems(v: Seq<(Seq<char>, FreshnessConfig)>) -> Seq<ProblemView>
    decreases v.len(),
{
    if v.len() == 0 {
        Seq::empty()
    } else {
        freshness_list_problems(v.drop_last()) + freshness_problems(v.last().0, v.last().1)
    }
}

/// The views of loaded freshness blocks.
pub open spec fn freshness_views(v: Seq<LoadedFreshnessConfig>) -> Seq<(Seq<char>, FreshnessConfig)> {
    v.map_values(|c: LoadedFreshnessConfig| (c.source@, c.freshness))
}

/// Validates the effective freshness blocks; the problems come sorted.
pub fn validate_loaded_freshness_configs(loaded_configs: &[LoadedFreshnessConfig]) -> (r: Vec<ConfigValidationProblem>)
    ensures
        is_sorted_problems_of(problem_views(r@), freshness_list_problems(freshness_views(loaded_configs@))),
{
    let ghost fv = freshness_views(loaded_configs@);
    let mut problems: Vec<ConfigValidationProblem> = Vec::new();
    let mut i: usize = 0;
    while i < loaded_configs.len()
        invariant
            i <= loaded_configs.len(),
            fv == freshness_views(loaded_configs@),
            problem_views(problems@) == freshness_list_problems(fv.take(i as int)),
        decreases loaded_configs.len() - i,
    {
        proof {
            assert(fv.take(i + 1).drop_last() =~= fv.take(i as int));
            assert(fv.take(i + 1).last() == fv[i as int]);
        }
        validate_freshness_block(loaded_configs[i].source.as_str(), &loaded_configs[i].freshness, &mut problems);
        i += 1;
    }
    proof {
        assert(fv.take(loaded_configs.len() as int) =~= fv);
    }
    sort_problems(problems)
}

} // verus!
