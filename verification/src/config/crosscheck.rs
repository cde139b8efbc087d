//! Validation across the configs of a graph: routing aliases, catalog repos and
//! ownership domains that must be unique or must refer to each other.
use vstd::prelude::*;
use vstd::string::*;
use crate::config::blocks::{intent_views, intents_problems, push_intents_problems};
use crate::config::model::{
    CatalogRepoView, ConfigValidationProblem, LoadedCatalogConfig, LoadedOwnershipConfig,
    LoadedRoutingConfig, OwnershipDomainView, ProblemView, problem_views,
};
use crate::config::pathcheck::{catalog_repo_paths_overlap, paths_overlap};
use crate::config::problems::{
    dup_problems, duplicate_problems, is_sorted_problems_of, pair_views, pview, sort_problems,
};
use crate::config::validate::push_problem;
use crate::check::contains_string;
use crate::text::{cat5, chars_eq, chars_of, str_to_string, views};

verus! {

/// The `(source, intents)` views of loaded routing blocks.
pub open spec fn routing_entries(v: Seq<LoadedRoutingConfig>) -> Seq<(Seq<char>, Seq<(Seq<char>, Seq<Seq<char>>)>)> {
    v.map_values(|c: LoadedRoutingConfig| (c.source@, c.routing@))
}

/// The intent problems of each routing block, in order (aliases are not checked here).
pub open spec fn routing_list_problems(v: Seq<(Seq<char>, Seq<(Seq<char>, Seq<Seq<char>>)>)>) -> Seq<ProblemView>
    decreases v.len(),
{
    if v.len() == 0 {
        Seq::empty()
    } else {
        routing_list_problems(v.drop_last()) + intents_problems(v.last().0, v.last().1, false)
    }
}

/// The `(alias, source)` pairs of every intent, in order.
pub open spec fn alias_keys(v: Seq<(Seq<char>, Seq<(Seq<char>, Seq<Seq<char>>)>)>) -> Seq<(Seq<char>, Seq<char>)>
    decreases v.len(),
{
    if v.len() == 0 {
        Seq::empty()
    } else {
        alias_keys(v.drop_last()) + keyed_by_alias(v.last().0, v.last().1)
    }
}

/// The `(alias, source)` pairs of one block's intents.
pub open spec fn keyed_by_alias(source: Seq<char>, intents: Seq<(Seq<char>, Seq<Seq<char>>)>) -> Seq<(Seq<char>, Seq<char>)> {
    intents.map_values(|e: (Seq<char>, Seq<Seq<char>>)| (e.0, source))
}

/// The problems of the effective routing blocks before sorting: each intent's own
/// problems, then one problem per block whose alias another block also defines.
pub open spec fn loaded_routing_problems(v: Seq<(Seq<char>, Seq<(Seq<char>, Seq<Seq<char>>)>)>) -> Seq<ProblemView> {
    routing_list_problems(v) + dup_problems(
        alias_keys(v),
        alias_keys(v).len() as int,
        "routing intent alias `"@,
        "` is duplicated across configs: "@,
        false,
        false,
    )
}

/// Validates the effective routing blocks: intents with no or malformed paths, and
/// aliases defined by more than one config; the problems come sorted.
pub fn validate_loaded_routing_configs(loaded_configs: &[LoadedRoutingConfig]) -> (r: Vec<ConfigValidationProblem>)
    ensures
        is_sorted_problems_of(problem_views(r@), loaded_routing_problems(routing_entries(loaded_configs@))),
{
    let ghost v = routing_entries(loaded_configs@);
    let mut problems: Vec<ConfigValidationProblem> = Vec::new();
    let mut keys: Vec<(String, String)> = Vec::new();
    let mut i: usize = 0;
    while i < loaded_configs.len()
        invariant
            i <= loaded_configs.len(),
            v == routing_entries(loaded_configs@),
            problem_views(problems@) == routing_list_problems(v.take(i as int)),
            pair_views(keys@) == alias_keys(v.take(i as int)),
        decreases loaded_configs.len() - i,
    {
        let loaded = &loaded_configs[i];
        proof {
            assert(v.take(i + 1).drop_last() =~= v.take(i as int));
            assert(v.take(i + 1).last() == v[i as int]);
            assert(v[i as int] == (loaded.source@, intent_views(loaded.routing.intents@)));
        }
        push_intents_problems(loaded.source.as_str(), &loaded.routing.intents, false, &mut problems);
        let ghost before = pair_views(keys@);
        let ghost ks = keyed_by_alias(loaded.source@, intent_views(loaded.routing.intents@));
        let mut j: usize = 0;
        while j < loaded.routing.intents.len()
            invariant
                j <= loaded.routing.intents.len(),
                ks == keyed_by_alias(loaded.source@, intent_views(loaded.routing.intents@)),
                pair_views(keys@) == before + ks.take(j as int),
            decreases loaded.routing.intents.len() - j,
        {
            let ghost prev = pair_views(keys@);
            keys.push((loaded.routing.intents[j].0.clone(), loaded.source.clone()));
            proof {
                assert(pair_views(keys@) =~= prev.push(ks[j as int]));
                assert(ks.take(j + 1) =~= ks.take(j as int).push(ks[j as int]));
            }
            j += 1;
        }
        proof {
            assert(ks.take(loaded.routing.intents.len() as int) =~= ks);
        }
        i += 1;
    }
    proof {
        assert(v.take(loaded_configs.len() as int) =~= v);
    }
    let ghost listed = problem_views(problems@);
    let mut dups = duplicate_problems(&keys, "routing intent alias `", "` is duplicated across configs: ", false, false);
    let ghost dv = problem_views(dups@);
    problems.append(&mut dups);
    proof {
        assert(problem_views(problems@) =~= listed + dv);
    }
    sort_problems(problems)
}

/// Every catalog repo of the loaded catalogs with the source that lists it, in order.
pub open spec fn catalog_entries(v: Seq<LoadedCatalogConfig>) -> Seq<(Seq<char>, CatalogRepoView)>
    decreases v.len(),
{
    if v.len() == 0 {
        Seq::empty()
    } else {
        catalog_entries(v.drop_last()) + block_entries(v.last())
    }
}

/// The repos of one loaded catalog with its source.
pub open spec fn block_entries(c: LoadedCatalogConfig) -> Seq<(Seq<char>, CatalogRepoView)> {
    c.catalog@.map_values(|r: CatalogRepoView| (c.source@, r))
}

/// The `(id, source)` pairs of the entries with a non-empty id.
pub open spec fn id_keys(e: Seq<(Seq<char>, CatalogRepoView)>) -> Seq<(Seq<char>, Seq<char>)>
    decreases e.len(),
{
    if e.len() == 0 {
        Seq::empty()
    } else if e.last().1.id.len() > 0 {
        id_keys(e.drop_last()).push((e.last().1.id, e.last().0))
    } else {
        id_keys(e.drop_last())
    }
}

/// The `(path, source)` pairs of the entries with a non-empty path.
pub open spec fn path_keys(e: Seq<(Seq<char>, CatalogRepoView)>) -> Seq<(Seq<char>, Seq<char>)>
    decreases e.len(),
{
    if e.len() == 0 {
        Seq::empty()
    } else if e.last().1.path.len() > 0 {
        path_keys(e.drop_last()).push((e.last().1.path, e.last().0))
    } else {
        path_keys(e.drop_last())
    }
}

/// The `(source, path)` pairs of the entries.
pub open spec fn entry_paths(e: Seq<(Seq<char>, CatalogRepoView)>) -> Seq<(Seq<char>, Seq<char>)> {
    e.map_values(|x: (Seq<char>, CatalogRepoView)| (x.0, x.1.path))
}

/// The two problems of an overlapping pair `l`, `r` of `(source, path)` entries with
/// different paths.
pub open spec fn overlap_pair(l: (Seq<char>, Seq<char>), r: (Seq<char>, Seq<char>)) -> Seq<ProblemView> {
    if l.1 != r.1 && paths_overlap(l.1, r.1) {
        seq![
            pview(l.0, None, "catalog repo path `"@ + l.1 + "` overlaps with `"@ + r.1 + "` from "@ + r.0),
            pview(r.0, None, "catalog repo path `"@ + r.1 + "` overlaps with `"@ + l.1 + "` from "@ + l.0),
        ]
    } else {
        Seq::empty()
    }
}

/// The overlap problems of `r` with each entry of `prefix`.
pub open spec fn overlaps_with(prefix: Seq<(Seq<char>, Seq<char>)>, r: (Seq<char>, Seq<char>)) -> Seq<ProblemView>
    decreases prefix.len(),
{
    if prefix.len() == 0 {
        Seq::empty()
    } else {
        overlaps_with(prefix.drop_last(), r) + overlap_pair(prefix.last(), r)
    }
}

/// The overlap problems of every pair of entries.
pub open spec fn overlap_problems(e: Seq<(Seq<char>, Seq<char>)>) -> Seq<ProblemView>
    decreases e.len(),
{
    if e.len() == 0 {
        Seq::empty()
    } else {
        overlap_problems(e.drop_last()) + overlaps_with(e.drop_last(), e.last())
    }
}

/// The problems of the catalogs before sorting: ids listed by more than one config,
/// paths listed by more than one config, and pairs of distinct paths that overlap.
pub open spec fn loaded_catalog_problems(e: Seq<(Seq<char>, CatalogRepoView)>) -> Seq<ProblemView> {
    dup_problems(
        id_keys(e),
        id_keys(e).len() as int,
        "catalog repo id `"@,
        "` is duplicated across configs: "@,
        false,
        true,
    ) + dup_problems(
        path_keys(e),
        path_keys(e).len() as int,
        "catalog repo path `"@,
        "` is duplicated across configs: "@,
        false,
        true,
    ) + overlap_problems(entry_paths(e))
}

fn catalog_keys(loaded_configs: &[LoadedCatalogConfig]) -> (r: (Vec<(String, String)>, Vec<(String, String)>, Vec<(String, String)>))
    ensures
        pair_views(r.0@) == id_keys(catalog_entries(loaded_configs@)),
        pair_views(r.1@) == path_keys(catalog_entries(loaded_configs@)),
        pair_views(r.2@) == entry_paths(catalog_entries(loaded_configs@)),
{
    let ghost v = loaded_configs@;
    let mut ids: Vec<(String, String)> = Vec::new();
    let mut paths: Vec<(String, String)> = Vec::new();
    let mut entries: Vec<(String, String)> = Vec::new();
    let mut i: usize = 0;
    while i < loaded_configs.len()
        invariant
            i <= loaded_configs.len(),
            v == loaded_configs@,
            pair_views(ids@) == id_keys(catalog_entries(v.take(i as int))),
            pair_views(paths@) == path_keys(catalog_entries(v.take(i as int))),
            pair_views(entries@) == entry_paths(catalog_entries(v.take(i as int))),
        decreases loaded_configs.len() - i,
    {
        let loaded = &loaded_configs[i];
        let ghost done = catalog_entries(v.take(i as int));
        let ghost blk = block_entries(*loaded);
        proof {
            assert(v.take(i + 1).drop_last() =~= v.take(i as int));
            assert(v.take(i + 1).last() == *loaded);
        }
        let mut j: usize = 0;
        while j < loaded.catalog.repos.len()
            invariant
                j <= loaded.catalog.repos.len(),
                blk == block_entries(*loaded),
                pair_views(ids@) == id_keys(done + blk.take(j as int)),
                pair_views(paths@) == path_keys(done + blk.take(j as int)),
                pair_views(entries@) == entry_paths(done + blk.take(j as int)),
            decreases loaded.catalog.repos.len() - j,
        {
            let repo = &loaded.catalog.repos[j];
            let ghost es = done + blk.take(j as int);
            let ghost es2 = done + blk.take(j + 1);
            proof {
                assert(blk[j as int] == (loaded.source@, repo@));
                assert(es2.drop_last() =~= es);
                assert(es2.last() == blk[j as int]);
            }
            if repo.id.as_str().unicode_len() > 0 {
                let ghost prev = pair_views(ids@);
                ids.push((repo.id.clone(), loaded.source.clone()));
                proof {
                    assert(pair_views(ids@) =~= prev.push((repo@.id, loaded.source@)));
                }
            }
            if repo.path.as_str().unicode_len() > 0 {
                let ghost prev = pair_views(paths@);
                paths.push((repo.path.clone(), loaded.source.clone()));
                proof {
                    assert(pair_views(paths@) =~= prev.push((repo@.path, loaded.source@)));
                }
            }
            let ghost prev = pair_views(entries@);
            entries.push((loaded.source.clone(), repo.path.clone()));
            proof {
                assert(pair_views(entries@) =~= prev.push((loaded.source@, repo@.path)));
                assert(entry_paths(es2) =~= entry_paths(es).push((loaded.source@, repo@.path)));
            }
            j += 1;
        }
        proof {
            assert(blk.take(loaded.catalog.repos.len() as int) =~= blk);
        }
        i += 1;
    }
    proof {
        assert(v.take(loaded_configs.len() as int) =~= v);
    }
    (ids, paths, entries)
}

fn push_overlap_pair(
    l: &(String, String),
    r: &(String, String),
    problems: &mut Vec<ConfigValidationProblem>,
)
    ensures
        problem_views(final(problems)@) == problem_views(old(problems)@) + overlap_pair((l.0@, l.1@), (r.0@, r.1@)),
{
    let ghost base = problem_views(problems@);
    let lp = chars_of(l.1.as_str());
    let rp = chars_of(r.1.as_str());
    if !chars_eq(&lp, &rp) && catalog_repo_paths_overlap(l.1.as_str(), r.1.as_str()) {
        let m1 = cat5("catalog repo path `", l.1.as_str(), "` overlaps with `", r.1.as_str(), "` from ");
        let mut m1 = m1;
        m1.append(r.0.as_str());
        push_problem(problems, l.0.as_str(), &None, m1);
        let m2 = cat5("catalog repo path `", r.1.as_str(), "` overlaps with `", l.1.as_str(), "` from ");
        let mut m2 = m2;
        m2.append(l.0.as_str());
        push_problem(problems, r.0.as_str(), &None, m2);
    }
    proof {
        assert(problem_views(problems@) =~= base + overlap_pair((l.0@, l.1@), (r.0@, r.1@)));
    }
}

fn push_overlap_problems(entries: &Vec<(String, String)>, problems: &mut Vec<ConfigValidationProblem>)
    ensures
        problem_views(final(problems)@) == problem_views(old(problems)@) + overlap_problems(pair_views(entries@)),
{
    let ghost base = problem_views(problems@);
    let ghost ev = pair_views(entries@);
    let mut j: usize = 0;
    while j < entries.len()
        invariant
            j <= entries.len(),
            ev == pair_views(entries@),
            problem_views(problems@) == base + overlap_problems(ev.take(j as int)),
        decreases entries.len() - j,
    {
        let ghost mid = problem_views(problems@);
        let mut i: usize = 0;
        while i < j
            invariant
                i <= j < entries.len(),
                ev == pair_views(entries@),
                problem_views(problems@) == mid + overlaps_with(ev.take(i as int), ev[j as int]),
            decreases j - i,
        {
            proof {
                assert(ev.take(i + 1).drop_last() =~= ev.take(i as int));
                assert(ev.take(i + 1).last() == ev[i as int]);
            }
            push_overlap_pair(&entries[i], &entries[j], problems);
            proof {
                assert(problem_views(problems@) =~= mid + overlaps_with(ev.take(i + 1), ev[j as int]));
            }
            i += 1;
        }
        proof {
            assert(ev.take(j + 1).drop_last() =~= ev.take(j as int));
            assert(ev.take(j + 1).last() == ev[j as int]);
            assert(problem_views(problems@) =~= base + overlap_problems(ev.take(j + 1)));
        }
        j += 1;
    }
    proof {
        assert(ev.take(entries.len() as int) =~= ev);
    }
}

/// Validates the catalogs of a graph: repo ids and repo paths listed by more than one
/// config, and distinct repo paths that overlap; the problems come sorted.
pub fn validate_loaded_catalog_configs(loaded_configs: &[LoadedCatalogConfig]) -> (r: Vec<ConfigValidationProblem>)
    ensures
        is_sorted_problems_of(problem_views(r@), loaded_catalog_problems(catalog_entries(loaded_configs@))),
{
    let (ids, paths, entries) = catalog_keys(loaded_configs);
    let mut problems = duplicate_problems(&ids, "catalog repo id `", "` is duplicated across configs: ", false, true);
    let ghost p1 = problem_views(problems@);
    let mut more = duplicate_problems(&paths, "catalog repo path `", "` is duplicated across configs: ", false, true);
    let ghost p2 = problem_views(more@);
    problems.append(&mut more);
    proof {
        assert(problem_views(problems@) =~= p1 + p2);
    }
    push_overlap_problems(&entries, &mut problems);
    sort_problems(problems)
}

/// Every ownership domain of the loaded configs with its source, in order.
pub open spec fn domain_entries(v: Seq<LoadedOwnershipConfig>) -> Seq<(Seq<char>, OwnershipDomainView)>
    decreases v.len(),
{
    if v.len() == 0 {
        Seq::empty()
    } else {
        domain_entries(v.drop_last()) + v.last().ownership@.map_values(
            |d: OwnershipDomainView| (v.last().source@, d),
        )
    }
}

/// The non-empty catalog repo ids, in order.
pub open spec fn known_ids(e: Seq<(Seq<char>, CatalogRepoView)>) -> Seq<Seq<char>> {
    id_keys(e).map_values(|k: (Seq<char>, Seq<char>)| k.0)
}

/// One problem for each of `repos[..n]` that no catalog lists.
pub open spec fn unknown_non_owners(
    source: Seq<char>,
    domain_id: Seq<char>,
    repos: Seq<Seq<char>>,
    ids: Seq<Seq<char>>,
    n: int,
) -> Seq<ProblemView>
    decreases n,
{
    if n <= 0 || n > repos.len() {
        Seq::empty()
    } else {
        let prefix = unknown_non_owners(source, domain_id, repos, ids, n - 1);
        if ids.contains(repos[n - 1]) {
            prefix
        } else {
            prefix.push(
                pview(
                    source,
                    None,
                    "ownership domain `"@ + domain_id + "` references unknown nonOwnerRepo `"@ + repos[n - 1] + "`"@,
                ),
            )
        }
    }
}

/// The reference problems of one domain: an unknown owner repo, then unknown
/// non-owner repos.
pub open spec fn domain_ref_problems(source: Seq<char>, d: OwnershipDomainView, ids: Seq<Seq<char>>) -> Seq<ProblemView> {
    let p0 = if d.owner_repo.len() > 0 && !ids.contains(d.owner_repo) {
        seq![
            pview(
                source,
                None,
                "ownership domain `"@ + d.id + "` references unknown ownerRepo `"@ + d.owner_repo + "`"@,
            ),
        ]
    } else {
        Seq::empty()
    };
    p0 + unknown_non_owners(source, d.id, d.non_owner_repos, ids, d.non_owner_repos.len() as int)
}

/// The reference problems of every domain, in order.
pub open spec fn ownership_ref_problems(e: Seq<(Seq<char>, OwnershipDomainView)>, ids: Seq<Seq<char>>) -> Seq<ProblemView>
    decreases e.len(),
{
    if e.len() == 0 {
        Seq::empty()
    } else {
        ownership_ref_problems(e.drop_last(), ids) + domain_ref_problems(e.last().0, e.last().1, ids)
    }
}

/// The `(id, source)` pairs of the domains with a non-empty id.
pub open spec fn domain_id_keys(e: Seq<(Seq<char>, OwnershipDomainView)>) -> Seq<(Seq<char>, Seq<char>)>
    decreases e.len(),
{
    if e.len() == 0 {
        Seq::empty()
    } else if e.last().1.id.len() > 0 {
        domain_id_keys(e.drop_last()).push((e.last().1.id, e.last().0))
    } else {
        domain_id_keys(e.drop_last())
    }
}

/// The problems of the ownership blocks before sorting: references to repos that no
/// catalog lists, then domain ids defined by more than one config.
pub open spec fn loaded_ownership_problems(e: Seq<(Seq<char>, OwnershipDomainView)>, ids: Seq<Seq<char>>) -> Seq<ProblemView> {
    ownership_ref_problems(e, ids) + dup_problems(
        domain_id_keys(e),
        domain_id_keys(e).len() as int,
        "ownership domain id `"@,
        "` is duplicated across configs: "@,
        false,
        true,
    )
}

fn known_repo_ids(catalog_configs: &[LoadedCatalogConfig]) -> (r: Vec<String>)
    ensures
        views(r@) == known_ids(catalog_entries(catalog_configs@)),
{
    let (ids, _, _) = catalog_keys(catalog_configs);
    let ghost kv = pair_views(ids@);
    let mut r: Vec<String> = Vec::new();
    let mut i: usize = 0;
    while i < ids.len()
        invariant
            i <= ids.len(),
            kv == pair_views(ids@),
            views(r@) == kv.take(i as int).map_values(|k: (Seq<char>, Seq<char>)| k.0),
        decreases ids.len() - i,
    {
        let ghost prev = views(r@);
        r.push(ids[i].0.clone());
        proof {
            assert(kv[i as int].0 == ids@[i as int].0@);
            assert(views(r@) =~= prev.push(kv[i as int].0));
            assert(views(r@) =~= kv.take(i + 1).map_values(|k: (Seq<char>, Seq<char>)| k.0));
        }
        i += 1;
    }
    proof {
        assert(kv.take(ids.len() as int) =~= kv);
    }
    r
}

fn push_domain_ref_problems(
    source: &String,
    domain: &crate::config::model::OwnershipDomain,
    ids: &Vec<String>,
    problems: &mut Vec<ConfigValidationProblem>,
)
    ensures
        problem_views(final(problems)@) == problem_views(old(problems)@) + domain_ref_problems(
            source@,
            domain@,
            views(ids@),
        ),
{
    let ghost base = problem_views(problems@);
    let ghost d = domain@;
    let ghost iv = views(ids@);
    if domain.owner_repo.as_str().unicode_len() > 0 && !contains_string(ids.as_slice(), domain.owner_repo.as_str()) {
        let m = cat5(
            "ownership domain `",
            domain.id.as_str(),
            "` references unknown ownerRepo `",
            domain.owner_repo.as_str(),
            "`",
        );
        push_problem(problems, source.as_str(), &None, m);
    }
    let ghost head = problem_views(problems@);
    let mut j: usize = 0;
    while j < domain.non_owner_repos.len()
        invariant
            j <= domain.non_owner_repos.len(),
            d == domain@,
            iv == views(ids@),
            problem_views(problems@) == head + unknown_non_owners(source@, d.id, d.non_owner_repos, iv, j as int),
        decreases domain.non_owner_repos.len() - j,
    {
        let repo_id = &domain.non_owner_repos[j];
        proof {
            assert(d.non_owner_repos[j as int] == repo_id@);
        }
        if !contains_string(ids.as_slice(), repo_id.as_str()) {
            let m = cat5(
                "ownership domain `",
                domain.id.as_str(),
                "` references unknown nonOwnerRepo `",
                repo_id.as_str(),
                "`",
            );
            push_problem(problems, source.as_str(), &None, m);
        }
        j += 1;
    }
    proof {
        assert(problem_views(problems@) =~= base + domain_ref_problems(source@, d, iv));
    }
}

/// Validates the ownership blocks of a graph: owner and non-owner repos that no catalog
/// lists, and domain ids defined by more than one config; the problems come sorted.
pub fn validate_loaded_ownership_configs(
    loaded_configs: &[LoadedOwnershipConfig],
    catalog_configs: &[LoadedCatalogConfig],
) -> (r: Vec<ConfigValidationProblem>)
    ensures
        is_sorted_problems_of(
            problem_views(r@),
            loaded_ownership_problems(domain_entries(loaded_configs@), known_ids(catalog_entries(catalog_configs@))),
        ),
{
    let ids = known_repo_ids(catalog_configs);
    let ghost iv = views(ids@);
    let ghost v = loaded_configs@;
    let mut problems: Vec<ConfigValidationProblem> = Vec::new();
    let mut keys: Vec<(String, String)> = Vec::new();
    let mut i: usize = 0;
    while i < loaded_configs.len()
        invariant
            i <= loaded_configs.len(),
            v == loaded_configs@,
            iv == views(ids@),
            problem_views(problems@) == ownership_ref_problems(domain_entries(v.take(i as int)), iv),
            pair_views(keys@) == domain_id_keys(domain_entries(v.take(i as int))),
        decreases loaded_configs.len() - i,
    {
        let loaded = &loaded_configs[i];
        let ghost done = domain_entries(v.take(i as int));
        let ghost blk = loaded.ownership@.map_values(|d: OwnershipDomainView| (loaded.source@, d));
        proof {
            assert(v.take(i + 1).drop_last() =~= v.take(i as int));
            assert(v.take(i + 1).last() == *loaded);
        }
        let mut j: usize = 0;
        while j < loaded.ownership.domains.len()
            invariant
                j <= loaded.ownership.domains.len(),
                iv == views(ids@),
                blk == loaded.ownership@.map_values(|d: OwnershipDomainView| (loaded.source@, d)),
                problem_views(problems@) == ownership_ref_problems(done + blk.take(j as int), iv),
                pair_views(keys@) == domain_id_keys(done + blk.take(j as int)),
            decreases loaded.ownership.domains.len() - j,
        {
            let domain = &loaded.ownership.domains[j];
            let ghost es = done + blk.take(j as int);
            let ghost es2 = done + blk.take(j + 1);
            proof {
                assert(blk[j as int] == (loaded.source@, domain@));
                assert(es2.drop_last() =~= es);
                assert(es2.last() == blk[j as int]);
            }
            push_domain_ref_problems(&loaded.source, domain, &ids, &mut problems);
            if domain.id.as_str().unicode_len() > 0 {
                let ghost prev = pair_views(keys@);
                keys.push((domain.id.clone(), loaded.source.clone()));
                proof {
                    assert(pair_views(keys@) =~= prev.push((domain@.id, loaded.source@)));
                }
            }
            j += 1;
        }
        proof {
            assert(blk.take(loaded.ownership.domains.len() as int) =~= blk);
            assert(domain_entries(v.take(i + 1)) =~= done + blk);
        }
        i += 1;
    }
    proof {
        assert(v.take(loaded_configs.len() as int) =~= v);
    }
    let ghost listed = problem_views(problems@);
    let mut dups = duplicate_problems(&keys, "ownership domain id `", "` is duplicated across configs: ", false, true);
    let ghost dv = problem_views(dups@);
    problems.append(&mut dups);
    proof {
        assert(problem_views(problems@) =~= listed + dv);
    }
    sort_problems(problems)
}

} // verus!
