//! Validation of the routing, catalog and ownership blocks of one config file.
use vstd::prelude::*;
use crate::config::model::{
    CatalogRepo, CatalogRepoView, ConfigValidationProblem, OwnershipDomain, OwnershipDomainView,
    ProblemView, RoutingIntent, problem_views,
};
use crate::config::pathcheck::{
    catalog_path_error, opt_string_view, repo_path_error, validate_catalog_repo_path,
    validate_required_doc_path,
};
use crate::config::problems::pview;
use crate::config::validate::{pattern_problems, push_pattern_problems, push_problem};
use crate::text::{cat2, cat3, cat5, decimal, indexed, is_blank, str_to_string, trim, views};
use crate::check::contains_string;

verus! {

/// The problems of one routing intent: a blank alias (when `check_alias`), no paths,
/// and malformed path patterns.
pub open spec fn intent_problems(
    source: Seq<char>,
    alias: Seq<char>,
    paths: Seq<Seq<char>>,
    check_alias: bool,
) -> Seq<ProblemView> {
    let p0 = if check_alias && trim(alias).len() == 0 {
        seq![pview(source, None, "routing intent alias must not be empty"@)]
    } else {
        Seq::empty()
    };
    let p1 = if paths.len() == 0 {
        seq![pview(source, None, "routing.intents."@ + alias + " must define at least one path"@)]
    } else {
        Seq::empty()
    };
    p0 + p1 + pattern_problems(
        source,
        None,
        "routing.intents."@ + alias + ".paths["@,
        "] "@,
        paths,
        true,
        paths.len() as int,
    )
}

/// The problems of a list of routing intents, in order.
pub open spec fn intents_problems(
    source: Seq<char>,
    intents: Seq<(Seq<char>, Seq<Seq<char>>)>,
    check_alias: bool,
) -> Seq<ProblemView>
    decreases intents.len(),
{
    if intents.len() == 0 {
        Seq::empty()
    } else {
        intents_problems(source, intents.drop_last(), check_alias) + intent_problems(
            source,
            intents.last().0,
            intents.last().1,
            check_alias,
        )
    }
}

/// The views of a list of routing intents.
pub open spec fn intent_views(v: Seq<(String, RoutingIntent)>) -> Seq<(Seq<char>, Seq<Seq<char>>)> {
    v.map_values(|e: (String, RoutingIntent)| (e.0@, e.1@))
}

/// Checks one routing intent.
pub fn push_intent_problems(
    source: &str,
    alias: &String,
    intent: &RoutingIntent,
    check_alias: bool,
    problems: &mut Vec<ConfigValidationProblem>,
)
    ensures
        problem_views(final(problems)@) == problem_views(old(problems)@) + intent_problems(
            source@,
            alias@,
            intent@,
            check_alias,
        ),
{
    let ghost base = problem_views(problems@);
    if check_alias && is_blank(alias.as_str()) {
        push_problem(problems, source, &None, str_to_string("routing intent alias must not be empty"));
    }
    if intent.paths.len() == 0 {
        push_problem(
            problems,
            source,
            &None,
            cat3("routing.intents.", alias.as_str(), " must define at least one path"),
        );
    }
    let ghost mid = problem_views(problems@);
    let label = cat3("routing.intents.", alias.as_str(), ".paths[");
    push_pattern_problems(problems, source, &None, label.as_str(), "] ", &intent.paths, true);
    proof {
        let p0 = if check_alias && trim(alias@).len() == 0 {
            seq![pview(source@, None, "routing intent alias must not be empty"@)]
        } else {
            Seq::empty()
        };
        let p1 = if intent@.len() == 0 {
            seq![pview(source@, None, "routing.intents."@ + alias@ + " must define at least one path"@)]
        } else {
            Seq::empty()
        };
        assert(mid =~= base + p0 + p1);
        assert(problem_views(problems@) =~= base + intent_problems(source@, alias@, intent@, check_alias));
    }
}

/// Checks a list of routing intents.
pub fn push_intents_problems(
    source: &str,
    intents: &Vec<(String, RoutingIntent)>,
    check_alias: bool,
    problems: &mut Vec<ConfigValidationProblem>,
)
    ensures
        problem_views(final(problems)@) == problem_views(old(problems)@) + intents_problems(
            source@,
            intent_views(intents@),
            check_alias,
        ),
{
    let ghost base = problem_views(problems@);
    let ghost iv = intent_views(intents@);
    let mut i: usize = 0;
    while i < intents.len()
        invariant
            i <= intents.len(),
            iv == intent_views(intents@),
            problem_views(problems@) == base + intents_problems(source@, iv.take(i as int), check_alias),
        decreases intents.len() - i,
    {
        proof {
            assert(iv.take(i + 1).drop_last() =~= iv.take(i as int));
            assert(iv.take(i + 1).last() == iv[i as int]);
        }
        push_intent_problems(source, &intents[i].0, &intents[i].1, check_alias, problems);
        proof {
            assert(problem_views(problems@) =~= base + intents_problems(source@, iv.take(i + 1), check_alias));
        }
        i += 1;
    }
    proof {
        assert(iv.take(intents.len() as int) =~= iv);
    }
}

/// Checks a routing block: every alias non-blank, every intent with at least one
/// well-formed path pattern.
pub fn validate_routing_block(
    source: &str,
    intents: &Vec<(String, RoutingIntent)>,
    problems: &mut Vec<ConfigValidationProblem>,
)
    ensures
        problem_views(final(problems)@) == problem_views(old(problems)@) + intents_problems(
            source@,
            intent_views(intents@),
            true,
        ),
{
    push_intents_problems(source, intents, true, problems);
}

/// One problem when an optional document path is given and malformed.
pub open spec fn opt_doc_problem(source: Seq<char>, label: Seq<char>, doc: Option<Seq<char>>) -> Seq<ProblemView> {
    match doc {
        Some(p) => match repo_path_error(p, false) {
            Some(m) => seq![pview(source, None, label + m)],
            None => Seq::empty(),
        },
        None => Seq::empty(),
    }
}

/// The checks of a catalog repo's id, path and canonical repo.
pub open spec fn catalog_repo_head(source: Seq<char>, index: nat, r: CatalogRepoView) -> Seq<ProblemView> {
    let pre = "catalog.repos["@ + decimal(index);
    let p0 = if trim(r.id).len() == 0 {
        seq![pview(source, None, pre + "].id must not be empty"@)]
    } else {
        Seq::empty()
    };
    let p1 = match catalog_path_error(r.path) {
        Some(m) => seq![pview(source, None, pre + "].path "@ + m)],
        None => Seq::empty(),
    };
    let p2 = match r.canonical_repo {
        Some(c) => if trim(c).len() == 0 {
            seq![pview(source, None, pre + "].canonicalRepo must not be empty when provided"@)]
        } else {
            Seq::empty()
        },
        None => Seq::empty(),
    };
    p0 + p1 + p2
}

/// The checks of a catalog repo's document paths.
pub open spec fn catalog_repo_docs(source: Seq<char>, index: nat, r: CatalogRepoView) -> Seq<ProblemView> {
    let pre = "catalog.repos["@ + decimal(index);
    opt_doc_problem(source, pre + "].entryDoc "@, r.entry_doc) + opt_doc_problem(
        source,
        pre + "].branchPolicyDoc "@,
        r.branch_policy_doc,
    ) + pattern_problems(
        source,
        None,
        pre + "].workflowDocs["@,
        "] "@,
        r.workflow_docs,
        false,
        r.workflow_docs.len() as int,
    ) + pattern_problems(
        source,
        None,
        pre + "].integrationDocs["@,
        "] "@,
        r.integration_docs,
        false,
        r.integration_docs.len() as int,
    )
}

/// The problems of the catalog repo at `index`.
pub open spec fn catalog_repo_problems(source: Seq<char>, index: nat, r: CatalogRepoView) -> Seq<ProblemView> {
    catalog_repo_head(source, index, r) + catalog_repo_docs(source, index, r)
}

/// The problems of the first `n` catalog repos.
pub open spec fn catalog_repos_problems(source: Seq<char>, repos: Seq<CatalogRepoView>, n: int) -> Seq<ProblemView>
    decreases n,
{
    if n <= 0 || n > repos.len() {
        Seq::empty()
    } else {
        catalog_repos_problems(source, repos, n - 1) + catalog_repo_problems(source, (n - 1) as nat, repos[n - 1])
    }
}

/// The problems of a catalog block: an empty repo list, or the problems of each repo.
pub open spec fn catalog_block_problems(source: Seq<char>, repos: Seq<CatalogRepoView>) -> Seq<ProblemView> {
    if repos.len() == 0 {
        seq![pview(source, None, "catalog.repos must define at least one repo"@)]
    } else {
        catalog_repos_problems(source, repos, repos.len() as int)
    }
}

/// The views of a list of catalog repos.
pub open spec fn repo_views(v: Seq<CatalogRepo>) -> Seq<CatalogRepoView> {
    v.map_values(|r: CatalogRepo| r@)
}

fn push_opt_doc_problem(
    source: &str,
    label: &str,
    doc: &Option<String>,
    problems: &mut Vec<ConfigValidationProblem>,
)
    ensures
        problem_views(final(problems)@) == problem_views(old(problems)@) + opt_doc_problem(
            source@,
            label@,
            opt_string_view(*doc),
        ),
{
    let ghost base = problem_views(problems@);
    match doc {
        Some(p) => {
            match validate_required_doc_path(p.as_str()) {
                Some(m) => {
                    push_problem(problems, source, &None, cat2(label, m.as_str()));
                },
                None => {},
            }
        },
        None => {},
    }
    proof {
        assert(problem_views(problems@) =~= base + opt_doc_problem(source@, label@, opt_string_view(*doc)));
    }
}

fn push_catalog_repo_head(
    source: &str,
    index: usize,
    repo: &CatalogRepo,
    problems: &mut Vec<ConfigValidationProblem>,
)
    ensures
        problem_views(final(problems)@) == problem_views(old(problems)@) + catalog_repo_head(
            source@,
            index as nat,
            repo@,
        ),
{
    let ghost base = problem_views(problems@);
    let ghost pre = "catalog.repos["@ + decimal(index as nat);
    let ghost b0 = problem_views(problems@);
    if is_blank(repo.id.as_str()) {
        push_problem(problems, source, &None, indexed("catalog.repos[", index, "].id must not be empty"));
        proof {
            assert(problem_views(problems@)[b0.len() as int].message =~= pre + "].id must not be empty"@);
        }
    }
    let ghost b1 = problem_views(problems@);
    match validate_catalog_repo_path(repo.path.as_str()) {
        Some(m) => {
            let label = indexed("catalog.repos[", index, "].path ");
            push_problem(problems, source, &None, cat2(label.as_str(), m.as_str()));
            proof {
                assert(problem_views(problems@)[b1.len() as int].message =~= pre + "].path "@ + m@);
            }
        },
        None => {},
    }
    let ghost b2 = problem_views(problems@);
    match &repo.canonical_repo {
        Some(c) => {
            if is_blank(c.as_str()) {
                push_problem(
                    problems,
                    source,
                    &None,
                    indexed("catalog.repos[", index, "].canonicalRepo must not be empty when provided"),
                );
                proof {
                    assert(problem_views(problems@)[b2.len() as int].message =~= pre
                        + "].canonicalRepo must not be empty when provided"@);
                }
            }
        },
        None => {},
    }
    proof {
        assert(problem_views(problems@) =~= base + catalog_repo_head(source@, index as nat, repo@));
    }
}

fn push_catalog_repo_docs(
    source: &str,
    index: usize,
    repo: &CatalogRepo,
    problems: &mut Vec<ConfigValidationProblem>,
)
    ensures
        problem_views(final(problems)@) == problem_views(old(problems)@) + catalog_repo_docs(
            source@,
            index as nat,
            repo@,
        ),
{
    let ghost base = problem_views(problems@);
    let ghost pre = "catalog.repos["@ + decimal(index as nat);
    let entry_label = indexed("catalog.repos[", index, "].entryDoc ");
    proof { assert(entry_label@ =~= pre + "].entryDoc "@); }
    push_opt_doc_problem(source, entry_label.as_str(), &repo.entry_doc, problems);
    let policy_label = indexed("catalog.repos[", index, "].branchPolicyDoc ");
    proof { assert(policy_label@ =~= pre + "].branchPolicyDoc "@); }
    push_opt_doc_problem(source, policy_label.as_str(), &repo.branch_policy_doc, problems);
    let workflow_label = indexed("catalog.repos[", index, "].workflowDocs[");
    proof { assert(workflow_label@ =~= pre + "].workflowDocs["@); }
    push_pattern_problems(problems, source, &None, workflow_label.as_str(), "] ", &repo.workflow_docs, false);
    let integration_label = indexed("catalog.repos[", index, "].integrationDocs[");
    proof { assert(integration_label@ =~= pre + "].integrationDocs["@); }
    push_pattern_problems(problems, source, &None, integration_label.as_str(), "] ", &repo.integration_docs, false);
    proof {
        assert(problem_views(problems@) =~= base + catalog_repo_docs(source@, index as nat, repo@));
    }
}

fn push_catalog_repo_problems(
    source: &str,
    index: usize,
    repo: &CatalogRepo,
    problems: &mut Vec<ConfigValidationProblem>,
)
    ensures
        problem_views(final(problems)@) == problem_views(old(problems)@) + catalog_repo_problems(
            source@,
            index as nat,
            repo@,
        ),
{
    let ghost base = problem_views(problems@);
    push_catalog_repo_head(source, index, repo, problems);
    push_catalog_repo_docs(source, index, repo, problems);
    proof {
        assert(problem_views(problems@) =~= base + catalog_repo_problems(source@, index as nat, repo@));
    }
}

/// Checks a catalog block: at least one repo, each with a non-blank id, a valid path,
/// a non-blank canonical repo when given, and exact document paths.
pub fn validate_catalog_block(
    source: &str,
    repos: &Vec<CatalogRepo>,
    problems: &mut Vec<ConfigValidationProblem>,
)
    ensures
        problem_views(final(problems)@) == problem_views(old(problems)@) + catalog_block_problems(
            source@,
            repo_views(repos@),
        ),
{
    let ghost base = problem_views(problems@);
    let ghost rv = repo_views(repos@);
    if repos.len() == 0 {
        push_problem(problems, source, &None, str_to_string("catalog.repos must define at least one repo"));
        return;
    }
    let mut i: usize = 0;
    while i < repos.len()
        invariant
            i <= repos.len(),
            rv == repo_views(repos@),
            problem_views(problems@) == base + catalog_repos_problems(source@, rv, i as int),
        decreases repos.len() - i,
    {
        push_catalog_repo_problems(source, i, &repos[i], problems);
        proof {
            assert(rv[i as int] == repos@[i as int]@);
        }
        i += 1;
    }
}

/// The checks of an ownership domain's id and include list.
pub open spec fn domain_head(source: Seq<char>, index: nat, d: OwnershipDomainView) -> Seq<ProblemView> {
    let pre = "ownership.domains["@ + decimal(index);
    let p0 = if trim(d.id).len() == 0 {
        seq![pview(source, None, pre + "].id must not be empty"@)]
    } else {
        Seq::empty()
    };
    let p1 = if d.includes.len() == 0 {
        seq![pview(source, None, pre + "].paths.include must define at least one path"@)]
    } else {
        Seq::empty()
    };
    p0 + p1
}

/// The checks of an ownership domain's patterns.
pub open spec fn domain_patterns(source: Seq<char>, index: nat, d: OwnershipDomainView) -> Seq<ProblemView> {
    let pre = "ownership.domains["@ + decimal(index);
    pattern_problems(source, None, pre + "].paths.include["@, "] "@, d.includes, true, d.includes.len() as int)
        + pattern_problems(source, None, pre + "].paths.exclude["@, "] "@, d.exclude, true, d.exclude.len() as int)
}

/// The checks of an ownership domain's owner repo.
pub open spec fn domain_owner(source: Seq<char>, index: nat, d: OwnershipDomainView) -> Seq<ProblemView> {
    let pre = "ownership.domains["@ + decimal(index);
    let p3 = if trim(d.owner_repo).len() == 0 {
        seq![pview(source, None, pre + "].ownerRepo must not be empty"@)]
    } else {
        Seq::empty()
    };
    let p4 = if d.non_owner_repos.contains(d.owner_repo) {
        seq![
            pview(
                source,
                None,
                "ownership domain `"@ + d.id + "` must not list ownerRepo `"@ + d.owner_repo
                    + "` inside nonOwnerRepos"@,
            ),
        ]
    } else {
        Seq::empty()
    };
    p3 + p4
}

/// The problems of the ownership domain at `index`.
pub open spec fn ownership_domain_problems(source: Seq<char>, index: nat, d: OwnershipDomainView) -> Seq<ProblemView> {
    domain_head(source, index, d) + domain_patterns(source, index, d) + domain_owner(source, index, d)
        + blank_repo_problems(
        source,
        "ownership.domains["@ + decimal(index),
        d.non_owner_repos,
        d.non_owner_repos.len() as int,
    )
}

/// One problem for each blank entry of `repos[..n]`.
pub open spec fn blank_repo_problems(source: Seq<char>, pre: Seq<char>, repos: Seq<Seq<char>>, n: int) -> Seq<ProblemView>
    decreases n,
{
    if n <= 0 || n > repos.len() {
        Seq::empty()
    } else {
        let prefix = blank_repo_problems(source, pre, repos, n - 1);
        if trim(repos[n - 1]).len() == 0 {
            prefix.push(pview(source, None, pre + "].nonOwnerRepos["@ + decimal((n - 1) as nat) + "] must not be empty"@))
        } else {
            prefix
        }
    }
}

/// The problems of the first `n` ownership domains.
pub open spec fn ownership_domains_problems(source: Seq<char>, ds: Seq<OwnershipDomainView>, n: int) -> Seq<ProblemView>
    decreases n,
{
    if n <= 0 || n > ds.len() {
        Seq::empty()
    } else {
        ownership_domains_problems(source, ds, n - 1) + ownership_domain_problems(source, (n - 1) as nat, ds[n - 1])
    }
}

/// The problems of an ownership block: an empty domain list, or the problems of each domain.
pub open spec fn ownership_block_problems(source: Seq<char>, ds: Seq<OwnershipDomainView>) -> Seq<ProblemView> {
    if ds.len() == 0 {
        seq![pview(source, None, "ownership.domains must define at least one domain"@)]
    } else {
        ownership_domains_problems(source, ds, ds.len() as int)
    }
}

/// The views of a list of ownership domains.
pub open spec fn domain_views(v: Seq<OwnershipDomain>) -> Seq<OwnershipDomainView> {
    v.map_values(|d: OwnershipDomain| d@)
}

fn push_domain_head(
    source: &str,
    index: usize,
    domain: &OwnershipDomain,
    problems: &mut Vec<ConfigValidationProblem>,
)
    ensures
        problem_views(final(problems)@) == problem_views(old(problems)@) + domain_head(source@, index as nat, domain@),
{
    let ghost base = problem_views(problems@);
    let ghost pre = "ownership.domains["@ + decimal(index as nat);
    if is_blank(domain.id.as_str()) {
        let m = indexed("ownership.domains[", index, "].id must not be empty");
        proof { assert(m@ =~= pre + "].id must not be empty"@); }
        push_problem(problems, source, &None, m);
    }
    if domain.paths.includes.len() == 0 {
        let m = indexed("ownership.domains[", index, "].paths.include must define at least one path");
        proof { assert(m@ =~= pre + "].paths.include must define at least one path"@); }
        push_problem(problems, source, &None, m);
    }
    proof {
        assert(problem_views(problems@) =~= base + domain_head(source@, index as nat, domain@));
    }
}

fn push_domain_patterns(
    source: &str,
    index: usize,
    domain: &OwnershipDomain,
    problems: &mut Vec<ConfigValidationProblem>,
)
    ensures
        problem_views(final(problems)@) == problem_views(old(problems)@) + domain_patterns(source@, index as nat, domain@),
{
    let ghost base = problem_views(problems@);
    let ghost pre = "ownership.domains["@ + decimal(index as nat);
    let inc_label = indexed("ownership.domains[", index, "].paths.include[");
    proof { assert(inc_label@ =~= pre + "].paths.include["@); }
    push_pattern_problems(problems, source, &None, inc_label.as_str(), "] ", &domain.paths.includes, true);
    let exc_label = indexed("ownership.domains[", index, "].paths.exclude[");
    proof { assert(exc_label@ =~= pre + "].paths.exclude["@); }
    push_pattern_problems(problems, source, &None, exc_label.as_str(), "] ", &domain.paths.exclude, true);
    proof {
        assert(problem_views(problems@) =~= base + domain_patterns(source@, index as nat, domain@));
    }
}

fn push_domain_owner(
    source: &str,
    index: usize,
    domain: &OwnershipDomain,
    problems: &mut Vec<ConfigValidationProblem>,
)
    ensures
        problem_views(final(problems)@) == problem_views(old(problems)@) + domain_owner(source@, index as nat, domain@),
{
    let ghost base = problem_views(problems@);
    let ghost pre = "ownership.domains["@ + decimal(index as nat);
    if is_blank(domain.owner_repo.as_str()) {
        let m = indexed("ownership.domains[", index, "].ownerRepo must not be empty");
        proof { assert(m@ =~= pre + "].ownerRepo must not be empty"@); }
        push_problem(problems, source, &None, m);
    }
    if contains_string(domain.non_owner_repos.as_slice(), domain.owner_repo.as_str()) {
        push_problem(
            problems,
            source,
            &None,
            cat5(
                "ownership domain `",
                domain.id.as_str(),
                "` must not list ownerRepo `",
                domain.owner_repo.as_str(),
                "` inside nonOwnerRepos",
            ),
        );
    }
    proof {
        assert(problem_views(problems@) =~= base + domain_owner(source@, index as nat, domain@));
    }
}

fn push_blank_repo_problems(
    source: &str,
    index: usize,
    repos: &Vec<String>,
    problems: &mut Vec<ConfigValidationProblem>,
)
    ensures
        problem_views(final(problems)@) == problem_views(old(problems)@) + blank_repo_problems(
            source@,
            "ownership.domains["@ + decimal(index as nat),
            views(repos@),
            repos@.len() as int,
        ),
{
    let ghost base = problem_views(problems@);
    let ghost pre = "ownership.domains["@ + decimal(index as nat);
    let ghost rv = views(repos@);
    let mut j: usize = 0;
    while j < repos.len()
        invariant
            j <= repos.len(),
            rv == views(repos@),
            pre == "ownership.domains["@ + decimal(index as nat),
            problem_views(problems@) == base + blank_repo_problems(source@, pre, rv, j as int),
        decreases repos.len() - j,
    {
        if is_blank(repos[j].as_str()) {
            let label = indexed("ownership.domains[", index, "].nonOwnerRepos[");
            let message = indexed(label.as_str(), j, "] must not be empty");
            proof {
                assert(message@ =~= pre + "].nonOwnerRepos["@ + decimal(j as nat) + "] must not be empty"@);
            }
            push_problem(problems, source, &None, message);
        }
        j += 1;
    }
}

fn push_ownership_domain_problems(
    source: &str,
    index: usize,
    domain: &OwnershipDomain,
    problems: &mut Vec<ConfigValidationProblem>,
)
    ensures
        problem_views(final(problems)@) == problem_views(old(problems)@) + ownership_domain_problems(
            source@,
            index as nat,
            domain@,
        ),
{
    let ghost base = problem_views(problems@);
    push_domain_head(source, index, domain, problems);
    push_domain_patterns(source, index, domain, problems);
    push_domain_owner(source, index, domain, problems);
    push_blank_repo_problems(source, index, &domain.non_owner_repos, problems);
    proof {
        assert(problem_views(problems@) =~= base + ownership_domain_problems(source@, index as nat, domain@));
    }
}

/// Checks an ownership block: at least one domain, each with a non-blank id, at least
/// one include pattern, well-formed patterns, a non-blank owner repo that is not also
/// listed as a non-owner, and non-blank non-owner repos.
pub fn validate_ownership_block(
    source: &str,
    domains: &Vec<OwnershipDomain>,
    problems: &mut Vec<ConfigValidationProblem>,
)
    ensures
        problem_views(final(problems)@) == problem_views(old(problems)@) + ownership_block_problems(
            source@,
            domain_views(domains@),
        ),
{
    let ghost base = problem_views(problems@);
    let ghost dv = domain_views(domains@);
    if domains.len() == 0 {
        push_problem(problems, source, &None, str_to_string("ownership.domains must define at least one domain"));
        return;
    }
    let mut i: usize = 0;
    while i < domains.len()
        invariant
            i <= domains.len(),
            dv == domain_views(domains@),
            problem_views(problems@) == base + ownership_domains_problems(source@, dv, i as int),
        decreases domains.len() - i,
    {
        push_ownership_domain_problems(source, i, &domains[i], problems);
        proof {
            assert(dv[i as int] == domains@[i as int]@);
        }
        i += 1;
    }
}

} // verus!
