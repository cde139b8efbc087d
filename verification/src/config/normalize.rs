//! The normalized catalog and ownership blocks of a graph: trimmed ids, normalized
//! paths, and sorted, duplicate-free lists.
use vstd::prelude::*;
use crate::config::model::{
    CatalogConfig, CatalogRepo, CatalogRepoView, LoadedCatalogConfig, LoadedOwnershipConfig,
    OwnershipConfig, OwnershipDomain, OwnershipDomainView, OwnershipPaths, ParsedImpactFile,
};
use crate::config::paths::{normalize_path, normalized};
use crate::config::resolve::{normalized_all, sorted_unique_patterns};
use crate::text::{
    chars_eq, chars_of, lemma_sorted_set_is, sorted_set, sorted_unique_strings, str_to_string, trim,
    trim_string, views,
};

verus! {

/// A catalog repo path normalized: `.` stays, anything else is trimmed and normalized.
pub open spec fn catalog_repo_path(path: Seq<char>) -> Seq<char> {
    if trim(path) == "."@ {
        "."@
    } else {
        normalized(trim(path))
    }
}

/// Normalizes a catalog repo path.
pub fn normalize_catalog_repo_path(path: &str) -> (r: String)
    ensures
        r@ == catalog_repo_path(path@),
{
    let trimmed = trim_string(path);
    proof {
        reveal_strlit(".");
    }
    if chars_eq(&chars_of(trimmed.as_str()), &chars_of(".")) {
        return str_to_string(".");
    }
    normalize_path(trimmed.as_str())
}

/// Each path trimmed and normalized.
pub open spec fn trimmed_normalized(s: Seq<Seq<char>>) -> Seq<Seq<char>> {
    s.map_values(|p: Seq<char>| normalized(trim(p)))
}

/// Each string trimmed.
pub open spec fn trimmed_all(s: Seq<Seq<char>>) -> Seq<Seq<char>> {
    s.map_values(|p: Seq<char>| trim(p))
}

/// A list of document paths trimmed, normalized, sorted and without repeats.
pub fn normalize_exact_doc_pointer_list(paths: &Vec<String>) -> (r: Vec<String>)
    ensures
        views(r@) == sorted_set(trimmed_normalized(views(paths@))),
{
    let ghost pv = views(paths@);
    let mut v: Vec<String> = Vec::new();
    let mut i: usize = 0;
    while i < paths.len()
        invariant
            i <= paths.len(),
            pv == views(paths@),
            views(v@) == trimmed_normalized(pv.take(i as int)),
        decreases paths.len() - i,
    {
        let t = trim_string(paths[i].as_str());
        let ghost prev = views(v@);
        v.push(normalize_path(t.as_str()));
        proof {
            assert(views(v@) =~= prev.push(normalized(trim(pv[i as int]))));
            assert(trimmed_normalized(pv.take(i + 1)) =~= trimmed_normalized(pv.take(i as int)).push(normalized(trim(pv[i as int]))));
        }
        i += 1;
    }
    proof {
        assert(pv.take(paths.len() as int) =~= pv);
    }
    let ghost vv = views(v@);
    let r = sorted_unique_strings(v);
    proof {
        lemma_sorted_set_is(views(r@), vv);
    }
    r
}

/// A list of repo ids trimmed, sorted and without repeats.
pub fn trimmed_unique(values: &Vec<String>) -> (r: Vec<String>)
    ensures
        views(r@) == sorted_set(trimmed_all(views(values@))),
{
    let ghost pv = views(values@);
    let mut v: Vec<String> = Vec::new();
    let mut i: usize = 0;
    while i < values.len()
        invariant
            i <= values.len(),
            pv == views(values@),
            views(v@) == trimmed_all(pv.take(i as int)),
        decreases values.len() - i,
    {
        let ghost prev = views(v@);
        v.push(trim_string(values[i].as_str()));
        proof {
            assert(views(v@) =~= prev.push(trim(pv[i as int])));
            assert(trimmed_all(pv.take(i + 1)) =~= trimmed_all(pv.take(i as int)).push(trim(pv[i as int])));
        }
        i += 1;
    }
    proof {
        assert(pv.take(values.len() as int) =~= pv);
    }
    let ghost vv = views(v@);
    let r = sorted_unique_strings(v);
    proof {
        lemma_sorted_set_is(views(r@), vv);
    }
    r
}

/// An optional document path trimmed and normalized.
pub open spec fn opt_doc(o: Option<Seq<char>>) -> Option<Seq<char>> {
    match o {
        Some(p) => Some(normalized(trim(p))),
        None => None,
    }
}

/// An optional string trimmed.
pub open spec fn opt_trim(o: Option<Seq<char>>) -> Option<Seq<char>> {
    match o {
        Some(p) => Some(trim(p)),
        None => None,
    }
}

/// A catalog repo normalized: trimmed id and canonical repo, normalized path and
/// document pointers.
pub open spec fn normalized_repo(r: CatalogRepoView) -> CatalogRepoView {
    CatalogRepoView {
        id: trim(r.id),
        path: catalog_repo_path(r.path),
        canonical_repo: opt_trim(r.canonical_repo),
        entry_doc: opt_doc(r.entry_doc),
        branch_policy_doc: opt_doc(r.branch_policy_doc),
        workflow_docs: sorted_set(trimmed_normalized(r.workflow_docs)),
        integration_docs: sorted_set(trimmed_normalized(r.integration_docs)),
        workspace_integration_required: r.workspace_integration_required,
    }
}

fn opt_doc_of(o: &Option<String>) -> (r: Option<String>)
    ensures
        crate::config::model::opt_view(r) == opt_doc(crate::config::model::opt_view(*o)),
{
    match o {
        Some(p) => {
            let t = trim_string(p.as_str());
            Some(normalize_path(t.as_str()))
        },
        None => None,
    }
}

/// Normalizes a catalog repo, as `normalized_repo` says.
pub fn normalize_catalog_repo(repo: &CatalogRepo) -> (r: CatalogRepo)
    ensures
        r@ == normalized_repo(repo@),
{
    let canonical_repo = match &repo.canonical_repo {
        Some(c) => Some(trim_string(c.as_str())),
        None => None,
    };
    CatalogRepo {
        id: trim_string(repo.id.as_str()),
        path: normalize_catalog_repo_path(repo.path.as_str()),
        canonical_repo,
        entry_doc: opt_doc_of(&repo.entry_doc),
        branch_policy_doc: opt_doc_of(&repo.branch_policy_doc),
        workflow_docs: normalize_exact_doc_pointer_list(&repo.workflow_docs),
        integration_docs: normalize_exact_doc_pointer_list(&repo.integration_docs),
        workspace_integration_required: repo.workspace_integration_required,
    }
}

/// Normalizes each repo of a catalog.
pub fn normalize_catalog_config(catalog: &CatalogConfig) -> (r: CatalogConfig)
    ensures
        r@ == catalog@.map_values(|x: CatalogRepoView| normalized_repo(x)),
{
    let mut repos: Vec<CatalogRepo> = Vec::new();
    let mut i: usize = 0;
    while i < catalog.repos.len()
        invariant
            i <= catalog.repos.len(),
            repos@.len() == i,
            forall|k: int| 0 <= k < i ==> (#[trigger] repos@[k])@ == normalized_repo(catalog.repos@[k]@),
        decreases catalog.repos.len() - i,
    {
        repos.push(normalize_catalog_repo(&catalog.repos[i]));
        i += 1;
    }
    let r = CatalogConfig { repos };
    proof {
        assert(r@ =~= catalog@.map_values(|x: CatalogRepoView| normalized_repo(x)));
    }
    r
}

/// An ownership domain normalized: trimmed id and repos, normalized sorted patterns,
/// and sorted, duplicate-free non-owner repos.
pub open spec fn normalized_domain(d: OwnershipDomainView) -> OwnershipDomainView {
    OwnershipDomainView {
        id: trim(d.id),
        includes: sorted_set(normalized_all(d.includes)),
        exclude: sorted_set(normalized_all(d.exclude)),
        owner_repo: trim(d.owner_repo),
        non_owner_repos: sorted_set(trimmed_all(d.non_owner_repos)),
    }
}

/// Normalizes an ownership domain, as `normalized_domain` says.
pub fn normalize_ownership_domain(domain: &OwnershipDomain) -> (r: OwnershipDomain)
    ensures
        r@ == normalized_domain(domain@),
{
    OwnershipDomain {
        id: trim_string(domain.id.as_str()),
        paths: OwnershipPaths {
            includes: sorted_unique_patterns(&domain.paths.includes),
            exclude: sorted_unique_patterns(&domain.paths.exclude),
        },
        owner_repo: trim_string(domain.owner_repo.as_str()),
        non_owner_repos: trimmed_unique(&domain.non_owner_repos),
    }
}

/// Normalizes each domain of an ownership block.
pub fn normalize_ownership_config(ownership: &OwnershipConfig) -> (r: OwnershipConfig)
    ensures
        r@ == ownership@.map_values(|x: OwnershipDomainView| normalized_domain(x)),
{
    let mut domains: Vec<OwnershipDomain> = Vec::new();
    let mut i: usize = 0;
    while i < ownership.domains.len()
        invariant
            i <= ownership.domains.len(),
            domains@.len() == i,
            forall|k: int| 0 <= k < i ==> (#[trigger] domains@[k])@ == normalized_domain(ownership.domains@[k]@),
        decreases ownership.domains.len() - i,
    {
        domains.push(normalize_ownership_domain(&ownership.domains[i]));
        i += 1;
    }
    let r = OwnershipConfig { domains };
    proof {
        assert(r@ =~= ownership@.map_values(|x: OwnershipDomainView| normalized_domain(x)));
    }
    r
}

/// The normalized catalog of one parsed file, empty when it declares none.
pub open spec fn file_catalog(p: ParsedImpactFile) -> Seq<CatalogRepoView> {
    match p.parsed.catalog {
        Some(c) => c@.map_values(|x: CatalogRepoView| normalized_repo(x)),
        None => Seq::empty(),
    }
}

/// The normalized ownership domains of one parsed file, empty when it declares none.
pub open spec fn file_ownership(p: ParsedImpactFile) -> Seq<OwnershipDomainView> {
    match p.parsed.ownership {
        Some(c) => c@.map_values(|x: OwnershipDomainView| normalized_domain(x)),
        None => Seq::empty(),
    }
}

/// The catalog of each parsed file, with its source and directory, normalized.
pub fn catalog_configs(parsed_files: &Vec<ParsedImpactFile>) -> (r: Vec<LoadedCatalogConfig>)
    ensures
        r@.len() == parsed_files@.len(),
        forall|k: int|
            0 <= k < r@.len() ==> (#[trigger] r@[k]).source@ == parsed_files@[k].descriptor.rel_path@
                && r@[k].base_dir@ == parsed_files@[k].descriptor.base_dir@ && r@[k].catalog@ == file_catalog(
                parsed_files@[k],
            ),
{
    let mut r: Vec<LoadedCatalogConfig> = Vec::new();
    let mut i: usize = 0;
    while i < parsed_files.len()
        invariant
            i <= parsed_files.len(),
            r@.len() == i,
            forall|k: int|
                0 <= k < i ==> (#[trigger] r@[k]).source@ == parsed_files@[k].descriptor.rel_path@
                    && r@[k].base_dir@ == parsed_files@[k].descriptor.base_dir@ && r@[k].catalog@
                    == file_catalog(parsed_files@[k]),
        decreases parsed_files.len() - i,
    {
        let p = &parsed_files[i];
        let catalog = match &p.parsed.catalog {
            Some(c) => normalize_catalog_config(c),
            None => {
                let c = CatalogConfig { repos: Vec::new() };
                proof {
                    assert(c@ =~= Seq::<CatalogRepoView>::empty());
                }
                c
            },
        };
        r.push(LoadedCatalogConfig { source: p.descriptor.rel_path.clone(), base_dir: p.descriptor.base_dir.clone(), catalog });
        i += 1;
    }
    r
}

/// The ownership block of each parsed file, with its source and directory, normalized.
pub fn ownership_configs(parsed_files: &Vec<ParsedImpactFile>) -> (r: Vec<LoadedOwnershipConfig>)
    ensures
        r@.len() == parsed_files@.len(),
        forall|k: int|
            0 <= k < r@.len() ==> (#[trigger] r@[k]).source@ == parsed_files@[k].descriptor.rel_path@
                && r@[k].base_dir@ == parsed_files@[k].descriptor.base_dir@ && r@[k].ownership@
                == file_ownership(parsed_files@[k]),
{
    let mut r: Vec<LoadedOwnershipConfig> = Vec::new();
    let mut i: usize = 0;
    while i < parsed_files.len()
        invariant
            i <= parsed_files.len(),
            r@.len() == i,
            forall|k: int|
                0 <= k < i ==> (#[trigger] r@[k]).source@ == parsed_files@[k].descriptor.rel_path@
                    && r@[k].base_dir@ == parsed_files@[k].descriptor.base_dir@ && r@[k].ownership@
                    == file_ownership(parsed_files@[k]),
        decreases parsed_files.len() - i,
    {
        let p = &parsed_files[i];
        let ownership = match &p.parsed.ownership {
            Some(c) => normalize_ownership_config(c),
            None => {
                let c = OwnershipConfig { domains: Vec::new() };
                proof {
                    assert(c@ =~= Seq::<OwnershipDomainView>::empty());
                }
                c
            },
        };
        r.push(LoadedOwnershipConfig { source: p.descriptor.rel_path.clone(), base_dir: p.descriptor.base_dir.clone(), ownership });
        i += 1;
    }
    r
}

} // verus!
