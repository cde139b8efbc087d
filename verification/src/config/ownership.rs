//! Ownership analysis: which domains claim each tracked path, which one is selected,
//! and where owner repos conflict or domains of one owner overlap.
use vstd::prelude::*;
use crate::config::model::{
    LoadedOwnershipConfig, OwnershipAnalysis, OwnershipConflict, OwnershipDomain,
    OwnershipDomainMatch, OwnershipDomainView, OwnershipOverlap, OwnershipPathAnalysis,
};
use crate::config::model::{ConfigValidationProblem, ProblemView, problem_views};
use crate::config::problems::{is_sorted_problems_of, pview, sort_problems};
use crate::config::validate::push_problem;
use crate::config::paths::{resolve_rule_path, resolved_rule_path};
use crate::rules::glob::{glob_matches, matches_pattern};
use crate::text::{
    cat5, chars_eq, chars_lt, chars_of, is_sorted_set_of, join, join_strings, lemma_sorted_set_unique, seq_lt,
    sorted_set, sorted_unique_strings, views, lemma_seq_lt_irreflexive, lemma_seq_lt_transitive,
    lemma_seq_lt_trichotomy,
};

verus! {

/// The view of a domain match.
pub struct MatchView {
    pub source: Seq<char>,
    pub base_dir: Seq<char>,
    pub domain_id: Seq<char>,
    pub owner_repo: Seq<char>,
    pub non_owner_repos: Seq<Seq<char>>,
    pub matched_include: Seq<char>,
    pub static_prefix_len: nat,
    pub wildcard_count: nat,
}

impl View for OwnershipDomainMatch {
    type V = MatchView;

    open spec fn view(&self) -> MatchView {
        MatchView {
            source: self.source@,
            base_dir: self.base_dir@,
            domain_id: self.domain_id@,
            owner_repo: self.owner_repo@,
            non_owner_repos: views(self.non_owner_repos@),
            matched_include: self.matched_include@,
            static_prefix_len: self.static_prefix_len as nat,
            wildcard_count: self.wildcard_count as nat,
        }
    }
}

/// The views of a list of domain matches.
pub open spec fn match_views(v: Seq<OwnershipDomainMatch>) -> Seq<MatchView> {
    v.map_values(|m: OwnershipDomainMatch| m@)
}

/// A glob wildcard character.
pub open spec fn is_wild(c: char) -> bool {
    c == '*' || c == '?'
}

/// The number of wildcard characters of a pattern.
pub open spec fn wildcards(s: Seq<char>) -> nat
    decreases s.len(),
{
    if s.len() == 0 {
        0
    } else {
        wildcards(s.drop_last()) + if is_wild(s.last()) { 1nat } else { 0nat }
    }
}

/// The number of characters of a pattern before its first wildcard.
pub open spec fn static_prefix(s: Seq<char>) -> nat
    decreases s.len(),
{
    if s.len() == 0 {
        0
    } else if wildcards(s.drop_last()) > 0 {
        static_prefix(s.drop_last())
    } else if is_wild(s.last()) {
        (s.len() - 1) as nat
    } else {
        s.len()
    }
}

/// The specificity of a pattern: its static prefix length and its wildcard count.
pub fn ownership_pattern_specificity(pattern: &str) -> (r: (usize, usize))
    ensures
        r.0 == static_prefix(pattern@),
        r.1 == wildcards(pattern@),
{
    let v = chars_of(pattern);
    let mut prefix: usize = 0;
    let mut count: usize = 0;
    let mut i: usize = 0;
    while i < v.len()
        invariant
            i <= v.len(),
            v@ == pattern@,
            count == wildcards(v@.take(i as int)),
            prefix == static_prefix(v@.take(i as int)),
            count <= i,
            prefix <= i,
        decreases v.len() - i,
    {
        proof {
            assert(v@.take(i + 1).drop_last() =~= v@.take(i as int));
            assert(v@.take(i + 1).last() == v@[i as int]);
        }
        let c = v[i];
        if c == '*' || c == '?' {
            count += 1;
        } else if count == 0 {
            prefix = i + 1;
        }
        i += 1;
    }
    proof {
        assert(v@.take(v.len() as int) =~= v@);
    }
    (prefix, count)
}

/// `a` is more specific than `b`: a longer static prefix, then fewer wildcards, then
/// the lesser string.
pub open spec fn include_lt(a: Seq<char>, b: Seq<char>) -> bool {
    static_prefix(a) > static_prefix(b) || (static_prefix(a) == static_prefix(b) && (wildcards(a)
        < wildcards(b) || (wildcards(a) == wildcards(b) && seq_lt(a, b))))
}

fn include_less(a: &str, b: &str) -> (r: bool)
    ensures
        r == include_lt(a@, b@),
{
    let (ap, aw) = ownership_pattern_specificity(a);
    let (bp, bw) = ownership_pattern_specificity(b);
    if ap != bp {
        return ap > bp;
    }
    if aw != bw {
        return aw < bw;
    }
    let av = chars_of(a);
    let bv = chars_of(b);
    chars_lt(&av, &bv)
}

/// The include pattern a domain matches a path by: of the patterns that match, the
/// last one that no later matching pattern is less specific than (`max_by` under the
/// order that puts more specific patterns first).
pub open spec fn best_include(path: Seq<char>, pats: Seq<Seq<char>>) -> Option<Seq<char>>
    decreases pats.len(),
{
    if pats.len() == 0 {
        None
    } else {
        let b = best_include(path, pats.drop_last());
        let p = pats.last();
        if !glob_matches(path, p) {
            b
        } else {
            match b {
                None => Some(p),
                Some(x) => if include_lt(p, x) { Some(x) } else { Some(p) },
            }
        }
    }
}

/// Patterns resolved against the directory they were declared in.
pub open spec fn resolved_all(base: Seq<char>, pats: Seq<Seq<char>>) -> Seq<Seq<char>> {
    pats.map_values(|p: Seq<char>| resolved_rule_path(base, p))
}

/// Some exclude pattern, resolved, matches the path.
pub open spec fn excluded(path: Seq<char>, base: Seq<char>, exclude: Seq<Seq<char>>) -> bool {
    exists|k: int| 0 <= k < exclude.len() && glob_matches(path, #[trigger] resolved_rule_path(base, exclude[k]))
}

/// How the domain `d`, declared in `source` under `base`, claims `path`, if it does.
pub open spec fn domain_match(path: Seq<char>, source: Seq<char>, base: Seq<char>, d: OwnershipDomainView) -> Option<MatchView> {
    match best_include(path, resolved_all(base, d.includes)) {
        None => None,
        Some(m) => if excluded(path, base, d.exclude) {
            None
        } else {
            Some(
                MatchView {
                    source,
                    base_dir: base,
                    domain_id: d.id,
                    owner_repo: d.owner_repo,
                    non_owner_repos: d.non_owner_repos,
                    matched_include: m,
                    static_prefix_len: static_prefix(m),
                    wildcard_count: wildcards(m),
                },
            )
        },
    }
}

fn best_resolved_include(path: &str, base_dir: &str, includes: &Vec<String>) -> (r: Option<String>)
    ensures
        match r {
            Some(s) => best_include(path@, resolved_all(base_dir@, views(includes@))) == Some(s@),
            None => best_include(path@, resolved_all(base_dir@, views(includes@))) is None,
        },
{
    let ghost rv = resolved_all(base_dir@, views(includes@));
    let mut best: Option<String> = None;
    let mut i: usize = 0;
    while i < includes.len()
        invariant
            i <= includes.len(),
            rv == resolved_all(base_dir@, views(includes@)),
            match best {
                Some(s) => best_include(path@, rv.take(i as int)) == Some(s@),
                None => best_include(path@, rv.take(i as int)) is None,
            },
        decreases includes.len() - i,
    {
        proof {
            assert(rv.take(i + 1).drop_last() =~= rv.take(i as int));
            assert(rv.take(i + 1).last() == rv[i as int]);
        }
        let p = resolve_rule_path(base_dir, includes[i].as_str());
        if matches_pattern(path, p.as_str()) {
            match best {
                None => {
                    best = Some(p);
                },
                Some(x) => {
                    if include_less(p.as_str(), x.as_str()) {
                        best = Some(x);
                    } else {
                        best = Some(p);
                    }
                },
            }
        }
        i += 1;
    }
    proof {
        assert(rv.take(includes.len() as int) =~= rv);
    }
    best
}

fn any_excluded(path: &str, base_dir: &str, exclude: &Vec<String>) -> (r: bool)
    ensures
        r == excluded(path@, base_dir@, views(exclude@)),
{
    let ghost ev = views(exclude@);
    let mut i: usize = 0;
    while i < exclude.len()
        invariant
            i <= exclude.len(),
            ev == views(exclude@),
            forall|k: int| 0 <= k < i ==> !glob_matches(path@, #[trigger] resolved_rule_path(base_dir@, ev[k])),
        decreases exclude.len() - i,
    {
        let p = resolve_rule_path(base_dir, exclude[i].as_str());
        if matches_pattern(path, p.as_str()) {
            proof {
                assert(ev[i as int] == exclude@[i as int]@);
            }
            return true;
        }
        i += 1;
    }
    false
}

/// The match of one domain on one path, as `domain_match` says.
pub fn match_domain(path: &str, source: &String, base_dir: &String, domain: &OwnershipDomain) -> (r: Option<OwnershipDomainMatch>)
    ensures
        match r {
            Some(m) => domain_match(path@, source@, base_dir@, domain@) == Some(m@),
            None => domain_match(path@, source@, base_dir@, domain@) is None,
        },
{
    let best = best_resolved_include(path, base_dir.as_str(), &domain.paths.includes);
    match best {
        None => None,
        Some(matched_include) => {
            if any_excluded(path, base_dir.as_str(), &domain.paths.exclude) {
                return None;
            }
            let (static_prefix_len, wildcard_count) = ownership_pattern_specificity(matched_include.as_str());
            let m = OwnershipDomainMatch {
                source: source.clone(),
                base_dir: base_dir.clone(),
                domain_id: domain.id.clone(),
                owner_repo: domain.owner_repo.clone(),
                non_owner_repos: domain.non_owner_repos.clone(),
                matched_include,
                static_prefix_len,
                wildcard_count,
            };
            proof {
                assert(m@ == domain_match(path@, source@, base_dir@, domain@)->0);
            }
            Some(m)
        },
    }
}

/// Every ownership domain of the loaded configs with the source and directory of its
/// config, in order.
pub open spec fn owner_entries(v: Seq<LoadedOwnershipConfig>) -> Seq<(Seq<char>, Seq<char>, OwnershipDomainView)>
    decreases v.len(),
{
    if v.len() == 0 {
        Seq::empty()
    } else {
        owner_entries(v.drop_last()) + v.last().ownership@.map_values(
            |d: OwnershipDomainView| (v.last().source@, v.last().base_dir@, d),
        )
    }
}

/// The domains that claim `path`, in config order.
pub open spec fn unsorted_matches(path: Seq<char>, e: Seq<(Seq<char>, Seq<char>, OwnershipDomainView)>) -> Seq<MatchView>
    decreases e.len(),
{
    if e.len() == 0 {
        Seq::empty()
    } else {
        let prefix = unsorted_matches(path, e.drop_last());
        match domain_match(path, e.last().0, e.last().1, e.last().2) {
            Some(m) => prefix.push(m),
            None => prefix,
        }
    }
}

/// The order of domain matches: the longer static prefix first, then fewer
/// wildcards, then by domain id, then by source.
pub open spec fn match_lt(a: MatchView, b: MatchView) -> bool {
    a.static_prefix_len > b.static_prefix_len || (a.static_prefix_len == b.static_prefix_len && (
    a.wildcard_count < b.wildcard_count || (a.wildcard_count == b.wildcard_count && (seq_lt(
        a.domain_id,
        b.domain_id,
    ) || (a.domain_id == b.domain_id && seq_lt(a.source, b.source))))))
}

/// `x` inserted into `s` after every element it does not sort before.
pub open spec fn ins(s: Seq<MatchView>, x: MatchView) -> Seq<MatchView>
    decreases s.len(),
{
    if s.len() == 0 {
        seq![x]
    } else if match_lt(x, s.last()) {
        ins(s.drop_last(), x).push(s.last())
    } else {
        s.push(x)
    }
}

/// `v` stably sorted by `match_lt`, as `sort_by` sorts it.
pub open spec fn isort(v: Seq<MatchView>) -> Seq<MatchView>
    decreases v.len(),
{
    if v.len() == 0 {
        Seq::empty()
    } else {
        ins(isort(v.drop_last()), v.last())
    }
}

proof fn lemma_ins_at(s: Seq<MatchView>, x: MatchView, j: int)
    requires
        0 <= j <= s.len(),
        forall|k: int| j <= k < s.len() ==> match_lt(x, #[trigger] s[k]),
        j == 0 || !match_lt(x, s[j - 1]),
    ensures
        ins(s, x) == s.take(j).push(x) + s.skip(j),
    decreases s.len(),
{
    if j == s.len() {
        if s.len() == 0 {
            assert(s.take(j).push(x) + s.skip(j) =~= seq![x]);
        } else {
            assert(s.take(j).push(x) + s.skip(j) =~= s.push(x));
        }
    } else {
        assert(match_lt(x, s[s.len() - 1]));
        let d = s.drop_last();
        assert forall|k: int| j <= k < d.len() implies match_lt(x, #[trigger] d[k]) by {
            assert(d[k] == s[k]);
        }
        lemma_ins_at(d, x, j);
        assert(d.take(j) =~= s.take(j));
        assert((d.take(j).push(x) + d.skip(j)).push(s.last()) =~= s.take(j).push(x) + s.skip(j));
    }
}

fn match_less(a: &OwnershipDomainMatch, b: &OwnershipDomainMatch) -> (r: bool)
    ensures
        r == match_lt(a@, b@),
{
    if a.static_prefix_len != b.static_prefix_len {
        return a.static_prefix_len > b.static_prefix_len;
    }
    if a.wildcard_count != b.wildcard_count {
        return a.wildcard_count < b.wildcard_count;
    }
    let ad = chars_of(a.domain_id.as_str());
    let bd = chars_of(b.domain_id.as_str());
    if chars_lt(&ad, &bd) {
        return true;
    }
    if !chars_eq(&ad, &bd) {
        return false;
    }
    let asrc = chars_of(a.source.as_str());
    let bsrc = chars_of(b.source.as_str());
    chars_lt(&asrc, &bsrc)
}

/// The matches of `v`, stably sorted by `match_lt`.
pub fn sort_matches(v: Vec<OwnershipDomainMatch>) -> (r: Vec<OwnershipDomainMatch>)
    ensures
        match_views(r@) == isort(match_views(v@)),
{
    let ghost mv = match_views(v@);
    let n = v.len();
    assert(mv.len() == n);
    let mut r: Vec<OwnershipDomainMatch> = Vec::new();
    let mut src = v;
    let mut rest: Vec<OwnershipDomainMatch> = Vec::new();
    // take the items out from the back so that they can be inserted front to back
    while src.len() > 0
        invariant
            match_views(rest@) + match_views(src@).reverse() == mv.reverse(),
        decreases src.len(),
    {
        let ghost before = src@;
        let x = src.pop().unwrap();
        let ghost prev = rest@;
        rest.push(x);
        proof {
            assert(before =~= src@.push(x));
            assert(match_views(before).reverse() =~= seq![x@] + match_views(src@).reverse());
            assert(match_views(rest@) =~= match_views(prev).push(x@));
        }
    }
    proof {
        assert(match_views(src@).reverse() =~= Seq::<MatchView>::empty());
        assert(match_views(rest@) =~= mv.reverse());
    }
    let mut i: usize = 0;
    while rest.len() > 0
        invariant
            i + rest.len() == mv.len(),
            mv.len() <= usize::MAX,
            match_views(rest@) == mv.reverse().take(rest.len() as int),
            match_views(r@) == isort(mv.take(i as int)),
        decreases rest.len(),
    {
        let ghost before = rest@;
        let x = rest.pop().unwrap();
        proof {
            assert(before =~= rest@.push(x));
            assert(match_views(before)[rest.len() as int] == x@);
            assert(x@ == mv.reverse()[rest.len() as int]);
            assert(x@ == mv[i as int]);
            assert(match_views(rest@) =~= mv.reverse().take(rest.len() as int));
        }
        let ghost s = match_views(r@);
        let mut j: usize = r.len();
        while j > 0 && match_less(&x, &r[j - 1])
            invariant
                j <= r.len(),
                s == match_views(r@),
                forall|k: int| j <= k < s.len() ==> match_lt(x@, #[trigger] s[k]),
            decreases j,
        {
            j -= 1;
        }
        proof {
            lemma_ins_at(s, x@, j as int);
            assert(mv.take(i + 1).drop_last() =~= mv.take(i as int));
            assert(mv.take(i + 1).last() == x@);
        }
        r.insert(j, x);
        proof {
            assert(match_views(r@) =~= s.take(j as int).push(x@) + s.skip(j as int));
        }
        i += 1;
    }
    proof {
        assert(mv.take(i as int) =~= mv);
    }
    r
}

/// The domain matches of `path` against every domain of the loaded configs, in
/// config order.
pub fn collect_matches(path: &str, loaded_configs: &[LoadedOwnershipConfig]) -> (r: Vec<OwnershipDomainMatch>)
    ensures
        match_views(r@) == unsorted_matches(path@, owner_entries(loaded_configs@)),
{
    let ghost v = loaded_configs@;
    let mut r: Vec<OwnershipDomainMatch> = Vec::new();
    let mut i: usize = 0;
    while i < loaded_configs.len()
        invariant
            i <= loaded_configs.len(),
            v == loaded_configs@,
            match_views(r@) == unsorted_matches(path@, owner_entries(v.take(i as int))),
        decreases loaded_configs.len() - i,
    {
        let loaded = &loaded_configs[i];
        let ghost done = owner_entries(v.take(i as int));
        let ghost blk = loaded.ownership@.map_values(
            |d: OwnershipDomainView| (loaded.source@, loaded.base_dir@, d),
        );
        proof {
            assert(v.take(i + 1).drop_last() =~= v.take(i as int));
            assert(v.take(i + 1).last() == *loaded);
        }
        let mut j: usize = 0;
        while j < loaded.ownership.domains.len()
            invariant
                j <= loaded.ownership.domains.len(),
                blk == loaded.ownership@.map_values(
                    |d: OwnershipDomainView| (loaded.source@, loaded.base_dir@, d),
                ),
                match_views(r@) == unsorted_matches(path@, done + blk.take(j as int)),
            decreases loaded.ownership.domains.len() - j,
        {
            let domain = &loaded.ownership.domains[j];
            let ghost es = done + blk.take(j as int);
            let ghost es2 = done + blk.take(j + 1);
            proof {
                assert(blk[j as int] == (loaded.source@, loaded.base_dir@, domain@));
                assert(es2.drop_last() =~= es);
                assert(es2.last() == blk[j as int]);
            }
            match match_domain(path, &loaded.source, &loaded.base_dir, domain) {
                Some(m) => {
                    let ghost prev = match_views(r@);
                    r.push(m);
                    proof {
                        assert(match_views(r@) =~= prev.push(r@.last()@));
                    }
                },
                None => {},
            }
            j += 1;
        }
        proof {
            assert(blk.take(loaded.ownership.domains.len() as int) =~= blk);
            assert(owner_entries(v.take(i + 1)) =~= done + blk);
        }
        i += 1;
    }
    proof {
        assert(v.take(loaded_configs.len() as int) =~= v);
    }
    r
}

/// The owner repos of a list of matches.
pub open spec fn match_owners(ms: Seq<MatchView>) -> Seq<Seq<char>> {
    ms.map_values(|m: MatchView| m.owner_repo)
}

/// The domain ids of a list of matches.
pub open spec fn match_ids(ms: Seq<MatchView>) -> Seq<Seq<char>> {
    ms.map_values(|m: MatchView| m.domain_id)
}

/// The view of a path analysis.
pub struct PathView {
    pub path: Seq<char>,
    pub matches: Seq<MatchView>,
    pub selected: MatchView,
    pub has_conflict: bool,
    pub has_overlap: bool,
}

/// The view of an ownership conflict.
pub struct ConflictView {
    pub path: Seq<char>,
    pub owner_repos: Seq<Seq<char>>,
    pub domain_ids: Seq<Seq<char>>,
}

/// The view of an ownership overlap.
pub struct OverlapView {
    pub path: Seq<char>,
    pub owner_repo: Seq<char>,
    pub domain_ids: Seq<Seq<char>>,
    pub selected_domain_id: Seq<char>,
}

/// The view of an ownership analysis.
pub struct AnalysisView {
    pub paths: Seq<PathView>,
    pub conflicts: Seq<ConflictView>,
    pub overlaps: Seq<OverlapView>,
}

impl View for OwnershipPathAnalysis {
    type V = PathView;

    open spec fn view(&self) -> PathView {
        PathView {
            path: self.path@,
            matches: match_views(self.matches@),
            selected: self.selected@,
            has_conflict: self.has_conflict,
            has_overlap: self.has_overlap,
        }
    }
}

impl View for OwnershipConflict {
    type V = ConflictView;

    open spec fn view(&self) -> ConflictView {
        ConflictView { path: self.path@, owner_repos: views(self.owner_repos@), domain_ids: views(self.domain_ids@) }
    }
}

impl View for OwnershipOverlap {
    type V = OverlapView;

    open spec fn view(&self) -> OverlapView {
        OverlapView {
            path: self.path@,
            owner_repo: self.owner_repo@,
            domain_ids: views(self.domain_ids@),
            selected_domain_id: self.selected_domain_id@,
        }
    }
}

impl View for OwnershipAnalysis {
    type V = AnalysisView;

    open spec fn view(&self) -> AnalysisView {
        AnalysisView {
            paths: self.paths@.map_values(|p: OwnershipPathAnalysis| p@),
            conflicts: self.conflicts@.map_values(|c: OwnershipConflict| c@),
            overlaps: self.overlaps@.map_values(|o: OwnershipOverlap| o@),
        }
    }
}

/// The analysis of one path: its matches sorted most specific first, the first of
/// them selected, a conflict when they name more than one owner repo, an overlap when
/// one owner repo has several of them; none when no domain claims the path.
pub open spec fn path_analysis(path: Seq<char>, e: Seq<(Seq<char>, Seq<char>, OwnershipDomainView)>) -> Option<PathView> {
    let ms = isort(unsorted_matches(path, e));
    if ms.len() == 0 {
        None
    } else {
        let conflict = sorted_set(match_owners(ms)).len() > 1;
        Some(
            PathView {
                path,
                matches: ms,
                selected: ms[0],
                has_conflict: conflict,
                has_overlap: !conflict && ms.len() > 1,
            },
        )
    }
}

/// The analysis of a list of tracked paths: the analysis of each claimed path, with
/// the conflicts and overlaps among them, in path order.
pub open spec fn analysis_of(paths: Seq<Seq<char>>, e: Seq<(Seq<char>, Seq<char>, OwnershipDomainView)>) -> AnalysisView
    decreases paths.len(),
{
    if paths.len() == 0 {
        AnalysisView { paths: Seq::empty(), conflicts: Seq::empty(), overlaps: Seq::empty() }
    } else {
        let a = analysis_of(paths.drop_last(), e);
        let path = paths.last();
        match path_analysis(path, e) {
            None => a,
            Some(pa) => AnalysisView {
                paths: a.paths.push(pa),
                conflicts: if pa.has_conflict {
                    a.conflicts.push(
                        ConflictView {
                            path,
                            owner_repos: sorted_set(match_owners(pa.matches)),
                            domain_ids: sorted_set(match_ids(pa.matches)),
                        },
                    )
                } else {
                    a.conflicts
                },
                overlaps: if pa.has_overlap {
                    a.overlaps.push(
                        OverlapView {
                            path,
                            owner_repo: pa.selected.owner_repo,
                            domain_ids: sorted_set(match_ids(pa.matches)),
                            selected_domain_id: pa.selected.domain_id,
                        },
                    )
                } else {
                    a.overlaps
                },
            },
        }
    }
}

/// A copy of a domain match.
pub fn copy_match(m: &OwnershipDomainMatch) -> (r: OwnershipDomainMatch)
    ensures
        r@ == m@,
{
    OwnershipDomainMatch {
        source: m.source.clone(),
        base_dir: m.base_dir.clone(),
        domain_id: m.domain_id.clone(),
        owner_repo: m.owner_repo.clone(),
        non_owner_repos: m.non_owner_repos.clone(),
        matched_include: m.matched_include.clone(),
        static_prefix_len: m.static_prefix_len,
        wildcard_count: m.wildcard_count,
    }
}

fn owners_and_ids(ms: &Vec<OwnershipDomainMatch>) -> (r: (Vec<String>, Vec<String>))
    ensures
        views(r.0@) == sorted_set(match_owners(match_views(ms@))),
        views(r.1@) == sorted_set(match_ids(match_views(ms@))),
{
    let mut owners: Vec<String> = Vec::new();
    let mut ids: Vec<String> = Vec::new();
    let ghost mv = match_views(ms@);
    let mut i: usize = 0;
    while i < ms.len()
        invariant
            i <= ms.len(),
            mv == match_views(ms@),
            views(owners@) == match_owners(mv.take(i as int)),
            views(ids@) == match_ids(mv.take(i as int)),
        decreases ms.len() - i,
    {
        let ghost po = views(owners@);
        let ghost pi = views(ids@);
        owners.push(ms[i].owner_repo.clone());
        ids.push(ms[i].domain_id.clone());
        proof {
            assert(mv[i as int] == ms@[i as int]@);
            assert(mv.take(i + 1) =~= mv.take(i as int).push(mv[i as int]));
            assert(views(owners@) =~= po.push(mv[i as int].owner_repo));
            assert(views(ids@) =~= pi.push(mv[i as int].domain_id));
            assert(views(owners@) =~= match_owners(mv.take(i + 1)));
            assert(views(ids@) =~= match_ids(mv.take(i + 1)));
        }
        i += 1;
    }
    proof {
        assert(mv.take(ms.len() as int) =~= mv);
    }
    let ghost ow = views(owners@);
    let ghost iw = views(ids@);
    let so = sorted_unique_strings(owners);
    let si = sorted_unique_strings(ids);
    proof {
        let a = sorted_set(ow);
        assert(is_sorted_set_of(views(so@), ow));
        assert(is_sorted_set_of(a, ow));
        lemma_sorted_set_unique(views(so@), a);
        let b = sorted_set(iw);
        assert(is_sorted_set_of(views(si@), iw));
        assert(is_sorted_set_of(b, iw));
        lemma_sorted_set_unique(views(si@), b);
    }
    (so, si)
}

/// The ownership analysis of `tracked_paths`: for each path that some domain claims,
/// its matches (most specific first), the selected domain, and whether the path is
/// in conflict (several owner repos) or overlapping (one owner repo, several domains).
pub fn analyze_ownership_paths(tracked_paths: &[String], loaded_configs: &[LoadedOwnershipConfig]) -> (r: OwnershipAnalysis)
    ensures
        r@ == analysis_of(views(tracked_paths@), owner_entries(loaded_configs@)),
{
    let ghost pv = views(tracked_paths@);
    let ghost e = owner_entries(loaded_configs@);
    let mut analyses: Vec<OwnershipPathAnalysis> = Vec::new();
    let mut conflicts: Vec<OwnershipConflict> = Vec::new();
    let mut overlaps: Vec<OwnershipOverlap> = Vec::new();
    let mut i: usize = 0;
    proof {
        let a = (OwnershipAnalysis { paths: analyses, conflicts, overlaps })@;
        assert(pv.take(0) =~= Seq::<Seq<char>>::empty());
        assert(a.paths =~= Seq::<PathView>::empty());
        assert(a.conflicts =~= Seq::<ConflictView>::empty());
        assert(a.overlaps =~= Seq::<OverlapView>::empty());
    }
    while i < tracked_paths.len()
        invariant
            i <= tracked_paths.len(),
            pv == views(tracked_paths@),
            e == owner_entries(loaded_configs@),
            (OwnershipAnalysis { paths: analyses, conflicts, overlaps })@ == analysis_of(pv.take(i as int), e),
        decreases tracked_paths.len() - i,
    {
        let path = &tracked_paths[i];
        proof {
            assert(pv.take(i + 1).drop_last() =~= pv.take(i as int));
            assert(pv.take(i + 1).last() == path@);
        }
        let found = collect_matches(path.as_str(), loaded_configs);
        let matches = sort_matches(found);
        if matches.len() > 0 {
            let selected = copy_match(&matches[0]);
            let (owner_repos, domain_ids) = owners_and_ids(&matches);
            let has_conflict = owner_repos.len() > 1;
            let has_overlap = !has_conflict && matches.len() > 1;
            if has_conflict {
                conflicts.push(OwnershipConflict { path: path.clone(), owner_repos, domain_ids });
            } else if has_overlap {
                overlaps.push(
                    OwnershipOverlap {
                        path: path.clone(),
                        owner_repo: selected.owner_repo.clone(),
                        domain_ids,
                        selected_domain_id: selected.domain_id.clone(),
                    },
                );
            }
            analyses.push(OwnershipPathAnalysis { path: path.clone(), matches, selected, has_conflict, has_overlap });
        }
        proof {
            let a = (OwnershipAnalysis { paths: analyses, conflicts, overlaps })@;
            assert(a.paths =~= analysis_of(pv.take(i + 1), e).paths);
            assert(a.conflicts =~= analysis_of(pv.take(i + 1), e).conflicts);
            assert(a.overlaps =~= analysis_of(pv.take(i + 1), e).overlaps);
        }
        i += 1;
    }
    proof {
        assert(pv.take(tracked_paths.len() as int) =~= pv);
    }
    OwnershipAnalysis { paths: analyses, conflicts, overlaps }
}

/// One problem for each match of a conflicting path.
pub open spec fn conflict_entry_problems(path: Seq<char>, owners: Seq<char>, ms: Seq<MatchView>) -> Seq<ProblemView>
    decreases ms.len(),
{
    if ms.len() == 0 {
        Seq::empty()
    } else {
        let m = ms.last();
        conflict_entry_problems(path, owners, ms.drop_last()).push(
            pview(
                m.source,
                None,
                "ownership conflict: tracked path `"@ + path + "` matches domain `"@ + m.domain_id
                    + "` (ownerRepo `"@ + m.owner_repo + "`) but conflicting ownerRepos are present: "@
                    + owners,
            ),
        )
    }
}

/// The problems of the conflicting paths of an analysis, before sorting.
pub open spec fn conflict_problems(paths: Seq<PathView>) -> Seq<ProblemView>
    decreases paths.len(),
{
    if paths.len() == 0 {
        Seq::empty()
    } else {
        let pa = paths.last();
        conflict_problems(paths.drop_last()) + if pa.has_conflict {
            conflict_entry_problems(pa.path, join(sorted_set(match_owners(pa.matches)), ", "@), pa.matches)
        } else {
            Seq::empty()
        }
    }
}

fn push_conflict_entries(
    path: &String,
    owners: &String,
    ms: &Vec<OwnershipDomainMatch>,
    problems: &mut Vec<ConfigValidationProblem>,
)
    ensures
        problem_views(final(problems)@) == problem_views(old(problems)@) + conflict_entry_problems(
            path@,
            owners@,
            match_views(ms@),
        ),
{
    let ghost base = problem_views(problems@);
    let ghost mv = match_views(ms@);
    let mut i: usize = 0;
    while i < ms.len()
        invariant
            i <= ms.len(),
            mv == match_views(ms@),
            problem_views(problems@) == base + conflict_entry_problems(path@, owners@, mv.take(i as int)),
        decreases ms.len() - i,
    {
        let m = &ms[i];
        proof {
            assert(mv.take(i + 1).drop_last() =~= mv.take(i as int));
            assert(mv.take(i + 1).last() == m@);
        }
        let mut message = cat5(
            "ownership conflict: tracked path `",
            path.as_str(),
            "` matches domain `",
            m.domain_id.as_str(),
            "` (ownerRepo `",
        );
        message.append(m.owner_repo.as_str());
        message.append("`) but conflicting ownerRepos are present: ");
        message.append(owners.as_str());
        push_problem(problems, m.source.as_str(), &None, message);
        proof {
            assert(problem_views(problems@) =~= base + conflict_entry_problems(path@, owners@, mv.take(i + 1)));
        }
        i += 1;
    }
    proof {
        assert(mv.take(ms.len() as int) =~= mv);
    }
}

/// Reports each tracked path that domains of different owner repos claim, once per
/// claiming domain, naming all the owner repos; the problems come sorted.
pub fn validate_ownership_path_conflicts(analysis: &OwnershipAnalysis) -> (r: Vec<ConfigValidationProblem>)
    ensures
        is_sorted_problems_of(problem_views(r@), conflict_problems(analysis@.paths)),
{
    let ghost ps = analysis@.paths;
    let mut problems: Vec<ConfigValidationProblem> = Vec::new();
    let mut i: usize = 0;
    while i < analysis.paths.len()
        invariant
            i <= analysis.paths.len(),
            ps == analysis@.paths,
            problem_views(problems@) == conflict_problems(ps.take(i as int)),
        decreases analysis.paths.len() - i,
    {
        let pa = &analysis.paths[i];
        proof {
            assert(ps.take(i + 1).drop_last() =~= ps.take(i as int));
            assert(ps.take(i + 1).last() == pa@);
        }
        let ghost before = problem_views(problems@);
        if pa.has_conflict {
            let (owners, _) = owners_and_ids(&pa.matches);
            let text = join_strings(&owners, ", ");
            push_conflict_entries(&pa.path, &text, &pa.matches, &mut problems);
        }
        proof {
            assert(problem_views(problems@) =~= conflict_problems(ps.take(i + 1)));
        }
        i += 1;
    }
    proof {
        assert(ps.take(analysis.paths.len() as int) =~= ps);
    }
    sort_problems(problems)
}

proof fn lemma_match_lt_strict(a: MatchView, b: MatchView, c: MatchView)
    ensures
        !match_lt(a, a),
        match_lt(a, b) && match_lt(b, c) ==> match_lt(a, c),
        match_lt(a, c) ==> match_lt(a, b) || match_lt(b, c),
{
    lemma_seq_lt_irreflexive(a.domain_id);
    lemma_seq_lt_irreflexive(a.source);
    lemma_seq_lt_trichotomy(a.domain_id, b.domain_id);
    lemma_seq_lt_trichotomy(b.domain_id, c.domain_id);
    lemma_seq_lt_trichotomy(a.domain_id, c.domain_id);
    lemma_seq_lt_trichotomy(a.source, b.source);
    lemma_seq_lt_trichotomy(b.source, c.source);
    lemma_seq_lt_trichotomy(a.source, c.source);
    if seq_lt(a.domain_id, b.domain_id) && seq_lt(b.domain_id, c.domain_id) {
        lemma_seq_lt_transitive(a.domain_id, b.domain_id, c.domain_id);
    }
    if seq_lt(a.source, b.source) && seq_lt(b.source, c.source) {
        lemma_seq_lt_transitive(a.source, b.source, c.source);
    }
    if seq_lt(b.domain_id, a.domain_id) && seq_lt(a.domain_id, c.domain_id) {
        lemma_seq_lt_transitive(b.domain_id, a.domain_id, c.domain_id);
    }
    if seq_lt(b.source, a.source) && seq_lt(a.source, c.source) {
        lemma_seq_lt_transitive(b.source, a.source, c.source);
    }
    if seq_lt(a.domain_id, c.domain_id) && seq_lt(c.domain_id, b.domain_id) {
        lemma_seq_lt_transitive(a.domain_id, c.domain_id, b.domain_id);
    }
    if seq_lt(a.source, c.source) && seq_lt(c.source, b.source) {
        lemma_seq_lt_transitive(a.source, c.source, b.source);
    }
}

/// No element of `s` sorts strictly before an earlier one.
pub open spec fn match_sorted(s: Seq<MatchView>) -> bool {
    forall|i: int, j: int| 0 <= i < j < s.len() ==> !match_lt(#[trigger] s[j], #[trigger] s[i])
}

proof fn lemma_ins_sorted(s: Seq<MatchView>, x: MatchView)
    requires
        match_sorted(s),
    ensures
        match_sorted(ins(s, x)),
        ins(s, x).contains(x),
        forall|y: MatchView| s.contains(y) ==> ins(s, x).contains(y),
    decreases s.len(),
{
    let r = ins(s, x);
    if s.len() == 0 {
        assert(r[0] == x);
    } else if match_lt(x, s.last()) {
        let d = s.drop_last();
        assert forall|i: int, j: int| 0 <= i < j < d.len() implies !match_lt(#[trigger] d[j], #[trigger] d[i]) by {
            assert(d[i] == s[i] && d[j] == s[j]);
        }
        lemma_ins_sorted(d, x);
        let p = ins(d, x);
        assert(r == p.push(s.last()));
        assert forall|i: int, j: int| 0 <= i < j < r.len() implies !match_lt(#[trigger] r[j], #[trigger] r[i]) by {
            if j < r.len() - 1 {
                assert(r[i] == p[i] && r[j] == p[j]);
            } else {
                assert(r[j] == s.last());
                assert(r[i] == p[i]);
                assert(p.contains(p[i]));
                if p[i] == x {
                    lemma_match_lt_strict(s.last(), x, s.last());
                } else {
                    assert(d.contains(p[i])) by {
                        assert(p.contains(p[i]));
                        lemma_ins_members(d, x, p[i]);
                    }
                    let k = choose|k: int| 0 <= k < d.len() && d[k] == p[i];
                    assert(s[k] == p[i]);
                    assert(!match_lt(s[s.len() - 1], s[k]));
                }
            }
        }
        let k = choose|k: int| 0 <= k < p.len() && p[k] == x;
        assert(r[k] == x);
        assert forall|y: MatchView| s.contains(y) implies r.contains(y) by {
            let j = choose|j: int| 0 <= j < s.len() && s[j] == y;
            if j == s.len() - 1 {
                assert(r[r.len() - 1] == y);
            } else {
                assert(d[j] == y);
                assert(d.contains(y));
                assert(p.contains(y));
                let m = choose|m: int| 0 <= m < p.len() && p[m] == y;
                assert(r[m] == y);
            }
        }
    } else {
        assert(r == s.push(x));
        assert forall|i: int, j: int| 0 <= i < j < r.len() implies !match_lt(#[trigger] r[j], #[trigger] r[i]) by {
            if j < s.len() {
                assert(r[i] == s[i] && r[j] == s[j]);
            } else {
                assert(r[j] == x && r[i] == s[i]);
                if i < s.len() - 1 {
                    assert(!match_lt(s[s.len() - 1], s[i]));
                    lemma_match_lt_strict(x, s[s.len() - 1], s[i]);
                }
            }
        }
        assert(r[s.len() as int] == x);
        assert forall|y: MatchView| s.contains(y) implies r.contains(y) by {
            let j = choose|j: int| 0 <= j < s.len() && s[j] == y;
            assert(r[j] == y);
        }
    }
}

proof fn lemma_ins_members(s: Seq<MatchView>, x: MatchView, y: MatchView)
    requires
        ins(s, x).contains(y),
    ensures
        y == x || s.contains(y),
    decreases s.len(),
{
    let r = ins(s, x);
    let k = choose|k: int| 0 <= k < r.len() && r[k] == y;
    if s.len() == 0 {
        assert(r =~= seq![x]);
    } else if match_lt(x, s.last()) {
        let d = s.drop_last();
        let p = ins(d, x);
        assert(r == p.push(s.last()));
        if k < p.len() {
            assert(p[k] == y);
            assert(p.contains(y));
            lemma_ins_members(d, x, y);
            if y != x {
                let j = choose|j: int| 0 <= j < d.len() && d[j] == y;
                assert(s[j] == y);
            }
        } else {
            assert(s[s.len() - 1] == y);
        }
    } else {
        assert(r == s.push(x));
        if k < s.len() {
            assert(s[k] == y);
        }
    }
}

proof fn lemma_isort_sorted(v: Seq<MatchView>)
    ensures
        match_sorted(isort(v)),
        forall|y: MatchView| v.contains(y) ==> isort(v).contains(y),
    decreases v.len(),
{
    if v.len() > 0 {
        let d = v.drop_last();
        lemma_isort_sorted(d);
        lemma_ins_sorted(isort(d), v.last());
        assert forall|y: MatchView| v.contains(y) implies isort(v).contains(y) by {
            let j = choose|j: int| 0 <= j < v.len() && v[j] == y;
            if j < v.len() - 1 {
                assert(d[j] == y);
                assert(d.contains(y));
                assert(isort(d).contains(y));
            }
            assert(isort(v) == ins(isort(d), v.last()));
        }
    }
}

/// The domain selected for a path is the most specific of those that claim it: every
/// domain whose include matches the path is among the path's matches, and none has a
/// longer static prefix than the selected one, nor, with an equally long prefix, fewer
/// wildcards.
pub proof fn law_selected_domain_most_specific(path: Seq<char>, e: Seq<(Seq<char>, Seq<char>, OwnershipDomainView)>)
    ensures
        path_analysis(path, e) matches Some(pa) ==> {
            &&& forall|m: MatchView| unsorted_matches(path, e).contains(m) ==> pa.matches.contains(m)
            &&& pa.matches.contains(pa.selected)
            &&& forall|k: int| 0 <= k < pa.matches.len() ==> {
                let m = #[trigger] pa.matches[k];
                &&& m.static_prefix_len <= pa.selected.static_prefix_len
                &&& m.static_prefix_len == pa.selected.static_prefix_len ==> pa.selected.wildcard_count
                    <= m.wildcard_count
            }
        },
{
    let ms = isort(unsorted_matches(path, e));
    lemma_isort_sorted(unsorted_matches(path, e));
    if ms.len() > 0 {
        assert(ms.contains(ms[0]));
        assert forall|k: int| 0 <= k < ms.len() implies {
            let m = #[trigger] ms[k];
            &&& m.static_prefix_len <= ms[0].static_prefix_len
            &&& m.static_prefix_len == ms[0].static_prefix_len ==> ms[0].wildcard_count <= m.wildcard_count
        } by {
            if k > 0 {
                assert(!match_lt(ms[k], ms[0]));
            } else {
                lemma_match_lt_strict(ms[0], ms[0], ms[0]);
            }
        }
    }
}

} // verus!
