//! Validation problems: their order, sorting, and the duplicate-key problems that
//! several validators report.
use vstd::prelude::*;
use vstd::multiset::Multiset;
use crate::config::model::{ConfigValidationProblem, ProblemView, opt_view, problem_views};
use crate::text::{
    chars_eq, chars_lt, chars_of, join, join_strings, lemma_seq_lt_irreflexive,
    lemma_seq_lt_transitive, lemma_seq_lt_trichotomy, seq_lt, str_to_string, views,
};

verus! {

/// The order of optional strings: `None` first, then by string.
pub open spec fn opt_lt(a: Option<Seq<char>>, b: Option<Seq<char>>) -> bool {
    match (a, b) {
        (None, Some(_)) => true,
        (Some(x), Some(y)) => seq_lt(x, y),
        _ => false,
    }
}

/// The order of validation problems: by source, then rule id, then message.
pub open spec fn problem_lt(a: ProblemView, b: ProblemView) -> bool {
    seq_lt(a.source, b.source) || (a.source == b.source && (opt_lt(a.rule_id, b.rule_id) || (a.rule_id
        == b.rule_id && seq_lt(a.message, b.message))))
}

/// Sorted by `problem_lt` (equal problems may repeat).
pub open spec fn problems_sorted(s: Seq<ProblemView>) -> bool {
    forall|i: int, j: int| 0 <= i < j < s.len() ==> !problem_lt(#[trigger] s[j], #[trigger] s[i])
}

/// `r` is `s` sorted: the same problems, in `problem_lt` order.
pub open spec fn is_sorted_problems_of(r: Seq<ProblemView>, s: Seq<ProblemView>) -> bool {
    problems_sorted(r) && r.to_multiset() == s.to_multiset()
}

pub proof fn lemma_opt_lt_transitive(a: Option<Seq<char>>, b: Option<Seq<char>>, c: Option<Seq<char>>)
    requires
        opt_lt(a, b),
        opt_lt(b, c),
    ensures
        opt_lt(a, c),
{
    match (a, b, c) {
        (Some(x), Some(y), Some(z)) => lemma_seq_lt_transitive(x, y, z),
        _ => {},
    }
}

/// `problem_lt` is transitive.
pub proof fn lemma_problem_lt_transitive(a: ProblemView, b: ProblemView, c: ProblemView)
    requires
        problem_lt(a, b),
        problem_lt(b, c),
    ensures
        problem_lt(a, c),
{
    if seq_lt(a.source, b.source) && seq_lt(b.source, c.source) {
        lemma_seq_lt_transitive(a.source, b.source, c.source);
    } else if a.source == b.source && b.source == c.source {
        if opt_lt(a.rule_id, b.rule_id) && opt_lt(b.rule_id, c.rule_id) {
            lemma_opt_lt_transitive(a.rule_id, b.rule_id, c.rule_id);
        } else if a.rule_id == b.rule_id && b.rule_id == c.rule_id {
            lemma_seq_lt_transitive(a.message, b.message, c.message);
        }
    }
}

/// `problem_lt` is irreflexive.
pub proof fn lemma_problem_lt_irreflexive(a: ProblemView)
    ensures
        !problem_lt(a, a),
{
    lemma_seq_lt_irreflexive(a.source);
    lemma_seq_lt_irreflexive(a.message);
    match a.rule_id {
        Some(x) => lemma_seq_lt_irreflexive(x),
        None => {},
    }
}

/// Decides `problem_lt(a@, b@)`.
pub fn problem_less(a: &ConfigValidationProblem, b: &ConfigValidationProblem) -> (r: bool)
    ensures
        r == problem_lt(a@, b@),
{
    let asrc = chars_of(a.source.as_str());
    let bsrc = chars_of(b.source.as_str());
    if chars_lt(&asrc, &bsrc) {
        return true;
    }
    if !chars_eq(&asrc, &bsrc) {
        return false;
    }
    let id_lt: bool;
    let id_eq: bool;
    match (&a.rule_id, &b.rule_id) {
        (None, Some(_)) => {
            id_lt = true;
            id_eq = false;
        },
        (Some(x), Some(y)) => {
            let xv = chars_of(x.as_str());
            let yv = chars_of(y.as_str());
            id_lt = chars_lt(&xv, &yv);
            id_eq = chars_eq(&xv, &yv);
        },
        (None, None) => {
            id_lt = false;
            id_eq = true;
        },
        (Some(_), None) => {
            id_lt = false;
            id_eq = false;
        },
    }
    if id_lt {
        return true;
    }
    if !id_eq {
        return false;
    }
    let am = chars_of(a.message.as_str());
    let bm = chars_of(b.message.as_str());
    chars_lt(&am, &bm)
}

proof fn lemma_multiset_insert<A>(s: Seq<A>, j: int, x: A)
    requires
        0 <= j <= s.len(),
    ensures
        s.insert(j, x).to_multiset() =~= s.to_multiset().insert(x),
{
    let t = s.insert(j, x);
    t.to_multiset_ensures();
    assert(t.remove(j) =~= s);
    assert(t.to_multiset().count(x) > 0) by {
        assert(t[j] == x);
        assert(t.contains(x));
    }
    assert(t.remove(j).to_multiset() =~= t.to_multiset().remove(x));
}

/// The problems of `v`, sorted by source, rule id and message.
pub fn sort_problems(v: Vec<ConfigValidationProblem>) -> (r: Vec<ConfigValidationProblem>)
    ensures
        is_sorted_problems_of(problem_views(r@), problem_views(v@)),
{
    broadcast use vstd::seq_lib::group_to_multiset_ensures;
    let mut src = v;
    let ghost orig = problem_views(src@);
    let mut r: Vec<ConfigValidationProblem> = Vec::new();
    proof {
        assert(problem_views(r@).to_multiset() =~= Multiset::<ProblemView>::empty());
    }
    while src.len() > 0
        invariant
            problems_sorted(problem_views(r@)),
            problem_views(r@).to_multiset().add(problem_views(src@).to_multiset()) == orig.to_multiset(),
        decreases src.len(),
    {
        let ghost before = src@;
        let x = src.pop().unwrap();
        proof {
            assert(before =~= src@.push(x));
            assert(problem_views(before) =~= problem_views(src@).push(x@));
        }
        let ghost rv = problem_views(r@);
        let mut j: usize = 0;
        let mut stop = false;
        while j < r.len() && !stop
            invariant
                j <= r.len(),
                rv == problem_views(r@),
                forall|k: int| 0 <= k < j ==> !problem_lt(x@, #[trigger] rv[k]),
                stop ==> j < r.len() && problem_lt(x@, rv[j as int]),
            decreases r.len() - j + (if stop { 0int } else { 1int }),
        {
            if problem_less(&x, &r[j]) {
                stop = true;
            } else {
                j += 1;
            }
        }
        let ghost jj = j as int;
        let ghost xv = x@;
        r.insert(j, x);
        proof {
            let nv = problem_views(r@);
            assert(nv =~= rv.insert(jj, xv));
            lemma_multiset_insert(rv, jj, xv);
            let ms = problem_views(src@).to_multiset();
            problem_views(src@).to_multiset_ensures();
            assert(problem_views(src@).push(xv).to_multiset() =~= ms.insert(xv));
            assert(problem_views(before) == problem_views(src@).push(xv));
            assert(problem_views(before).to_multiset() =~= ms.insert(xv));
            assert(nv.to_multiset().add(ms) =~= rv.to_multiset().add(ms.insert(xv)));
            assert forall|a: int, b: int| 0 <= a < b < nv.len() implies !problem_lt(
                #[trigger] nv[b],
                #[trigger] nv[a],
            ) by {
                if a == jj {
                    assert(nv[a] == xv);
                    assert(nv[b] == rv[b - 1]);
                    assert(problem_lt(xv, rv[jj]));
                    if problem_lt(rv[b - 1], xv) {
                        lemma_problem_lt_transitive(rv[b - 1], xv, rv[jj]);
                        if b - 1 == jj {
                            lemma_problem_lt_irreflexive(rv[jj]);
                        } else {
                            assert(!problem_lt(rv[b - 1], rv[jj]));
                        }
                    }
                } else if b == jj {
                    assert(nv[b] == xv);
                    assert(nv[a] == rv[a]);
                    assert(!problem_lt(xv, rv[a]));
                } else if a < jj && b > jj {
                    assert(!problem_lt(rv[b - 1], rv[a]));
                } else if a > jj {
                    assert(!problem_lt(rv[b - 1], rv[a - 1]));
                } else {
                    assert(!problem_lt(rv[b], rv[a]));
                }
            }
        }
    }
    proof {
        assert(problem_views(src@) =~= Seq::<ProblemView>::empty());
        assert(problem_views(src@).to_multiset() =~= Multiset::<ProblemView>::empty());
        assert(problem_views(r@).to_multiset() =~= problem_views(r@).to_multiset().add(
            problem_views(src@).to_multiset(),
        ));
    }
    r
}

/// A problem value.
pub open spec fn pview(source: Seq<char>, rule_id: Option<Seq<char>>, message: Seq<char>) -> ProblemView {
    ProblemView { source, rule_id, message }
}

/// The sources of the entries whose key is `key`, in order.
pub open spec fn key_sources(entries: Seq<(Seq<char>, Seq<char>)>, key: Seq<char>) -> Seq<Seq<char>>
    decreases entries.len(),
{
    if entries.len() == 0 {
        Seq::empty()
    } else {
        let prefix = key_sources(entries.drop_last(), key);
        if entries.last().0 == key {
            prefix.push(entries.last().1)
        } else {
            prefix
        }
    }
}

/// `s` without the elements equal to `x`, in order.
pub open spec fn without(s: Seq<Seq<char>>, x: Seq<char>) -> Seq<Seq<char>>
    decreases s.len(),
{
    if s.len() == 0 {
        Seq::empty()
    } else {
        let prefix = without(s.drop_last(), x);
        if s.last() == x {
            prefix
        } else {
            prefix.push(s.last())
        }
    }
}

/// The message tail naming the other sources of a duplicated key; with `fallback`, the
/// entry's own source when no other source differs from it.
pub open spec fn others_text(entries: Seq<(Seq<char>, Seq<char>)>, e: (Seq<char>, Seq<char>), fallback: bool) -> Seq<char> {
    let others = without(key_sources(entries, e.0), e.1);
    if fallback && others.len() == 0 {
        e.1
    } else {
        join(others, ", "@)
    }
}

/// The duplicate-key problems of the first `n` entries: one for each entry whose key
/// at least two entries share.
pub open spec fn dup_problems(
    entries: Seq<(Seq<char>, Seq<char>)>,
    n: int,
    pre: Seq<char>,
    mid: Seq<char>,
    with_rule_id: bool,
    fallback: bool,
) -> Seq<ProblemView>
    decreases n,
{
    if n <= 0 || n > entries.len() {
        Seq::empty()
    } else {
        let prefix = dup_problems(entries, n - 1, pre, mid, with_rule_id, fallback);
        let e = entries[n - 1];
        if key_sources(entries, e.0).len() >= 2 {
            prefix.push(
                pview(
                    e.1,
                    if with_rule_id { Some(e.0) } else { None },
                    pre + e.0 + mid + others_text(entries, e, fallback),
                ),
            )
        } else {
            prefix
        }
    }
}

/// The view of a list of key/source pairs.
pub open spec fn pair_views(v: Seq<(String, String)>) -> Seq<(Seq<char>, Seq<char>)> {
    v.map_values(|p: (String, String)| (p.0@, p.1@))
}

fn sources_for_key(entries: &Vec<(String, String)>, key: &String) -> (r: Vec<String>)
    ensures
        views(r@) == key_sources(pair_views(entries@), key@),
{
    let kv = chars_of(key.as_str());
    let ghost ev = pair_views(entries@);
    let mut r: Vec<String> = Vec::new();
    let mut i: usize = 0;
    while i < entries.len()
        invariant
            i <= entries.len(),
            kv@ == key@,
            ev == pair_views(entries@),
            views(r@) == key_sources(ev.take(i as int), key@),
        decreases entries.len() - i,
    {
        proof {
            assert(ev.take(i + 1).drop_last() =~= ev.take(i as int));
            assert(ev.take(i + 1).last() == ev[i as int]);
        }
        let ek = chars_of(entries[i].0.as_str());
        if chars_eq(&ek, &kv) {
            let ghost prev = r@;
            r.push(entries[i].1.clone());
            proof {
                assert(views(r@) =~= views(prev).push(ev[i as int].1));
            }
        }
        i += 1;
    }
    proof {
        assert(ev.take(entries.len() as int) =~= ev);
    }
    r
}

fn strings_without(v: &Vec<String>, x: &String) -> (r: Vec<String>)
    ensures
        views(r@) == without(views(v@), x@),
{
    let xv = chars_of(x.as_str());
    let ghost vv = views(v@);
    let mut r: Vec<String> = Vec::new();
    let mut i: usize = 0;
    while i < v.len()
        invariant
            i <= v.len(),
            xv@ == x@,
            vv == views(v@),
            views(r@) == without(vv.take(i as int), x@),
        decreases v.len() - i,
    {
        proof {
            assert(vv.take(i + 1).drop_last() =~= vv.take(i as int));
            assert(vv.take(i + 1).last() == vv[i as int]);
        }
        let cv = chars_of(v[i].as_str());
        if !chars_eq(&cv, &xv) {
            let ghost prev = r@;
            r.push(v[i].clone());
            proof {
                assert(views(r@) =~= views(prev).push(vv[i as int]));
            }
        }
        i += 1;
    }
    proof {
        assert(vv.take(v.len() as int) =~= vv);
    }
    r
}

/// One problem for each entry whose key other entries share: `pre key mid others`,
/// where `others` names the other sources of the key (or, with `fallback` and no
/// other source, the entry's own).
pub fn duplicate_problems(
    entries: &Vec<(String, String)>,
    pre: &str,
    mid: &str,
    with_rule_id: bool,
    fallback: bool,
) -> (r: Vec<ConfigValidationProblem>)
    ensures
        problem_views(r@) == dup_problems(pair_views(entries@), entries@.len() as int, pre@, mid@, with_rule_id, fallback),
{
    let ghost ev = pair_views(entries@);
    let mut r: Vec<ConfigValidationProblem> = Vec::new();
    let mut i: usize = 0;
    while i < entries.len()
        invariant
            i <= entries.len(),
            ev == pair_views(entries@),
            problem_views(r@) == dup_problems(ev, i as int, pre@, mid@, with_rule_id, fallback),
        decreases entries.len() - i,
    {
        let key = &entries[i].0;
        let src = &entries[i].1;
        let group = sources_for_key(entries, key);
        if group.len() >= 2 {
            let others = strings_without(&group, src);
            let tail: String;
            if fallback && others.len() == 0 {
                tail = src.clone();
            } else {
                tail = join_strings(&others, ", ");
            }
            let mut message = str_to_string(pre);
            message.append(key.as_str());
            message.append(mid);
            message.append(tail.as_str());
            let rule_id = if with_rule_id { Some(key.clone()) } else { None };
            let p = ConfigValidationProblem { source: src.clone(), rule_id, message };
            let ghost prev = r@;
            r.push(p);
            proof {
                assert(problem_views(r@) =~= problem_views(prev).push(r@.last()@));
                assert(r@.last()@ == pview(
                    ev[i as int].1,
                    if with_rule_id { Some(ev[i as int].0) } else { None },
                    pre@ + ev[i as int].0 + mid@ + others_text(ev, ev[i as int], fallback),
                ));
            }
        }
        i += 1;
    }
    r
}

} // verus!
