//! The lint check: which expected documents a change left untouched.
use vstd::prelude::*;
use crate::config::model::LoadedRule;
use crate::reporters::{LintProblemView, Problem, lint_problem_views};
use crate::rules::{
    ExpectedDoc, ExpectedDocView, MatchedRule, all_matches, collect_expected_docs, expected_entries,
    expected_views, groups_entries, match_rules, matched_views,
};
use crate::text::{chars_eq, chars_of, join, join_strings, str_to_string, views};
use crate::config::model::loaded_views;

verus! {

/// The outcome of one lint check.
#[derive(Debug)]
pub struct CheckRun {
    pub problems: Vec<Problem>,
    pub changed_paths: Vec<String>,
    pub matched_rules: Vec<MatchedRule>,
}

/// Joins an already sorted set of strings with `, `.
pub fn join_sorted(values: &Vec<String>) -> (s: String)
    ensures
        s@ == join(views(values@), ", "@),
{
    join_strings(values, ", ")
}

/// The message of a missing-review problem for an expected doc.
pub open spec fn missing_review_message(d: ExpectedDocView) -> Seq<char> {
    "Expected reviewed doc was not touched. Triggered by "@ + join(d.changed_paths, ", "@)
        + " via rule(s): "@ + join(d.rules, ", "@)
}

/// One missing-review problem for each expected doc, in order, that no changed path names.
pub open spec fn missing_doc_problems(changed: Seq<Seq<char>>, docs: Seq<ExpectedDocView>) -> Seq<
    LintProblemView,
>
    decreases docs.len(),
{
    if docs.len() == 0 {
        Seq::empty()
    } else {
        let prefix = missing_doc_problems(changed, docs.drop_last());
        let d = docs.last();
        if changed.contains(d.path) {
            prefix
        } else {
            prefix.push(
                LintProblemView {
                    problem_type: "missing-review"@,
                    path: d.path,
                    message: missing_review_message(d),
                },
            )
        }
    }
}

/// Whether `path` is one of `paths`.
pub fn contains_string(paths: &[String], path: &str) -> (b: bool)
    ensures
        b == views(paths@).contains(path@),
{
    let pv = chars_of(path);
    let mut i: usize = 0;
    while i < paths.len()
        invariant
            i <= paths.len(),
            pv@ == path@,
            forall|k: int| 0 <= k < i ==> paths@[k]@ != path@,
        decreases paths.len() - i,
    {
        let cv = chars_of(paths[i].as_str());
        if chars_eq(&cv, &pv) {
            proof {
                assert(views(paths@)[i as int] == path@);
            }
            return true;
        }
        i += 1;
    }
    proof {
        if views(paths@).contains(path@) {
            let k = choose|k: int| 0 <= k < views(paths@).len() && views(paths@)[k] == path@;
            assert(paths@[k]@ == path@);
        }
    }
    false
}

/// A missing-review problem for every expected doc that the change did not touch.
pub fn build_missing_doc_problems(changed_paths: &[String], expected_docs: &[ExpectedDoc]) -> (r: Vec<
    Problem,
>)
    ensures
        lint_problem_views(r@) == missing_doc_problems(views(changed_paths@), expected_views(expected_docs@)),
{
    let ghost docs = expected_views(expected_docs@);
    let mut r: Vec<Problem> = Vec::new();
    let mut i: usize = 0;
    while i < expected_docs.len()
        invariant
            i <= expected_docs.len(),
            docs == expected_views(expected_docs@),
            lint_problem_views(r@) == missing_doc_problems(views(changed_paths@), docs.take(i as int)),
        decreases expected_docs.len() - i,
    {
        let entry = &expected_docs[i];
        proof {
            assert(docs.take(i + 1).drop_last() =~= docs.take(i as int));
            assert(docs.take(i + 1).last() == entry@);
        }
        if !contains_string(changed_paths, entry.path.as_str()) {
            let mut message = str_to_string("Expected reviewed doc was not touched. Triggered by ");
            let changed = join_sorted(&entry.changed_paths);
            message.append(changed.as_str());
            message.append(" via rule(s): ");
            let rules = join_sorted(&entry.rules);
            message.append(rules.as_str());
            let p = Problem::missing_review(entry.path.clone(), message);
            let ghost prev = r@;
            r.push(p);
            proof {
                assert(lint_problem_views(r@) =~= lint_problem_views(prev).push(r@.last()@));
            }
        }
        i += 1;
    }
    proof {
        assert(docs.take(expected_docs.len() as int) =~= docs);
    }
    r
}

/// Evaluates a change against the loaded rules: the matched rules, the expected docs
/// they require, and a missing-review problem for each expected doc left untouched.
/// Metadata problems of touched docs need the files and are added by the caller.
pub fn evaluate_change(changed_paths: &[String], loaded_rules: &[LoadedRule]) -> (r: (CheckRun, Vec<ExpectedDoc>))
    ensures
        matched_views(r.0.matched_rules@) == all_matches(views(changed_paths@), loaded_views(loaded_rules@)),
        groups_entries(expected_views(r.1@), expected_entries(matched_views(r.0.matched_rules@))),
        lint_problem_views(r.0.problems@) == missing_doc_problems(views(changed_paths@), expected_views(r.1@)),
        views(r.0.changed_paths@) == views(changed_paths@),
{
    let matched_rules = match_rules(changed_paths, loaded_rules);
    let expected = collect_expected_docs(matched_rules.as_slice());
    let problems = build_missing_doc_problems(changed_paths, expected.as_slice());
    let run = CheckRun {
        problems,
        changed_paths: crate::reporters::copy_string_slice(changed_paths),
        matched_rules,
    };
    (run, expected)
}

/// A change is reported for exactly the expected documents it leaves untouched: every
/// missing-review problem names an expected document outside the changed paths, and
/// every expected document outside the changed paths has one.
pub proof fn law_untouched_docs_exactly_reported(changed: Seq<Seq<char>>, docs: Seq<ExpectedDocView>)
    ensures
        forall|i: int|
            0 <= i < missing_doc_problems(changed, docs).len() ==> !changed.contains(
                (#[trigger] missing_doc_problems(changed, docs)[i]).path,
            ),
        forall|i: int|
            0 <= i < missing_doc_problems(changed, docs).len() ==> (#[trigger] missing_doc_problems(changed, docs)[i]).problem_type
                == "missing-review"@,
        forall|j: int|
            0 <= j < docs.len() && !changed.contains(#[trigger] docs[j].path) ==> exists|i: int|
                0 <= i < missing_doc_problems(changed, docs).len() && (#[trigger] missing_doc_problems(changed, docs)[i]).path
                    == docs[j].path,
    decreases docs.len(),
{
    if docs.len() > 0 {
        let prefix = missing_doc_problems(changed, docs.drop_last());
        law_untouched_docs_exactly_reported(changed, docs.drop_last());
        let all = missing_doc_problems(changed, docs);
        assert forall|i: int| 0 <= i < all.len() implies !changed.contains(all[i].path) && all[i].problem_type
            == "missing-review"@ by {
            if i < prefix.len() {
                assert(all[i] == prefix[i]);
            }
        }
        assert forall|j: int| 0 <= j < docs.len() && !changed.contains(#[trigger] docs[j].path) implies exists|i: int|
            0 <= i < all.len() && (#[trigger] all[i]).path == docs[j].path by {
            if j < docs.len() - 1 {
                assert(docs.drop_last()[j] == docs[j]);
                let i = choose|i: int| 0 <= i < prefix.len() && (#[trigger] prefix[i]).path == docs.drop_last()[j].path;
                assert(all[i] == prefix[i]);
            } else {
                assert(all[prefix.len() as int].path == docs[j].path);
            }
        }
    }
}

} // verus!
