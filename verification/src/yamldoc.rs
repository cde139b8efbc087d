//! Review metadata of YAML documents, read through `yaml_serde`, and the metadata
//! problems of the governed documents a change touches.
use vstd::prelude::*;
use yaml_serde::Value;
use crate::metadata::{header_keys, markdown_metadata_keys, missing_keys, missing_markdown_metadata, review_metadata_keys};
use crate::reporters::{LintProblemView, Problem, lint_problem_views};
use crate::text::{cat2, cat3, chars_eq, chars_of, has_suffix, join, join_strings, str_ends_with, str_to_string, views};
use crate::check::contains_string;

verus! {

/// The top level of a parsed YAML document, as far as the metadata check reads it: the
/// keys of its mapping in document order, each `Some` of its text when it is a string
/// and `None` otherwise; `keys` is `None` when the document is not a mapping.
pub struct YamlTop {
    pub keys: Option<Vec<Option<String>>>,
}

impl View for YamlTop {
    type V = Option<Seq<Option<Seq<char>>>>;

    open spec fn view(&self) -> Option<Seq<Option<Seq<char>>>> {
        match self.keys {
            Some(k) => Some(opt_texts(k@)),
            None => None,
        }
    }
}

/// What `yaml_serde::from_str::<Value>` makes of `text`, read at the top level as
/// `YamlTop` describes it, or the text that `Display` writes for its error.
pub uninterp spec fn yaml_top(text: Seq<char>) -> Result<Option<Seq<Option<Seq<char>>>>, Seq<char>>;

/// The view of a parse result.
pub open spec fn yaml_top_view(r: Result<YamlTop, String>) -> Result<Option<Seq<Option<Seq<char>>>>, Seq<char>> {
    match r {
        Ok(t) => Ok(t@),
        Err(e) => Err(e@),
    }
}

/// Parses YAML text with `yaml_serde::from_str::<Value>` and reads its top level: the
/// keys of a mapping, each string key as its text and any other key as `None`; `None`
/// for any other value; the `Display` text of the error when it does not parse.
/// Claimed: the result is `yaml_top` of the text.
#[verifier::external_body]
fn parse_yaml_top(text: &str) -> (r: Result<YamlTop, String>)
    ensures
        yaml_top_view(r) == yaml_top(text@),
{
    match yaml_serde::from_str::<Value>(text) {
        Err(e) => Err(format!("{e}")),
        Ok(Value::Mapping(m)) => Ok(YamlTop {
            keys: Some(m.keys().map(|k| match k {
                Value::String(s) => Some(s.clone()),
                Value::Null | Value::Bool(_) | Value::Number(_) | Value::Sequence(_) | Value::Mapping(_) | Value::Tagged(_) => None,
            }).collect()),
        }),
        Ok(Value::Null | Value::Bool(_) | Value::Number(_) | Value::String(_) | Value::Sequence(_) | Value::Tagged(_)) => {
            Ok(YamlTop { keys: None })
        },
    }
}

/// The keys of `keys` that the top level `top` lacks: all of them when the document is
/// not a mapping, else those that are not among its string keys.
pub open spec fn absent_keys(keys: Seq<Seq<char>>, top: Option<Seq<Option<Seq<char>>>>) -> Seq<Seq<char>>
    decreases keys.len(),
{
    if keys.len() == 0 {
        Seq::empty()
    } else {
        let prefix = absent_keys(keys.drop_last(), top);
        match top {
            Some(ks) => if ks.contains(Some(keys.last())) {
                prefix
            } else {
                prefix.push(keys.last())
            },
            None => prefix.push(keys.last()),
        }
    }
}

/// The review keys that the top level `top` lacks, in declared order.
pub open spec fn absent_review_keys(top: Option<Seq<Option<Seq<char>>>>) -> Seq<Seq<char>> {
    absent_keys(review_metadata_keys(), top)
}

fn has_string_key(ks: &Vec<Option<String>>, key: &str) -> (b: bool)
    ensures
        b == opt_texts(ks@).contains(Some(key@)),
{
    let kv = chars_of(key);
    let ghost ov = opt_texts(ks@);
    let mut i: usize = 0;
    while i < ks.len()
        invariant
            i <= ks.len(),
            kv@ == key@,
            ov == opt_texts(ks@),
            forall|j: int| 0 <= j < i ==> ov[j] != Some(key@),
        decreases ks.len() - i,
    {
        match &ks[i] {
            Some(s) => {
                if chars_eq(&chars_of(s.as_str()), &kv) {
                    proof {
                        assert(ov[i as int] == Some(key@));
                    }
                    return true;
                }
            },
            None => {},
        }
        i += 1;
    }
    proof {
        if ov.contains(Some(key@)) {
            let j = choose|j: int| 0 <= j < ov.len() && ov[j] == Some(key@);
            assert(false);
        }
    }
    false
}

fn review_keys() -> (r: Vec<String>)
    ensures
        views(r@) == review_metadata_keys(),
{
    let mut r: Vec<String> = Vec::new();
    r.push(str_to_string("lastReviewedAt"));
    r.push(str_to_string("lastReviewedCommit"));
    proof {
        assert(views(r@) =~= review_metadata_keys());
    }
    r
}

/// The review keys a YAML document lacks at its top level (all of them when it is not a
/// mapping), in declared order.
pub fn missing_yaml_review_metadata_from_value(top: &YamlTop) -> (r: Vec<String>)
    ensures
        views(r@) == absent_review_keys(top@),
{
    let keys = review_keys();
    let ghost kv = views(keys@);
    let mut r: Vec<String> = Vec::new();
    let mut i: usize = 0;
    while i < keys.len()
        invariant
            i <= keys.len(),
            kv == views(keys@),
            kv == review_metadata_keys(),
            views(r@) == absent_keys(kv.take(i as int), top@),
        decreases keys.len() - i,
    {
        proof {
            assert(kv.take(i + 1).drop_last() =~= kv.take(i as int));
            assert(kv.take(i + 1).last() == keys@[i as int]@);
        }
        let present = match &top.keys {
            Some(ks) => has_string_key(ks, keys[i].as_str()),
            None => false,
        };
        if !present {
            let ghost prev = views(r@);
            r.push(keys[i].clone());
            proof {
                assert(views(r@) =~= prev.push(keys@[i as int]@));
            }
        }
        i += 1;
    }
    proof {
        assert(kv.take(keys.len() as int) =~= kv);
    }
    r
}

/// The message of a document that is not valid YAML.
pub open spec fn invalid_yaml_message(label: Seq<char>, detail: Seq<char>) -> Seq<char> {
    label + " is not valid YAML for docpact. "@ + detail
}

/// The review keys a YAML document lacks at its top level, as
/// `missing_yaml_review_metadata_from_value` gives them for its parse; an error naming
/// `source_label` when it does not parse.
pub fn missing_yaml_metadata(text: &str, source_label: &str) -> (r: Result<Vec<String>, String>)
    ensures
        match yaml_top(text@) {
            Ok(keys) => r matches Ok(v) && views(v@) == absent_review_keys(keys),
            Err(d) => r matches Err(m) && m@ == invalid_yaml_message(source_label@, d),
        },
{
    match parse_yaml_top(text) {
        Ok(top) => Ok(missing_yaml_review_metadata_from_value(&top)),
        Err(detail) => Err(cat3(source_label, " is not valid YAML for docpact. ", detail.as_str())),
    }
}

/// What became of one touched governed YAML document: the keys it lacks, or the error
/// message of a document that does not parse.
pub type YamlOutcome = Result<Seq<Seq<char>>, Seq<char>>;

/// The problem of a Markdown document that lacks metadata keys, if it lacks any.
pub open spec fn markdown_problem(path: Seq<char>, text: Seq<char>) -> Seq<LintProblemView> {
    let missing = missing_keys(markdown_metadata_keys(), header_keys(text));
    if missing.len() == 0 {
        Seq::empty()
    } else {
        seq![
            LintProblemView {
                problem_type: "missing-metadata"@,
                path,
                message: "Touched required doc is missing Markdown metadata keys: "@ + join(missing, ", "@),
            },
        ]
    }
}

/// A YAML document path.
pub open spec fn is_yaml_path(p: Seq<char>) -> bool {
    has_suffix(p, ".yaml"@) || has_suffix(p, ".yml"@)
}

/// The problem of a YAML document that lacks review keys, if it lacks any.
pub open spec fn yaml_problem(path: Seq<char>, missing: Seq<Seq<char>>) -> Seq<LintProblemView> {
    if missing.len() == 0 {
        Seq::empty()
    } else {
        seq![
            LintProblemView {
                problem_type: "missing-metadata"@,
                path,
                message: "Touched required doc is missing YAML metadata keys: "@ + join(missing, ", "@),
            },
        ]
    }
}

/// The text read for the `k`-th changed path, if any.
pub open spec fn text_at(contents: Seq<Option<Seq<char>>>, k: int) -> Option<Seq<char>> {
    if 0 <= k < contents.len() {
        contents[k]
    } else {
        None
    }
}

/// The YAML outcome recorded for the `k`-th changed path, if any.
pub open spec fn outcome_at(yaml: Seq<YamlOutcome>, k: int) -> Option<YamlOutcome> {
    if 0 <= k < yaml.len() {
        Some(yaml[k])
    } else {
        None
    }
}

/// One step of the document check: the problems found so far, `prefix`, followed by
/// those of the changed path `p` with text `text` and YAML outcome `outcome`.
pub open spec fn doc_step(
    prefix: Seq<LintProblemView>,
    p: Seq<char>,
    governed: Seq<Seq<char>>,
    text: Option<Seq<char>>,
    outcome: Option<YamlOutcome>,
) -> Result<Seq<LintProblemView>, Seq<char>> {
    if !governed.contains(p) || text is None {
        Ok(prefix)
    } else if has_suffix(p, ".md"@) {
        Ok(prefix + markdown_problem(p, text->0))
    } else if is_yaml_path(p) && outcome is Some {
        match outcome->0 {
            Err(e) => Err(e),
            Ok(missing) => Ok(prefix + yaml_problem(p, missing)),
        }
    } else {
        Ok(prefix)
    }
}

/// The metadata problems of the first `n` changed paths: each governed path whose
/// contents were read is checked, Markdown by its frontmatter and YAML by the outcome
/// `yaml[i]` of its top-level keys; the first YAML error ends the check.
pub open spec fn doc_problems(
    changed: Seq<Seq<char>>,
    governed: Seq<Seq<char>>,
    contents: Seq<Option<Seq<char>>>,
    yaml: Seq<YamlOutcome>,
    n: int,
) -> Result<Seq<LintProblemView>, Seq<char>>
    decreases n,
{
    if n <= 0 || n > changed.len() {
        Ok(Seq::empty())
    } else {
        match doc_problems(changed, governed, contents, yaml, n - 1) {
            Err(e) => Err(e),
            Ok(prefix) => doc_step(prefix, changed[n - 1], governed, text_at(contents, n - 1), outcome_at(yaml, n - 1)),
        }
    }
}

/// The views of a list of optional texts.
pub open spec fn opt_texts(v: Seq<Option<String>>) -> Seq<Option<Seq<char>>> {
    v.map_values(|o: Option<String>| match o {
        Some(s) => Some(s@),
        None => None,
    })
}

/// What the metadata check makes of the YAML document `label` with text `text`.
pub open spec fn yaml_outcome(label: Seq<char>, text: Seq<char>) -> YamlOutcome {
    match yaml_top(text) {
        Ok(keys) => Ok(absent_review_keys(keys)),
        Err(d) => Err(invalid_yaml_message(label, d)),
    }
}

/// The YAML outcome of each changed path whose text was read.
pub open spec fn yaml_outcomes_of(changed: Seq<Seq<char>>, contents: Seq<Option<Seq<char>>>) -> Seq<YamlOutcome> {
    Seq::new(
        changed.len(),
        |i: int| match text_at(contents, i) {
            Some(t) => yaml_outcome(changed[i], t),
            None => Ok(Seq::empty()),
        },
    )
}

/// The view of a problem list or error.
pub open spec fn problems_result(r: Result<Vec<Problem>, String>) -> Result<Seq<LintProblemView>, Seq<char>> {
    match r {
        Ok(v) => Ok(lint_problem_views(v@)),
        Err(m) => Err(m@),
    }
}

/// The metadata problems of the governed documents a change touches, given the text of
/// each changed path that exists and was read (`contents[i]` for `changed_paths[i]`):
/// Markdown documents must declare every governed frontmatter key, YAML documents the
/// review keys at their top level; the first YAML document that does not parse ends the
/// check with its error.
pub fn build_doc_problems(
    changed_paths: &[String],
    governed_required_docs: &Vec<String>,
    contents: &Vec<Option<String>>,
) -> (r: Result<Vec<Problem>, String>)
    ensures
        doc_problems(
            views(changed_paths@),
            views(governed_required_docs@),
            opt_texts(contents@),
            yaml_outcomes_of(views(changed_paths@), opt_texts(contents@)),
            changed_paths@.len() as int,
        ) == problems_result(r),
{
    let ghost cv = views(changed_paths@);
    let ghost gv = views(governed_required_docs@);
    let ghost tv = opt_texts(contents@);
    let ghost yaml = yaml_outcomes_of(cv, tv);
    let mut problems: Vec<Problem> = Vec::new();
    proof {
        assert(lint_problem_views(problems@) =~= Seq::<LintProblemView>::empty());
    }
    let mut i: usize = 0;
    while i < changed_paths.len()
        invariant
            i <= changed_paths.len(),
            cv == views(changed_paths@),
            gv == views(governed_required_docs@),
            tv == opt_texts(contents@),
            yaml == yaml_outcomes_of(cv, tv),
            doc_problems(cv, gv, tv, yaml, i as int) == Ok::<Seq<LintProblemView>, Seq<char>>(lint_problem_views(problems@)),
        decreases changed_paths.len() - i,
    {
        let path = &changed_paths[i];
        let governed = contains_string(governed_required_docs.as_slice(), path.as_str());
        let text: Option<&String> = if i < contents.len() {
            contents[i].as_ref()
        } else {
            None
        };
        proof {
            assert(cv[i as int] == path@);
            if i < contents.len() {
                assert(tv[i as int] == match contents@[i as int] {
                    Some(s) => Some(s@),
                    None => None,
                });
            }
        }
        let ghost before = lint_problem_views(problems@);
        let ghost text_v: Option<Seq<char>> = text_at(tv, i as int);
        let ghost out: Option<YamlOutcome> = outcome_at(yaml, i as int);
        proof {
            assert(text_v == match text {
                Some(s) => Some(s@),
                None => None::<Seq<char>>,
            });
            assert(out == Some(yaml[i as int]));
        }
        let mut failed: Option<String> = None;
        if governed && text.is_some() {
            let t = text.unwrap();
            proof {
                assert(yaml[i as int] == yaml_outcome(cv[i as int], t@));
            }
            if str_ends_with(path.as_str(), ".md") {
                let missing = missing_markdown_metadata(t.as_str());
                if missing.len() > 0 {
                    let joined = join_strings(&missing, ", ");
                    let message = cat2("Touched required doc is missing Markdown metadata keys: ", joined.as_str());
                    problems.push(Problem::missing_metadata(path.clone(), message));
                    proof {
                        assert(lint_problem_views(problems@) =~= before + markdown_problem(cv[i as int], t@));
                    }
                } else {
                    proof {
                        assert(before + markdown_problem(cv[i as int], t@) =~= before);
                    }
                }
            } else if str_ends_with(path.as_str(), ".yaml") || str_ends_with(path.as_str(), ".yml") {
                match missing_yaml_metadata(t.as_str(), path.as_str()) {
                    Ok(missing) => {
                        if missing.len() > 0 {
                            let joined = join_strings(&missing, ", ");
                            let message = cat2("Touched required doc is missing YAML metadata keys: ", joined.as_str());
                            problems.push(Problem::missing_metadata(path.clone(), message));
                            proof {
                                assert(lint_problem_views(problems@) =~= before + yaml_problem(cv[i as int], views(missing@)));
                            }
                        } else {
                            proof {
                                assert(before + yaml_problem(cv[i as int], views(missing@)) =~= before);
                            }
                        }
                        proof {
                            assert(is_yaml_path(cv[i as int]));
                        }
                    },
                    Err(m) => {
                        proof {
                            assert(is_yaml_path(cv[i as int]));
                        }
                        failed = Some(m);
                    },
                }
            } else {
                proof {
                    assert(!is_yaml_path(cv[i as int]));
                }
            }
        } else {
            proof {
                assert(!gv.contains(cv[i as int]) || text_v is None);
            }
        }
        let ghost step = doc_step(before, cv[i as int], gv, text_v, out);
        proof {
            assert(match failed {
                None => step == Ok::<Seq<LintProblemView>, Seq<char>>(lint_problem_views(problems@)),
                Some(m) => step == Err::<Seq<LintProblemView>, Seq<char>>(m@),
            });
            assert(doc_problems(cv, gv, tv, yaml, i + 1) == step);
        }
        match failed {
            Some(m) => {
                proof {
                    lemma_doc_problems_err(cv, gv, tv, yaml, i as int + 1, changed_paths.len() as int);
                }
                return Err(m);
            },
            None => {},
        }
        i += 1;
    }
    Ok(problems)
}

proof fn lemma_doc_problems_err(
    changed: Seq<Seq<char>>,
    governed: Seq<Seq<char>>,
    contents: Seq<Option<Seq<char>>>,
    yaml: Seq<YamlOutcome>,
    k: int,
    n: int,
)
    requires
        0 < k <= n <= changed.len(),
        doc_problems(changed, governed, contents, yaml, k) is Err,
    ensures
        doc_problems(changed, governed, contents, yaml, n) == doc_problems(changed, governed, contents, yaml, k),
    decreases n - k,
{
    if n > k {
        lemma_doc_problems_err(changed, governed, contents, yaml, k, n - 1);
    }
}

proof fn lemma_missing_keys_empty(required: Seq<Seq<char>>, present: Seq<Seq<char>>)
    ensures
        (missing_keys(required, present).len() == 0) <==> (forall|i: int| 0 <= i < required.len() ==> present.contains(
            #[trigger] required[i],
        )),
        forall|i: int| 0 <= i < missing_keys(required, present).len() ==> !present.contains(
            #[trigger] missing_keys(required, present)[i],
        ),
    decreases required.len(),
{
    if required.len() > 0 {
        let d = required.drop_last();
        lemma_missing_keys_empty(d, present);
        assert(required.last() == required[required.len() - 1]);
        if missing_keys(required, present).len() == 0 {
            assert forall|i: int| 0 <= i < required.len() implies present.contains(#[trigger] required[i]) by {
                if i < d.len() {
                    assert(d[i] == required[i]);
                }
            }
        }
        if forall|i: int| 0 <= i < required.len() ==> present.contains(#[trigger] required[i]) {
            assert forall|i: int| 0 <= i < d.len() implies present.contains(#[trigger] d[i]) by {
                assert(d[i] == required[i]);
            }
        }
    }
}

/// The frontmatter keys every governed Markdown document must declare.
proof fn lemma_markdown_keys_listed()
    ensures
        markdown_metadata_keys() == seq![
            "docType"@,
            "scope"@,
            "status"@,
            "authoritative"@,
            "owner"@,
            "language"@,
            "whenToUse"@,
            "whenToUpdate"@,
            "checkPaths"@,
            "lastReviewedAt"@,
            "lastReviewedCommit"@,
        ],
{
}

/// A touched governed Markdown document is checked against all eleven governed
/// frontmatter keys — `docType`, `scope`, `status`, `authoritative`, `owner`,
/// `language`, `whenToUse`, `whenToUpdate`, `checkPaths`, `lastReviewedAt`,
/// `lastReviewedCommit` — not only the review keys: it gets no problem exactly when its
/// frontmatter declares every one of them, and otherwise one missing-metadata problem
/// that names, in that order, exactly the keys it lacks.
pub proof fn law_markdown_docs_need_all_governed_keys(p: Seq<char>, text: Seq<char>, yaml: Seq<YamlOutcome>)
    requires
        has_suffix(p, ".md"@),
    ensures
        ({
            let keys = seq![
                "docType"@,
                "scope"@,
                "status"@,
                "authoritative"@,
                "owner"@,
                "language"@,
                "whenToUse"@,
                "whenToUpdate"@,
                "checkPaths"@,
                "lastReviewedAt"@,
                "lastReviewedCommit"@,
            ];
            let r = doc_problems(seq![p], seq![p], seq![Some(text)], yaml, 1);
            let missing = missing_keys(keys, header_keys(text));
            &&& r is Ok
            &&& (r->Ok_0.len() == 0) <==> (forall|i: int| 0 <= i < keys.len() ==> header_keys(text).contains(#[trigger] keys[i]))
            &&& r->Ok_0.len() <= 1
            &&& r->Ok_0.len() == 1 ==> {
                &&& r->Ok_0[0].problem_type == "missing-metadata"@
                &&& r->Ok_0[0].path == p
                &&& r->Ok_0[0].message == "Touched required doc is missing Markdown metadata keys: "@ + join(missing, ", "@)
                &&& missing.len() > 0
                &&& forall|i: int| 0 <= i < missing.len() ==> !header_keys(text).contains(#[trigger] missing[i])
            }
        }),
{
    lemma_markdown_keys_listed();
    let keys = markdown_metadata_keys();
    lemma_missing_keys_empty(keys, header_keys(text));
    assert(seq![p].contains(p)) by {
        assert(seq![p][0] == p);
    }
    assert(text_at(seq![Some(text)], 0) == Some(text));
    assert(doc_problems(seq![p], seq![p], seq![Some(text)], yaml, 0) == Ok::<Seq<LintProblemView>, Seq<char>>(Seq::empty()));
    let r = doc_problems(seq![p], seq![p], seq![Some(text)], yaml, 1);
    assert(r == Ok::<Seq<LintProblemView>, Seq<char>>(Seq::<LintProblemView>::empty() + markdown_problem(p, text)));
    assert(Seq::<LintProblemView>::empty() + markdown_problem(p, text) =~= markdown_problem(p, text));
}

} // verus!
