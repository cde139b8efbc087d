//! Advisory routing: the documents that the rules triggered by a set of input paths,
//! or by the tracked paths their globs select, recommend.
use vstd::prelude::*;
use crate::config::model::{LoadedRule, LoadedRuleView, RequiredDocView, TriggerView, loaded_views};
use crate::config::paths::{normalize_path, normalized, resolve_rule_path, resolved_rule_path};
use crate::reporters::{TOOL_NAME, TOOL_VERSION};
use crate::rules::{RequiredDocMode, glob_matches, matches_pattern, mode_from, mode_name, mode_of_field};
use crate::text::{
    cat3, chars_contain_char, chars_of, decimal, decimal_string, is_sorted_set_of, join, join_strings,
    lemma_sorted_set_is, sorted_set, sorted_unique_strings, split_chars, split_on, str_to_string,
    string_of, trim, trim_string, views, nonempty_values, seq_lt,
};

verus! {

/// The schema version of route reports.
pub const ROUTE_SCHEMA_VERSION: &'static str = "docpact.route.v1";

/// The route report.
#[derive(Debug)]
pub struct RouteReport {
    pub schema_version: String,
    pub tool_name: String,
    pub tool_version: String,
    pub summary: RouteSummary,
    pub recommended_docs: Vec<RouteRecommendation>,
}

/// The counts of a route report.
#[derive(Debug)]
pub struct RouteSummary {
    pub input_path_count: usize,
    pub matched_rule_count: usize,
    pub recommended_doc_count: usize,
}

/// A recommended document and what led to it.
#[derive(Debug)]
pub struct RouteRecommendation {
    pub path: String,
    pub rule_ids: Vec<String>,
    pub matched_input_paths: Vec<String>,
    pub matched_trigger_paths: Vec<String>,
    pub modes: Vec<String>,
}

/// An input path with the paths it stands for: itself, or the tracked paths its
/// glob matches.
#[derive(Debug)]
pub struct ResolvedInput {
    pub original: String,
    pub candidates: Vec<String>,
}

/// The view of a resolved input.
pub struct ResolvedInputView {
    pub original: Seq<char>,
    pub candidates: Seq<Seq<char>>,
}

impl View for ResolvedInput {
    type V = ResolvedInputView;

    open spec fn view(&self) -> ResolvedInputView {
        ResolvedInputView { original: self.original@, candidates: views(self.candidates@) }
    }
}

/// The views of a list of resolved inputs.
pub open spec fn resolved_views(v: Seq<ResolvedInput>) -> Seq<ResolvedInputView> {
    v.map_values(|r: ResolvedInput| r@)
}

/// The view of a recommendation.
pub struct RecommendationView {
    pub path: Seq<char>,
    pub rule_ids: Seq<Seq<char>>,
    pub matched_input_paths: Seq<Seq<char>>,
    pub matched_trigger_paths: Seq<Seq<char>>,
    pub modes: Seq<Seq<char>>,
}

impl View for RouteRecommendation {
    type V = RecommendationView;

    open spec fn view(&self) -> RecommendationView {
        RecommendationView {
            path: self.path@,
            rule_ids: views(self.rule_ids@),
            matched_input_paths: views(self.matched_input_paths@),
            matched_trigger_paths: views(self.matched_trigger_paths@),
            modes: views(self.modes@),
        }
    }
}

/// The views of a list of recommendations.
pub open spec fn recommendation_views(v: Seq<RouteRecommendation>) -> Seq<RecommendationView> {
    v.map_values(|r: RouteRecommendation| r@)
}

/// The input paths a comma-separated list names: each piece trimmed and normalized,
/// the empty ones dropped.
pub open spec fn input_values(paths: Seq<char>) -> Seq<Seq<char>> {
    nonempty_values(split_on(paths, ',').map_values(|v: Seq<char>| normalized(trim(v))))
}

/// The message when no input path is given.
pub open spec fn no_input_message() -> Seq<char> {
    "Pass at least one non-empty path through --paths."@
}

/// The input paths of a comma-separated list, sorted and without duplicates; an error
/// when it names none.
pub fn parse_input_paths(paths: &str) -> (r: Result<Vec<String>, String>)
    ensures
        match r {
            Ok(v) => v@.len() > 0 && is_sorted_set_of(views(v@), input_values(paths@)),
            Err(m) => m@ == no_input_message() && input_values(paths@).len() == 0,
        },
{
    let pieces = split_chars(&chars_of(paths), ',');
    let ghost normalized_pieces = split_on(paths@, ',').map_values(|v: Seq<char>| normalized(trim(v)));
    let mut values: Vec<String> = Vec::new();
    let mut i: usize = 0;
    while i < pieces.len()
        invariant
            i <= pieces.len(),
            pieces@.map_values(|x: Vec<char>| x@) == split_on(paths@, ','),
            normalized_pieces == split_on(paths@, ',').map_values(|v: Seq<char>| normalized(trim(v))),
            views(values@) == nonempty_values(normalized_pieces.take(i as int)),
        decreases pieces.len() - i,
    {
        let piece = string_of(&pieces[i]);
        let trimmed = trim_string(piece.as_str());
        let value = normalize_path(trimmed.as_str());
        proof {
            assert(normalized_pieces[i as int] == value@);
            assert(normalized_pieces.take(i + 1).drop_last() =~= normalized_pieces.take(i as int));
            assert(normalized_pieces.take(i + 1).last() == value@);
        }
        if value.as_str().unicode_len() > 0 {
            let ghost prev = views(values@);
            values.push(value);
            proof {
                assert(views(values@) =~= prev.push(normalized_pieces[i as int]));
            }
        }
        i += 1;
    }
    proof {
        assert(normalized_pieces.take(i as int) =~= normalized_pieces);
    }
    let ghost all = views(values@);
    let sorted = sorted_unique_strings(values);
    if sorted.len() == 0 {
        proof {
            if all.len() > 0 {
                assert(all.contains(all[0]));
                assert(views(sorted@).contains(all[0]));
            }
        }
        return Err(str_to_string("Pass at least one non-empty path through --paths."));
    }
    Ok(sorted)
}

/// A path with glob syntax: a `*` or a `?`.
pub open spec fn is_glob(value: Seq<char>) -> bool {
    value.contains('*') || value.contains('?')
}

/// Whether `value` holds glob syntax, as `is_glob` says.
pub fn has_glob_syntax(value: &str) -> (b: bool)
    ensures
        b == is_glob(value@),
{
    let v = chars_of(value);
    chars_contain_char(&v, '*') || chars_contain_char(&v, '?')
}

/// Some input holds glob syntax, so the tracked paths are needed to resolve it.
pub fn needs_tracked_paths(inputs: &[String]) -> (b: bool)
    ensures
        b == exists|i: int| 0 <= i < inputs@.len() && is_glob(#[trigger] inputs@[i]@),
{
    let mut i: usize = 0;
    while i < inputs.len()
        invariant
            i <= inputs.len(),
            forall|k: int| 0 <= k < i ==> !is_glob(#[trigger] inputs@[k]@),
        decreases inputs.len() - i,
    {
        if has_glob_syntax(inputs[i].as_str()) {
            return true;
        }
        i += 1;
    }
    false
}

/// The paths of `listed` that the glob `pattern` matches, in order.
pub open spec fn glob_candidates(listed: Seq<Seq<char>>, pattern: Seq<char>) -> Seq<Seq<char>>
    decreases listed.len(),
{
    if listed.len() == 0 {
        Seq::empty()
    } else if glob_matches(listed.last(), pattern) {
        glob_candidates(listed.drop_last(), pattern).push(listed.last())
    } else {
        glob_candidates(listed.drop_last(), pattern)
    }
}

/// How an input is resolved: a glob stands for the tracked paths it matches, any
/// other input for itself.
pub open spec fn resolved_input(input: Seq<char>, listed: Seq<Seq<char>>) -> ResolvedInputView {
    ResolvedInputView {
        original: input,
        candidates: if is_glob(input) {
            glob_candidates(listed, input)
        } else {
            seq![input]
        },
    }
}

fn resolve_input(input: &String, tracked_paths: &[String]) -> (r: ResolvedInput)
    ensures
        r@ == resolved_input(input@, views(tracked_paths@)),
{
    let mut candidates: Vec<String> = Vec::new();
    if has_glob_syntax(input.as_str()) {
        let ghost tv = views(tracked_paths@);
        let mut i: usize = 0;
        while i < tracked_paths.len()
            invariant
                i <= tracked_paths.len(),
                tv == views(tracked_paths@),
                views(candidates@) == glob_candidates(tv.take(i as int), input@),
            decreases tracked_paths.len() - i,
        {
            proof {
                assert(tv.take(i + 1).drop_last() =~= tv.take(i as int));
                assert(tv.take(i + 1).last() == tracked_paths@[i as int]@);
            }
            if matches_pattern(tracked_paths[i].as_str(), input.as_str()) {
                let ghost prev = views(candidates@);
                candidates.push(tracked_paths[i].clone());
                proof {
                    assert(views(candidates@) =~= prev.push(tracked_paths@[i as int]@));
                }
            }
            i += 1;
        }
        proof {
            assert(tv.take(i as int) =~= tv);
        }
    } else {
        candidates.push(input.clone());
        proof {
            assert(views(candidates@) =~= seq![input@]);
        }
    }
    ResolvedInput { original: input.clone(), candidates }
}

/// Resolves each input against the tracked paths, as `resolved_input` says.
pub fn resolve_inputs(inputs: &[String], tracked_paths: &[String]) -> (r: Vec<ResolvedInput>)
    ensures
        resolved_views(r@) == views(inputs@).map_values(|i: Seq<char>| resolved_input(i, views(tracked_paths@))),
{
    let ghost target = views(inputs@).map_values(|i: Seq<char>| resolved_input(i, views(tracked_paths@)));
    let mut r: Vec<ResolvedInput> = Vec::new();
    let mut i: usize = 0;
    while i < inputs.len()
        invariant
            i <= inputs.len(),
            target == views(inputs@).map_values(|i: Seq<char>| resolved_input(i, views(tracked_paths@))),
            resolved_views(r@) == target.take(i as int),
        decreases inputs.len() - i,
    {
        let ghost prev = resolved_views(r@);
        r.push(resolve_input(&inputs[i], tracked_paths));
        proof {
            assert(resolved_views(r@) =~= prev.push(target[i as int]));
            assert(target.take(i + 1) =~= prev.push(target[i as int]));
        }
        i += 1;
    }
    proof {
        assert(target.take(i as int) =~= target);
    }
    r
}

/// One routing hit: a recommended document, the rule that recommends it, the input
/// whose path triggered the rule, the trigger pattern that matched, and the mode.
pub type RouteEntry = (Seq<char>, Seq<char>, Seq<char>, Seq<char>, RequiredDocMode);

/// The trigger patterns of a loaded rule, resolved against its base directory.
pub open spec fn resolved_triggers(l: LoadedRuleView) -> Seq<Seq<char>> {
    l.rule.triggers.map_values(|t: TriggerView| resolved_rule_path(l.base_dir, t.path))
}

/// The patterns of `ts` that `candidate` matches, in order.
pub open spec fn matching_in(candidate: Seq<char>, ts: Seq<Seq<char>>) -> Seq<Seq<char>>
    decreases ts.len(),
{
    if ts.len() == 0 {
        Seq::empty()
    } else if glob_matches(candidate, ts.last()) {
        matching_in(candidate, ts.drop_last()).push(ts.last())
    } else {
        matching_in(candidate, ts.drop_last())
    }
}

/// The resolved trigger patterns of `l` that `candidate` matches, in order.
pub open spec fn matched_triggers(candidate: Seq<char>, l: LoadedRuleView) -> Seq<Seq<char>> {
    matching_in(candidate, resolved_triggers(l))
}

/// The hits of the first `n` required documents of `l`, for the input `input` whose
/// candidate matched the patterns `ts`: one per document and pattern.
pub open spec fn doc_entries(input: Seq<char>, l: LoadedRuleView, ts: Seq<Seq<char>>, n: int) -> Seq<RouteEntry>
    decreases n,
{
    if n <= 0 {
        Seq::empty()
    } else {
        let d = l.rule.required_docs[n - 1];
        doc_entries(input, l, ts, n - 1) + ts.map_values(
            |t: Seq<char>| (resolved_rule_path(l.base_dir, d.path), l.rule.id, input, t, mode_from(d.mode)),
        )
    }
}

/// The hits of the loaded rule `l` for one candidate path of `input`.
pub open spec fn rule_entries(input: Seq<char>, candidate: Seq<char>, l: LoadedRuleView) -> Seq<RouteEntry> {
    doc_entries(input, l, matched_triggers(candidate, l), l.rule.required_docs.len() as int)
}

/// The hits of all rules, in order, for one candidate path of `input`.
pub open spec fn candidate_entries(input: Seq<char>, candidate: Seq<char>, rules: Seq<LoadedRuleView>) -> Seq<RouteEntry>
    decreases rules.len(),
{
    if rules.len() == 0 {
        Seq::empty()
    } else {
        candidate_entries(input, candidate, rules.drop_last()) + rule_entries(input, candidate, rules.last())
    }
}

/// The key of a matched rule: its config source and id.
pub open spec fn rule_key(l: LoadedRuleView) -> Seq<char> {
    l.config_source + "::"@ + l.rule.id
}

/// The keys of the rules, in order, that one candidate path triggers.
pub open spec fn candidate_keys(candidate: Seq<char>, rules: Seq<LoadedRuleView>) -> Seq<Seq<char>>
    decreases rules.len(),
{
    if rules.len() == 0 {
        Seq::empty()
    } else {
        candidate_keys(candidate, rules.drop_last()) + if matched_triggers(candidate, rules.last()).len() > 0 {
            seq![rule_key(rules.last())]
        } else {
            Seq::empty()
        }
    }
}

/// The hits of the first `n` candidates of an input.
pub open spec fn input_entries(input: ResolvedInputView, rules: Seq<LoadedRuleView>, n: int) -> Seq<RouteEntry>
    decreases n,
{
    if n <= 0 {
        Seq::empty()
    } else {
        input_entries(input, rules, n - 1) + candidate_entries(input.original, input.candidates[n - 1], rules)
    }
}

/// The matched rule keys of the first `n` candidates of an input.
pub open spec fn input_keys(input: ResolvedInputView, rules: Seq<LoadedRuleView>, n: int) -> Seq<Seq<char>>
    decreases n,
{
    if n <= 0 {
        Seq::empty()
    } else {
        input_keys(input, rules, n - 1) + candidate_keys(input.candidates[n - 1], rules)
    }
}

/// The hits of all inputs, in order.
pub open spec fn route_entries(inputs: Seq<ResolvedInputView>, rules: Seq<LoadedRuleView>) -> Seq<RouteEntry>
    decreases inputs.len(),
{
    if inputs.len() == 0 {
        Seq::empty()
    } else {
        route_entries(inputs.drop_last(), rules) + input_entries(
            inputs.last(),
            rules,
            inputs.last().candidates.len() as int,
        )
    }
}

/// The matched rule keys of all inputs, in order.
pub open spec fn route_keys(inputs: Seq<ResolvedInputView>, rules: Seq<LoadedRuleView>) -> Seq<Seq<char>>
    decreases inputs.len(),
{
    if inputs.len() == 0 {
        Seq::empty()
    } else {
        route_keys(inputs.drop_last(), rules) + input_keys(inputs.last(), rules, inputs.last().candidates.len() as int)
    }
}

/// Some hit of `e` names the document `p`.
pub open spec fn has_hit_doc(e: Seq<RouteEntry>, p: Seq<char>) -> bool {
    exists|t: int| 0 <= t < e.len() && #[trigger] e[t].0 == p
}

struct RouteHit {
    doc: String,
    rule_id: String,
    input: String,
    trigger: String,
    mode: RequiredDocMode,
}

impl View for RouteHit {
    type V = RouteEntry;

    closed spec fn view(&self) -> RouteEntry {
        (self.doc@, self.rule_id@, self.input@, self.trigger@, self.mode)
    }
}

spec fn hit_views(v: Seq<RouteHit>) -> Seq<RouteEntry> {
    v.map_values(|h: RouteHit| h@)
}

fn matching_triggers(candidate: &str, loaded: &LoadedRule) -> (r: Vec<String>)
    ensures
        views(r@) == matched_triggers(candidate@, loaded@),
{
    let ghost ts = resolved_triggers(loaded@);
    let mut r: Vec<String> = Vec::new();
    let mut i: usize = 0;
    while i < loaded.rule.triggers.len()
        invariant
            i <= loaded.rule.triggers.len(),
            ts == resolved_triggers(loaded@),
            views(r@) == matching_in(candidate@, ts.take(i as int)),
        decreases loaded.rule.triggers.len() - i,
    {
        let t = resolve_rule_path(loaded.base_dir.as_str(), loaded.rule.triggers[i].path.as_str());
        proof {
            assert(ts.take(i + 1).drop_last() =~= ts.take(i as int));
            assert(ts.take(i + 1).last() == t@);
        }
        if matches_pattern(candidate, t.as_str()) {
            let ghost prev = views(r@);
            r.push(t);
            proof {
                assert(views(r@) =~= prev.push(ts[i as int]));
            }
        }
        i += 1;
    }
    proof {
        assert(ts.take(i as int) =~= ts);
    }
    r
}

fn push_rule_hits(hits: &mut Vec<RouteHit>, input: &String, loaded: &LoadedRule, ts: &Vec<String>)
    ensures
        hit_views(final(hits)@) == hit_views(old(hits)@) + doc_entries(
            input@,
            loaded@,
            views(ts@),
            loaded.rule.required_docs.len() as int,
        ),
{
    let ghost base = hit_views(hits@);
    let ghost lv = loaded@;
    let ghost tv = views(ts@);
    let mut j: usize = 0;
    while j < loaded.rule.required_docs.len()
        invariant
            j <= loaded.rule.required_docs.len(),
            lv == loaded@,
            tv == views(ts@),
            hit_views(hits@) == base + doc_entries(input@, lv, tv, j as int),
        decreases loaded.rule.required_docs.len() - j,
    {
        let d = &loaded.rule.required_docs[j];
        let doc = resolve_rule_path(loaded.base_dir.as_str(), d.path.as_str());
        let mode = mode_of_field(&d.mode);
        let ghost mid = hit_views(hits@);
        let ghost block = tv.map_values(
            |t: Seq<char>| (resolved_rule_path(lv.base_dir, lv.rule.required_docs[j as int].path), lv.rule.id, input@, t, mode_from(lv.rule.required_docs[j as int].mode)),
        );
        proof {
            assert(lv.rule.required_docs[j as int] == d@);
        }
        let mut k: usize = 0;
        while k < ts.len()
            invariant
                k <= ts.len(),
                tv == views(ts@),
                doc@ == resolved_rule_path(lv.base_dir, lv.rule.required_docs[j as int].path),
                mode == mode_from(lv.rule.required_docs[j as int].mode),
                lv.rule.id == loaded.rule.id@,
                block == tv.map_values(
                    |t: Seq<char>| (resolved_rule_path(lv.base_dir, lv.rule.required_docs[j as int].path), lv.rule.id, input@, t, mode_from(lv.rule.required_docs[j as int].mode)),
                ),
                hit_views(hits@) == mid + block.take(k as int),
            decreases ts.len() - k,
        {
            let ghost prev = hit_views(hits@);
            hits.push(
                RouteHit {
                    doc: doc.clone(),
                    rule_id: loaded.rule.id.clone(),
                    input: input.clone(),
                    trigger: ts[k].clone(),
                    mode,
                },
            );
            proof {
                assert(hit_views(hits@) =~= prev.push(block[k as int]));
                assert(block.take(k + 1) =~= block.take(k as int).push(block[k as int]));
            }
            k += 1;
        }
        proof {
            assert(block.take(k as int) =~= block);
            assert(hit_views(hits@) =~= base + doc_entries(input@, lv, tv, j + 1));
        }
        j += 1;
    }
}

fn push_candidate_hits(
    hits: &mut Vec<RouteHit>,
    keys: &mut Vec<String>,
    input: &String,
    candidate: &String,
    loaded_rules: &[LoadedRule],
)
    ensures
        hit_views(final(hits)@) == hit_views(old(hits)@) + candidate_entries(input@, candidate@, loaded_views(loaded_rules@)),
        views(final(keys)@) == views(old(keys)@) + candidate_keys(candidate@, loaded_views(loaded_rules@)),
{
    let ghost rules = loaded_views(loaded_rules@);
    let ghost hbase = hit_views(hits@);
    let ghost kbase = views(keys@);
    let mut i: usize = 0;
    while i < loaded_rules.len()
        invariant
            i <= loaded_rules.len(),
            rules == loaded_views(loaded_rules@),
            hit_views(hits@) == hbase + candidate_entries(input@, candidate@, rules.take(i as int)),
            views(keys@) == kbase + candidate_keys(candidate@, rules.take(i as int)),
        decreases loaded_rules.len() - i,
    {
        let loaded = &loaded_rules[i];
        proof {
            assert(rules.take(i + 1).drop_last() =~= rules.take(i as int));
            assert(rules.take(i + 1).last() == loaded@);
        }
        let ts = matching_triggers(candidate.as_str(), loaded);
        let ghost kmid = views(keys@);
        if ts.len() > 0 {
            keys.push(cat3(loaded.config_source.as_str(), "::", loaded.rule.id.as_str()));
            proof {
                assert(views(keys@) =~= kmid.push(rule_key(loaded@)));
                assert(views(keys@) =~= kbase + candidate_keys(candidate@, rules.take(i + 1)));
            }
        } else {
            proof {
                assert(views(keys@) =~= kbase + candidate_keys(candidate@, rules.take(i + 1)));
            }
        }
        let ghost hmid = hit_views(hits@);
        push_rule_hits(hits, input, loaded, &ts);
        proof {
            assert(hit_views(hits@) =~= hbase + candidate_entries(input@, candidate@, rules.take(i + 1)));
        }
        i += 1;
    }
    proof {
        assert(rules.take(i as int) =~= rules);
    }
}

fn collect_route_hits(inputs: &[ResolvedInput], loaded_rules: &[LoadedRule]) -> (r: (Vec<RouteHit>, Vec<String>))
    ensures
        hit_views(r.0@) == route_entries(resolved_views(inputs@), loaded_views(loaded_rules@)),
        views(r.1@) == route_keys(resolved_views(inputs@), loaded_views(loaded_rules@)),
{
    let ghost iv = resolved_views(inputs@);
    let ghost rules = loaded_views(loaded_rules@);
    let mut hits: Vec<RouteHit> = Vec::new();
    let mut keys: Vec<String> = Vec::new();
    let mut i: usize = 0;
    proof {
        assert(hit_views(hits@) =~= Seq::<RouteEntry>::empty());
        assert(views(keys@) =~= Seq::<Seq<char>>::empty());
    }
    while i < inputs.len()
        invariant
            i <= inputs.len(),
            iv == resolved_views(inputs@),
            rules == loaded_views(loaded_rules@),
            hit_views(hits@) == route_entries(iv.take(i as int), rules),
            views(keys@) == route_keys(iv.take(i as int), rules),
        decreases inputs.len() - i,
    {
        let input = &inputs[i];
        let ghost hbase = hit_views(hits@);
        let ghost kbase = views(keys@);
        let mut c: usize = 0;
        while c < input.candidates.len()
            invariant
                c <= input.candidates.len(),
                input == inputs@[i as int],
                iv == resolved_views(inputs@),
                rules == loaded_views(loaded_rules@),
                hit_views(hits@) == hbase + input_entries(input@, rules, c as int),
                views(keys@) == kbase + input_keys(input@, rules, c as int),
            decreases input.candidates.len() - c,
        {
            push_candidate_hits(&mut hits, &mut keys, &input.original, &input.candidates[c], loaded_rules);
            proof {
                assert(input@.candidates[c as int] == input.candidates@[c as int]@);
                assert(hit_views(hits@) =~= hbase + input_entries(input@, rules, c + 1));
                assert(views(keys@) =~= kbase + input_keys(input@, rules, c + 1));
            }
            c += 1;
        }
        proof {
            assert(iv.take(i + 1).drop_last() =~= iv.take(i as int));
            assert(iv.take(i + 1).last() == input@);
            assert(hit_views(hits@) =~= route_entries(iv.take(i + 1), rules));
            assert(views(keys@) =~= route_keys(iv.take(i + 1), rules));
        }
        i += 1;
    }
    proof {
        assert(iv.take(i as int) =~= iv);
    }
    (hits, keys)
}

/// The field `k` of a hit: 1 the rule id, 2 the input, 3 the trigger pattern.
pub open spec fn entry_field(x: RouteEntry, k: int) -> Seq<char> {
    if k == 1 {
        x.1
    } else if k == 2 {
        x.2
    } else {
        x.3
    }
}

/// The field `k` of the hits for document `p`, in order.
pub open spec fn doc_values(e: Seq<RouteEntry>, p: Seq<char>, k: int) -> Seq<Seq<char>>
    decreases e.len(),
{
    if e.len() == 0 {
        Seq::empty()
    } else if e.last().0 == p {
        doc_values(e.drop_last(), p, k).push(entry_field(e.last(), k))
    } else {
        doc_values(e.drop_last(), p, k)
    }
}

/// The modes of the hits for document `p`, in order.
pub open spec fn doc_modes(e: Seq<RouteEntry>, p: Seq<char>) -> Seq<RequiredDocMode>
    decreases e.len(),
{
    if e.len() == 0 {
        Seq::empty()
    } else if e.last().0 == p {
        doc_modes(e.drop_last(), p).push(e.last().4)
    } else {
        doc_modes(e.drop_last(), p)
    }
}

/// The modes that occur in `ms`, each once, in declared order.
pub open spec fn distinct_modes(ms: Seq<RequiredDocMode>) -> Seq<RequiredDocMode> {
    (if ms.contains(RequiredDocMode::ReviewOrUpdate) {
        seq![RequiredDocMode::ReviewOrUpdate]
    } else {
        Seq::empty()
    }) + (if ms.contains(RequiredDocMode::MetadataRefreshRequired) {
        seq![RequiredDocMode::MetadataRefreshRequired]
    } else {
        Seq::empty()
    }) + (if ms.contains(RequiredDocMode::BodyUpdateRequired) {
        seq![RequiredDocMode::BodyUpdateRequired]
    } else {
        Seq::empty()
    }) + (if ms.contains(RequiredDocMode::MustExist) {
        seq![RequiredDocMode::MustExist]
    } else {
        Seq::empty()
    })
}

/// The recommendation of document `p`: the sorted sets of the rule ids, inputs and
/// trigger patterns of its hits, and the names of their distinct modes.
pub open spec fn recommendation_of(e: Seq<RouteEntry>, p: Seq<char>) -> RecommendationView {
    RecommendationView {
        path: p,
        rule_ids: sorted_set(doc_values(e, p, 1)),
        matched_input_paths: sorted_set(doc_values(e, p, 2)),
        matched_trigger_paths: sorted_set(doc_values(e, p, 3)),
        modes: distinct_modes(doc_modes(e, p)).map_values(|m: RequiredDocMode| mode_name(m)),
    }
}

/// The recommendations of the hits, one per document in increasing path order.
pub open spec fn route_recommendations(e: Seq<RouteEntry>) -> Seq<RecommendationView> {
    sorted_set(e.map_values(|x: RouteEntry| x.0)).map_values(|p: Seq<char>| recommendation_of(e, p))
}

/// The names of the modes that occur in `ms`, in declared order.
pub fn distinct_mode_names(ms: &Vec<RequiredDocMode>) -> (r: Vec<String>)
    ensures
        views(r@) == distinct_modes(ms@).map_values(|m: RequiredDocMode| mode_name(m)),
{
    let mut r: Vec<String> = Vec::new();
    if crate::explain::mode_contains(ms, RequiredDocMode::ReviewOrUpdate) {
        r.push(str_to_string("review_or_update"));
    }
    if crate::explain::mode_contains(ms, RequiredDocMode::MetadataRefreshRequired) {
        r.push(str_to_string("metadata_refresh_required"));
    }
    if crate::explain::mode_contains(ms, RequiredDocMode::BodyUpdateRequired) {
        r.push(str_to_string("body_update_required"));
    }
    if crate::explain::mode_contains(ms, RequiredDocMode::MustExist) {
        r.push(str_to_string("must_exist"));
    }
    proof {
        assert(views(r@) =~= distinct_modes(ms@).map_values(|m: RequiredDocMode| mode_name(m)));
    }
    r
}

proof fn lemma_doc_values_nonempty(e: Seq<RouteEntry>, p: Seq<char>, k: int, i: int)
    requires
        0 <= i < e.len(),
        e[i].0 == p,
    ensures
        doc_values(e, p, k).len() > 0,
    decreases e.len(),
{
    if i < e.len() - 1 {
        assert(e.drop_last()[i] == e[i]);
        lemma_doc_values_nonempty(e.drop_last(), p, k, i);
    }
}

fn recommend(hits: &Vec<RouteHit>, path: &String) -> (r: RouteRecommendation)
    ensures
        r@ == recommendation_of(hit_views(hits@), path@),
        (exists|i: int| 0 <= i < hits@.len() && #[trigger] hit_views(hits@)[i].0 == path@) ==> r.rule_ids@.len() > 0
            && r.matched_input_paths@.len() > 0,
{
    let ghost hv = hit_views(hits@);
    let pv = chars_of(path.as_str());
    let mut rules: Vec<String> = Vec::new();
    let mut inputs: Vec<String> = Vec::new();
    let mut triggers: Vec<String> = Vec::new();
    let mut modes: Vec<RequiredDocMode> = Vec::new();
    let mut i: usize = 0;
    while i < hits.len()
        invariant
            i <= hits.len(),
            hv == hit_views(hits@),
            pv@ == path@,
            views(rules@) == doc_values(hv.take(i as int), path@, 1),
            views(inputs@) == doc_values(hv.take(i as int), path@, 2),
            views(triggers@) == doc_values(hv.take(i as int), path@, 3),
            modes@ == doc_modes(hv.take(i as int), path@),
        decreases hits.len() - i,
    {
        let h = &hits[i];
        proof {
            assert(hv.take(i + 1).drop_last() =~= hv.take(i as int));
            assert(hv.take(i + 1).last() == h@);
            assert(h@.0 == h.doc@ && h@.1 == h.rule_id@ && h@.2 == h.input@ && h@.3 == h.trigger@ && h@.4 == h.mode);
        }
        if crate::text::chars_eq(&chars_of(h.doc.as_str()), &pv) {
            let ghost (r0, i0, t0) = (views(rules@), views(inputs@), views(triggers@));
            rules.push(h.rule_id.clone());
            inputs.push(h.input.clone());
            triggers.push(h.trigger.clone());
            modes.push(h.mode);
            proof {
                assert(views(rules@) =~= r0.push(h.rule_id@));
                assert(views(inputs@) =~= i0.push(h.input@));
                assert(views(triggers@) =~= t0.push(h.trigger@));
            }
        }
        i += 1;
    }
    proof {
        assert(hv.take(i as int) =~= hv);
    }
    let ghost (rv, iv, tv) = (views(rules@), views(inputs@), views(triggers@));
    let rule_ids = sorted_unique_strings(rules);
    let input_paths = sorted_unique_strings(inputs);
    let trigger_paths = sorted_unique_strings(triggers);
    proof {
        lemma_sorted_set_is(views(rule_ids@), rv);
        lemma_sorted_set_is(views(input_paths@), iv);
        lemma_sorted_set_is(views(trigger_paths@), tv);
        if exists|i: int| 0 <= i < hits@.len() && #[trigger] hit_views(hits@)[i].0 == path@ {
            let i = choose|i: int| 0 <= i < hits@.len() && #[trigger] hit_views(hits@)[i].0 == path@;
            lemma_doc_values_nonempty(hv, path@, 1, i);
            lemma_doc_values_nonempty(hv, path@, 2, i);
            assert(rv.contains(rv[0]));
            assert(iv.contains(iv[0]));
        }
    }
    RouteRecommendation {
        path: path.clone(),
        rule_ids,
        matched_input_paths: input_paths,
        matched_trigger_paths: trigger_paths,
        modes: distinct_mode_names(&modes),
    }
}

fn group_hits(hits: &Vec<RouteHit>) -> (r: Vec<RouteRecommendation>)
    ensures
        recommendation_views(r@) == route_recommendations(hit_views(hits@)),
        forall|i: int, j: int| 0 <= i < j < r@.len() ==> seq_lt(#[trigger] r@[i].path@, #[trigger] r@[j].path@),
        forall|k: int| 0 <= k < r@.len() ==> (#[trigger] r@[k]).rule_ids@.len() > 0
            && r@[k].matched_input_paths@.len() > 0,
        forall|k: int| 0 <= k < r@.len() ==> has_hit_doc(hit_views(hits@), (#[trigger] r@[k]).path@),
{
    let ghost hv = hit_views(hits@);
    let mut docs: Vec<String> = Vec::new();
    let mut i: usize = 0;
    while i < hits.len()
        invariant
            i <= hits.len(),
            hv == hit_views(hits@),
            views(docs@) == hv.map_values(|x: RouteEntry| x.0).take(i as int),
        decreases hits.len() - i,
    {
        let ghost prev = views(docs@);
        docs.push(hits[i].doc.clone());
        proof {
            assert(hv[i as int] == hits@[i as int]@);
            assert(views(docs@) =~= prev.push(hv[i as int].0));
            assert(hv.map_values(|x: RouteEntry| x.0).take(i + 1) =~= prev.push(hv[i as int].0));
        }
        i += 1;
    }
    proof {
        assert(hv.map_values(|x: RouteEntry| x.0).take(i as int) =~= hv.map_values(|x: RouteEntry| x.0));
    }
    let ghost dv = views(docs@);
    let paths = sorted_unique_strings(docs);
    proof {
        lemma_sorted_set_is(views(paths@), dv);
    }
    let ghost pv = views(paths@);
    let mut r: Vec<RouteRecommendation> = Vec::new();
    let mut k: usize = 0;
    while k < paths.len()
        invariant
            k <= paths.len(),
            hv == hit_views(hits@),
            pv == views(paths@),
            recommendation_views(r@) == pv.map_values(|p: Seq<char>| recommendation_of(hv, p)).take(k as int),
            is_sorted_set_of(pv, dv),
            dv == hv.map_values(|x: RouteEntry| x.0),
            r@.len() == k,
            forall|q: int| 0 <= q < k ==> (#[trigger] r@[q]).path@ == pv[q],
            forall|q: int| 0 <= q < k ==> (#[trigger] r@[q]).rule_ids@.len() > 0
                && r@[q].matched_input_paths@.len() > 0,
        decreases paths.len() - k,
    {
        let ghost prev = recommendation_views(r@);
        proof {
            assert(pv.contains(pv[k as int]));
            let i = choose|i: int| 0 <= i < dv.len() && dv[i] == pv[k as int];
            assert(hit_views(hits@)[i].0 == paths@[k as int]@);
        }
        r.push(recommend(hits, &paths[k]));
        proof {
            assert(recommendation_views(r@) =~= prev.push(recommendation_of(hv, pv[k as int])));
            assert(pv.map_values(|p: Seq<char>| recommendation_of(hv, p)).take(k + 1) =~= prev.push(
                recommendation_of(hv, pv[k as int]),
            ));
        }
        k += 1;
    }
    proof {
        assert(pv.map_values(|p: Seq<char>| recommendation_of(hv, p)).take(k as int) =~= pv.map_values(
            |p: Seq<char>| recommendation_of(hv, p),
        ));
        assert forall|q: int| 0 <= q < r@.len() implies has_hit_doc(hit_views(hits@), (#[trigger] r@[q]).path@) by {
            assert(pv.contains(pv[q]));
            let t = choose|t: int| 0 <= t < dv.len() && dv[t] == pv[q];
            assert(hv[t].0 == dv[t]);
            assert(r@[q].path@ == pv[q]);
            assert(hit_views(hits@)[t].0 == r@[q].path@);
        }
    }
    r
}

/// The route report of the resolved inputs: for each recommended document, once and in
/// strictly increasing path order, what recommends it (at least one rule, for at least
/// one input); and how many distinct rules (by config source and id) the inputs
/// triggered.
pub fn route_report(inputs: &[ResolvedInput], loaded_rules: &[LoadedRule]) -> (r: RouteReport)
    ensures
        r.schema_version@ == ROUTE_SCHEMA_VERSION@,
        r.tool_name@ == TOOL_NAME@,
        r.tool_version@ == TOOL_VERSION@,
        r.summary.input_path_count == inputs@.len(),
        r.summary.matched_rule_count == sorted_set(
            route_keys(resolved_views(inputs@), loaded_views(loaded_rules@)),
        ).len(),
        recommendation_views(r.recommended_docs@) == route_recommendations(
            route_entries(resolved_views(inputs@), loaded_views(loaded_rules@)),
        ),
        r.summary.recommended_doc_count == r.recommended_docs@.len(),
        forall|i: int, j: int| 0 <= i < j < r.recommended_docs@.len() ==> seq_lt(
            #[trigger] r.recommended_docs@[i].path@,
            #[trigger] r.recommended_docs@[j].path@,
        ),
        forall|k: int| 0 <= k < r.recommended_docs@.len() ==> (#[trigger] r.recommended_docs@[k]).rule_ids@.len() > 0
            && r.recommended_docs@[k].matched_input_paths@.len() > 0,
        forall|k: int|
            0 <= k < r.recommended_docs@.len() ==> has_hit_doc(
                route_entries(resolved_views(inputs@), loaded_views(loaded_rules@)),
                (#[trigger] r.recommended_docs@[k]).path@,
            ),
{
    let (hits, keys) = collect_route_hits(inputs, loaded_rules);
    let ghost kv = views(keys@);
    let distinct = sorted_unique_strings(keys);
    proof {
        lemma_sorted_set_is(views(distinct@), kv);
    }
    let recommended = group_hits(&hits);
    proof {
        let e = route_entries(resolved_views(inputs@), loaded_views(loaded_rules@));
        assert(e == hit_views(hits@));
    }
    RouteReport {
        schema_version: str_to_string(ROUTE_SCHEMA_VERSION),
        tool_name: str_to_string(TOOL_NAME),
        tool_version: str_to_string(TOOL_VERSION),
        summary: RouteSummary {
            input_path_count: inputs.len(),
            matched_rule_count: distinct.len(),
            recommended_doc_count: recommended.len(),
        },
        recommended_docs: recommended,
    }
}

/// The text line of a recommendation.
pub open spec fn recommendation_line(r: RecommendationView) -> Seq<char> {
    "- path="@ + r.path + " rules="@ + join(r.rule_ids, ","@) + " inputs="@ + join(r.matched_input_paths, ","@) + "\n"@
}

/// The text rendering of a route report.
pub open spec fn route_text(
    input_count: nat,
    matched_count: nat,
    doc_count: nat,
    docs: Seq<RecommendationView>,
) -> Seq<char> {
    "Docpact route recommendations:\n"@ + "Summary: input_paths="@ + decimal(input_count) + " matched_rules="@ + decimal(
        matched_count,
    ) + " recommended_docs="@ + decimal(doc_count) + "\n"@ + "Recommended docs:\n"@ + if docs.len() == 0 {
        "- none\n"@
    } else {
        join(docs.map_values(|r: RecommendationView| recommendation_line(r)), ""@)
    }
}

/// The text rendering of a route report, as `route_text` says.
pub fn render_route_text(report: &RouteReport) -> (s: String)
    ensures
        s@ == route_text(
            report.summary.input_path_count as nat,
            report.summary.matched_rule_count as nat,
            report.summary.recommended_doc_count as nat,
            recommendation_views(report.recommended_docs@),
        ),
{
    let mut out = str_to_string("Docpact route recommendations:\n");
    out.append("Summary: input_paths=");
    out.append(decimal_string(report.summary.input_path_count).as_str());
    out.append(" matched_rules=");
    out.append(decimal_string(report.summary.matched_rule_count).as_str());
    out.append(" recommended_docs=");
    out.append(decimal_string(report.summary.recommended_doc_count).as_str());
    out.append("\n");
    out.append("Recommended docs:\n");
    if report.recommended_docs.len() == 0 {
        out.append("- none\n");
        return out;
    }
    let ghost target = recommendation_views(report.recommended_docs@).map_values(
        |r: RecommendationView| recommendation_line(r),
    );
    let mut lines: Vec<String> = Vec::new();
    let mut i: usize = 0;
    while i < report.recommended_docs.len()
        invariant
            i <= report.recommended_docs.len(),
            target == recommendation_views(report.recommended_docs@).map_values(
                |r: RecommendationView| recommendation_line(r),
            ),
            views(lines@) == target.take(i as int),
        decreases report.recommended_docs.len() - i,
    {
        let d = &report.recommended_docs[i];
        let mut line = str_to_string("- path=");
        line.append(d.path.as_str());
        line.append(" rules=");
        line.append(join_strings(&d.rule_ids, ",").as_str());
        line.append(" inputs=");
        line.append(join_strings(&d.matched_input_paths, ",").as_str());
        line.append("\n");
        let ghost prev = views(lines@);
        lines.push(line);
        proof {
            assert(views(lines@) =~= prev.push(target[i as int]));
            assert(target.take(i + 1) =~= prev.push(target[i as int]));
        }
        i += 1;
    }
    proof {
        assert(target.take(i as int) =~= target);
    }
    out.append(join_strings(&lines, "").as_str());
    out
}

/// The entry `e` is a hit of one of the required documents of `l`: its document is that
/// one resolved against `l`'s directory, and its rule is `l`'s.
pub open spec fn doc_of_rule(e: RouteEntry, l: LoadedRuleView) -> bool {
    exists|j: int|
        0 <= j < l.rule.required_docs.len() && e.0 == resolved_rule_path(l.base_dir, #[trigger] l.rule.required_docs[j].path)
            && e.1 == l.rule.id
}

/// The entry `e` is a hit of a required document of one of the rules.
pub open spec fn doc_of_rules(e: RouteEntry, rules: Seq<LoadedRuleView>) -> bool {
    exists|i: int| 0 <= i < rules.len() && doc_of_rule(e, #[trigger] rules[i])
}

proof fn lemma_doc_entries_of_rule(input: Seq<char>, l: LoadedRuleView, ts: Seq<Seq<char>>, n: int)
    requires
        n <= l.rule.required_docs.len(),
    ensures
        forall|k: int| 0 <= k < doc_entries(input, l, ts, n).len() ==> doc_of_rule(#[trigger] doc_entries(input, l, ts, n)[k], l),
    decreases n,
{
    if n > 0 {
        lemma_doc_entries_of_rule(input, l, ts, n - 1);
        let p = doc_entries(input, l, ts, n - 1);
        let d = l.rule.required_docs[n - 1];
        let blk = ts.map_values(|t: Seq<char>| (resolved_rule_path(l.base_dir, d.path), l.rule.id, input, t, mode_from(d.mode)));
        assert(doc_entries(input, l, ts, n) == p + blk);
        assert forall|k: int| 0 <= k < doc_entries(input, l, ts, n).len() implies doc_of_rule(#[trigger] doc_entries(input, l, ts, n)[k], l) by {
            if k < p.len() {
                assert(doc_entries(input, l, ts, n)[k] == p[k]);
            } else {
                assert(doc_entries(input, l, ts, n)[k] == blk[k - p.len()]);
                assert(l.rule.required_docs[n - 1].path == d.path);
            }
        }
    }
}

proof fn lemma_candidate_entries_of_rules(input: Seq<char>, candidate: Seq<char>, rules: Seq<LoadedRuleView>)
    ensures
        forall|k: int| 0 <= k < candidate_entries(input, candidate, rules).len() ==> doc_of_rules(
            #[trigger] candidate_entries(input, candidate, rules)[k],
            rules,
        ),
    decreases rules.len(),
{
    if rules.len() > 0 {
        let d = rules.drop_last();
        lemma_candidate_entries_of_rules(input, candidate, d);
        let l = rules.last();
        lemma_doc_entries_of_rule(input, l, matched_triggers(candidate, l), l.rule.required_docs.len() as int);
        let p = candidate_entries(input, candidate, d);
        let q = rule_entries(input, candidate, l);
        let all = candidate_entries(input, candidate, rules);
        assert(all == p + q);
        assert forall|k: int| 0 <= k < all.len() implies doc_of_rules(#[trigger] all[k], rules) by {
            if k < p.len() {
                assert(all[k] == p[k]);
                assert(doc_of_rules(p[k], d));
                let i = choose|i: int| 0 <= i < d.len() && doc_of_rule(p[k], #[trigger] d[i]);
                assert(rules[i] == d[i]);
            } else {
                assert(all[k] == q[k - p.len()]);
                assert(doc_of_rule(q[k - p.len()], l));
                assert(rules[rules.len() - 1] == l);
            }
        }
    }
}

proof fn lemma_input_entries_of_rules(input: ResolvedInputView, rules: Seq<LoadedRuleView>, n: int)
    ensures
        forall|k: int| 0 <= k < input_entries(input, rules, n).len() ==> doc_of_rules(#[trigger] input_entries(input, rules, n)[k], rules),
    decreases n,
{
    if n > 0 {
        lemma_input_entries_of_rules(input, rules, n - 1);
        lemma_candidate_entries_of_rules(input.original, input.candidates[n - 1], rules);
        let p = input_entries(input, rules, n - 1);
        let q = candidate_entries(input.original, input.candidates[n - 1], rules);
        let all = input_entries(input, rules, n);
        assert(all == p + q);
        assert forall|k: int| 0 <= k < all.len() implies doc_of_rules(#[trigger] all[k], rules) by {
            if k < p.len() {
                assert(all[k] == p[k]);
            } else {
                assert(all[k] == q[k - p.len()]);
            }
        }
    }
}

/// Route recommends the documents that triggered rules require, each resolved against
/// the directory of the config that declares the rule: every hit that route groups
/// into its recommendations names, as its document, `resolved_rule_path(base_dir, path)`
/// of a required document of one of the loaded rules, and that rule's id. A rule of a
/// workspace child at `sub` that requires `docs/api.md` is thus recommended as
/// `sub/docs/api.md`, the path the expected documents and list-rules give it.
pub proof fn law_route_recommends_resolved_docs(inputs: Seq<ResolvedInputView>, rules: Seq<LoadedRuleView>)
    ensures
        forall|k: int|
            0 <= k < route_entries(inputs, rules).len() ==> exists|i: int, j: int|
                0 <= i < rules.len() && 0 <= j < rules[i].rule.required_docs.len()
                    && (#[trigger] route_entries(inputs, rules)[k]).0 == resolved_rule_path(
                    rules[i].base_dir,
                    rules[i].rule.required_docs[j].path,
                ) && route_entries(inputs, rules)[k].1 == rules[i].rule.id,
    decreases inputs.len(),
{
    if inputs.len() > 0 {
        law_route_recommends_resolved_docs(inputs.drop_last(), rules);
        let last = inputs.last();
        lemma_input_entries_of_rules(last, rules, last.candidates.len() as int);
        let p = route_entries(inputs.drop_last(), rules);
        let q = input_entries(last, rules, last.candidates.len() as int);
        let all = route_entries(inputs, rules);
        assert(all == p + q);
        assert forall|k: int| 0 <= k < all.len() implies exists|i: int, j: int|
            0 <= i < rules.len() && 0 <= j < rules[i].rule.required_docs.len()
                && (#[trigger] all[k]).0 == resolved_rule_path(rules[i].base_dir, rules[i].rule.required_docs[j].path)
                && all[k].1 == rules[i].rule.id by {
            if k < p.len() {
                assert(all[k] == p[k]);
                let (i, j) = choose|i: int, j: int|
                    0 <= i < rules.len() && 0 <= j < rules[i].rule.required_docs.len()
                        && (#[trigger] p[k]).0 == resolved_rule_path(rules[i].base_dir, rules[i].rule.required_docs[j].path)
                        && p[k].1 == rules[i].rule.id;
            } else {
                assert(all[k] == q[k - p.len()]);
                assert(doc_of_rules(q[k - p.len()], rules));
                let i = choose|i: int| 0 <= i < rules.len() && doc_of_rule(q[k - p.len()], #[trigger] rules[i]);
                let j = choose|j: int|
                    0 <= j < rules[i].rule.required_docs.len() && q[k - p.len()].0 == resolved_rule_path(
                        rules[i].base_dir,
                        #[trigger] rules[i].rule.required_docs[j].path,
                    ) && q[k - p.len()].1 == rules[i].rule.id;
            }
        }
    }
}

} // verus!
