//! Rule matching: which rules a changed path triggers and which documents they require.
pub mod glob;

pub use glob::{glob_bytes, glob_matches, matches_pattern};

use vstd::prelude::*;
use crate::config::copy::{copy_rule, copy_strings};
use crate::config::model::{LoadedRule, LoadedRuleView, Rule, RuleView, loaded_views};
use crate::config::paths::{resolve_rule_path, resolved_rule_path};
use crate::text::{
    insert_sorted_unique, is_sorted_set_of, seq_lt, str_eq, strictly_sorted, views, chars_of,
    chars_eq, chars_lt, lemma_seq_lt_trichotomy, lemma_seq_lt_transitive, lemma_sorted_set_unique,
};

verus! {

/// How a required document has to be handled when its rule triggers.
#[derive(Debug, Clone, Copy, PartialEq, Eq, PartialOrd, Ord, Structural)]
pub enum RequiredDocMode {
    ReviewOrUpdate,
    MetadataRefreshRequired,
    BodyUpdateRequired,
    MustExist,
}

/// The mode a `mode` field names; a missing or unknown mode means `ReviewOrUpdate`.
pub open spec fn mode_from(value: Option<Seq<char>>) -> RequiredDocMode {
    if value == Some("metadata_refresh_required"@) {
        RequiredDocMode::MetadataRefreshRequired
    } else if value == Some("body_update_required"@) {
        RequiredDocMode::BodyUpdateRequired
    } else if value == Some("must_exist"@) {
        RequiredDocMode::MustExist
    } else {
        RequiredDocMode::ReviewOrUpdate
    }
}

/// The config spelling of a mode.
pub open spec fn mode_name(mode: RequiredDocMode) -> Seq<char> {
    match mode {
        RequiredDocMode::ReviewOrUpdate => "review_or_update"@,
        RequiredDocMode::MetadataRefreshRequired => "metadata_refresh_required"@,
        RequiredDocMode::BodyUpdateRequired => "body_update_required"@,
        RequiredDocMode::MustExist => "must_exist"@,
    }
}

/// The position of a mode in the declared order of the variants.
pub open spec fn mode_rank(mode: RequiredDocMode) -> int {
    match mode {
        RequiredDocMode::ReviewOrUpdate => 0,
        RequiredDocMode::MetadataRefreshRequired => 1,
        RequiredDocMode::BodyUpdateRequired => 2,
        RequiredDocMode::MustExist => 3,
    }
}

/// The view of an optional `&str`.
pub open spec fn opt_str_view(value: Option<&str>) -> Option<Seq<char>> {
    match value {
        Some(s) => Some(s@),
        None => None,
    }
}

impl RequiredDocMode {
    /// The mode named by an optional `mode` field.
    pub fn from_option(value: Option<&str>) -> (m: Self)
        ensures
            m == mode_from(opt_str_view(value)),
    {
        match value {
            Some(v) => {
                if str_eq(v, "metadata_refresh_required") {
                    RequiredDocMode::MetadataRefreshRequired
                } else if str_eq(v, "body_update_required") {
                    RequiredDocMode::BodyUpdateRequired
                } else if str_eq(v, "must_exist") {
                    RequiredDocMode::MustExist
                } else {
                    RequiredDocMode::ReviewOrUpdate
                }
            },
            None => RequiredDocMode::ReviewOrUpdate,
        }
    }

    /// The config spelling of this mode.
    pub fn as_str(self) -> (s: &'static str)
        ensures
            s@ == mode_name(self),
    {
        match self {
            RequiredDocMode::ReviewOrUpdate => "review_or_update",
            RequiredDocMode::MetadataRefreshRequired => "metadata_refresh_required",
            RequiredDocMode::BodyUpdateRequired => "body_update_required",
            RequiredDocMode::MustExist => "must_exist",
        }
    }

    /// The position of this mode in the declared order.
    pub fn rank(self) -> (r: u8)
        ensures
            r == mode_rank(self),
    {
        match self {
            RequiredDocMode::ReviewOrUpdate => 0,
            RequiredDocMode::MetadataRefreshRequired => 1,
            RequiredDocMode::BodyUpdateRequired => 2,
            RequiredDocMode::MustExist => 3,
        }
    }
}

/// The mode of an optional `mode` string field.
pub fn mode_of_field(value: &Option<String>) -> (m: RequiredDocMode)
    ensures
        m == mode_from(crate::config::model::opt_view(*value)),
{
    match value {
        Some(s) => RequiredDocMode::from_option(Some(s.as_str())),
        None => RequiredDocMode::from_option(None),
    }
}

/// A rule triggered by one changed path.
#[derive(Debug)]
pub struct MatchedRule {
    pub changed_path: String,
    pub source: String,
    pub config_source: String,
    pub base_dir: String,
    pub rule: Rule,
}

/// The view of a matched rule.
pub struct MatchedRuleView {
    pub changed_path: Seq<char>,
    pub source: Seq<char>,
    pub config_source: Seq<char>,
    pub base_dir: Seq<char>,
    pub rule: RuleView,
}

impl View for MatchedRule {
    type V = MatchedRuleView;

    open spec fn view(&self) -> MatchedRuleView {
        MatchedRuleView {
            changed_path: self.changed_path@,
            source: self.source@,
            config_source: self.config_source@,
            base_dir: self.base_dir@,
            rule: self.rule@,
        }
    }
}

/// The views of a list of matched rules.
pub open spec fn matched_views(v: Seq<MatchedRule>) -> Seq<MatchedRuleView> {
    v.map_values(|m: MatchedRule| m@)
}

/// Some trigger of the loaded rule matches `path`.
pub open spec fn rule_triggered(path: Seq<char>, l: LoadedRuleView) -> bool {
    exists|t: int|
        0 <= t < l.rule.triggers.len() && #[trigger] glob_matches(
            path,
            resolved_rule_path(l.base_dir, l.rule.triggers[t].path),
        )
}

/// The match record of `path` against a loaded rule.
pub open spec fn matched_view(path: Seq<char>, l: LoadedRuleView) -> MatchedRuleView {
    MatchedRuleView {
        changed_path: path,
        source: l.source,
        config_source: l.config_source,
        base_dir: l.base_dir,
        rule: l.rule,
    }
}

/// The rules, in order, that `path` triggers.
pub open spec fn path_matches(path: Seq<char>, rules: Seq<LoadedRuleView>) -> Seq<MatchedRuleView>
    decreases rules.len(),
{
    if rules.len() == 0 {
        Seq::empty()
    } else {
        let prefix = path_matches(path, rules.drop_last());
        if rule_triggered(path, rules.last()) {
            prefix.push(matched_view(path, rules.last()))
        } else {
            prefix
        }
    }
}

/// All matches: for each changed path in order, the rules it triggers in order.
pub open spec fn all_matches(paths: Seq<Seq<char>>, rules: Seq<LoadedRuleView>) -> Seq<
    MatchedRuleView,
>
    decreases paths.len(),
{
    if paths.len() == 0 {
        Seq::empty()
    } else {
        all_matches(paths.drop_last(), rules) + path_matches(paths.last(), rules)
    }
}

/// Whether some trigger of `loaded` matches `path`.
pub fn triggers_match(path: &str, loaded: &LoadedRule) -> (b: bool)
    ensures
        b == rule_triggered(path@, loaded@),
{
    let mut t: usize = 0;
    while t < loaded.rule.triggers.len()
        invariant
            t <= loaded.rule.triggers.len(),
            forall|k: int|
                0 <= k < t ==> !#[trigger] glob_matches(
                    path@,
                    resolved_rule_path(loaded@.base_dir, loaded@.rule.triggers[k].path),
                ),
        decreases loaded.rule.triggers.len() - t,
    {
        let resolved = resolve_rule_path(loaded.base_dir.as_str(), loaded.rule.triggers[t].path.as_str());
        if matches_pattern(path, resolved.as_str()) {
            proof {
                assert(glob_matches(
                    path@,
                    resolved_rule_path(loaded@.base_dir, loaded@.rule.triggers[t as int].path),
                ));
            }
            return true;
        }
        t += 1;
    }
    false
}

/// For each changed path (in order) and each loaded rule (in order), a record of
/// the rule when one of its triggers matches the path.
pub fn match_rules(changed_paths: &[String], loaded_rules: &[LoadedRule]) -> (r: Vec<MatchedRule>)
    ensures
        matched_views(r@) == all_matches(views(changed_paths@), loaded_views(loaded_rules@)),
{
    let ghost rules = loaded_views(loaded_rules@);
    let mut r: Vec<MatchedRule> = Vec::new();
    let mut i: usize = 0;
    while i < changed_paths.len()
        invariant
            i <= changed_paths.len(),
            rules == loaded_views(loaded_rules@),
            matched_views(r@) == all_matches(views(changed_paths@).take(i as int), rules),
        decreases changed_paths.len() - i,
    {
        let ghost before = matched_views(r@);
        let path = &changed_paths[i];
        let mut j: usize = 0;
        while j < loaded_rules.len()
            invariant
                i < changed_paths.len(),
                j <= loaded_rules.len(),
                path == changed_paths@[i as int],
                rules == loaded_views(loaded_rules@),
                matched_views(r@) == before + path_matches(path@, rules.take(j as int)),
            decreases loaded_rules.len() - j,
        {
            let loaded = &loaded_rules[j];
            proof {
                assert(rules.take(j + 1).drop_last() =~= rules.take(j as int));
                assert(rules.take(j + 1).last() == loaded@);
            }
            if triggers_match(path.as_str(), loaded) {
                let m = MatchedRule {
                    changed_path: path.clone(),
                    source: loaded.source.clone(),
                    config_source: loaded.config_source.clone(),
                    base_dir: loaded.base_dir.clone(),
                    rule: copy_rule(&loaded.rule),
                };
                proof {
                    assert(m@ == matched_view(path@, rules.take(j + 1).last()));
                    assert(path_matches(path@, rules.take(j + 1)) == path_matches(
                        path@,
                        rules.take(j as int),
                    ).push(m@));
                }
                let ghost prev = r@;
                r.push(m);
                proof {
                    assert(r@ == prev.push(m));
                    assert(matched_views(r@) =~= matched_views(prev).push(m@));
                    assert(matched_views(r@) =~= before + path_matches(path@, rules.take(j + 1)));
                }
            }
            j += 1;
        }
        proof {
            assert(rules.take(loaded_rules.len() as int) =~= rules);
            let vp = views(changed_paths@);
            assert(vp.take(i + 1).drop_last() =~= vp.take(i as int));
            assert(vp.take(i + 1).last() == path@);
        }
        i += 1;
    }
    proof {
        assert(views(changed_paths@).take(changed_paths.len() as int) =~= views(changed_paths@));
    }
    r
}


/// The modes in strictly increasing declared order.
pub open spec fn modes_sorted(m: Seq<RequiredDocMode>) -> bool {
    forall|i: int, j: int| 0 <= i < j < m.len() ==> mode_rank(#[trigger] m[i]) < mode_rank(#[trigger] m[j])
}

/// Inserts `x` into the sorted mode list `v`, unless it is there already.
fn insert_mode(v: &mut Vec<RequiredDocMode>, x: RequiredDocMode)
    requires
        modes_sorted(old(v)@),
    ensures
        modes_sorted(final(v)@),
        forall|y: RequiredDocMode| final(v)@.contains(y) <==> (old(v)@.contains(y) || y == x),
{
    let ghost old_v = v@;
    let mut j: usize = 0;
    while j < v.len() && v[j].rank() < x.rank()
        invariant
            j <= v.len(),
            v@ == old_v,
            forall|k: int| 0 <= k < j ==> mode_rank(#[trigger] old_v[k]) < mode_rank(x),
        decreases v.len() - j,
    {
        j += 1;
    }
    if j < v.len() && v[j].rank() == x.rank() {
        proof {
            assert(v@[j as int] == x);
            assert forall|y: RequiredDocMode| v@.contains(y) <==> (old_v.contains(y) || y == x) by {
                if y == x {
                    assert(v@[j as int] == y);
                }
            }
        }
        return;
    }
    v.insert(j, x);
    proof {
        let nv = v@;
        assert(nv =~= old_v.insert(j as int, x));
        assert forall|a: int, b: int| 0 <= a < b < nv.len() implies mode_rank(#[trigger] nv[a])
            < mode_rank(#[trigger] nv[b]) by {
            if a < j && b > j {
                assert(mode_rank(old_v[a]) < mode_rank(old_v[b - 1]));
            } else if a > j {
                assert(mode_rank(old_v[a - 1]) < mode_rank(old_v[b - 1]));
            } else if a == j && b > j + 1 {
                assert(mode_rank(old_v[j as int]) < mode_rank(old_v[b - 1]));
            }
        }
        assert forall|y: RequiredDocMode| nv.contains(y) <==> (old_v.contains(y) || y == x) by {
            if nv.contains(y) {
                let k = choose|k: int| 0 <= k < nv.len() && nv[k] == y;
                if k < j {
                    assert(old_v[k] == y);
                } else if k > j {
                    assert(old_v[k - 1] == y);
                }
            }
            if old_v.contains(y) {
                let k = choose|k: int| 0 <= k < old_v.len() && old_v[k] == y;
                if k < j {
                    assert(nv[k] == y);
                } else {
                    assert(nv[k + 1] == y);
                }
            }
            if y == x {
                assert(nv[j as int] == y);
            }
        }
    }
}

/// A document that matched rules expect, with what triggered it.
#[derive(Debug)]
pub struct ExpectedDoc {
    pub path: String,
    pub rules: Vec<String>,
    pub changed_paths: Vec<String>,
    pub modes: Vec<RequiredDocMode>,
}

/// The view of an expected doc.
pub struct ExpectedDocView {
    pub path: Seq<char>,
    pub rules: Seq<Seq<char>>,
    pub changed_paths: Seq<Seq<char>>,
    pub modes: Seq<RequiredDocMode>,
}

impl View for ExpectedDoc {
    type V = ExpectedDocView;

    open spec fn view(&self) -> ExpectedDocView {
        ExpectedDocView {
            path: self.path@,
            rules: views(self.rules@),
            changed_paths: views(self.changed_paths@),
            modes: self.modes@,
        }
    }
}

/// The views of a list of expected docs.
pub open spec fn expected_views(v: Seq<ExpectedDoc>) -> Seq<ExpectedDocView> {
    v.map_values(|d: ExpectedDoc| d@)
}

/// One required doc of one match: resolved doc path, rule id, changed path, mode.
pub type DocEntry = (Seq<char>, Seq<char>, Seq<char>, RequiredDocMode);

/// The required docs of one match, in order.
pub open spec fn match_entries(m: MatchedRuleView) -> Seq<DocEntry> {
    Seq::new(
        m.rule.required_docs.len(),
        |j: int|
            (
                resolved_rule_path(m.base_dir, m.rule.required_docs[j].path),
                m.rule.id,
                m.changed_path,
                mode_from(m.rule.required_docs[j].mode),
            ),
    )
}

/// The required docs of all matches, in order.
pub open spec fn expected_entries(ms: Seq<MatchedRuleView>) -> Seq<DocEntry>
    decreases ms.len(),
{
    if ms.len() == 0 {
        Seq::empty()
    } else {
        expected_entries(ms.drop_last()) + match_entries(ms.last())
    }
}

/// Some doc of `r` has path `p`.
pub open spec fn has_doc_path(r: Seq<ExpectedDocView>, p: Seq<char>) -> bool {
    exists|k: int| 0 <= k < r.len() && #[trigger] r[k].path == p
}

/// Some entry of `e` has doc path `p`.
pub open spec fn has_entry_path(e: Seq<DocEntry>, p: Seq<char>) -> bool {
    exists|t: int| 0 <= t < e.len() && #[trigger] e[t].0 == p
}

/// Some entry of `e` for doc `p` has rule id `x`.
pub open spec fn has_entry_rule(e: Seq<DocEntry>, p: Seq<char>, x: Seq<char>) -> bool {
    exists|t: int| 0 <= t < e.len() && #[trigger] e[t].0 == p && e[t].1 == x
}

/// Some entry of `e` for doc `p` has changed path `x`.
pub open spec fn has_entry_change(e: Seq<DocEntry>, p: Seq<char>, x: Seq<char>) -> bool {
    exists|t: int| 0 <= t < e.len() && #[trigger] e[t].0 == p && e[t].2 == x
}

/// Some entry of `e` for doc `p` has mode `x`.
pub open spec fn has_entry_mode(e: Seq<DocEntry>, p: Seq<char>, x: RequiredDocMode) -> bool {
    exists|t: int| 0 <= t < e.len() && #[trigger] e[t].0 == p && e[t].3 == x
}

/// The expected doc `d` collects exactly the entries of `e` for its path.
pub open spec fn doc_groups(d: ExpectedDocView, e: Seq<DocEntry>) -> bool {
    &&& strictly_sorted(d.rules)
    &&& strictly_sorted(d.changed_paths)
    &&& modes_sorted(d.modes)
    &&& forall|x: Seq<char>| #[trigger] d.rules.contains(x) <==> has_entry_rule(e, d.path, x)
    &&& forall|x: Seq<char>|
        #[trigger] d.changed_paths.contains(x) <==> has_entry_change(e, d.path, x)
    &&& forall|x: RequiredDocMode| #[trigger] d.modes.contains(x) <==> has_entry_mode(e, d.path, x)
}

/// `r` groups the entries by doc path: one doc per path, paths in increasing order,
/// each with the sorted sets of rule ids, changed paths and modes of its entries.
pub open spec fn groups_entries(r: Seq<ExpectedDocView>, e: Seq<DocEntry>) -> bool {
    &&& forall|i: int, j: int| 0 <= i < j < r.len() ==> seq_lt(#[trigger] r[i].path, #[trigger] r[j].path)
    &&& forall|p: Seq<char>| #[trigger] has_doc_path(r, p) <==> has_entry_path(e, p)
    &&& forall|k: int| 0 <= k < r.len() ==> doc_groups(#[trigger] r[k], e)
}

/// The entries of all required docs of the matches, as strings.
pub fn flatten_entries(matches: &[MatchedRule]) -> (r: Vec<(String, String, String, RequiredDocMode)>)
    ensures
        r@.map_values(|e: (String, String, String, RequiredDocMode)| (e.0@, e.1@, e.2@, e.3))
            == expected_entries(matched_views(matches@)),
{
    let ghost ms = matched_views(matches@);
    let mut r: Vec<(String, String, String, RequiredDocMode)> = Vec::new();
    let mut i: usize = 0;
    while i < matches.len()
        invariant
            i <= matches.len(),
            ms == matched_views(matches@),
            r@.map_values(|e: (String, String, String, RequiredDocMode)| (e.0@, e.1@, e.2@, e.3))
                == expected_entries(ms.take(i as int)),
        decreases matches.len() - i,
    {
        let m = &matches[i];
        let ghost before = r@.map_values(
            |e: (String, String, String, RequiredDocMode)| (e.0@, e.1@, e.2@, e.3),
        );
        let mut j: usize = 0;
        while j < m.rule.required_docs.len()
            invariant
                i < matches.len(),
                m == matches@[i as int],
                j <= m.rule.required_docs.len(),
                r@.map_values(|e: (String, String, String, RequiredDocMode)| (e.0@, e.1@, e.2@, e.3))
                    == before + match_entries(m@).take(j as int),
            decreases m.rule.required_docs.len() - j,
        {
            let doc = &m.rule.required_docs[j];
            let full = resolve_rule_path(m.base_dir.as_str(), doc.path.as_str());
            let mode = mode_of_field(&doc.mode);
            let ghost prev = r@;
            r.push((full, m.rule.id.clone(), m.changed_path.clone(), mode));
            proof {
                assert(m@.rule.required_docs[j as int] == doc@);
                let ent = match_entries(m@)[j as int];
                assert(ent.0 == full@);
                assert(ent.3 == mode);
                assert(r@.last().0@ == ent.0 && r@.last().1@ == ent.1 && r@.last().2@ == ent.2 && r@.last().3 == ent.3);
                assert(r@ == prev.push(r@.last()));
                let f = |e: (String, String, String, RequiredDocMode)| (e.0@, e.1@, e.2@, e.3);
                assert(r@.map_values(f) =~= prev.map_values(f).push(ent));
                assert(match_entries(m@).take(j + 1) =~= match_entries(m@).take(j as int).push(
                    match_entries(m@)[j as int],
                ));
                assert(r@.map_values(
                    |e: (String, String, String, RequiredDocMode)| (e.0@, e.1@, e.2@, e.3),
                ) =~= before + match_entries(m@).take(j + 1));
            }
            j += 1;
        }
        proof {
            assert(match_entries(m@).take(m.rule.required_docs.len() as int) =~= match_entries(m@));
            assert(ms.take(i + 1).drop_last() =~= ms.take(i as int));
            assert(ms.take(i + 1).last() == m@);
        }
        i += 1;
    }
    proof {
        assert(ms.take(matches.len() as int) =~= ms);
    }
    r
}


proof fn lemma_entries_push(e: Seq<DocEntry>, ent: DocEntry)
    ensures
        forall|p: Seq<char>| #[trigger] has_entry_path(e.push(ent), p) == (has_entry_path(e, p) || p == ent.0),
        forall|p: Seq<char>, x: Seq<char>|
            #[trigger] has_entry_rule(e.push(ent), p, x) == (has_entry_rule(e, p, x) || (p == ent.0
                && x == ent.1)),
        forall|p: Seq<char>, x: Seq<char>|
            #[trigger] has_entry_change(e.push(ent), p, x) == (has_entry_change(e, p, x) || (p
                == ent.0 && x == ent.2)),
        forall|p: Seq<char>, x: RequiredDocMode|
            #[trigger] has_entry_mode(e.push(ent), p, x) == (has_entry_mode(e, p, x) || (p == ent.0
                && x == ent.3)),
{
    let e2 = e.push(ent);
    assert forall|p: Seq<char>| #[trigger] has_entry_path(e2, p) == (has_entry_path(e, p) || p == ent.0) by {
        if has_entry_path(e2, p) {
            let t = choose|t: int| 0 <= t < e2.len() && #[trigger] e2[t].0 == p;
            if t < e.len() {
                assert(e[t].0 == p);
            }
        }
        if has_entry_path(e, p) {
            let t = choose|t: int| 0 <= t < e.len() && #[trigger] e[t].0 == p;
            assert(e2[t].0 == p);
        }
        if p == ent.0 {
            assert(e2[e.len() as int].0 == p);
        }
    }
    assert forall|p: Seq<char>, x: Seq<char>|
        #[trigger] has_entry_rule(e2, p, x) == (has_entry_rule(e, p, x) || (p == ent.0 && x == ent.1)) by {
        if has_entry_rule(e2, p, x) {
            let t = choose|t: int| 0 <= t < e2.len() && #[trigger] e2[t].0 == p && e2[t].1 == x;
            if t < e.len() {
                assert(e[t].0 == p);
            }
        }
        if has_entry_rule(e, p, x) {
            let t = choose|t: int| 0 <= t < e.len() && #[trigger] e[t].0 == p && e[t].1 == x;
            assert(e2[t].0 == p);
        }
        if p == ent.0 && x == ent.1 {
            assert(e2[e.len() as int].0 == p);
        }
    }
    assert forall|p: Seq<char>, x: Seq<char>|
        #[trigger] has_entry_change(e2, p, x) == (has_entry_change(e, p, x) || (p == ent.0 && x == ent.2)) by {
        if has_entry_change(e2, p, x) {
            let t = choose|t: int| 0 <= t < e2.len() && #[trigger] e2[t].0 == p && e2[t].2 == x;
            if t < e.len() {
                assert(e[t].0 == p);
            }
        }
        if has_entry_change(e, p, x) {
            let t = choose|t: int| 0 <= t < e.len() && #[trigger] e[t].0 == p && e[t].2 == x;
            assert(e2[t].0 == p);
        }
        if p == ent.0 && x == ent.2 {
            assert(e2[e.len() as int].0 == p);
        }
    }
    assert forall|p: Seq<char>, x: RequiredDocMode|
        #[trigger] has_entry_mode(e2, p, x) == (has_entry_mode(e, p, x) || (p == ent.0 && x == ent.3)) by {
        if has_entry_mode(e2, p, x) {
            let t = choose|t: int| 0 <= t < e2.len() && #[trigger] e2[t].0 == p && e2[t].3 == x;
            if t < e.len() {
                assert(e[t].0 == p);
            }
        }
        if has_entry_mode(e, p, x) {
            let t = choose|t: int| 0 <= t < e.len() && #[trigger] e[t].0 == p && e[t].3 == x;
            assert(e2[t].0 == p);
        }
        if p == ent.0 && x == ent.3 {
            assert(e2[e.len() as int].0 == p);
        }
    }
}

proof fn lemma_doc_groups_other(d: ExpectedDocView, e: Seq<DocEntry>, ent: DocEntry)
    requires
        doc_groups(d, e),
        d.path != ent.0,
    ensures
        doc_groups(d, e.push(ent)),
{
    lemma_entries_push(e, ent);
}

/// Groups the required docs of the matches by resolved path: for each doc path the
/// sorted sets of the rule ids, changed paths and modes that require it; the docs
/// come in increasing path order (the order of a `BTreeMap` keyed by path).
pub fn collect_expected_docs(matches: &[MatchedRule]) -> (r: Vec<ExpectedDoc>)
    ensures
        groups_entries(expected_views(r@), expected_entries(matched_views(matches@))),
{
    let entries = flatten_entries(matches);
    let ghost e = entries@.map_values(
        |x: (String, String, String, RequiredDocMode)| (x.0@, x.1@, x.2@, x.3),
    );
    let mut r: Vec<ExpectedDoc> = Vec::new();
    let mut t: usize = 0;
    proof {
        assert(e.take(0) =~= Seq::<DocEntry>::empty());
    }
    while t < entries.len()
        invariant
            t <= entries.len(),
            e == entries@.map_values(
                |x: (String, String, String, RequiredDocMode)| (x.0@, x.1@, x.2@, x.3),
            ),
            groups_entries(expected_views(r@), e.take(t as int)),
        decreases entries.len() - t,
    {
        let ghost et = e.take(t as int);
        let ghost ent = e[t as int];
        let ghost rv0 = expected_views(r@);
        proof {
            assert(e.take(t + 1) =~= et.push(ent));
            lemma_entries_push(et, ent);
        }
        let path = &entries[t].0;
        let pv = chars_of(path.as_str());
        let mut j: usize = 0;
        let mut stop = false;
        while j < r.len() && !stop
            invariant
                j <= r.len(),
                pv@ == ent.0,
                rv0 == expected_views(r@),
                forall|k: int| 0 <= k < j ==> seq_lt(#[trigger] rv0[k].path, ent.0),
                stop ==> j < r.len() && !seq_lt(rv0[j as int].path, ent.0),
            decreases r.len() - j + (if stop { 0int } else { 1int }),
        {
            let rpv = chars_of(r[j].path.as_str());
            if !chars_lt(&rpv, &pv) {
                stop = true;
            } else {
                j += 1;
            }
        }
        let mut found = false;
        if j < r.len() {
            let rpv = chars_of(r[j].path.as_str());
            found = chars_eq(&rpv, &pv);
        }
        let ghost jj = j as int;
        if found {
            let mut d = r.remove(j);
            let ghost dv0 = d@;
            proof {
                assert(dv0 == rv0[jj]);
                assert(doc_groups(dv0, et));
            }
            insert_sorted_unique(&mut d.rules, entries[t].1.clone());
            insert_sorted_unique(&mut d.changed_paths, entries[t].2.clone());
            insert_mode(&mut d.modes, entries[t].3);
            proof {
                assert(d@.path == ent.0);
                assert(doc_groups(d@, e.take(t + 1)));
            }
            r.insert(j, d);
            proof {
                let rv = expected_views(r@);
                assert(rv =~= rv0.update(jj, rv[jj]));
                assert forall|k: int| 0 <= k < rv.len() implies doc_groups(#[trigger] rv[k], e.take(t + 1)) by {
                    if k != jj {
                        assert(rv[k] == rv0[k]);
                        assert(doc_groups(rv0[k], et));
                        if rv0[k].path == ent.0 {
                            if k < jj {
                                assert(seq_lt(rv0[k].path, rv0[jj].path));
                            } else {
                                assert(seq_lt(rv0[jj].path, rv0[k].path));
                            }
                            crate::text::lemma_seq_lt_irreflexive(ent.0);
                        }
                        lemma_doc_groups_other(rv0[k], et, ent);
                    }
                }
                assert forall|p: Seq<char>| #[trigger] has_doc_path(rv, p) <==> has_entry_path(
                    e.take(t + 1),
                    p,
                ) by {
                    if has_doc_path(rv, p) {
                        let k = choose|k: int| 0 <= k < rv.len() && #[trigger] rv[k].path == p;
                        assert(rv0[k].path == p);
                        assert(has_doc_path(rv0, p));
                    }
                    if has_doc_path(rv0, p) {
                        let k = choose|k: int| 0 <= k < rv0.len() && #[trigger] rv0[k].path == p;
                        assert(rv[k].path == p);
                    }
                    if p == ent.0 {
                        assert(rv[jj].path == p);
                    }
                }
            }
        } else {
            let mut rules: Vec<String> = Vec::new();
            rules.push(entries[t].1.clone());
            let mut changed: Vec<String> = Vec::new();
            changed.push(entries[t].2.clone());
            let mut modes: Vec<RequiredDocMode> = Vec::new();
            modes.push(entries[t].3);
            let d = ExpectedDoc { path: path.clone(), rules, changed_paths: changed, modes };
            proof {
                // no earlier entry has this path
                if jj < rv0.len() {
                    lemma_seq_lt_trichotomy(rv0[jj].path, ent.0);
                }
                assert(!has_doc_path(rv0, ent.0)) by {
                    if has_doc_path(rv0, ent.0) {
                        let k = choose|k: int| 0 <= k < rv0.len() && #[trigger] rv0[k].path == ent.0;
                        crate::text::lemma_seq_lt_irreflexive(ent.0);
                        if k > jj {
                            assert(seq_lt(rv0[jj].path, rv0[k].path));
                            lemma_seq_lt_transitive(ent.0, rv0[jj].path, rv0[k].path);
                        }
                    }
                }
                assert(!has_entry_path(et, ent.0));
                assert forall|x: Seq<char>| !has_entry_rule(et, ent.0, x) by {
                    if has_entry_rule(et, ent.0, x) {
                        let k = choose|k: int| 0 <= k < et.len() && #[trigger] et[k].0 == ent.0 && et[k].1 == x;
                        assert(has_entry_path(et, ent.0));
                    }
                }
                assert forall|x: Seq<char>| !has_entry_change(et, ent.0, x) by {
                    if has_entry_change(et, ent.0, x) {
                        let k = choose|k: int| 0 <= k < et.len() && #[trigger] et[k].0 == ent.0 && et[k].2 == x;
                        assert(has_entry_path(et, ent.0));
                    }
                }
                assert forall|x: RequiredDocMode| !has_entry_mode(et, ent.0, x) by {
                    if has_entry_mode(et, ent.0, x) {
                        let k = choose|k: int| 0 <= k < et.len() && #[trigger] et[k].0 == ent.0 && et[k].3 == x;
                        assert(has_entry_path(et, ent.0));
                    }
                }
                assert(d@.rules =~= seq![ent.1]);
                assert(d@.changed_paths =~= seq![ent.2]);
                assert(d@.modes =~= seq![ent.3]);
                assert(d@.path == ent.0);
                let e1 = e.take(t + 1);
                assert(e1 == et.push(ent));
                assert forall|x: Seq<char>| #[trigger] d@.rules.contains(x) <==> has_entry_rule(e1, d@.path, x) by {
                    assert(has_entry_rule(e1, ent.0, x) == (has_entry_rule(et, ent.0, x) || x == ent.1));
                    if x == ent.1 {
                        assert(d@.rules[0] == x);
                    }
                }
                assert forall|x: Seq<char>| #[trigger] d@.changed_paths.contains(x) <==> has_entry_change(e1, d@.path, x) by {
                    assert(has_entry_change(e1, ent.0, x) == (has_entry_change(et, ent.0, x) || x == ent.2));
                    if x == ent.2 {
                        assert(d@.changed_paths[0] == x);
                    }
                }
                assert forall|x: RequiredDocMode| #[trigger] d@.modes.contains(x) <==> has_entry_mode(e1, d@.path, x) by {
                    assert(has_entry_mode(e1, ent.0, x) == (has_entry_mode(et, ent.0, x) || x == ent.3));
                    if x == ent.3 {
                        assert(d@.modes[0] == x);
                    }
                }
                assert(doc_groups(d@, e.take(t + 1)));
            }
            r.insert(j, d);
            proof {
                let rv = expected_views(r@);
                assert(rv =~= rv0.insert(jj, d@));
                assert forall|a: int, b: int| 0 <= a < b < rv.len() implies seq_lt(
                    #[trigger] rv[a].path,
                    #[trigger] rv[b].path,
                ) by {
                    if b == jj {
                        assert(seq_lt(rv0[a].path, ent.0));
                    } else if a == jj {
                        lemma_seq_lt_trichotomy(rv0[jj].path, ent.0);
                        if b - 1 > jj {
                            assert(seq_lt(rv0[jj].path, rv0[b - 1].path));
                            lemma_seq_lt_transitive(ent.0, rv0[jj].path, rv0[b - 1].path);
                        }
                    } else if a < jj && b > jj {
                        assert(seq_lt(rv0[a].path, rv0[b - 1].path));
                    } else if a > jj {
                        assert(seq_lt(rv0[a - 1].path, rv0[b - 1].path));
                    } else {
                        assert(seq_lt(rv0[a].path, rv0[b].path));
                    }
                }
                assert forall|k: int| 0 <= k < rv.len() implies doc_groups(#[trigger] rv[k], e.take(t + 1)) by {
                    if k < jj {
                        assert(rv[k] == rv0[k]);
                        assert(doc_groups(rv0[k], et));
                        crate::text::lemma_seq_lt_irreflexive(ent.0);
                        lemma_doc_groups_other(rv0[k], et, ent);
                    } else if k > jj {
                        assert(rv[k] == rv0[k - 1]);
                        assert(doc_groups(rv0[k - 1], et));
                        assert(has_doc_path(rv0, rv0[k - 1].path));
                        lemma_doc_groups_other(rv0[k - 1], et, ent);
                    }
                }
                assert forall|p: Seq<char>| #[trigger] has_doc_path(rv, p) <==> has_entry_path(
                    e.take(t + 1),
                    p,
                ) by {
                    if has_doc_path(rv, p) {
                        let k = choose|k: int| 0 <= k < rv.len() && #[trigger] rv[k].path == p;
                        if k < jj {
                            assert(rv0[k].path == p);
                            assert(has_doc_path(rv0, p));
                        } else if k > jj {
                            assert(rv0[k - 1].path == p);
                            assert(has_doc_path(rv0, p));
                        }
                    }
                    if has_doc_path(rv0, p) {
                        let k = choose|k: int| 0 <= k < rv0.len() && #[trigger] rv0[k].path == p;
                        if k < jj {
                            assert(rv[k].path == p);
                        } else {
                            assert(rv[k + 1].path == p);
                        }
                    }
                    if p == ent.0 {
                        assert(rv[jj].path == p);
                    }
                }
            }
        }
        t += 1;
    }
    proof {
        assert(e.take(entries.len() as int) =~= e);
    }
    r
}

proof fn lemma_entries_members(ms: Seq<MatchedRuleView>, x: DocEntry)
    ensures
        expected_entries(ms).contains(x) <==> exists|k: int|
            0 <= k < ms.len() && #[trigger] match_entries(ms[k]).contains(x),
    decreases ms.len(),
{
    if ms.len() > 0 {
        let d = ms.drop_last();
        lemma_entries_members(d, x);
        let e = expected_entries(ms);
        let pe = expected_entries(d);
        let last = match_entries(ms.last());
        assert(e == pe + last);
        if e.contains(x) {
            let t = choose|t: int| 0 <= t < e.len() && e[t] == x;
            if t < pe.len() {
                assert(pe[t] == x);
                assert(pe.contains(x));
                let k = choose|k: int| 0 <= k < d.len() && #[trigger] match_entries(d[k]).contains(x);
                assert(d[k] == ms[k]);
            } else {
                assert(last[t - pe.len()] == x);
                assert(last.contains(x));
                assert(match_entries(ms[ms.len() - 1]).contains(x));
            }
        }
        if exists|k: int| 0 <= k < ms.len() && #[trigger] match_entries(ms[k]).contains(x) {
            let k = choose|k: int| 0 <= k < ms.len() && #[trigger] match_entries(ms[k]).contains(x);
            if k < ms.len() - 1 {
                assert(d[k] == ms[k]);
                assert(match_entries(d[k]).contains(x));
                assert(pe.contains(x));
                let t = choose|t: int| 0 <= t < pe.len() && pe[t] == x;
                assert(e[t] == x);
            } else {
                let j = choose|j: int| 0 <= j < last.len() && last[j] == x;
                assert(e[pe.len() + j] == x);
            }
        }
    }
}

proof fn lemma_same_entries(ms1: Seq<MatchedRuleView>, ms2: Seq<MatchedRuleView>, x: DocEntry)
    requires
        forall|m: MatchedRuleView| ms1.contains(m) <==> ms2.contains(m),
    ensures
        expected_entries(ms1).contains(x) <==> expected_entries(ms2).contains(x),
{
    lemma_entries_members(ms1, x);
    lemma_entries_members(ms2, x);
    if exists|k: int| 0 <= k < ms1.len() && #[trigger] match_entries(ms1[k]).contains(x) {
        let k = choose|k: int| 0 <= k < ms1.len() && #[trigger] match_entries(ms1[k]).contains(x);
        assert(ms1.contains(ms1[k]));
        let k2 = choose|k2: int| 0 <= k2 < ms2.len() && ms2[k2] == ms1[k];
        assert(match_entries(ms2[k2]).contains(x));
    }
    if exists|k: int| 0 <= k < ms2.len() && #[trigger] match_entries(ms2[k]).contains(x) {
        let k = choose|k: int| 0 <= k < ms2.len() && #[trigger] match_entries(ms2[k]).contains(x);
        assert(ms2.contains(ms2[k]));
        let k1 = choose|k1: int| 0 <= k1 < ms1.len() && ms1[k1] == ms2[k];
        assert(match_entries(ms1[k1]).contains(x));
    }
}

proof fn lemma_modes_unique(a: Seq<RequiredDocMode>, b: Seq<RequiredDocMode>)
    requires
        modes_sorted(a),
        modes_sorted(b),
        forall|x: RequiredDocMode| a.contains(x) <==> b.contains(x),
    ensures
        a == b,
    decreases a.len(),
{
    if a.len() == 0 {
        if b.len() > 0 {
            assert(b.contains(b[0]));
        }
        assert(a =~= b);
    } else {
        assert(a.contains(a[0]));
        assert(b.len() > 0);
        assert(b.contains(b[0]));
        if a[0] != b[0] {
            let i = choose|i: int| 0 <= i < a.len() && a[i] == b[0];
            let j = choose|j: int| 0 <= j < b.len() && b[j] == a[0];
            assert(i != 0 && j != 0);
            assert(mode_rank(a[0]) < mode_rank(a[i]));
            assert(mode_rank(b[0]) < mode_rank(b[j]));
        }
        let da = a.drop_first();
        let db = b.drop_first();
        assert forall|i: int, j: int| 0 <= i < j < da.len() implies mode_rank(#[trigger] da[i]) < mode_rank(#[trigger] da[j]) by {
            assert(da[i] == a[i + 1] && da[j] == a[j + 1]);
        }
        assert forall|i: int, j: int| 0 <= i < j < db.len() implies mode_rank(#[trigger] db[i]) < mode_rank(#[trigger] db[j]) by {
            assert(db[i] == b[i + 1] && db[j] == b[j + 1]);
        }
        assert forall|x: RequiredDocMode| da.contains(x) <==> db.contains(x) by {
            if da.contains(x) {
                let i = choose|i: int| 0 <= i < da.len() && da[i] == x;
                assert(a[i + 1] == x);
                assert(mode_rank(a[0]) < mode_rank(x));
                assert(a.contains(x));
                let j = choose|j: int| 0 <= j < b.len() && b[j] == x;
                assert(j != 0);
                assert(db[j - 1] == x);
            }
            if db.contains(x) {
                let j = choose|j: int| 0 <= j < db.len() && db[j] == x;
                assert(b[j + 1] == x);
                assert(mode_rank(b[0]) < mode_rank(x));
                assert(b.contains(x));
                let i = choose|i: int| 0 <= i < a.len() && a[i] == x;
                assert(i != 0);
                assert(da[i - 1] == x);
            }
        }
        lemma_modes_unique(da, db);
        assert(a =~= seq![a[0]] + da);
        assert(b =~= seq![b[0]] + db);
    }
}

/// The expected documents depend only on which rules matched which changed paths, not
/// on the order of the matches or on repeated matches: two match lists with the same
/// elements give the same expected documents.
pub proof fn law_expected_docs_ignore_match_order(
    ms1: Seq<MatchedRuleView>,
    ms2: Seq<MatchedRuleView>,
    r1: Seq<ExpectedDocView>,
    r2: Seq<ExpectedDocView>,
)
    requires
        forall|m: MatchedRuleView| ms1.contains(m) <==> ms2.contains(m),
        groups_entries(r1, expected_entries(ms1)),
        groups_entries(r2, expected_entries(ms2)),
    ensures
        r1 == r2,
{
    let e1 = expected_entries(ms1);
    let e2 = expected_entries(ms2);
    assert forall|x: DocEntry| e1.contains(x) <==> e2.contains(x) by {
        lemma_same_entries(ms1, ms2, x);
    }
    assert forall|t: int| 0 <= t < e1.len() implies e2.contains(#[trigger] e1[t]) by {
        assert(e1.contains(e1[t]));
    }
    assert forall|t: int| 0 <= t < e2.len() implies e1.contains(#[trigger] e2[t]) by {
        assert(e2.contains(e2[t]));
    }
    let p1 = r1.map_values(|d: ExpectedDocView| d.path);
    let p2 = r2.map_values(|d: ExpectedDocView| d.path);
    assert forall|p: Seq<char>| p1.contains(p) <==> p2.contains(p) by {
        if p1.contains(p) {
            let k = choose|k: int| 0 <= k < p1.len() && p1[k] == p;
            assert(has_doc_path(r1, p));
            let t = choose|t: int| 0 <= t < e1.len() && #[trigger] e1[t].0 == p;
            let u = choose|u: int| 0 <= u < e2.len() && e2[u] == e1[t];
            assert(has_entry_path(e2, p));
            assert(has_doc_path(r2, p));
            let k2 = choose|k2: int| 0 <= k2 < r2.len() && #[trigger] r2[k2].path == p;
            assert(p2[k2] == p);
        }
        if p2.contains(p) {
            let k = choose|k: int| 0 <= k < p2.len() && p2[k] == p;
            assert(has_doc_path(r2, p));
            let t = choose|t: int| 0 <= t < e2.len() && #[trigger] e2[t].0 == p;
            let u = choose|u: int| 0 <= u < e1.len() && e1[u] == e2[t];
            assert(has_entry_path(e1, p));
            assert(has_doc_path(r1, p));
            let k1 = choose|k1: int| 0 <= k1 < r1.len() && #[trigger] r1[k1].path == p;
            assert(p1[k1] == p);
        }
    }
    assert(strictly_sorted(p1)) by {
        assert forall|i: int, j: int| 0 <= i < j < p1.len() implies seq_lt(#[trigger] p1[i], #[trigger] p1[j]) by {
            assert(seq_lt(r1[i].path, r1[j].path));
        }
    }
    assert(strictly_sorted(p2)) by {
        assert forall|i: int, j: int| 0 <= i < j < p2.len() implies seq_lt(#[trigger] p2[i], #[trigger] p2[j]) by {
            assert(seq_lt(r2[i].path, r2[j].path));
        }
    }
    lemma_sorted_set_unique(p1, p2);
    assert forall|k: int| 0 <= k < r1.len() implies #[trigger] r1[k] == r2[k] by {
        let a = r1[k];
        let b = r2[k];
        assert(p1[k] == p2[k]);
        let p = a.path;
        assert(doc_groups(a, e1));
        assert(doc_groups(b, e2));
        assert forall|x: Seq<char>| a.rules.contains(x) <==> b.rules.contains(x) by {
            if has_entry_rule(e1, p, x) {
                let t = choose|t: int| 0 <= t < e1.len() && #[trigger] e1[t].0 == p && e1[t].1 == x;
                let u = choose|u: int| 0 <= u < e2.len() && e2[u] == e1[t];
                assert(has_entry_rule(e2, p, x));
            }
            if has_entry_rule(e2, p, x) {
                let t = choose|t: int| 0 <= t < e2.len() && #[trigger] e2[t].0 == p && e2[t].1 == x;
                let u = choose|u: int| 0 <= u < e1.len() && e1[u] == e2[t];
                assert(has_entry_rule(e1, p, x));
            }
        }
        assert forall|x: Seq<char>| a.changed_paths.contains(x) <==> b.changed_paths.contains(x) by {
            if has_entry_change(e1, p, x) {
                let t = choose|t: int| 0 <= t < e1.len() && #[trigger] e1[t].0 == p && e1[t].2 == x;
                let u = choose|u: int| 0 <= u < e2.len() && e2[u] == e1[t];
                assert(has_entry_change(e2, p, x));
            }
            if has_entry_change(e2, p, x) {
                let t = choose|t: int| 0 <= t < e2.len() && #[trigger] e2[t].0 == p && e2[t].2 == x;
                let u = choose|u: int| 0 <= u < e1.len() && e1[u] == e2[t];
                assert(has_entry_change(e1, p, x));
            }
        }
        assert forall|x: RequiredDocMode| a.modes.contains(x) <==> b.modes.contains(x) by {
            if has_entry_mode(e1, p, x) {
                let t = choose|t: int| 0 <= t < e1.len() && #[trigger] e1[t].0 == p && e1[t].3 == x;
                let u = choose|u: int| 0 <= u < e2.len() && e2[u] == e1[t];
                assert(has_entry_mode(e2, p, x));
            }
            if has_entry_mode(e2, p, x) {
                let t = choose|t: int| 0 <= t < e2.len() && #[trigger] e2[t].0 == p && e2[t].3 == x;
                let u = choose|u: int| 0 <= u < e1.len() && e1[u] == e2[t];
                assert(has_entry_mode(e1, p, x));
            }
        }
        lemma_sorted_set_unique(a.rules, b.rules);
        lemma_sorted_set_unique(a.changed_paths, b.changed_paths);
        lemma_modes_unique(a.modes, b.modes);
    }
    assert(r1 =~= r2);
}

} // verus!
