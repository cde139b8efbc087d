//! Waivers: temporary, owned exceptions for findings, and how they mark the findings
//! of a diagnostics artifact.
use vstd::prelude::*;
use vstd::string::*;
use crate::baseline::{BaselineFingerprint, FingerprintView, fingerprint_eq, fingerprint_for, fingerprint_of};
use crate::config::model::opt_view;
use crate::config::paths::{
    is_absolute_path, normalize_path, normalized, path_is_absolute, relative_display, stripped_path,
};
use crate::diagnostics::{
    DiagnosticRecord, DiagnosticView, DiagnosticsArtifact, ExpiredWaiver, ExpiredWaiverView, WaiverSummary,
    diagnostic_views,
};
use crate::rules::{glob_matches, matches_pattern};
use crate::text::{
    cat2, cat3, chars_eq, chars_lt, chars_of, lemma_seq_lt_irreflexive, is_sorted_set_of, lemma_sorted_set_is, nonempty_values, seq_lt, sorted_set,
    sorted_unique_strings, str_lt, str_to_string, trim, trim_string, views,
};

verus! {

/// The schema version of waiver files.
pub const WAIVER_SCHEMA_VERSION: &'static str = "docpact.waivers.v1";

/// A waiver file.
#[derive(Debug)]
pub struct WaiverFile {
    pub schema_version: String,
    pub tool_name: String,
    pub tool_version: String,
    pub waiver_count: usize,
    pub waivers: Vec<WaiverRecord>,
}

/// One waiver: the fingerprint it covers, why, who owns it, until when, and an
/// optional narrowing scope.
#[derive(Debug)]
pub struct WaiverRecord {
    pub fingerprint: BaselineFingerprint,
    pub reason: String,
    pub owner: String,
    pub expires_at: String,
    pub scope: WaiverScope,
}

/// The rule ids and path patterns a waiver is narrowed to; an empty list does not
/// narrow.
#[derive(Debug)]
pub struct WaiverScope {
    pub rule_ids: Vec<String>,
    pub paths: Vec<String>,
}

/// The view of a waiver.
pub struct WaiverView {
    pub fingerprint: FingerprintView,
    pub reason: Seq<char>,
    pub owner: Seq<char>,
    pub expires_at: Seq<char>,
    pub scope_rule_ids: Seq<Seq<char>>,
    pub scope_paths: Seq<Seq<char>>,
}

impl View for WaiverRecord {
    type V = WaiverView;

    open spec fn view(&self) -> WaiverView {
        WaiverView {
            fingerprint: self.fingerprint@,
            reason: self.reason@,
            owner: self.owner@,
            expires_at: self.expires_at@,
            scope_rule_ids: views(self.scope.rule_ids@),
            scope_paths: views(self.scope.paths@),
        }
    }
}

/// The views of a list of waivers.
pub open spec fn waiver_views(v: Seq<WaiverRecord>) -> Seq<WaiverView> {
    v.map_values(|w: WaiverRecord| w@)
}

impl WaiverScope {
    /// The scope narrows nothing: no rule ids and no paths.
    pub fn is_empty(&self) -> (b: bool)
        ensures
            b == (self.rule_ids@.len() == 0 && self.paths@.len() == 0),
    {
        self.rule_ids.len() == 0 && self.paths.len() == 0
    }
}

/// A waiver has expired on `current` when its expiry date sorts before it.
pub open spec fn expired_on(current: Seq<char>, w: WaiverView) -> bool {
    seq_lt(w.expires_at, current)
}

/// Whether a waiver expiring at `expires_at` has expired on `current_date`: the dates
/// compare as text, so `YYYY-MM-DD` dates compare by day.
pub fn is_expired(current_date: &str, expires_at: &str) -> (b: bool)
    ensures
        b == seq_lt(expires_at@, current_date@),
{
    str_lt(expires_at, current_date)
}

/// A waiver covers a finding: same fingerprint, the finding's rule among the scope's
/// rule ids when there are any, and its path matched by some scope pattern when there
/// are any.
pub open spec fn covers(w: WaiverView, d: DiagnosticView) -> bool {
    &&& fingerprint_of(d) == w.fingerprint
    &&& (w.scope_rule_ids.len() == 0 || w.scope_rule_ids.contains(d.rule_id))
    &&& (w.scope_paths.len() == 0 || exists|k: int| 0 <= k < w.scope_paths.len() && #[trigger] glob_matches(d.path, w.scope_paths[k]))
}

fn scope_has_rule(ids: &Vec<String>, rule_id: &String) -> (b: bool)
    ensures
        b == views(ids@).contains(rule_id@),
{
    let r = chars_of(rule_id.as_str());
    let mut i: usize = 0;
    while i < ids.len()
        invariant
            i <= ids.len(),
            r@ == rule_id@,
            forall|k: int| 0 <= k < i ==> ids@[k]@ != rule_id@,
        decreases ids.len() - i,
    {
        if chars_eq(&chars_of(ids[i].as_str()), &r) {
            proof {
                assert(views(ids@)[i as int] == rule_id@);
            }
            return true;
        }
        i += 1;
    }
    proof {
        if views(ids@).contains(rule_id@) {
            let k = choose|k: int| 0 <= k < views(ids@).len() && views(ids@)[k] == rule_id@;
            assert(ids@[k]@ == rule_id@);
        }
    }
    false
}

fn scope_has_path(patterns: &Vec<String>, path: &String) -> (b: bool)
    ensures
        b == exists|k: int| 0 <= k < patterns@.len() && #[trigger] glob_matches(path@, views(patterns@)[k]),
{
    let mut i: usize = 0;
    while i < patterns.len()
        invariant
            i <= patterns.len(),
            forall|k: int| 0 <= k < i ==> !#[trigger] glob_matches(path@, views(patterns@)[k]),
        decreases patterns.len() - i,
    {
        if matches_pattern(path.as_str(), patterns[i].as_str()) {
            proof {
                assert(glob_matches(path@, views(patterns@)[i as int]));
            }
            return true;
        }
        i += 1;
    }
    false
}

/// Whether the waiver covers the finding, as `covers` says.
pub fn waiver_matches(diagnostic: &DiagnosticRecord, waiver: &WaiverRecord) -> (b: bool)
    ensures
        b == covers(waiver@, diagnostic@),
{
    let f = fingerprint_for(diagnostic);
    if !fingerprint_eq(&f, &waiver.fingerprint) {
        return false;
    }
    if waiver.scope.rule_ids.len() > 0 && !scope_has_rule(&waiver.scope.rule_ids, &diagnostic.rule_id) {
        return false;
    }
    if waiver.scope.paths.len() > 0 && !scope_has_path(&waiver.scope.paths, &diagnostic.path) {
        return false;
    }
    true
}

/// The first waiver of `ws` that is unexpired on `current` and covers the finding.
pub open spec fn first_cover(current: Seq<char>, d: DiagnosticView, ws: Seq<WaiverView>) -> Option<WaiverView>
    decreases ws.len(),
{
    if ws.len() == 0 {
        None
    } else {
        let earlier = first_cover(current, d, ws.drop_last());
        if earlier is Some {
            earlier
        } else if !expired_on(current, ws.last()) && covers(ws.last(), d) {
            Some(ws.last())
        } else {
            None
        }
    }
}

/// The state of a finding that no waiver covers: what its baseline state says.
pub open spec fn unwaived_state(d: DiagnosticView) -> Seq<char> {
    if d.baseline_state == "suppressed_by_baseline"@ {
        "suppressed_by_baseline"@
    } else {
        "active"@
    }
}

/// A finding as the waivers leave it: waived by the first unexpired waiver that covers
/// it, with that waiver's reason, owner and expiry; otherwise in its baseline state,
/// with no waiver details.
pub open spec fn waived(current: Seq<char>, d: DiagnosticView, ws: Seq<WaiverView>) -> DiagnosticView {
    match first_cover(current, d, ws) {
        Some(w) => DiagnosticView {
            finding_state: "waived"@,
            waiver_reason: Some(w.reason),
            waiver_owner: Some(w.owner),
            waiver_expires_at: Some(w.expires_at),
            ..d
        },
        None => DiagnosticView {
            finding_state: unwaived_state(d),
            waiver_reason: None,
            waiver_owner: None,
            waiver_expires_at: None,
            ..d
        },
    }
}

/// The record of an expired waiver.
pub open spec fn expired_record(w: WaiverView) -> ExpiredWaiverView {
    ExpiredWaiverView {
        problem_type: w.fingerprint.problem_type,
        path: w.fingerprint.path,
        rule_id: w.fingerprint.rule_id,
        owner: w.owner,
        reason: w.reason,
        expires_at: w.expires_at,
    }
}

/// The records of the waivers that have expired on `current`, in order.
pub open spec fn expired_records(current: Seq<char>, ws: Seq<WaiverView>) -> Seq<ExpiredWaiverView>
    decreases ws.len(),
{
    if ws.len() == 0 {
        Seq::empty()
    } else if expired_on(current, ws.last()) {
        expired_records(current, ws.drop_last()).push(expired_record(ws.last()))
    } else {
        expired_records(current, ws.drop_last())
    }
}

/// The number of findings in the state `state`.
pub open spec fn count_state(ds: Seq<DiagnosticView>, state: Seq<char>) -> nat
    decreases ds.len(),
{
    if ds.len() == 0 {
        0
    } else {
        count_state(ds.drop_last(), state) + if ds.last().finding_state == state { 1nat } else { 0nat }
    }
}

/// The waiver status: whether some finding is waived and whether some waiver expired.
pub open spec fn waiver_status_of(waived_count: nat, expired_count: nat) -> Seq<char> {
    if waived_count == 0 && expired_count == 0 {
        "applied-no-match"@
    } else if expired_count == 0 {
        "has-waived-findings"@
    } else if waived_count == 0 {
        "has-expired-waivers"@
    } else {
        "has-waived-and-expired"@
    }
}

proof fn lemma_count_states(ds: Seq<DiagnosticView>)
    ensures
        count_state(ds, "waived"@) + count_state(ds, "suppressed_by_baseline"@) + count_state(ds, "active"@) <= ds.len(),
    decreases ds.len(),
{
    if ds.len() > 0 {
        lemma_count_states(ds.drop_last());
        proof_distinct_states();
    }
}

proof fn proof_distinct_states()
    ensures
        "waived"@ != "suppressed_by_baseline"@,
        "waived"@ != "active"@,
        "suppressed_by_baseline"@ != "active"@,
{
    reveal_strlit("waived");
    reveal_strlit("suppressed_by_baseline");
    reveal_strlit("active");
    assert("waived"@.len() != "suppressed_by_baseline"@.len());
    assert("waived"@.len() == "active"@.len());
    assert("waived"@[0] != "active"@[0]);
    assert("suppressed_by_baseline"@.len() != "active"@.len());
}

fn with_waiver(d: &DiagnosticRecord, w: &WaiverRecord) -> (r: DiagnosticRecord)
    ensures
        r@ == (DiagnosticView {
            finding_state: "waived"@,
            waiver_reason: Some(w@.reason),
            waiver_owner: Some(w@.owner),
            waiver_expires_at: Some(w@.expires_at),
            ..d@
        }),
{
    DiagnosticRecord {
        diagnostic_id: d.diagnostic_id.clone(),
        problem_type: d.problem_type.clone(),
        path: d.path.clone(),
        message: d.message.clone(),
        rule_id: d.rule_id.clone(),
        required_mode: d.required_mode.clone(),
        failure_reason: d.failure_reason.clone(),
        suggested_action: d.suggested_action.clone(),
        baseline_state: d.baseline_state.clone(),
        rule_source: d.rule_source.clone(),
        trigger_paths: d.trigger_paths.clone(),
        rule_reason: d.rule_reason.clone(),
        finding_state: str_to_string("waived"),
        waiver_reason: Some(w.reason.clone()),
        waiver_owner: Some(w.owner.clone()),
        waiver_expires_at: Some(w.expires_at.clone()),
    }
}

fn without_waiver(d: &DiagnosticRecord) -> (r: DiagnosticRecord)
    ensures
        r@ == (DiagnosticView {
            finding_state: unwaived_state(d@),
            waiver_reason: None,
            waiver_owner: None,
            waiver_expires_at: None,
            ..d@
        }),
{
    let state = if chars_eq(&chars_of(d.baseline_state.as_str()), &chars_of("suppressed_by_baseline")) {
        str_to_string("suppressed_by_baseline")
    } else {
        str_to_string("active")
    };
    DiagnosticRecord {
        diagnostic_id: d.diagnostic_id.clone(),
        problem_type: d.problem_type.clone(),
        path: d.path.clone(),
        message: d.message.clone(),
        rule_id: d.rule_id.clone(),
        required_mode: d.required_mode.clone(),
        failure_reason: d.failure_reason.clone(),
        suggested_action: d.suggested_action.clone(),
        baseline_state: d.baseline_state.clone(),
        rule_source: d.rule_source.clone(),
        trigger_paths: d.trigger_paths.clone(),
        rule_reason: d.rule_reason.clone(),
        finding_state: state,
        waiver_reason: None,
        waiver_owner: None,
        waiver_expires_at: None,
    }
}

fn find_cover(diagnostic: &DiagnosticRecord, waivers: &Vec<WaiverRecord>, current_date: &str) -> (r: Option<usize>)
    ensures
        match r {
            Some(k) => k < waivers@.len() && first_cover(current_date@, diagnostic@, waiver_views(waivers@)) == Some(
                waivers@[k as int]@,
            ),
            None => first_cover(current_date@, diagnostic@, waiver_views(waivers@)) is None,
        },
{
    let ghost wv = waiver_views(waivers@);
    let mut found: Option<usize> = None;
    let mut i: usize = 0;
    while i < waivers.len()
        invariant
            i <= waivers.len(),
            wv == waiver_views(waivers@),
            match found {
                Some(k) => k < i && first_cover(current_date@, diagnostic@, wv.take(i as int)) == Some(wv[k as int]),
                None => first_cover(current_date@, diagnostic@, wv.take(i as int)) is None,
            },
        decreases waivers.len() - i,
    {
        proof {
            assert(wv.take(i + 1).drop_last() =~= wv.take(i as int));
            assert(wv.take(i + 1).last() == waivers@[i as int]@);
        }
        if found.is_none() {
            let w = &waivers[i];
            if !is_expired(current_date, w.expires_at.as_str()) && waiver_matches(diagnostic, w) {
                found = Some(i);
            }
        }
        i += 1;
    }
    proof {
        assert(wv.take(i as int) =~= wv);
    }
    found
}

fn expired_waiver_of(w: &WaiverRecord) -> (r: ExpiredWaiver)
    ensures
        r@ == expired_record(w@),
{
    ExpiredWaiver {
        problem_type: w.fingerprint.problem_type.clone(),
        path: w.fingerprint.path.clone(),
        rule_id: w.fingerprint.rule_id.clone(),
        owner: w.owner.clone(),
        reason: w.reason.clone(),
        expires_at: w.expires_at.clone(),
    }
}

/// Applies the waivers on `current_date`: each finding is waived by the first
/// unexpired waiver that covers it, or else returns to its baseline state; the expired
/// waivers are listed; the waiver summary and status, the baseline summary (waived
/// findings are neither suppressed nor active) and the run status (`ok` when no
/// finding is active) are set.
pub fn apply_waivers(artifact: &mut DiagnosticsArtifact, waivers: &WaiverFile, current_date: &str) -> (r: Result<(), String>)
    ensures
        r is Ok,
        ({
            let ds = diagnostic_views(old(artifact).diagnostics@);
            let ws = waiver_views(waivers.waivers@);
            let out = ds.map_values(|d: DiagnosticView| waived(current_date@, d, ws));
            let expired = expired_records(current_date@, ws);
            let waived_count = count_state(out, "waived"@);
            let suppressed = count_state(out, "suppressed_by_baseline"@);
            let active = count_state(out, "active"@);
            &&& diagnostic_views(final(artifact).diagnostics@) == out
            &&& final(artifact).expired_waivers@.map_values(|e: ExpiredWaiver| e@) == expired
            &&& final(artifact).waiver_summary.waived_count == waived_count
            &&& final(artifact).waiver_summary.expired_count == expired.len()
            &&& final(artifact).waiver_status@ == waiver_status_of(waived_count, expired.len())
            &&& final(artifact).baseline_summary.suppressed_count == suppressed
            &&& final(artifact).baseline_summary.active_count == active
            &&& final(artifact).status@ == if active == 0 { "ok"@ } else { "fail"@ }
            &&& final(artifact).schema_version == old(artifact).schema_version
            &&& final(artifact).baseline_status == old(artifact).baseline_status
        }),
{
    let ghost ws = waiver_views(waivers.waivers@);
    let mut expired: Vec<ExpiredWaiver> = Vec::new();
    let mut j: usize = 0;
    while j < waivers.waivers.len()
        invariant
            j <= waivers.waivers.len(),
            ws == waiver_views(waivers.waivers@),
            expired@.map_values(|e: ExpiredWaiver| e@) == expired_records(current_date@, ws.take(j as int)),
        decreases waivers.waivers.len() - j,
    {
        let w = &waivers.waivers[j];
        proof {
            assert(ws.take(j + 1).drop_last() =~= ws.take(j as int));
            assert(ws.take(j + 1).last() == w@);
        }
        if is_expired(current_date, w.expires_at.as_str()) {
            let ghost prev = expired@.map_values(|e: ExpiredWaiver| e@);
            expired.push(expired_waiver_of(w));
            proof {
                assert(expired@.map_values(|e: ExpiredWaiver| e@) =~= prev.push(expired_record(w@)));
            }
        }
        j += 1;
    }
    proof {
        assert(ws.take(j as int) =~= ws);
    }
    let ghost ds = diagnostic_views(artifact.diagnostics@);
    let mut out: Vec<DiagnosticRecord> = Vec::new();
    let mut waived_count: usize = 0;
    let mut suppressed: usize = 0;
    let mut active: usize = 0;
    let mut i: usize = 0;
    while i < artifact.diagnostics.len()
        invariant
            i <= artifact.diagnostics.len(),
            ds == diagnostic_views(artifact.diagnostics@),
            ws == waiver_views(waivers.waivers@),
            diagnostic_views(out@) == ds.take(i as int).map_values(|d: DiagnosticView| waived(current_date@, d, ws)),
            waived_count == count_state(diagnostic_views(out@), "waived"@),
            suppressed == count_state(diagnostic_views(out@), "suppressed_by_baseline"@),
            active == count_state(diagnostic_views(out@), "active"@),
            out@.len() == i,
        decreases artifact.diagnostics.len() - i,
    {
        let d = &artifact.diagnostics[i];
        let ghost prev = diagnostic_views(out@);
        proof {
            assert(ds[i as int] == d@);
            lemma_count_states(prev);
            proof_distinct_states();
        }
        match find_cover(d, &waivers.waivers, current_date) {
            Some(k) => {
                out.push(with_waiver(d, &waivers.waivers[k]));
                waived_count = waived_count + 1;
            },
            None => {
                let rec = without_waiver(d);
                if chars_eq(&chars_of(d.baseline_state.as_str()), &chars_of("suppressed_by_baseline")) {
                    suppressed = suppressed + 1;
                } else {
                    active = active + 1;
                }
                out.push(rec);
            },
        }
        proof {
            assert(diagnostic_views(out@) =~= prev.push(waived(current_date@, d@, ws)));
            assert(diagnostic_views(out@).drop_last() =~= prev);
            assert(ds.take(i + 1).map_values(|d: DiagnosticView| waived(current_date@, d, ws)) =~= ds.take(
                i as int,
            ).map_values(|d: DiagnosticView| waived(current_date@, d, ws)).push(waived(current_date@, d@, ws)));
        }
        i += 1;
    }
    proof {
        assert(ds.take(i as int) =~= ds);
    }
    let expired_count = expired.len();
    artifact.diagnostics = out;
    artifact.expired_waivers = expired;
    artifact.waiver_summary = WaiverSummary { waived_count, expired_count };
    artifact.waiver_status = if waived_count == 0 && expired_count == 0 {
        str_to_string("applied-no-match")
    } else if expired_count == 0 {
        str_to_string("has-waived-findings")
    } else if waived_count == 0 {
        str_to_string("has-expired-waivers")
    } else {
        str_to_string("has-waived-and-expired")
    };
    artifact.baseline_summary = crate::diagnostics::BaselineSummary { active_count: active, suppressed_count: suppressed };
    artifact.status = if active == 0 {
        str_to_string("ok")
    } else {
        str_to_string("fail")
    };
    Ok(())
}

/// The order of waivers in a waiver file: by problem type, path, rule id, expiry,
/// owner, then reason.
pub open spec fn waiver_lt(a: WaiverView, b: WaiverView) -> bool {
    let (x, y) = (a.fingerprint, b.fingerprint);
    seq_lt(x.problem_type, y.problem_type) || (x.problem_type == y.problem_type && (seq_lt(x.path, y.path) || (x.path
        == y.path && (seq_lt(x.rule_id, y.rule_id) || (x.rule_id == y.rule_id && (seq_lt(a.expires_at, b.expires_at)
        || (a.expires_at == b.expires_at && (seq_lt(a.owner, b.owner) || (a.owner == b.owner && seq_lt(
        a.reason,
        b.reason,
    ))))))))))
}

/// `x` inserted into `s` after every waiver it does not sort before.
pub open spec fn insert_waiver(s: Seq<WaiverView>, x: WaiverView) -> Seq<WaiverView>
    decreases s.len(),
{
    if s.len() == 0 {
        seq![x]
    } else if waiver_lt(x, s.last()) {
        insert_waiver(s.drop_last(), x).push(s.last())
    } else {
        s.push(x)
    }
}

/// `v` stably sorted by `waiver_lt`, as `sort_by` sorts it.
pub open spec fn sort_waivers(v: Seq<WaiverView>) -> Seq<WaiverView>
    decreases v.len(),
{
    if v.len() == 0 {
        Seq::empty()
    } else {
        insert_waiver(sort_waivers(v.drop_last()), v.last())
    }
}

proof fn lemma_insert_waiver_at(s: Seq<WaiverView>, x: WaiverView, j: int)
    requires
        0 <= j <= s.len(),
        forall|k: int| j <= k < s.len() ==> waiver_lt(x, #[trigger] s[k]),
        j == 0 || !waiver_lt(x, s[j - 1]),
    ensures
        insert_waiver(s, x) == s.take(j).push(x) + s.skip(j),
    decreases s.len(),
{
    if j == s.len() {
        if s.len() == 0 {
            assert(s.take(j).push(x) + s.skip(j) =~= seq![x]);
        } else {
            assert(s.take(j).push(x) + s.skip(j) =~= s.push(x));
        }
    } else {
        assert(waiver_lt(x, s[s.len() - 1]));
        let d = s.drop_last();
        assert forall|k: int| j <= k < d.len() implies waiver_lt(x, #[trigger] d[k]) by {
            assert(d[k] == s[k]);
        }
        lemma_insert_waiver_at(d, x, j);
        assert(d.take(j) =~= s.take(j));
        assert((d.take(j).push(x) + d.skip(j)).push(s.last()) =~= s.take(j).push(x) + s.skip(j));
    }
}

fn str_less(a: &String, b: &String) -> (r: bool)
    ensures
        r == seq_lt(a@, b@),
{
    chars_lt(&chars_of(a.as_str()), &chars_of(b.as_str()))
}

fn str_same(a: &String, b: &String) -> (r: bool)
    ensures
        r == (a@ == b@),
{
    chars_eq(&chars_of(a.as_str()), &chars_of(b.as_str()))
}

fn waiver_less(a: &WaiverRecord, b: &WaiverRecord) -> (r: bool)
    ensures
        r == waiver_lt(a@, b@),
{
    let (x, y) = (&a.fingerprint, &b.fingerprint);
    proof {
        lemma_seq_lt_irreflexive(x.problem_type@);
        lemma_seq_lt_irreflexive(x.path@);
        lemma_seq_lt_irreflexive(x.rule_id@);
        lemma_seq_lt_irreflexive(a.expires_at@);
        lemma_seq_lt_irreflexive(a.owner@);
    }
    if !str_same(&x.problem_type, &y.problem_type) {
        return str_less(&x.problem_type, &y.problem_type);
    }
    if !str_same(&x.path, &y.path) {
        return str_less(&x.path, &y.path);
    }
    if !str_same(&x.rule_id, &y.rule_id) {
        return str_less(&x.rule_id, &y.rule_id);
    }
    if !str_same(&a.expires_at, &b.expires_at) {
        return str_less(&a.expires_at, &b.expires_at);
    }
    if !str_same(&a.owner, &b.owner) {
        return str_less(&a.owner, &b.owner);
    }
    str_less(&a.reason, &b.reason)
}

fn strings_same(a: &Vec<String>, b: &Vec<String>) -> (r: bool)
    ensures
        r == (views(a@) == views(b@)),
{
    if a.len() != b.len() {
        proof {
            assert(views(a@).len() != views(b@).len());
        }
        return false;
    }
    let mut i: usize = 0;
    while i < a.len()
        invariant
            i <= a.len(),
            a.len() == b.len(),
            forall|k: int| 0 <= k < i ==> a@[k]@ == b@[k]@,
        decreases a.len() - i,
    {
        if !str_same(&a[i], &b[i]) {
            proof {
                assert(views(a@)[i as int] != views(b@)[i as int]);
            }
            return false;
        }
        i += 1;
    }
    proof {
        assert(views(a@) =~= views(b@));
    }
    true
}

/// Two waivers are equal in every field.
pub fn waiver_eq(a: &WaiverRecord, b: &WaiverRecord) -> (r: bool)
    ensures
        r == (a@ == b@),
{
    fingerprint_eq(&a.fingerprint, &b.fingerprint) && str_same(&a.reason, &b.reason) && str_same(&a.owner, &b.owner)
        && str_same(&a.expires_at, &b.expires_at) && strings_same(&a.scope.rule_ids, &b.scope.rule_ids)
        && strings_same(&a.scope.paths, &b.scope.paths)
}

fn sorted_waivers(v: Vec<WaiverRecord>) -> (r: Vec<WaiverRecord>)
    ensures
        waiver_views(r@) == sort_waivers(waiver_views(v@)),
{
    let ghost wv = waiver_views(v@);
    let n = v.len();
    let mut r: Vec<WaiverRecord> = Vec::new();
    let mut src = v;
    let mut rest: Vec<WaiverRecord> = Vec::new();
    while src.len() > 0
        invariant
            waiver_views(rest@) + waiver_views(src@).reverse() == wv.reverse(),
        decreases src.len(),
    {
        let ghost before = src@;
        let x = src.pop().unwrap();
        let ghost prev = rest@;
        rest.push(x);
        proof {
            assert(before =~= src@.push(x));
            assert(waiver_views(before).reverse() =~= seq![x@] + waiver_views(src@).reverse());
            assert(waiver_views(rest@) =~= waiver_views(prev).push(x@));
        }
    }
    proof {
        assert(waiver_views(src@).reverse() =~= Seq::<WaiverView>::empty());
        assert(waiver_views(rest@) =~= wv.reverse());
    }
    let mut i: usize = 0;
    while rest.len() > 0
        invariant
            i + rest.len() == wv.len(),
            wv.len() == n,
            waiver_views(rest@) == wv.reverse().take(rest.len() as int),
            waiver_views(r@) == sort_waivers(wv.take(i as int)),
        decreases rest.len(),
    {
        let ghost before = rest@;
        let x = rest.pop().unwrap();
        proof {
            assert(before =~= rest@.push(x));
            assert(waiver_views(before)[rest.len() as int] == x@);
            assert(x@ == wv.reverse()[rest.len() as int]);
            assert(x@ == wv[i as int]);
            assert(waiver_views(rest@) =~= wv.reverse().take(rest.len() as int));
        }
        let ghost s = waiver_views(r@);
        let mut j: usize = r.len();
        while j > 0 && waiver_less(&x, &r[j - 1])
            invariant
                j <= r.len(),
                s == waiver_views(r@),
                forall|k: int| j <= k < s.len() ==> waiver_lt(x@, #[trigger] s[k]),
            decreases j,
        {
            j -= 1;
        }
        proof {
            lemma_insert_waiver_at(s, x@, j as int);
            assert(wv.take(i + 1).drop_last() =~= wv.take(i as int));
            assert(wv.take(i + 1).last() == x@);
        }
        r.insert(j, x);
        proof {
            assert(waiver_views(r@) =~= s.take(j as int).push(x@) + s.skip(j as int));
        }
        i += 1;
    }
    proof {
        assert(wv.take(i as int) =~= wv);
    }
    r
}

/// Records `waiver` in the file unless an equal waiver is there: the waivers are then
/// stably sorted by `waiver_lt` and the count updated. Returns whether it was added.
pub fn add_waiver(file: &mut WaiverFile, waiver: WaiverRecord) -> (created: bool)
    ensures
        created == !waiver_views(old(file).waivers@).contains(waiver@),
        created ==> waiver_views(final(file).waivers@) == sort_waivers(waiver_views(old(file).waivers@).push(waiver@)),
        !created ==> waiver_views(final(file).waivers@) == waiver_views(old(file).waivers@),
        final(file).waiver_count == final(file).waivers@.len(),
        final(file).schema_version == old(file).schema_version,
        final(file).tool_name == old(file).tool_name,
        final(file).tool_version == old(file).tool_version,
{
    let ghost before = waiver_views(file.waivers@);
    let mut i: usize = 0;
    while i < file.waivers.len()
        invariant
            i <= file.waivers.len(),
            before == waiver_views(file.waivers@),
            *file == *old(file),
            forall|k: int| 0 <= k < i ==> file.waivers@[k]@ != waiver@,
        decreases file.waivers.len() - i,
    {
        if waiver_eq(&file.waivers[i], &waiver) {
            proof {
                assert(before[i as int] == waiver@);
            }
            file.waiver_count = file.waivers.len();
            return false;
        }
        i += 1;
    }
    proof {
        if before.contains(waiver@) {
            let k = choose|k: int| 0 <= k < before.len() && before[k] == waiver@;
            assert(file.waivers@[k]@ == waiver@);
        }
    }
    let mut all: Vec<WaiverRecord> = Vec::new();
    std::mem::swap(&mut all, &mut file.waivers);
    let ghost prev = all@;
    all.push(waiver);
    proof {
        assert(waiver_views(all@) =~= waiver_views(prev).push(waiver@));
    }
    file.waivers = sorted_waivers(all);
    file.waiver_count = file.waivers.len();
    true
}

/// The trimmed, non-empty rule ids, sorted and without duplicates.
pub fn normalized_rule_ids(rule_ids: &[String]) -> (r: Vec<String>)
    ensures
        is_sorted_set_of(views(r@), nonempty_values(views(rule_ids@).map_values(|v: Seq<char>| trim(v)))),
{
    let ghost target = views(rule_ids@).map_values(|v: Seq<char>| trim(v));
    let mut values: Vec<String> = Vec::new();
    let mut i: usize = 0;
    while i < rule_ids.len()
        invariant
            i <= rule_ids.len(),
            target == views(rule_ids@).map_values(|v: Seq<char>| trim(v)),
            views(values@) == nonempty_values(target.take(i as int)),
        decreases rule_ids.len() - i,
    {
        let t = trim_string(rule_ids[i].as_str());
        proof {
            assert(target.take(i + 1).drop_last() =~= target.take(i as int));
            assert(target.take(i + 1).last() == t@);
        }
        if t.as_str().unicode_len() > 0 {
            let ghost prev = views(values@);
            values.push(t);
            proof {
                assert(views(values@) =~= prev.push(target[i as int]));
            }
        }
        i += 1;
    }
    proof {
        assert(target.take(i as int) =~= target);
    }
    sorted_unique_strings(values)
}

/// A required text field: its trimmed value, or an error naming the field when only
/// white space is left.
pub fn non_empty_field(name: &str, value: &str) -> (r: Result<String, String>)
    ensures
        match r {
            Ok(v) => trim(value@).len() > 0 && v@ == trim(value@),
            Err(m) => trim(value@).len() == 0 && m@ == "--"@ + name@ + " cannot be empty"@,
        },
{
    let t = trim_string(value);
    if t.as_str().unicode_len() == 0 {
        return Err(cat3("--", name, " cannot be empty"));
    }
    Ok(t)
}

/// How one scope path is normalized: an absolute path must lie under the root and is
/// taken relative to it; any other path is normalized as it is.
pub open spec fn scope_path(root: Seq<char>, path: Seq<char>) -> Option<Seq<char>> {
    if is_absolute_path(path) {
        match stripped_path(path, root) {
            Some(rest) => Some(normalized(rest)),
            None => None,
        }
    } else {
        Some(normalized(path))
    }
}

/// The first scope path that lies outside the root, if any.
pub open spec fn first_outside(root: Seq<char>, paths: Seq<Seq<char>>) -> Option<Seq<char>>
    decreases paths.len(),
{
    if paths.len() == 0 {
        None
    } else {
        let earlier = first_outside(root, paths.drop_last());
        if earlier is Some {
            earlier
        } else if scope_path(root, paths.last()) is None {
            Some(paths.last())
        } else {
            None
        }
    }
}

proof fn lemma_first_outside_stable(root: Seq<char>, ps: Seq<Seq<char>>, k: int)
    requires
        0 <= k <= ps.len(),
        first_outside(root, ps.take(k)) is Some,
    ensures
        first_outside(root, ps) == first_outside(root, ps.take(k)),
    decreases ps.len() - k,
{
    if k < ps.len() {
        assert(ps.take(k + 1).drop_last() =~= ps.take(k));
        lemma_first_outside_stable(root, ps, k + 1);
    } else {
        assert(ps.take(k) =~= ps);
    }
}

/// The normalized scope paths of all paths, in order, where none lies outside.
pub open spec fn normalized_scope(root: Seq<char>, paths: Seq<Seq<char>>) -> Seq<Seq<char>>
    decreases paths.len(),
{
    if paths.len() == 0 {
        Seq::empty()
    } else {
        normalized_scope(root, paths.drop_last()).push(
            match scope_path(root, paths.last()) {
                Some(p) => p,
                None => Seq::empty(),
            },
        )
    }
}

/// The scope paths normalized against `root_dir`, sorted and without duplicates; an
/// error for the first absolute path outside the root.
pub fn normalized_scope_paths(root_dir: &str, paths: &[String]) -> (r: Result<Vec<String>, String>)
    ensures
        match r {
            Ok(v) => first_outside(root_dir@, views(paths@)) is None && is_sorted_set_of(
                views(v@),
                normalized_scope(root_dir@, views(paths@)),
            ),
            Err(m) => first_outside(root_dir@, views(paths@)) matches Some(p) && m@ == "scope path "@ + p
                + " is outside root "@ + root_dir@,
        },
{
    let ghost pv = views(paths@);
    let mut values: Vec<String> = Vec::new();
    let mut i: usize = 0;
    while i < paths.len()
        invariant
            i <= paths.len(),
            pv == views(paths@),
            first_outside(root_dir@, pv.take(i as int)) is None,
            views(values@) == normalized_scope(root_dir@, pv.take(i as int)),
        decreases paths.len() - i,
    {
        let path = &paths[i];
        proof {
            assert(pv.take(i + 1).drop_last() =~= pv.take(i as int));
            assert(pv.take(i + 1).last() == path@);
        }
        let value = if path_is_absolute(path.as_str()) {
            let rest = crate::config::paths::strip_path_prefix(path.as_str(), root_dir);
            match rest {
                Some(rel) => normalize_path(rel.as_str()),
                None => {
                    proof {
                        assert(first_outside(root_dir@, pv.take(i + 1)) == Some(path@));
                        lemma_first_outside_stable(root_dir@, pv, i + 1);
                    }
                    let mut m = cat2("scope path ", path.as_str());
                    m.append(" is outside root ");
                    m.append(root_dir);
                    return Err(m);
                },
            }
        } else {
            normalize_path(path.as_str())
        };
        let ghost prev = views(values@);
        values.push(value);
        proof {
            assert(views(values@) =~= prev.push(value@));
        }
        i += 1;
    }
    proof {
        assert(pv.take(i as int) =~= pv);
    }
    Ok(sorted_unique_strings(values))
}

/// Checks the schema version of a waiver file read from `path_display`.
pub fn check_waiver_schema(file: &WaiverFile, path_display: &str) -> (r: Result<(), String>)
    ensures
        r is Ok <==> file.schema_version@ == WAIVER_SCHEMA_VERSION@,
        r matches Err(m) ==> m@ == "unsupported waivers schema `"@ + file.schema_version@ + "` in "@ + path_display@,
{
    if str_same(&file.schema_version, &str_to_string(WAIVER_SCHEMA_VERSION)) {
        Ok(())
    } else {
        let mut m = str_to_string("unsupported waivers schema `");
        m.append(file.schema_version.as_str());
        m.append("` in ");
        m.append(path_display);
        Err(m)
    }
}

/// The waiver file of a repository that has none yet: no waivers.
pub fn default_waiver_file() -> (r: WaiverFile)
    ensures
        r.schema_version@ == WAIVER_SCHEMA_VERSION@,
        r.tool_name@ == crate::reporters::TOOL_NAME@,
        r.tool_version@ == crate::reporters::TOOL_VERSION@,
        r.waiver_count == 0,
        r.waivers@.len() == 0,
{
    WaiverFile {
        schema_version: str_to_string(WAIVER_SCHEMA_VERSION),
        tool_name: str_to_string(crate::reporters::TOOL_NAME),
        tool_version: str_to_string(crate::reporters::TOOL_VERSION),
        waiver_count: 0,
        waivers: Vec::new(),
    }
}

/// The waiver for a finding: its fingerprint, the trimmed reason and owner (each
/// required, checked in that order), the expiry as given, and the normalized scope.
pub fn build_waiver(
    diagnostic: &DiagnosticRecord,
    reason: &str,
    owner: &str,
    expires_at: &str,
    scope_rule_ids: &[String],
    root_dir: &str,
    scope_paths: &[String],
) -> (r: Result<WaiverRecord, String>)
    ensures
        match r {
            Ok(w) => {
                &&& trim(reason@).len() > 0 && trim(owner@).len() > 0
                &&& first_outside(root_dir@, views(scope_paths@)) is None
                &&& w@.fingerprint == fingerprint_of(diagnostic@)
                &&& w@.reason == trim(reason@)
                &&& w@.owner == trim(owner@)
                &&& w@.expires_at == expires_at@
                &&& is_sorted_set_of(
                    w@.scope_rule_ids,
                    nonempty_values(views(scope_rule_ids@).map_values(|v: Seq<char>| trim(v))),
                )
                &&& is_sorted_set_of(w@.scope_paths, normalized_scope(root_dir@, views(scope_paths@)))
            },
            Err(m) => if trim(reason@).len() == 0 {
                m@ == "--reason cannot be empty"@
            } else if trim(owner@).len() == 0 {
                m@ == "--owner cannot be empty"@
            } else {
                first_outside(root_dir@, views(scope_paths@)) matches Some(p) && m@ == "scope path "@ + p
                    + " is outside root "@ + root_dir@
            },
        },
{
    let reason = match non_empty_field("reason", reason) {
        Ok(v) => v,
        Err(m) => {
            proof {
                reveal_strlit("--");
                reveal_strlit("reason");
                reveal_strlit(" cannot be empty");
                reveal_strlit("--reason cannot be empty");
                assert(m@ =~= "--reason cannot be empty"@);
            }
            return Err(m);
        },
    };
    let owner = match non_empty_field("owner", owner) {
        Ok(v) => v,
        Err(m) => {
            proof {
                reveal_strlit("--");
                reveal_strlit("owner");
                reveal_strlit(" cannot be empty");
                reveal_strlit("--owner cannot be empty");
                assert(m@ =~= "--owner cannot be empty"@);
            }
            return Err(m);
        },
    };
    let rule_ids = normalized_rule_ids(scope_rule_ids);
    let paths = match normalized_scope_paths(root_dir, scope_paths) {
        Ok(v) => v,
        Err(m) => {
            return Err(m);
        },
    };
    Ok(
        WaiverRecord {
            fingerprint: fingerprint_for(diagnostic),
            reason,
            owner,
            expires_at: str_to_string(expires_at),
            scope: WaiverScope { rule_ids, paths },
        },
    )
}

/// The text report of recording a waiver: what happened, and a reminder that waivers
/// are temporary.
pub open spec fn add_result_text(created: bool, waivers_path: Seq<char>, waiver_count: nat, w: WaiverView) -> Seq<char> {
    "Recorded waiver: created="@ + (if created {
        "true"@
    } else {
        "false"@
    }) + " path="@ + waivers_path + " waiver_count="@ + crate::text::decimal(waiver_count) + "\n"@
        + "Waivers are temporary exceptions and should remain rare. owner="@ + w.owner + " expires_at="@ + w.expires_at
        + " rule="@ + w.fingerprint.rule_id + " path="@ + w.fingerprint.path + " reason="@ + w.reason + "\n"@
}

/// The text report of recording a waiver, as `add_result_text` says.
pub fn render_add_result(created: bool, waivers_path: &str, waiver_count: usize, waiver: &WaiverRecord) -> (r: String)
    ensures
        r@ == add_result_text(created, waivers_path@, waiver_count as nat, waiver@),
{
    let mut out = str_to_string("Recorded waiver: created=");
    out.append(if created {
        "true"
    } else {
        "false"
    });
    out.append(" path=");
    out.append(waivers_path);
    out.append(" waiver_count=");
    out.append(crate::text::decimal_string(waiver_count).as_str());
    out.append("\n");
    out.append("Waivers are temporary exceptions and should remain rare. owner=");
    out.append(waiver.owner.as_str());
    out.append(" expires_at=");
    out.append(waiver.expires_at.as_str());
    out.append(" rule=");
    out.append(waiver.fingerprint.rule_id.as_str());
    out.append(" path=");
    out.append(waiver.fingerprint.path.as_str());
    out.append(" reason=");
    out.append(waiver.reason.as_str());
    out.append("\n");
    out
}

/// A waiver with a scope covers no finding that the same waiver without a scope does
/// not: a scope only narrows.
pub proof fn law_scope_only_narrows(w: WaiverView, d: DiagnosticView)
    ensures
        covers(w, d) ==> covers(WaiverView { scope_rule_ids: Seq::empty(), scope_paths: Seq::empty(), ..w }, d),
{
}

/// Only an unexpired waiver of the list that covers a finding waives it.
pub proof fn law_only_live_covering_waivers_waive(current: Seq<char>, d: DiagnosticView, ws: Seq<WaiverView>)
    ensures
        first_cover(current, d, ws) matches Some(w) ==> ws.contains(w) && !expired_on(current, w) && covers(w, d),
        waived(current, d, ws).finding_state == "waived"@ <==> first_cover(current, d, ws) is Some,
    decreases ws.len(),
{
    proof_distinct_states();
    if ws.len() > 0 {
        law_only_live_covering_waivers_waive(current, d, ws.drop_last());
        if let Some(w) = first_cover(current, d, ws) {
            if first_cover(current, d, ws.drop_last()) is Some {
                let k = choose|k: int| 0 <= k < ws.drop_last().len() && ws.drop_last()[k] == w;
                assert(ws[k] == w);
            } else {
                assert(ws[ws.len() - 1] == w);
            }
        }
    }
}

proof fn lemma_waived_state(current: Seq<char>, d: DiagnosticView, ws: Seq<WaiverView>)
    ensures
        ({
            let s = waived(current, d, ws).finding_state;
            s == "waived"@ || s == "suppressed_by_baseline"@ || s == "active"@
        }),
        waived(current, d, ws).baseline_state == d.baseline_state,
        fingerprint_of(waived(current, d, ws)) == fingerprint_of(d),
        waived(current, d, ws).rule_id == d.rule_id,
{
}

proof fn lemma_state_counts(out: Seq<DiagnosticView>)
    requires
        forall|i: int|
            0 <= i < out.len() ==> (#[trigger] out[i]).finding_state == "waived"@ || out[i].finding_state
                == "suppressed_by_baseline"@ || out[i].finding_state == "active"@,
    ensures
        count_state(out, "waived"@) + count_state(out, "suppressed_by_baseline"@) + count_state(out, "active"@)
            == out.len(),
    decreases out.len(),
{
    proof_distinct_states();
    if out.len() > 0 {
        let d = out.drop_last();
        assert forall|i: int| 0 <= i < d.len() implies (#[trigger] d[i]).finding_state == "waived"@
            || d[i].finding_state == "suppressed_by_baseline"@ || d[i].finding_state == "active"@ by {
            assert(d[i] == out[i]);
        }
        lemma_state_counts(d);
        assert(out[out.len() - 1] == out.last());
    }
}

/// After waivers apply, every finding is exactly one of waived, suppressed by the
/// baseline, or active: the three counts add up to the number of findings.
pub proof fn law_waiver_states_partition(current: Seq<char>, ds: Seq<DiagnosticView>, ws: Seq<WaiverView>)
    ensures
        ({
            let out = ds.map_values(|d: DiagnosticView| waived(current, d, ws));
            count_state(out, "waived"@) + count_state(out, "suppressed_by_baseline"@) + count_state(out, "active"@)
                == ds.len()
        }),
{
    let out = ds.map_values(|d: DiagnosticView| waived(current, d, ws));
    assert forall|i: int| 0 <= i < out.len() implies (#[trigger] out[i]).finding_state == "waived"@
        || out[i].finding_state == "suppressed_by_baseline"@ || out[i].finding_state == "active"@ by {
        lemma_waived_state(current, ds[i], ws);
    }
    lemma_state_counts(out);
}

proof fn lemma_first_cover_same(current: Seq<char>, d: DiagnosticView, e: DiagnosticView, ws: Seq<WaiverView>)
    requires
        fingerprint_of(d) == fingerprint_of(e),
        d.rule_id == e.rule_id,
    ensures
        first_cover(current, d, ws) == first_cover(current, e, ws),
    decreases ws.len(),
{
    if ws.len() > 0 {
        lemma_first_cover_same(current, d, e, ws.drop_last());
        assert(covers(ws.last(), d) == covers(ws.last(), e));
    }
}

/// Applying the same waivers on the same date twice changes nothing the first
/// application did not.
pub proof fn law_apply_waivers_idempotent(current: Seq<char>, ds: Seq<DiagnosticView>, ws: Seq<WaiverView>)
    ensures
        ({
            let once = ds.map_values(|d: DiagnosticView| waived(current, d, ws));
            once.map_values(|d: DiagnosticView| waived(current, d, ws)) == once
        }),
{
    let once = ds.map_values(|d: DiagnosticView| waived(current, d, ws));
    assert forall|i: int| 0 <= i < once.len() implies #[trigger] waived(current, once[i], ws) == once[i] by {
        lemma_waived_state(current, ds[i], ws);
        lemma_first_cover_same(current, once[i], ds[i], ws);
    }
    assert(once.map_values(|d: DiagnosticView| waived(current, d, ws)) =~= once);
}

proof fn lemma_insert_waiver_keeps(s: Seq<WaiverView>, x: WaiverView)
    ensures
        insert_waiver(s, x).contains(x),
        forall|y: WaiverView| s.contains(y) ==> insert_waiver(s, x).contains(y),
    decreases s.len(),
{
    if s.len() > 0 {
        let r = insert_waiver(s, x);
        if waiver_lt(x, s.last()) {
            lemma_insert_waiver_keeps(s.drop_last(), x);
            let p = insert_waiver(s.drop_last(), x);
            assert(r == p.push(s.last()));
            let k = choose|k: int| 0 <= k < p.len() && p[k] == x;
            assert(r[k] == x);
            assert forall|y: WaiverView| s.contains(y) implies r.contains(y) by {
                let j = choose|j: int| 0 <= j < s.len() && s[j] == y;
                if j == s.len() - 1 {
                    assert(r[r.len() - 1] == y);
                } else {
                    assert(s.drop_last()[j] == y);
                    assert(s.drop_last().contains(y));
                    assert(p.contains(y));
                    let m = choose|m: int| 0 <= m < p.len() && p[m] == y;
                    assert(r[m] == y);
                }
            }
        } else {
            assert(r == s.push(x));
            assert(r[s.len() as int] == x);
            assert forall|y: WaiverView| s.contains(y) implies r.contains(y) by {
                let j = choose|j: int| 0 <= j < s.len() && s[j] == y;
                assert(r[j] == y);
            }
        }
    } else {
        assert(insert_waiver(s, x)[0] == x);
    }
}

proof fn lemma_sort_waivers_keeps(v: Seq<WaiverView>)
    ensures
        forall|y: WaiverView| v.contains(y) ==> sort_waivers(v).contains(y),
    decreases v.len(),
{
    if v.len() > 0 {
        let d = v.drop_last();
        lemma_sort_waivers_keeps(d);
        lemma_insert_waiver_keeps(sort_waivers(d), v.last());
        assert forall|y: WaiverView| v.contains(y) implies sort_waivers(v).contains(y) by {
            let j = choose|j: int| 0 <= j < v.len() && v[j] == y;
            if j < v.len() - 1 {
                assert(d[j] == y);
                assert(d.contains(y));
                assert(sort_waivers(d).contains(y));
            }
            assert(sort_waivers(v) == insert_waiver(sort_waivers(d), v.last()));
        }
    }
}

proof fn lemma_live_cover_found(current: Seq<char>, d: DiagnosticView, ws: Seq<WaiverView>, w: WaiverView)
    requires
        ws.contains(w),
        !expired_on(current, w),
        covers(w, d),
    ensures
        first_cover(current, d, ws) is Some,
    decreases ws.len(),
{
    let j = choose|j: int| 0 <= j < ws.len() && ws[j] == w;
    if j < ws.len() - 1 {
        assert(ws.drop_last()[j] == w);
        lemma_live_cover_found(current, d, ws.drop_last(), w);
    }
}

/// A waiver recorded for a finding waives it until it expires: once a waiver with the
/// finding's fingerprint and no scope is added to a file's waivers (kept as it is
/// when already there, else appended and sorted), applying those waivers on a date not
/// after the waiver's expiry marks the finding waived.
pub proof fn law_recorded_waiver_waives(current: Seq<char>, d: DiagnosticView, before: Seq<WaiverView>, w: WaiverView)
    requires
        w.fingerprint == fingerprint_of(d),
        w.scope_rule_ids.len() == 0,
        w.scope_paths.len() == 0,
        !expired_on(current, w),
    ensures
        ({
            let after = if before.contains(w) { before } else { sort_waivers(before.push(w)) };
            waived(current, d, after).finding_state == "waived"@
        }),
{
    let after = if before.contains(w) { before } else { sort_waivers(before.push(w)) };
    if !before.contains(w) {
        lemma_sort_waivers_keeps(before.push(w));
        assert(before.push(w)[before.len() as int] == w);
        assert(before.push(w).contains(w));
    }
    lemma_live_cover_found(current, d, after, w);
}

proof fn lemma_waived_count(current: Seq<char>, ds: Seq<DiagnosticView>, ws: Seq<WaiverView>)
    ensures
        (count_state(ds.map_values(|d: DiagnosticView| waived(current, d, ws)), "waived"@) > 0) <==> (exists|i: int|
            0 <= i < ds.len() && (#[trigger] first_cover(current, ds[i], ws)) is Some),
    decreases ds.len(),
{
    proof_distinct_states();
    let out = ds.map_values(|d: DiagnosticView| waived(current, d, ws));
    if ds.len() > 0 {
        let d = ds.drop_last();
        lemma_waived_count(current, d, ws);
        assert(out.drop_last() =~= d.map_values(|x: DiagnosticView| waived(current, x, ws)));
        assert(out.last() == waived(current, ds.last(), ws));
        let last = ds.last();
        assert(ds[ds.len() - 1] == last);
        assert((waived(current, last, ws).finding_state == "waived"@) == (first_cover(current, last, ws) is Some));
        if exists|i: int| 0 <= i < ds.len() && (#[trigger] first_cover(current, ds[i], ws)) is Some {
            let i = choose|i: int| 0 <= i < ds.len() && (#[trigger] first_cover(current, ds[i], ws)) is Some;
            if i < d.len() {
                assert(d[i] == ds[i]);
            }
        }
        if exists|i: int| 0 <= i < d.len() && (#[trigger] first_cover(current, d[i], ws)) is Some {
            let i = choose|i: int| 0 <= i < d.len() && (#[trigger] first_cover(current, d[i], ws)) is Some;
            assert(ds[i] == d[i]);
        }
    }
}

proof fn lemma_expired_count(current: Seq<char>, ws: Seq<WaiverView>)
    ensures
        (expired_records(current, ws).len() > 0) <==> (exists|j: int| 0 <= j < ws.len() && expired_on(current, #[trigger] ws[j])),
    decreases ws.len(),
{
    if ws.len() > 0 {
        let d = ws.drop_last();
        lemma_expired_count(current, d);
        assert(ws[ws.len() - 1] == ws.last());
        if exists|j: int| 0 <= j < ws.len() && expired_on(current, #[trigger] ws[j]) {
            let j = choose|j: int| 0 <= j < ws.len() && expired_on(current, #[trigger] ws[j]);
            if j < d.len() {
                assert(d[j] == ws[j]);
            }
        }
        if exists|j: int| 0 <= j < d.len() && expired_on(current, #[trigger] d[j]) {
            let j = choose|j: int| 0 <= j < d.len() && expired_on(current, #[trigger] d[j]);
            assert(ws[j] == d[j]);
        }
    }
}

/// The waiver status that applying waivers reports says what happened: it is
/// `applied-no-match` exactly when no finding is waived by an unexpired covering waiver
/// and no waiver has expired; when some finding is waived and none has expired it is
/// `has-waived-findings`; when some waiver has expired and no finding is waived it is
/// `has-expired-waivers`; and when both happen, `has-waived-and-expired`.
pub proof fn law_waiver_status_reports_outcome(current: Seq<char>, ds: Seq<DiagnosticView>, ws: Seq<WaiverView>)
    ensures
        ({
            let out = ds.map_values(|d: DiagnosticView| waived(current, d, ws));
            let status = waiver_status_of(count_state(out, "waived"@), expired_records(current, ws).len());
            let some_waived = exists|i: int| 0 <= i < ds.len() && (#[trigger] first_cover(current, ds[i], ws)) is Some;
            let some_expired = exists|j: int| 0 <= j < ws.len() && expired_on(current, #[trigger] ws[j]);
            &&& (status == "applied-no-match"@) <==> (!some_waived && !some_expired)
            &&& some_waived && !some_expired ==> status == "has-waived-findings"@
            &&& !some_waived && some_expired ==> status == "has-expired-waivers"@
            &&& some_waived && some_expired ==> status == "has-waived-and-expired"@
        }),
{
    lemma_waived_count(current, ds, ws);
    lemma_expired_count(current, ws);
    reveal_strlit("applied-no-match");
    reveal_strlit("has-waived-findings");
    reveal_strlit("has-expired-waivers");
    reveal_strlit("has-waived-and-expired");
    assert("applied-no-match"@.len() != "has-waived-findings"@.len());
    assert("applied-no-match"@.len() != "has-expired-waivers"@.len());
    assert("applied-no-match"@.len() != "has-waived-and-expired"@.len());
}

} // verus!
