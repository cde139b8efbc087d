//! Baselines: the fingerprints of accepted findings, and how a baseline marks the
//! findings of a later run as active or suppressed.
use vstd::prelude::*;
use crate::config::model::opt_view;
use crate::config::problems::{lemma_opt_lt_transitive, opt_lt};
use crate::diagnostics::{
    BaselineSummary, DiagnosticRecord, DiagnosticView, DiagnosticsArtifact, diagnostic_views,
};
use crate::text::{
    chars_eq, chars_lt, chars_of, lemma_seq_lt_irreflexive, lemma_seq_lt_transitive,
    lemma_seq_lt_trichotomy, seq_lt, str_to_string, views,
};

verus! {

/// The schema version of baseline files.
pub const BASELINE_SCHEMA_VERSION: &'static str = "docpact.baseline.v1";

/// A baseline file.
#[derive(Debug)]
pub struct BaselineFile {
    pub schema_version: String,
    pub tool_name: String,
    pub tool_version: String,
    pub generated_at: String,
    pub fingerprint_count: usize,
    pub fingerprints: Vec<BaselineFingerprint>,
}

/// What identifies a finding across runs.
#[derive(Debug)]
pub struct BaselineFingerprint {
    pub problem_type: String,
    pub path: String,
    pub rule_id: String,
    pub required_mode: Option<String>,
    pub failure_reason: String,
    pub rule_source: Option<String>,
}

/// The view of a fingerprint.
pub struct FingerprintView {
    pub problem_type: Seq<char>,
    pub path: Seq<char>,
    pub rule_id: Seq<char>,
    pub required_mode: Option<Seq<char>>,
    pub failure_reason: Seq<char>,
    pub rule_source: Option<Seq<char>>,
}

impl View for BaselineFingerprint {
    type V = FingerprintView;

    open spec fn view(&self) -> FingerprintView {
        FingerprintView {
            problem_type: self.problem_type@,
            path: self.path@,
            rule_id: self.rule_id@,
            required_mode: opt_view(self.required_mode),
            failure_reason: self.failure_reason@,
            rule_source: opt_view(self.rule_source),
        }
    }
}

/// The views of a list of fingerprints.
pub open spec fn fingerprint_views(v: Seq<BaselineFingerprint>) -> Seq<FingerprintView> {
    v.map_values(|f: BaselineFingerprint| f@)
}

/// The fingerprint of a finding.
pub open spec fn fingerprint_of(d: DiagnosticView) -> FingerprintView {
    FingerprintView {
        problem_type: d.problem_type,
        path: d.path,
        rule_id: d.rule_id,
        required_mode: d.required_mode,
        failure_reason: d.failure_reason,
        rule_source: d.rule_source,
    }
}

/// The fingerprint of a finding.
pub fn fingerprint_for(diagnostic: &DiagnosticRecord) -> (r: BaselineFingerprint)
    ensures
        r@ == fingerprint_of(diagnostic@),
{
    BaselineFingerprint {
        problem_type: diagnostic.problem_type.clone(),
        path: diagnostic.path.clone(),
        rule_id: diagnostic.rule_id.clone(),
        required_mode: diagnostic.required_mode.clone(),
        failure_reason: diagnostic.failure_reason.clone(),
        rule_source: diagnostic.rule_source.clone(),
    }
}

fn str_same(a: &String, b: &String) -> (r: bool)
    ensures
        r == (a@ == b@),
{
    chars_eq(&chars_of(a.as_str()), &chars_of(b.as_str()))
}

fn opt_same(a: &Option<String>, b: &Option<String>) -> (r: bool)
    ensures
        r == (opt_view(*a) == opt_view(*b)),
{
    match (a, b) {
        (Some(x), Some(y)) => str_same(x, y),
        (None, None) => true,
        _ => false,
    }
}

/// Two fingerprints are equal.
pub fn fingerprint_eq(a: &BaselineFingerprint, b: &BaselineFingerprint) -> (r: bool)
    ensures
        r == (a@ == b@),
{
    str_same(&a.problem_type, &b.problem_type) && str_same(&a.path, &b.path) && str_same(&a.rule_id, &b.rule_id)
        && opt_same(&a.required_mode, &b.required_mode) && str_same(&a.failure_reason, &b.failure_reason)
        && opt_same(&a.rule_source, &b.rule_source)
}

fn contains_fingerprint(v: &Vec<BaselineFingerprint>, f: &BaselineFingerprint) -> (r: bool)
    ensures
        r == fingerprint_views(v@).contains(f@),
{
    let mut i: usize = 0;
    while i < v.len()
        invariant
            i <= v.len(),
            forall|k: int| 0 <= k < i ==> v@[k]@ != f@,
        decreases v.len() - i,
    {
        if fingerprint_eq(&v[i], f) {
            proof {
                assert(fingerprint_views(v@)[i as int] == f@);
            }
            return true;
        }
        i += 1;
    }
    proof {
        if fingerprint_views(v@).contains(f@) {
            let k = choose|k: int| 0 <= k < fingerprint_views(v@).len() && fingerprint_views(v@)[k] == f@;
            assert(v@[k]@ == f@);
        }
    }
    false
}

/// A finding with its baseline state set: suppressed when the baseline has its
/// fingerprint, active otherwise.
pub open spec fn marked(d: DiagnosticView, fps: Seq<FingerprintView>) -> DiagnosticView {
    DiagnosticView {
        baseline_state: if fps.contains(fingerprint_of(d)) { "suppressed_by_baseline"@ } else { "active"@ },
        ..d
    }
}

/// The number of findings whose fingerprint the baseline has.
pub open spec fn suppressed_count(ds: Seq<DiagnosticView>, fps: Seq<FingerprintView>) -> nat
    decreases ds.len(),
{
    if ds.len() == 0 {
        0
    } else {
        suppressed_count(ds.drop_last(), fps) + if fps.contains(fingerprint_of(ds.last())) { 1nat } else { 0nat }
    }
}

proof fn lemma_suppressed_bound(ds: Seq<DiagnosticView>, fps: Seq<FingerprintView>)
    ensures
        suppressed_count(ds, fps) <= ds.len(),
    decreases ds.len(),
{
    if ds.len() > 0 {
        lemma_suppressed_bound(ds.drop_last(), fps);
    }
}

fn with_baseline_state(d: &DiagnosticRecord, state: &str) -> (r: DiagnosticRecord)
    ensures
        r@ == (DiagnosticView { baseline_state: state@, ..d@ }),
{
    DiagnosticRecord {
        diagnostic_id: d.diagnostic_id.clone(),
        problem_type: d.problem_type.clone(),
        path: d.path.clone(),
        message: d.message.clone(),
        rule_id: d.rule_id.clone(),
        required_mode: d.required_mode.clone(),
        failure_reason: d.failure_reason.clone(),
        suggested_action: d.suggested_action.clone(),
        baseline_state: str_to_string(state),
        rule_source: d.rule_source.clone(),
        trigger_paths: d.trigger_paths.clone(),
        rule_reason: d.rule_reason.clone(),
        finding_state: d.finding_state.clone(),
        waiver_reason: d.waiver_reason.clone(),
        waiver_owner: d.waiver_owner.clone(),
        waiver_expires_at: d.waiver_expires_at.clone(),
    }
}

/// Marks each finding of the artifact active or suppressed by the baseline, keeping
/// every finding, and sets the baseline summary, the baseline status
/// (`has-suppressed-findings` when any is suppressed, else `applied-no-match`) and the
/// run status (`ok` when none is active, else `fail`).
pub fn apply_baseline(artifact: &mut DiagnosticsArtifact, baseline: &BaselineFile)
    ensures
        ({
            let ds = diagnostic_views(old(artifact).diagnostics@);
            let fps = fingerprint_views(baseline.fingerprints@);
            let suppressed = suppressed_count(ds, fps);
            let active = ds.len() - suppressed;
            &&& diagnostic_views(final(artifact).diagnostics@) == ds.map_values(|d: DiagnosticView| marked(d, fps))
            &&& final(artifact).baseline_summary.suppressed_count == suppressed
            &&& final(artifact).baseline_summary.active_count == active
            &&& final(artifact).baseline_status@ == if suppressed == 0 {
                "applied-no-match"@
            } else {
                "has-suppressed-findings"@
            }
            &&& final(artifact).status@ == if active == 0 { "ok"@ } else { "fail"@ }
            &&& final(artifact).schema_version == old(artifact).schema_version
            &&& final(artifact).waiver_status == old(artifact).waiver_status
            &&& final(artifact).waiver_summary == old(artifact).waiver_summary
            &&& final(artifact).expired_waivers == old(artifact).expired_waivers
        }),
{
    let ghost ds = diagnostic_views(artifact.diagnostics@);
    let ghost fps = fingerprint_views(baseline.fingerprints@);
    let mut out: Vec<DiagnosticRecord> = Vec::new();
    let mut suppressed: usize = 0;
    let mut i: usize = 0;
    while i < artifact.diagnostics.len()
        invariant
            i <= artifact.diagnostics.len(),
            ds == diagnostic_views(artifact.diagnostics@),
            fps == fingerprint_views(baseline.fingerprints@),
            diagnostic_views(out@) == ds.take(i as int).map_values(|d: DiagnosticView| marked(d, fps)),
            suppressed == suppressed_count(ds.take(i as int), fps),
            suppressed <= i,
        decreases artifact.diagnostics.len() - i,
    {
        let d = &artifact.diagnostics[i];
        proof {
            assert(ds.take(i + 1).drop_last() =~= ds.take(i as int));
            assert(ds.take(i + 1).last() == d@);
        }
        let f = fingerprint_for(d);
        let ghost prev = diagnostic_views(out@);
        if contains_fingerprint(&baseline.fingerprints, &f) {
            out.push(with_baseline_state(d, "suppressed_by_baseline"));
            suppressed += 1;
        } else {
            out.push(with_baseline_state(d, "active"));
        }
        proof {
            assert(diagnostic_views(out@) =~= prev.push(marked(d@, fps)));
            assert(ds.take(i + 1).map_values(|d: DiagnosticView| marked(d, fps)) =~= ds.take(i as int).map_values(
                |d: DiagnosticView| marked(d, fps),
            ).push(marked(d@, fps)));
        }
        i += 1;
    }
    proof {
        assert(ds.take(i as int) =~= ds);
    }
    let active = artifact.diagnostics.len() - suppressed;
    artifact.diagnostics = out;
    artifact.baseline_summary = BaselineSummary { active_count: active, suppressed_count: suppressed };
    artifact.baseline_status = if suppressed == 0 {
        str_to_string("applied-no-match")
    } else {
        str_to_string("has-suppressed-findings")
    };
    artifact.status = if active == 0 {
        str_to_string("ok")
    } else {
        str_to_string("fail")
    };
}

/// The fields of a fingerprint in the order fingerprints sort by; the required
/// strings as `Some`.
pub open spec fn fingerprint_fields(f: FingerprintView) -> Seq<Option<Seq<char>>> {
    seq![
        Some(f.problem_type),
        Some(f.path),
        Some(f.rule_id),
        f.required_mode,
        Some(f.failure_reason),
        f.rule_source,
    ]
}

/// Lexicographic order of field lists, each field ordered by `opt_lt`.
pub open spec fn fields_lt(a: Seq<Option<Seq<char>>>, b: Seq<Option<Seq<char>>>) -> bool
    decreases a.len(),
{
    if a.len() == 0 || b.len() == 0 {
        false
    } else if opt_lt(a[0], b[0]) {
        true
    } else if a[0] == b[0] {
        fields_lt(a.drop_first(), b.drop_first())
    } else {
        false
    }
}

/// The order of fingerprints: field by field, `None` before any text.
pub open spec fn fingerprint_lt(a: FingerprintView, b: FingerprintView) -> bool {
    fields_lt(fingerprint_fields(a), fingerprint_fields(b))
}

proof fn lemma_opt_lt_trichotomy(a: Option<Seq<char>>, b: Option<Seq<char>>)
    ensures
        a == b || opt_lt(a, b) || opt_lt(b, a),
        !(opt_lt(a, b) && opt_lt(b, a)),
        !opt_lt(a, a),
{
    match (a, b) {
        (Some(x), Some(y)) => {
            lemma_seq_lt_trichotomy(x, y);
            lemma_seq_lt_irreflexive(x);
        },
        (Some(x), None) => {
            lemma_seq_lt_irreflexive(x);
        },
        _ => {},
    }
}

proof fn lemma_fields_lt_trichotomy(a: Seq<Option<Seq<char>>>, b: Seq<Option<Seq<char>>>)
    requires
        a.len() == b.len(),
    ensures
        a == b || fields_lt(a, b) || fields_lt(b, a),
        !(fields_lt(a, b) && fields_lt(b, a)),
    decreases a.len(),
{
    if a.len() == 0 {
        assert(a =~= b);
    } else {
        lemma_opt_lt_trichotomy(a[0], b[0]);
        if a[0] == b[0] {
            lemma_fields_lt_trichotomy(a.drop_first(), b.drop_first());
            if a.drop_first() == b.drop_first() {
                assert(a =~= seq![a[0]] + a.drop_first());
                assert(b =~= seq![b[0]] + b.drop_first());
            }
        }
    }
}

proof fn lemma_fields_lt_transitive(a: Seq<Option<Seq<char>>>, b: Seq<Option<Seq<char>>>, c: Seq<Option<Seq<char>>>)
    requires
        fields_lt(a, b),
        fields_lt(b, c),
    ensures
        fields_lt(a, c),
    decreases a.len(),
{
    if a.len() > 0 && b.len() > 0 && c.len() > 0 {
        if opt_lt(a[0], b[0]) && opt_lt(b[0], c[0]) {
            lemma_opt_lt_transitive(a[0], b[0], c[0]);
        } else if a[0] == b[0] && b[0] == c[0] {
            lemma_fields_lt_transitive(a.drop_first(), b.drop_first(), c.drop_first());
        }
    }
}

/// `fingerprint_lt` is a strict total order.
pub proof fn lemma_fingerprint_order(a: FingerprintView, b: FingerprintView)
    ensures
        a == b || fingerprint_lt(a, b) || fingerprint_lt(b, a),
        !(fingerprint_lt(a, b) && fingerprint_lt(b, a)),
        !fingerprint_lt(a, a),
{
    lemma_fields_lt_trichotomy(fingerprint_fields(a), fingerprint_fields(b));
    lemma_fields_lt_trichotomy(fingerprint_fields(a), fingerprint_fields(a));
    if fingerprint_fields(a) == fingerprint_fields(b) {
        assert(fingerprint_fields(a)[0] == fingerprint_fields(b)[0]);
        assert(fingerprint_fields(a)[1] == fingerprint_fields(b)[1]);
        assert(fingerprint_fields(a)[2] == fingerprint_fields(b)[2]);
        assert(fingerprint_fields(a)[3] == fingerprint_fields(b)[3]);
        assert(fingerprint_fields(a)[4] == fingerprint_fields(b)[4]);
        assert(fingerprint_fields(a)[5] == fingerprint_fields(b)[5]);
    }
}

proof fn lemma_fingerprint_lt_transitive(a: FingerprintView, b: FingerprintView, c: FingerprintView)
    requires
        fingerprint_lt(a, b),
        fingerprint_lt(b, c),
    ensures
        fingerprint_lt(a, c),
{
    lemma_fields_lt_transitive(fingerprint_fields(a), fingerprint_fields(b), fingerprint_fields(c));
}

fn opt_less(a: &Option<String>, b: &Option<String>) -> (r: bool)
    ensures
        r == opt_lt(opt_view(*a), opt_view(*b)),
{
    match (a, b) {
        (None, Some(_)) => true,
        (Some(x), Some(y)) => chars_lt(&chars_of(x.as_str()), &chars_of(y.as_str())),
        _ => false,
    }
}

/// Decides `fingerprint_lt(a@, b@)`.
pub fn fingerprint_less(a: &BaselineFingerprint, b: &BaselineFingerprint) -> (r: bool)
    ensures
        r == fingerprint_lt(a@, b@),
{
    let fa = Ghost(fingerprint_fields(a@));
    let fb = Ghost(fingerprint_fields(b@));
    proof {
        assert(fa@.drop_first() =~= seq![Some(a@.path), Some(a@.rule_id), a@.required_mode, Some(a@.failure_reason), a@.rule_source]);
        assert(fb@.drop_first() =~= seq![Some(b@.path), Some(b@.rule_id), b@.required_mode, Some(b@.failure_reason), b@.rule_source]);
        assert(fa@.drop_first().drop_first() =~= seq![Some(a@.rule_id), a@.required_mode, Some(a@.failure_reason), a@.rule_source]);
        assert(fb@.drop_first().drop_first() =~= seq![Some(b@.rule_id), b@.required_mode, Some(b@.failure_reason), b@.rule_source]);
        assert(fa@.drop_first().drop_first().drop_first() =~= seq![a@.required_mode, Some(a@.failure_reason), a@.rule_source]);
        assert(fb@.drop_first().drop_first().drop_first() =~= seq![b@.required_mode, Some(b@.failure_reason), b@.rule_source]);
        assert(fa@.drop_first().drop_first().drop_first().drop_first() =~= seq![Some(a@.failure_reason), a@.rule_source]);
        assert(fb@.drop_first().drop_first().drop_first().drop_first() =~= seq![Some(b@.failure_reason), b@.rule_source]);
        assert(fa@.drop_first().drop_first().drop_first().drop_first().drop_first() =~= seq![a@.rule_source]);
        assert(fb@.drop_first().drop_first().drop_first().drop_first().drop_first() =~= seq![b@.rule_source]);
        assert(seq![a@.rule_source].drop_first() =~= Seq::<Option<Seq<char>>>::empty());
        assert(seq![b@.rule_source].drop_first() =~= Seq::<Option<Seq<char>>>::empty());
        lemma_opt_lt_trichotomy(Some(a@.problem_type), Some(b@.problem_type));
        lemma_opt_lt_trichotomy(Some(a@.path), Some(b@.path));
        lemma_opt_lt_trichotomy(Some(a@.rule_id), Some(b@.rule_id));
        lemma_opt_lt_trichotomy(a@.required_mode, b@.required_mode);
        lemma_opt_lt_trichotomy(Some(a@.failure_reason), Some(b@.failure_reason));
        lemma_opt_lt_trichotomy(a@.rule_source, b@.rule_source);
        reveal_with_fuel(fields_lt, 7);
    }
    if !str_same(&a.problem_type, &b.problem_type) {
        return chars_lt(&chars_of(a.problem_type.as_str()), &chars_of(b.problem_type.as_str()));
    }
    if !str_same(&a.path, &b.path) {
        return chars_lt(&chars_of(a.path.as_str()), &chars_of(b.path.as_str()));
    }
    if !str_same(&a.rule_id, &b.rule_id) {
        return chars_lt(&chars_of(a.rule_id.as_str()), &chars_of(b.rule_id.as_str()));
    }
    if !opt_same(&a.required_mode, &b.required_mode) {
        return opt_less(&a.required_mode, &b.required_mode);
    }
    if !str_same(&a.failure_reason, &b.failure_reason) {
        return chars_lt(&chars_of(a.failure_reason.as_str()), &chars_of(b.failure_reason.as_str()));
    }
    opt_less(&a.rule_source, &b.rule_source)
}

/// Strictly increasing by `fingerprint_lt`, so without duplicates.
pub open spec fn fingerprints_sorted(s: Seq<FingerprintView>) -> bool {
    forall|i: int, j: int| 0 <= i < j < s.len() ==> fingerprint_lt(#[trigger] s[i], #[trigger] s[j])
}

fn insert_fingerprint(r: &mut Vec<BaselineFingerprint>, x: BaselineFingerprint)
    requires
        fingerprints_sorted(fingerprint_views(old(r)@)),
    ensures
        fingerprints_sorted(fingerprint_views(final(r)@)),
        forall|y: FingerprintView|
            fingerprint_views(final(r)@).contains(y) <==> (fingerprint_views(old(r)@).contains(y) || y == x@),
{
    let ghost old_v = fingerprint_views(r@);
    let mut j: usize = 0;
    while j < r.len() && fingerprint_less(&r[j], &x)
        invariant
            j <= r.len(),
            r@ == old(r)@,
            old_v == fingerprint_views(r@),
            forall|k: int| 0 <= k < j ==> fingerprint_lt(#[trigger] old_v[k], x@),
        decreases r.len() - j,
    {
        j += 1;
    }
    if j < r.len() && fingerprint_eq(&r[j], &x) {
        proof {
            assert(old_v[j as int] == x@);
            assert forall|y: FingerprintView| old_v.contains(y) <==> (old_v.contains(y) || y == x@) by {
                if y == x@ {
                    assert(old_v[j as int] == y);
                }
            }
        }
        return;
    }
    let ghost jj = j as int;
    proof {
        if jj < old_v.len() {
            lemma_fingerprint_order(old_v[jj], x@);
            assert(fingerprint_lt(x@, old_v[jj]));
        }
    }
    r.insert(j, x);
    proof {
        let nv = fingerprint_views(r@);
        assert(nv =~= old_v.insert(jj, x@));
        assert forall|a: int, b: int| 0 <= a < b < nv.len() implies fingerprint_lt(#[trigger] nv[a], #[trigger] nv[b]) by {
            if b == jj {
                assert(fingerprint_lt(old_v[a], x@));
            } else if a == jj {
                if b - 1 > jj {
                    assert(fingerprint_lt(old_v[jj], old_v[b - 1]));
                    lemma_fingerprint_lt_transitive(x@, old_v[jj], old_v[b - 1]);
                }
            } else if a < jj && b > jj {
                assert(fingerprint_lt(old_v[a], old_v[b - 1]));
            } else if a > jj {
                assert(fingerprint_lt(old_v[a - 1], old_v[b - 1]));
            } else {
                assert(fingerprint_lt(old_v[a], old_v[b]));
            }
        }
        assert forall|y: FingerprintView| nv.contains(y) <==> (old_v.contains(y) || y == x@) by {
            if nv.contains(y) {
                let k = choose|k: int| 0 <= k < nv.len() && nv[k] == y;
                if k < jj {
                    assert(old_v[k] == y);
                } else if k > jj {
                    assert(old_v[k - 1] == y);
                }
            }
            if old_v.contains(y) {
                let k = choose|k: int| 0 <= k < old_v.len() && old_v[k] == y;
                if k < jj {
                    assert(nv[k] == y);
                } else {
                    assert(nv[k + 1] == y);
                }
            }
            if y == x@ {
                assert(nv[jj] == y);
            }
        }
    }
}

/// The baseline of an artifact: the fingerprints of its findings, each once, in
/// increasing `fingerprint_lt` order, generated at `generated_at`.
pub fn create_baseline_from_artifact(artifact: &DiagnosticsArtifact, generated_at: &str) -> (r: BaselineFile)
    ensures
        r.schema_version@ == BASELINE_SCHEMA_VERSION@,
        r.tool_name@ == crate::reporters::TOOL_NAME@,
        r.tool_version@ == crate::reporters::TOOL_VERSION@,
        r.generated_at@ == generated_at@,
        r.fingerprint_count == r.fingerprints@.len(),
        fingerprints_sorted(fingerprint_views(r.fingerprints@)),
        forall|f: FingerprintView|
            fingerprint_views(r.fingerprints@).contains(f) <==> diagnostic_views(artifact.diagnostics@).map_values(
                |d: DiagnosticView| fingerprint_of(d),
            ).contains(f),
{
    let ghost target = diagnostic_views(artifact.diagnostics@).map_values(|d: DiagnosticView| fingerprint_of(d));
    let mut fps: Vec<BaselineFingerprint> = Vec::new();
    let mut i: usize = 0;
    while i < artifact.diagnostics.len()
        invariant
            i <= artifact.diagnostics.len(),
            target == diagnostic_views(artifact.diagnostics@).map_values(|d: DiagnosticView| fingerprint_of(d)),
            fingerprints_sorted(fingerprint_views(fps@)),
            forall|f: FingerprintView| fingerprint_views(fps@).contains(f) <==> target.take(i as int).contains(f),
        decreases artifact.diagnostics.len() - i,
    {
        let f = fingerprint_for(&artifact.diagnostics[i]);
        let ghost fv = f@;
        insert_fingerprint(&mut fps, f);
        proof {
            assert(target[i as int] == fv);
            assert(target.take(i + 1) =~= target.take(i as int).push(fv));
            let t0 = target.take(i as int);
            let t1 = target.take(i + 1);
            assert forall|g: FingerprintView| fingerprint_views(fps@).contains(g) <==> t1.contains(g) by {
                if t1.contains(g) {
                    let k = choose|k: int| 0 <= k < t1.len() && #[trigger] t1[k] == g;
                    if k < i {
                        assert(t0[k] == g);
                    }
                }
                if t0.contains(g) {
                    let k = choose|k: int| 0 <= k < t0.len() && #[trigger] t0[k] == g;
                    assert(t1[k] == g);
                }
                if g == fv {
                    assert(t1[i as int] == g);
                }
            }
        }
        i += 1;
    }
    proof {
        assert(target.take(i as int) =~= target);
    }
    BaselineFile {
        schema_version: str_to_string(BASELINE_SCHEMA_VERSION),
        tool_name: str_to_string(crate::reporters::TOOL_NAME),
        tool_version: str_to_string(crate::reporters::TOOL_VERSION),
        generated_at: str_to_string(generated_at),
        fingerprint_count: fps.len(),
        fingerprints: fps,
    }
}

/// Checks the schema version of a baseline read from `path_display`.
pub fn check_baseline_schema(baseline: &BaselineFile, path_display: &str) -> (r: Result<(), String>)
    ensures
        r is Ok <==> baseline.schema_version@ == BASELINE_SCHEMA_VERSION@,
        r matches Err(m) ==> m@ == "unsupported baseline schema `"@ + baseline.schema_version@ + "` in "@ + path_display@,
{
    if str_same(&baseline.schema_version, &str_to_string(BASELINE_SCHEMA_VERSION)) {
        Ok(())
    } else {
        let mut m = str_to_string("unsupported baseline schema `");
        m.append(baseline.schema_version.as_str());
        m.append("` in ");
        m.append(path_display);
        Err(m)
    }
}

/// Applying a baseline keeps every finding and its fields; only the baseline state
/// changes, and the active and suppressed findings together are all of them.
pub proof fn law_baseline_keeps_findings(ds: Seq<DiagnosticView>, fps: Seq<FingerprintView>)
    ensures
        ds.map_values(|d: DiagnosticView| marked(d, fps)).len() == ds.len(),
        forall|i: int|
            0 <= i < ds.len() ==> (DiagnosticView {
                baseline_state: ds[i].baseline_state,
                ..ds.map_values(|d: DiagnosticView| marked(d, fps))[i]
            }) == #[trigger] ds[i],
        suppressed_count(ds, fps) <= ds.len(),
{
    lemma_suppressed_bound(ds, fps);
}

/// A baseline created from an artifact suppresses every finding of that artifact: the
/// baseline holds each finding's fingerprint, so none is left active.
pub proof fn law_own_baseline_suppresses_all(ds: Seq<DiagnosticView>, fps: Seq<FingerprintView>)
    requires
        forall|f: FingerprintView| fps.contains(f) <==> ds.map_values(|d: DiagnosticView| fingerprint_of(d)).contains(f),
    ensures
        suppressed_count(ds, fps) == ds.len(),
        forall|i: int|
            0 <= i < ds.len() ==> marked(#[trigger] ds[i], fps).baseline_state == "suppressed_by_baseline"@,
{
    assert forall|i: int| 0 <= i < ds.len() implies #[trigger] fps.contains(fingerprint_of(ds[i])) by {
        assert(ds.map_values(|d: DiagnosticView| fingerprint_of(d))[i] == fingerprint_of(ds[i]));
    }
    lemma_all_suppressed(ds, fps);
}

proof fn lemma_all_suppressed(ds: Seq<DiagnosticView>, fps: Seq<FingerprintView>)
    requires
        forall|i: int| 0 <= i < ds.len() ==> #[trigger] fps.contains(fingerprint_of(ds[i])),
    ensures
        suppressed_count(ds, fps) == ds.len(),
    decreases ds.len(),
{
    if ds.len() > 0 {
        let d = ds.drop_last();
        assert forall|i: int| 0 <= i < d.len() implies #[trigger] fps.contains(fingerprint_of(d[i])) by {
            assert(d[i] == ds[i]);
        }
        lemma_all_suppressed(d, fps);
        assert(fps.contains(fingerprint_of(ds[ds.len() - 1])));
    }
}

/// Applying a baseline to findings it has already marked changes nothing: the same
/// findings come out, with the same count suppressed.
pub proof fn law_baseline_reapply_stable(ds: Seq<DiagnosticView>, fps: Seq<FingerprintView>)
    ensures
        ds.map_values(|d: DiagnosticView| marked(d, fps)).map_values(|d: DiagnosticView| marked(d, fps))
            == ds.map_values(|d: DiagnosticView| marked(d, fps)),
        suppressed_count(ds.map_values(|d: DiagnosticView| marked(d, fps)), fps) == suppressed_count(ds, fps),
    decreases ds.len(),
{
    let m = ds.map_values(|d: DiagnosticView| marked(d, fps));
    assert forall|i: int| 0 <= i < m.len() implies #[trigger] fingerprint_of(m[i]) == fingerprint_of(ds[i]) by {}
    assert(m.map_values(|d: DiagnosticView| marked(d, fps)) =~= m);
    if ds.len() > 0 {
        law_baseline_reapply_stable(ds.drop_last(), fps);
        assert(ds.drop_last().map_values(|d: DiagnosticView| marked(d, fps)) =~= m.drop_last());
        assert(fingerprint_of(m.last()) == fingerprint_of(ds.last()));
    }
}

/// Two findings share a fingerprint exactly when they agree on problem type, path, rule
/// id, required mode, failure reason and rule source; so a baseline that holds one
/// finding's fingerprint leaves a finding of another rule, on the same document,
/// active.
pub proof fn law_fingerprint_identifies_finding(d: DiagnosticView, e: DiagnosticView)
    ensures
        (fingerprint_of(d) == fingerprint_of(e)) <==> (d.problem_type == e.problem_type && d.path == e.path
            && d.rule_id == e.rule_id && d.required_mode == e.required_mode && d.failure_reason == e.failure_reason
            && d.rule_source == e.rule_source),
        d.rule_id != e.rule_id ==> marked(e, seq![fingerprint_of(d)]).baseline_state == "active"@,
        marked(d, seq![fingerprint_of(d)]).baseline_state == "suppressed_by_baseline"@,
{
    let f = seq![fingerprint_of(d)];
    assert(f[0] == fingerprint_of(d));
    if d.rule_id != e.rule_id {
        if f.contains(fingerprint_of(e)) {
            let k = choose|k: int| 0 <= k < f.len() && f[k] == fingerprint_of(e);
            assert(fingerprint_of(e).rule_id == e.rule_id);
        }
    }
}

} // verus!
