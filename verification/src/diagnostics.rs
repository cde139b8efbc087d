//! The diagnostics artifact of a lint run: one record per finding, with its baseline
//! and waiver state and the summaries of both.
use vstd::prelude::*;
use crate::config::model::opt_view;
use vstd::string::*;
use crate::text::{chars_eq, chars_of, views};

verus! {

/// One finding of a lint run.
#[derive(Debug)]
pub struct DiagnosticRecord {
    pub diagnostic_id: String,
    pub problem_type: String,
    pub path: String,
    pub message: String,
    pub rule_id: String,
    pub required_mode: Option<String>,
    pub failure_reason: String,
    pub suggested_action: String,
    pub baseline_state: String,
    pub rule_source: Option<String>,
    pub trigger_paths: Vec<String>,
    pub rule_reason: Option<String>,
    pub finding_state: String,
    pub waiver_reason: Option<String>,
    pub waiver_owner: Option<String>,
    pub waiver_expires_at: Option<String>,
}

/// The view of a finding.
pub struct DiagnosticView {
    pub diagnostic_id: Seq<char>,
    pub problem_type: Seq<char>,
    pub path: Seq<char>,
    pub message: Seq<char>,
    pub rule_id: Seq<char>,
    pub required_mode: Option<Seq<char>>,
    pub failure_reason: Seq<char>,
    pub suggested_action: Seq<char>,
    pub baseline_state: Seq<char>,
    pub rule_source: Option<Seq<char>>,
    pub trigger_paths: Seq<Seq<char>>,
    pub rule_reason: Option<Seq<char>>,
    pub finding_state: Seq<char>,
    pub waiver_reason: Option<Seq<char>>,
    pub waiver_owner: Option<Seq<char>>,
    pub waiver_expires_at: Option<Seq<char>>,
}

impl View for DiagnosticRecord {
    type V = DiagnosticView;

    open spec fn view(&self) -> DiagnosticView {
        DiagnosticView {
            diagnostic_id: self.diagnostic_id@,
            problem_type: self.problem_type@,
            path: self.path@,
            message: self.message@,
            rule_id: self.rule_id@,
            required_mode: opt_view(self.required_mode),
            failure_reason: self.failure_reason@,
            suggested_action: self.suggested_action@,
            baseline_state: self.baseline_state@,
            rule_source: opt_view(self.rule_source),
            trigger_paths: views(self.trigger_paths@),
            rule_reason: opt_view(self.rule_reason),
            finding_state: self.finding_state@,
            waiver_reason: opt_view(self.waiver_reason),
            waiver_owner: opt_view(self.waiver_owner),
            waiver_expires_at: opt_view(self.waiver_expires_at),
        }
    }
}

/// The views of a list of findings.
pub open spec fn diagnostic_views(v: Seq<DiagnosticRecord>) -> Seq<DiagnosticView> {
    v.map_values(|d: DiagnosticRecord| d@)
}

/// How many findings a baseline left active and how many it suppressed.
#[derive(Debug, Clone, Copy, PartialEq, Eq, Structural)]
pub struct BaselineSummary {
    pub active_count: usize,
    pub suppressed_count: usize,
}

/// How many findings waivers cover and how many waivers have expired.
#[derive(Debug, Clone, Copy, PartialEq, Eq, Structural)]
pub struct WaiverSummary {
    pub waived_count: usize,
    pub expired_count: usize,
}

/// A waiver whose expiry date has passed.
#[derive(Debug)]
pub struct ExpiredWaiver {
    pub problem_type: String,
    pub path: String,
    pub rule_id: String,
    pub owner: String,
    pub reason: String,
    pub expires_at: String,
}

/// The view of an expired waiver.
pub struct ExpiredWaiverView {
    pub problem_type: Seq<char>,
    pub path: Seq<char>,
    pub rule_id: Seq<char>,
    pub owner: Seq<char>,
    pub reason: Seq<char>,
    pub expires_at: Seq<char>,
}

impl View for ExpiredWaiver {
    type V = ExpiredWaiverView;

    open spec fn view(&self) -> ExpiredWaiverView {
        ExpiredWaiverView {
            problem_type: self.problem_type@,
            path: self.path@,
            rule_id: self.rule_id@,
            owner: self.owner@,
            reason: self.reason@,
            expires_at: self.expires_at@,
        }
    }
}

/// The diagnostics artifact of a lint run.
#[derive(Debug)]
pub struct DiagnosticsArtifact {
    pub schema_version: String,
    pub status: String,
    pub diagnostics: Vec<DiagnosticRecord>,
    pub baseline_status: String,
    pub baseline_summary: BaselineSummary,
    pub waiver_status: String,
    pub waiver_summary: WaiverSummary,
    pub expired_waivers: Vec<ExpiredWaiver>,
}

/// The schema version of diagnostics artifacts.
pub const DIAGNOSTICS_SCHEMA_VERSION: &'static str = "docpact.diagnostics.v1";

/// The position of the first finding with id `id`, if any.
pub fn find_diagnostic(artifact: &DiagnosticsArtifact, id: &str) -> (r: Option<usize>)
    ensures
        match r {
            Some(k) => k < artifact.diagnostics@.len() && artifact.diagnostics@[k as int].diagnostic_id@ == id@
                && forall|j: int| 0 <= j < k ==> artifact.diagnostics@[j].diagnostic_id@ != id@,
            None => forall|j: int| 0 <= j < artifact.diagnostics@.len() ==> artifact.diagnostics@[j].diagnostic_id@ != id@,
        },
{
    let target = chars_of(id);
    let mut i: usize = 0;
    while i < artifact.diagnostics.len()
        invariant
            i <= artifact.diagnostics.len(),
            target@ == id@,
            forall|j: int| 0 <= j < i ==> artifact.diagnostics@[j].diagnostic_id@ != id@,
        decreases artifact.diagnostics.len() - i,
    {
        if chars_eq(&chars_of(artifact.diagnostics[i].diagnostic_id.as_str()), &target) {
            return Some(i);
        }
        i += 1;
    }
    None
}

/// The message for a finding id that a report lacks.
pub fn missing_diagnostic_message(id: &str, report_display: &str) -> (m: String)
    ensures
        m@ == "diagnostic `"@ + id@ + "` was not found in report "@ + report_display@,
{
    let mut m = crate::text::str_to_string("diagnostic `");
    m.append(id);
    m.append("` was not found in report ");
    m.append(report_display);
    m
}

/// Checks the schema version of a diagnostics report read from `path_display`.
pub fn check_diagnostics_schema(artifact: &DiagnosticsArtifact, path_display: &str) -> (r: Result<(), String>)
    ensures
        r is Ok <==> artifact.schema_version@ == DIAGNOSTICS_SCHEMA_VERSION@,
        r matches Err(m) ==> m@ == "unsupported diagnostics report schema `"@ + artifact.schema_version@ + "` in "@
            + path_display@,
{
    let expected = crate::text::chars_of(DIAGNOSTICS_SCHEMA_VERSION);
    if crate::text::chars_eq(&crate::text::chars_of(artifact.schema_version.as_str()), &expected) {
        Ok(())
    } else {
        let mut m = crate::text::str_to_string("unsupported diagnostics report schema `");
        m.append(artifact.schema_version.as_str());
        m.append("` in ");
        m.append(path_display);
        Err(m)
    }
}

} // verus!
