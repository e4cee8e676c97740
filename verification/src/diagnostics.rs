use vstd::prelude::*;

use crate::profile::{spec_profile_name, AnalysisProfile};
use crate::text::{str_eq, string_of};

verus! {

/// How serious a diagnostic is.
#[derive(Clone, Copy, Debug, PartialEq, Eq, Structural)]
pub enum DiagnosticSeverity {
    Warning,
    Error,
}

/// The analysis stage a diagnostic comes from.
#[derive(Clone, Copy, Debug, PartialEq, Eq, Structural)]
pub enum DiagnosticStage {
    Parse,
    IndexSections,
    IndexEdges,
}

/// Something an analysis noticed: how serious, where, a stable code, a message, and whether
/// the analysis went on.
#[derive(Clone, Debug, PartialEq, Eq)]
pub struct AnalysisDiagnostic {
    pub severity: DiagnosticSeverity,
    pub stage: DiagnosticStage,
    pub code: String,
    pub message: String,
    pub recoverable: bool,
}

/// A diagnostic as a value.
pub type DiagnosticView = (DiagnosticSeverity, DiagnosticStage, Seq<char>, Seq<char>, bool);

/// A diagnostic as a value.
pub open spec fn diagnostic_view(d: AnalysisDiagnostic) -> DiagnosticView {
    (d.severity, d.stage, d.code@, d.message@, d.recoverable)
}

/// Diagnostics as values.
pub open spec fn diagnostic_views(v: Seq<AnalysisDiagnostic>) -> Seq<DiagnosticView> {
    Seq::new(v.len(), |i: int| diagnostic_view(v[i]))
}

/// The diagnostic a pass skipped by the profile leaves: a recoverable warning of the edge stage
/// coded `pass_skipped_by_profile`.
pub open spec fn skipped_view(profile: AnalysisProfile, pass: Seq<char>, description: Seq<char>) -> DiagnosticView {
    (
        DiagnosticSeverity::Warning,
        DiagnosticStage::IndexEdges,
        "pass_skipped_by_profile"@,
        "analysis profile `"@ + spec_profile_name(profile) + "` skipped "@ + pass + ": "@ + description,
        true,
    )
}

/// A diagnostic built from its parts.
pub fn diagnostic(
    severity: DiagnosticSeverity,
    stage: DiagnosticStage,
    code: &str,
    message: String,
    recoverable: bool,
) -> (r: AnalysisDiagnostic)
    ensures
        diagnostic_view(r) == (severity, stage, code@, message@, recoverable),
{
    AnalysisDiagnostic { severity, stage, code: string_of(code), message, recoverable }
}

/// The warning that records a pass the profile skipped, naming the profile, the pass and what
/// was left out.
pub fn profile_skipped_diagnostic(profile: AnalysisProfile, pass: &str, description: &str) -> (r:
    AnalysisDiagnostic)
    ensures
        diagnostic_view(r) == skipped_view(profile, pass@, description@),
{
    let mut message = string_of("analysis profile `");
    message.append(profile.as_str());
    message.append("` skipped ");
    message.append(pass);
    message.append(": ");
    message.append(description);
    diagnostic(DiagnosticSeverity::Warning, DiagnosticStage::IndexEdges, "pass_skipped_by_profile", message, true)
}

/// `code: message`.
pub open spec fn snippet(d: AnalysisDiagnostic) -> Seq<char> {
    d.code@ + ": "@ + d.message@
}

/// The snippets of the first (at most) four of `v`.
pub open spec fn snippets_of(v: Seq<AnalysisDiagnostic>) -> Seq<Seq<char>> {
    let n = if v.len() < 4 {
        v.len()
    } else {
        4
    };
    Seq::new(n, |i: int| snippet(v[i]))
}

pub(crate) fn snippet_text(d: &AnalysisDiagnostic) -> (r: String)
    ensures
        r@ == snippet(*d),
{
    let mut s = string_of(d.code.as_str());
    s.append(": ");
    s.append(d.message.as_str());
    s
}

/// `code: message` for the first four diagnostics.
pub fn diagnostic_snippets(diagnostics: &[AnalysisDiagnostic]) -> (r: Vec<String>)
    ensures
        r@.len() == snippets_of(diagnostics@).len(),
        forall|i: int| 0 <= i < r@.len() ==> (#[trigger] r@[i])@ == snippets_of(diagnostics@)[i],
{
    let mut r: Vec<String> = Vec::new();
    let mut i: usize = 0;
    while i < diagnostics.len() && i < 4
        invariant
            i <= diagnostics@.len(),
            i <= 4,
            r@.len() == i,
            forall|k: int| 0 <= k < i ==> (#[trigger] r@[k])@ == snippet(diagnostics@[k]),
        decreases diagnostics@.len() - i,
    {
        r.push(snippet_text(&diagnostics[i]));
        i += 1;
    }
    r
}

/// Whether a diagnostic records a pass skipped by the profile.
pub open spec fn is_profile_skip(d: AnalysisDiagnostic) -> bool {
    d.code@ == "pass_skipped_by_profile"@
}

/// The profile-skip diagnostics among the first `n`.
pub open spec fn skips_upto(v: Seq<AnalysisDiagnostic>, n: int) -> Seq<AnalysisDiagnostic>
    decreases n,
{
    if n <= 0 {
        Seq::empty()
    } else {
        let prev = skips_upto(v, n - 1);
        if is_profile_skip(v[n - 1]) {
            prev.push(v[n - 1])
        } else {
            prev
        }
    }
}

/// For a skipped native job, the snippets of its first four profile-skip diagnostics; nothing
/// for a job with another status.
pub open spec fn spec_native_job_diagnostics(v: Seq<AnalysisDiagnostic>, status: Seq<char>) -> Seq<Seq<char>> {
    if status == "skipped"@ {
        snippets_of(skips_upto(v, v.len() as int))
    } else {
        Seq::empty()
    }
}

/// The diagnostic snippets a native job records: for a skipped job, why the profile skipped
/// it (at most four); nothing otherwise.
pub fn native_job_diagnostics(diagnostics: &[AnalysisDiagnostic], status: &str) -> (r: Vec<String>)
    ensures
        r@.len() == spec_native_job_diagnostics(diagnostics@, status@).len(),
        forall|i: int| 0 <= i < r@.len() ==> (#[trigger] r@[i])@ == spec_native_job_diagnostics(diagnostics@, status@)[i],
{
    if !str_eq(status, "skipped") {
        return Vec::new();
    }
    let mut r: Vec<String> = Vec::new();
    let mut i: usize = 0;
    while i < diagnostics.len()
        invariant
            i <= diagnostics@.len(),
            status@ == "skipped"@,
            r@.len() == snippets_of(skips_upto(diagnostics@, i as int)).len(),
            forall|k: int| 0 <= k < r@.len() ==> (#[trigger] r@[k])@ == snippets_of(skips_upto(diagnostics@, i as int))[k],
        decreases diagnostics@.len() - i,
    {
        let d = &diagnostics[i];
        let ghost prev = skips_upto(diagnostics@, i as int);
        if str_eq(d.code.as_str(), "pass_skipped_by_profile") && r.len() < 4 {
            r.push(snippet_text(d));
        }
        proof {
            let next = skips_upto(diagnostics@, i + 1);
            if is_profile_skip(diagnostics@[i as int]) {
                assert(next == prev.push(diagnostics@[i as int]));
                assert(next[prev.len() as int] == diagnostics@[i as int]);
            } else {
                assert(next == prev);
            }
        }
        i += 1;
    }
    r
}

} // verus!
