use vstd::prelude::*;
use std::path::PathBuf;

use crate::text::str_eq;

verus! {

/// A filesystem path, carried through unchanged.
#[verifier::external_type_specification]
#[verifier::external_body]
pub struct ExPathBuf(PathBuf);

/// How much analysis an import runs.
#[derive(Clone, Copy, Debug, PartialEq, Eq, Structural)]
pub enum AnalysisProfile {
    Quick,
    Balanced,
    Deep,
}

/// The name of a profile.
pub open spec fn spec_profile_name(p: AnalysisProfile) -> Seq<char> {
    match p {
        AnalysisProfile::Quick => "quick"@,
        AnalysisProfile::Balanced => "balanced"@,
        AnalysisProfile::Deep => "deep"@,
    }
}

/// Whether a profile collects native control-flow facts: every profile but `Quick`.
pub open spec fn spec_collects_native_cfg(p: AnalysisProfile) -> bool {
    p != AnalysisProfile::Quick
}

impl AnalysisProfile {
    /// `quick`, `balanced` or `deep`.
    pub fn as_str(self) -> (r: &'static str)
        ensures
            r@ == spec_profile_name(self),
    {
        match self {
            AnalysisProfile::Quick => "quick",
            AnalysisProfile::Balanced => "balanced",
            AnalysisProfile::Deep => "deep",
        }
    }

    /// Whether this profile builds instructions, basic blocks and control-flow edges.
    pub fn collects_native_cfg(self) -> (r: bool)
        ensures
            r == spec_collects_native_cfg(self),
    {
        match self {
            AnalysisProfile::Quick => false,
            _ => true,
        }
    }
}

/// The `Quick` profile is the one that skips native control-flow collection, and `Deep`
/// collects exactly what `Balanced` (the default) collects.
pub proof fn law_quick_alone_skips_native_cfg(p: AnalysisProfile)
    ensures
        !spec_collects_native_cfg(p) <==> p == AnalysisProfile::Quick,
        spec_collects_native_cfg(AnalysisProfile::Deep) == spec_collects_native_cfg(
            AnalysisProfile::Balanced,
        ),
{
}

/// What to import and how.
#[derive(Debug)]
pub struct ImportOptions {
    pub project_root: PathBuf,
    pub artifact_path: PathBuf,
    pub profile: AnalysisProfile,
}

impl ImportOptions {
    /// Options with the default `Balanced` profile.
    pub fn new(project_root: PathBuf, artifact_path: PathBuf) -> (r: Self)
        ensures
            r.project_root == project_root,
            r.artifact_path == artifact_path,
            r.profile == AnalysisProfile::Balanced,
    {
        ImportOptions { project_root, artifact_path, profile: AnalysisProfile::Balanced }
    }

    /// Options with the given profile.
    pub fn with_profile(project_root: PathBuf, artifact_path: PathBuf, profile: AnalysisProfile) -> (r:
        Self)
        ensures
            r.project_root == project_root,
            r.artifact_path == artifact_path,
            r.profile == profile,
    {
        ImportOptions { project_root, artifact_path, profile }
    }
}

/// The log line a native pass records for its status.
pub open spec fn spec_native_job_log(profile: AnalysisProfile, status: Seq<char>, pass_name: Seq<char>) -> Seq<
    char,
> {
    if status == "skipped"@ {
        pass_name + " skipped because "@ + spec_profile_name(profile)
            + " profile does not collect native CFG facts"@
    } else {
        pass_name + " completed with native CFG collection enabled"@
    }
}

/// The single log line of a native pass: why it was skipped, or that it ran.
pub fn native_job_logs(profile: AnalysisProfile, status: &str, pass_name: &str) -> (r: Vec<String>)
    ensures
        r@.len() == 1,
        r@[0]@ == spec_native_job_log(profile, status@, pass_name@),
{
    let mut line = String::new();
    line.append(pass_name);
    if str_eq(status, "skipped") {
        line.append(" skipped because ");
        line.append(profile.as_str());
        line.append(" profile does not collect native CFG facts");
    } else {
        line.append(" completed with native CFG collection enabled");
    }
    let mut logs: Vec<String> = Vec::new();
    logs.push(line);
    logs
}

/// The status the native passes (`linear`, `cfg`, `dataflow`) record under a profile: skipped
/// where the profile does not collect native CFG facts, succeeded otherwise.
pub open spec fn spec_native_pass_status(profile: AnalysisProfile) -> Seq<char> {
    if spec_collects_native_cfg(profile) {
        "succeeded"@
    } else {
        "skipped"@
    }
}

/// Under `Quick`, the native passes' log says they were skipped by the profile; under the
/// others it says they ran.
pub proof fn law_quick_native_passes_log_skip(profile: AnalysisProfile, pass_name: Seq<char>)
    ensures
        profile == AnalysisProfile::Quick ==> spec_native_job_log(
            profile,
            spec_native_pass_status(profile),
            pass_name,
        ) == pass_name + " skipped because "@ + "quick"@ + " profile does not collect native CFG facts"@,
        profile != AnalysisProfile::Quick ==> spec_native_job_log(
            profile,
            spec_native_pass_status(profile),
            pass_name,
        ) == pass_name + " completed with native CFG collection enabled"@,
{
    reveal_strlit("succeeded");
    reveal_strlit("skipped");
    assert("succeeded"@[1] != "skipped"@[1]);
}

} // verus!
