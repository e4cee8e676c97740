use vstd::prelude::*;

use crate::diagnostics::{
    snippet, snippet_text,
    diagnostic, diagnostic_snippets, diagnostic_views, native_job_diagnostics, snippets_of,
    spec_native_job_diagnostics, AnalysisDiagnostic,
};
use crate::frame::spec_format_name;
use crate::parse::ParsedBinary;
use crate::profile::{
    native_job_logs, spec_collects_native_cfg, spec_native_job_log, spec_native_pass_status, spec_profile_name,
    AnalysisProfile,
};
use crate::text::{decimal_digits, push_decimal, string_of};

verus! {

/// What an analysis run reports: how many sections, symbols, imports, strings, functions and
/// xrefs it found, how many index edges they make, and its diagnostics.
pub struct AnalysisSummary {
    pub sections: u64,
    pub symbols: u64,
    pub imports: u64,
    pub strings: u64,
    pub functions: u64,
    pub xrefs: u64,
    pub edges: u64,
    pub diagnostics: Vec<AnalysisDiagnostic>,
}

/// The index edges an analysis makes: one tying each section, symbol, import, string,
/// function, block and instruction to its container, one per control-flow edge, and three per
/// xref.
pub open spec fn edge_count(b: ParsedBinary) -> nat {
    b.sections@.len() + b.symbols@.len() + b.imports@.len() + b.strings@.len() + b.functions@.len()
        + b.basic_blocks@.len() + b.instructions@.len() + b.cfg_edges@.len() + 3 * b.xrefs@.len()
}

/// The summary of an analysis: its counts, its edge count and a copy of its diagnostics.
pub fn analysis_summary(parsed: &ParsedBinary) -> (r: AnalysisSummary)
    requires
        edge_count(*parsed) <= u64::MAX,
    ensures
        r.sections == parsed.sections@.len(),
        r.symbols == parsed.symbols@.len(),
        r.imports == parsed.imports@.len(),
        r.strings == parsed.strings@.len(),
        r.functions == parsed.functions@.len(),
        r.xrefs == parsed.xrefs@.len(),
        r.edges == edge_count(*parsed),
        diagnostic_views(r.diagnostics@) == diagnostic_views(parsed.diagnostics@),
{
    let mut diagnostics: Vec<AnalysisDiagnostic> = Vec::new();
    let mut i: usize = 0;
    while i < parsed.diagnostics.len()
        invariant
            i <= parsed.diagnostics@.len(),
            diagnostic_views(diagnostics@) == diagnostic_views(parsed.diagnostics@).subrange(0, i as int),
        decreases parsed.diagnostics@.len() - i,
    {
        let d = &parsed.diagnostics[i];
        let ghost before = diagnostic_views(diagnostics@);
        diagnostics.push(diagnostic(d.severity, d.stage, d.code.as_str(), d.message.clone(), d.recoverable));
        assert(diagnostic_views(diagnostics@) =~= before.push(diagnostic_views(parsed.diagnostics@)[i as int]));
        assert(diagnostic_views(parsed.diagnostics@).subrange(0, i + 1) =~= diagnostic_views(parsed.diagnostics@).subrange(0, i as int).push(diagnostic_views(parsed.diagnostics@)[i as int]));
        i += 1;
    }
    assert(diagnostic_views(parsed.diagnostics@).subrange(0, parsed.diagnostics@.len() as int) =~= diagnostic_views(parsed.diagnostics@));
    let sections = parsed.sections.len() as u64;
    let symbols = parsed.symbols.len() as u64;
    let imports = parsed.imports.len() as u64;
    let strings = parsed.strings.len() as u64;
    let functions = parsed.functions.len() as u64;
    let blocks = parsed.basic_blocks.len() as u64;
    let instructions = parsed.instructions.len() as u64;
    let cfg_edges = parsed.cfg_edges.len() as u64;
    let xrefs = parsed.xrefs.len() as u64;
    let edges = sections + symbols + imports + strings + functions + blocks + instructions + cfg_edges + 3 * xrefs;
    AnalysisSummary { sections, symbols, imports, strings, functions, xrefs, edges, diagnostics }
}

/// The parameters a job records of its profile: the profile's name and whether it collects
/// native control-flow facts.
pub struct JobParameters {
    pub profile: String,
    pub native_cfg: bool,
}

/// Whether `p` records `profile`.
pub open spec fn parameters_of(p: JobParameters, profile: AnalysisProfile) -> bool {
    p.profile@ == spec_profile_name(profile) && p.native_cfg == spec_collects_native_cfg(profile)
}

/// The parameters of a job run under `profile`.
pub fn job_parameters(profile: AnalysisProfile) -> (r: JobParameters)
    ensures
        parameters_of(r, profile),
{
    JobParameters { profile: string_of(profile.as_str()), native_cfg: profile.collects_native_cfg() }
}

/// A finished analysis pass as a job: its pass name, split into lab and phase; its status and
/// progress; what it produced; the counts its metadata records; its diagnostic and log
/// snippets; and the parameters of its profile.
pub struct CompletedAnalysisJob {
    pub pass_name: String,
    pub lab_id: String,
    pub pass_phase: String,
    pub status: String,
    pub progress_current: u64,
    pub progress_total: u64,
    pub objects_produced: u64,
    pub diagnostics_count: u64,
    pub counts: Vec<(String, u64)>,
    pub diagnostic_snippets: Vec<String>,
    pub log_snippets: Vec<String>,
    pub parameters: JobParameters,
}

/// A job as a value.
pub type JobView = (
    Seq<char>,
    Seq<char>,
    Seq<char>,
    Seq<char>,
    u64,
    u64,
    u64,
    u64,
    Seq<(Seq<char>, u64)>,
    Seq<Seq<char>>,
    Seq<Seq<char>>,
);

/// Texts as values.
pub open spec fn texts(v: Seq<String>) -> Seq<Seq<char>> {
    Seq::new(v.len(), |i: int| v[i]@)
}

/// Named counts as values.
pub open spec fn count_views(v: Seq<(String, u64)>) -> Seq<(Seq<char>, u64)> {
    Seq::new(v.len(), |i: int| (v[i].0@, v[i].1))
}

/// A job as a value.
pub open spec fn job_view(j: CompletedAnalysisJob) -> JobView {
    (
        j.pass_name@,
        j.lab_id@,
        j.pass_phase@,
        j.status@,
        j.progress_current,
        j.progress_total,
        j.objects_produced,
        j.diagnostics_count,
        count_views(j.counts@),
        texts(j.diagnostic_snippets@),
        texts(j.log_snippets@),
    )
}

/// Jobs as values.
pub open spec fn job_views(v: Seq<CompletedAnalysisJob>) -> Seq<JobView> {
    Seq::new(v.len(), |i: int| job_view(v[i]))
}

/// Where the first `.` of a pass name is, if it has one.
pub open spec fn first_dot(s: Seq<char>) -> Option<int> {
    if exists|k: int| 0 <= k < s.len() && s[k] == '.' {
        Some(choose|k: int| 0 <= k < s.len() && s[k] == '.' && forall|j: int| 0 <= j < k ==> s[j] != '.')
    } else {
        None
    }
}

/// A pass name's lab and phase: what comes before and after its first `.`; `unknown` and the
/// whole name when it has none.
pub open spec fn split_pass(s: Seq<char>) -> (Seq<char>, Seq<char>) {
    match first_dot(s) {
        Some(k) => (s.subrange(0, k), s.subrange(k + 1, s.len() as int)),
        None => ("unknown"@, s),
    }
}

/// Splits a pass name at its first `.` into lab and phase (`unknown` and the whole name when
/// it has none).
pub fn split_pass_name(pass_name: &str) -> (r: (String, String))
    ensures
        (r.0@, r.1@) == split_pass(pass_name@),
{
    let n = pass_name.unicode_len();
    let mut k: usize = 0;
    while k < n
        invariant
            n == pass_name@.len(),
            k <= n,
            forall|j: int| 0 <= j < k ==> pass_name@[j] != '.',
        decreases n - k,
    {
        if pass_name.get_char(k) == '.' {
            proof {
                let s = pass_name@;
                let c = choose|q: int| 0 <= q < s.len() && s[q] == '.' && forall|j: int| 0 <= j < q ==> s[j] != '.';
                assert(0 <= k < s.len() && s[k as int] == '.' && forall|j: int| 0 <= j < k ==> s[j] != '.');
                if c < k {
                } else if c > k {
                }
                assert(c == k);
            }
            let lab = string_of(pass_name.substring_char(0, k));
            let phase = string_of(pass_name.substring_char(k + 1, n));
            return (lab, phase);
        }
        k += 1;
    }
    (string_of("unknown"), string_of(pass_name))
}

/// How far a job got: nothing when it was skipped, its one step otherwise.
pub open spec fn progress_of(status: Seq<char>) -> u64 {
    if status == "skipped"@ {
        0
    } else {
        1
    }
}

/// A planned job as a value.
pub open spec fn planned_job(
    pass: Seq<char>,
    status: Seq<char>,
    objects: u64,
    diagnostics_count: u64,
    counts: Seq<(Seq<char>, u64)>,
    snippets: Seq<Seq<char>>,
    logs: Seq<Seq<char>>,
) -> JobView {
    (
        pass,
        split_pass(pass).0,
        split_pass(pass).1,
        status,
        progress_of(status),
        1,
        objects,
        diagnostics_count,
        counts,
        snippets,
        logs,
    )
}

/// The jobs a finished analysis records: surface and seed (succeeded), the native linear, cfg
/// and dataflow passes (with the profile's native status), and triage (succeeded).
pub open spec fn job_plan(
    profile: AnalysisProfile,
    sections: u64,
    symbols: u64,
    imports: u64,
    strings: u64,
    functions: u64,
    instructions: u64,
    blocks: u64,
    cfg_edges: u64,
    diagnostics: Seq<AnalysisDiagnostic>,
) -> Seq<JobView> {
    let native = spec_native_pass_status(profile);
    seq![
        planned_job(
            "binary.surface"@,
            "succeeded"@,
            (sections + symbols + imports + strings) as u64,
            diagnostics.len() as u64,
            seq![("sections"@, sections), ("symbols"@, symbols), ("imports"@, imports), ("strings"@, strings)],
            snippets_of(diagnostics),
            seq![
                "persisted sections="@ + decimal_digits(sections as nat) + " symbols="@ + decimal_digits(symbols as nat)
                    + " imports="@ + decimal_digits(imports as nat) + " strings="@ + decimal_digits(strings as nat),
            ],
        ),
        planned_job(
            "binary.seed"@,
            "succeeded"@,
            functions,
            0,
            seq![("functions"@, functions)],
            Seq::empty(),
            seq!["seeded "@ + decimal_digits(functions as nat) + " function records"@],
        ),
        planned_job(
            "binary.linear"@,
            native,
            instructions,
            0,
            seq![("instructions"@, instructions)],
            spec_native_job_diagnostics(diagnostics, native),
            seq![spec_native_job_log(profile, native, "linear"@)],
        ),
        planned_job(
            "binary.cfg"@,
            native,
            (blocks + cfg_edges) as u64,
            0,
            seq![("basic_blocks"@, blocks), ("cfg_edges"@, cfg_edges)],
            spec_native_job_diagnostics(diagnostics, native),
            seq![spec_native_job_log(profile, native, "cfg"@)],
        ),
        planned_job(
            "binary.dataflow"@,
            native,
            instructions,
            0,
            seq![("instructions"@, instructions)],
            spec_native_job_diagnostics(diagnostics, native),
            seq![spec_native_job_log(profile, native, "dataflow"@)],
        ),
        planned_job(
            "binary.triage"@,
            "succeeded"@,
            functions,
            0,
            seq![("functions"@, functions)],
            Seq::empty(),
            seq!["scored "@ + decimal_digits(functions as nat) + " functions for triage"@],
        ),
    ]
}

/// Builds one job.
fn job(
    profile: AnalysisProfile,
    pass: &str,
    status: &str,
    objects: u64,
    diagnostics_count: u64,
    counts: Vec<(String, u64)>,
    snippets: Vec<String>,
    logs: Vec<String>,
) -> (r: CompletedAnalysisJob)
    ensures
        job_view(r) == planned_job(
            pass@,
            status@,
            objects,
            diagnostics_count,
            count_views(counts@),
            texts(snippets@),
            texts(logs@),
        ),
        parameters_of(r.parameters, profile),
{
    let (lab_id, pass_phase) = split_pass_name(pass);
    let progress_current: u64 = if crate::text::str_eq(status, "skipped") {
        0
    } else {
        1
    };
    CompletedAnalysisJob {
        pass_name: string_of(pass),
        lab_id,
        pass_phase,
        status: string_of(status),
        progress_current,
        progress_total: 1,
        objects_produced: objects,
        diagnostics_count,
        counts,
        diagnostic_snippets: snippets,
        log_snippets: logs,
        parameters: job_parameters(profile),
    }
}

/// One named count.
fn named(name: &str, value: u64) -> (r: (String, u64))
    ensures
        r.0@ == name@,
        r.1 == value,
{
    (string_of(name), value)
}

/// The line the surface job logs.
fn surface_log(sections: u64, symbols: u64, imports: u64, strings: u64) -> (r: String)
    ensures
        r@ == "persisted sections="@ + decimal_digits(sections as nat) + " symbols="@ + decimal_digits(symbols as nat)
            + " imports="@ + decimal_digits(imports as nat) + " strings="@ + decimal_digits(strings as nat),
{
    let mut s = string_of("persisted sections=");
    push_decimal(&mut s, sections);
    s.append(" symbols=");
    push_decimal(&mut s, symbols);
    s.append(" imports=");
    push_decimal(&mut s, imports);
    s.append(" strings=");
    push_decimal(&mut s, strings);
    s
}

/// `prefix`, the decimal digits of `value`, `suffix`.
fn counted_line(prefix: &str, value: u64, suffix: &str) -> (r: String)
    ensures
        r@ == prefix@ + decimal_digits(value as nat) + suffix@,
{
    let mut s = string_of(prefix);
    push_decimal(&mut s, value);
    s.append(suffix);
    s
}

/// The status of the native passes under a profile.
fn native_status(profile: AnalysisProfile) -> (r: &'static str)
    ensures
        r@ == spec_native_pass_status(profile),
{
    if profile.collects_native_cfg() {
        "succeeded"
    } else {
        "skipped"
    }
}

/// The jobs a finished analysis records, in order: `binary.surface`, `binary.seed`,
/// `binary.linear`, `binary.cfg`, `binary.dataflow`, `binary.triage`. The native ones are
/// skipped (with no progress, their log and diagnostic snippets saying why) under a profile
/// that does not collect native control flow.
pub fn completed_jobs(
    profile: AnalysisProfile,
    summary: &AnalysisSummary,
    instructions: u64,
    basic_blocks: u64,
    cfg_edges: u64,
) -> (r: Vec<CompletedAnalysisJob>)
    requires
        summary.sections + summary.symbols + summary.imports + summary.strings <= u64::MAX,
        basic_blocks + cfg_edges <= u64::MAX,
    ensures
        job_views(r@) == job_plan(
            profile,
            summary.sections,
            summary.symbols,
            summary.imports,
            summary.strings,
            summary.functions,
            instructions,
            basic_blocks,
            cfg_edges,
            summary.diagnostics@,
        ),
        forall|k: int| 0 <= k < r@.len() ==> parameters_of(#[trigger] r@[k].parameters, profile),
{
    let d = summary.diagnostics.as_slice();
    let status = native_status(profile);
    let ghost native = spec_native_pass_status(profile);
    let ghost plan = job_plan(
        profile,
        summary.sections,
        summary.symbols,
        summary.imports,
        summary.strings,
        summary.functions,
        instructions,
        basic_blocks,
        cfg_edges,
        summary.diagnostics@,
    );
    let surface_counts = vec![
        named("sections", summary.sections),
        named("symbols", summary.symbols),
        named("imports", summary.imports),
        named("strings", summary.strings),
    ];
    assert(count_views(surface_counts@) =~= plan[0].8);
    let surface_snippets = diagnostic_snippets(d);
    assert(texts(surface_snippets@) =~= plan[0].9);
    let surface_logs = vec![surface_log(summary.sections, summary.symbols, summary.imports, summary.strings)];
    assert(texts(surface_logs@) =~= plan[0].10);
    let surface = job(
        profile,
        "binary.surface",
        "succeeded",
        summary.sections + summary.symbols + summary.imports + summary.strings,
        d.len() as u64,
        surface_counts,
        surface_snippets,
        surface_logs,
    );
    let seed_counts = vec![named("functions", summary.functions)];
    assert(count_views(seed_counts@) =~= plan[1].8);
    let seed_logs = vec![counted_line("seeded ", summary.functions, " function records")];
    assert(texts(seed_logs@) =~= plan[1].10);
    let seed_snippets: Vec<String> = Vec::new();
    assert(texts(seed_snippets@) =~= plan[1].9);
    let seed = job(profile, "binary.seed", "succeeded", summary.functions, 0, seed_counts, seed_snippets, seed_logs);
    let linear_counts = vec![named("instructions", instructions)];
    assert(count_views(linear_counts@) =~= plan[2].8);
    let linear_snippets = native_job_diagnostics(d, status);
    assert(texts(linear_snippets@) =~= plan[2].9);
    let linear_logs = native_job_logs(profile, status, "linear");
    assert(texts(linear_logs@) =~= plan[2].10);
    let linear = job(profile, "binary.linear", status, instructions, 0, linear_counts, linear_snippets, linear_logs);
    let cfg_counts = vec![named("basic_blocks", basic_blocks), named("cfg_edges", cfg_edges)];
    assert(count_views(cfg_counts@) =~= plan[3].8);
    let cfg_snippets = native_job_diagnostics(d, status);
    assert(texts(cfg_snippets@) =~= plan[3].9);
    let cfg_logs = native_job_logs(profile, status, "cfg");
    assert(texts(cfg_logs@) =~= plan[3].10);
    let cfg = job(profile, "binary.cfg", status, basic_blocks + cfg_edges, 0, cfg_counts, cfg_snippets, cfg_logs);
    let dataflow_counts = vec![named("instructions", instructions)];
    assert(count_views(dataflow_counts@) =~= plan[4].8);
    let dataflow_snippets = native_job_diagnostics(d, status);
    assert(texts(dataflow_snippets@) =~= plan[4].9);
    let dataflow_logs = native_job_logs(profile, status, "dataflow");
    assert(texts(dataflow_logs@) =~= plan[4].10);
    let dataflow = job(profile, "binary.dataflow", status, instructions, 0, dataflow_counts, dataflow_snippets, dataflow_logs);
    let triage_counts = vec![named("functions", summary.functions)];
    assert(count_views(triage_counts@) =~= plan[5].8);
    let triage_logs = vec![counted_line("scored ", summary.functions, " functions for triage")];
    assert(texts(triage_logs@) =~= plan[5].10);
    let triage_snippets: Vec<String> = Vec::new();
    assert(texts(triage_snippets@) =~= plan[5].9);
    let triage = job(profile, "binary.triage", "succeeded", summary.functions, 0, triage_counts, triage_snippets, triage_logs);
    let jobs = vec![surface, seed, linear, cfg, dataflow, triage];
    assert(job_views(jobs@) =~= plan);
    jobs
}

/// What an import records of an artifact once its parse job has ended.
#[derive(Clone, Copy, Debug, PartialEq, Eq, Structural)]
pub enum ImportStatus {
    Indexed,
    Failed,
}

/// The name of an import status: `indexed` or `failed`.
pub open spec fn spec_import_status_name(s: ImportStatus) -> Seq<char> {
    match s {
        ImportStatus::Indexed => "indexed"@,
        ImportStatus::Failed => "failed"@,
    }
}

impl ImportStatus {
    /// `indexed` or `failed`.
    pub fn as_str(self) -> (r: &'static str)
        ensures
            r@ == spec_import_status_name(self),
    {
        match self {
            ImportStatus::Indexed => "indexed",
            ImportStatus::Failed => "failed",
        }
    }
}

/// The debug text of an optional address: `Some(` with its decimal digits and `)`, or `None`.
pub open spec fn debug_address(v: Option<u64>) -> Seq<char> {
    match v {
        Some(a) => "Some("@ + decimal_digits(a as nat) + ")"@,
        None => "None"@,
    }
}

/// The log line of a parse that succeeded: its format, architecture and entry point.
pub open spec fn parse_log(b: ParsedBinary) -> Seq<char> {
    "parsed "@ + spec_format_name(b.format) + " "@ + b.architecture@ + " artifact with entrypoint "@
        + debug_address(b.entrypoint)
}

fn parse_log_text(b: &ParsedBinary) -> (r: String)
    ensures
        r@ == parse_log(*b),
{
    let mut s = string_of("parsed ");
    s.append(b.format.as_str());
    s.append(" ");
    s.append(b.architecture.as_str());
    s.append(" artifact with entrypoint ");
    match b.entrypoint {
        Some(a) => {
            s.append("Some(");
            push_decimal(&mut s, a);
            s.append(")");
        },
        None => {
            s.append("None");
        },
    }
    s
}

/// The parse job of an import that failed: failed, with no progress and no object, one
/// diagnostic and its `snippet`, and the log line `log`.
pub open spec fn failed_parse_job(snippet: Seq<char>, log: Seq<char>) -> JobView {
    ("binary.parse"@, "binary"@, "parse"@, "failed"@, 0, 1, 0, 1, Seq::empty(), seq![snippet], seq![log])
}

/// The parse job of an import that failed with `diagnostic`: failed, with no progress and no
/// object, one diagnostic and its snippet, and the log line `log`.
pub fn parse_job_failure(profile: AnalysisProfile, diagnostic: &AnalysisDiagnostic, log: &str) -> (r:
    CompletedAnalysisJob)
    ensures
        job_view(r) == failed_parse_job(snippet(*diagnostic), log@),
        parameters_of(r.parameters, profile),
{
    let counts: Vec<(String, u64)> = Vec::new();
    let snippets = vec![snippet_text(diagnostic)];
    let logs = vec![string_of(log)];
    assert(count_views(counts@) =~= Seq::empty());
    assert(texts(snippets@) =~= seq![snippet(*diagnostic)]);
    assert(texts(logs@) =~= seq![log@]);
    let mut j = job(profile, "binary.parse", "failed", 0, 1, counts, snippets, logs);
    j.progress_current = 0;
    proof {
        reveal_strlit("binary.parse");
        reveal_strlit("binary");
        reveal_strlit("parse");
        let s = "binary.parse"@;
        assert(s[6] == '.');
        assert(forall|k: int| 0 <= k < 6 ==> s[k] != '.');
        assert(first_dot(s) == Some(6int));
        assert(s.subrange(0, 6) =~= "binary"@);
        assert(s.subrange(7, 12) =~= "parse"@);
    }
    j
}

/// The parse job of an import and what it makes of the artifact: when the file parsed, the job
/// succeeded with one object, the analysis's diagnostics and their snippets and a log line
/// naming format, architecture and entry point, and the artifact is indexed; when it did not,
/// the job failed with the parse diagnostic, and the artifact failed too.
pub fn parse_job_outcome(profile: AnalysisProfile, result: &Result<ParsedBinary, AnalysisDiagnostic>) -> (r: (
    CompletedAnalysisJob,
    ImportStatus,
))
    ensures
        parameters_of(r.0.parameters, profile),
        match result {
            Ok(b) => {
                &&& job_view(r.0) == planned_job(
                    "binary.parse"@,
                    "succeeded"@,
                    1,
                    b.diagnostics@.len() as u64,
                    Seq::empty(),
                    snippets_of(b.diagnostics@),
                    seq![parse_log(*b)],
                )
                &&& r.1 == ImportStatus::Indexed
            },
            Err(d) => {
                &&& job_view(r.0) == failed_parse_job(snippet(*d), "parse failed before indexed facts were persisted"@)
                &&& r.1 == ImportStatus::Failed
            },
        },
{
    match result {
        Ok(b) => {
            let counts: Vec<(String, u64)> = Vec::new();
            let snippets = diagnostic_snippets(b.diagnostics.as_slice());
            let logs = vec![parse_log_text(b)];
            assert(count_views(counts@) =~= Seq::empty());
            assert(texts(snippets@) =~= snippets_of(b.diagnostics@));
            assert(texts(logs@) =~= seq![parse_log(*b)]);
            let j = job(profile, "binary.parse", "succeeded", 1, b.diagnostics.len() as u64, counts, snippets, logs);
            (j, ImportStatus::Indexed)
        },
        Err(d) => (parse_job_failure(profile, d, "parse failed before indexed facts were persisted"), ImportStatus::Failed),
    }
}

/// The deep profile records the same jobs, with the same statuses, counts and snippets, as the
/// balanced one.
pub proof fn law_deep_jobs_as_balanced(
    sections: u64,
    symbols: u64,
    imports: u64,
    strings: u64,
    functions: u64,
    instructions: u64,
    blocks: u64,
    cfg_edges: u64,
    diagnostics: Seq<AnalysisDiagnostic>,
)
    ensures
        job_plan(AnalysisProfile::Deep, sections, symbols, imports, strings, functions, instructions, blocks, cfg_edges, diagnostics)
            == job_plan(
            AnalysisProfile::Balanced,
            sections,
            symbols,
            imports,
            strings,
            functions,
            instructions,
            blocks,
            cfg_edges,
            diagnostics,
        ),
{
    reveal_strlit("succeeded");
    reveal_strlit("skipped");
    assert("succeeded"@[1] != "skipped"@[1]);
}

/// A finished analysis records six jobs and none of them failed: surface, seed and triage
/// succeed under every profile; the linear, cfg and dataflow passes are skipped, with no
/// progress, under the quick profile and succeed under the others.
pub proof fn law_quick_profile_skips_native_jobs(
    profile: AnalysisProfile,
    sections: u64,
    symbols: u64,
    imports: u64,
    strings: u64,
    functions: u64,
    instructions: u64,
    blocks: u64,
    cfg_edges: u64,
    diagnostics: Seq<AnalysisDiagnostic>,
)
    ensures
        ({
            let plan = job_plan(
                profile,
                sections,
                symbols,
                imports,
                strings,
                functions,
                instructions,
                blocks,
                cfg_edges,
                diagnostics,
            );
            &&& plan.len() == 6
            &&& plan[0].3 == "succeeded"@ && plan[1].3 == "succeeded"@ && plan[5].3 == "succeeded"@
            &&& forall|k: int|
                2 <= k <= 4 ==> (#[trigger] plan[k]).3 == (if profile == AnalysisProfile::Quick {
                    "skipped"@
                } else {
                    "succeeded"@
                }) && plan[k].4 == (if profile == AnalysisProfile::Quick {
                    0u64
                } else {
                    1u64
                })
            &&& forall|k: int| 0 <= k < 6 ==> (#[trigger] plan[k]).3 != "failed"@
        }),
{
    reveal_strlit("succeeded");
    reveal_strlit("skipped");
    reveal_strlit("failed");
    assert("succeeded"@[1] != "skipped"@[1]);
    assert("succeeded"@[0] != "failed"@[0]);
    assert("skipped"@[0] != "failed"@[0]);
}

} // verus!
