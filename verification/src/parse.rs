use vstd::prelude::*;

use crate::binary::{
    collect_imports, collect_pe_import_addresses, collect_symbols, import_records, import_views,
    imports_upto, kept_symbols, nonzero, object_imports, object_imports_of, object_sections,
    object_sections_of, object_summary, object_summary_of, object_symbols, object_symbols_of,
    pe_import_slots, section_records, slot_views, sorted_symbols, spec_artifact_format,
    summary_view, symbol_records, symbol_views, artifact_format_for, PeImportSlot, RawImport,
    RawSection, RawSymbol, SectionRecord, SlotView,
};
use crate::cfg::{NativeXref, ParsedBasicBlock, ParsedCfgEdge, ParsedInstruction};
use crate::diagnostics::{
    diagnostic, diagnostic_view, diagnostic_views, profile_skipped_diagnostic, skipped_view,
    AnalysisDiagnostic, DiagnosticSeverity, DiagnosticStage, DiagnosticView,
};
use crate::frame::ArtifactFormat;
use crate::functions::{collect_functions, functions_collected, ParsedFunction, ParsedImport, ParsedSymbol};
use crate::native::{
    apply_native_function_call_counts, apply_native_function_string_counts, blocks_of,
    call_counts_of, collect_native_cfg, collect_xrefs, count_at, edges_of, instructions_of, joined,
    scans_of, string_counts_of, summary_xrefs, with_call_count, with_string_count, xrefs_of,
    NativeCfgIndex,
};
use crate::profile::{spec_collects_native_cfg, AnalysisProfile};
use crate::sections::ParsedSection;
use crate::strings::{
    ascii_spans_of, collect_strings, lemma_string_spans_unique, string_views, strings_of, utf16_spans_of,
};
use crate::surface::{lower_text, sat_add, ParsedString, SectionMapping};
use crate::text::string_of;
use crate::cfg::NativeCfgFacts;

verus! {

/// Everything an analysis of a binary found.
#[derive(Clone, Debug)]
pub struct ParsedBinary {
    pub format: ArtifactFormat,
    pub architecture: String,
    pub entrypoint: Option<u64>,
    pub sections: Vec<ParsedSection>,
    pub symbols: Vec<ParsedSymbol>,
    pub imports: Vec<ParsedImport>,
    pub strings: Vec<ParsedString>,
    pub functions: Vec<ParsedFunction>,
    pub basic_blocks: Vec<ParsedBasicBlock>,
    pub instructions: Vec<ParsedInstruction>,
    pub cfg_edges: Vec<ParsedCfgEdge>,
    pub xrefs: Vec<NativeXref>,
    pub diagnostics: Vec<AnalysisDiagnostic>,
}

/// A section as a value: name, address, file offset, size, flags, contents.
pub type SectionView = (Seq<char>, Option<u64>, Option<u64>, u64, Seq<char>, Seq<u8>);

/// Sections as values.
pub open spec fn section_views(v: Seq<ParsedSection>) -> Seq<SectionView> {
    Seq::new(v.len(), |i: int| (v[i].name@, v[i].address, v[i].offset, v[i].size, v[i].flags@, v[i].bytes@))
}

/// The section a record gives: unnamed sections are `<unnamed>`, address 0 means none,
/// contents that do not read are empty.
pub open spec fn section_of(rec: SectionRecord) -> SectionView {
    (
        match rec.0 {
            Some(n) => n,
            None => "<unnamed>"@,
        },
        nonzero(rec.1),
        match rec.3 {
            Some(range) => Some(range.0),
            None => None,
        },
        rec.2,
        rec.5,
        match rec.4 {
            Some(d) => d,
            None => Seq::empty(),
        },
    )
}

/// The sections the records give.
pub open spec fn sections_of(recs: Seq<SectionRecord>) -> Seq<SectionView> {
    Seq::new(recs.len(), |i: int| section_of(recs[i]))
}

/// The file mappings of the first `n` records: each loaded section with a file range maps
/// its size from its file offset to its address.
pub open spec fn mappings_of(recs: Seq<SectionRecord>, n: int) -> Seq<SectionMapping>
    decreases n,
{
    if n <= 0 {
        Seq::empty()
    } else {
        let prev = mappings_of(recs, n - 1);
        let rec = recs[n - 1];
        match (nonzero(rec.1), rec.3) {
            (Some(a), Some(range)) => prev.push(SectionMapping { address: a, offset: range.0, size: rec.2 }),
            _ => prev,
        }
    }
}

/// The diagnostics found before the native passes: a warning when there is no section.
pub open spec fn base_diagnostics(recs: Seq<SectionRecord>) -> Seq<DiagnosticView> {
    if recs.len() == 0 {
        seq![
            (
                DiagnosticSeverity::Warning,
                DiagnosticStage::IndexSections,
                "no_sections"@,
                "binary parsed without indexable sections"@,
                true,
            ),
        ]
    } else {
        Seq::empty()
    }
}

/// The diagnostic a profile without native passes leaves.
pub open spec fn native_skip_view(profile: AnalysisProfile) -> DiagnosticView {
    skipped_view(profile, "native_cfg"@, "native CFG, instruction persistence, and dataflow enrichment"@)
}

/// `fb` is `fa` with each function's call and string counts raised by the counts at its
/// position (saturating).
pub open spec fn counts_applied(fa: Seq<ParsedFunction>, calls: Seq<u64>, strings: Seq<u64>, fb: Seq<ParsedFunction>) -> bool {
    &&& fb.len() == fa.len()
    &&& forall|i: int|
        0 <= i < fa.len() ==> #[trigger] fb[i] == with_string_count(
            with_call_count(fa[i], sat_add(fa[i].call_count, count_at(calls, i)) as u64),
            sat_add(fa[i].string_count, count_at(strings, i)) as u64,
        )
}

/// What an analysis found, once the file parsed as ELF or PE and its layout fits.
#[verifier::opaque]
pub open spec fn analysis_of(
    b: ParsedBinary,
    bytes: Seq<u8>,
    profile: AnalysisProfile,
    format: ArtifactFormat,
    architecture: Seq<char>,
    entry: u64,
    sections: Seq<SectionRecord>,
    symbols: Seq<crate::binary::SymbolRecord>,
    imports: Seq<(Seq<u8>, Seq<u8>)>,
    slots: Seq<SlotView>,
) -> bool {
    &&& b.format == format
    &&& b.architecture@ == lower_text(architecture)
    &&& b.entrypoint == nonzero(entry)
    &&& section_views(b.sections@) == sections_of(sections)
    &&& symbol_views(b.symbols@) == sorted_symbols(kept_symbols(symbols, symbols.len() as int))
    &&& import_views(b.imports@) == imports_upto(imports, slots, imports.len() as int)
    &&& exists|ascii: Seq<crate::surface::Span>, utf16: Seq<crate::surface::Span>|
        ascii_spans_of(bytes, ascii) && utf16_spans_of(bytes, utf16) && string_views(b.strings@)
            == strings_of(bytes, mappings_of(sections, sections.len() as int), ascii, utf16)
    &&& exists|fa: Seq<ParsedFunction>|
        #![trigger functions_collected(format, nonzero(entry), b.symbols@, b.strings@, b.imports@, b.sections@, fa)]
        functions_collected(format, nonzero(entry), b.symbols@, b.strings@, b.imports@, b.sections@, fa)
            && if spec_collects_native_cfg(profile) {
            exists|per: Seq<NativeCfgFacts>|
                #![trigger scans_of(fa, b.sections@, b.strings@, b.imports@, per)]
                scans_of(fa, b.sections@, b.strings@, b.imports@, per) && b.basic_blocks@ == joined(
                    blocks_of(per),
                ) && b.instructions@ == joined(instructions_of(per)) && b.cfg_edges@ == joined(edges_of(per))
                    && counts_applied(fa, call_counts_of(per), string_counts_of(per), b.functions@)
                    && b.xrefs@ == summary_xrefs(b.functions@, b.strings@, b.imports@) + joined(xrefs_of(per))
                    && diagnostic_views(b.diagnostics@) == base_diagnostics(sections)
        } else {
            &&& b.basic_blocks@.len() == 0
            &&& b.instructions@.len() == 0
            &&& b.cfg_edges@.len() == 0
            &&& counts_applied(fa, Seq::empty(), Seq::empty(), b.functions@)
            &&& b.xrefs@ == summary_xrefs(b.functions@, b.strings@, b.imports@)
            &&& diagnostic_views(b.diagnostics@) == base_diagnostics(sections).push(native_skip_view(profile))
        }
}

/// The error diagnostic of a file that does not parse.
pub open spec fn parse_failed_view(error: Seq<char>) -> DiagnosticView {
    (DiagnosticSeverity::Error, DiagnosticStage::Parse, "binary_parse_failed"@, "unable to parse binary artifact: "@ + error, true)
}

/// The error diagnostic of a file that is neither ELF nor PE.
pub open spec fn unsupported_view(format: Seq<char>) -> DiagnosticView {
    (
        DiagnosticSeverity::Error,
        DiagnosticStage::Parse,
        "unsupported_format"@,
        "native importer only supports ELF and PE artifacts; got "@ + format,
        true,
    )
}

/// What analysing a file gives, from what the object reader reported of it: an error when it
/// does not parse or is neither ELF nor PE; otherwise its analysis.
pub open spec fn analysis_result(
    bytes: Seq<u8>,
    profile: AnalysisProfile,
    summary: Result<(Seq<char>, Seq<char>, u64), Seq<char>>,
    sections: Seq<SectionRecord>,
    symbols: Seq<crate::binary::SymbolRecord>,
    imports: Option<Seq<(Seq<u8>, Seq<u8>)>>,
    slots: Seq<SlotView>,
    r: Result<ParsedBinary, AnalysisDiagnostic>,
) -> bool {
    match summary {
        Err(e) => match r {
            Err(d) => diagnostic_view(d) == parse_failed_view(e),
            Ok(_) => false,
        },
        Ok((fmt, arch, entry)) => match spec_artifact_format(fmt) {
            None => match r {
                Err(d) => diagnostic_view(d) == unsupported_view(fmt),
                Ok(_) => false,
            },
            Some(format) => match r {
                Ok(b) => analysis_of(
                    b,
                    bytes,
                    profile,
                    format,
                    arch,
                    entry,
                    sections,
                    symbols,
                    match imports {
                        Some(v) => v,
                        None => Seq::empty(),
                    },
                    slots,
                ),
                Err(_) => false,
            },
        },
    }
}

/// The sections and file mappings the object reader reported.
fn sections_from(raw: Vec<RawSection>) -> (r: (Vec<ParsedSection>, Vec<SectionMapping>))
    ensures
        section_views(r.0@) == sections_of(section_records(raw@)),
        r.1@ == mappings_of(section_records(raw@), raw@.len() as int),
{
    let ghost recs = section_records(raw@);
    let n = raw.len();
    let mut rest = crate::extents::reversed(raw);
    let mut sections: Vec<ParsedSection> = Vec::new();
    let mut mappings: Vec<SectionMapping> = Vec::new();
    let ghost orig = rest@.reverse();
    assert(orig =~= raw@) by {
        assert forall|i: int| 0 <= i < raw@.len() implies orig[i] == raw@[i] by {}
    }
    assert(raw@.subrange(0, n as int) =~= raw@);
    while rest.len() > 0
        invariant
            n == raw@.len(),
            recs == section_records(raw@),
            sections@.len() + rest@.len() == n,
            rest@ == raw@.subrange(sections@.len() as int, n as int).reverse(),
            section_views(sections@) == sections_of(recs).subrange(0, sections@.len() as int),
            mappings@ == mappings_of(recs, sections@.len() as int),
        decreases rest@.len(),
    {
        let ghost k = sections@.len() as int;
        let rs = rest.pop().unwrap();
        assert(rs == raw@[k]);
        assert(rest@ =~= raw@.subrange(k + 1, n as int).reverse());
        let RawSection { name, address, size, file_range, data, flags } = rs;
        let name = match name {
            Some(n) => n,
            None => string_of("<unnamed>"),
        };
        let address = if address != 0 {
            Some(address)
        } else {
            None
        };
        let offset = match file_range {
            Some(range) => Some(range.0),
            None => None,
        };
        match (address, offset) {
            (Some(a), Some(o)) => {
                mappings.push(SectionMapping { address: a, offset: o, size });
            },
            _ => {},
        }
        let bytes = match data {
            Some(d) => d,
            None => Vec::new(),
        };
        let ghost before = section_views(sections@);
        sections.push(ParsedSection { name, address, offset, size, flags, bytes });
        assert(section_views(sections@) =~= sections_of(recs).subrange(0, k + 1)) by {
            assert(section_views(sections@) =~= before.push(section_views(sections@).last()));
        }
    }
    assert(sections_of(recs).subrange(0, n as int) =~= sections_of(recs));
    (sections, mappings)
}

/// An empty set of native facts.
fn no_native_facts() -> (r: NativeCfgIndex)
    ensures
        r.basic_blocks@.len() == 0,
        r.instructions@.len() == 0,
        r.cfg_edges@.len() == 0,
        r.xrefs@.len() == 0,
        r.function_call_counts@.len() == 0,
        r.function_string_counts@.len() == 0,
{
    NativeCfgIndex {
        basic_blocks: Vec::new(),
        instructions: Vec::new(),
        cfg_edges: Vec::new(),
        xrefs: Vec::new(),
        function_call_counts: Vec::new(),
        function_string_counts: Vec::new(),
    }
}

/// Analyses a binary from what the object reader reported of it: its summary, sections,
/// symbols, imports and PE import slots. A file that does not parse or is neither ELF nor PE
/// gives an error; otherwise its sections, symbols, imports,
/// strings and functions, with the native control flow when the profile collects it (a
/// skipped-pass warning when it does not).
#[verifier::rlimit(60)]
pub fn index_object(
    bytes: &[u8],
    profile: AnalysisProfile,
    summary: Result<(String, String, u64), String>,
    raw_sections: Vec<RawSection>,
    raw_symbols: &[RawSymbol],
    raw_imports: Option<Vec<RawImport>>,
    slots: &[PeImportSlot],
) -> (r: Result<ParsedBinary, AnalysisDiagnostic>)
    ensures
        analysis_result(
            bytes@,
            profile,
            summary_view(summary),
            section_records(raw_sections@),
            symbol_records(raw_symbols@),
            import_records(raw_imports),
            slot_views(slots@),
            r,
        ),
{
    let ghost sview = summary_view(summary);
    let (format_text, arch_text, entry) = match summary {
        Ok(t) => t,
        Err(e) => {
            let mut message = string_of("unable to parse binary artifact: ");
            message.append(e.as_str());
            return Err(diagnostic(DiagnosticSeverity::Error, DiagnosticStage::Parse, "binary_parse_failed", message, true));
        },
    };
    let format = match artifact_format_for(format_text.as_str()) {
        Some(f) => f,
        None => {
            let mut message = string_of("native importer only supports ELF and PE artifacts; got ");
            message.append(format_text.as_str());
            return Err(diagnostic(DiagnosticSeverity::Error, DiagnosticStage::Parse, "unsupported_format", message, true));
        },
    };
    let architecture = crate::surface::lowered(arch_text.as_str());
    let entrypoint = if entry != 0 {
        Some(entry)
    } else {
        None
    };
    let ghost recs = section_records(raw_sections@);
    let no_sections = raw_sections.len() == 0;
    let (sections, mappings) = sections_from(raw_sections);
    proof {
        assert(section_views(sections@) == sections_of(recs));
    }
    let mut diagnostics: Vec<AnalysisDiagnostic> = Vec::new();
    if no_sections {
        diagnostics.push(
            diagnostic(
                DiagnosticSeverity::Warning,
                DiagnosticStage::IndexSections,
                "no_sections",
                string_of("binary parsed without indexable sections"),
                true,
            ),
        );
    }
    assert(diagnostic_views(diagnostics@) =~= base_diagnostics(recs));
    let ghost irecs = match import_records(raw_imports) {
        Some(v) => v,
        None => Seq::empty(),
    };
    let raw_import_list: Vec<RawImport> = match raw_imports {
        Some(v) => v,
        None => Vec::new(),
    };
    assert(Seq::new(raw_import_list@.len(), |i: int| (raw_import_list@[i].name@, raw_import_list@[i].library@)) =~= irecs);
    let imports = collect_imports(raw_import_list.as_slice(), slots);
    let symbols = collect_symbols(raw_symbols);
    let strings = collect_strings(bytes, mappings.as_slice());
    let functions = collect_functions(
        format,
        entrypoint,
        symbols.as_slice(),
        strings.as_slice(),
        imports.as_slice(),
        sections.as_slice(),
    );
    let ghost fa = functions@;
    let collects = profile.collects_native_cfg();
    let native = if collects {
        collect_native_cfg(sections.as_slice(), functions.as_slice(), strings.as_slice(), imports.as_slice())
    } else {
        diagnostics.push(
            profile_skipped_diagnostic(
                profile,
                "native_cfg",
                "native CFG, instruction persistence, and dataflow enrichment",
            ),
        );
        no_native_facts()
    };
    let mut functions = functions;
    apply_native_function_call_counts(&mut functions, native.function_call_counts.as_slice());
    let ghost mid = functions@;
    apply_native_function_string_counts(&mut functions, native.function_string_counts.as_slice());
    let mut xrefs = collect_xrefs(functions.as_slice(), strings.as_slice(), imports.as_slice());
    let ghost summary_part = xrefs@;
    let ghost native_snapshot = native;
    let NativeCfgIndex { basic_blocks, instructions, cfg_edges, xrefs: mut native_xrefs, .. } = native;
    xrefs.append(&mut native_xrefs);
    let b = ParsedBinary {
        format,
        architecture,
        entrypoint,
        sections,
        symbols,
        imports,
        strings,
        functions,
        basic_blocks,
        instructions,
        cfg_edges,
        xrefs,
        diagnostics,
    };
    proof {
        reveal(analysis_of);
        assert(counts_applied(
            fa,
            native_snapshot.function_call_counts@,
            native_snapshot.function_string_counts@,
            b.functions@,
        )) by {
            assert forall|i: int| 0 <= i < fa.len() implies #[trigger] b.functions@[i] == with_string_count(
                with_call_count(fa[i], sat_add(fa[i].call_count, count_at(native_snapshot.function_call_counts@, i)) as u64),
                sat_add(fa[i].string_count, count_at(native_snapshot.function_string_counts@, i)) as u64,
            ) by {
                assert(mid[i] == with_call_count(fa[i], sat_add(fa[i].call_count, count_at(native_snapshot.function_call_counts@, i)) as u64));
            }
        }
        assert(functions_collected(format, nonzero(entry), b.symbols@, b.strings@, b.imports@, b.sections@, fa));
        if collects {
            let per = choose|per: Seq<NativeCfgFacts>|
                scans_of(fa, b.sections@, b.strings@, b.imports@, per) && crate::native::gathers(native_snapshot, per);
            assert(scans_of(fa, b.sections@, b.strings@, b.imports@, per));
        } else {
            assert(native_snapshot.function_call_counts@ =~= Seq::<u64>::empty());
            assert(native_snapshot.function_string_counts@ =~= Seq::<u64>::empty());
            assert(b.xrefs@ =~= summary_xrefs(b.functions@, b.strings@, b.imports@));
            assert(diagnostic_views(b.diagnostics@) =~= base_diagnostics(recs).push(native_skip_view(profile)));
        }
    }
    Ok(b)
}

/// Analyses a binary's bytes under a profile: parses it with the object reader, then indexes
/// what it reported (see `index_object`).
pub fn parse_binary(bytes: &[u8], profile: AnalysisProfile) -> (r: Result<ParsedBinary, AnalysisDiagnostic>)
    ensures
        analysis_result(
            bytes@,
            profile,
            object_summary_of(bytes@),
            object_sections_of(bytes@),
            object_symbols_of(bytes@),
            object_imports_of(bytes@),
            pe_import_slots(bytes@),
            r,
        ),
{
    let summary = object_summary(bytes);
    let sections = object_sections(bytes);
    let symbols = object_symbols(bytes);
    let imports = object_imports(bytes);
    let slots = collect_pe_import_addresses(bytes);
    index_object(bytes, profile, summary, sections, symbols.as_slice(), imports, slots.as_slice())
}


/// What an analysis keeps of the surface of a binary, and what its profile decides.
pub proof fn lemma_analysis_facts(
    b: ParsedBinary,
    bytes: Seq<u8>,
    profile: AnalysisProfile,
    format: ArtifactFormat,
    architecture: Seq<char>,
    entry: u64,
    sections: Seq<SectionRecord>,
    symbols: Seq<crate::binary::SymbolRecord>,
    imports: Seq<(Seq<u8>, Seq<u8>)>,
    slots: Seq<SlotView>,
)
    requires
        analysis_of(b, bytes, profile, format, architecture, entry, sections, symbols, imports, slots),
    ensures
        b.format == format,
        b.architecture@ == lower_text(architecture),
        b.entrypoint == nonzero(entry),
        section_views(b.sections@) == sections_of(sections),
        symbol_views(b.symbols@) == sorted_symbols(kept_symbols(symbols, symbols.len() as int)),
        import_views(b.imports@) == imports_upto(imports, slots, imports.len() as int),
        exists|ascii: Seq<crate::surface::Span>, utf16: Seq<crate::surface::Span>|
            ascii_spans_of(bytes, ascii) && utf16_spans_of(bytes, utf16) && string_views(b.strings@)
                == strings_of(bytes, mappings_of(sections, sections.len() as int), ascii, utf16),
        spec_collects_native_cfg(profile) ==> diagnostic_views(b.diagnostics@) == base_diagnostics(sections),
        !spec_collects_native_cfg(profile) ==> {
            &&& b.basic_blocks@.len() == 0
            &&& b.instructions@.len() == 0
            &&& b.cfg_edges@.len() == 0
            &&& diagnostic_views(b.diagnostics@) == base_diagnostics(sections).push(native_skip_view(profile))
        },
{
    reveal(analysis_of);
}

/// The outcome of an analysis does not depend on the profile: one that fails under one profile
/// fails the same way under every other, and one that succeeds under one succeeds under all.
pub proof fn law_profile_never_decides_failure(
    bytes: Seq<u8>,
    p1: AnalysisProfile,
    p2: AnalysisProfile,
    summary: Result<(Seq<char>, Seq<char>, u64), Seq<char>>,
    sections: Seq<SectionRecord>,
    symbols: Seq<crate::binary::SymbolRecord>,
    imports: Option<Seq<(Seq<u8>, Seq<u8>)>>,
    slots: Seq<SlotView>,
    r1: Result<ParsedBinary, AnalysisDiagnostic>,
    r2: Result<ParsedBinary, AnalysisDiagnostic>,
)
    requires
        analysis_result(bytes, p1, summary, sections, symbols, imports, slots, r1),
        analysis_result(bytes, p2, summary, sections, symbols, imports, slots, r2),
    ensures
        r1 is Ok <==> r2 is Ok,
        r1 is Err ==> diagnostic_view(r1->Err_0) == diagnostic_view(r2->Err_0),
{
}

/// The deep profile analyses a file exactly as the balanced one does: a result is the analysis
/// of a file under `Deep` exactly when it is its analysis under `Balanced`.
pub proof fn law_deep_analyses_as_balanced(
    bytes: Seq<u8>,
    summary: Result<(Seq<char>, Seq<char>, u64), Seq<char>>,
    sections: Seq<SectionRecord>,
    symbols: Seq<crate::binary::SymbolRecord>,
    imports: Option<Seq<(Seq<u8>, Seq<u8>)>>,
    slots: Seq<SlotView>,
    r: Result<ParsedBinary, AnalysisDiagnostic>,
)
    ensures
        analysis_result(bytes, AnalysisProfile::Deep, summary, sections, symbols, imports, slots, r)
            == analysis_result(bytes, AnalysisProfile::Balanced, summary, sections, symbols, imports, slots, r),
{
    reveal(analysis_of);
}

/// Whether some diagnostic records a pass skipped by the profile.
pub open spec fn records_skip(v: Seq<AnalysisDiagnostic>) -> bool {
    exists|i: int| 0 <= i < v.len() && (#[trigger] v[i]).code@ == "pass_skipped_by_profile"@
}

/// Under the quick profile an analysis keeps the surface facts it has under any other profile
/// (format, architecture, entry point, sections, symbols, imports and strings), builds no native
/// blocks, instructions or edges, and records that the native pass was skipped, as a
/// recoverable warning; under the other profiles it records no skipped pass.
pub proof fn law_quick_profile_keeps_surface_and_skips_native_cfg(
    bytes: Seq<u8>,
    other: AnalysisProfile,
    summary: Result<(Seq<char>, Seq<char>, u64), Seq<char>>,
    sections: Seq<SectionRecord>,
    symbols: Seq<crate::binary::SymbolRecord>,
    imports: Option<Seq<(Seq<u8>, Seq<u8>)>>,
    slots: Seq<SlotView>,
    quick: ParsedBinary,
    full: ParsedBinary,
)
    requires
        other != AnalysisProfile::Quick,
        analysis_result(bytes, AnalysisProfile::Quick, summary, sections, symbols, imports, slots, Ok(quick)),
        analysis_result(bytes, other, summary, sections, symbols, imports, slots, Ok(full)),
    ensures
        quick.format == full.format,
        quick.architecture@ == full.architecture@,
        quick.entrypoint == full.entrypoint,
        section_views(quick.sections@) == section_views(full.sections@),
        symbol_views(quick.symbols@) == symbol_views(full.symbols@),
        import_views(quick.imports@) == import_views(full.imports@),
        string_views(quick.strings@) == string_views(full.strings@),
        quick.basic_blocks@.len() == 0,
        quick.instructions@.len() == 0,
        quick.cfg_edges@.len() == 0,
        records_skip(quick.diagnostics@),
        forall|i: int|
            0 <= i < quick.diagnostics@.len() && (#[trigger] quick.diagnostics@[i]).code@
                == "pass_skipped_by_profile"@ ==> quick.diagnostics@[i].recoverable
                && quick.diagnostics@[i].severity == DiagnosticSeverity::Warning,
        !records_skip(full.diagnostics@),
{
    reveal_strlit("pass_skipped_by_profile");
    reveal_strlit("no_sections");
    match summary {
        Ok((fmt, arch, entry)) => {
            let format = spec_artifact_format(fmt).unwrap();
            let ims = match imports {
                Some(v) => v,
                None => Seq::empty(),
            };
            lemma_analysis_facts(quick, bytes, AnalysisProfile::Quick, format, arch, entry, sections, symbols, ims, slots);
            lemma_analysis_facts(full, bytes, other, format, arch, entry, sections, symbols, ims, slots);
            let (qa, qu) = choose|a: Seq<crate::surface::Span>, u: Seq<crate::surface::Span>|
                ascii_spans_of(bytes, a) && utf16_spans_of(bytes, u) && string_views(quick.strings@)
                    == strings_of(bytes, mappings_of(sections, sections.len() as int), a, u);
            let (fa, fu) = choose|a: Seq<crate::surface::Span>, u: Seq<crate::surface::Span>|
                ascii_spans_of(bytes, a) && utf16_spans_of(bytes, u) && string_views(full.strings@)
                    == strings_of(bytes, mappings_of(sections, sections.len() as int), a, u);
            lemma_string_spans_unique(bytes, qa, qu, fa, fu);
            let qd = quick.diagnostics@;
            assert(diagnostic_views(qd).len() == qd.len());
            let k = qd.len() - 1;
            assert(diagnostic_views(qd)[k] == native_skip_view(AnalysisProfile::Quick));
            assert(qd[k].code@ == "pass_skipped_by_profile"@);
            assert forall|i: int|
                0 <= i < qd.len() && (#[trigger] qd[i]).code@ == "pass_skipped_by_profile"@ implies qd[i].recoverable
                    && qd[i].severity == DiagnosticSeverity::Warning by {
                assert(diagnostic_views(qd)[i] == base_diagnostics(sections).push(native_skip_view(AnalysisProfile::Quick))[i]);
                if i < k {
                    assert("no_sections"@[0] != "pass_skipped_by_profile"@[0]);
                }
            }
            let fd = full.diagnostics@;
            assert forall|i: int| 0 <= i < fd.len() implies (#[trigger] fd[i]).code@ != "pass_skipped_by_profile"@ by {
                assert(diagnostic_views(fd)[i] == base_diagnostics(sections)[i]);
                assert("no_sections"@[0] != "pass_skipped_by_profile"@[0]);
            }
        },
        Err(_) => {},
    }
}

} // verus!
