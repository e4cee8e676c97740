use vstd::prelude::*;

use crate::cfg::{
    block_addresses, calls_upto, cfg_ok, scan_function_cfg, strings_upto, xrefs_upto, NativeCfgFacts,
    NativeRef, NativeXref, ParsedBasicBlock, ParsedCfgEdge, ParsedInstruction, XrefRelation,
};
use crate::decode::{decoding_tiles, DecodedInstruction};
use crate::extents::{function_targets, function_targets_by_start};
use crate::functions::{ParsedFunction, ParsedImport};
use crate::sections::{addressable, addressable_bytes, function_bytes, increasing, spec_function_bytes, ParsedSection};
use crate::surface::{
    dangerous_needles, is_dangerous_import, is_sensitive_string, mentions_any, sat_add,
    sensitive_needles, ParsedString,
};

verus! {

/// The addresses of the strings that are loaded somewhere, in list order.
pub open spec fn string_starts(v: Seq<ParsedString>) -> Seq<u64>
    decreases v.len(),
{
    if v.len() == 0 {
        Seq::empty()
    } else {
        let prev = string_starts(v.drop_last());
        match v.last().address {
            Some(a) => prev.push(a),
            None => prev,
        }
    }
}

/// The slot addresses of the imports that have one, in list order.
pub open spec fn import_starts(v: Seq<ParsedImport>) -> Seq<u64>
    decreases v.len(),
{
    if v.len() == 0 {
        Seq::empty()
    } else {
        let prev = import_starts(v.drop_last());
        match v.last().address {
            Some(a) => prev.push(a),
            None => prev,
        }
    }
}

/// The addresses of the loaded strings: where data references can land on a string.
pub fn string_targets_by_start(strings: &[ParsedString]) -> (r: Vec<u64>)
    ensures
        r@ == string_starts(strings@),
{
    let mut r: Vec<u64> = Vec::new();
    let mut i: usize = 0;
    while i < strings.len()
        invariant
            i <= strings@.len(),
            r@ == string_starts(strings@.subrange(0, i as int)),
        decreases strings@.len() - i,
    {
        assert(strings@.subrange(0, i + 1).drop_last() =~= strings@.subrange(0, i as int));
        match strings[i].address {
            Some(a) => r.push(a),
            None => {},
        }
        i += 1;
    }
    assert(strings@.subrange(0, strings@.len() as int) =~= strings@);
    r
}

/// The slot addresses of the imports: where indirect calls can land on an import.
pub fn import_targets_by_start(imports: &[ParsedImport]) -> (r: Vec<u64>)
    ensures
        r@ == import_starts(imports@),
{
    let mut r: Vec<u64> = Vec::new();
    let mut i: usize = 0;
    while i < imports.len()
        invariant
            i <= imports@.len(),
            r@ == import_starts(imports@.subrange(0, i as int)),
        decreases imports@.len() - i,
    {
        assert(imports@.subrange(0, i + 1).drop_last() =~= imports@.subrange(0, i as int));
        match imports[i].address {
            Some(a) => r.push(a),
            None => {},
        }
        i += 1;
    }
    assert(imports@.subrange(0, imports@.len() as int) =~= imports@);
    r
}

/// No facts at all.
pub open spec fn no_facts(f: NativeCfgFacts) -> bool {
    &&& f.basic_blocks@.len() == 0
    &&& f.instructions@.len() == 0
    &&& f.cfg_edges@.len() == 0
    &&& f.xrefs@.len() == 0
    &&& f.function_call_count == 0
    &&& f.function_string_count == 0
}

/// What scanning function `fr` with code `bytes` at `a` gives, against the known function
/// targets and string and import starts.
pub open spec fn scanned(
    fr: NativeRef,
    a: u64,
    bytes: Seq<u8>,
    fs: Seq<(u64, NativeRef)>,
    ss: Seq<u64>,
    is: Seq<u64>,
    f: NativeCfgFacts,
) -> bool {
    &&& bytes.len() > 0
    &&& exists|ds: Seq<DecodedInstruction>|
        decoding_tiles(a, bytes, ds) && cfg_ok(a, (a + bytes.len()) as u64, ds, f)
    &&& f.xrefs@ == xrefs_upto(
        fr,
        fs,
        ss,
        is,
        block_addresses(f.basic_blocks@),
        f.instructions@,
        f.instructions@.len() as int,
    )
    &&& f.function_call_count == calls_upto(fs, is, f.instructions@, f.instructions@.len() as int)
    &&& exists|v: Seq<u64>|
        increasing(v) && v.to_set() == strings_upto(ss, f.instructions@, f.instructions@.len() as int)
            && f.function_string_count == v.len()
}

/// The code a function's scan covers: its address and the bytes of its range (16 bytes when
/// it has no size) that stay inside the address space; nothing for a function without an
/// address or code.
pub open spec fn scan_range(f: ParsedFunction, sections: Seq<ParsedSection>) -> Option<(u64, Seq<u8>)> {
    match f.address {
        Some(a) => {
            let z: u64 = match f.size {
                Some(z) => z,
                None => 16,
            };
            let b = addressable(a, spec_function_bytes(a, z, sections));
            if b.len() == 0 {
                None
            } else {
                Some((a, b))
            }
        },
        None => None,
    }
}

/// `per` holds, for each function, what its scan gave.
pub open spec fn scans_of(
    functions: Seq<ParsedFunction>,
    sections: Seq<ParsedSection>,
    strings: Seq<ParsedString>,
    imports: Seq<ParsedImport>,
    per: Seq<NativeCfgFacts>,
) -> bool {
    &&& per.len() == functions.len()
    &&& forall|i: int|
        0 <= i < functions.len() ==> match scan_range(#[trigger] functions[i], sections) {
            Some((a, b)) => scanned(
                NativeRef::Function(a, i as u64),
                a,
                b,
                function_targets(functions),
                string_starts(strings),
                import_starts(imports),
                per[i],
            ),
            None => no_facts(per[i]),
        }
}

/// The parts, one after another.
pub open spec fn joined<T>(parts: Seq<Seq<T>>) -> Seq<T>
    decreases parts.len(),
{
    if parts.len() == 0 {
        Seq::empty()
    } else {
        joined(parts.drop_last()) + parts.last()
    }
}

/// The blocks of each scan.
pub open spec fn blocks_of(per: Seq<NativeCfgFacts>) -> Seq<Seq<ParsedBasicBlock>> {
    Seq::new(per.len(), |i: int| per[i].basic_blocks@)
}

/// The instructions of each scan.
pub open spec fn instructions_of(per: Seq<NativeCfgFacts>) -> Seq<Seq<ParsedInstruction>> {
    Seq::new(per.len(), |i: int| per[i].instructions@)
}

/// The edges of each scan.
pub open spec fn edges_of(per: Seq<NativeCfgFacts>) -> Seq<Seq<ParsedCfgEdge>> {
    Seq::new(per.len(), |i: int| per[i].cfg_edges@)
}

/// The xrefs of each scan.
pub open spec fn xrefs_of(per: Seq<NativeCfgFacts>) -> Seq<Seq<NativeXref>> {
    Seq::new(per.len(), |i: int| per[i].xrefs@)
}

/// The call count of each scan.
pub open spec fn call_counts_of(per: Seq<NativeCfgFacts>) -> Seq<u64> {
    Seq::new(per.len(), |i: int| per[i].function_call_count)
}

/// The string count of each scan.
pub open spec fn string_counts_of(per: Seq<NativeCfgFacts>) -> Seq<u64> {
    Seq::new(per.len(), |i: int| per[i].function_string_count)
}

/// The native control flow of all functions: their blocks, instructions, edges and xrefs one
/// function after another, and each function's call and string counts, by position.
#[derive(Clone, Debug)]
pub struct NativeCfgIndex {
    pub basic_blocks: Vec<ParsedBasicBlock>,
    pub instructions: Vec<ParsedInstruction>,
    pub cfg_edges: Vec<ParsedCfgEdge>,
    pub xrefs: Vec<NativeXref>,
    pub function_call_counts: Vec<u64>,
    pub function_string_counts: Vec<u64>,
}

/// `index` gathers the scans `per`.
pub open spec fn gathers(index: NativeCfgIndex, per: Seq<NativeCfgFacts>) -> bool {
    &&& index.basic_blocks@ == joined(blocks_of(per))
    &&& index.instructions@ == joined(instructions_of(per))
    &&& index.cfg_edges@ == joined(edges_of(per))
    &&& index.xrefs@ == joined(xrefs_of(per))
    &&& index.function_call_counts@ == call_counts_of(per)
    &&& index.function_string_counts@ == string_counts_of(per)
}

fn empty_facts() -> (r: NativeCfgFacts)
    ensures
        no_facts(r),
{
    NativeCfgFacts {
        basic_blocks: Vec::new(),
        instructions: Vec::new(),
        cfg_edges: Vec::new(),
        xrefs: Vec::new(),
        function_call_count: 0,
        function_string_count: 0,
    }
}

/// Scans the native control flow of every function with code: the bytes of its range (16
/// bytes when it has no size), against the starts of all functions, loaded strings and import
/// slots.
pub fn collect_native_cfg(
    sections: &[ParsedSection],
    functions: &[ParsedFunction],
    strings: &[ParsedString],
    imports: &[ParsedImport],
) -> (r: NativeCfgIndex)
    ensures
        exists|per: Seq<NativeCfgFacts>|
            #![trigger gathers(r, per)]
            scans_of(functions@, sections@, strings@, imports@, per) && gathers(r, per),
{
    let fs = function_targets_by_start(functions);
    let ss = string_targets_by_start(strings);
    let is = import_targets_by_start(imports);
    let mut basic_blocks: Vec<ParsedBasicBlock> = Vec::new();
    let mut instructions: Vec<ParsedInstruction> = Vec::new();
    let mut cfg_edges: Vec<ParsedCfgEdge> = Vec::new();
    let mut xrefs: Vec<NativeXref> = Vec::new();
    let mut call_counts: Vec<u64> = Vec::new();
    let mut string_counts: Vec<u64> = Vec::new();
    let ghost mut per: Seq<NativeCfgFacts> = Seq::empty();
    let mut i: usize = 0;
    while i < functions.len()
        invariant
            i <= functions@.len(),
            per.len() == i,
            fs@ == function_targets(functions@),
            ss@ == string_starts(strings@),
            is@ == import_starts(imports@),
            forall|k: int|
                0 <= k < i ==> match scan_range(#[trigger] functions@[k], sections@) {
                    Some((a, b)) => scanned(NativeRef::Function(a, k as u64), a, b, fs@, ss@, is@, per[k]),
                    None => no_facts(per[k]),
                },
            basic_blocks@ == joined(blocks_of(per)),
            instructions@ == joined(instructions_of(per)),
            cfg_edges@ == joined(edges_of(per)),
            xrefs@ == joined(xrefs_of(per)),
            call_counts@ == call_counts_of(per),
            string_counts@ == string_counts_of(per),
        decreases functions@.len() - i,
    {
        let f = &functions[i];
        let facts = match f.address {
            Some(a) => {
                let z: u64 = match f.size {
                    Some(z) => z,
                    None => 16,
                };
                let range = function_bytes(a, z, sections);
                let bytes = addressable_bytes(a, range.as_slice());
                if bytes.len() == 0 {
                    empty_facts()
                } else {
                    scan_function_cfg(NativeRef::Function(a, i as u64), a, bytes, fs.as_slice(), ss.as_slice(), is.as_slice())
                }
            },
            None => empty_facts(),
        };
        let ghost snap = facts;
        let ghost next = per.push(snap);
        assert(match scan_range(functions@[i as int], sections@) {
            Some((a, b)) => scanned(NativeRef::Function(a, i as u64), a, b, fs@, ss@, is@, snap),
            None => no_facts(snap),
        });
        assert(blocks_of(next).drop_last() =~= blocks_of(per));
        assert(instructions_of(next).drop_last() =~= instructions_of(per));
        assert(edges_of(next).drop_last() =~= edges_of(per));
        assert(xrefs_of(next).drop_last() =~= xrefs_of(per));
        let NativeCfgFacts {
            basic_blocks: mut b,
            instructions: mut ins,
            cfg_edges: mut e,
            xrefs: mut x,
            function_call_count,
            function_string_count,
        } = facts;
        basic_blocks.append(&mut b);
        instructions.append(&mut ins);
        cfg_edges.append(&mut e);
        xrefs.append(&mut x);
        call_counts.push(function_call_count);
        string_counts.push(function_string_count);
        proof {
            per = next;
        }
        assert(call_counts@ =~= call_counts_of(per));
        assert(string_counts@ =~= string_counts_of(per));
        i += 1;
    }
    let r = NativeCfgIndex {
        basic_blocks,
        instructions,
        cfg_edges,
        xrefs,
        function_call_counts: call_counts,
        function_string_counts: string_counts,
    };
    assert(scans_of(functions@, sections@, strings@, imports@, per));
    assert(gathers(r, per));
    r
}

/// The count for position `i` (nothing past the end).
pub open spec fn count_at(counts: Seq<u64>, i: int) -> u64 {
    if 0 <= i < counts.len() {
        counts[i]
    } else {
        0
    }
}

/// `f` with call count `c`.
pub open spec fn with_call_count(f: ParsedFunction, c: u64) -> ParsedFunction {
    ParsedFunction { call_count: c, ..f }
}

/// `f` with string count `c`.
pub open spec fn with_string_count(f: ParsedFunction, c: u64) -> ParsedFunction {
    ParsedFunction { string_count: c, ..f }
}

/// Adds each function's native call count (by position) to its call count, saturating.
pub fn apply_native_function_call_counts(functions: &mut Vec<ParsedFunction>, call_counts: &[u64])
    ensures
        final(functions)@.len() == old(functions)@.len(),
        forall|i: int|
            0 <= i < old(functions)@.len() ==> #[trigger] final(functions)@[i] == with_call_count(old(functions)@[i], sat_add(old(functions)@[i].call_count, count_at(call_counts@, i)) as u64),
{
    let ghost orig = functions@;
    let mut taken: Vec<ParsedFunction> = Vec::new();
    std::mem::swap(functions, &mut taken);
    let n = taken.len();
    let mut rest = crate::extents::reversed(taken);
    assert(orig.subrange(0, n as int) =~= orig);
    while rest.len() > 0
        invariant
            n == orig.len(),
            functions@.len() + rest@.len() == n,
            rest@ == orig.subrange(functions@.len() as int, n as int).reverse(),
            forall|i: int|
                0 <= i < functions@.len() ==> #[trigger] functions@[i] == with_call_count(orig[i], sat_add(orig[i].call_count, count_at(call_counts@, i)) as u64),
        decreases rest@.len(),
    {
        let k = functions.len();
        let mut f = rest.pop().unwrap();
        assert(f == orig[k as int]);
        assert(rest@ =~= orig.subrange(k + 1, n as int).reverse());
        let extra = if k < call_counts.len() {
            call_counts[k]
        } else {
            0
        };
        f.call_count = f.call_count.saturating_add(extra);
        functions.push(f);
    }
}

/// Adds each function's native string count (by position) to its string count, saturating.
pub fn apply_native_function_string_counts(functions: &mut Vec<ParsedFunction>, string_counts: &[u64])
    ensures
        final(functions)@.len() == old(functions)@.len(),
        forall|i: int|
            0 <= i < old(functions)@.len() ==> #[trigger] final(functions)@[i] == with_string_count(old(functions)@[i], sat_add(old(functions)@[i].string_count, count_at(string_counts@, i)) as u64),
{
    let ghost orig = functions@;
    let mut taken: Vec<ParsedFunction> = Vec::new();
    std::mem::swap(functions, &mut taken);
    let n = taken.len();
    let mut rest = crate::extents::reversed(taken);
    assert(orig.subrange(0, n as int) =~= orig);
    while rest.len() > 0
        invariant
            n == orig.len(),
            functions@.len() + rest@.len() == n,
            rest@ == orig.subrange(functions@.len() as int, n as int).reverse(),
            forall|i: int|
                0 <= i < functions@.len() ==> #[trigger] functions@[i] == with_string_count(orig[i], sat_add(orig[i].string_count, count_at(string_counts@, i)) as u64),
        decreases rest@.len(),
    {
        let k = functions.len();
        let mut f = rest.pop().unwrap();
        assert(f == orig[k as int]);
        assert(rest@ =~= orig.subrange(k + 1, n as int).reverse());
        let extra = if k < string_counts.len() {
            string_counts[k]
        } else {
            0
        };
        f.string_count = f.string_count.saturating_add(extra);
        functions.push(f);
    }
}

/// How xrefs refer to a string: by its address when it is loaded, else by its file offset.
pub open spec fn string_ref(s: ParsedString) -> NativeRef {
    match s.address {
        Some(a) => NativeRef::String(a),
        None => NativeRef::StringAtOffset(s.offset),
    }
}

/// How xrefs refer to the import at position `k`: by its slot address when known, else by
/// its position.
pub open spec fn import_ref(im: ParsedImport, k: int) -> NativeRef {
    match im.address {
        Some(a) => NativeRef::Import(a),
        None => NativeRef::ImportEntry(k as u64),
    }
}

/// The sensitive strings among the first `n`, as xref targets.
pub open spec fn sensitive_targets(strings: Seq<ParsedString>, n: int) -> Seq<NativeRef>
    decreases n,
{
    if n <= 0 {
        Seq::empty()
    } else {
        let prev = sensitive_targets(strings, n - 1);
        if mentions_any(strings[n - 1].value@, sensitive_needles()) {
            prev.push(string_ref(strings[n - 1]))
        } else {
            prev
        }
    }
}

/// The dangerous imports among the first `n`, as xref targets.
pub open spec fn dangerous_targets(imports: Seq<ParsedImport>, n: int) -> Seq<NativeRef>
    decreases n,
{
    if n <= 0 {
        Seq::empty()
    } else {
        let prev = dangerous_targets(imports, n - 1);
        if mentions_any(imports[n - 1].symbol@, dangerous_needles()) {
            prev.push(import_ref(imports[n - 1], n - 1))
        } else {
            prev
        }
    }
}

/// The first eight of `s`.
pub open spec fn first_eight<T>(s: Seq<T>) -> Seq<T> {
    if s.len() <= 8 {
        s
    } else {
        s.subrange(0, 8)
    }
}

/// How xrefs refer to the first function of the list: by its address (0 when it has none)
/// and its position, 0.
pub open spec fn function_ref(f: ParsedFunction) -> NativeRef {
    NativeRef::Function(
        match f.address {
            Some(a) => a,
            None => 0,
        },
        0,
    )
}

/// Xrefs from function `f` to each target, with relation `relation`.
pub open spec fn xrefs_from(f: ParsedFunction, targets: Seq<NativeRef>, relation: XrefRelation) -> Seq<NativeXref> {
    Seq::new(
        targets.len(),
        |k: int| NativeXref { source: function_ref(f), target: targets[k], relation, address: f.address },
    )
}

/// The summary xrefs of a binary: from its first function to its first eight sensitive
/// strings, then to its first eight dangerous imports.
pub open spec fn summary_xrefs(
    functions: Seq<ParsedFunction>,
    strings: Seq<ParsedString>,
    imports: Seq<ParsedImport>,
) -> Seq<NativeXref> {
    if functions.len() == 0 {
        Seq::empty()
    } else {
        xrefs_from(
            functions[0],
            first_eight(sensitive_targets(strings, strings.len() as int)),
            XrefRelation::References,
        ) + xrefs_from(
            functions[0],
            first_eight(dangerous_targets(imports, imports.len() as int)),
            XrefRelation::CallsImport,
        )
    }
}

/// Law of the summary xrefs: a binary with no function has none; otherwise there are at most
/// sixteen, all from the first function at its address: references to strings first (at most
/// eight), then calls to imports (at most eight).
pub proof fn law_summary_xrefs_shape(functions: Seq<ParsedFunction>, strings: Seq<ParsedString>, imports: Seq<ParsedImport>)
    ensures
        functions.len() == 0 ==> summary_xrefs(functions, strings, imports).len() == 0,
        summary_xrefs(functions, strings, imports).len() <= 16,
        forall|i: int|
            0 <= i < summary_xrefs(functions, strings, imports).len() ==> {
                let x = #[trigger] summary_xrefs(functions, strings, imports)[i];
                &&& x.source == function_ref(functions[0])
                &&& x.address == functions[0].address
                &&& (x.relation == XrefRelation::References || x.relation == XrefRelation::CallsImport)
            },
        forall|i: int, j: int|
            0 <= i < j < summary_xrefs(functions, strings, imports).len() && (#[trigger] summary_xrefs(
                functions,
                strings,
                imports,
            )[i]).relation == XrefRelation::CallsImport ==> (#[trigger] summary_xrefs(functions, strings, imports)[j]).relation
                == XrefRelation::CallsImport,
{
    if functions.len() > 0 {
        let a = first_eight(sensitive_targets(strings, strings.len() as int));
        let b = first_eight(dangerous_targets(imports, imports.len() as int));
        let xa = xrefs_from(functions[0], a, XrefRelation::References);
        let xb = xrefs_from(functions[0], b, XrefRelation::CallsImport);
        let all = summary_xrefs(functions, strings, imports);
        assert(all == xa + xb);
        assert forall|i: int| 0 <= i < all.len() implies {
            let x = #[trigger] all[i];
            &&& x.source == function_ref(functions[0])
            &&& x.address == functions[0].address
            &&& (x.relation == XrefRelation::References || x.relation == XrefRelation::CallsImport)
        } by {
            if i < xa.len() {
                assert(all[i] == xa[i]);
            } else {
                assert(all[i] == xb[i - xa.len()]);
            }
        }
        assert forall|i: int, j: int|
            0 <= i < j < all.len() && (#[trigger] all[i]).relation == XrefRelation::CallsImport implies (#[trigger] all[j]).relation
            == XrefRelation::CallsImport by {
            if i < xa.len() {
                assert(all[i] == xa[i]);
            } else {
                assert(all[j] == xb[j - xa.len()]);
            }
        }
    }
}

/// Xrefs from the first function to the first eight strings that look sensitive and to the
/// first eight imports that look dangerous.
pub fn collect_xrefs(functions: &[ParsedFunction], strings: &[ParsedString], imports: &[ParsedImport]) -> (r: Vec<
    NativeXref,
>)
    ensures
        r@ == summary_xrefs(functions@, strings@, imports@),
{
    if functions.len() == 0 {
        return Vec::new();
    }
    let primary = &functions[0];
    let source = NativeRef::Function(
        match primary.address {
            Some(a) => a,
            None => 0,
        },
        0,
    );
    let mut xrefs: Vec<NativeXref> = Vec::new();
    let mut taken: usize = 0;
    let mut i: usize = 0;
    while i < strings.len()
        invariant
            i <= strings@.len(),
            functions@.len() > 0,
            primary == functions@[0],
            source == function_ref(functions@[0]),
            taken == first_eight(sensitive_targets(strings@, i as int)).len(),
            xrefs@ == xrefs_from(
                functions@[0],
                first_eight(sensitive_targets(strings@, i as int)),
                XrefRelation::References,
            ),
        decreases strings@.len() - i,
    {
        let s = &strings[i];
        if is_sensitive_string(s.value.as_str()) && taken < 8 {
            let target = match s.address {
                Some(a) => NativeRef::String(a),
                None => NativeRef::StringAtOffset(s.offset),
            };
            xrefs.push(NativeXref { source, target, relation: XrefRelation::References, address: primary.address });
            taken += 1;
        }
        proof {
            let prev = sensitive_targets(strings@, i as int);
            let next = sensitive_targets(strings@, i + 1);
            if prev.len() < 8 && next.len() > prev.len() {
                assert(first_eight(next) =~= first_eight(prev).push(string_ref(strings@[i as int])));
            } else if next.len() > prev.len() {
                assert(first_eight(next) =~= first_eight(prev));
            }
        }
        assert(xrefs@ =~= xrefs_from(
            functions@[0],
            first_eight(sensitive_targets(strings@, i + 1)),
            XrefRelation::References,
        ));
        i += 1;
    }
    let ghost string_part = xrefs@;
    let mut imported: Vec<NativeXref> = Vec::new();
    taken = 0;
    let mut j: usize = 0;
    while j < imports.len()
        invariant
            j <= imports@.len(),
            functions@.len() > 0,
            primary == functions@[0],
            source == function_ref(functions@[0]),
            taken == first_eight(dangerous_targets(imports@, j as int)).len(),
            imported@ == xrefs_from(
                functions@[0],
                first_eight(dangerous_targets(imports@, j as int)),
                XrefRelation::CallsImport,
            ),
        decreases imports@.len() - j,
    {
        let im = &imports[j];
        if is_dangerous_import(im.symbol.as_str()) && taken < 8 {
            let target = match im.address {
                Some(a) => NativeRef::Import(a),
                None => NativeRef::ImportEntry(j as u64),
            };
            imported.push(NativeXref { source, target, relation: XrefRelation::CallsImport, address: primary.address });
            taken += 1;
        }
        proof {
            let prev = dangerous_targets(imports@, j as int);
            let next = dangerous_targets(imports@, j + 1);
            if prev.len() < 8 && next.len() > prev.len() {
                assert(first_eight(next) =~= first_eight(prev).push(import_ref(imports@[j as int], j as int)));
            } else if next.len() > prev.len() {
                assert(first_eight(next) =~= first_eight(prev));
            }
        }
        assert(imported@ =~= xrefs_from(
            functions@[0],
            first_eight(dangerous_targets(imports@, j + 1)),
            XrefRelation::CallsImport,
        ));
        j += 1;
    }
    xrefs.append(&mut imported);
    xrefs
}

/// The summary xrefs of a binary are at most sixteen, all from its first function at that
/// function's address: references to strings first, then calls to imports.
pub proof fn law_summary_xrefs_bounded(
    functions: Seq<ParsedFunction>,
    strings: Seq<ParsedString>,
    imports: Seq<ParsedImport>,
)
    ensures
        summary_xrefs(functions, strings, imports).len() <= 16,
        functions.len() == 0 ==> summary_xrefs(functions, strings, imports).len() == 0,
        forall|i: int|
            0 <= i < summary_xrefs(functions, strings, imports).len() ==> {
                &&& (#[trigger] summary_xrefs(functions, strings, imports)[i]).source == function_ref(functions[0])
                &&& summary_xrefs(functions, strings, imports)[i].address == functions[0].address
                &&& summary_xrefs(functions, strings, imports)[i].relation == XrefRelation::References
                    || summary_xrefs(functions, strings, imports)[i].relation == XrefRelation::CallsImport
            },
{
}

} // verus!
