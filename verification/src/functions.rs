use vstd::prelude::*;

use crate::annotate::{annotate_function_native_semantics, annotated_from};
use crate::extents::{decodes_planned, refine_function_extents, refined_from, refined_size, starts_of};
use crate::frame::{ArgumentRegisterHint, ArtifactFormat, StackSlot};
use crate::sections::{
    collect_direct_call_targets, decodes_sections, increasing, is_call_target,
    ParsedSection,
};
use crate::decode::DecodedInstruction;
use crate::surface::{ParsedString, count_related_strings, count_in_range, sat_add};
use crate::text::{
    contains_text, hex_digits_padded, lex_lt, lemma_lex_asymmetric, lemma_lex_irreflexive,
    lemma_lex_transitive, lemma_lex_trichotomy, push_hex_padded, str_contains, str_eq, str_lt,
    str_starts_with, string_of,
};

verus! {

/// A symbol of the binary.
#[derive(Clone, Debug, PartialEq, Eq)]
pub struct ParsedSymbol {
    pub name: String,
    pub address: Option<u64>,
    pub size: Option<u64>,
    pub kind: String,
    pub binding: String,
}

/// An imported function, with the address of its import slot when known.
#[derive(Clone, Debug, PartialEq, Eq)]
pub struct ParsedImport {
    pub module: Option<String>,
    pub symbol: String,
    pub address: Option<u64>,
}

/// How much a function's boundaries are trusted, by where they came from.
#[derive(Clone, Copy, Debug, PartialEq, Eq, Structural)]
pub enum BoundaryConfidence {
    Symbol,
    Entrypoint,
    Heuristic,
    ImportThunk,
}

/// A function found in the binary, with what is known of its frame and arguments.
#[derive(Clone, Debug, PartialEq, Eq)]
pub struct ParsedFunction {
    pub name: String,
    pub address: Option<u64>,
    pub size: Option<u64>,
    pub boundary_source: String,
    pub boundary_confidence: BoundaryConfidence,
    pub frame_pointer: Option<String>,
    pub stack_frame_size: Option<u64>,
    pub stack_cleanup_size: Option<u64>,
    pub epilogue_kind: Option<String>,
    pub has_frame_epilogue: bool,
    pub stack_slots: Vec<StackSlot>,
    pub calling_convention: Option<String>,
    pub argument_registers: Vec<ArgumentRegisterHint>,
    pub string_count: u64,
    pub call_count: u64,
}

/// The size a function is seeded with when nothing better is known.
pub const DEFAULT_FUNCTION_SEED_SIZE: u64 = 32;

/// A seeded function as a value: address, name, size, boundary source, confidence, string
/// count, call count.
pub type SeedView = (u64, Seq<char>, Option<u64>, Seq<char>, BoundaryConfidence, nat, nat);

/// A function's key: address, then name.
pub type FunctionKey = (u64, Seq<char>);

/// The order of function keys: by address, then by name.
pub open spec fn fkey_lt(a: FunctionKey, b: FunctionKey) -> bool {
    a.0 < b.0 || (a.0 == b.0 && lex_lt(a.1, b.1))
}

/// A seeded function's key.
pub open spec fn fkey(f: ParsedFunction) -> FunctionKey {
    (f.address.unwrap_or(0), f.name@)
}

/// A freshly seeded function as a value.
pub open spec fn seed_view(f: ParsedFunction) -> SeedView {
    (
        f.address.unwrap_or(0),
        f.name@,
        f.size,
        f.boundary_source@,
        f.boundary_confidence,
        f.string_count as nat,
        f.call_count as nat,
    )
}

/// A fresh seed: nothing known yet of its frame or arguments.
pub open spec fn is_fresh(f: ParsedFunction) -> bool {
    &&& f.address is Some
    &&& f.frame_pointer is None
    &&& f.stack_frame_size is None
    &&& f.stack_cleanup_size is None
    &&& f.epilogue_kind is None
    &&& !f.has_frame_epilogue
    &&& f.stack_slots@.len() == 0
    &&& f.calling_convention is None
    &&& f.argument_registers@.len() == 0
}

/// `v` lists the functions of `m`, one each, in key order, freshly seeded: each with its
/// address, and no frame, stack slots, calling convention or argument hints yet.
pub open spec fn functions_match(v: Seq<ParsedFunction>, m: Map<FunctionKey, SeedView>) -> bool {
    &&& forall|i: int, j: int| 0 <= i < j < v.len() ==> fkey_lt(fkey(v[i]), fkey(v[j]))
    &&& forall|i: int|
        0 <= i < v.len() ==> {
            &&& is_fresh(#[trigger] v[i])
            &&& m.contains_key(fkey(v[i]))
            &&& m[fkey(v[i])] == seed_view(v[i])
        }
    &&& forall|k: FunctionKey| #[trigger] m.contains_key(k) ==> exists|i: int| 0 <= i < v.len() && fkey(v[i]) == k
}

/// Whether some function of `m` starts at `a`.
pub open spec fn has_address(m: Map<FunctionKey, SeedView>, a: u64) -> bool {
    exists|k: FunctionKey| #[trigger] m.contains_key(k) && k.0 == a
}

proof fn lemma_fkey_order(a: FunctionKey, b: FunctionKey, c: FunctionKey)
    ensures
        !fkey_lt(a, a),
        fkey_lt(a, b) && fkey_lt(b, c) ==> fkey_lt(a, c),
        fkey_lt(a, b) ==> !fkey_lt(b, a),
        a == b || fkey_lt(a, b) || fkey_lt(b, a),
{
    lemma_lex_irreflexive(a.1);
    lemma_lex_trichotomy(a.1, b.1);
    lemma_lex_asymmetric(a.1, b.1);
    if fkey_lt(a, b) && fkey_lt(b, c) {
        if lex_lt(a.1, b.1) && lex_lt(b.1, c.1) {
            lemma_lex_transitive(a.1, b.1, c.1);
        }
    }
}

fn fkey_lt_exec(f: &ParsedFunction, address: u64, name: &str) -> (r: bool)
    requires
        f.address is Some,
    ensures
        r == fkey_lt(fkey(*f), (address, name@)),
{
    let a = match f.address {
        Some(a) => a,
        None => 0,
    };
    a < address || (a == address && str_lt(f.name.as_str(), name))
}

/// Puts a fresh seed into the sorted function list, replacing one with the same key.
fn upsert_function(v: &mut Vec<ParsedFunction>, f: ParsedFunction, Ghost(m): Ghost<Map<FunctionKey, SeedView>>)
    requires
        functions_match(old(v)@, m),
        is_fresh(f),
    ensures
        functions_match(final(v)@, m.insert(fkey(f), seed_view(f))),
{
    let ghost old_v = v@;
    let ghost key = fkey(f);
    let address = match f.address {
        Some(a) => a,
        None => 0,
    };
    let n = v.len();
    let mut p: usize = 0;
    while p < n && fkey_lt_exec(&v[p], address, f.name.as_str())
        invariant
            p <= n,
            n == v@.len(),
            v@ == old_v,
            key == (address, f.name@),
            functions_match(old_v, m),
            forall|q: int| 0 <= q < p ==> fkey_lt(fkey(old_v[q]), key),
        decreases n - p,
    {
        p += 1;
    }
    let ghost m2 = m.insert(key, seed_view(f));
    let same = p < n && match v[p].address {
        Some(a) => a == address,
        None => false,
    } && str_eq(v[p].name.as_str(), f.name.as_str());
    if same {
        v.set(p, f);
        proof {
            let w = v@;
            assert(fkey(old_v[p as int]) == key);
            assert forall|q: int| 0 <= q < w.len() implies fkey(#[trigger] w[q]) == fkey(old_v[q]) by {}
            assert forall|q: int| 0 <= q < w.len() && q != p implies fkey(#[trigger] w[q]) != key by {
                if q < p {
                    lemma_fkey_order(fkey(old_v[q]), key, key);
                } else {
                    assert(fkey_lt(key, fkey(old_v[q])));
                    lemma_fkey_order(key, key, key);
                }
            }
            assert forall|k: FunctionKey| #[trigger] m2.contains_key(k) implies exists|i: int|
                0 <= i < w.len() && fkey(w[i]) == k by {
                if k == key {
                    assert(fkey(w[p as int]) == k);
                } else {
                    assert(m.contains_key(k));
                    let i = choose|i: int| 0 <= i < old_v.len() && fkey(old_v[i]) == k;
                    assert(fkey(w[i]) == k);
                }
            }
        }
    } else {
        proof {
            assert forall|q: int| p <= q < n implies fkey_lt(key, fkey(#[trigger] old_v[q])) by {
                lemma_fkey_order(key, fkey(old_v[p as int]), fkey(old_v[q]));
            }
            assert(!m.contains_key(key)) by {
                if m.contains_key(key) {
                    let i = choose|i: int| 0 <= i < old_v.len() && fkey(old_v[i]) == key;
                    lemma_fkey_order(key, key, key);
                }
            }
        }
        v.insert(p, f);
        proof {
            let w = v@;
            assert(w == old_v.insert(p as int, w[p as int]));
            assert forall|a: int, b: int| 0 <= a < b < w.len() implies fkey_lt(fkey(w[a]), fkey(w[b])) by {
                if a < p && b == p {
                } else if a < p && b > p {
                    assert(w[b] == old_v[b - 1]);
                    lemma_fkey_order(fkey(w[a]), key, fkey(w[b]));
                } else if a == p {
                    assert(w[b] == old_v[b - 1]);
                } else if a > p {
                    assert(w[a] == old_v[a - 1]);
                    assert(w[b] == old_v[b - 1]);
                }
            }
            assert forall|i: int| 0 <= i < w.len() implies {
                &&& is_fresh(#[trigger] w[i])
                &&& m2.contains_key(fkey(w[i]))
                &&& m2[fkey(w[i])] == seed_view(w[i])
            } by {
                if i < p {
                    assert(w[i] == old_v[i]);
                    lemma_fkey_order(key, key, key);
                } else if i > p {
                    assert(w[i] == old_v[i - 1]);
                    assert(fkey_lt(key, fkey(old_v[i - 1])));
                    lemma_fkey_order(key, key, key);
                }
            }
            assert forall|k: FunctionKey| #[trigger] m2.contains_key(k) implies exists|i: int|
                0 <= i < w.len() && fkey(w[i]) == k by {
                if k == key {
                    assert(fkey(w[p as int]) == k);
                } else {
                    assert(m.contains_key(k));
                    let i = choose|i: int| 0 <= i < old_v.len() && fkey(old_v[i]) == k;
                    if i < p {
                        assert(fkey(w[i]) == k);
                    } else {
                        assert(fkey(w[i + 1]) == k);
                    }
                }
            }
        }
    }
}

/// Whether a function of the list starts at `address`.
fn has_function_at(v: &Vec<ParsedFunction>, address: u64, Ghost(m): Ghost<Map<FunctionKey, SeedView>>) -> (r: bool)
    requires
        functions_match(v@, m),
    ensures
        r == has_address(m, address),
{
    let mut i: usize = 0;
    while i < v.len()
        invariant
            i <= v@.len(),
            functions_match(v@, m),
            forall|q: int| 0 <= q < i ==> fkey(v@[q]).0 != address,
        decreases v@.len() - i,
    {
        if v[i].address == Some(address) {
            assert(m.contains_key(fkey(v@[i as int])));
            return true;
        }
        assert(is_fresh(v@[i as int]));
        i += 1;
    }
    proof {
        if has_address(m, address) {
            let k = choose|k: FunctionKey| #[trigger] m.contains_key(k) && k.0 == address;
            let q = choose|q: int| 0 <= q < v@.len() && fkey(v@[q]) == k;
        }
    }
    false
}

/// A fresh function seed.
fn seed(
    name: String,
    address: u64,
    size: u64,
    source: &str,
    confidence: BoundaryConfidence,
    string_count: u64,
    call_count: u64,
) -> (r: ParsedFunction)
    ensures
        is_fresh(r),
        seed_view(r) == (address, name@, Some(size), source@, confidence, string_count as nat, call_count as nat),
        r.address == Some(address),
        r.name@ == name@,
{
    ParsedFunction {
        name,
        address: Some(address),
        size: Some(size),
        boundary_source: String::from_str(source),
        boundary_confidence: confidence,
        frame_pointer: None,
        stack_frame_size: None,
        stack_cleanup_size: None,
        epilogue_kind: None,
        has_frame_epilogue: false,
        stack_slots: Vec::new(),
        calling_convention: None,
        argument_registers: Vec::new(),
        string_count,
        call_count,
    }
}

/// Whether a symbol seeds a function: a text or untyped symbol with an address whose name
/// neither starts with `$` nor contains `@@`.
pub open spec fn eligible_symbol(sym: ParsedSymbol) -> bool {
    &&& (sym.kind@ == "text"@ || sym.kind@ == "unknown"@)
    &&& sym.address is Some
    &&& !("$"@.len() <= sym.name@.len() && sym.name@.subrange(0, "$"@.len() as int) == "$"@)
    &&& !contains_text(sym.name@, "@@"@)
}

/// The seed a symbol gives: its size, or the default size.
pub open spec fn symbol_seed(sym: ParsedSymbol, strings: Seq<ParsedString>) -> SeedView {
    let a = sym.address.unwrap();
    let size = match sym.size {
        Some(z) => z,
        None => DEFAULT_FUNCTION_SEED_SIZE,
    };
    (a, sym.name@, Some(size), "symbol"@, BoundaryConfidence::Symbol, count_in_range(strings, a, sat_add(a, size)), 0)
}

/// The functions the first `n` symbols seed (a later symbol with the same key replaces an
/// earlier one).
pub open spec fn symbol_table(syms: Seq<ParsedSymbol>, strings: Seq<ParsedString>, n: int) -> Map<FunctionKey, SeedView>
    decreases n,
{
    if n <= 0 {
        Map::empty()
    } else {
        let m = symbol_table(syms, strings, n - 1);
        let sym = syms[n - 1];
        if eligible_symbol(sym) {
            m.insert((sym.address.unwrap(), sym.name@), symbol_seed(sym, strings))
        } else {
            m
        }
    }
}

/// The entry point becomes a function when no function starts there.
pub open spec fn entry_step(m: Map<FunctionKey, SeedView>, entry: Option<u64>, strings: Seq<ParsedString>) -> Map<FunctionKey, SeedView> {
    match entry {
        Some(e) => if has_address(m, e) {
            m
        } else {
            m.insert(
                (e, "entrypoint"@),
                (e, "entrypoint"@, Some(DEFAULT_FUNCTION_SEED_SIZE), "entrypoint"@, BoundaryConfidence::Entrypoint,
                    count_in_range(strings, e, sat_add(e, DEFAULT_FUNCTION_SEED_SIZE)), 0),
            )
        },
        None => m,
    }
}

/// The name of a function found only as a call target.
pub open spec fn sub_name(t: u64) -> Seq<char> {
    "sub_"@ + hex_digits_padded(t as nat, 16)
}

/// Call targets (the first `n`) become functions where none starts yet.
pub open spec fn targets_step(m: Map<FunctionKey, SeedView>, targets: Seq<u64>, strings: Seq<ParsedString>, n: int) -> Map<FunctionKey, SeedView>
    decreases n,
{
    if n <= 0 {
        m
    } else {
        let m0 = targets_step(m, targets, strings, n - 1);
        let t = targets[n - 1];
        if has_address(m0, t) {
            m0
        } else {
            m0.insert(
                (t, sub_name(t)),
                (t, sub_name(t), Some(DEFAULT_FUNCTION_SEED_SIZE), "call_target"@, BoundaryConfidence::Heuristic,
                    count_in_range(strings, t, sat_add(t, DEFAULT_FUNCTION_SEED_SIZE)), 0),
            )
        }
    }
}

/// No function at all.
pub open spec fn no_functions(m: Map<FunctionKey, SeedView>) -> bool {
    forall|k: FunctionKey| !(#[trigger] m.contains_key(k))
}

/// The placeholder address of the `i`th import thunk.
pub open spec fn thunk_address(i: int) -> u64 {
    (0x1000 + i * 0x10) as u64
}

/// Thunks for the first `n` imports.
pub open spec fn thunks(m: Map<FunctionKey, SeedView>, imports: Seq<ParsedImport>, n: int) -> Map<FunctionKey, SeedView>
    decreases n,
{
    if n <= 0 {
        m
    } else {
        let m0 = thunks(m, imports, n - 1);
        let a = thunk_address(n - 1);
        let name = "import_thunk_"@ + imports[n - 1].symbol@;
        m0.insert((a, name), (a, name, Some(8), "import_thunk"@, BoundaryConfidence::ImportThunk, 0, 1))
    }
}

/// With no function yet, the first four imports become thunk functions.
pub open spec fn imports_step(m: Map<FunctionKey, SeedView>, imports: Seq<ParsedImport>) -> Map<FunctionKey, SeedView> {
    if no_functions(m) {
        thunks(m, imports, if imports.len() < 4 { imports.len() as int } else { 4 })
    } else {
        m
    }
}

/// With still no function, one placeholder function at the entry point (or 0).
pub open spec fn unknown_step(m: Map<FunctionKey, SeedView>, entry: Option<u64>) -> Map<FunctionKey, SeedView> {
    if no_functions(m) {
        let e = match entry {
            Some(x) => x,
            None => 0,
        };
        m.insert(
            (e, "unknown_function_0"@),
            (e, "unknown_function_0"@, Some(DEFAULT_FUNCTION_SEED_SIZE), "heuristic"@, BoundaryConfidence::Heuristic, 0, 0),
        )
    } else {
        m
    }
}

/// All seeded functions: symbols, then the entry point, call targets, import thunks, and the
/// placeholder.
pub open spec fn seed_table(
    entry: Option<u64>,
    syms: Seq<ParsedSymbol>,
    strings: Seq<ParsedString>,
    imports: Seq<ParsedImport>,
    targets: Seq<u64>,
) -> Map<FunctionKey, SeedView> {
    let m1 = symbol_table(syms, strings, syms.len() as int);
    let m2 = entry_step(m1, entry, strings);
    let m3 = targets_step(m2, targets, strings, targets.len() as int);
    unknown_step(imports_step(m3, imports), entry)
}

proof fn lemma_empty_list(v: Seq<ParsedFunction>, m: Map<FunctionKey, SeedView>)
    requires
        functions_match(v, m),
    ensures
        (v.len() == 0) == no_functions(m),
{
    if v.len() > 0 {
        assert(m.contains_key(fkey(v[0])));
    }
}

/// The functions seeded from symbols, the entry point, direct call targets, import thunks and
/// a placeholder, in (address, name) order.
pub fn seed_functions(
    entrypoint: Option<u64>,
    symbols: &[ParsedSymbol],
    strings: &[ParsedString],
    imports: &[ParsedImport],
    call_targets: &[u64],
) -> (r: Vec<ParsedFunction>)
    ensures
        functions_match(r@, seed_table(entrypoint, symbols@, strings@, imports@, call_targets@)),
{
    let mut functions: Vec<ParsedFunction> = Vec::new();
    let ghost mut m: Map<FunctionKey, SeedView> = Map::empty();
    let mut i: usize = 0;
    while i < symbols.len()
        invariant
            i <= symbols@.len(),
            m == symbol_table(symbols@, strings@, i as int),
            functions_match(functions@, m),
        decreases symbols@.len() - i,
    {
        let sym = &symbols[i];
        let eligible = (str_eq(sym.kind.as_str(), "text") || str_eq(sym.kind.as_str(), "unknown"))
            && sym.address.is_some() && !str_starts_with(sym.name.as_str(), "$") && !str_contains(
            sym.name.as_str(),
            "@@",
        );
        if eligible {
            let address = match sym.address {
                Some(a) => a,
                None => 0,
            };
            let size = match sym.size {
                Some(z) => z,
                None => DEFAULT_FUNCTION_SEED_SIZE,
            };
            let count = count_related_strings(address, Some(size), strings);
            let f = seed(sym.name.clone(), address, size, "symbol", BoundaryConfidence::Symbol, count, 0);
            upsert_function(&mut functions, f, Ghost(m));
            proof {
                m = m.insert((address, sym.name@), symbol_seed(*sym, strings@));
            }
        }
        i += 1;
    }
    match entrypoint {
        Some(e) => {
            if !has_function_at(&functions, e, Ghost(m)) {
                let count = count_related_strings(e, Some(DEFAULT_FUNCTION_SEED_SIZE), strings);
                let f = seed(string_of("entrypoint"), e, DEFAULT_FUNCTION_SEED_SIZE, "entrypoint", BoundaryConfidence::Entrypoint, count, 0);
                upsert_function(&mut functions, f, Ghost(m));
            }
        },
        None => {},
    }
    proof {
        m = entry_step(m, entrypoint, strings@);
    }
    let ghost m2 = m;
    let mut k: usize = 0;
    while k < call_targets.len()
        invariant
            k <= call_targets@.len(),
            m == targets_step(m2, call_targets@, strings@, k as int),
            functions_match(functions@, m),
        decreases call_targets@.len() - k,
    {
        let t = call_targets[k];
        if !has_function_at(&functions, t, Ghost(m)) {
            let mut name = string_of("sub_");
            push_hex_padded(&mut name, t, 16);
            let count = count_related_strings(t, Some(DEFAULT_FUNCTION_SEED_SIZE), strings);
            let f = seed(name, t, DEFAULT_FUNCTION_SEED_SIZE, "call_target", BoundaryConfidence::Heuristic, count, 0);
            upsert_function(&mut functions, f, Ghost(m));
        }
        proof {
            m = targets_step(m2, call_targets@, strings@, k + 1);
        }
        k += 1;
    }
    proof {
        lemma_empty_list(functions@, m);
    }
    let ghost m3 = m;
    if functions.len() == 0 {
        let limit: usize = if imports.len() < 4 {
            imports.len()
        } else {
            4
        };
        let mut j: usize = 0;
        while j < limit
            invariant
                j <= limit,
                limit <= 4,
                limit <= imports@.len(),
                m == thunks(m3, imports@, j as int),
                functions_match(functions@, m),
            decreases limit - j,
        {
            let mut name = string_of("import_thunk_");
            name.append(imports[j].symbol.as_str());
            let address: u64 = 0x1000 + (j as u64) * 0x10;
            let f = seed(name, address, 8, "import_thunk", BoundaryConfidence::ImportThunk, 0, 1);
            upsert_function(&mut functions, f, Ghost(m));
            proof {
                m = thunks(m3, imports@, j + 1);
            }
            j += 1;
        }
    }
    proof {
        m = imports_step(m3, imports@);
        lemma_empty_list(functions@, m);
    }
    if functions.len() == 0 {
        let e = match entrypoint {
            Some(x) => x,
            None => 0,
        };
        let f = seed(string_of("unknown_function_0"), e, DEFAULT_FUNCTION_SEED_SIZE, "heuristic", BoundaryConfidence::Heuristic, 0, 0);
        upsert_function(&mut functions, f, Ghost(m));
    }
    functions
}

/// Whether `targets` are the direct call targets of the sections, sorted, for some decoding of
/// their code.
pub open spec fn call_targets_of(sections: Seq<ParsedSection>, targets: Seq<u64>) -> bool {
    &&& increasing(targets)
    &&& exists|outs: Seq<Seq<DecodedInstruction>>|
        decodes_sections(sections, outs) && forall|t: u64|
            targets.contains(t) <==> is_call_target(sections, outs, t)
}

/// `refined` is `seeds` with each function's extent refined.
pub open spec fn refined_list(seeds: Seq<ParsedFunction>, refined: Seq<ParsedFunction>, sections: Seq<ParsedSection>) -> bool {
    &&& refined.len() == seeds.len()
    &&& forall|i: int|
        0 <= i < seeds.len() ==> refined_from(#[trigger] seeds[i], refined[i], starts_of(seeds), sections)
}

/// `annotated` is `refined` with each function's native semantics recorded.
pub open spec fn annotated_list(
    refined: Seq<ParsedFunction>,
    annotated: Seq<ParsedFunction>,
    format: ArtifactFormat,
    sections: Seq<ParsedSection>,
) -> bool {
    &&& annotated.len() == refined.len()
    &&& forall|i: int|
        0 <= i < refined.len() ==> annotated_from(#[trigger] refined[i], annotated[i], format, sections)
}

/// `r` are the functions of the binary: seeded from symbols, the entry point, the direct call
/// targets of some decoding of its code, import thunks or a placeholder, in (address, name)
/// order; then their extents refined and their native semantics recorded.
pub open spec fn functions_collected(
    format: ArtifactFormat,
    entrypoint: Option<u64>,
    symbols: Seq<ParsedSymbol>,
    strings: Seq<ParsedString>,
    imports: Seq<ParsedImport>,
    sections: Seq<ParsedSection>,
    r: Seq<ParsedFunction>,
) -> bool {
    exists|targets: Seq<u64>, seeds: Seq<ParsedFunction>, refined: Seq<ParsedFunction>|
        #![trigger call_targets_of(sections, targets), refined_list(seeds, refined, sections)]
        call_targets_of(sections, targets) && functions_match(
            seeds,
            seed_table(entrypoint, symbols, strings, imports, targets),
        ) && refined_list(seeds, refined, sections) && annotated_list(refined, r, format, sections)
}

/// The functions of the binary: seeded from symbols, the entry point, direct call targets,
/// import thunks or a placeholder, in (address, name) order; then their extents refined and
/// their native semantics recorded.
pub fn collect_functions(
    format: ArtifactFormat,
    entrypoint: Option<u64>,
    symbols: &[ParsedSymbol],
    strings: &[ParsedString],
    imports: &[ParsedImport],
    sections: &[ParsedSection],
) -> (r: Vec<ParsedFunction>)
    ensures
        functions_collected(format, entrypoint, symbols@, strings@, imports@, sections@, r@),
{
    let targets = collect_direct_call_targets(sections);
    let mut functions = seed_functions(entrypoint, symbols, strings, imports, targets.as_slice());
    let ghost seeds = functions@;
    refine_function_extents(&mut functions, sections);
    let ghost refined = functions@;
    annotate_function_native_semantics(&mut functions, format, sections);
    assert(call_targets_of(sections@, targets@));
    assert(refined_list(seeds, refined, sections@));
    assert(annotated_list(refined, functions@, format, sections@));
    functions
}

/// The seeded table is never empty: with nothing else, it holds the placeholder.
proof fn lemma_seed_table_nonempty(m: Map<FunctionKey, SeedView>, entry: Option<u64>)
    ensures
        !no_functions(unknown_step(m, entry)),
{
    if no_functions(m) {
        let e = match entry {
            Some(x) => x,
            None => 0,
        };
        assert(unknown_step(m, entry).contains_key((e, "unknown_function_0"@)));
    } else {
        let k = choose|k: FunctionKey| #[trigger] m.contains_key(k);
        assert(unknown_step(m, entry).contains_key(k));
    }
}

/// The functions of a binary are never none, each has an address, and they are listed in
/// strictly increasing (address, name) order, whatever refinement and annotation made of
/// them.
pub proof fn law_functions_present_and_ordered(
    format: ArtifactFormat,
    entrypoint: Option<u64>,
    symbols: Seq<ParsedSymbol>,
    strings: Seq<ParsedString>,
    imports: Seq<ParsedImport>,
    sections: Seq<ParsedSection>,
    r: Seq<ParsedFunction>,
)
    requires
        functions_collected(format, entrypoint, symbols, strings, imports, sections, r),
    ensures
        r.len() > 0,
        forall|i: int| 0 <= i < r.len() ==> (#[trigger] r[i]).address is Some,
        forall|i: int, j: int| 0 <= i < j < r.len() ==> fkey_lt(fkey(r[i]), fkey(r[j])),
{
    let (targets, seeds, refined) = choose|targets: Seq<u64>, seeds: Seq<ParsedFunction>, refined: Seq<ParsedFunction>|
        #![trigger call_targets_of(sections, targets), refined_list(seeds, refined, sections)]
        call_targets_of(sections, targets) && functions_match(
            seeds,
            seed_table(entrypoint, symbols, strings, imports, targets),
        ) && refined_list(seeds, refined, sections) && annotated_list(refined, r, format, sections);
    let m1 = symbol_table(symbols, strings, symbols.len() as int);
    let m2 = entry_step(m1, entrypoint, strings);
    let m3 = targets_step(m2, targets, strings, targets.len() as int);
    lemma_seed_table_nonempty(imports_step(m3, imports), entrypoint);
    lemma_empty_list(seeds, seed_table(entrypoint, symbols, strings, imports, targets));
    assert forall|i: int| 0 <= i < r.len() implies fkey(#[trigger] r[i]) == fkey(seeds[i]) && r[i].address
        == seeds[i].address by {
        assert(refined_from(seeds[i], refined[i], starts_of(seeds), sections));
        assert(annotated_from(refined[i], r[i], format, sections));
        crate::annotate::law_annotation_keeps_identity(refined[i], r[i], format, sections);
        let out = choose|out: Seq<DecodedInstruction>|
            #![trigger refined_size(seeds[i], starts_of(seeds), sections, out)]
            decodes_planned(seeds[i], starts_of(seeds), sections, out) && refined[i] == ParsedFunction {
                size: refined_size(seeds[i], starts_of(seeds), sections, out),
                ..seeds[i]
            };
    }
    assert forall|i: int| 0 <= i < r.len() implies (#[trigger] r[i]).address is Some by {
        assert(is_fresh(seeds[i]));
        assert(fkey(r[i]) == fkey(seeds[i]));
    }
    assert forall|i: int, j: int| 0 <= i < j < r.len() implies fkey_lt(fkey(r[i]), fkey(r[j])) by {
        assert(fkey(r[i]) == fkey(seeds[i]));
        assert(fkey(r[j]) == fkey(seeds[j]));
    }
}


/// A symbol-seeded entry for key `k`: the function named and placed by the key, whose
/// boundary came from a symbol.
pub open spec fn symbol_entry(m: Map<FunctionKey, SeedView>, k: FunctionKey) -> bool {
    &&& m.contains_key(k)
    &&& m[k].0 == k.0
    &&& m[k].1 == k.1
    &&& m[k].3 == "symbol"@
}

/// The symbol table holds an entry for every eligible symbol among its first `n`.
proof fn lemma_symbol_table_has(syms: Seq<ParsedSymbol>, strings: Seq<ParsedString>, n: int, i: int)
    requires
        0 <= i < n <= syms.len(),
        eligible_symbol(syms[i]),
    ensures
        symbol_entry(symbol_table(syms, strings, n), (syms[i].address.unwrap(), syms[i].name@)),
    decreases n,
{
    if i < n - 1 {
        lemma_symbol_table_has(syms, strings, n - 1, i);
    }
}

/// Later seeding steps only add functions at addresses where none starts, so they keep every
/// entry already there.
proof fn lemma_targets_keep(m: Map<FunctionKey, SeedView>, targets: Seq<u64>, strings: Seq<ParsedString>, n: int, k: FunctionKey)
    requires
        m.contains_key(k),
    ensures
        targets_step(m, targets, strings, n).contains_key(k),
        targets_step(m, targets, strings, n)[k] == m[k],
    decreases n,
{
    if n > 0 {
        lemma_targets_keep(m, targets, strings, n - 1, k);
        let m0 = targets_step(m, targets, strings, n - 1);
        if k.0 == targets[n - 1] {
            assert(m0.contains_key(k) && k.0 == targets[n - 1]);
            assert(has_address(m0, targets[n - 1]));
        }
    }
}

/// Law of symbol seeding: every eligible symbol (a text or unknown symbol with an address,
/// whose name neither starts with `$` nor contains `@@`) is a function of the binary, with the
/// symbol's name and address, whose boundary came from a symbol.
pub proof fn law_symbols_become_functions(
    format: ArtifactFormat,
    entrypoint: Option<u64>,
    symbols: Seq<ParsedSymbol>,
    strings: Seq<ParsedString>,
    imports: Seq<ParsedImport>,
    sections: Seq<ParsedSection>,
    r: Seq<ParsedFunction>,
    i: int,
)
    requires
        functions_collected(format, entrypoint, symbols, strings, imports, sections, r),
        0 <= i < symbols.len(),
        eligible_symbol(symbols[i]),
    ensures
        exists|j: int|
            0 <= j < r.len() && (#[trigger] r[j]).name@ == symbols[i].name@ && r[j].address == symbols[i].address
                && r[j].boundary_source@ == "symbol"@,
{
    let (targets, seeds, refined) = choose|targets: Seq<u64>, seeds: Seq<ParsedFunction>, refined: Seq<ParsedFunction>|
        #![trigger call_targets_of(sections, targets), refined_list(seeds, refined, sections)]
        call_targets_of(sections, targets) && functions_match(
            seeds,
            seed_table(entrypoint, symbols, strings, imports, targets),
        ) && refined_list(seeds, refined, sections) && annotated_list(refined, r, format, sections);
    let k = (symbols[i].address.unwrap(), symbols[i].name@);
    let m1 = symbol_table(symbols, strings, symbols.len() as int);
    lemma_symbol_table_has(symbols, strings, symbols.len() as int, i);
    let m2 = entry_step(m1, entrypoint, strings);
    match entrypoint {
        Some(e) => {
            if k.0 == e {
                assert(m1.contains_key(k) && k.0 == e);
                assert(has_address(m1, e));
            }
        },
        None => {},
    }
    assert(symbol_entry(m2, k));
    let m3 = targets_step(m2, targets, strings, targets.len() as int);
    lemma_targets_keep(m2, targets, strings, targets.len() as int, k);
    assert(symbol_entry(m3, k));
    assert(!no_functions(m3)) by {
        assert(m3.contains_key(k));
    }
    let m4 = imports_step(m3, imports);
    assert(m4 == m3);
    assert(!no_functions(m4)) by {
        assert(m4.contains_key(k));
    }
    let m = seed_table(entrypoint, symbols, strings, imports, targets);
    assert(m == m4);
    assert(symbol_entry(m, k));
    assert(m.contains_key(k));
    let j = choose|j: int| 0 <= j < seeds.len() && fkey(seeds[j]) == k;
    assert(is_fresh(seeds[j]));
    assert(m[fkey(seeds[j])] == seed_view(seeds[j]));
    assert(refined_from(seeds[j], refined[j], starts_of(seeds), sections));
    assert(annotated_from(refined[j], r[j], format, sections));
    crate::annotate::law_annotation_keeps_identity(refined[j], r[j], format, sections);
    let out = choose|out: Seq<DecodedInstruction>|
        #![trigger refined_size(seeds[j], starts_of(seeds), sections, out)]
        decodes_planned(seeds[j], starts_of(seeds), sections, out) && refined[j] == ParsedFunction {
            size: refined_size(seeds[j], starts_of(seeds), sections, out),
            ..seeds[j]
        };
    assert(r[j].name@ == symbols[i].name@);
}


/// Every function the first `n` symbols seed comes from an eligible symbol at its address.
proof fn lemma_symbol_table_from(syms: Seq<ParsedSymbol>, strings: Seq<ParsedString>, n: int, k: FunctionKey)
    requires
        0 <= n <= syms.len(),
        symbol_table(syms, strings, n).contains_key(k),
    ensures
        exists|i: int| 0 <= i < n && eligible_symbol(#[trigger] syms[i]) && syms[i].address == Some(k.0) && syms[i].name@ == k.1,
    decreases n,
{
    let sym = syms[n - 1];
    if eligible_symbol(sym) && k == (sym.address.unwrap(), sym.name@) {
        assert(eligible_symbol(syms[n - 1]));
    } else {
        lemma_symbol_table_from(syms, strings, n - 1, k);
    }
}

/// Law of the entry point: when no eligible symbol sits at the entry point, the binary has
/// exactly one function named `entrypoint` there, whose boundary and confidence come from the
/// entry point.
pub proof fn law_entrypoint_becomes_function(
    format: ArtifactFormat,
    entrypoint: Option<u64>,
    symbols: Seq<ParsedSymbol>,
    strings: Seq<ParsedString>,
    imports: Seq<ParsedImport>,
    sections: Seq<ParsedSection>,
    r: Seq<ParsedFunction>,
)
    requires
        functions_collected(format, entrypoint, symbols, strings, imports, sections, r),
        entrypoint is Some,
        forall|i: int| 0 <= i < symbols.len() && eligible_symbol(#[trigger] symbols[i]) ==> symbols[i].address != entrypoint,
    ensures
        exists|j: int|
            0 <= j < r.len() && (#[trigger] r[j]).name@ == "entrypoint"@ && r[j].address == entrypoint
                && r[j].boundary_source@ == "entrypoint"@ && r[j].boundary_confidence == BoundaryConfidence::Entrypoint,
        forall|i: int, j: int|
            0 <= i < r.len() && 0 <= j < r.len() && (#[trigger] r[i]).name@ == "entrypoint"@ && r[i].address == entrypoint
                && (#[trigger] r[j]).name@ == "entrypoint"@ && r[j].address == entrypoint ==> i == j,
{
    let e = entrypoint.unwrap();
    law_functions_present_and_ordered(format, entrypoint, symbols, strings, imports, sections, r);
    assert forall|i: int, j: int|
        0 <= i < r.len() && 0 <= j < r.len() && (#[trigger] r[i]).name@ == "entrypoint"@ && r[i].address == entrypoint
            && (#[trigger] r[j]).name@ == "entrypoint"@ && r[j].address == entrypoint implies i == j by {
        assert(fkey(r[i]) == fkey(r[j]));
        lemma_fkey_order(fkey(r[i]), fkey(r[j]), fkey(r[j]));
        if i < j {
            assert(fkey_lt(fkey(r[i]), fkey(r[j])));
        } else if j < i {
            assert(fkey_lt(fkey(r[j]), fkey(r[i])));
        }
    }
    let (targets, seeds, refined) = choose|targets: Seq<u64>, seeds: Seq<ParsedFunction>, refined: Seq<ParsedFunction>|
        #![trigger call_targets_of(sections, targets), refined_list(seeds, refined, sections)]
        call_targets_of(sections, targets) && functions_match(
            seeds,
            seed_table(entrypoint, symbols, strings, imports, targets),
        ) && refined_list(seeds, refined, sections) && annotated_list(refined, r, format, sections);
    let m1 = symbol_table(symbols, strings, symbols.len() as int);
    assert(!has_address(m1, e)) by {
        if has_address(m1, e) {
            let k = choose|k: FunctionKey| #[trigger] m1.contains_key(k) && k.0 == e;
            lemma_symbol_table_from(symbols, strings, symbols.len() as int, k);
        }
    }
    let k = (e, "entrypoint"@);
    let m2 = entry_step(m1, entrypoint, strings);
    assert(m2.contains_key(k));
    let m3 = targets_step(m2, targets, strings, targets.len() as int);
    lemma_targets_keep(m2, targets, strings, targets.len() as int, k);
    assert(!no_functions(m3)) by {
        assert(m3.contains_key(k));
    }
    let m4 = imports_step(m3, imports);
    assert(!no_functions(m4)) by {
        assert(m4.contains_key(k));
    }
    let m = seed_table(entrypoint, symbols, strings, imports, targets);
    assert(m == m4);
    assert(m.contains_key(k));
    let j = choose|j: int| 0 <= j < seeds.len() && fkey(seeds[j]) == k;
    assert(is_fresh(seeds[j]));
    assert(m[fkey(seeds[j])] == seed_view(seeds[j]));
    assert(refined_from(seeds[j], refined[j], starts_of(seeds), sections));
    assert(annotated_from(refined[j], r[j], format, sections));
    crate::annotate::law_annotation_keeps_identity(refined[j], r[j], format, sections);
    let out = choose|out: Seq<DecodedInstruction>|
        #![trigger refined_size(seeds[j], starts_of(seeds), sections, out)]
        decodes_planned(seeds[j], starts_of(seeds), sections, out) && refined[j] == ParsedFunction {
            size: refined_size(seeds[j], starts_of(seeds), sections, out),
            ..seeds[j]
        };
    assert(r[j].name@ == "entrypoint"@);
}


/// The thunk of import `i` among the first `n`, as seeded.
pub open spec fn thunk_view(imports: Seq<ParsedImport>, i: int) -> SeedView {
    (thunk_address(i), "import_thunk_"@ + imports[i].symbol@, Some(8), "import_thunk"@, BoundaryConfidence::ImportThunk, 0, 1)
}

/// Seeding thunks for the first `n <= 4` imports gives each of them its own entry.
proof fn lemma_thunks_have(m: Map<FunctionKey, SeedView>, imports: Seq<ParsedImport>, n: int, i: int)
    requires
        0 <= i < n <= 4,
        n <= imports.len(),
    ensures
        thunks(m, imports, n).contains_key((thunk_address(i), "import_thunk_"@ + imports[i].symbol@)),
        thunks(m, imports, n)[(thunk_address(i), "import_thunk_"@ + imports[i].symbol@)] == thunk_view(imports, i),
    decreases n,
{
    if i < n - 1 {
        lemma_thunks_have(m, imports, n - 1, i);
        assert(thunk_address(i) != thunk_address(n - 1));
    }
}

/// With no eligible symbol, no entry point and no call target, the seed table holds a thunk for
/// each of the first four imports, or, with no import, the placeholder alone.
#[verifier::spinoff_prover]
proof fn lemma_fallback_table(
    symbols: Seq<ParsedSymbol>,
    strings: Seq<ParsedString>,
    imports: Seq<ParsedImport>,
    targets: Seq<u64>,
)
    requires
        forall|i: int| 0 <= i < symbols.len() ==> !eligible_symbol(#[trigger] symbols[i]),
        targets.len() == 0,
    ensures
        forall|i: int|
            0 <= i < imports.len() && i < 4 ==> {
                let m = seed_table(None, symbols, strings, imports, targets);
                let k = (thunk_address(i), "import_thunk_"@ + (#[trigger] imports[i]).symbol@);
                m.contains_key(k) && m[k] == thunk_view(imports, i)
            },
        imports.len() == 0 ==> seed_table(None, symbols, strings, imports, targets).contains_key((0u64, "unknown_function_0"@)),
        imports.len() == 0 ==> forall|k: FunctionKey|
            #[trigger] seed_table(None, symbols, strings, imports, targets).contains_key(k) ==> k == (0u64, "unknown_function_0"@),
        imports.len() == 0 ==> seed_table(None, symbols, strings, imports, targets)[(0u64, "unknown_function_0"@)] == (
            0u64,
            "unknown_function_0"@,
            Some(DEFAULT_FUNCTION_SEED_SIZE),
            "heuristic"@,
            BoundaryConfidence::Heuristic,
            0nat,
            0nat,
        ),
{
    let m1 = symbol_table(symbols, strings, symbols.len() as int);
    assert(no_functions(m1)) by {
        assert forall|k: FunctionKey| !(#[trigger] m1.contains_key(k)) by {
            if m1.contains_key(k) {
                lemma_symbol_table_from(symbols, strings, symbols.len() as int, k);
            }
        }
    }
    let m3 = targets_step(entry_step(m1, None, strings), targets, strings, 0);
    assert(m3 == m1);
    let n: int = if imports.len() < 4 { imports.len() as int } else { 4 };
    let m4 = imports_step(m3, imports);
    assert(m4 == thunks(m3, imports, n));
    let m = seed_table(None, symbols, strings, imports, targets);
    assert forall|i: int| 0 <= i < imports.len() && i < 4 implies {
        let k = (thunk_address(i), "import_thunk_"@ + (#[trigger] imports[i]).symbol@);
        m.contains_key(k) && m[k] == thunk_view(imports, i)
    } by {
        let k = (thunk_address(i), "import_thunk_"@ + imports[i].symbol@);
        lemma_thunks_have(m3, imports, n, i);
        assert(!no_functions(m4)) by {
            assert(m4.contains_key(k));
        }
    }
    if imports.len() == 0 {
        assert(m4 == m3);
    }
}

/// Refining and annotating keep each seed's name, address, boundary, confidence and calls.
#[verifier::spinoff_prover]
proof fn lemma_collected_identity(
    seeds: Seq<ParsedFunction>,
    refined: Seq<ParsedFunction>,
    r: Seq<ParsedFunction>,
    format: ArtifactFormat,
    sections: Seq<ParsedSection>,
)
    requires
        refined_list(seeds, refined, sections),
        annotated_list(refined, r, format, sections),
    ensures
        r.len() == seeds.len(),
        forall|j: int|
            0 <= j < seeds.len() ==> (#[trigger] r[j]).name == seeds[j].name && r[j].address == seeds[j].address
                && r[j].boundary_source == seeds[j].boundary_source && r[j].boundary_confidence
                == seeds[j].boundary_confidence && r[j].call_count == seeds[j].call_count,
{
    assert forall|j: int| 0 <= j < seeds.len() implies (#[trigger] r[j]).name == seeds[j].name && r[j].address
        == seeds[j].address && r[j].boundary_source == seeds[j].boundary_source && r[j].boundary_confidence
        == seeds[j].boundary_confidence && r[j].call_count == seeds[j].call_count by {
        assert(refined_from(seeds[j], refined[j], starts_of(seeds), sections));
        assert(annotated_from(refined[j], r[j], format, sections));
        crate::annotate::law_annotation_keeps_identity(refined[j], r[j], format, sections);
        let out = choose|out: Seq<DecodedInstruction>|
            #![trigger refined_size(seeds[j], starts_of(seeds), sections, out)]
            decodes_planned(seeds[j], starts_of(seeds), sections, out) && refined[j] == ParsedFunction {
                size: refined_size(seeds[j], starts_of(seeds), sections, out),
                ..seeds[j]
            };
    }
}

/// Law of the fallback seeds: when no eligible symbol, no entry point and no call target gives
/// a function, the binary has an `import_thunk_<symbol>` function, at 0x1000 + 0x10 * i, for
/// each of its first four imports `i` (boundary `import_thunk`, one call each); with no import
/// either, it has exactly one function, `unknown_function_0` at address 0, found by heuristic.
#[verifier::spinoff_prover]
pub proof fn law_fallback_functions(
    format: ArtifactFormat,
    symbols: Seq<ParsedSymbol>,
    strings: Seq<ParsedString>,
    imports: Seq<ParsedImport>,
    sections: Seq<ParsedSection>,
    r: Seq<ParsedFunction>,
)
    requires
        functions_collected(format, None, symbols, strings, imports, sections, r),
        forall|i: int| 0 <= i < symbols.len() ==> !eligible_symbol(#[trigger] symbols[i]),
        forall|t: Seq<u64>| #[trigger] call_targets_of(sections, t) ==> t.len() == 0,
    ensures
        forall|i: int|
            0 <= i < imports.len() && i < 4 ==> exists|j: int|
                0 <= j < r.len() && (#[trigger] r[j]).name@ == "import_thunk_"@ + (#[trigger] imports[i]).symbol@
                    && r[j].address == Some(thunk_address(i)) && r[j].boundary_source@ == "import_thunk"@
                    && r[j].boundary_confidence == BoundaryConfidence::ImportThunk && r[j].call_count == 1,
        imports.len() == 0 ==> r.len() == 1 && r[0].name@ == "unknown_function_0"@ && r[0].address == Some(0u64)
            && r[0].boundary_source@ == "heuristic"@ && r[0].boundary_confidence == BoundaryConfidence::Heuristic,
{
    let (targets, seeds, refined) = choose|targets: Seq<u64>, seeds: Seq<ParsedFunction>, refined: Seq<ParsedFunction>|
        #![trigger call_targets_of(sections, targets), refined_list(seeds, refined, sections)]
        call_targets_of(sections, targets) && functions_match(
            seeds,
            seed_table(None, symbols, strings, imports, targets),
        ) && refined_list(seeds, refined, sections) && annotated_list(refined, r, format, sections);
    assert(targets.len() == 0);
    lemma_fallback_table(symbols, strings, imports, targets);
    lemma_collected_identity(seeds, refined, r, format, sections);
    let m = seed_table(None, symbols, strings, imports, targets);
    assert forall|i: int| 0 <= i < imports.len() && i < 4 implies exists|j: int|
        0 <= j < r.len() && (#[trigger] r[j]).name@ == "import_thunk_"@ + (#[trigger] imports[i]).symbol@
            && r[j].address == Some(thunk_address(i)) && r[j].boundary_source@ == "import_thunk"@
            && r[j].boundary_confidence == BoundaryConfidence::ImportThunk && r[j].call_count == 1 by {
        let k = (thunk_address(i), "import_thunk_"@ + imports[i].symbol@);
        assert(m.contains_key(k));
        let j = choose|j: int| 0 <= j < seeds.len() && fkey(seeds[j]) == k;
        assert(is_fresh(seeds[j]));
        assert(m[fkey(seeds[j])] == seed_view(seeds[j]));
        assert(r[j].name@ == "import_thunk_"@ + imports[i].symbol@);
    }
    if imports.len() == 0 {
        let k = (0u64, "unknown_function_0"@);
        assert(m.contains_key(k));
        let j = choose|j: int| 0 <= j < seeds.len() && fkey(seeds[j]) == k;
        assert(seeds.len() == 1) by {
            if seeds.len() > 1 {
                let other = if j == 0 { 1int } else { 0int };
                assert(m.contains_key(fkey(seeds[other])));
                lemma_fkey_order(k, k, k);
                if other < j {
                    assert(fkey_lt(fkey(seeds[other]), fkey(seeds[j])));
                } else {
                    assert(fkey_lt(fkey(seeds[j]), fkey(seeds[other])));
                }
            }
        }
        assert(j == 0);
        assert(is_fresh(seeds[0]));
        assert(m[fkey(seeds[0])] == seed_view(seeds[0]));
    }
}


/// Law of extent refinement: refining keeps the list and every function in it as it was,
/// but for its size.
pub proof fn law_refinement_changes_only_sizes(seeds: Seq<ParsedFunction>, refined: Seq<ParsedFunction>, sections: Seq<ParsedSection>)
    requires
        refined_list(seeds, refined, sections),
    ensures
        refined.len() == seeds.len(),
        forall|i: int| 0 <= i < seeds.len() ==> #[trigger] refined[i] == (ParsedFunction { size: refined[i].size, ..seeds[i] }),
{
    assert forall|i: int| 0 <= i < seeds.len() implies #[trigger] refined[i] == (ParsedFunction { size: refined[i].size, ..seeds[i] }) by {
        assert(refined_from(seeds[i], refined[i], starts_of(seeds), sections));
        let out = choose|out: Seq<DecodedInstruction>|
            #![trigger refined_size(seeds[i], starts_of(seeds), sections, out)]
            decodes_planned(seeds[i], starts_of(seeds), sections, out) && refined[i] == ParsedFunction {
                size: refined_size(seeds[i], starts_of(seeds), sections, out),
                ..seeds[i]
            };
    }
}


/// The call-target step adds no function whose boundary came from a symbol.
proof fn lemma_targets_add_no_symbols(m: Map<FunctionKey, SeedView>, targets: Seq<u64>, strings: Seq<ParsedString>, n: int, k: FunctionKey)
    requires
        targets_step(m, targets, strings, n).contains_key(k),
        targets_step(m, targets, strings, n)[k].3 == "symbol"@,
    ensures
        m.contains_key(k),
        m[k] == targets_step(m, targets, strings, n)[k],
    decreases n,
{
    reveal_strlit("symbol");
    reveal_strlit("call_target");
    if n > 0 {
        let m0 = targets_step(m, targets, strings, n - 1);
        let t = targets[n - 1];
        if !has_address(m0, t) && k == (t, sub_name(t)) {
            assert("call_target"@.len() != "symbol"@.len());
        } else {
            lemma_targets_add_no_symbols(m, targets, strings, n - 1, k);
        }
    }
}

/// The thunk step adds no function whose boundary came from a symbol.
proof fn lemma_thunks_add_no_symbols(m: Map<FunctionKey, SeedView>, imports: Seq<ParsedImport>, n: int, k: FunctionKey)
    requires
        thunks(m, imports, n).contains_key(k),
        thunks(m, imports, n)[k].3 == "symbol"@,
    ensures
        m.contains_key(k),
        m[k] == thunks(m, imports, n)[k],
    decreases n,
{
    reveal_strlit("symbol");
    reveal_strlit("import_thunk");
    if n > 0 {
        let a = thunk_address(n - 1);
        let name = "import_thunk_"@ + imports[n - 1].symbol@;
        if k == (a, name) {
            assert("import_thunk"@.len() != "symbol"@.len());
        } else {
            lemma_thunks_add_no_symbols(m, imports, n - 1, k);
        }
    }
}

/// A seed whose boundary came from a symbol was seeded by the symbol table.
#[verifier::spinoff_prover]
proof fn lemma_symbol_sourced_seed(
    entrypoint: Option<u64>,
    symbols: Seq<ParsedSymbol>,
    strings: Seq<ParsedString>,
    imports: Seq<ParsedImport>,
    targets: Seq<u64>,
    k: FunctionKey,
)
    requires
        seed_table(entrypoint, symbols, strings, imports, targets).contains_key(k),
        seed_table(entrypoint, symbols, strings, imports, targets)[k].3 == "symbol"@,
    ensures
        symbol_table(symbols, strings, symbols.len() as int).contains_key(k),
{
    reveal_strlit("symbol");
    reveal_strlit("entrypoint");
    reveal_strlit("heuristic");
    let m1 = symbol_table(symbols, strings, symbols.len() as int);
    let m2 = entry_step(m1, entrypoint, strings);
    let m3 = targets_step(m2, targets, strings, targets.len() as int);
    let n: int = if imports.len() < 4 { imports.len() as int } else { 4 };
    let m4 = imports_step(m3, imports);
    let m = seed_table(entrypoint, symbols, strings, imports, targets);
    if no_functions(m4) {
        assert("heuristic"@.len() != "symbol"@.len());
    }
    assert(m4.contains_key(k) && m4[k] == m[k]);
    if no_functions(m3) {
        lemma_thunks_add_no_symbols(m3, imports, n, k);
    }
    assert(m3.contains_key(k) && m3[k] == m[k]);
    lemma_targets_add_no_symbols(m2, targets, strings, targets.len() as int, k);
    match entrypoint {
        Some(e) => {
            if !has_address(m1, e) && k == (e, "entrypoint"@) {
                assert("entrypoint"@.len() != "symbol"@.len());
            }
        },
        None => {},
    }
}

/// Law of symbol boundaries: a function of the binary whose boundary came from a symbol has
/// the name and address of an eligible symbol.
#[verifier::spinoff_prover]
pub proof fn law_symbol_boundaries_come_from_symbols(
    format: ArtifactFormat,
    entrypoint: Option<u64>,
    symbols: Seq<ParsedSymbol>,
    strings: Seq<ParsedString>,
    imports: Seq<ParsedImport>,
    sections: Seq<ParsedSection>,
    r: Seq<ParsedFunction>,
)
    requires
        functions_collected(format, entrypoint, symbols, strings, imports, sections, r),
    ensures
        forall|j: int|
            0 <= j < r.len() && (#[trigger] r[j]).boundary_source@ == "symbol"@ ==> exists|i: int|
                0 <= i < symbols.len() && eligible_symbol(#[trigger] symbols[i]) && symbols[i].name@ == r[j].name@
                    && symbols[i].address == r[j].address,
{
    let (targets, seeds, refined) = choose|targets: Seq<u64>, seeds: Seq<ParsedFunction>, refined: Seq<ParsedFunction>|
        #![trigger call_targets_of(sections, targets), refined_list(seeds, refined, sections)]
        call_targets_of(sections, targets) && functions_match(
            seeds,
            seed_table(entrypoint, symbols, strings, imports, targets),
        ) && refined_list(seeds, refined, sections) && annotated_list(refined, r, format, sections);
    lemma_collected_identity(seeds, refined, r, format, sections);
    let m = seed_table(entrypoint, symbols, strings, imports, targets);
    assert forall|j: int| 0 <= j < r.len() && (#[trigger] r[j]).boundary_source@ == "symbol"@ implies exists|i: int|
        0 <= i < symbols.len() && eligible_symbol(#[trigger] symbols[i]) && symbols[i].name@ == r[j].name@
            && symbols[i].address == r[j].address by {
        let k = fkey(seeds[j]);
        assert(is_fresh(seeds[j]));
        assert(m.contains_key(k) && m[k] == seed_view(seeds[j]));
        lemma_symbol_sourced_seed(entrypoint, symbols, strings, imports, targets, k);
        lemma_symbol_table_from(symbols, strings, symbols.len() as int, k);
    }
}

} // verus!
