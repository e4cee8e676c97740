use vstd::prelude::*;
use object::read::pe::{ImageNtHeaders, ImageOptionalHeader};
use object::{Object, ObjectSection, ObjectSymbol};

use crate::frame::ArtifactFormat;
use crate::functions::{ParsedImport, ParsedSymbol};
use crate::strings::{utf8_lossy, utf8_lossy_text};
use crate::text::{lex_lt, str_eq, str_lt, string_of};

verus! {

/// What parsing the file gives: the `Debug` texts of its format and architecture and its
/// entry address, or the text of the parse error.
pub uninterp spec fn object_summary_of(bytes: Seq<u8>) -> Result<(Seq<char>, Seq<char>, u64), Seq<char>>;

/// The file's sections as records: name (when it reads), address, size, file range, data
/// (when it reads) and the `Debug` text of the flags.
pub uninterp spec fn object_sections_of(bytes: Seq<u8>) -> Seq<SectionRecord>;

/// The file's symbols, then its dynamic symbols, as records: name (when it reads), address,
/// size, `Debug` text of the kind, and whether it is global.
pub uninterp spec fn object_symbols_of(bytes: Seq<u8>) -> Seq<SymbolRecord>;

/// The file's imports as (name, library) bytes, when they read.
pub uninterp spec fn object_imports_of(bytes: Seq<u8>) -> Option<Seq<(Seq<u8>, Seq<u8>)>>;

/// Whether the file is a PE32 (`Some(false)`) or PE32+ (`Some(true)`) image.
pub uninterp spec fn pe_width_of(bytes: Seq<u8>) -> Option<bool>;

/// The image base and import descriptors (library name when it reads, original first thunk,
/// first thunk) of a PE32 image.
pub uninterp spec fn pe32_import_table_of(bytes: Seq<u8>) -> Option<(u64, Seq<DescriptorRecord>)>;

/// The image base and import descriptors of a PE32+ image.
pub uninterp spec fn pe64_import_table_of(bytes: Seq<u8>) -> Option<(u64, Seq<DescriptorRecord>)>;

/// For each thunk of the PE32 list at `rva` up to its null thunk, the imported name when the
/// thunk imports by name.
pub uninterp spec fn pe32_thunk_names_of(bytes: Seq<u8>, rva: u32) -> Option<Seq<Option<Seq<u8>>>>;

/// For each thunk of the PE32+ list at `rva` up to its null thunk, the imported name when the
/// thunk imports by name.
pub uninterp spec fn pe64_thunk_names_of(bytes: Seq<u8>, rva: u32) -> Option<Seq<Option<Seq<u8>>>>;

/// A section record: name, address, size, file range, data, flags text.
pub type SectionRecord = (Option<Seq<char>>, u64, u64, Option<(u64, u64)>, Option<Seq<u8>>, Seq<char>);

/// A symbol record: name, address, size, kind text, global.
pub type SymbolRecord = (Option<Seq<char>>, u64, u64, Seq<char>, bool);

/// An import descriptor record: library name, original first thunk, first thunk.
pub type DescriptorRecord = (Option<Seq<u8>>, u32, u32);

/// A section as the object file reports it.
pub struct RawSection {
    pub name: Option<String>,
    pub address: u64,
    pub size: u64,
    pub file_range: Option<(u64, u64)>,
    pub data: Option<Vec<u8>>,
    pub flags: String,
}

/// A symbol as the object file reports it.
pub struct RawSymbol {
    pub name: Option<String>,
    pub address: u64,
    pub size: u64,
    pub kind: String,
    pub is_global: bool,
}

/// An import as the object file reports it.
pub struct RawImport {
    pub name: Vec<u8>,
    pub library: Vec<u8>,
}

/// An import descriptor of a PE image.
pub struct PeImportDescriptor {
    pub library: Option<Vec<u8>>,
    pub original_first_thunk: u32,
    pub first_thunk: u32,
}

/// Optional text as a value.
pub open spec fn opt_chars(o: Option<String>) -> Option<Seq<char>> {
    match o {
        Some(s) => Some(s@),
        None => None,
    }
}

/// Optional bytes as a value.
pub open spec fn opt_bytes(o: Option<Vec<u8>>) -> Option<Seq<u8>> {
    match o {
        Some(b) => Some(b@),
        None => None,
    }
}

/// A summary as a value.
pub open spec fn summary_view(r: Result<(String, String, u64), String>) -> Result<(Seq<char>, Seq<char>, u64), Seq<char>> {
    match r {
        Ok((f, a, e)) => Ok((f@, a@, e)),
        Err(e) => Err(e@),
    }
}

/// Sections as records.
pub open spec fn section_records(v: Seq<RawSection>) -> Seq<SectionRecord> {
    Seq::new(
        v.len(),
        |i: int| (opt_chars(v[i].name), v[i].address, v[i].size, v[i].file_range, opt_bytes(v[i].data), v[i].flags@),
    )
}

/// Symbols as records.
pub open spec fn symbol_records(v: Seq<RawSymbol>) -> Seq<SymbolRecord> {
    Seq::new(v.len(), |i: int| (opt_chars(v[i].name), v[i].address, v[i].size, v[i].kind@, v[i].is_global))
}

/// Imports as records.
pub open spec fn import_records(o: Option<Vec<RawImport>>) -> Option<Seq<(Seq<u8>, Seq<u8>)>> {
    match o {
        Some(v) => Some(Seq::new(v@.len(), |i: int| (v@[i].name@, v@[i].library@))),
        None => None,
    }
}

/// Descriptors as records.
pub open spec fn descriptor_records(v: Seq<PeImportDescriptor>) -> Seq<DescriptorRecord> {
    Seq::new(v.len(), |i: int| (opt_bytes(v[i].library), v[i].original_first_thunk, v[i].first_thunk))
}

/// An import table as a value.
pub open spec fn table_view(o: Option<(u64, Vec<PeImportDescriptor>)>) -> Option<(u64, Seq<DescriptorRecord>)> {
    match o {
        Some((base, ds)) => Some((base, descriptor_records(ds@))),
        None => None,
    }
}

/// Thunk names as a value.
pub open spec fn thunk_view(o: Option<Vec<Option<Vec<u8>>>>) -> Option<Seq<Option<Seq<u8>>>> {
    match o {
        Some(v) => Some(Seq::new(v@.len(), |i: int| opt_bytes(v@[i]))),
        None => None,
    }
}

/// Calls `object::File::parse`, then the file's `format`, `architecture` and `entry`.
/// Trusted: the result is the function `object_summary_of` of the bytes (the `Debug` texts of
/// the format and architecture, or the parse error's text).
#[verifier::external_body]
pub(crate) fn object_summary(bytes: &[u8]) -> (r: Result<(String, String, u64), String>)
    ensures
        summary_view(r) == object_summary_of(bytes@),
{
    match object::File::parse(bytes) {
        Ok(file) => Ok((format!("{:?}", file.format()), format!("{:?}", file.architecture()), file.entry())),
        Err(err) => Err(format!("{err}")),
    }
}

/// Calls `object::File::parse`, then for each of `sections()` its `name`, `address`, `size`,
/// `file_range`, `uncompressed_data` and `flags`. Trusted: the result is the function
/// `object_sections_of` of the bytes (nothing when the bytes do not parse).
#[verifier::external_body]
pub(crate) fn object_sections(bytes: &[u8]) -> (r: Vec<RawSection>)
    ensures
        section_records(r@) == object_sections_of(bytes@),
{
    let mut out = Vec::new();
    if let Ok(file) = object::File::parse(bytes) {
        for s in file.sections() {
            let name = s.name().ok().map(String::from);
            let data = s.uncompressed_data().ok().map(|d| d.to_vec());
            let flags = format!("{:?}", s.flags());
            out.push(RawSection { name, address: s.address(), size: s.size(), file_range: s.file_range(), data, flags });
        }
    }
    out
}

/// Calls `object::File::parse`, then for each of `symbols()` followed by `dynamic_symbols()`
/// its `name`, `address`, `size`, `kind` and `is_global`. Trusted: the result is the function
/// `object_symbols_of` of the bytes (nothing when the bytes do not parse).
#[verifier::external_body]
pub(crate) fn object_symbols(bytes: &[u8]) -> (r: Vec<RawSymbol>)
    ensures
        symbol_records(r@) == object_symbols_of(bytes@),
{
    let mut out = Vec::new();
    if let Ok(file) = object::File::parse(bytes) {
        for s in file.symbols().chain(file.dynamic_symbols()) {
            let name = s.name().ok().map(String::from);
            let kind = format!("{:?}", s.kind());
            out.push(RawSymbol { name, address: s.address(), size: s.size(), kind, is_global: s.is_global() });
        }
    }
    out
}

/// Calls `object::File::parse`, then `imports()` and each import's `name` and `library`.
/// Trusted: the result is the function `object_imports_of` of the bytes (`None` when either
/// call fails).
#[verifier::external_body]
pub(crate) fn object_imports(bytes: &[u8]) -> (r: Option<Vec<RawImport>>)
    ensures
        import_records(r) == object_imports_of(bytes@),
{
    let file = object::File::parse(bytes).ok()?;
    let imports = file.imports().ok()?;
    Some(imports.iter().map(|i| RawImport { name: i.name().to_vec(), library: i.library().to_vec() }).collect())
}

/// Calls `object::FileKind::parse`. Trusted: the result is the function `pe_width_of` of the
/// bytes: `Some(false)` for `Pe32`, `Some(true)` for `Pe64`, `None` otherwise.
#[verifier::external_body]
fn pe_width(bytes: &[u8]) -> (r: Option<bool>)
    ensures
        r == pe_width_of(bytes@),
{
    match object::FileKind::parse(bytes) {
        Ok(object::FileKind::Pe32) => Some(false),
        Ok(object::FileKind::Pe64) => Some(true),
        _ => None,
    }
}

/// Calls `PeFile32::parse`, `import_table`, `descriptors` and, per descriptor, the table's
/// `name`; and the optional header's `image_base`. Trusted: the result is the function
/// `pe32_import_table_of` of the bytes.
#[verifier::external_body]
fn pe32_import_table(bytes: &[u8]) -> (r: Option<(u64, Vec<PeImportDescriptor>)>)
    ensures
        table_view(r) == pe32_import_table_of(bytes@),
{
    let file = object::read::pe::PeFile32::parse(bytes).ok()?;
    let table = file.import_table().ok()??;
    let mut descriptors = table.descriptors().ok()?;
    let mut out = Vec::new();
    while let Ok(Some(d)) = descriptors.next() {
        let library = table.name(d.name.get(object::LittleEndian)).ok().map(|n| n.to_vec());
        let (oft, ft) = (d.original_first_thunk.get(object::LittleEndian), d.first_thunk.get(object::LittleEndian));
        out.push(PeImportDescriptor { library, original_first_thunk: oft, first_thunk: ft });
    }
    Some((file.nt_headers().optional_header().image_base(), out))
}

/// Calls `PeFile64::parse`, `import_table`, `descriptors` and, per descriptor, the table's
/// `name`; and the optional header's `image_base`. Trusted: the result is the function
/// `pe64_import_table_of` of the bytes.
#[verifier::external_body]
fn pe64_import_table(bytes: &[u8]) -> (r: Option<(u64, Vec<PeImportDescriptor>)>)
    ensures
        table_view(r) == pe64_import_table_of(bytes@),
{
    let file = object::read::pe::PeFile64::parse(bytes).ok()?;
    let table = file.import_table().ok()??;
    let mut descriptors = table.descriptors().ok()?;
    let mut out = Vec::new();
    while let Ok(Some(d)) = descriptors.next() {
        let library = table.name(d.name.get(object::LittleEndian)).ok().map(|n| n.to_vec());
        let (oft, ft) = (d.original_first_thunk.get(object::LittleEndian), d.first_thunk.get(object::LittleEndian));
        out.push(PeImportDescriptor { library, original_first_thunk: oft, first_thunk: ft });
    }
    Some((file.nt_headers().optional_header().image_base(), out))
}

/// Calls `PeFile32::parse`, `import_table`, `thunks(rva)`, then `next` and the table's
/// `import` per thunk until the null thunk. Trusted: the result is the function
/// `pe32_thunk_names_of` of the bytes and `rva`.
#[verifier::external_body]
fn pe32_thunk_names(bytes: &[u8], rva: u32) -> (r: Option<Vec<Option<Vec<u8>>>>)
    ensures
        thunk_view(r) == pe32_thunk_names_of(bytes@, rva),
{
    let file = object::read::pe::PeFile32::parse(bytes).ok()?;
    let table = file.import_table().ok()??;
    let mut thunks = table.thunks(rva).ok()?;
    let mut names = Vec::new();
    while let Ok(Some(thunk)) = thunks.next::<object::pe::ImageNtHeaders32>() {
        names.push(match table.import::<object::pe::ImageNtHeaders32>(thunk) {
            Ok(object::read::pe::Import::Name(_, name)) => Some(name.to_vec()),
            _ => None,
        });
    }
    Some(names)
}

/// Calls `PeFile64::parse`, `import_table`, `thunks(rva)`, then `next` and the table's
/// `import` per thunk until the null thunk. Trusted: the result is the function
/// `pe64_thunk_names_of` of the bytes and `rva`.
#[verifier::external_body]
fn pe64_thunk_names(bytes: &[u8], rva: u32) -> (r: Option<Vec<Option<Vec<u8>>>>)
    ensures
        thunk_view(r) == pe64_thunk_names_of(bytes@, rva),
{
    let file = object::read::pe::PeFile64::parse(bytes).ok()?;
    let table = file.import_table().ok()??;
    let mut thunks = table.thunks(rva).ok()?;
    let mut names = Vec::new();
    while let Ok(Some(thunk)) = thunks.next::<object::pe::ImageNtHeaders64>() {
        names.push(match table.import::<object::pe::ImageNtHeaders64>(thunk) {
            Ok(object::read::pe::Import::Name(_, name)) => Some(name.to_vec()),
            _ => None,
        });
    }
    Some(names)
}

/// The artifact format of an object format, by its `Debug` text: ELF and PE are supported.
pub open spec fn spec_artifact_format(format: Seq<char>) -> Option<ArtifactFormat> {
    if format == "Elf"@ {
        Some(ArtifactFormat::Elf)
    } else if format == "Pe"@ {
        Some(ArtifactFormat::Pe)
    } else {
        None
    }
}

/// The artifact format of an object format (given by its `Debug` text): ELF and PE are
/// supported, the others are not.
pub fn artifact_format_for(format: &str) -> (r: Option<ArtifactFormat>)
    ensures
        r == spec_artifact_format(format@),
{
    if str_eq(format, "Elf") {
        Some(ArtifactFormat::Elf)
    } else if str_eq(format, "Pe") {
        Some(ArtifactFormat::Pe)
    } else {
        None
    }
}

/// The kind name of a symbol kind (given by its `Debug` text).
pub open spec fn spec_symbol_kind(kind: Seq<char>) -> Seq<char> {
    if kind == "Text"@ {
        "text"@
    } else if kind == "Data"@ {
        "data"@
    } else if kind == "Section"@ {
        "section"@
    } else if kind == "File"@ {
        "file"@
    } else if kind == "Label"@ {
        "label"@
    } else {
        "unknown"@
    }
}

/// `text`, `data`, `section`, `file` or `label` for those symbol kinds (given by their `Debug`
/// text), `unknown` for the others.
pub fn symbol_kind(kind: &str) -> (r: &'static str)
    ensures
        r@ == spec_symbol_kind(kind@),
{
    if str_eq(kind, "Text") {
        "text"
    } else if str_eq(kind, "Data") {
        "data"
    } else if str_eq(kind, "Section") {
        "section"
    } else if str_eq(kind, "File") {
        "file"
    } else if str_eq(kind, "Label") {
        "label"
    } else {
        "unknown"
    }
}

/// Whether `c` is white space in Unicode (what `char::is_whitespace` tests).
pub open spec fn is_white(c: char) -> bool {
    let u = c as u32;
    (0x9 <= u <= 0xd) || u == 0x20 || u == 0x85 || u == 0xa0 || u == 0x1680 || (0x2000 <= u <= 0x200a) || u
        == 0x2028 || u == 0x2029 || u == 0x202f || u == 0x205f || u == 0x3000
}

/// Whether `s` is nothing but white space (so that it trims to nothing).
pub open spec fn is_blank(s: Seq<char>) -> bool {
    forall|i: int| 0 <= i < s.len() ==> is_white(#[trigger] s[i])
}

fn is_white_exec(c: char) -> (r: bool)
    ensures
        r == is_white(c),
{
    let u = c as u32;
    (0x9 <= u && u <= 0xd) || u == 0x20 || u == 0x85 || u == 0xa0 || u == 0x1680 || (0x2000 <= u && u
        <= 0x200a) || u == 0x2028 || u == 0x2029 || u == 0x202f || u == 0x205f || u == 0x3000
}

/// Whether a text trims to nothing.
pub fn is_blank_text(s: &str) -> (r: bool)
    ensures
        r == is_blank(s@),
{
    let n = s.unicode_len();
    let mut i: usize = 0;
    while i < n
        invariant
            n == s@.len(),
            i <= n,
            forall|k: int| 0 <= k < i ==> is_white(#[trigger] s@[k]),
        decreases n - i,
    {
        if !is_white_exec(s.get_char(i)) {
            return false;
        }
        i += 1;
    }
    true
}

/// A symbol as a value: name, address, size, kind, binding.
pub type SymbolView = (Seq<char>, Option<u64>, Option<u64>, Seq<char>, Seq<char>);

/// A symbol as a value.
pub open spec fn symbol_view(s: ParsedSymbol) -> SymbolView {
    (s.name@, s.address, s.size, s.kind@, s.binding@)
}

/// Symbols as values.
pub open spec fn symbol_views(v: Seq<ParsedSymbol>) -> Seq<SymbolView> {
    Seq::new(v.len(), |i: int| symbol_view(v[i]))
}

/// A nonzero value, or nothing for zero.
pub open spec fn nonzero(x: u64) -> Option<u64> {
    if x != 0 {
        Some(x)
    } else {
        None
    }
}

/// The symbol a named record gives.
pub open spec fn symbol_of(rec: SymbolRecord) -> SymbolView {
    (
        rec.0.unwrap(),
        nonzero(rec.1),
        nonzero(rec.2),
        spec_symbol_kind(rec.3),
        if rec.4 {
            "global"@
        } else {
            "local"@
        },
    )
}

/// Whether `v` already has a symbol with this name, address and size.
pub open spec fn has_symbol(v: Seq<SymbolView>, x: SymbolView) -> bool {
    exists|i: int| 0 <= i < v.len() && (#[trigger] v[i]).0 == x.0 && v[i].1 == x.1 && v[i].2 == x.2
}

/// The symbols the first `n` records give: those with a name that is not blank, the first of
/// each (name, address, size).
pub open spec fn kept_symbols(recs: Seq<SymbolRecord>, n: int) -> Seq<SymbolView>
    decreases n,
{
    if n <= 0 {
        Seq::empty()
    } else {
        let prev = kept_symbols(recs, n - 1);
        let rec = recs[n - 1];
        match rec.0 {
            Some(name) => if is_blank(name) || has_symbol(prev, symbol_of(rec)) {
                prev
            } else {
                prev.push(symbol_of(rec))
            },
            None => prev,
        }
    }
}

/// The sort key of a symbol: its address (`u64::MAX` when it has none), then its name.
pub open spec fn symbol_before(a: SymbolView, b: SymbolView) -> bool {
    let ka: u64 = match a.1 {
        Some(x) => x,
        None => u64::MAX,
    };
    let kb: u64 = match b.1 {
        Some(x) => x,
        None => u64::MAX,
    };
    ka < kb || (ka == kb && lex_lt(a.0, b.0))
}

/// `x` placed after the last symbol that does not sort after it (a stable insertion).
pub open spec fn insert_symbol(v: Seq<SymbolView>, x: SymbolView) -> Seq<SymbolView>
    decreases v.len(),
{
    if v.len() == 0 {
        seq![x]
    } else if !symbol_before(x, v.last()) {
        v.push(x)
    } else {
        insert_symbol(v.drop_last(), x).push(v.last())
    }
}

/// `s` sorted by (address, name), keeping the order of equal keys.
pub open spec fn sorted_symbols(s: Seq<SymbolView>) -> Seq<SymbolView>
    decreases s.len(),
{
    if s.len() == 0 {
        Seq::empty()
    } else {
        insert_symbol(sorted_symbols(s.drop_last()), s.last())
    }
}

proof fn lemma_insert_symbol_at(v: Seq<SymbolView>, x: SymbolView, p: int)
    requires
        0 <= p <= v.len(),
        forall|j: int| p <= j < v.len() ==> symbol_before(x, #[trigger] v[j]),
        p > 0 ==> !symbol_before(x, v[p - 1]),
    ensures
        insert_symbol(v, x) == v.insert(p, x),
    decreases v.len(),
{
    if v.len() == 0 {
        assert(v.insert(p, x) =~= seq![x]);
    } else if p == v.len() {
        assert(v.insert(p, x) =~= v.push(x));
    } else {
        assert(symbol_before(x, v.last()));
        lemma_insert_symbol_at(v.drop_last(), x, p);
        assert(v.drop_last().insert(p, x).push(v.last()) =~= v.insert(p, x));
    }
}

fn symbol_before_exec(a: &ParsedSymbol, b: &ParsedSymbol) -> (r: bool)
    ensures
        r == symbol_before(symbol_view(*a), symbol_view(*b)),
{
    let ka: u64 = match a.address {
        Some(x) => x,
        None => u64::MAX,
    };
    let kb: u64 = match b.address {
        Some(x) => x,
        None => u64::MAX,
    };
    ka < kb || (ka == kb && str_lt(a.name.as_str(), b.name.as_str()))
}

/// The (name, address, size) keys of the symbols.
pub open spec fn symbol_keys(v: Seq<SymbolView>) -> Seq<(Seq<char>, Option<u64>, Option<u64>)> {
    Seq::new(v.len(), |i: int| (v[i].0, v[i].1, v[i].2))
}

/// The symbols of the file: named, not blank, one per (name, address, size), sorted by address
/// (those without one last) and then name.
pub fn collect_symbols(raw: &[RawSymbol]) -> (r: Vec<ParsedSymbol>)
    ensures
        symbol_views(r@) == sorted_symbols(kept_symbols(symbol_records(raw@), raw@.len() as int)),
{
    let ghost recs = symbol_records(raw@);
    let mut seen_keys: Vec<(String, Option<u64>, Option<u64>)> = Vec::new();
    let mut sorted: Vec<ParsedSymbol> = Vec::new();
    let mut i: usize = 0;
    while i < raw.len()
        invariant
            i <= raw@.len(),
            recs == symbol_records(raw@),
            seen_keys@.len() == kept_symbols(recs, i as int).len(),
            forall|q: int|
                0 <= q < seen_keys@.len() ==> ((#[trigger] seen_keys@[q]).0@, seen_keys@[q].1, seen_keys@[q].2)
                    == symbol_keys(kept_symbols(recs, i as int))[q],
            symbol_views(sorted@) == sorted_symbols(kept_symbols(recs, i as int)),
        decreases raw@.len() - i,
    {
        let ghost prev = kept_symbols(recs, i as int);
        let rs = &raw[i];
        let name = match &rs.name {
            Some(n) => n,
            None => {
                assert(kept_symbols(recs, i + 1) == prev);
                i += 1;
                continue;
            },
        };
        if is_blank_text(name.as_str()) {
            assert(kept_symbols(recs, i + 1) == prev);
            i += 1;
            continue;
        }
        let address = if rs.address != 0 {
            Some(rs.address)
        } else {
            None
        };
        let size = if rs.size != 0 {
            Some(rs.size)
        } else {
            None
        };
        let mut seen = false;
        let mut k: usize = 0;
        while k < seen_keys.len()
            invariant
                k <= seen_keys@.len(),
                seen_keys@.len() == prev.len(),
                forall|q: int|
                    0 <= q < seen_keys@.len() ==> ((#[trigger] seen_keys@[q]).0@, seen_keys@[q].1, seen_keys@[q].2)
                        == symbol_keys(prev)[q],
                seen == exists|q: int|
                    0 <= q < k && (#[trigger] prev[q]).0 == name@ && prev[q].1 == address && prev[q].2 == size,
            decreases seen_keys@.len() - k,
        {
            let key = &seen_keys[k];
            assert((key.0@, key.1, key.2) == symbol_keys(prev)[k as int]);
            if str_eq(key.0.as_str(), name.as_str()) && key.1 == address && key.2 == size {
                seen = true;
            }
            k += 1;
        }
        if seen {
            assert(has_symbol(prev, symbol_of(recs[i as int])));
            assert(kept_symbols(recs, i + 1) == prev);
            i += 1;
            continue;
        }
        assert(!has_symbol(prev, symbol_of(recs[i as int])));
        let kind = symbol_kind(rs.kind.as_str());
        let sym = ParsedSymbol {
            name: name.clone(),
            address,
            size,
            kind: string_of(kind),
            binding: string_of(
                if rs.is_global {
                    "global"
                } else {
                    "local"
                },
            ),
        };
        assert(symbol_view(sym) == symbol_of(recs[i as int]));
        let mut p: usize = sorted.len();
        while p > 0 && symbol_before_exec(&sym, &sorted[p - 1])
            invariant
                p <= sorted@.len(),
                forall|j: int| p <= j < sorted@.len() ==> symbol_before(symbol_view(sym), #[trigger] symbol_views(sorted@)[j]),
            decreases p,
        {
            p -= 1;
        }
        proof {
            lemma_insert_symbol_at(symbol_views(sorted@), symbol_view(sym), p as int);
        }
        let ghost before_sorted = symbol_views(sorted@);
        seen_keys.push((name.clone(), address, size));
        sorted.insert(p, sym);
        assert(symbol_views(sorted@) =~= before_sorted.insert(p as int, symbol_view(sym)));
        assert(kept_symbols(recs, i + 1) == prev.push(symbol_of(recs[i as int])));
        assert(prev.push(symbol_of(recs[i as int])).drop_last() =~= prev);
        assert(symbol_keys(prev.push(symbol_of(recs[i as int]))) =~= symbol_keys(prev).push((name@, address, size)));
        i += 1;
    }
    sorted
}

/// A PE import slot: the imported function's module and name and the address of its slot in
/// the import address table.
#[derive(Clone, Debug)]
pub struct PeImportSlot {
    pub module: String,
    pub symbol: String,
    pub address: u64,
}

/// A slot as a value.
pub type SlotView = (Seq<char>, Seq<char>, u64);

/// Slots as values.
pub open spec fn slot_views(v: Seq<PeImportSlot>) -> Seq<SlotView> {
    Seq::new(v.len(), |i: int| (v[i].module@, v[i].symbol@, v[i].address))
}

/// The size of an import thunk: 4 bytes in PE32, 8 in PE32+.
pub open spec fn thunk_size(wide: bool) -> u32 {
    if wide {
        8
    } else {
        4
    }
}

/// The names of the thunk list at `rva`, for the image's width.
pub open spec fn thunk_names_of(bytes: Seq<u8>, wide: bool, rva: u32) -> Option<Seq<Option<Seq<u8>>>> {
    if wide {
        pe64_thunk_names_of(bytes, rva)
    } else {
        pe32_thunk_names_of(bytes, rva)
    }
}

/// The thunk counter at position `k`, stuck at `u32::MAX`.
pub open spec fn thunk_index(k: int) -> u32 {
    if k < u32::MAX {
        k as u32
    } else {
        u32::MAX
    }
}

/// The slot of thunk `index` of the table at `iat`: image base plus table plus index times
/// thunk size, wrapping.
pub open spec fn slot_address(base: u64, iat: u32, index: u32, size: u32) -> u64 {
    base.wrapping_add(iat as u64).wrapping_add(index.wrapping_mul(size) as u64)
}

/// The slots of the first `n` thunks of a table that imports by name.
pub open spec fn slots_from(
    module: Seq<char>,
    names: Seq<Option<Seq<u8>>>,
    base: u64,
    iat: u32,
    size: u32,
    n: int,
) -> Seq<SlotView>
    decreases n,
{
    if n <= 0 {
        Seq::empty()
    } else {
        let prev = slots_from(module, names, base, iat, size, n - 1);
        match names[n - 1] {
            Some(name) => prev.push((module, utf8_lossy_text(name), slot_address(base, iat, thunk_index(n - 1), size))),
            None => prev,
        }
    }
}

/// The slots one import descriptor gives: names are read from its original first thunk (its
/// first thunk when that is zero), slots lie in its first thunk's table.
pub open spec fn descriptor_slots(bytes: Seq<u8>, wide: bool, base: u64, d: DescriptorRecord) -> Seq<SlotView> {
    match d.0 {
        Some(library) => {
            let lookup = if d.1 == 0 {
                d.2
            } else {
                d.1
            };
            match thunk_names_of(bytes, wide, lookup) {
                Some(names) => slots_from(utf8_lossy_text(library), names, base, d.2, thunk_size(wide), names.len() as int),
                None => Seq::empty(),
            }
        },
        None => Seq::empty(),
    }
}

/// The slots the first `n` descriptors give.
pub open spec fn table_slots(bytes: Seq<u8>, wide: bool, base: u64, ds: Seq<DescriptorRecord>, n: int) -> Seq<SlotView>
    decreases n,
{
    if n <= 0 {
        Seq::empty()
    } else {
        table_slots(bytes, wide, base, ds, n - 1) + descriptor_slots(bytes, wide, base, ds[n - 1])
    }
}

/// The import slots of a PE image (nothing for other files).
pub open spec fn pe_import_slots(bytes: Seq<u8>) -> Seq<SlotView> {
    match pe_width_of(bytes) {
        Some(wide) => {
            let table = if wide {
                pe64_import_table_of(bytes)
            } else {
                pe32_import_table_of(bytes)
            };
            match table {
                Some((base, ds)) => table_slots(bytes, wide, base, ds, ds.len() as int),
                None => Seq::empty(),
            }
        },
        None => Seq::empty(),
    }
}

fn thunk_names(bytes: &[u8], wide: bool, rva: u32) -> (r: Option<Vec<Option<Vec<u8>>>>)
    ensures
        thunk_view(r) == thunk_names_of(bytes@, wide, rva),
{
    if wide {
        pe64_thunk_names(bytes, rva)
    } else {
        pe32_thunk_names(bytes, rva)
    }
}

/// The import slots the descriptors of a PE image's import table give, in table order.
pub fn collect_pe_import_addresses_from_table(
    bytes: &[u8],
    wide: bool,
    image_base: u64,
    descriptors: &[PeImportDescriptor],
) -> (r: Vec<PeImportSlot>)
    ensures
        slot_views(r@) == table_slots(bytes@, wide, image_base, descriptor_records(descriptors@), descriptors@.len() as int),
{
    let ghost ds = descriptor_records(descriptors@);
    let size: u32 = if wide {
        8
    } else {
        4
    };
    let mut slots: Vec<PeImportSlot> = Vec::new();
    let mut i: usize = 0;
    while i < descriptors.len()
        invariant
            i <= descriptors@.len(),
            ds == descriptor_records(descriptors@),
            size == thunk_size(wide),
            slot_views(slots@) == table_slots(bytes@, wide, image_base, ds, i as int),
        decreases descriptors@.len() - i,
    {
        let d = &descriptors[i];
        let ghost before = slot_views(slots@);
        let library = match &d.library {
            Some(l) => l,
            None => {
                assert(descriptor_slots(bytes@, wide, image_base, ds[i as int]) =~= Seq::<SlotView>::empty());
                assert(table_slots(bytes@, wide, image_base, ds, i + 1) =~= before);
                i += 1;
                continue;
            },
        };
        let module = utf8_lossy(library.as_slice());
        let lookup = if d.original_first_thunk == 0 {
            d.first_thunk
        } else {
            d.original_first_thunk
        };
        let iat = d.first_thunk;
        let names = match thunk_names(bytes, wide, lookup) {
            Some(n) => n,
            None => {
                assert(descriptor_slots(bytes@, wide, image_base, ds[i as int]) =~= Seq::<SlotView>::empty());
                assert(table_slots(bytes@, wide, image_base, ds, i + 1) =~= before);
                i += 1;
                continue;
            },
        };
        let ghost ns = Seq::new(names@.len(), |q: int| opt_bytes(names@[q]));
        let mut index: u32 = 0;
        let mut k: usize = 0;
        while k < names.len()
            invariant
                k <= names@.len(),
                ns == Seq::new(names@.len(), |q: int| opt_bytes(names@[q])),
                index == thunk_index(k as int),
                slot_views(slots@) == before + slots_from(module@, ns, image_base, iat, size, k as int),
            decreases names@.len() - k,
        {
            let ghost mid = slot_views(slots@);
            match &names[k] {
                Some(name) => {
                    let symbol = utf8_lossy(name.as_slice());
                    let address = image_base.wrapping_add(iat as u64).wrapping_add(index.wrapping_mul(size) as u64);
                    slots.push(PeImportSlot { module: module.clone(), symbol, address });
                    assert(slot_views(slots@) =~= mid.push((module@, symbol@, address)));
                },
                None => {},
            }
            index = index.saturating_add(1);
            k += 1;
        }
        assert(slot_views(slots@) =~= table_slots(bytes@, wide, image_base, ds, i + 1));
        i += 1;
    }
    slots
}

/// The import slots of a PE image, from its import table (nothing for other files or when the
/// table does not read).
pub fn collect_pe_import_addresses(bytes: &[u8]) -> (r: Vec<PeImportSlot>)
    ensures
        slot_views(r@) == pe_import_slots(bytes@),
{
    let wide = match pe_width(bytes) {
        Some(w) => w,
        None => return Vec::new(),
    };
    let table = if wide {
        pe64_import_table(bytes)
    } else {
        pe32_import_table(bytes)
    };
    match table {
        Some((image_base, descriptors)) => collect_pe_import_addresses_from_table(bytes, wide, image_base, descriptors.as_slice()),
        None => Vec::new(),
    }
}

/// The address of the last slot recorded for (module, symbol); an import without a module has
/// none.
pub open spec fn slot_lookup(slots: Seq<SlotView>, module: Option<Seq<char>>, symbol: Seq<char>) -> Option<u64>
    decreases slots.len(),
{
    match module {
        Some(m) => if slots.len() == 0 {
            None
        } else if slots.last().0 == m && slots.last().1 == symbol {
            Some(slots.last().2)
        } else {
            slot_lookup(slots.drop_last(), module, symbol)
        },
        None => None,
    }
}

fn find_slot(slots: &[PeImportSlot], module: &Option<String>, symbol: &str) -> (r: Option<u64>)
    ensures
        r == slot_lookup(slot_views(slots@), opt_chars(*module), symbol@),
{
    let m = match module {
        Some(m) => m,
        None => return None,
    };
    let mut i: usize = slots.len();
    assert(slot_views(slots@).subrange(0, slots@.len() as int) =~= slot_views(slots@));
    assert(opt_chars(*module) == Some(m@));
    while i > 0
        invariant
            i <= slots@.len(),
            opt_chars(*module) == Some(m@),
            slot_lookup(slot_views(slots@), opt_chars(*module), symbol@) == slot_lookup(
                slot_views(slots@).subrange(0, i as int),
                opt_chars(*module),
                symbol@,
            ),
        decreases i,
    {
        let ghost pre = slot_views(slots@).subrange(0, i as int);
        assert(pre.drop_last() =~= slot_views(slots@).subrange(0, i - 1));
        assert(pre.last() == (slots@[i - 1].module@, slots@[i - 1].symbol@, slots@[i - 1].address));
        if str_eq(slots[i - 1].module.as_str(), m.as_str()) && str_eq(slots[i - 1].symbol.as_str(), symbol) {
            return Some(slots[i - 1].address);
        }
        i -= 1;
    }
    None
}

/// An import as a value: module, symbol, slot address.
pub type ImportView = (Option<Seq<char>>, Seq<char>, Option<u64>);

/// Imports as values.
pub open spec fn import_views(v: Seq<ParsedImport>) -> Seq<ImportView> {
    Seq::new(v.len(), |i: int| (opt_chars(v[i].module), v[i].symbol@, v[i].address))
}

/// Whether `v` already has an import of (module, symbol).
pub open spec fn has_import(v: Seq<ImportView>, module: Option<Seq<char>>, symbol: Seq<char>) -> bool {
    exists|i: int| 0 <= i < v.len() && (#[trigger] v[i]).0 == module && v[i].1 == symbol
}

/// The imports the first `n` records give: those whose name is not blank, the first of each
/// (module, symbol), with their slot address.
pub open spec fn imports_upto(recs: Seq<(Seq<u8>, Seq<u8>)>, slots: Seq<SlotView>, n: int) -> Seq<ImportView>
    decreases n,
{
    if n <= 0 {
        Seq::empty()
    } else {
        let prev = imports_upto(recs, slots, n - 1);
        let symbol = utf8_lossy_text(recs[n - 1].0);
        let library = recs[n - 1].1;
        let module = if library.len() == 0 {
            None
        } else {
            Some(utf8_lossy_text(library))
        };
        if is_blank(symbol) || has_import(prev, module, symbol) {
            prev
        } else {
            prev.push((module, symbol, slot_lookup(slots, module, symbol)))
        }
    }
}

/// The module of an import record: none for a blank library name.
pub open spec fn record_module(library: Seq<u8>) -> Option<Seq<char>> {
    if library.len() == 0 {
        None
    } else {
        Some(utf8_lossy_text(library))
    }
}

/// Law of import collection: the imports of the first `n` records name no (module, symbol)
/// twice and none is blank, and every record with a name that is not blank has its (module,
/// symbol) among them.
pub proof fn law_imports_unique_and_complete(recs: Seq<(Seq<u8>, Seq<u8>)>, slots: Seq<SlotView>, n: int)
    requires
        0 <= n <= recs.len(),
    ensures
        forall|i: int, j: int|
            0 <= i < j < imports_upto(recs, slots, n).len() ==> !((#[trigger] imports_upto(recs, slots, n)[i]).0
                == (#[trigger] imports_upto(recs, slots, n)[j]).0 && imports_upto(recs, slots, n)[i].1
                == imports_upto(recs, slots, n)[j].1),
        forall|i: int| 0 <= i < imports_upto(recs, slots, n).len() ==> !is_blank((#[trigger] imports_upto(recs, slots, n)[i]).1),
        forall|k: int|
            0 <= k < n && !is_blank(utf8_lossy_text((#[trigger] recs[k]).0)) ==> has_import(
                imports_upto(recs, slots, n),
                record_module(recs[k].1),
                utf8_lossy_text(recs[k].0),
            ),
    decreases n,
{
    if n > 0 {
        law_imports_unique_and_complete(recs, slots, n - 1);
        let prev = imports_upto(recs, slots, n - 1);
        let v = imports_upto(recs, slots, n);
        let symbol = utf8_lossy_text(recs[n - 1].0);
        let module = record_module(recs[n - 1].1);
        assert(module == if recs[n - 1].1.len() == 0 { None } else { Some(utf8_lossy_text(recs[n - 1].1)) });
        if !(is_blank(symbol) || has_import(prev, module, symbol)) {
            let e = (module, symbol, slot_lookup(slots, module, symbol));
            assert(v == prev.push(e));
            assert forall|k: int|
                0 <= k < n && !is_blank(utf8_lossy_text((#[trigger] recs[k]).0)) implies has_import(
                v,
                record_module(recs[k].1),
                utf8_lossy_text(recs[k].0),
            ) by {
                if k < n - 1 {
                    let i = choose|i: int|
                        0 <= i < prev.len() && (#[trigger] prev[i]).0 == record_module(recs[k].1) && prev[i].1
                            == utf8_lossy_text(recs[k].0);
                    assert(v[i] == prev[i]);
                } else {
                    assert(v[prev.len() as int] == e);
                }
            }
            assert forall|i: int, j: int|
                0 <= i < j < v.len() implies !((#[trigger] v[i]).0 == (#[trigger] v[j]).0 && v[i].1 == v[j].1) by {
                if j == prev.len() {
                    assert(v[i] == prev[i]);
                } else {
                    assert(v[i] == prev[i] && v[j] == prev[j]);
                }
            }
            assert forall|i: int| 0 <= i < v.len() implies !is_blank((#[trigger] v[i]).1) by {
                if i < prev.len() {
                    assert(v[i] == prev[i]);
                }
            }
        }
    }
}

fn same_module(a: &Option<String>, b: &Option<String>) -> (r: bool)
    ensures
        r == (opt_chars(*a) == opt_chars(*b)),
{
    match (a, b) {
        (Some(x), Some(y)) => str_eq(x.as_str(), y.as_str()),
        (None, None) => true,
        _ => false,
    }
}

/// The imports of the file: named (not blank), one per (module, symbol), each with its PE slot
/// address when one was found.
pub fn collect_imports(raw: &[RawImport], slots: &[PeImportSlot]) -> (r: Vec<ParsedImport>)
    ensures
        import_views(r@) == imports_upto(
            Seq::new(raw@.len(), |i: int| (raw@[i].name@, raw@[i].library@)),
            slot_views(slots@),
            raw@.len() as int,
        ),
{
    let ghost recs = Seq::new(raw@.len(), |i: int| (raw@[i].name@, raw@[i].library@));
    let mut imports: Vec<ParsedImport> = Vec::new();
    let mut i: usize = 0;
    while i < raw.len()
        invariant
            i <= raw@.len(),
            recs == Seq::new(raw@.len(), |i: int| (raw@[i].name@, raw@[i].library@)),
            import_views(imports@) == imports_upto(recs, slot_views(slots@), i as int),
        decreases raw@.len() - i,
    {
        let ghost prev = import_views(imports@);
        let symbol = utf8_lossy(raw[i].name.as_slice());
        if is_blank_text(symbol.as_str()) {
            i += 1;
            continue;
        }
        let module = if raw[i].library.len() == 0 {
            None
        } else {
            Some(utf8_lossy(raw[i].library.as_slice()))
        };
        let mut seen = false;
        let mut k: usize = 0;
        while k < imports.len()
            invariant
                k <= imports@.len(),
                prev == import_views(imports@),
                seen == exists|q: int| 0 <= q < k && (#[trigger] prev[q]).0 == opt_chars(module) && prev[q].1 == symbol@,
            decreases imports@.len() - k,
        {
            assert(prev[k as int] == (opt_chars(imports@[k as int].module), imports@[k as int].symbol@, imports@[k as int].address));
            if same_module(&imports[k].module, &module) && str_eq(imports[k].symbol.as_str(), symbol.as_str()) {
                seen = true;
            }
            k += 1;
        }
        if seen {
            i += 1;
            continue;
        }
        let address = find_slot(slots, &module, symbol.as_str());
        imports.push(ParsedImport { module, symbol, address });
        assert(import_views(imports@) =~= prev.push(import_views(imports@).last()));
        i += 1;
    }
    imports
}

/// The symbols are in (address, name) order.
pub open spec fn symbols_sorted(v: Seq<SymbolView>) -> bool {
    forall|i: int, j: int| 0 <= i < j < v.len() ==> !symbol_before(v[j], v[i])
}

/// The symbol order is a total preorder: asymmetric, and "not after" is transitive and total.
proof fn lemma_symbol_order(a: SymbolView, b: SymbolView, c: SymbolView)
    ensures
        symbol_before(a, b) ==> !symbol_before(b, a),
        !symbol_before(b, a) && !symbol_before(c, b) ==> !symbol_before(c, a),
        symbol_before(a, b) || !symbol_before(a, b),
        !symbol_before(a, b) ==> !symbol_before(b, a) || symbol_before(b, a),
{
    crate::text::lemma_lex_asymmetric(a.0, b.0);
    crate::text::lemma_lex_trichotomy(a.0, b.0);
    crate::text::lemma_lex_trichotomy(b.0, c.0);
    crate::text::lemma_lex_trichotomy(a.0, c.0);
    crate::text::lemma_lex_irreflexive(a.0);
    if lex_lt(a.0, b.0) && lex_lt(b.0, c.0) {
        crate::text::lemma_lex_transitive(a.0, b.0, c.0);
    }
    if lex_lt(c.0, b.0) && lex_lt(b.0, a.0) {
        crate::text::lemma_lex_transitive(c.0, b.0, a.0);
    }
    if lex_lt(a.0, c.0) && lex_lt(c.0, b.0) {
        crate::text::lemma_lex_transitive(a.0, c.0, b.0);
    }
    if lex_lt(c.0, a.0) && lex_lt(a.0, b.0) {
        crate::text::lemma_lex_transitive(c.0, a.0, b.0);
    }
}

/// Inserting keeps the order, adds one symbol and keeps the others.
proof fn lemma_insert_symbol(v: Seq<SymbolView>, x: SymbolView)
    requires
        symbols_sorted(v),
    ensures
        symbols_sorted(insert_symbol(v, x)),
        insert_symbol(v, x).len() == v.len() + 1,
        forall|y: SymbolView| #[trigger] insert_symbol(v, x).contains(y) <==> (v.contains(y) || y == x),
    decreases v.len(),
{
    let r = insert_symbol(v, x);
    if v.len() == 0 {
        assert(r =~= seq![x]);
        assert forall|y: SymbolView| #[trigger] r.contains(y) <==> (v.contains(y) || y == x) by {
            if r.contains(y) {
                assert(r[0] == x);
            }
            if y == x {
                assert(r[0] == y);
            }
        }
    } else if !symbol_before(x, v.last()) {
        assert forall|i: int, j: int| 0 <= i < j < r.len() implies !symbol_before(r[j], r[i]) by {
            if j == v.len() {
                lemma_symbol_order(r[i], v.last(), x);
                if i < v.len() - 1 {
                    assert(!symbol_before(v.last(), v[i]));
                }
            }
        }
        assert forall|y: SymbolView| #[trigger] r.contains(y) <==> (v.contains(y) || y == x) by {
            if r.contains(y) {
                let i = choose|i: int| 0 <= i < r.len() && r[i] == y;
                if i < v.len() {
                    assert(v[i] == y);
                }
            }
            if v.contains(y) {
                let i = choose|i: int| 0 <= i < v.len() && v[i] == y;
                assert(r[i] == y);
            }
            if y == x {
                assert(r[v.len() as int] == y);
            }
        }
    } else {
        let w = v.drop_last();
        assert(symbols_sorted(w));
        lemma_insert_symbol(w, x);
        let rw = insert_symbol(w, x);
        assert(r == rw.push(v.last()));
        assert forall|i: int, j: int| 0 <= i < j < r.len() implies !symbol_before(r[j], r[i]) by {
            if j == r.len() - 1 && i < rw.len() {
                assert(rw.contains(rw[i]));
                if rw[i] == x {
                    lemma_symbol_order(x, v.last(), x);
                } else {
                    assert(w.contains(rw[i]));
                    let k = choose|k: int| 0 <= k < w.len() && w[k] == rw[i];
                    assert(v[k] == w[k]);
                }
            }
        }
        assert forall|y: SymbolView| #[trigger] r.contains(y) <==> (v.contains(y) || y == x) by {
            if r.contains(y) {
                let i = choose|i: int| 0 <= i < r.len() && r[i] == y;
                if i < rw.len() {
                    assert(rw.contains(y));
                    if w.contains(y) {
                        let k = choose|k: int| 0 <= k < w.len() && w[k] == y;
                        assert(v[k] == y);
                    }
                } else {
                    assert(v[v.len() - 1] == y);
                }
            }
            if v.contains(y) {
                let i = choose|i: int| 0 <= i < v.len() && v[i] == y;
                if i < v.len() - 1 {
                    assert(w[i] == y);
                    assert(rw.contains(y));
                    let k = choose|k: int| 0 <= k < rw.len() && rw[k] == y;
                    assert(r[k] == y);
                } else {
                    assert(r[r.len() - 1] == y);
                }
            }
            if y == x {
                assert(rw.contains(y));
                let k = choose|k: int| 0 <= k < rw.len() && rw[k] == y;
                assert(r[k] == y);
            }
        }
    }
}

/// Sorting orders the symbols and keeps every one, one for one.
proof fn lemma_sorted_symbols(s: Seq<SymbolView>)
    ensures
        symbols_sorted(sorted_symbols(s)),
        sorted_symbols(s).len() == s.len(),
        forall|y: SymbolView| #[trigger] sorted_symbols(s).contains(y) <==> s.contains(y),
    decreases s.len(),
{
    if s.len() > 0 {
        lemma_sorted_symbols(s.drop_last());
        lemma_insert_symbol(sorted_symbols(s.drop_last()), s.last());
        assert forall|y: SymbolView| #[trigger] sorted_symbols(s).contains(y) <==> s.contains(y) by {
            if s.contains(y) {
                let i = choose|i: int| 0 <= i < s.len() && s[i] == y;
                if i < s.len() - 1 {
                    assert(s.drop_last()[i] == y);
                }
            }
            if s.drop_last().contains(y) {
                let i = choose|i: int| 0 <= i < s.drop_last().len() && s.drop_last()[i] == y;
                assert(s[i] == y);
            }
        }
    }
}

/// No two kept symbols share name, address and size, and each has a name that is not blank.
proof fn lemma_kept_symbols_unique(recs: Seq<SymbolRecord>, n: int)
    ensures
        forall|i: int, j: int|
            0 <= i < j < kept_symbols(recs, n).len() ==> !(kept_symbols(recs, n)[i].0 == kept_symbols(recs, n)[j].0
                && kept_symbols(recs, n)[i].1 == kept_symbols(recs, n)[j].1 && kept_symbols(recs, n)[i].2
                == kept_symbols(recs, n)[j].2),
        forall|i: int| 0 <= i < kept_symbols(recs, n).len() ==> !is_blank(#[trigger] kept_symbols(recs, n)[i].0),
    decreases n,
{
    if n > 0 {
        lemma_kept_symbols_unique(recs, n - 1);
        let prev = kept_symbols(recs, n - 1);
        let rec = recs[n - 1];
        match rec.0 {
            Some(name) => {
                if !(is_blank(name) || has_symbol(prev, symbol_of(rec))) {
                    let x = symbol_of(rec);
                    let r = prev.push(x);
                    assert(kept_symbols(recs, n) == r);
                    assert forall|i: int, j: int| 0 <= i < j < r.len() implies !(r[i].0 == r[j].0 && r[i].1 == r[j].1
                        && r[i].2 == r[j].2) by {
                        if j == prev.len() {
                            assert(r[i] == prev[i]);
                            assert(!(prev[i].0 == x.0 && prev[i].1 == x.1 && prev[i].2 == x.2));
                        } else {
                            assert(r[i] == prev[i] && r[j] == prev[j]);
                        }
                    }
                    assert forall|i: int| 0 <= i < r.len() implies !is_blank(#[trigger] r[i].0) by {
                        if i < prev.len() {
                            assert(r[i] == prev[i]);
                        }
                    }
                }
            },
            None => {},
        }
    }
}

/// The symbols of a file come in (address, name) order, those without an address last; no two
/// share name, address and size; none has a blank name; and every kept symbol is there, once.
pub proof fn law_symbols_sorted_and_unique(recs: Seq<SymbolRecord>)
    ensures
        symbols_sorted(sorted_symbols(kept_symbols(recs, recs.len() as int))),
        sorted_symbols(kept_symbols(recs, recs.len() as int)).len() == kept_symbols(recs, recs.len() as int).len(),
        forall|y: SymbolView|
            #[trigger] sorted_symbols(kept_symbols(recs, recs.len() as int)).contains(y) <==> kept_symbols(
                recs,
                recs.len() as int,
            ).contains(y),
        forall|i: int, j: int|
            0 <= i < j < kept_symbols(recs, recs.len() as int).len() ==> !(kept_symbols(recs, recs.len() as int)[i].0
                == kept_symbols(recs, recs.len() as int)[j].0 && kept_symbols(recs, recs.len() as int)[i].1
                == kept_symbols(recs, recs.len() as int)[j].1 && kept_symbols(recs, recs.len() as int)[i].2
                == kept_symbols(recs, recs.len() as int)[j].2),
        forall|y: SymbolView|
            #[trigger] sorted_symbols(kept_symbols(recs, recs.len() as int)).contains(y) ==> !is_blank(y.0),
{
    let kept = kept_symbols(recs, recs.len() as int);
    lemma_sorted_symbols(kept);
    lemma_kept_symbols_unique(recs, recs.len() as int);
    assert forall|y: SymbolView| #[trigger] sorted_symbols(kept).contains(y) implies !is_blank(y.0) by {
        let i = choose|i: int| 0 <= i < kept.len() && kept[i] == y;
    }
}

/// The imports of a file: none has a blank name, no two share module and symbol, and each
/// carries the address of the last slot recorded for it.
pub proof fn law_imports_unique(recs: Seq<(Seq<u8>, Seq<u8>)>, slots: Seq<SlotView>, n: int)
    ensures
        forall|i: int, j: int|
            0 <= i < j < imports_upto(recs, slots, n).len() ==> !(imports_upto(recs, slots, n)[i].0 == imports_upto(
                recs,
                slots,
                n,
            )[j].0 && imports_upto(recs, slots, n)[i].1 == imports_upto(recs, slots, n)[j].1),
        forall|i: int|
            0 <= i < imports_upto(recs, slots, n).len() ==> {
                &&& !is_blank(#[trigger] imports_upto(recs, slots, n)[i].1)
                &&& imports_upto(recs, slots, n)[i].2 == slot_lookup(
                    slots,
                    imports_upto(recs, slots, n)[i].0,
                    imports_upto(recs, slots, n)[i].1,
                )
            },
    decreases n,
{
    if n > 0 {
        law_imports_unique(recs, slots, n - 1);
        let prev = imports_upto(recs, slots, n - 1);
        let r = imports_upto(recs, slots, n);
        if r != prev {
            assert forall|i: int, j: int| 0 <= i < j < r.len() implies !(r[i].0 == r[j].0 && r[i].1 == r[j].1) by {
                if j == prev.len() {
                    assert(r[i] == prev[i]);
                } else {
                    assert(r[i] == prev[i] && r[j] == prev[j]);
                }
            }
            assert forall|i: int| 0 <= i < r.len() implies {
                &&& !is_blank(#[trigger] r[i].1)
                &&& r[i].2 == slot_lookup(slots, r[i].0, r[i].1)
            } by {
                if i < prev.len() {
                    assert(r[i] == prev[i]);
                }
            }
        }
    }
}

} // verus!
