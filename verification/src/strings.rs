use vstd::prelude::*;

use crate::annotate::text_opt;
use crate::surface::{
    ascii_run, ascii_spans, covering_mapping, mapped_address, offset_to_address, printable, spans_ordered, unit_ok,
    utf16_run, utf16le_spans, ParsedString, SectionMapping, Span,
};

verus! {

/// The text `String::from_utf8_lossy` makes of `bytes`.
pub uninterp spec fn utf8_lossy_text(bytes: Seq<u8>) -> Seq<char>;

/// The text `String::from_utf16` makes of `units`, if they are valid UTF-16.
pub uninterp spec fn utf16_text(units: Seq<u16>) -> Option<Seq<char>>;

/// The bytes as characters, one each (meant for ASCII).
pub open spec fn byte_chars(bytes: Seq<u8>) -> Seq<char> {
    Seq::new(bytes.len(), |i: int| bytes[i] as char)
}

/// The code units as characters, one each (meant for ASCII).
pub open spec fn unit_chars(units: Seq<u16>) -> Seq<char> {
    Seq::new(units.len(), |i: int| units[i] as char)
}

/// Calls `String::from_utf8_lossy` and takes the text out. Trusted: the result is a function of
/// the bytes; bytes that are all ASCII come back as the same characters, one each (ASCII is
/// valid UTF-8, which std documents is decoded as it is). What it makes of other bytes is not
/// stated.
#[verifier::external_body]
pub(crate) fn utf8_lossy(bytes: &[u8]) -> (r: String)
    ensures
        r@ == utf8_lossy_text(bytes@),
        (forall|i: int| 0 <= i < bytes@.len() ==> #[trigger] bytes@[i] < 0x80) ==> r@ == byte_chars(bytes@),
{
    String::from_utf8_lossy(bytes).to_string()
}

/// Calls `String::from_utf16`. Trusted: the result is a function of the code units; units that
/// are all ASCII decode to the same characters, one each (they are valid UTF-16). What it makes
/// of other units is not stated.
#[verifier::external_body]
pub(crate) fn utf16_decode(units: &[u16]) -> (r: Option<String>)
    ensures
        text_opt(r) == utf16_text(units@),
        (forall|i: int| 0 <= i < units@.len() ==> #[trigger] units@[i] < 0x80) ==> text_opt(r) == Some(
            unit_chars(units@),
        ),
{
    String::from_utf16(units).ok()
}

/// A found string as a value: text, address, file offset, length in bytes, encoding.
pub type StringView = (Seq<char>, Option<u64>, u64, u64, Seq<char>);

/// A string as a value.
pub open spec fn string_view(s: ParsedString) -> StringView {
    (s.value@, s.address, s.offset, s.length, s.encoding@)
}

/// The strings as values.
pub open spec fn string_views(v: Seq<ParsedString>) -> Seq<StringView> {
    Seq::new(v.len(), |i: int| string_view(v[i]))
}

/// The load address of file offset `offset`, from the first mapping that covers it.
pub open spec fn address_of(mappings: Seq<SectionMapping>, offset: u64) -> Option<u64> {
    match covering_mapping(mappings, offset) {
        Some(k) => Some(mapped_address(mappings[k], offset)),
        None => None,
    }
}

/// The ASCII string of span `sp`.
pub open spec fn ascii_item(bytes: Seq<u8>, mappings: Seq<SectionMapping>, sp: Span) -> StringView {
    (
        byte_chars(bytes.subrange(sp.start as int, sp.end as int)),
        address_of(mappings, sp.start as u64),
        sp.start as u64,
        (sp.end - sp.start) as u64,
        "ascii"@,
    )
}

/// The UTF-16LE string of span `sp`: the low byte of each unit, as a character.
pub open spec fn utf16_item(bytes: Seq<u8>, mappings: Seq<SectionMapping>, sp: Span) -> StringView {
    (
        Seq::new(((sp.end - sp.start) / 2) as nat, |i: int| bytes[sp.start + 2 * i] as char),
        address_of(mappings, sp.start as u64),
        sp.start as u64,
        (sp.end - sp.start) as u64,
        "utf16le"@,
    )
}

/// `spans` are the maximal runs of at least four printable ASCII bytes, in order.
pub open spec fn ascii_spans_of(bytes: Seq<u8>, spans: Seq<Span>) -> bool {
    &&& spans_ordered(spans)
    &&& forall|k: int|
        0 <= k < spans.len() ==> ascii_run(bytes, #[trigger] spans[k].start as int, spans[k].end as int)
            && spans[k].end - spans[k].start >= 4
    &&& forall|a: int, b: int|
        ascii_run(bytes, a, b) && b - a >= 4 ==> exists|k: int|
            0 <= k < spans.len() && #[trigger] spans[k].start == a && spans[k].end == b
}

/// `spans` are the maximal runs of at least four printable UTF-16LE units, in order.
pub open spec fn utf16_spans_of(bytes: Seq<u8>, spans: Seq<Span>) -> bool {
    &&& spans_ordered(spans)
    &&& forall|k: int|
        0 <= k < spans.len() ==> utf16_run(bytes, (#[trigger] spans[k]).start as int, spans[k].end as int)
            && spans[k].end - spans[k].start >= 8
    &&& forall|a: int, b: int|
        utf16_run(bytes, a, b) && b - a >= 8 ==> exists|k: int|
            0 <= k < spans.len() && #[trigger] spans[k].start == a && spans[k].end == b
}

/// `x` placed after the last element whose offset is not greater (a stable insertion).
pub open spec fn insert_by_offset(v: Seq<StringView>, x: StringView) -> Seq<StringView>
    decreases v.len(),
{
    if v.len() == 0 {
        seq![x]
    } else if v.last().2 <= x.2 {
        v.push(x)
    } else {
        insert_by_offset(v.drop_last(), x).push(v.last())
    }
}

/// `s` sorted by offset, keeping the order of equal offsets.
pub open spec fn sorted_by_offset(s: Seq<StringView>) -> Seq<StringView>
    decreases s.len(),
{
    if s.len() == 0 {
        Seq::empty()
    } else {
        insert_by_offset(sorted_by_offset(s.drop_last()), s.last())
    }
}

/// The strings of the binary: one per ASCII span, then one per UTF-16LE span, sorted by file
/// offset (stably).
pub open spec fn strings_of(
    bytes: Seq<u8>,
    mappings: Seq<SectionMapping>,
    ascii: Seq<Span>,
    utf16: Seq<Span>,
) -> Seq<StringView> {
    sorted_by_offset(
        Seq::new(ascii.len(), |k: int| ascii_item(bytes, mappings, ascii[k])) + Seq::new(
            utf16.len(),
            |k: int| utf16_item(bytes, mappings, utf16[k]),
        ),
    )
}

/// Inserting where the elements after `p` all have greater offsets and the one before does not.
proof fn lemma_insert_at(v: Seq<StringView>, x: StringView, p: int)
    requires
        0 <= p <= v.len(),
        forall|j: int| p <= j < v.len() ==> (#[trigger] v[j]).2 > x.2,
        p > 0 ==> v[p - 1].2 <= x.2,
    ensures
        insert_by_offset(v, x) == v.insert(p, x),
    decreases v.len(),
{
    if v.len() == 0 {
        assert(v.insert(p, x) =~= seq![x]);
    } else if p == v.len() {
        assert(v.insert(p, x) =~= v.push(x));
    } else {
        assert(v.last().2 > x.2);
        lemma_insert_at(v.drop_last(), x, p);
        assert(v.drop_last().insert(p, x).push(v.last()) =~= v.insert(p, x));
    }
}

/// Puts `s` into the list, after the last string whose offset is not greater.
fn insert_string(v: &mut Vec<ParsedString>, s: ParsedString)
    ensures
        string_views(final(v)@) == insert_by_offset(string_views(old(v)@), string_view(s)),
{
    let ghost before = string_views(v@);
    let mut p: usize = v.len();
    while p > 0 && v[p - 1].offset > s.offset
        invariant
            p <= v@.len(),
            before == string_views(v@),
            forall|j: int| p <= j < v@.len() ==> (#[trigger] v@[j]).offset > s.offset,
        decreases p,
    {
        p -= 1;
    }
    proof {
        lemma_insert_at(before, string_view(s), p as int);
    }
    v.insert(p, s);
    assert(string_views(v@) =~= before.insert(p as int, string_view(s)));
}

/// The low bytes of the UTF-16LE units of `bytes[start..end)`.
fn code_units(bytes: &[u8], start: usize, end: usize) -> (r: Vec<u16>)
    requires
        start <= end <= bytes@.len(),
        (end - start) % 2 == 0,
    ensures
        r@.len() == (end - start) / 2,
        forall|i: int| 0 <= i < r@.len() ==> #[trigger] r@[i] == bytes@[start + 2 * i] + 256 * bytes@[start + 2 * i + 1],
{
    let mut r: Vec<u16> = Vec::new();
    let mut i: usize = start;
    while i < end
        invariant
            start <= i <= end <= bytes@.len(),
            (end - start) % 2 == 0,
            (i - start) % 2 == 0,
            r@.len() == (i - start) / 2,
            forall|k: int| 0 <= k < r@.len() ==> #[trigger] r@[k] == bytes@[start + 2 * k] + 256 * bytes@[start + 2 * k + 1],
        decreases end - i,
    {
        let lo = bytes[i] as u16;
        let hi = bytes[i + 1] as u16;
        r.push(lo + 256 * hi);
        i += 2;
    }
    r
}

/// Law of string collection: the strings of a binary are one per ASCII span and one per UTF-16LE
/// span, each of them there, ordered by file offset.
pub proof fn law_strings_ordered_by_offset(bytes: Seq<u8>, mappings: Seq<SectionMapping>, ascii: Seq<Span>, utf16: Seq<Span>)
    ensures
        strings_of(bytes, mappings, ascii, utf16).len() == ascii.len() + utf16.len(),
        offsets_sorted(strings_of(bytes, mappings, ascii, utf16)),
        forall|k: int| 0 <= k < ascii.len() ==> strings_of(bytes, mappings, ascii, utf16).contains(
            #[trigger] ascii_item(bytes, mappings, ascii[k]),
        ),
        forall|k: int| 0 <= k < utf16.len() ==> strings_of(bytes, mappings, ascii, utf16).contains(
            #[trigger] utf16_item(bytes, mappings, utf16[k]),
        ),
{
    let items = Seq::new(ascii.len(), |k: int| ascii_item(bytes, mappings, ascii[k])) + Seq::new(
        utf16.len(),
        |k: int| utf16_item(bytes, mappings, utf16[k]),
    );
    lemma_sorted_by_offset(items);
    assert forall|k: int| 0 <= k < ascii.len() implies items.contains(#[trigger] ascii_item(bytes, mappings, ascii[k])) by {
        assert(items[k] == ascii_item(bytes, mappings, ascii[k]));
    }
    assert forall|k: int| 0 <= k < utf16.len() implies items.contains(#[trigger] utf16_item(bytes, mappings, utf16[k])) by {
        assert(items[ascii.len() + k] == utf16_item(bytes, mappings, utf16[k]));
    }
}

/// The strings of the binary's bytes: runs of at least four printable ASCII bytes and of at
/// least four printable UTF-16LE characters, each with its load address when a mapping covers
/// its offset, sorted by file offset.
pub fn collect_strings(bytes: &[u8], mappings: &[SectionMapping]) -> (r: Vec<ParsedString>)
    ensures
        exists|ascii: Seq<Span>, utf16: Seq<Span>|
            ascii_spans_of(bytes@, ascii) && utf16_spans_of(bytes@, utf16) && string_views(r@)
                == strings_of(bytes@, mappings@, ascii, utf16),
{
    let ascii = ascii_spans(bytes);
    let utf16 = utf16le_spans(bytes);
    let ghost items = Seq::new(ascii@.len(), |k: int| ascii_item(bytes@, mappings@, ascii@[k])) + Seq::new(
        utf16@.len(),
        |k: int| utf16_item(bytes@, mappings@, utf16@[k]),
    );
    let mut strings: Vec<ParsedString> = Vec::new();
    let mut k: usize = 0;
    while k < ascii.len()
        invariant
            k <= ascii@.len(),
            ascii_spans_of(bytes@, ascii@),
            items.len() == ascii@.len() + utf16@.len(),
            forall|q: int| 0 <= q < ascii@.len() ==> items[q] == ascii_item(bytes@, mappings@, #[trigger] ascii@[q]),
            string_views(strings@) == sorted_by_offset(items.subrange(0, k as int)),
        decreases ascii@.len() - k,
    {
        let sp = ascii[k];
        assert(ascii_run(bytes@, sp.start as int, sp.end as int));
        let run = slice_of(bytes, sp.start, sp.end);
        proof {
            assert forall|i: int| 0 <= i < run@.len() implies #[trigger] run@[i] < 0x80 by {
                assert(printable(bytes@[sp.start + i]));
            }
        }
        let value = utf8_lossy(run.as_slice());
        let offset = sp.start as u64;
        let address = offset_to_address(offset, mappings);
        let s = ParsedString {
            value,
            address,
            offset,
            length: (sp.end - sp.start) as u64,
            encoding: crate::text::string_of("ascii"),
        };
        assert(string_view(s) == items[k as int]);
        insert_string(&mut strings, s);
        assert(items.subrange(0, k + 1).drop_last() =~= items.subrange(0, k as int));
        k += 1;
    }
    let mut u: usize = 0;
    while u < utf16.len()
        invariant
            u <= utf16@.len(),
            ascii_spans_of(bytes@, ascii@),
            utf16_spans_of(bytes@, utf16@),
            items.len() == ascii@.len() + utf16@.len(),
            forall|q: int|
                0 <= q < utf16@.len() ==> items[ascii@.len() + q] == utf16_item(bytes@, mappings@, #[trigger] utf16@[q]),
            string_views(strings@) == sorted_by_offset(items.subrange(0, ascii@.len() + u)),
        decreases utf16@.len() - u,
    {
        let sp = utf16[u];
        assert(utf16_run(bytes@, sp.start as int, sp.end as int));
        let units = code_units(bytes, sp.start, sp.end);
        proof {
            assert forall|i: int| 0 <= i < units@.len() implies #[trigger] units@[i] < 0x80 && units@[i] == bytes@[sp.start + 2 * i] by {
                assert(unit_ok(bytes@, sp.start + 2 * i));
            }
        }
        let value = match utf16_decode(units.as_slice()) {
            Some(v) => v,
            None => String::new(),
        };
        let offset = sp.start as u64;
        let address = offset_to_address(offset, mappings);
        let s = ParsedString {
            value,
            address,
            offset,
            length: (sp.end - sp.start) as u64,
            encoding: crate::text::string_of("utf16le"),
        };
        assert(s.value@ =~= utf16_item(bytes@, mappings@, sp).0);
        assert(string_view(s) == items[ascii@.len() + u]);
        insert_string(&mut strings, s);
        assert(items.subrange(0, ascii@.len() + u + 1).drop_last() =~= items.subrange(0, ascii@.len() + u));
        u += 1;
    }
    assert(items.subrange(0, items.len() as int) =~= items);
    assert(string_views(strings@) == strings_of(bytes@, mappings@, ascii@, utf16@));
    strings
}

/// The bytes of `bytes[start..end)`.
fn slice_of(bytes: &[u8], start: usize, end: usize) -> (r: Vec<u8>)
    requires
        start <= end <= bytes@.len(),
    ensures
        r@ == bytes@.subrange(start as int, end as int),
{
    let mut r: Vec<u8> = Vec::new();
    let mut i: usize = start;
    while i < end
        invariant
            start <= i <= end <= bytes@.len(),
            r@ == bytes@.subrange(start as int, i as int),
        decreases end - i,
    {
        r.push(bytes[i]);
        i += 1;
        assert(r@ =~= bytes@.subrange(start as int, i as int));
    }
    r
}

/// The strings are in file-offset order.
pub open spec fn offsets_sorted(v: Seq<StringView>) -> bool {
    forall|i: int, j: int| 0 <= i < j < v.len() ==> v[i].2 <= v[j].2
}

/// Inserting keeps the order, adds one string and keeps the others.
proof fn lemma_insert_by_offset(v: Seq<StringView>, x: StringView)
    requires
        offsets_sorted(v),
    ensures
        offsets_sorted(insert_by_offset(v, x)),
        insert_by_offset(v, x).len() == v.len() + 1,
        forall|y: StringView| #[trigger] insert_by_offset(v, x).contains(y) <==> (v.contains(y) || y == x),
    decreases v.len(),
{
    let r = insert_by_offset(v, x);
    if v.len() == 0 {
        assert(r =~= seq![x]);
        assert forall|y: StringView| #[trigger] r.contains(y) <==> (v.contains(y) || y == x) by {
            if r.contains(y) {
                assert(r[0] == x);
            }
            if y == x {
                assert(r[0] == y);
            }
        }
    } else if v.last().2 <= x.2 {
        assert forall|y: StringView| #[trigger] r.contains(y) <==> (v.contains(y) || y == x) by {
            if r.contains(y) {
                let i = choose|i: int| 0 <= i < r.len() && r[i] == y;
                if i < v.len() {
                    assert(v[i] == y);
                }
            }
            if v.contains(y) {
                let i = choose|i: int| 0 <= i < v.len() && v[i] == y;
                assert(r[i] == y);
            }
            if y == x {
                assert(r[v.len() as int] == y);
            }
        }
    } else {
        let w = v.drop_last();
        assert(offsets_sorted(w));
        lemma_insert_by_offset(w, x);
        let rw = insert_by_offset(w, x);
        assert(r == rw.push(v.last()));
        assert forall|i: int, j: int| 0 <= i < j < r.len() implies r[i].2 <= r[j].2 by {
            if j == r.len() - 1 && i < rw.len() {
                assert(rw.contains(rw[i]));
                if rw[i] == x {
                } else {
                    assert(w.contains(rw[i]));
                    let k = choose|k: int| 0 <= k < w.len() && w[k] == rw[i];
                    assert(v[k] == w[k]);
                }
            }
        }
        assert forall|y: StringView| #[trigger] r.contains(y) <==> (v.contains(y) || y == x) by {
            if r.contains(y) {
                let i = choose|i: int| 0 <= i < r.len() && r[i] == y;
                if i < rw.len() {
                    assert(rw.contains(y));
                    if w.contains(y) {
                        let k = choose|k: int| 0 <= k < w.len() && w[k] == y;
                        assert(v[k] == y);
                    }
                } else {
                    assert(v[v.len() - 1] == y);
                }
            }
            if v.contains(y) {
                let i = choose|i: int| 0 <= i < v.len() && v[i] == y;
                if i < v.len() - 1 {
                    assert(w[i] == y);
                    assert(rw.contains(y));
                    let k = choose|k: int| 0 <= k < rw.len() && rw[k] == y;
                    assert(r[k] == y);
                } else {
                    assert(r[r.len() - 1] == y);
                }
            }
            if y == x {
                assert(rw.contains(y));
                let k = choose|k: int| 0 <= k < rw.len() && rw[k] == y;
                assert(r[k] == y);
            }
        }
    }
}

/// Sorting orders by offset and keeps every string, one for one.
proof fn lemma_sorted_by_offset(s: Seq<StringView>)
    ensures
        offsets_sorted(sorted_by_offset(s)),
        sorted_by_offset(s).len() == s.len(),
        forall|y: StringView| #[trigger] sorted_by_offset(s).contains(y) <==> s.contains(y),
    decreases s.len(),
{
    if s.len() > 0 {
        lemma_sorted_by_offset(s.drop_last());
        lemma_insert_by_offset(sorted_by_offset(s.drop_last()), s.last());
        assert forall|y: StringView| #[trigger] sorted_by_offset(s).contains(y) <==> s.contains(y) by {
            if s.contains(y) {
                let i = choose|i: int| 0 <= i < s.len() && s[i] == y;
                if i < s.len() - 1 {
                    assert(s.drop_last()[i] == y);
                }
            }
            if s.drop_last().contains(y) {
                let i = choose|i: int| 0 <= i < s.drop_last().len() && s.drop_last()[i] == y;
                assert(s[i] == y);
            }
        }
    }
}

/// The strings of a binary come in file-offset order: one for each ASCII span and each
/// UTF-16LE span, none left out and none added.
pub proof fn law_strings_sorted_by_offset(
    bytes: Seq<u8>,
    mappings: Seq<SectionMapping>,
    ascii: Seq<Span>,
    utf16: Seq<Span>,
)
    ensures
        offsets_sorted(strings_of(bytes, mappings, ascii, utf16)),
        strings_of(bytes, mappings, ascii, utf16).len() == ascii.len() + utf16.len(),
        forall|k: int|
            0 <= k < ascii.len() ==> strings_of(bytes, mappings, ascii, utf16).contains(
                ascii_item(bytes, mappings, #[trigger] ascii[k]),
            ),
        forall|k: int|
            0 <= k < utf16.len() ==> strings_of(bytes, mappings, ascii, utf16).contains(
                utf16_item(bytes, mappings, #[trigger] utf16[k]),
            ),
{
    let items = Seq::new(ascii.len(), |k: int| ascii_item(bytes, mappings, ascii[k])) + Seq::new(
        utf16.len(),
        |k: int| utf16_item(bytes, mappings, utf16[k]),
    );
    lemma_sorted_by_offset(items);
    assert forall|k: int| 0 <= k < ascii.len() implies strings_of(bytes, mappings, ascii, utf16).contains(
        ascii_item(bytes, mappings, #[trigger] ascii[k]),
    ) by {
        assert(items[k] == ascii_item(bytes, mappings, ascii[k]));
        assert(items.contains(items[k]));
    }
    assert forall|k: int| 0 <= k < utf16.len() implies strings_of(bytes, mappings, ascii, utf16).contains(
        utf16_item(bytes, mappings, #[trigger] utf16[k]),
    ) by {
        assert(items[ascii.len() + k] == utf16_item(bytes, mappings, utf16[k]));
        assert(items.contains(items[ascii.len() + k]));
    }
}

/// Two strictly ordered span lists that both list exactly the spans `[a, b)` with `p(a, b)`,
/// where every such span is non-empty, are the same list.
proof fn lemma_spans_unique(s1: Seq<Span>, s2: Seq<Span>, p: spec_fn(int, int) -> bool)
    requires
        spans_ordered(s1),
        spans_ordered(s2),
        forall|k: int| 0 <= k < s1.len() ==> #[trigger] p(s1[k].start as int, s1[k].end as int),
        forall|k: int| 0 <= k < s2.len() ==> #[trigger] p(s2[k].start as int, s2[k].end as int),
        forall|a: int, b: int| #[trigger] p(a, b) ==> a < b,
        forall|a: int, b: int|
            #![trigger p(a, b)]
            p(a, b) ==> exists|k: int| 0 <= k < s1.len() && #[trigger] s1[k].start == a && s1[k].end == b,
        forall|a: int, b: int|
            #![trigger p(a, b)]
            p(a, b) ==> exists|k: int| 0 <= k < s2.len() && #[trigger] s2[k].start == a && s2[k].end == b,
    ensures
        s1 == s2,
{
    let n = if s1.len() < s2.len() {
        s1.len() as int
    } else {
        s2.len() as int
    };
    lemma_spans_agree_upto(s1, s2, p, n);
    if s1.len() != s2.len() {
        if s1.len() > s2.len() {
            let x = s1[n];
            assert(p(x.start as int, x.end as int));
            let j = choose|j: int| 0 <= j < s2.len() && #[trigger] s2[j].start == x.start && s2[j].end == x.end;
            assert(s1[j] == s2[j]);
            lemma_ordered_starts(s1, j, n);
        } else {
            let x = s2[n];
            assert(p(x.start as int, x.end as int));
            let j = choose|j: int| 0 <= j < s1.len() && #[trigger] s1[j].start == x.start && s1[j].end == x.end;
            assert(s1[j] == s2[j]);
            lemma_ordered_starts(s2, j, n);
        }
    }
    assert(s1 =~= s2);
}

/// In a strictly ordered list of non-empty spans, an earlier span starts before a later one.
proof fn lemma_ordered_starts(s: Seq<Span>, j: int, k: int)
    requires
        spans_ordered(s),
        0 <= j < k < s.len(),
        s[j].start < s[j].end,
    ensures
        s[j].start < s[k].start,
{
    assert(s[j].end < s[k].start);
}

/// Two such lists agree on their first `i` spans.
proof fn lemma_spans_agree_upto(s1: Seq<Span>, s2: Seq<Span>, p: spec_fn(int, int) -> bool, i: int)
    requires
        spans_ordered(s1),
        spans_ordered(s2),
        forall|k: int| 0 <= k < s1.len() ==> #[trigger] p(s1[k].start as int, s1[k].end as int),
        forall|k: int| 0 <= k < s2.len() ==> #[trigger] p(s2[k].start as int, s2[k].end as int),
        forall|a: int, b: int| #[trigger] p(a, b) ==> a < b,
        forall|a: int, b: int|
            #![trigger p(a, b)]
            p(a, b) ==> exists|k: int| 0 <= k < s1.len() && #[trigger] s1[k].start == a && s1[k].end == b,
        forall|a: int, b: int|
            #![trigger p(a, b)]
            p(a, b) ==> exists|k: int| 0 <= k < s2.len() && #[trigger] s2[k].start == a && s2[k].end == b,
        0 <= i <= s1.len(),
        i <= s2.len(),
    ensures
        forall|j: int| 0 <= j < i ==> #[trigger] s1[j] == s2[j],
    decreases i,
{
    if i > 0 {
        let m = i - 1;
        lemma_spans_agree_upto(s1, s2, p, m);
        let y = s2[m];
        assert(p(y.start as int, y.end as int));
        let k = choose|k: int| 0 <= k < s1.len() && #[trigger] s1[k].start == y.start && s1[k].end == y.end;
        let x = s1[m];
        assert(p(x.start as int, x.end as int));
        let j = choose|j: int| 0 <= j < s2.len() && #[trigger] s2[j].start == x.start && s2[j].end == x.end;
        if k < m {
            assert(s1[k] == s2[k]);
            assert(s2[k].start < s2[k].end);
            lemma_ordered_starts(s2, k, m);
        } else if k > m {
            assert(s1[m].start < s1[m].end);
            lemma_ordered_starts(s1, m, k);
            if j < m {
                assert(s1[j] == s2[j]);
                assert(s1[j].start < s1[j].end);
                lemma_ordered_starts(s1, j, m);
            } else if j > m {
                assert(s2[m].start < s2[m].end);
                lemma_ordered_starts(s2, m, j);
            }
        }
        assert(k == m);
        assert(s1[m] == s2[m]);
    }
}

/// The spans of maximal ASCII runs of a text are unique, and so are those of maximal UTF-16LE
/// runs.
pub proof fn lemma_string_spans_unique(
    bytes: Seq<u8>,
    a1: Seq<Span>,
    u1: Seq<Span>,
    a2: Seq<Span>,
    u2: Seq<Span>,
)
    requires
        ascii_spans_of(bytes, a1),
        ascii_spans_of(bytes, a2),
        utf16_spans_of(bytes, u1),
        utf16_spans_of(bytes, u2),
    ensures
        a1 == a2,
        u1 == u2,
{
    let p = |a: int, b: int| ascii_run(bytes, a, b) && b - a >= 4;
    assert forall|k: int| 0 <= k < a1.len() implies #[trigger] p(a1[k].start as int, a1[k].end as int) by {
        assert(ascii_run(bytes, a1[k].start as int, a1[k].end as int));
    }
    assert forall|k: int| 0 <= k < a2.len() implies #[trigger] p(a2[k].start as int, a2[k].end as int) by {
        assert(ascii_run(bytes, a2[k].start as int, a2[k].end as int));
    }
    lemma_spans_unique(a1, a2, p);
    let q = |a: int, b: int| utf16_run(bytes, a, b) && b - a >= 8;
    assert forall|k: int| 0 <= k < u1.len() implies #[trigger] q(u1[k].start as int, u1[k].end as int) by {
        assert(utf16_run(bytes, u1[k].start as int, u1[k].end as int));
    }
    assert forall|k: int| 0 <= k < u2.len() implies #[trigger] q(u2[k].start as int, u2[k].end as int) by {
        assert(utf16_run(bytes, u2[k].start as int, u2[k].end as int));
    }
    lemma_spans_unique(u1, u2, q);
}

} // verus!
