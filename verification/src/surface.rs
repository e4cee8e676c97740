use vstd::prelude::*;
use sha2::Digest;

use crate::decode::{bytes_hex, bytes_hex_spec, lemma_bytes_hex_len};
use crate::text::{contains_text, occurs_at};

verus! {

/// Whether a byte is printable ASCII (space through `~`).
pub open spec fn printable(b: u8) -> bool {
    0x20 <= b <= 0x7e
}

/// Whether a byte is printable ASCII (space through `~`).
pub fn is_printable_ascii(byte: u8) -> (r: bool)
    ensures
        r == printable(byte),
{
    0x20 <= byte && byte <= 0x7e
}

/// A half-open byte range `[start, end)`.
#[derive(Clone, Copy, Debug, PartialEq, Eq, Structural)]
pub struct Span {
    pub start: usize,
    pub end: usize,
}

/// `[a, b)` is a maximal run of printable bytes of `bytes`.
pub open spec fn ascii_run(bytes: Seq<u8>, a: int, b: int) -> bool {
    &&& 0 <= a < b <= bytes.len()
    &&& forall|i: int| a <= i < b ==> printable(#[trigger] bytes[i])
    &&& (a == 0 || !printable(bytes[a - 1]))
    &&& (b == bytes.len() || !printable(bytes[b]))
}

/// The spans are in increasing order and do not overlap.
pub open spec fn spans_ordered(v: Seq<Span>) -> bool {
    forall|k: int, l: int| 0 <= k < l < v.len() ==> v[k].end < v[l].start
}

/// The runs of at least four printable ASCII bytes, in order.
pub fn ascii_spans(bytes: &[u8]) -> (r: Vec<Span>)
    ensures
        spans_ordered(r@),
        forall|k: int|
            0 <= k < r@.len() ==> ascii_run(bytes@, #[trigger] r@[k].start as int, r@[k].end as int)
                && r@[k].end - r@[k].start >= 4,
        forall|a: int, b: int|
            ascii_run(bytes@, a, b) && b - a >= 4 ==> exists|k: int|
                0 <= k < r@.len() && #[trigger] r@[k].start == a && r@[k].end == b,
{
    let mut spans: Vec<Span> = Vec::new();
    let mut start: Option<usize> = None;
    let n = bytes.len();
    let mut index: usize = 0;
    while index < n
        invariant
            n == bytes@.len(),
            index <= n,
            spans_ordered(spans@),
            forall|k: int|
                0 <= k < spans@.len() ==> ascii_run(bytes@, (#[trigger] spans@[k]).start as int, spans@[k].end as int)
                    && spans@[k].end - spans@[k].start >= 4 && spans@[k].end < index,
            forall|a: int, b: int|
                ascii_run(bytes@, a, b) && b - a >= 4 && b < index ==> exists|k: int|
                    0 <= k < spans@.len() && #[trigger] spans@[k].start == a && spans@[k].end == b,
            match start {
                Some(s) => s < index && (s == 0 || !printable(bytes@[s - 1])) && forall|i: int|
                    s <= i < index ==> printable(#[trigger] bytes@[i]),
                None => index == 0 || !printable(bytes@[index - 1]),
            },
            forall|k: int| 0 <= k < spans@.len() ==> match start {
                Some(s) => (#[trigger] spans@[k]).end < s,
                None => true,
            },
        decreases n - index,
    {
        let byte = bytes[index];
        if is_printable_ascii(byte) {
            if start.is_none() {
                start = Some(index);
            }
        } else {
            match start {
                Some(span_start) => {
                    start = None;
                    if index - span_start >= 4 {
                        let ghost before = spans@;
                        spans.push(Span { start: span_start, end: index });
                        proof {
                            assert(ascii_run(bytes@, span_start as int, index as int));
                            assert forall|k: int| 0 <= k < spans@.len() implies ascii_run(bytes@, (#[trigger] spans@[k]).start as int, spans@[k].end as int)
                                && spans@[k].end - spans@[k].start >= 4 && spans@[k].end < index + 1 by {
                                if k < before.len() {
                                    assert(spans@[k] == before[k]);
                                }
                            }
                            assert forall|a: int, b: int|
                                ascii_run(bytes@, a, b) && b - a >= 4 && b < index + 1 implies exists|k: int|
                                    0 <= k < spans@.len() && #[trigger] spans@[k].start == a
                                        && spans@[k].end == b by {
                                if b == index {
                                    if a < span_start {
                                        assert(printable(bytes@[span_start - 1]));
                                    } else if a > span_start {
                                        assert(printable(bytes@[a - 1]));
                                    }
                                    assert(spans@[spans@.len() - 1].start == a);
                                } else {
                                    let k = choose|k: int|
                                        0 <= k < before.len() && #[trigger] before[k].start == a
                                            && before[k].end == b;
                                    assert(spans@[k] == before[k]);
                                }
                            }
                        }
                    } else {
                        proof {
                            assert forall|a: int, b: int|
                                ascii_run(bytes@, a, b) && b - a >= 4 && b < index + 1 implies exists|k: int|
                                    0 <= k < spans@.len() && #[trigger] spans@[k].start == a
                                        && spans@[k].end == b by {
                                if b == index {
                                    if a < span_start {
                                        assert(printable(bytes@[span_start - 1]));
                                    } else if a > span_start {
                                        assert(printable(bytes@[a - 1]));
                                    }
                                }
                            }
                        }
                    }
                },
                None => {
                    proof {
                        assert forall|a: int, b: int|
                            ascii_run(bytes@, a, b) && b - a >= 4 && b < index + 1 implies exists|k: int|
                                0 <= k < spans@.len() && #[trigger] spans@[k].start == a
                                    && spans@[k].end == b by {
                            if b == index {
                                assert(printable(bytes@[b - 1]));
                            }
                        }
                    }
                },
            }
        }
        index += 1;
    }
    match start {
        Some(span_start) => {
            if n - span_start >= 4 {
                let ghost before = spans@;
                spans.push(Span { start: span_start, end: n });
                proof {
                    assert forall|a: int, b: int| ascii_run(bytes@, a, b) && b - a >= 4 implies exists|k: int|
                        0 <= k < spans@.len() && #[trigger] spans@[k].start == a && spans@[k].end == b by {
                        if b == n {
                            if a < span_start {
                                assert(printable(bytes@[span_start - 1]));
                            } else if a > span_start {
                                assert(printable(bytes@[a - 1]));
                            }
                            assert(spans@[spans@.len() - 1].start == a);
                        } else {
                            let k = choose|k: int|
                                0 <= k < before.len() && #[trigger] before[k].start == a && before[k].end == b;
                            assert(spans@[k] == before[k]);
                        }
                    }
                }
            } else {
                proof {
                    assert forall|a: int, b: int| ascii_run(bytes@, a, b) && b - a >= 4 implies exists|k: int|
                        0 <= k < spans@.len() && #[trigger] spans@[k].start == a && spans@[k].end == b by {
                        if b == n {
                            if a < span_start {
                                assert(printable(bytes@[span_start - 1]));
                            } else if a > span_start {
                                assert(printable(bytes@[a - 1]));
                            }
                        }
                    }
                }
            }
        },
        None => {
            proof {
                assert forall|a: int, b: int| ascii_run(bytes@, a, b) && b - a >= 4 implies exists|k: int|
                    0 <= k < spans@.len() && #[trigger] spans@[k].start == a && spans@[k].end == b by {
                    if b == n {
                        assert(printable(bytes@[b - 1]));
                    }
                }
            }
        },
    }
    spans
}

/// Whether the two bytes at `i` form a printable ASCII character in UTF-16LE.
pub open spec fn unit_ok(bytes: Seq<u8>, i: int) -> bool {
    0 <= i && i + 1 < bytes.len() && bytes[i + 1] == 0 && printable(bytes[i])
}

/// The end of the last whole two-byte unit.
pub open spec fn units_limit(len: nat) -> int {
    len - len % 2
}

/// `[a, b)` is a maximal run of printable UTF-16LE units starting at an even offset.
pub open spec fn utf16_run(bytes: Seq<u8>, a: int, b: int) -> bool {
    &&& a % 2 == 0 && b % 2 == 0
    &&& 0 <= a < b <= units_limit(bytes.len())
    &&& forall|i: int| a <= i < b && i % 2 == 0 ==> #[trigger] unit_ok(bytes, i)
    &&& (a == 0 || !unit_ok(bytes, a - 2))
    &&& (b == units_limit(bytes.len()) || !unit_ok(bytes, b))
}

/// The runs of at least four printable UTF-16LE characters at even offsets, in order.
pub fn utf16le_spans(bytes: &[u8]) -> (r: Vec<Span>)
    ensures
        spans_ordered(r@),
        forall|k: int|
            0 <= k < r@.len() ==> utf16_run(bytes@, (#[trigger] r@[k]).start as int, r@[k].end as int)
                && r@[k].end - r@[k].start >= 8,
        forall|a: int, b: int|
            utf16_run(bytes@, a, b) && b - a >= 8 ==> exists|k: int|
                0 <= k < r@.len() && #[trigger] r@[k].start == a && r@[k].end == b,
{
    let mut spans: Vec<Span> = Vec::new();
    let mut start: Option<usize> = None;
    let n = bytes.len();
    let mut index: usize = 0;
    while index + 1 < n
        invariant
            n == bytes@.len(),
            index % 2 == 0,
            index <= units_limit(n as nat),
            spans_ordered(spans@),
            forall|k: int|
                0 <= k < spans@.len() ==> utf16_run(bytes@, (#[trigger] spans@[k]).start as int, spans@[k].end as int)
                    && spans@[k].end - spans@[k].start >= 8 && spans@[k].end < index,
            forall|a: int, b: int|
                utf16_run(bytes@, a, b) && b - a >= 8 && b < index ==> exists|k: int|
                    0 <= k < spans@.len() && #[trigger] spans@[k].start == a && spans@[k].end == b,
            match start {
                Some(s) => s < index && s % 2 == 0 && (s == 0 || !unit_ok(bytes@, s - 2)) && forall|i: int|
                    s <= i < index && i % 2 == 0 ==> #[trigger] unit_ok(bytes@, i),
                None => index == 0 || !unit_ok(bytes@, index - 2),
            },
            forall|k: int| 0 <= k < spans@.len() ==> match start {
                Some(s) => (#[trigger] spans@[k]).end < s,
                None => true,
            },
        decreases n - index,
    {
        let lo = bytes[index];
        let hi = bytes[index + 1];
        if hi == 0 && is_printable_ascii(lo) {
            assert(unit_ok(bytes@, index as int));
            if start.is_none() {
                start = Some(index);
            }
        } else {
            assert(!unit_ok(bytes@, index as int));
            match start {
                Some(span_start) => {
                    start = None;
                    let ghost before = spans@;
                    if index - span_start >= 8 {
                        spans.push(Span { start: span_start, end: index });
                        proof {
                            assert(utf16_run(bytes@, span_start as int, index as int));
                            assert forall|k: int| 0 <= k < spans@.len() implies utf16_run(bytes@, (#[trigger] spans@[k]).start as int, spans@[k].end as int)
                                && spans@[k].end - spans@[k].start >= 8 && spans@[k].end < index + 2 by {
                                if k < before.len() {
                                    assert(spans@[k] == before[k]);
                                }
                            }
                        }
                    }
                    proof {
                        assert forall|a: int, b: int|
                            utf16_run(bytes@, a, b) && b - a >= 8 && b < index + 2 implies exists|k: int|
                                0 <= k < spans@.len() && #[trigger] spans@[k].start == a
                                    && spans@[k].end == b by {
                            if b == index {
                                if a < span_start {
                                    assert(unit_ok(bytes@, span_start - 2));
                                } else if a > span_start {
                                    assert(unit_ok(bytes@, a - 2));
                                }
                                assert(spans@[spans@.len() - 1].start == a);
                            } else if b < index {
                                let k = choose|k: int|
                                    0 <= k < before.len() && #[trigger] before[k].start == a
                                        && before[k].end == b;
                                assert(spans@[k] == before[k]);
                            }
                        }
                    }
                },
                None => {
                    proof {
                        assert forall|a: int, b: int|
                            utf16_run(bytes@, a, b) && b - a >= 8 && b < index + 2 implies exists|k: int|
                                0 <= k < spans@.len() && #[trigger] spans@[k].start == a
                                    && spans@[k].end == b by {
                            if b == index {
                                assert(unit_ok(bytes@, b - 2));
                            }
                        }
                    }
                },
            }
        }
        index += 2;
    }
    assert(index == units_limit(n as nat));
    match start {
        Some(span_start) => {
            let ghost before = spans@;
            if index - span_start >= 8 {
                spans.push(Span { start: span_start, end: index });
                proof {
                    assert forall|k: int| 0 <= k < spans@.len() implies utf16_run(bytes@, (#[trigger] spans@[k]).start as int, spans@[k].end as int)
                        && spans@[k].end - spans@[k].start >= 8 by {
                        if k < before.len() {
                            assert(spans@[k] == before[k]);
                        }
                    }
                }
            }
            proof {
                assert forall|a: int, b: int| utf16_run(bytes@, a, b) && b - a >= 8 implies exists|k: int|
                    0 <= k < spans@.len() && #[trigger] spans@[k].start == a && spans@[k].end == b by {
                    if b == index {
                        if a < span_start {
                            assert(unit_ok(bytes@, span_start - 2));
                        } else if a > span_start {
                            assert(unit_ok(bytes@, a - 2));
                        }
                        assert(spans@[spans@.len() - 1].start == a);
                    } else {
                        let k = choose|k: int|
                            0 <= k < before.len() && #[trigger] before[k].start == a && before[k].end == b;
                        assert(spans@[k] == before[k]);
                    }
                }
            }
        },
        None => {
            proof {
                assert forall|a: int, b: int| utf16_run(bytes@, a, b) && b - a >= 8 implies exists|k: int|
                    0 <= k < spans@.len() && #[trigger] spans@[k].start == a && spans@[k].end == b by {
                    if b == index {
                        assert(unit_ok(bytes@, b - 2));
                    }
                }
            }
        },
    }
    spans
}

/// ASCII upper-case letters lowered; every other character kept.
pub open spec fn ascii_lower(c: char) -> char {
    if 'A' <= c <= 'Z' {
        ((c as u32) + 32) as char
    } else {
        c
    }
}

/// `s` with its ASCII letters lowered.
pub open spec fn lower_text(s: Seq<char>) -> Seq<char> {
    s.map_values(|c: char| ascii_lower(c))
}

pub(crate) fn ascii_lower_exec(c: char) -> (r: char)
    ensures
        r == ascii_lower(c),
{
    if 'A' <= c && c <= 'Z' {
        ((c as u8) + 32) as char
    } else {
        c
    }
}

/// The one-letter string of the lower-case form of ASCII letter `c`.
fn lower_letter(c: char) -> (r: &'static str)
    requires
        'A' <= c <= 'Z',
    ensures
        r@ == seq![ascii_lower(c)],
{
    let letters = "abcdefghijklmnopqrstuvwxyz";
    proof {
        reveal_strlit("abcdefghijklmnopqrstuvwxyz");
    }
    let k = (c as u32 - 65) as usize;
    assert(letters@[k as int] == ascii_lower(c));
    letters.substring_char(k, k + 1)
}

/// `s` with its ASCII letters `A` to `Z` lowered, every other character kept.
pub(crate) fn lowered(s: &str) -> (r: String)
    ensures
        r@ == lower_text(s@),
{
    let n = s.unicode_len();
    let mut r = String::new();
    let mut i: usize = 0;
    while i < n
        invariant
            n == s@.len(),
            i <= n,
            r@ == lower_text(s@.subrange(0, i as int)),
        decreases n - i,
    {
        let c = s.get_char(i);
        if 'A' <= c && c <= 'Z' {
            r.append(lower_letter(c));
        } else {
            r.append(s.substring_char(i, i + 1));
        }
        assert(lower_text(s@.subrange(0, i + 1)) =~= lower_text(s@.subrange(0, i as int)) + seq![ascii_lower(c)]);
        i += 1;
    }
    assert(s@.subrange(0, n as int) =~= s@);
    r
}

/// Whether `needle` occurs in `s` with the ASCII letters of `s` lowered.
pub(crate) fn contains_lowered(s: &str, needle: &str) -> (r: bool)
    ensures
        r == contains_text(lower_text(s@), needle@),
{
    let n = s.unicode_len();
    let p = needle.unicode_len();
    let ghost lower = lower_text(s@);
    if p > n {
        proof {
            assert forall|at: int| !occurs_at(lower, needle@, at) by {}
        }
        return false;
    }
    let mut at: usize = 0;
    while at <= n - p
        invariant
            n == s@.len(),
            p == needle@.len(),
            p <= n,
            at <= n - p + 1,
            lower == lower_text(s@),
            forall|k: int| 0 <= k < at ==> !occurs_at(lower, needle@, k),
        decreases n - p + 1 - at,
    {
        let mut i: usize = 0;
        let mut matched = true;
        while i < p
            invariant
                n == s@.len(),
                p == needle@.len(),
                at + p <= n,
                i <= p,
                lower == lower_text(s@),
                matched == forall|k: int| 0 <= k < i ==> lower[at + k] == needle@[k],
            decreases p - i,
        {
            if ascii_lower_exec(s.get_char(at + i)) != needle.get_char(i) {
                matched = false;
            }
            i += 1;
        }
        if matched {
            assert(lower.subrange(at as int, at + p) =~= needle@);
            assert(occurs_at(lower, needle@, at as int));
            return true;
        }
        proof {
            if occurs_at(lower, needle@, at as int) {
                assert forall|k: int| 0 <= k < p implies lower[at + k] == needle@[k] by {
                    assert(lower.subrange(at as int, at + p)[k] == needle@[k]);
                }
            }
        }
        at += 1;
    }
    proof {
        assert forall|k: int| !occurs_at(lower, needle@, k) by {
            if 0 <= k && k + p <= n {
                assert(k < at);
            }
        }
    }
    false
}

/// Whether any needle occurs in `value` (ASCII case ignored).
pub open spec fn mentions_any(value: Seq<char>, needles: Seq<Seq<char>>) -> bool {
    exists|k: int| 0 <= k < needles.len() && contains_text(lower_text(value), #[trigger] needles[k])
}

fn contains_any_lowered(value: &str, needles: &Vec<&'static str>) -> (r: bool)
    ensures
        r == exists|k: int| 0 <= k < needles@.len() && contains_text(lower_text(value@), (#[trigger] needles@[k])@),
{
    let mut k: usize = 0;
    while k < needles.len()
        invariant
            k <= needles@.len(),
            forall|q: int| 0 <= q < k ==> !contains_text(lower_text(value@), (#[trigger] needles@[q])@),
        decreases needles@.len() - k,
    {
        if contains_lowered(value, needles[k]) {
            return true;
        }
        k += 1;
    }
    false
}

/// The words that make a string worth flagging.
pub open spec fn sensitive_needles() -> Seq<Seq<char>> {
    seq!["password"@, "token"@, "/bin/sh"@, "cmd"@, "admin"@, "auth"@, "http"@]
}

/// Whether a string mentions a password, token, shell, command, admin, auth or HTTP (ASCII
/// case ignored).
pub fn is_sensitive_string(value: &str) -> (r: bool)
    ensures
        r == mentions_any(value@, sensitive_needles()),
{
    let needles: Vec<&'static str> = vec!["password", "token", "/bin/sh", "cmd", "admin", "auth", "http"];
    assert(forall|k: int| 0 <= k < needles@.len() ==> (#[trigger] needles@[k])@ == sensitive_needles()[k]);
    let r = contains_any_lowered(value, &needles);
    proof {
        if mentions_any(value@, sensitive_needles()) {
            let k = choose|k: int| 0 <= k < sensitive_needles().len() && contains_text(lower_text(value@), #[trigger] sensitive_needles()[k]);
            assert(needles@[k]@ == sensitive_needles()[k]);
        }
    }
    r
}

/// Names of imported functions that deserve attention.
pub open spec fn dangerous_needles() -> Seq<Seq<char>> {
    seq!["system"@, "popen"@, "exec"@, "strcpy"@, "sprintf"@, "gets"@, "createprocess"@, "winexec"@, "shellexecute"@, "loadlibrary"@, "getprocaddress"@, "virtualalloc"@, "virtualprotect"@, "writeprocessmemory"@, "createremotethread"@, "urldownload"@, "internetopen"@, "regsetvalue"@]
}

/// Whether an imported name refers to process creation, unchecked string copies, dynamic
/// loading, remote memory writes, downloads or registry writes (ASCII case ignored).
pub fn is_dangerous_import(value: &str) -> (r: bool)
    ensures
        r == mentions_any(value@, dangerous_needles()),
{
    let needles: Vec<&'static str> = vec!["system", "popen", "exec", "strcpy", "sprintf", "gets", "createprocess", "winexec", "shellexecute", "loadlibrary", "getprocaddress", "virtualalloc", "virtualprotect", "writeprocessmemory", "createremotethread", "urldownload", "internetopen", "regsetvalue"];
    assert(forall|k: int| 0 <= k < needles@.len() ==> (#[trigger] needles@[k])@ == dangerous_needles()[k]);
    let r = contains_any_lowered(value, &needles);
    proof {
        if mentions_any(value@, dangerous_needles()) {
            let k = choose|k: int| 0 <= k < dangerous_needles().len() && contains_text(lower_text(value@), #[trigger] dangerous_needles()[k]);
            assert(needles@[k]@ == dangerous_needles()[k]);
        }
    }
    r
}

/// Law of dangerous imports: an imported name is flagged exactly when, with its ASCII letters
/// lowered, it mentions process creation (`system`, `popen`, `exec`, `createprocess`, `winexec`,
/// `shellexecute`), an unchecked string operation (`strcpy`, `sprintf`, `gets`), dynamic
/// loading (`loadlibrary`, `getprocaddress`), memory tampering (`virtualalloc`,
/// `virtualprotect`, `writeprocessmemory`, `createremotethread`), a download (`urldownload`,
/// `internetopen`) or a registry write (`regsetvalue`).
pub proof fn law_dangerous_imports(value: Seq<char>)
    ensures
        mentions_any(value, dangerous_needles()) <==> {
            let v = lower_text(value);
            ||| contains_text(v, "system"@)
            ||| contains_text(v, "popen"@)
            ||| contains_text(v, "exec"@)
            ||| contains_text(v, "strcpy"@)
            ||| contains_text(v, "sprintf"@)
            ||| contains_text(v, "gets"@)
            ||| contains_text(v, "createprocess"@)
            ||| contains_text(v, "winexec"@)
            ||| contains_text(v, "shellexecute"@)
            ||| contains_text(v, "loadlibrary"@)
            ||| contains_text(v, "getprocaddress"@)
            ||| contains_text(v, "virtualalloc"@)
            ||| contains_text(v, "virtualprotect"@)
            ||| contains_text(v, "writeprocessmemory"@)
            ||| contains_text(v, "createremotethread"@)
            ||| contains_text(v, "urldownload"@)
            ||| contains_text(v, "internetopen"@)
            ||| contains_text(v, "regsetvalue"@)
        },
{
    let n = dangerous_needles();
    let v = lower_text(value);
    assert(n[0] == "system"@ && n[1] == "popen"@ && n[2] == "exec"@ && n[3] == "strcpy"@ && n[4] == "sprintf"@
        && n[5] == "gets"@ && n[6] == "createprocess"@ && n[7] == "winexec"@ && n[8] == "shellexecute"@
        && n[9] == "loadlibrary"@ && n[10] == "getprocaddress"@ && n[11] == "virtualalloc"@ && n[12]
        == "virtualprotect"@ && n[13] == "writeprocessmemory"@ && n[14] == "createremotethread"@ && n[15]
        == "urldownload"@ && n[16] == "internetopen"@ && n[17] == "regsetvalue"@ && n.len() == 18);
    if mentions_any(value, n) {
        let k = choose|k: int| 0 <= k < n.len() && contains_text(v, #[trigger] n[k]);
        assert(0 <= k < 18);
    }
}

/// Law of sensitive strings: a string is flagged exactly when, with its ASCII letters lowered,
/// it mentions `password`, `token`, `/bin/sh`, `cmd`, `admin`, `auth` or `http`.
pub proof fn law_sensitive_strings(value: Seq<char>)
    ensures
        mentions_any(value, sensitive_needles()) <==> {
            let v = lower_text(value);
            ||| contains_text(v, "password"@)
            ||| contains_text(v, "token"@)
            ||| contains_text(v, "/bin/sh"@)
            ||| contains_text(v, "cmd"@)
            ||| contains_text(v, "admin"@)
            ||| contains_text(v, "auth"@)
            ||| contains_text(v, "http"@)
        },
{
    let n = sensitive_needles();
    let v = lower_text(value);
    assert(n[0] == "password"@ && n[1] == "token"@ && n[2] == "/bin/sh"@ && n[3] == "cmd"@ && n[4] == "admin"@
        && n[5] == "auth"@ && n[6] == "http"@ && n.len() == 7);
    if mentions_any(value, n) {
        let k = choose|k: int| 0 <= k < n.len() && contains_text(v, #[trigger] n[k]);
        assert(0 <= k < 7);
    }
}

/// Where a file range of the binary is loaded.
#[derive(Clone, Copy, Debug, PartialEq, Eq, Structural)]
pub struct SectionMapping {
    pub address: u64,
    pub offset: u64,
    pub size: u64,
}

/// `a + b`, saturating at `u64::MAX`.
pub open spec fn sat_add(a: u64, b: u64) -> int {
    if a + b > u64::MAX {
        u64::MAX as int
    } else {
        a + b
    }
}

/// Whether file offset `offset` lies inside the mapped range.
pub open spec fn maps_offset(m: SectionMapping, offset: u64) -> bool {
    m.offset <= offset && offset < sat_add(m.offset, m.size)
}

/// The first mapping that covers `offset`.
pub open spec fn covering_mapping(mappings: Seq<SectionMapping>, offset: u64) -> Option<int> {
    if exists|k: int| 0 <= k < mappings.len() && maps_offset(mappings[k], offset) {
        Some(
            choose|k: int|
                0 <= k < mappings.len() && maps_offset(mappings[k], offset) && forall|j: int|
                    0 <= j < k ==> !maps_offset(mappings[j], offset),
        )
    } else {
        None
    }
}

/// The load address of file offset `offset` in mapping `m`: the mapping's address plus the
/// offset's distance into it, in 64-bit address arithmetic (modulo 2^64).
pub open spec fn mapped_address(m: SectionMapping, offset: u64) -> u64 {
    ((m.address + offset - m.offset) % 0x1_0000_0000_0000_0000) as u64
}

/// The load address of file offset `offset`, from the first mapping that covers it.
pub fn offset_to_address(offset: u64, mappings: &[SectionMapping]) -> (r: Option<u64>)
    ensures
        match covering_mapping(mappings@, offset) {
            Some(k) => r == Some(mapped_address(mappings@[k], offset)),
            None => r is None,
        },
{
    let mut k: usize = 0;
    while k < mappings.len()
        invariant
            k <= mappings@.len(),
            forall|j: int| 0 <= j < k ==> !maps_offset(mappings@[j], offset),
        decreases mappings@.len() - k,
    {
        let m = mappings[k];
        let end = m.offset.saturating_add(m.size);
        if offset >= m.offset && offset < end {
            proof {
                let ms = mappings@;
                let c = choose|q: int|
                    0 <= q < ms.len() && maps_offset(ms[q], offset) && forall|j: int|
                        0 <= j < q ==> !maps_offset(ms[j], offset);
                assert(0 <= k < ms.len() && maps_offset(ms[k as int], offset) && forall|j: int|
                    0 <= j < k ==> !maps_offset(ms[j], offset));
                assert(c == k);
            }
            let a = m.address.wrapping_add(offset - m.offset);
            assert(a == mapped_address(m, offset)) by {
                assert(m.address + (offset - m.offset) == m.address + offset - m.offset);
            }
            return Some(a);
        }
        k += 1;
    }
    None
}

/// A string found in the binary.
#[derive(Clone, Debug, PartialEq, Eq)]
pub struct ParsedString {
    pub value: String,
    pub address: Option<u64>,
    pub offset: u64,
    pub length: u64,
    pub encoding: String,
}

/// Whether a string's address lies in `[address, end]`.
pub open spec fn string_in_range(s: ParsedString, address: u64, end: int) -> bool {
    match s.address {
        Some(a) => address <= a && a <= end,
        None => false,
    }
}

/// How many of `strings` have an address in `[address, end]`.
pub open spec fn count_in_range(strings: Seq<ParsedString>, address: u64, end: int) -> nat
    decreases strings.len(),
{
    if strings.len() == 0 {
        0
    } else {
        count_in_range(strings.drop_last(), address, end) + if string_in_range(
            strings.last(),
            address,
            end,
        ) {
            1nat
        } else {
            0nat
        }
    }
}

/// How many strings lie inside a function's range `[address, address + size]` (saturating;
/// an unknown size counts as zero).
pub fn count_related_strings(address: u64, size: Option<u64>, strings: &[ParsedString]) -> (r: u64)
    ensures
        r == count_in_range(strings@, address, sat_add(address, match size {
            Some(s) => s,
            None => 0,
        })),
{
    let extent = match size {
        Some(s) => s,
        None => 0,
    };
    let end = address.saturating_add(extent);
    let mut count: u64 = 0;
    let mut i: usize = 0;
    while i < strings.len()
        invariant
            i <= strings@.len(),
            end == sat_add(address, extent),
            count == count_in_range(strings@.subrange(0, i as int), address, end as int),
            count <= i,
        decreases strings@.len() - i,
    {
        let ghost pre = strings@.subrange(0, i as int);
        assert(strings@.subrange(0, i + 1).drop_last() =~= pre);
        let inside = match strings[i].address {
            Some(a) => a >= address && a <= end,
            None => false,
        };
        if inside {
            count += 1;
        }
        i += 1;
    }
    assert(strings@.subrange(0, strings@.len() as int) =~= strings@);
    count
}

/// The SHA-256 digest of `data`.
pub uninterp spec fn sha256_of(data: Seq<u8>) -> Seq<u8>;

/// Calls the `sha2` crate: `Sha256::new`, `update` with `bytes`, `finalize`. Trusted: the
/// digest is the function `sha256_of` of the input bytes, and it is 32 bytes long (the
/// output size `U32` that `sha2` declares for `Sha256`).
#[verifier::external_body]
fn sha256_digest(bytes: &[u8]) -> (r: Vec<u8>)
    ensures
        r@ == sha256_of(bytes@),
        r@.len() == 32,
{
    let mut hasher = sha2::Sha256::new();
    hasher.update(bytes);
    hasher.finalize().to_vec()
}

/// The SHA-256 digest of `bytes` as 64 lower-case hexadecimal digits.
pub fn sha256_hex(bytes: &[u8]) -> (r: String)
    ensures
        r@ == bytes_hex_spec(sha256_of(bytes@)),
        r@.len() == 64,
{
    let digest = sha256_digest(bytes);
    proof {
        lemma_bytes_hex_len(digest@);
    }
    bytes_hex(digest.as_slice())
}

} // verus!
