use vstd::prelude::*;

use crate::decode::{decode_native_instructions, decoding_tiles, DecodedInstruction, InstructionFlow};
use crate::surface::{ascii_lower_exec, contains_lowered, lower_text, sat_add};
use crate::text::contains_text;

verus! {

/// A section of the binary: name, load address, file offset, size, flags text and contents.
#[derive(Clone, Debug, PartialEq, Eq)]
pub struct ParsedSection {
    pub name: String,
    pub address: Option<u64>,
    pub offset: Option<u64>,
    pub size: u64,
    pub flags: String,
    pub bytes: Vec<u8>,
}

/// Whether a section holds code: it is named `.text` or its flags mention `text`, `execute`
/// or `executable` (ASCII case ignored).
pub open spec fn spec_is_executable(s: ParsedSection) -> bool {
    lower_text(s.name@) == ".text"@ || contains_text(lower_text(s.flags@), "text"@) || contains_text(
        lower_text(s.flags@),
        "execute"@,
    ) || contains_text(lower_text(s.flags@), "executable"@)
}

/// Whether `s` equals `target` once its ASCII letters are lowered.
fn eq_lowered(s: &str, target: &str) -> (r: bool)
    ensures
        r == (lower_text(s@) == target@),
{
    let n = s.unicode_len();
    let m = target.unicode_len();
    if n != m {
        return false;
    }
    let mut i: usize = 0;
    while i < n
        invariant
            n == s@.len(),
            m == target@.len(),
            n == m,
            i <= n,
            forall|k: int| 0 <= k < i ==> lower_text(s@)[k] == target@[k],
        decreases n - i,
    {
        if ascii_lower_exec(s.get_char(i)) != target.get_char(i) {
            return false;
        }
        i += 1;
    }
    assert(lower_text(s@) =~= target@);
    true
}

/// Whether a section holds code.
pub fn is_executable_section(section: &ParsedSection) -> (r: bool)
    ensures
        r == spec_is_executable(*section),
{
    eq_lowered(section.name.as_str(), ".text") || contains_lowered(section.flags.as_str(), "text")
        || contains_lowered(section.flags.as_str(), "execute") || contains_lowered(
        section.flags.as_str(),
        "executable",
    )
}

/// Whether a loaded section covers `address` (its end saturating at `u64::MAX`).
pub open spec fn spec_section_contains(s: ParsedSection, address: u64) -> bool {
    match s.address {
        Some(a) => a <= address && address < sat_add(a, s.bytes@.len() as u64),
        None => false,
    }
}

/// Whether the section is loaded and covers `address`.
pub fn section_contains_address(section: &ParsedSection, address: u64) -> (r: bool)
    ensures
        r == spec_section_contains(*section, address),
{
    let section_address = match section.address {
        Some(a) => a,
        None => return false,
    };
    let section_end = section_address.saturating_add(section.bytes.len() as u64);
    address >= section_address && address < section_end
}

/// The first section covering `address`.
pub open spec fn covering_section(sections: Seq<ParsedSection>, address: u64) -> Option<int> {
    if exists|k: int| 0 <= k < sections.len() && spec_section_contains(sections[k], address) {
        Some(
            choose|k: int|
                0 <= k < sections.len() && spec_section_contains(sections[k], address) && forall|j: int|
                    0 <= j < k ==> !spec_section_contains(sections[j], address),
        )
    } else {
        None
    }
}

fn find_covering_section(sections: &[ParsedSection], address: u64) -> (r: Option<usize>)
    ensures
        match r {
            Some(k) => covering_section(sections@, address) == Some(k as int) && k < sections@.len()
                && spec_section_contains(sections@[k as int], address),
            None => covering_section(sections@, address) is None,
        },
{
    let mut k: usize = 0;
    while k < sections.len()
        invariant
            k <= sections@.len(),
            forall|j: int| 0 <= j < k ==> !spec_section_contains(sections@[j], address),
        decreases sections@.len() - k,
    {
        if section_contains_address(&sections[k], address) {
            proof {
                let s = sections@;
                let c = choose|q: int|
                    0 <= q < s.len() && spec_section_contains(s[q], address) && forall|j: int|
                        0 <= j < q ==> !spec_section_contains(s[j], address);
                assert(0 <= k < s.len() && spec_section_contains(s[k as int], address) && forall|j: int|
                    0 <= j < k ==> !spec_section_contains(s[j], address));
                assert(c == k);
            }
            return Some(k);
        }
        k += 1;
    }
    None
}

/// The (saturating) end of the first section that covers `address`.
pub open spec fn spec_section_end(sections: Seq<ParsedSection>, address: u64) -> Option<u64> {
    match covering_section(sections, address) {
        Some(k) => Some(sat_add(sections[k].address.unwrap(), sections[k].bytes@.len() as u64) as u64),
        None => None,
    }
}

/// The (saturating) end of the first section that covers `address`.
pub fn section_end_for_address(sections: &[ParsedSection], address: u64) -> (r: Option<u64>)
    ensures
        r == spec_section_end(sections@, address),
{
    match find_covering_section(sections, address) {
        Some(k) => {
            let a = match sections[k].address {
                Some(a) => a,
                None => return None,
            };
            Some(a.saturating_add(sections[k].bytes.len() as u64))
        },
        None => None,
    }
}

/// The bytes of `[address, address + size)` taken from the first section covering
/// `address`, cut at that section's end.
pub open spec fn spec_function_bytes(address: u64, size: u64, sections: Seq<ParsedSection>) -> Seq<u8> {
    match covering_section(sections, address) {
        Some(k) => {
            let s = sections[k];
            let start = address - s.address.unwrap();
            let available = s.bytes@.len() - start;
            let length = if available < size {
                available
            } else {
                size as int
            };
            s.bytes@.subrange(start, start + length)
        },
        None => Seq::empty(),
    }
}

/// The bytes of a function's range, from the section that holds its start.
pub fn function_bytes(address: u64, size: u64, sections: &[ParsedSection]) -> (r: Vec<u8>)
    ensures
        r@ == spec_function_bytes(address, size, sections@),
        r@.len() <= size,
{
    let k = match find_covering_section(sections, address) {
        Some(k) => k,
        None => return Vec::new(),
    };
    let section = &sections[k];
    let section_address = match section.address {
        Some(a) => a,
        None => return Vec::new(),
    };
    let blen = section.bytes.len();
    assert(address - section_address < blen);
    let start = (address - section_address) as usize;
    let available = blen - start;
    let length: usize = if (available as u64) < size {
        available
    } else {
        size as usize
    };
    let mut out: Vec<u8> = Vec::new();
    let stop = start + length;
    let mut i: usize = start;
    while i < stop
        invariant
            stop == start + length,
            start <= i <= stop,
            stop <= section.bytes@.len(),
            out@ == section.bytes@.subrange(start as int, i as int),
        decreases start + length - i,
    {
        out.push(section.bytes[i]);
        i += 1;
        assert(out@ =~= section.bytes@.subrange(start as int, i as int));
    }
    out
}

/// The end of the first unconditional terminal (jump or return) of a decoded function, when it
/// lies inside `(address, current_end]`.
pub open spec fn spec_terminal_end(instrs: Seq<DecodedInstruction>, address: u64, current_end: u64) -> Option<
    u64,
> {
    if exists|k: int|
        0 <= k < instrs.len() && (instrs[k].flow == InstructionFlow::Jump || instrs[k].flow
            == InstructionFlow::Return) {
        let k = choose|k: int|
            0 <= k < instrs.len() && (instrs[k].flow == InstructionFlow::Jump || instrs[k].flow
                == InstructionFlow::Return) && forall|j: int|
                0 <= j < k ==> !(instrs[j].flow == InstructionFlow::Jump || instrs[j].flow
                    == InstructionFlow::Return);
        let end = instrs[k].address + instrs[k].size;
        if address < end && end <= current_end {
            Some(end as u64)
        } else {
            None
        }
    } else {
        None
    }
}

/// The end of the first unconditional terminal among decoded instructions, within
/// `(address, current_end]`.
pub fn terminal_end_in(instructions: &[DecodedInstruction], address: u64, current_end: u64) -> (r:
    Option<u64>)
    requires
        forall|k: int|
            0 <= k < instructions@.len() ==> (#[trigger] instructions@[k]).address
                + instructions@[k].size <= u64::MAX,
    ensures
        r == spec_terminal_end(instructions@, address, current_end),
{
    let mut k: usize = 0;
    while k < instructions.len()
        invariant
            k <= instructions@.len(),
            forall|j: int|
                0 <= j < instructions@.len() ==> (#[trigger] instructions@[j]).address
                    + instructions@[j].size <= u64::MAX,
            forall|j: int|
                0 <= j < k ==> !(instructions@[j].flow == InstructionFlow::Jump || instructions@[j].flow
                    == InstructionFlow::Return),
        decreases instructions@.len() - k,
    {
        if instructions[k].is_unconditional_terminal() {
            proof {
                let s = instructions@;
                let c = choose|q: int|
                    0 <= q < s.len() && (s[q].flow == InstructionFlow::Jump || s[q].flow
                        == InstructionFlow::Return) && forall|j: int|
                        0 <= j < q ==> !(s[j].flow == InstructionFlow::Jump || s[j].flow
                            == InstructionFlow::Return);
                assert(0 <= k < s.len() && (s[k as int].flow == InstructionFlow::Jump || s[k as int].flow
                    == InstructionFlow::Return) && forall|j: int|
                    0 <= j < k ==> !(s[j].flow == InstructionFlow::Jump || s[j].flow
                        == InstructionFlow::Return));
                assert(c == k);
            }
            assert(instructions@[k as int].address + instructions@[k as int].size <= u64::MAX);
            let end = instructions[k].address + instructions[k].size as u64;
            if end > address && end <= current_end {
                return Some(end);
            }
            return None;
        }
        k += 1;
    }
    None
}

/// Decoding tiles `bytes`, so no instruction ends past `address + bytes.len()`.
proof fn lemma_tiled_ends(address: u64, bytes: Seq<u8>, out: Seq<DecodedInstruction>)
    requires
        decoding_tiles(address, bytes, out),
        address + bytes.len() <= u64::MAX,
    ensures
        forall|k: int| 0 <= k < out.len() ==> (#[trigger] out[k]).address + out[k].size <= address + bytes.len(),
{
    assert forall|k: int| 0 <= k < out.len() implies (#[trigger] out[k]).address + out[k].size <= address
        + bytes.len() by {
        assert(crate::decode::instruction_at(address, bytes, out[k].address - address, out[k]));
    }
}

/// Where a function really ends: the end of its first unconditional terminal, decoding the bytes
/// of `[address, current_end)`.
pub fn terminal_end_for_function(address: u64, current_end: u64, sections: &[ParsedSection]) -> (r:
    Option<u64>)
    ensures
        current_end <= address ==> r is None,
        address < current_end && spec_function_bytes(address, (current_end - address) as u64, sections@).len() == 0 ==> r is None,
        address < current_end ==> exists|out: Seq<DecodedInstruction>|
            decoding_tiles(
                address,
                spec_function_bytes(address, (current_end - address) as u64, sections@),
                out,
            ) && r == spec_terminal_end(out, address, current_end),
{
    if current_end <= address {
        return None;
    }
    let bytes = function_bytes(address, current_end - address, sections);
    if bytes.len() == 0 {
        proof {
            let out = Seq::<DecodedInstruction>::empty();
            assert(decoding_tiles(address, bytes@, out));
            assert(spec_terminal_end(out, address, current_end) is None);
        }
        return None;
    }
    assert(bytes@.len() <= current_end - address);
    let instructions = decode_native_instructions(address, bytes.as_slice());
    proof {
        lemma_tiled_ends(address, bytes@, instructions@);
    }
    terminal_end_in(instructions.as_slice(), address, current_end)
}

/// `v` is strictly increasing.
pub open spec fn increasing(v: Seq<u64>) -> bool {
    forall|i: int, j: int| 0 <= i < j < v.len() ==> v[i] < v[j]
}

/// Inserts `x` into the strictly increasing list `v` unless it is there.
pub fn insert_sorted_u64(v: &mut Vec<u64>, x: u64)
    requires
        increasing(old(v)@),
    ensures
        increasing(final(v)@),
        forall|y: u64| final(v)@.contains(y) <==> (old(v)@.contains(y) || y == x),
        final(v)@.len() <= old(v)@.len() + 1,
{
    let ghost old_v = v@;
    let n = v.len();
    let mut i: usize = 0;
    while i < n && v[i] < x
        invariant
            n == v@.len(),
            v@ == old_v,
            i <= n,
            forall|k: int| 0 <= k < i ==> old_v[k] < x,
        decreases n - i,
    {
        i += 1;
    }
    if i < n && v[i] == x {
        assert(old_v.contains(x)) by {
            assert(old_v[i as int] == x);
        }
        return;
    }
    v.insert(i, x);
    proof {
        let w = v@;
        assert(w == old_v.insert(i as int, x));
        assert forall|a: int, b: int| 0 <= a < b < w.len() implies w[a] < w[b] by {
            if a < i && b > i {
                assert(w[b] == old_v[b - 1]);
            } else if a > i {
                assert(w[a] == old_v[a - 1]);
                assert(w[b] == old_v[b - 1]);
            } else if a == i {
                assert(w[b] == old_v[b - 1]);
            }
        }
        assert forall|y: u64| w.contains(y) <==> (old_v.contains(y) || y == x) by {
            if w.contains(y) {
                let k = choose|k: int| 0 <= k < w.len() && w[k] == y;
                if k < i {
                    assert(old_v[k] == y);
                } else if k > i {
                    assert(old_v[k - 1] == y);
                }
            }
            if old_v.contains(y) {
                let k = choose|k: int| 0 <= k < old_v.len() && old_v[k] == y;
                if k < i {
                    assert(w[k] == y);
                } else {
                    assert(w[k + 1] == y);
                }
            }
            if y == x {
                assert(w[i as int] == y);
            }
        }
    }
}

/// The code of `bytes`, placed at `address`, that the decoder reads: all of it, or, when it
/// runs past the end of the address space, the bytes whose instructions still end inside it.
pub open spec fn addressable(address: u64, bytes: Seq<u8>) -> Seq<u8> {
    if address + bytes.len() <= u64::MAX {
        bytes
    } else {
        bytes.subrange(0, u64::MAX - address)
    }
}

/// The code of `bytes` at `address` that stays inside the address space.
pub fn addressable_bytes<'a>(address: u64, bytes: &'a [u8]) -> (r: &'a [u8])
    ensures
        r@ == addressable(address, bytes@),
        address + r@.len() <= u64::MAX,
{
    let room = u64::MAX - address;
    if (bytes.len() as u64) <= room {
        assert(bytes@.subrange(0, bytes@.len() as int) =~= bytes@);
        bytes
    } else {
        vstd::slice::slice_subrange(bytes, 0, room as usize)
    }
}

/// Whether `t` is the target of a direct call, decoded in `outs[k]`, that stays inside
/// executable section `k`.
pub open spec fn is_call_target(sections: Seq<ParsedSection>, outs: Seq<Seq<DecodedInstruction>>, t: u64) -> bool {
    exists|k: int, i: int|
        0 <= k < sections.len() && spec_is_executable(sections[k]) && sections[k].address is Some && 0
            <= i < outs[k].len() && (#[trigger] outs[k][i]).flow == InstructionFlow::Call
            && outs[k][i].target == Some(t) && spec_section_contains(sections[k], t)
}

/// The decodings `outs` tile the code of each executable loaded section.
pub open spec fn decodes_sections(sections: Seq<ParsedSection>, outs: Seq<Seq<DecodedInstruction>>) -> bool {
    &&& outs.len() == sections.len()
    &&& forall|k: int|
        0 <= k < sections.len() && spec_is_executable(sections[k]) && sections[k].address is Some
            ==> decoding_tiles(
            sections[k].address.unwrap(),
            addressable(sections[k].address.unwrap(), sections[k].bytes@),
            #[trigger] outs[k],
        )
}

/// The targets of direct calls that land inside the executable section they come from, sorted
/// and without repeats.
pub fn collect_direct_call_targets(sections: &[ParsedSection]) -> (r: Vec<u64>)
    ensures
        increasing(r@),
        exists|outs: Seq<Seq<DecodedInstruction>>|
            decodes_sections(sections@, outs) && forall|t: u64|
                r@.contains(t) <==> is_call_target(sections@, outs, t),
{
    let mut targets: Vec<u64> = Vec::new();
    let ghost mut outs: Seq<Seq<DecodedInstruction>> = Seq::empty();
    let mut k: usize = 0;
    while k < sections.len()
        invariant
            k <= sections@.len(),
            increasing(targets@),
            outs.len() == k,
            decodes_sections(sections@.subrange(0, k as int), outs),
            forall|t: u64| #[trigger] targets@.contains(t) <==> is_call_target(sections@.subrange(0, k as int), outs, t),
        decreases sections@.len() - k,
    {
        let section = &sections[k];
        let ghost before_outs = outs;
        let ghost pre = sections@.subrange(0, k as int);
        let ghost post = sections@.subrange(0, k + 1);
        if is_executable_section(section) && section.address.is_some() {
            let section_address = match section.address {
                Some(a) => a,
                None => 0,
            };
            assert(sections@[k as int].address is Some);
            let code = addressable_bytes(section_address, section.bytes.as_slice());
            let instructions = decode_native_instructions(section_address, code);
            let ghost before_targets = targets@;
            let mut i: usize = 0;
            while i < instructions.len()
                invariant
                    i <= instructions@.len(),
                    increasing(targets@),
                    forall|t: u64| #[trigger] targets@.contains(t) <==> (before_targets.contains(t) || exists|j: int|
                        0 <= j < i && (#[trigger] instructions@[j]).flow == InstructionFlow::Call
                            && instructions@[j].target == Some(t) && spec_section_contains(*section, t)),
                decreases instructions@.len() - i,
            {
                let ghost before_step = targets@;
                let hit = match instructions[i].target {
                    Some(target) => instructions[i].flow == InstructionFlow::Call
                        && section_contains_address(section, target),
                    None => false,
                };
                if hit {
                    match instructions[i].target {
                        Some(target) => insert_sorted_u64(&mut targets, target),
                        None => {},
                    }
                }
                proof {
                    assert forall|t: u64| targets@.contains(t) <==> (before_targets.contains(t) || exists|j: int|
                        0 <= j < i + 1 && (#[trigger] instructions@[j]).flow == InstructionFlow::Call
                            && instructions@[j].target == Some(t) && spec_section_contains(*section, t)) by {
                        if exists|j: int|
                            0 <= j < i + 1 && (#[trigger] instructions@[j]).flow == InstructionFlow::Call
                                && instructions@[j].target == Some(t) && spec_section_contains(*section, t) {
                            let j = choose|j: int|
                                0 <= j < i + 1 && (#[trigger] instructions@[j]).flow == InstructionFlow::Call
                                    && instructions@[j].target == Some(t) && spec_section_contains(*section, t);
                            if j < i {
                                assert(before_step.contains(t) <==> (before_targets.contains(t) || exists|j: int|
                                    0 <= j < i && (#[trigger] instructions@[j]).flow == InstructionFlow::Call
                                        && instructions@[j].target == Some(t) && spec_section_contains(*section, t)));
                                assert(before_step.contains(t));
                            } else {
                                assert(hit);
                            }
                        }
                        if exists|j: int|
                            0 <= j < i && (#[trigger] instructions@[j]).flow == InstructionFlow::Call
                                && instructions@[j].target == Some(t) && spec_section_contains(*section, t) {
                            let j = choose|j: int|
                                0 <= j < i && (#[trigger] instructions@[j]).flow == InstructionFlow::Call
                                    && instructions@[j].target == Some(t) && spec_section_contains(*section, t);
                            assert(0 <= j < i + 1);
                        }
                        if hit && instructions@[i as int].target == Some(t) {
                            assert(instructions@[i as int].flow == InstructionFlow::Call);
                        }
                    }
                }
                i += 1;
            }
            proof {
                outs = before_outs.push(instructions@);
                assert(post.drop_last() =~= pre);
                assert forall|t: u64| targets@.contains(t) <==> is_call_target(post, outs, t) by {
                    if targets@.contains(t) && !before_targets.contains(t) {
                        let j = choose|j: int|
                            0 <= j < instructions@.len() && (#[trigger] instructions@[j]).flow == InstructionFlow::Call
                                && instructions@[j].target == Some(t) && spec_section_contains(*section, t);
                        assert(outs[k as int][j] == instructions@[j]);
                    }
                    if before_targets.contains(t) {
                        let (kk, j) = choose|kk: int, j: int|
                            0 <= kk < pre.len() && spec_is_executable(pre[kk]) && pre[kk].address is Some && 0
                                <= j < before_outs[kk].len() && (#[trigger] before_outs[kk][j]).flow == InstructionFlow::Call
                                && before_outs[kk][j].target == Some(t) && spec_section_contains(pre[kk], t);
                        assert(outs[kk][j] == before_outs[kk][j]);
                        assert(post[kk] == pre[kk]);
                    }
                    if is_call_target(post, outs, t) {
                        let (kk, j) = choose|kk: int, j: int|
                            0 <= kk < post.len() && spec_is_executable(post[kk]) && post[kk].address is Some && 0
                                <= j < outs[kk].len() && (#[trigger] outs[kk][j]).flow == InstructionFlow::Call
                                && outs[kk][j].target == Some(t) && spec_section_contains(post[kk], t);
                        if kk < k {
                            assert(before_outs[kk][j] == outs[kk][j]);
                            assert(pre[kk] == post[kk]);
                            assert(is_call_target(pre, before_outs, t));
                        } else {
                            assert(instructions@[j] == outs[kk][j]);
                        }
                    }
                }
                assert forall|q: int|
                    0 <= q < post.len() && spec_is_executable(post[q]) && post[q].address is Some
                        implies decoding_tiles(
                        post[q].address.unwrap(),
                        addressable(post[q].address.unwrap(), post[q].bytes@),
                        #[trigger] outs[q],
                    ) by {
                    if q < k {
                        assert(pre[q] == post[q]);
                        assert(outs[q] == before_outs[q]);
                    }
                }
            }
        } else {
            proof {
                outs = before_outs.push(Seq::empty());
                assert(post.drop_last() =~= pre);
                assert forall|t: u64| targets@.contains(t) <==> is_call_target(post, outs, t) by {
                    if before_outs.len() >= 0 && is_call_target(post, outs, t) {
                        let (kk, j) = choose|kk: int, j: int|
                            0 <= kk < post.len() && spec_is_executable(post[kk]) && post[kk].address is Some && 0
                                <= j < outs[kk].len() && (#[trigger] outs[kk][j]).flow == InstructionFlow::Call
                                && outs[kk][j].target == Some(t) && spec_section_contains(post[kk], t);
                        if kk < k {
                            assert(before_outs[kk][j] == outs[kk][j]);
                            assert(pre[kk] == post[kk]);
                            assert(is_call_target(pre, before_outs, t));
                        }
                    }
                    if targets@.contains(t) {
                        let (kk, j) = choose|kk: int, j: int|
                            0 <= kk < pre.len() && spec_is_executable(pre[kk]) && pre[kk].address is Some && 0
                                <= j < before_outs[kk].len() && (#[trigger] before_outs[kk][j]).flow == InstructionFlow::Call
                                && before_outs[kk][j].target == Some(t) && spec_section_contains(pre[kk], t);
                        assert(outs[kk][j] == before_outs[kk][j]);
                        assert(post[kk] == pre[kk]);
                    }
                }
                assert forall|q: int|
                    0 <= q < post.len() && spec_is_executable(post[q]) && post[q].address is Some
                        implies decoding_tiles(
                        post[q].address.unwrap(),
                        addressable(post[q].address.unwrap(), post[q].bytes@),
                        #[trigger] outs[q],
                    ) by {
                    if q < k {
                        assert(pre[q] == post[q]);
                        assert(outs[q] == before_outs[q]);
                    }
                }
            }
        }
        k += 1;
    }
    assert(sections@.subrange(0, sections@.len() as int) =~= sections@);
    targets
}

} // verus!
