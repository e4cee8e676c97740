use vstd::prelude::*;

use crate::decode::{DecodedInstruction, DecodedOperand, InstructionFlow, OperandKind, OperandRole};
use crate::registers::{first_with, find_operand, insert_sorted_register, lists_exactly, name_set};
use crate::text::{
    str_eq, str_lt, str_starts_with, string_of, lex_lt, lemma_lex_irreflexive, lemma_lex_trichotomy,
    lemma_lex_asymmetric, lemma_lex_transitive,
};

verus! {

/// The binary formats whose calling conventions are known.
#[derive(Clone, Copy, Debug, PartialEq, Eq, Structural)]
pub enum ArtifactFormat {
    Elf,
    Pe,
    Unknown,
}

/// The name of a format: `elf`, `pe` or `unknown`.
pub open spec fn spec_format_name(f: ArtifactFormat) -> Seq<char> {
    match f {
        ArtifactFormat::Elf => "elf"@,
        ArtifactFormat::Pe => "pe"@,
        ArtifactFormat::Unknown => "unknown"@,
    }
}

impl ArtifactFormat {
    /// `elf`, `pe` or `unknown`.
    pub fn as_str(self) -> (r: &'static str)
        ensures
            r@ == spec_format_name(self),
    {
        match self {
            ArtifactFormat::Elf => "elf",
            ArtifactFormat::Pe => "pe",
            ArtifactFormat::Unknown => "unknown",
        }
    }
}

/// The immediate of `op rsp, imm` for the given mnemonic (`sub` grows the frame, `add`
/// releases it).
pub open spec fn spec_rsp_immediate(m: Seq<char>, ins: DecodedInstruction) -> Option<u64> {
    let ops = ins.typed_operands@;
    if ins.mnemonic@ == m && "rsp,"@.len() <= ins.operands@.len() && ins.operands@.subrange(
        0,
        "rsp,"@.len() as int,
    ) == "rsp,"@ {
        match first_with(ops, OperandRole::Source, OperandKind::Immediate) {
            Some(i) => ops[i].value,
            None => None,
        }
    } else {
        None
    }
}

fn rsp_immediate(m: &str, instruction: &DecodedInstruction) -> (r: Option<u64>)
    ensures
        r == spec_rsp_immediate(m@, *instruction),
{
    if !str_eq(instruction.mnemonic.as_str(), m) || !str_starts_with(
        instruction.operands.as_str(),
        "rsp,",
    ) {
        return None;
    }
    match find_operand(&instruction.typed_operands, OperandRole::Source, OperandKind::Immediate) {
        Some(i) => instruction.typed_operands[i].value,
        None => None,
    }
}

/// The frame size a `sub rsp, imm` allocates.
pub fn stack_allocation_size(instruction: &DecodedInstruction) -> (r: Option<u64>)
    ensures
        r == spec_rsp_immediate("sub"@, *instruction),
{
    rsp_immediate("sub", instruction)
}

/// The frame size an `add rsp, imm` releases.
pub fn stack_cleanup_size(instruction: &DecodedInstruction) -> (r: Option<u64>)
    ensures
        r == spec_rsp_immediate("add"@, *instruction),
{
    rsp_immediate("add", instruction)
}

/// Position of the last return instruction.
pub open spec fn last_return(instrs: Seq<DecodedInstruction>) -> Option<int> {
    if exists|k: int| 0 <= k < instrs.len() && instrs[k].flow == InstructionFlow::Return {
        Some(
            choose|k: int|
                0 <= k < instrs.len() && instrs[k].flow == InstructionFlow::Return && forall|j: int|
                    k < j < instrs.len() ==> instrs[j].flow != InstructionFlow::Return,
        )
    } else {
        None
    }
}

/// `pop rbp`.
pub open spec fn is_pop_rbp(ins: DecodedInstruction) -> bool {
    ins.mnemonic@ == "pop"@ && ins.operands@ == "rbp"@
}

/// How a function's frame is torn down before its last return, from the (up to) two
/// instructions just before it.
pub open spec fn spec_epilogue_kind(instrs: Seq<DecodedInstruction>) -> Option<Seq<char>> {
    match last_return(instrs) {
        Some(ri) => if ri == 0 {
            None
        } else {
            let last = instrs[ri - 1];
            if last.mnemonic@ == "leave"@ {
                Some("leave"@)
            } else if ri >= 2 && is_pop_rbp(last) && spec_rsp_immediate("add"@, instrs[ri - 2]) is Some {
                Some("stack-add-pop-rbp"@)
            } else if is_pop_rbp(last) {
                Some("pop-rbp"@)
            } else if spec_rsp_immediate("add"@, last) is Some || (last.mnemonic@ == "mov"@
                && last.operands@ == "rsp,rbp"@) {
                Some("stack-restore"@)
            } else {
                None
            }
        },
        None => None,
    }
}

fn is_pop_rbp_exec(instruction: &DecodedInstruction) -> (r: bool)
    ensures
        r == is_pop_rbp(*instruction),
{
    str_eq(instruction.mnemonic.as_str(), "pop") && str_eq(instruction.operands.as_str(), "rbp")
}

/// Law of epilogues: a function without a return instruction, or whose last return is its first
/// instruction, has no epilogue kind; any kind it has is `leave`, `stack-add-pop-rbp`,
/// `pop-rbp` or `stack-restore`, read from the instructions just before its last return.
pub proof fn law_epilogue_kinds(instrs: Seq<DecodedInstruction>)
    ensures
        (forall|k: int| 0 <= k < instrs.len() ==> (#[trigger] instrs[k]).flow != InstructionFlow::Return)
            ==> spec_epilogue_kind(instrs) is None,
        last_return(instrs) == Some(0int) ==> spec_epilogue_kind(instrs) is None,
        spec_epilogue_kind(instrs) matches Some(x) ==> x == "leave"@ || x == "stack-add-pop-rbp"@ || x == "pop-rbp"@
            || x == "stack-restore"@,
{
}

/// Classifies the epilogue before a function's last return: `leave`, `stack-add-pop-rbp`,
/// `pop-rbp` or `stack-restore`.
pub fn epilogue_kind_for_instructions(instructions: &[DecodedInstruction]) -> (r: Option<&'static str>)
    ensures
        match r {
            Some(x) => spec_epilogue_kind(instructions@) == Some(x@),
            None => spec_epilogue_kind(instructions@) is None,
        },
{
    let n = instructions.len();
    let mut i: usize = n;
    while i > 0
        invariant
            i <= n,
            n == instructions@.len(),
            forall|j: int| i <= j < n ==> instructions@[j].flow != InstructionFlow::Return,
        ensures
            i <= n,
            forall|j: int| i <= j < n ==> instructions@[j].flow != InstructionFlow::Return,
            i == 0 || instructions@[i - 1].flow == InstructionFlow::Return,
        decreases i,
    {
        if instructions[i - 1].flow == InstructionFlow::Return {
            break;
        }
        i -= 1;
    }
    proof {
        let s = instructions@;
        if i > 0 {
            assert(s[i - 1].flow == InstructionFlow::Return);
            let c = choose|k: int|
                0 <= k < s.len() && s[k].flow == InstructionFlow::Return && forall|j: int|
                    k < j < s.len() ==> s[j].flow != InstructionFlow::Return;
            assert(0 <= i - 1 < s.len() && s[i - 1].flow == InstructionFlow::Return && forall|j: int|
                i - 1 < j < s.len() ==> s[j].flow != InstructionFlow::Return);
            assert(c == i - 1);
        }
    }
    if i == 0 {
        return None;
    }
    let return_index = i - 1;
    if return_index == 0 {
        return None;
    }
    let last = &instructions[return_index - 1];
    if str_eq(last.mnemonic.as_str(), "leave") {
        return Some("leave");
    }
    if return_index >= 2 && is_pop_rbp_exec(last) && stack_cleanup_size(
        &instructions[return_index - 2],
    ).is_some() {
        return Some("stack-add-pop-rbp");
    }
    if is_pop_rbp_exec(last) {
        return Some("pop-rbp");
    }
    if stack_cleanup_size(last).is_some() || (str_eq(last.mnemonic.as_str(), "mov") && str_eq(
        last.operands.as_str(),
        "rsp,rbp",
    )) {
        return Some("stack-restore");
    }
    None
}

/// The role a stack slot access plays, as stored with the slot.
pub open spec fn spec_access_kind(role: OperandRole) -> Seq<char> {
    match role {
        OperandRole::Destination => "write"@,
        OperandRole::Source => "read"@,
        OperandRole::CallTarget => "call_target"@,
        OperandRole::BranchTarget => "branch_target"@,
        OperandRole::DataReference => "address_reference"@,
        OperandRole::Unknown => "unknown"@,
    }
}

/// `write`, `read`, `call_target`, `branch_target`, `address_reference` or `unknown`.
pub fn stack_slot_access_kind(role: OperandRole) -> (r: &'static str)
    ensures
        r@ == spec_access_kind(role),
{
    match role {
        OperandRole::Destination => "write",
        OperandRole::Source => "read",
        OperandRole::CallTarget => "call_target",
        OperandRole::BranchTarget => "branch_target",
        OperandRole::DataReference => "address_reference",
        OperandRole::Unknown => "unknown",
    }
}

/// A register likely to carry an incoming argument: its position in the calling convention's
/// argument order and its name.
#[derive(Clone, Debug, PartialEq, Eq)]
pub struct ArgumentRegisterHint {
    pub ordinal: u8,
    pub register: String,
}

/// The calling convention of a format and its integer argument registers, in order.
pub open spec fn spec_convention(format: ArtifactFormat) -> Option<(Seq<char>, Seq<Seq<char>>)> {
    match format {
        ArtifactFormat::Pe => Some(("windows-x64"@, seq!["rcx"@, "rdx"@, "r8"@, "r9"@])),
        ArtifactFormat::Elf => Some(
            ("sysv-x64"@, seq!["rdi"@, "rsi"@, "rdx"@, "rcx"@, "r8"@, "r9"@]),
        ),
        ArtifactFormat::Unknown => None,
    }
}

/// Whether an operand names register `r`.
pub open spec fn names_register(op: DecodedOperand, r: Seq<char>) -> bool {
    match op.register {
        Some(x) => x@ == r,
        None => false,
    }
}

/// Whether an instruction reads register `r` through a source operand.
pub open spec fn reads_register(ins: DecodedInstruction, r: Seq<char>) -> bool {
    exists|j: int|
        0 <= j < ins.typed_operands@.len() && #[trigger] ins.typed_operands@[j].role
            == OperandRole::Source && names_register(ins.typed_operands@[j], r)
}

/// Whether an instruction writes register `r` through a destination operand.
pub open spec fn writes_register(ins: DecodedInstruction, r: Seq<char>) -> bool {
    exists|j: int|
        0 <= j < ins.typed_operands@.len() && #[trigger] ins.typed_operands@[j].role
            == OperandRole::Destination && names_register(ins.typed_operands@[j], r)
}

/// Whether some instruction of `w` writes `r`.
pub open spec fn writes_any(w: Seq<DecodedInstruction>, r: Seq<char>) -> bool {
    exists|i: int| 0 <= i < w.len() && writes_register(#[trigger] w[i], r)
}

/// Whether `w` reads `r` before any earlier instruction writes it.
pub open spec fn read_before_write(w: Seq<DecodedInstruction>, r: Seq<char>) -> bool
    decreases w.len(),
{
    if w.len() == 0 {
        false
    } else {
        read_before_write(w.drop_last(), r) || (reads_register(w.last(), r) && !writes_any(
            w.drop_last(),
            r,
        ))
    }
}

/// How many leading instructions are scanned for argument reads: those before the first call,
/// at most 16.
pub open spec fn argument_window(instrs: Seq<DecodedInstruction>) -> nat {
    let before_call = if exists|k: int|
        0 <= k < instrs.len() && instrs[k].flow == InstructionFlow::Call {
        choose|k: nat|
            k < instrs.len() && instrs[k as int].flow == InstructionFlow::Call && forall|j: int|
                0 <= j < k ==> instrs[j].flow != InstructionFlow::Call
    } else {
        instrs.len()
    };
    if before_call < 16 {
        before_call
    } else {
        16
    }
}

/// The argument registers (with their positions) read before being written, in order.
pub open spec fn hints_upto(cands: Seq<Seq<char>>, w: Seq<DecodedInstruction>, upto: nat) -> Seq<
    (nat, Seq<char>),
>
    decreases upto,
{
    if upto == 0 {
        Seq::empty()
    } else {
        let prev = hints_upto(cands, w, (upto - 1) as nat);
        let k = (upto - 1) as nat;
        if read_before_write(w, cands[k as int]) {
            prev.push((k, cands[k as int]))
        } else {
            prev
        }
    }
}

/// The hints of a list, as values.
pub open spec fn hints_view(v: Seq<ArgumentRegisterHint>) -> Seq<(nat, Seq<char>)> {
    Seq::new(v.len(), |i: int| (v[i].ordinal as nat, v[i].register@))
}

/// The calling convention and argument-register hints a function's opening instructions
/// suggest.
pub open spec fn spec_argument_registers(format: ArtifactFormat, instrs: Seq<DecodedInstruction>) -> Option<
    (Seq<char>, Seq<(nat, Seq<char>)>),
> {
    match spec_convention(format) {
        Some((cc, cands)) => {
            let w = instrs.subrange(0, argument_window(instrs) as int);
            let hints = hints_upto(cands, w, cands.len());
            if hints.len() == 0 {
                None
            } else {
                Some((cc, hints))
            }
        },
        None => None,
    }
}

/// Whether `op` names a register equal to `candidate`.
fn operand_names(op: &DecodedOperand, candidate: &str) -> (r: bool)
    ensures
        r == names_register(*op, candidate@),
{
    match &op.register {
        Some(x) => str_eq(x.as_str(), candidate),
        None => false,
    }
}

/// The number of leading instructions before the first call, at most 16.
fn argument_window_len(instructions: &[DecodedInstruction]) -> (n: usize)
    ensures
        n == argument_window(instructions@),
{
    let mut i: usize = 0;
    while i < instructions.len() && instructions[i].flow != InstructionFlow::Call
        invariant
            i <= instructions@.len(),
            forall|j: int| 0 <= j < i ==> instructions@[j].flow != InstructionFlow::Call,
        decreases instructions@.len() - i,
    {
        i += 1;
    }
    proof {
        let s = instructions@;
        if i < s.len() {
            assert(s[i as int].flow == InstructionFlow::Call);
            let c = choose|k: nat|
                k < s.len() && s[k as int].flow == InstructionFlow::Call && forall|j: int|
                    0 <= j < k ==> s[j].flow != InstructionFlow::Call;
            assert(i < s.len() && s[i as int].flow == InstructionFlow::Call && forall|j: int|
                0 <= j < i ==> s[j].flow != InstructionFlow::Call);
            assert(c == i);
        }
    }
    if i < 16 {
        i
    } else {
        16
    }
}

/// The hints among the first `upto` candidates are in candidate order, each the candidate at
/// its ordinal, read before written in `w`.
proof fn lemma_hints_shape(cands: Seq<Seq<char>>, w: Seq<DecodedInstruction>, upto: nat)
    requires
        upto <= cands.len(),
    ensures
        hints_upto(cands, w, upto).len() <= upto,
        forall|i: int|
            0 <= i < hints_upto(cands, w, upto).len() ==> {
                let h = #[trigger] hints_upto(cands, w, upto)[i];
                &&& h.0 < upto
                &&& h.1 == cands[h.0 as int]
                &&& read_before_write(w, h.1)
            },
        forall|i: int, j: int|
            0 <= i < j < hints_upto(cands, w, upto).len() ==> (#[trigger] hints_upto(cands, w, upto)[i]).0
                < (#[trigger] hints_upto(cands, w, upto)[j]).0,
    decreases upto,
{
    if upto > 0 {
        lemma_hints_shape(cands, w, (upto - 1) as nat);
    }
}

/// Law of argument registers: a function has argument hints only under a known calling
/// convention (`windows-x64` for PE, `sysv-x64` for ELF), and then at least one and at most one
/// per argument register of the convention, in the convention's order, each naming the
/// convention's register at its ordinal, which the function reads before writing it.
pub proof fn law_argument_hints_follow_convention(format: ArtifactFormat, instrs: Seq<DecodedInstruction>)
    ensures
        format == ArtifactFormat::Unknown ==> spec_argument_registers(format, instrs) is None,
        spec_argument_registers(format, instrs) matches Some((cc, hints)) ==> {
            let cands = spec_convention(format).unwrap().1;
            let w = instrs.subrange(0, argument_window(instrs) as int);
            &&& cc == spec_convention(format).unwrap().0
            &&& 0 < hints.len() <= cands.len()
            &&& forall|i: int|
                0 <= i < hints.len() ==> (#[trigger] hints[i]).0 < cands.len() && hints[i].1 == cands[hints[i].0 as int]
                    && read_before_write(w, hints[i].1)
            &&& forall|i: int, j: int| 0 <= i < j < hints.len() ==> (#[trigger] hints[i]).0 < (#[trigger] hints[j]).0
        },
{
    match spec_convention(format) {
        Some((cc, cands)) => {
            let w = instrs.subrange(0, argument_window(instrs) as int);
            lemma_hints_shape(cands, w, cands.len());
        },
        None => {},
    }
}

/// The calling convention for `format` and the argument registers its functions read before
/// writing them, among the instructions before the first call (at most 16), ordered by their
/// position in the convention.
pub fn argument_registers_for_instructions(
    format: ArtifactFormat,
    instructions: &[DecodedInstruction],
) -> (r: Option<(&'static str, Vec<ArgumentRegisterHint>)>)
    ensures
        match r {
            Some((cc, hints)) => spec_argument_registers(format, instructions@) == Some(
                (cc@, hints_view(hints@)),
            ),
            None => spec_argument_registers(format, instructions@) is None,
        },
{
    let (calling_convention, candidates): (&'static str, Vec<&'static str>) = match format {
        ArtifactFormat::Pe => ("windows-x64", vec!["rcx", "rdx", "r8", "r9"]),
        ArtifactFormat::Elf => ("sysv-x64", vec!["rdi", "rsi", "rdx", "rcx", "r8", "r9"]),
        ArtifactFormat::Unknown => return None,
    };
    let ghost spec_cands = spec_convention(format).unwrap().1;
    assert(candidates@.len() == spec_cands.len());
    assert(forall|k: int| 0 <= k < spec_cands.len() ==> (#[trigger] candidates@[k])@ == spec_cands[k]);
    let n = argument_window_len(instructions);
    let ghost w = instructions@.subrange(0, n as int);
    let m = candidates.len();
    let mut seen: Vec<bool> = Vec::new();
    let mut written: Vec<bool> = Vec::new();
    let mut k: usize = 0;
    while k < m
        invariant
            k <= m,
            m == candidates@.len(),
            seen@.len() == k,
            written@.len() == k,
            forall|q: int| 0 <= q < k ==> !(#[trigger] seen@[q]),
            forall|q: int| 0 <= q < k ==> !(#[trigger] written@[q]),
        decreases m - k,
    {
        seen.push(false);
        written.push(false);
        k += 1;
    }
    assert(w.subrange(0, 0) =~= Seq::<DecodedInstruction>::empty());
    let mut i: usize = 0;
    while i < n
        invariant
            i <= n,
            n == argument_window(instructions@),
            n <= instructions@.len(),
            w == instructions@.subrange(0, n as int),
            m == candidates@.len(),
            seen@.len() == m,
            written@.len() == m,
            forall|q: int| 0 <= q < m ==> (#[trigger] seen@[q]) == read_before_write(w.subrange(0, i as int), candidates@[q]@),
            forall|q: int| 0 <= q < m ==> (#[trigger] written@[q]) == writes_any(w.subrange(0, i as int), candidates@[q]@),
        decreases n - i,
    {
        let instruction = &instructions[i];
        let ops = &instruction.typed_operands;
        let ghost pre = w.subrange(0, i as int);
        let ghost post = w.subrange(0, i + 1);
        assert(post.drop_last() =~= pre);
        assert(post.last() == instructions@[i as int]);
        let mut j: usize = 0;
        while j < ops.len()
            invariant
                i < n,
                n <= instructions@.len(),
                ops == &instructions@[i as int].typed_operands,
                j <= ops@.len(),
                m == candidates@.len(),
                seen@.len() == m,
                written@.len() == m,
                forall|q: int| 0 <= q < m ==> (#[trigger] written@[q]) == writes_any(pre, candidates@[q]@),
                forall|q: int| 0 <= q < m ==> (#[trigger] seen@[q]) == (read_before_write(pre, candidates@[q]@) || (
                    !writes_any(pre, candidates@[q]@) && exists|t: int|
                        0 <= t < j && #[trigger] ops@[t].role == OperandRole::Source && names_register(
                            ops@[t],
                            candidates@[q]@,
                        ))),
            decreases ops@.len() - j,
        {
            let ghost seen_before = seen@;
            let mut q: usize = 0;
            while q < m
                invariant
                    q <= m,
                    j < ops@.len(),
                    m == candidates@.len(),
                    seen@.len() == m,
                    written@.len() == m,
                    forall|p: int| q <= p < m ==> seen@[p] == seen_before[p],
                    forall|p: int| 0 <= p < q ==> (#[trigger] seen@[p]) == (seen_before[p] || (!written@[p]
                        && ops@[j as int].role == OperandRole::Source && names_register(
                        ops@[j as int],
                        candidates@[p]@,
                    ))),
                decreases m - q,
            {
                if ops[j].role == OperandRole::Source && !written[q] && operand_names(
                    &ops[j],
                    candidates[q],
                ) {
                    seen.set(q, true);
                }
                q += 1;
            }
            proof {
                assert forall|p: int| 0 <= p < m implies (#[trigger] seen@[p]) == (read_before_write(
                    pre,
                    candidates@[p]@,
                ) || (!writes_any(pre, candidates@[p]@) && exists|t: int|
                    0 <= t < j + 1 && #[trigger] ops@[t].role == OperandRole::Source && names_register(
                        ops@[t],
                        candidates@[p]@,
                    ))) by {
                    if ops@[j as int].role == OperandRole::Source && names_register(
                        ops@[j as int],
                        candidates@[p]@,
                    ) {
                        assert(0 <= j < j + 1);
                    }
                }
            }
            j += 1;
        }
        proof {
            assert forall|p: int| 0 <= p < m implies (#[trigger] seen@[p]) == read_before_write(
                post,
                candidates@[p]@,
            ) by {
                let c = candidates@[p]@;
                if reads_register(post.last(), c) {
                    let t = choose|t: int|
                        0 <= t < post.last().typed_operands@.len()
                            && #[trigger] post.last().typed_operands@[t].role == OperandRole::Source
                            && names_register(post.last().typed_operands@[t], c);
                    assert(ops@[t].role == OperandRole::Source);
                }
            }
        }
        let mut j2: usize = 0;
        while j2 < ops.len()
            invariant
                i < n,
                n <= instructions@.len(),
                ops == &instructions@[i as int].typed_operands,
                j2 <= ops@.len(),
                m == candidates@.len(),
                seen@.len() == m,
                written@.len() == m,
                forall|q: int| 0 <= q < m ==> (#[trigger] seen@[q]) == read_before_write(post, candidates@[q]@),
                forall|q: int| 0 <= q < m ==> (#[trigger] written@[q]) == (writes_any(pre, candidates@[q]@) || exists|t: int|
                    0 <= t < j2 && #[trigger] ops@[t].role == OperandRole::Destination && names_register(
                        ops@[t],
                        candidates@[q]@,
                    )),
            decreases ops@.len() - j2,
        {
            let ghost written_before = written@;
            let mut q: usize = 0;
            while q < m
                invariant
                    q <= m,
                    j2 < ops@.len(),
                    m == candidates@.len(),
                    written@.len() == m,
                    forall|p: int| q <= p < m ==> written@[p] == written_before[p],
                    forall|p: int| 0 <= p < q ==> (#[trigger] written@[p]) == (written_before[p] || (
                    ops@[j2 as int].role == OperandRole::Destination && names_register(
                        ops@[j2 as int],
                        candidates@[p]@,
                    ))),
                decreases m - q,
            {
                if ops[j2].role == OperandRole::Destination && operand_names(&ops[j2], candidates[q]) {
                    written.set(q, true);
                }
                q += 1;
            }
            proof {
                assert forall|p: int| 0 <= p < m implies (#[trigger] written@[p]) == (writes_any(
                    pre,
                    candidates@[p]@,
                ) || exists|t: int|
                    0 <= t < j2 + 1 && #[trigger] ops@[t].role == OperandRole::Destination
                        && names_register(ops@[t], candidates@[p]@)) by {
                    if ops@[j2 as int].role == OperandRole::Destination && names_register(
                        ops@[j2 as int],
                        candidates@[p]@,
                    ) {
                        assert(0 <= j2 < j2 + 1);
                    }
                }
            }
            j2 += 1;
        }
        proof {
            assert forall|p: int| 0 <= p < m implies (#[trigger] written@[p]) == writes_any(
                post,
                candidates@[p]@,
            ) by {
                let c = candidates@[p]@;
                if writes_any(post, c) {
                    let x = choose|x: int| 0 <= x < post.len() && writes_register(#[trigger] post[x], c);
                    if x == i {
                        let t = choose|t: int|
                            0 <= t < post[x].typed_operands@.len()
                                && #[trigger] post[x].typed_operands@[t].role
                                == OperandRole::Destination && names_register(
                                post[x].typed_operands@[t],
                                c,
                            );
                        assert(ops@[t].role == OperandRole::Destination);
                    } else {
                        assert(pre[x] == post[x]);
                        assert(writes_any(pre, c));
                    }
                }
                if writes_any(pre, c) {
                    let x = choose|x: int| 0 <= x < pre.len() && writes_register(#[trigger] pre[x], c);
                    assert(post[x] == pre[x]);
                }
                if exists|t: int|
                    0 <= t < ops@.len() && #[trigger] ops@[t].role == OperandRole::Destination
                        && names_register(ops@[t], c) {
                    let t = choose|t: int|
                        0 <= t < ops@.len() && #[trigger] ops@[t].role == OperandRole::Destination
                            && names_register(ops@[t], c);
                    assert(post[i as int].typed_operands@[t].role == OperandRole::Destination);
                    assert(writes_register(post[i as int], c));
                }
            }
        }
        i += 1;
    }
    assert(w.subrange(0, n as int) =~= w);
    let mut hints: Vec<ArgumentRegisterHint> = Vec::new();
    let mut k: usize = 0;
    while k < m
        invariant
            k <= m,
            m == candidates@.len(),
            m <= 6,
            m == spec_cands.len(),
            forall|q: int| 0 <= q < m ==> (#[trigger] candidates@[q])@ == spec_cands[q],
            seen@.len() == m,
            forall|q: int| 0 <= q < m ==> (#[trigger] seen@[q]) == read_before_write(w, candidates@[q]@),
            hints_view(hints@) == hints_upto(spec_cands, w, k as nat),
        decreases m - k,
    {
        if seen[k] {
            let ghost before = hints@;
            hints.push(ArgumentRegisterHint { ordinal: k as u8, register: string_of(candidates[k]) });
            assert(hints_view(hints@) =~= hints_view(before).push((k as nat, spec_cands[k as int])));
        }
        k += 1;
    }
    if hints.len() == 0 {
        None
    } else {
        Some((calling_convention, hints))
    }
}

/// A stack location addressed relative to `rbp` or `rsp`, with its width (the first one seen)
/// and the kinds of access made to it, sorted.
#[derive(Clone, Debug, PartialEq, Eq)]
pub struct StackSlot {
    pub base: String,
    pub offset: i64,
    pub width_bits: Option<u16>,
    pub accesses: Vec<String>,
}

/// A slot's identity: frame register and displacement.
pub type SlotKey = (Seq<char>, i64);

/// What is known of a slot: its width and the kinds of access made to it.
pub type SlotFacts = (Option<u16>, Set<Seq<char>>);

/// Whether an operand addresses a stack slot: memory based on `rbp` or `rsp` with a
/// displacement.
pub open spec fn is_slot_operand(op: DecodedOperand) -> bool {
    &&& op.kind == OperandKind::Memory
    &&& op.base matches Some(b) && (b@ == "rbp"@ || b@ == "rsp"@)
    &&& op.displacement is Some
}

/// The slot a stack operand addresses.
pub open spec fn slot_key(op: DecodedOperand) -> SlotKey {
    (op.base.unwrap()@, op.displacement.unwrap())
}

/// The slot table after one more operand.
pub open spec fn table_step(t: Map<SlotKey, SlotFacts>, op: DecodedOperand) -> Map<SlotKey, SlotFacts> {
    if is_slot_operand(op) {
        let key = slot_key(op);
        let kind = spec_access_kind(op.role);
        if t.contains_key(key) {
            let old = t[key];
            t.insert(
                key,
                (
                    if old.0 is None {
                        op.width_bits
                    } else {
                        old.0
                    },
                    old.1.insert(kind),
                ),
            )
        } else {
            t.insert(key, (op.width_bits, set![kind]))
        }
    } else {
        t
    }
}

/// The stack slots a sequence of operands touches.
pub open spec fn slot_table(ops: Seq<DecodedOperand>) -> Map<SlotKey, SlotFacts>
    decreases ops.len(),
{
    if ops.len() == 0 {
        Map::empty()
    } else {
        table_step(slot_table(ops.drop_last()), ops.last())
    }
}

/// All operands of a list of instructions, in order.
pub open spec fn flat_operands(instrs: Seq<DecodedInstruction>) -> Seq<DecodedOperand>
    decreases instrs.len(),
{
    if instrs.len() == 0 {
        Seq::empty()
    } else {
        flat_operands(instrs.drop_last()) + instrs.last().typed_operands@
    }
}

/// The order of slots: by frame register name, then by displacement.
pub open spec fn key_lt(a: SlotKey, b: SlotKey) -> bool {
    lex_lt(a.0, b.0) || (a.0 == b.0 && a.1 < b.1)
}

/// The key of a stored slot.
pub open spec fn stored_key(s: StackSlot) -> SlotKey {
    (s.base@, s.offset)
}

/// `v` lists the slots of table `t`, one each, in slot order, with their facts.
pub open spec fn slots_match(v: Seq<StackSlot>, t: Map<SlotKey, SlotFacts>) -> bool {
    &&& forall|i: int, j: int| 0 <= i < j < v.len() ==> key_lt(stored_key(v[i]), stored_key(v[j]))
    &&& forall|i: int|
        0 <= i < v.len() ==> {
            &&& t.contains_key(#[trigger] stored_key(v[i]))
            &&& v[i].width_bits == t[stored_key(v[i])].0
            &&& lists_exactly(v[i].accesses@, t[stored_key(v[i])].1)
        }
    &&& forall|k: SlotKey| #[trigger] t.contains_key(k) ==> exists|i: int| 0 <= i < v.len() && stored_key(v[i]) == k
}

proof fn lemma_key_order(a: SlotKey, b: SlotKey, c: SlotKey)
    ensures
        !key_lt(a, a),
        key_lt(a, b) && key_lt(b, c) ==> key_lt(a, c),
        key_lt(a, b) ==> !key_lt(b, a),
        a == b || key_lt(a, b) || key_lt(b, a),
{
    lemma_lex_irreflexive(a.0);
    lemma_lex_trichotomy(a.0, b.0);
    lemma_lex_asymmetric(a.0, b.0);
    if key_lt(a, b) && key_lt(b, c) {
        if lex_lt(a.0, b.0) && lex_lt(b.0, c.0) {
            lemma_lex_transitive(a.0, b.0, c.0);
        }
    }
}

fn slot_key_lt(s: &StackSlot, base: &str, offset: i64) -> (r: bool)
    ensures
        r == key_lt(stored_key(*s), (base@, offset)),
{
    str_lt(s.base.as_str(), base) || (str_eq(s.base.as_str(), base) && s.offset < offset)
}

/// Records one operand's access in the sorted slot list.
fn record_slot_access(slots: &mut Vec<StackSlot>, op: &DecodedOperand, Ghost(t): Ghost<Map<SlotKey, SlotFacts>>)
    requires
        slots_match(old(slots)@, t),
    ensures
        slots_match(final(slots)@, table_step(t, *op)),
{
    if op.kind != OperandKind::Memory {
        return;
    }
    let base = match &op.base {
        Some(b) => b.as_str(),
        None => return,
    };
    if !(str_eq(base, "rbp") || str_eq(base, "rsp")) {
        return;
    }
    let offset = match op.displacement {
        Some(d) => d,
        None => return,
    };
    let kind = stack_slot_access_kind(op.role);
    let ghost key = slot_key(*op);
    let ghost old_v = slots@;
    assert(key == (base@, offset));
    let n = slots.len();
    let mut p: usize = 0;
    while p < n && slot_key_lt(&slots[p], base, offset)
        invariant
            p <= n,
            n == slots@.len(),
            slots@ == old_v,
            key == (base@, offset),
            forall|q: int| 0 <= q < p ==> key_lt(stored_key(old_v[q]), key),
        decreases n - p,
    {
        p += 1;
    }
    if p < n && str_eq(slots[p].base.as_str(), base) && slots[p].offset == offset {
        assert(stored_key(old_v[p as int]) == key);
        assert(t.contains_key(key));
        let mut slot = slots.remove(p);
        if slot.width_bits.is_none() {
            slot.width_bits = op.width_bits;
        }
        insert_sorted_register(&mut slot.accesses, kind);
        slots.insert(p, slot);
        proof {
            let v = slots@;
            let t2 = table_step(t, *op);
            assert(v.len() == old_v.len());
            assert forall|q: int| 0 <= q < v.len() && q != p implies v[q] == old_v[q] by {}
            assert forall|q: int| 0 <= q < v.len() implies stored_key(#[trigger] v[q]) == stored_key(old_v[q]) by {}
            assert forall|q: int| 0 <= q < v.len() && q != p implies stored_key(#[trigger] v[q]) != key by {
                if q < p {
                    lemma_key_order(stored_key(old_v[q]), key, key);
                } else {
                    assert(key_lt(key, stored_key(old_v[q])));
                    lemma_key_order(key, key, key);
                }
            }
            assert forall|k: SlotKey| #[trigger] t2.contains_key(k) implies exists|i: int|
                0 <= i < v.len() && stored_key(v[i]) == k by {
                if k == key {
                    assert(stored_key(v[p as int]) == k);
                } else {
                    assert(t.contains_key(k));
                    let i = choose|i: int| 0 <= i < old_v.len() && stored_key(old_v[i]) == k;
                    assert(stored_key(v[i]) == k);
                }
            }
        }
    } else {
        proof {
            assert forall|q: int| p <= q < n implies key_lt(key, stored_key(#[trigger] old_v[q])) by {
                lemma_key_order(key, stored_key(old_v[p as int]), stored_key(old_v[q]));
                if q > p {
                    lemma_key_order(key, stored_key(old_v[p as int]), stored_key(old_v[q]));
                }
            }
            assert(!t.contains_key(key)) by {
                if t.contains_key(key) {
                    let i = choose|i: int| 0 <= i < old_v.len() && stored_key(old_v[i]) == key;
                    if i < p {
                        lemma_key_order(key, key, key);
                    } else {
                        lemma_key_order(key, key, key);
                    }
                }
            }
        }
        let mut accesses: Vec<String> = Vec::new();
        assert(name_set(accesses@) =~= Set::<Seq<char>>::empty());
        insert_sorted_register(&mut accesses, kind);
        assert(name_set(accesses@) =~= set![kind@]);
        slots.insert(p, StackSlot { base: string_of(base), offset, width_bits: op.width_bits, accesses });
        proof {
            let v = slots@;
            let t2 = table_step(t, *op);
            assert(v == old_v.insert(p as int, v[p as int]));
            assert forall|a: int, b: int| 0 <= a < b < v.len() implies key_lt(stored_key(v[a]), stored_key(v[b])) by {
                if a < p && b == p {
                } else if a < p && b > p {
                    assert(v[b] == old_v[b - 1]);
                    lemma_key_order(stored_key(v[a]), key, stored_key(v[b]));
                } else if a == p {
                    assert(v[b] == old_v[b - 1]);
                } else if a > p {
                    assert(v[a] == old_v[a - 1]);
                    assert(v[b] == old_v[b - 1]);
                }
            }
            assert forall|i: int| 0 <= i < v.len() implies {
                &&& t2.contains_key(#[trigger] stored_key(v[i]))
                &&& v[i].width_bits == t2[stored_key(v[i])].0
                &&& lists_exactly(v[i].accesses@, t2[stored_key(v[i])].1)
            } by {
                if i < p {
                    assert(v[i] == old_v[i]);
                    assert(key_lt(stored_key(old_v[i]), key));
                    lemma_key_order(key, key, key);
                } else if i > p {
                    assert(v[i] == old_v[i - 1]);
                    assert(key_lt(key, stored_key(old_v[i - 1])));
                    lemma_key_order(key, key, key);
                }
            }
            assert forall|k: SlotKey| #[trigger] t2.contains_key(k) implies exists|i: int|
                0 <= i < v.len() && stored_key(v[i]) == k by {
                if k == key {
                    assert(stored_key(v[p as int]) == k);
                } else {
                    assert(t.contains_key(k));
                    let i = choose|i: int| 0 <= i < old_v.len() && stored_key(old_v[i]) == k;
                    if i < p {
                        assert(stored_key(v[i]) == k);
                    } else {
                        assert(stored_key(v[i + 1]) == k);
                    }
                }
            }
        }
    }
}

/// The slot table of operands `ops` has a slot for each slot operand, and only slots based on
/// `rbp` or `rsp`.
proof fn lemma_slot_table_keys(ops: Seq<DecodedOperand>)
    ensures
        forall|k: SlotKey| #[trigger] slot_table(ops).contains_key(k) ==> k.0 == "rbp"@ || k.0 == "rsp"@,
        forall|j: int| 0 <= j < ops.len() && is_slot_operand(#[trigger] ops[j]) ==> slot_table(ops).contains_key(slot_key(ops[j])),
    decreases ops.len(),
{
    if ops.len() > 0 {
        lemma_slot_table_keys(ops.drop_last());
        assert forall|j: int| 0 <= j < ops.len() && is_slot_operand(#[trigger] ops[j]) implies slot_table(ops).contains_key(
            slot_key(ops[j]),
        ) by {
            if j < ops.len() - 1 {
                assert(ops.drop_last()[j] == ops[j]);
            }
        }
    }
}

/// Law of stack slots: the slots of a function are in slot order, one per (base, offset), each
/// based on `rbp` or `rsp`, and every memory operand based on `rbp` or `rsp` with a displacement
/// has its slot among them.
pub proof fn law_stack_slots_cover_frame_operands(instrs: Seq<DecodedInstruction>, v: Seq<StackSlot>)
    requires
        slots_match(v, slot_table(flat_operands(instrs))),
    ensures
        forall|i: int, j: int| 0 <= i < j < v.len() ==> key_lt(stored_key(#[trigger] v[i]), stored_key(#[trigger] v[j])),
        forall|i: int| 0 <= i < v.len() ==> (#[trigger] v[i]).base@ == "rbp"@ || v[i].base@ == "rsp"@,
        forall|j: int|
            0 <= j < flat_operands(instrs).len() && is_slot_operand(#[trigger] flat_operands(instrs)[j]) ==> exists|i: int|
                0 <= i < v.len() && stored_key(v[i]) == slot_key(flat_operands(instrs)[j]),
{
    let ops = flat_operands(instrs);
    lemma_slot_table_keys(ops);
    assert forall|i: int| 0 <= i < v.len() implies (#[trigger] v[i]).base@ == "rbp"@ || v[i].base@ == "rsp"@ by {
        assert(slot_table(ops).contains_key(stored_key(v[i])));
    }
    assert forall|j: int| 0 <= j < ops.len() && is_slot_operand(#[trigger] ops[j]) implies exists|i: int|
        0 <= i < v.len() && stored_key(v[i]) == slot_key(ops[j]) by {
        assert(slot_table(ops).contains_key(slot_key(ops[j])));
    }
}

/// The stack slots (relative to `rbp` or `rsp`) the instructions' memory operands touch, in
/// slot order, each with the first width seen and the sorted kinds of access.
pub fn stack_slots_for_instructions(instructions: &[DecodedInstruction]) -> (r: Vec<StackSlot>)
    ensures
        slots_match(r@, slot_table(flat_operands(instructions@))),
{
    let mut slots: Vec<StackSlot> = Vec::new();
    let mut i: usize = 0;
    assert(flat_operands(instructions@.subrange(0, 0)) =~= Seq::<DecodedOperand>::empty());
    while i < instructions.len()
        invariant
            i <= instructions@.len(),
            slots_match(slots@, slot_table(flat_operands(instructions@.subrange(0, i as int)))),
        decreases instructions@.len() - i,
    {
        let ops = &instructions[i].typed_operands;
        let ghost done = flat_operands(instructions@.subrange(0, i as int));
        let mut j: usize = 0;
        assert(done + ops@.subrange(0, 0) =~= done);
        while j < ops.len()
            invariant
                j <= ops@.len(),
                slots_match(slots@, slot_table(done + ops@.subrange(0, j as int))),
            decreases ops@.len() - j,
        {
            let ghost prefix = done + ops@.subrange(0, j as int);
            record_slot_access(&mut slots, &ops[j], Ghost(slot_table(prefix)));
            assert((done + ops@.subrange(0, j + 1)).drop_last() =~= prefix);
            assert((done + ops@.subrange(0, j + 1)).last() == ops@[j as int]);
            j += 1;
        }
        assert(ops@.subrange(0, ops@.len() as int) =~= ops@);
        assert(instructions@.subrange(0, i + 1).drop_last() =~= instructions@.subrange(0, i as int));
        i += 1;
    }
    assert(instructions@.subrange(0, instructions@.len() as int) =~= instructions@);
    slots
}

} // verus!
