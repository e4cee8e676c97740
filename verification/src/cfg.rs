use vstd::prelude::*;

use crate::constants::{
    RegisterConstantSource, RegisterConstantWrite, ConstantView, constants_view, constant_index,
    find_constant,
};
use crate::constants::{
    WriteModel, writes_view, option_seq, spec_constant_write, spec_copied_write,
    spec_zero_extended_aliases, spec_low_byte_aliases, constant_writes_for_instruction,
    copied_constant_writes_for_instruction, zero_extended_alias_constant_writes,
    low_byte_alias_constant_writes, spec_imul_write, spec_movzx_write, spec_movsx_write,
    spec_movsxd_write, spec_arithmetic_write, imul_constant_writes_for_instruction,
    movzx_constant_writes_for_instruction, movsx_constant_writes_for_instruction,
    movsxd_constant_writes_for_instruction, arithmetic_constant_writes_for_instruction,
};
use crate::registers::{
    names_view, sorted_names_of, instruction_reads, instruction_writes, lemma_listed_names,
    register_accesses_for_instruction, spec_zero_extended_alias, spec_low_byte_alias,
    zero_extended_alias_register, low_byte_alias_register,
};
use crate::decode::{DecodedInstruction, DecodedOperand, OperandKind, OperandRole, InstructionFlow};
use crate::text::str_eq;
use crate::conditions::{
    FlagCondition, is_flag_producer, condition_from_flag_producer, branch_condition_summary, spec_branch_summary,
    spec_cmov_write, spec_setcc_write, cmov_constant_writes_for_instruction,
    setcc_constant_writes_for_instruction,
};
use crate::decode::{
    decode_native_instructions, decoding_tiles, lemma_tiling_facts, bytes_hex, bytes_hex_spec, spec_flow_kind, spec_control_flow_target, first_data_reference_spec,
};
use crate::conditions::{spec_known_outcome_label, branch_edge_context};
use crate::sections::{increasing, insert_sorted_u64};
use crate::decode::spec_is_terminal;

verus! {

/// An exact copy of an optional string.
fn copy_opt_string(s: &Option<String>) -> (r: Option<String>)
    ensures
        r == *s,
{
    match s {
        Some(x) => Some(x.clone()),
        None => None,
    }
}

/// An exact copy of an operand.
pub fn copy_operand(op: &DecodedOperand) -> (r: DecodedOperand)
    ensures
        r == *op,
{
    DecodedOperand {
        role: op.role,
        kind: op.kind,
        text: op.text.clone(),
        register: copy_opt_string(&op.register),
        base: copy_opt_string(&op.base),
        index: copy_opt_string(&op.index),
        scale: op.scale,
        displacement: op.displacement,
        value: op.value,
        width_bits: op.width_bits,
        effective_address: op.effective_address,
    }
}

/// An exact copy of a list of operands.
pub fn copy_operands(ops: &[DecodedOperand]) -> (r: Vec<DecodedOperand>)
    ensures
        r@ == ops@,
{
    let mut out: Vec<DecodedOperand> = Vec::new();
    let mut i: usize = 0;
    while i < ops.len()
        invariant
            i <= ops@.len(),
            out@ == ops@.subrange(0, i as int),
        decreases ops@.len() - i,
    {
        out.push(copy_operand(&ops[i]));
        i += 1;
        assert(out@ =~= ops@.subrange(0, i as int));
    }
    assert(ops@.subrange(0, ops@.len() as int) =~= ops@);
    out
}

/// The register a read was last written by: the register and the writing instruction's
/// address.
#[derive(Clone, Debug, PartialEq, Eq)]
pub struct RegisterSource {
    pub register: String,
    pub source: u64,
}

/// A last-writer entry as a value: register name, writing instruction address.
pub type WriterView = (Seq<char>, u64);

/// A last-writer table as values.
pub open spec fn writers_view(t: Seq<RegisterSource>) -> Seq<WriterView> {
    Seq::new(t.len(), |i: int| (t[i].register@, t[i].source))
}

/// The table without the entry for `reg`.
pub open spec fn writers_without(t: Seq<WriterView>, reg: Seq<char>) -> Seq<WriterView>
    decreases t.len(),
{
    if t.len() == 0 {
        t
    } else {
        let rest = writers_without(t.drop_last(), reg);
        if t.last().0 == reg {
            rest
        } else {
            rest.push(t.last())
        }
    }
}

/// The constant table without the entry for `reg`.
pub open spec fn constants_without(t: Seq<ConstantView>, reg: Seq<char>) -> Seq<ConstantView>
    decreases t.len(),
{
    if t.len() == 0 {
        t
    } else {
        let rest = constants_without(t.drop_last(), reg);
        if t.last().0 == reg {
            rest
        } else {
            rest.push(t.last())
        }
    }
}

/// Position of the first entry for `reg`.
#[verifier::opaque]
pub open spec fn writer_index(t: Seq<WriterView>, reg: Seq<char>) -> Option<int> {
    if exists|k: int| 0 <= k < t.len() && t[k].0 == reg {
        Some(
            choose|k: int|
                0 <= k < t.len() && t[k].0 == reg && forall|j: int| 0 <= j < k ==> t[j].0 != reg,
        )
    } else {
        None
    }
}

/// Finds the entry for `register`.
fn find_writer(t: &[RegisterSource], register: &str) -> (r: Option<usize>)
    ensures
        match r {
            Some(k) => writer_index(writers_view(t@), register@) == Some(k as int) && k < t@.len(),
            None => writer_index(writers_view(t@), register@) is None,
        },
{
    let ghost w = writers_view(t@);
    let mut i: usize = 0;
    while i < t.len()
        invariant
            w == writers_view(t@),
            i <= t@.len(),
            forall|j: int| 0 <= j < i ==> w[j].0 != register@,
        decreases t@.len() - i,
    {
        if str_eq(t[i].register.as_str(), register) {
            proof {
                reveal(writer_index);
                let c = choose|k: int|
                    0 <= k < w.len() && w[k].0 == register@ && forall|j: int|
                        0 <= j < k ==> w[j].0 != register@;
                assert(0 <= i < w.len() && w[i as int].0 == register@ && forall|j: int|
                    0 <= j < i ==> w[j].0 != register@);
                assert(c == i);
            }
            return Some(i);
        }
        i += 1;
    }
    proof {
        reveal(writer_index);
    }
    None
}

/// Drops the entry for `register`.
fn remove_writer(t: &mut Vec<RegisterSource>, register: &str)
    ensures
        writers_view(final(t)@) == writers_without(writers_view(old(t)@), register@),
{
    let ghost old_t = writers_view(t@);
    let mut out: Vec<RegisterSource> = Vec::new();
    let mut i: usize = 0;
    while i < t.len()
        invariant
            writers_view(t@) == old_t,
            i <= t@.len(),
            writers_view(out@) == writers_without(old_t.subrange(0, i as int), register@),
        decreases t@.len() - i,
    {
        assert(old_t.subrange(0, i + 1).drop_last() =~= old_t.subrange(0, i as int));
        assert(old_t.subrange(0, i + 1).last() == old_t[i as int]);
        if !str_eq(t[i].register.as_str(), register) {
            let ghost before = out@;
            out.push(RegisterSource { register: t[i].register.clone(), source: t[i].source });
            assert(writers_view(out@) =~= writers_view(before).push(old_t[i as int]));
        }
        i += 1;
    }
    assert(old_t.subrange(0, old_t.len() as int) =~= old_t);
    *t = out;
}

/// Records that `register` was last written by the instruction at `source`.
fn set_writer(t: &mut Vec<RegisterSource>, register: &str, source: u64)
    ensures
        writers_view(final(t)@) == writers_without(writers_view(old(t)@), register@).push(
            (register@, source),
        ),
{
    remove_writer(t, register);
    let ghost before = t@;
    t.push(RegisterSource { register: String::from_str(register), source });
    assert(writers_view(t@) =~= writers_view(before).push((register@, source)));
}

/// Drops the known constant of `register`.
fn remove_constant(t: &mut Vec<RegisterConstantSource>, register: &str)
    ensures
        constants_view(final(t)@) == constants_without(constants_view(old(t)@), register@),
{
    let ghost old_t = constants_view(t@);
    let mut out: Vec<RegisterConstantSource> = Vec::new();
    let mut i: usize = 0;
    while i < t.len()
        invariant
            constants_view(t@) == old_t,
            i <= t@.len(),
            constants_view(out@) == constants_without(old_t.subrange(0, i as int), register@),
        decreases t@.len() - i,
    {
        assert(old_t.subrange(0, i + 1).drop_last() =~= old_t.subrange(0, i as int));
        assert(old_t.subrange(0, i + 1).last() == old_t[i as int]);
        if !str_eq(t[i].register.as_str(), register) {
            let ghost before = out@;
            out.push(
                RegisterConstantSource {
                    register: t[i].register.clone(),
                    value: t[i].value,
                    width_bits: t[i].width_bits,
                    source: t[i].source,
                },
            );
            assert(constants_view(out@) =~= constants_view(before).push(old_t[i as int]));
        }
        i += 1;
    }
    assert(old_t.subrange(0, old_t.len() as int) =~= old_t);
    *t = out;
}

/// Records `register` as holding `value` (of `width_bits`), set by the instruction at `source`.
fn put_constant(
    t: &mut Vec<RegisterConstantSource>,
    register: &str,
    value: u64,
    width_bits: Option<u16>,
    source: u64,
)
    ensures
        constants_view(final(t)@) == constants_without(constants_view(old(t)@), register@).push(
            (register@, value, width_bits, source),
        ),
{
    remove_constant(t, register);
    let ghost before = t@;
    t.push(RegisterConstantSource { register: String::from_str(register), value, width_bits, source });
    assert(constants_view(t@) =~= constants_view(before).push((register@, value, width_bits, source)));
}

/// The last writers of the registers `reads`, in the order of `reads`.
pub open spec fn writer_sources(reads: Seq<Seq<char>>, t: Seq<WriterView>) -> Seq<WriterView>
    decreases reads.len(),
{
    if reads.len() == 0 {
        Seq::empty()
    } else {
        let rest = writer_sources(reads.drop_last(), t);
        match writer_index(t, reads.last()) {
            Some(k) => rest.push((reads.last(), t[k].1)),
            None => rest,
        }
    }
}

/// The known constants of the registers `reads`, in the order of `reads`.
pub open spec fn constant_sources_of(reads: Seq<Seq<char>>, t: Seq<ConstantView>) -> Seq<ConstantView>
    decreases reads.len(),
{
    if reads.len() == 0 {
        Seq::empty()
    } else {
        let rest = constant_sources_of(reads.drop_last(), t);
        match constant_index(t, reads.last()) {
            Some(k) => rest.push(t[k]),
            None => rest,
        }
    }
}

/// The last writer of each register read that has one.
fn lookup_writers(reads: &Vec<String>, t: &Vec<RegisterSource>) -> (r: Vec<RegisterSource>)
    ensures
        writers_view(r@) == writer_sources(names_view(reads@), writers_view(t@)),
{
    let mut out: Vec<RegisterSource> = Vec::new();
    let mut i: usize = 0;
    while i < reads.len()
        invariant
            i <= reads@.len(),
            writers_view(out@) == writer_sources(names_view(reads@).subrange(0, i as int), writers_view(t@)),
        decreases reads@.len() - i,
    {
        let ghost pre = names_view(reads@).subrange(0, i as int);
        let ghost post = names_view(reads@).subrange(0, i + 1);
        assert(post.drop_last() =~= pre);
        assert(post.last() == reads@[i as int]@);
        match find_writer(t.as_slice(), reads[i].as_str()) {
            Some(k) => {
                let ghost before = out@;
                out.push(RegisterSource { register: reads[i].clone(), source: t[k].source });
                assert(writers_view(out@) =~= writers_view(before).push((reads@[i as int]@, t@[k as int].source)));
            },
            None => {},
        }
        i += 1;
    }
    assert(names_view(reads@).subrange(0, reads@.len() as int) =~= names_view(reads@));
    out
}

/// The known constant of each register read that has one.
fn lookup_constants(reads: &Vec<String>, t: &Vec<RegisterConstantSource>) -> (r: Vec<
    RegisterConstantSource,
>)
    ensures
        constants_view(r@) == constant_sources_of(names_view(reads@), constants_view(t@)),
{
    let mut out: Vec<RegisterConstantSource> = Vec::new();
    let mut i: usize = 0;
    while i < reads.len()
        invariant
            i <= reads@.len(),
            constants_view(out@) == constant_sources_of(names_view(reads@).subrange(0, i as int), constants_view(t@)),
        decreases reads@.len() - i,
    {
        let ghost pre = names_view(reads@).subrange(0, i as int);
        let ghost post = names_view(reads@).subrange(0, i + 1);
        assert(post.drop_last() =~= pre);
        assert(post.last() == reads@[i as int]@);
        match find_constant(t.as_slice(), reads[i].as_str()) {
            Some(k) => {
                let ghost before = out@;
                let c = &t[k];
                out.push(
                    RegisterConstantSource {
                        register: c.register.clone(),
                        value: c.value,
                        width_bits: c.width_bits,
                        source: c.source,
                    },
                );
                assert(constants_view(out@) =~= constants_view(before).push(constants_view(t@)[k as int]));
            },
            None => {},
        }
        i += 1;
    }
    assert(names_view(reads@).subrange(0, reads@.len() as int) =~= names_view(reads@));
    out
}

/// The register an indirect call or jump goes through: the first call or branch target
/// operand that is a named register.
pub open spec fn target_register_index(ops: Seq<DecodedOperand>) -> Option<int> {
    if exists|k: int|
        0 <= k < ops.len() && (ops[k].role == OperandRole::CallTarget || ops[k].role
            == OperandRole::BranchTarget) && ops[k].kind == OperandKind::Register
            && ops[k].register is Some {
        Some(
            choose|k: int|
                0 <= k < ops.len() && (ops[k].role == OperandRole::CallTarget || ops[k].role
                    == OperandRole::BranchTarget) && ops[k].kind == OperandKind::Register
                    && ops[k].register is Some && forall|j: int|
                    0 <= j < k ==> !((ops[j].role == OperandRole::CallTarget || ops[j].role
                        == OperandRole::BranchTarget) && ops[j].kind == OperandKind::Register
                        && ops[j].register is Some),
        )
    } else {
        None
    }
}

/// Where an indirect call or jump through a register of known value goes.
pub open spec fn spec_resolved_target(ins: DecodedInstruction, sources: Seq<ConstantView>) -> Option<u64> {
    if ins.flow != InstructionFlow::Call && ins.flow != InstructionFlow::Jump {
        None
    } else {
        match target_register_index(ins.typed_operands@) {
            Some(k) => match constant_index(sources, ins.typed_operands@[k].register.unwrap()@) {
                Some(c) => Some(sources[c].1),
                None => None,
            },
            None => None,
        }
    }
}

fn find_target_register(ops: &Vec<DecodedOperand>) -> (r: Option<usize>)
    ensures
        match r {
            Some(k) => target_register_index(ops@) == Some(k as int) && k < ops@.len()
                && ops@[k as int].register is Some,
            None => target_register_index(ops@) is None,
        },
{
    let mut i: usize = 0;
    while i < ops.len()
        invariant
            i <= ops@.len(),
            forall|j: int|
                0 <= j < i ==> !((ops@[j].role == OperandRole::CallTarget || ops@[j].role
                    == OperandRole::BranchTarget) && ops@[j].kind == OperandKind::Register
                    && ops@[j].register is Some),
        decreases ops@.len() - i,
    {
        if (ops[i].role == OperandRole::CallTarget || ops[i].role == OperandRole::BranchTarget)
            && ops[i].kind == OperandKind::Register && ops[i].register.is_some() {
            proof {
                let o = ops@;
                let c = choose|k: int|
                    0 <= k < o.len() && (o[k].role == OperandRole::CallTarget || o[k].role
                        == OperandRole::BranchTarget) && o[k].kind == OperandKind::Register
                        && o[k].register is Some && forall|j: int|
                        0 <= j < k ==> !((o[j].role == OperandRole::CallTarget || o[j].role
                            == OperandRole::BranchTarget) && o[j].kind == OperandKind::Register
                            && o[j].register is Some);
                assert(0 <= i < o.len() && (o[i as int].role == OperandRole::CallTarget || o[i as int].role
                    == OperandRole::BranchTarget) && o[i as int].kind == OperandKind::Register
                    && o[i as int].register is Some && forall|j: int|
                    0 <= j < i ==> !((o[j].role == OperandRole::CallTarget || o[j].role
                        == OperandRole::BranchTarget) && o[j].kind == OperandKind::Register
                        && o[j].register is Some));
                assert(c == i);
            }
            return Some(i);
        }
        i += 1;
    }
    None
}

/// The target of an indirect call or jump through a register whose value is known.
pub fn resolved_control_flow_target(
    instruction: &DecodedInstruction,
    constant_sources: &[RegisterConstantSource],
) -> (r: Option<u64>)
    ensures
        r == spec_resolved_target(*instruction, constants_view(constant_sources@)),
{
    if instruction.flow != InstructionFlow::Call && instruction.flow != InstructionFlow::Jump {
        return None;
    }
    let k = match find_target_register(&instruction.typed_operands) {
        Some(k) => k,
        None => return None,
    };
    let register = match &instruction.typed_operands[k].register {
        Some(x) => x.as_str(),
        None => return None,
    };
    match find_constant(constant_sources, register) {
        Some(c) => Some(constant_sources[c].value),
        None => None,
    }
}

/// The registers an instruction reads, sorted.
pub open spec fn reads_list(d: DecodedInstruction) -> Seq<Seq<char>> {
    sorted_names_of(instruction_reads(d.mnemonic@, d.typed_operands@))
}

/// The registers an instruction writes, sorted.
pub open spec fn writes_list(d: DecodedInstruction) -> Seq<Seq<char>> {
    sorted_names_of(instruction_writes(d.mnemonic@, d.typed_operands@))
}

/// The constant table after the registers in `regs` (and the registers they alias) are
/// overwritten.
pub open spec fn clear_written(t: Seq<ConstantView>, regs: Seq<Seq<char>>) -> Seq<ConstantView>
    decreases regs.len(),
{
    if regs.len() == 0 {
        t
    } else {
        let t0 = clear_written(t, regs.drop_last());
        let r = regs.last();
        let t1 = constants_without(t0, r);
        let t2 = match spec_zero_extended_alias(r) {
            Some(a) => constants_without(t1, a),
            None => t1,
        };
        match spec_low_byte_alias(r) {
            Some(a) => constants_without(t2, a),
            None => t2,
        }
    }
}

/// The constant table after the writes `ws` by the instruction at `source`.
pub open spec fn put_all(t: Seq<ConstantView>, ws: Seq<WriteModel>, source: u64) -> Seq<ConstantView>
    decreases ws.len(),
{
    if ws.len() == 0 {
        t
    } else {
        let t0 = put_all(t, ws.drop_last(), source);
        let w = ws.last();
        constants_without(t0, w.0).push((w.0, w.1 as u64, w.2, source))
    }
}

fn clear_written_exec(t: &mut Vec<RegisterConstantSource>, regs: &Vec<String>)
    ensures
        constants_view(final(t)@) == clear_written(constants_view(old(t)@), names_view(regs@)),
{
    let ghost start = constants_view(t@);
    let mut i: usize = 0;
    while i < regs.len()
        invariant
            i <= regs@.len(),
            constants_view(t@) == clear_written(start, names_view(regs@).subrange(0, i as int)),
        decreases regs@.len() - i,
    {
        let ghost post = names_view(regs@).subrange(0, i + 1);
        assert(post.drop_last() =~= names_view(regs@).subrange(0, i as int));
        assert(post.last() == regs@[i as int]@);
        let r = regs[i].as_str();
        remove_constant(t, r);
        match zero_extended_alias_register(r) {
            Some(a) => remove_constant(t, a),
            None => {},
        }
        match low_byte_alias_register(r) {
            Some(a) => remove_constant(t, a),
            None => {},
        }
        i += 1;
    }
    assert(names_view(regs@).subrange(0, regs@.len() as int) =~= names_view(regs@));
}

fn put_all_exec(t: &mut Vec<RegisterConstantSource>, ws: &Vec<RegisterConstantWrite>, source: u64)
    ensures
        constants_view(final(t)@) == put_all(constants_view(old(t)@), writes_view(ws@), source),
{
    let ghost start = constants_view(t@);
    let mut i: usize = 0;
    while i < ws.len()
        invariant
            i <= ws@.len(),
            constants_view(t@) == put_all(start, writes_view(ws@).subrange(0, i as int), source),
        decreases ws@.len() - i,
    {
        let ghost post = writes_view(ws@).subrange(0, i + 1);
        assert(post.drop_last() =~= writes_view(ws@).subrange(0, i as int));
        assert(post.last() == ws@[i as int]@);
        put_constant(t, ws[i].register.as_str(), ws[i].value, ws[i].width_bits, source);
        i += 1;
    }
    assert(writes_view(ws@).subrange(0, ws@.len() as int) =~= writes_view(ws@));
}

/// A write list followed by its zero-extended and low-byte alias writes.
pub open spec fn with_aliases(ws: Seq<WriteModel>) -> Seq<WriteModel> {
    ws + spec_zero_extended_aliases(ws) + spec_low_byte_aliases(ws)
}

fn writes_with_aliases(writes: &Vec<RegisterConstantWrite>) -> (r: Vec<RegisterConstantWrite>)
    ensures
        writes_view(r@) == with_aliases(writes_view(writes@)),
{
    let mut out: Vec<RegisterConstantWrite> = Vec::new();
    let mut i: usize = 0;
    while i < writes.len()
        invariant
            i <= writes@.len(),
            writes_view(out@) == writes_view(writes@).subrange(0, i as int),
        decreases writes@.len() - i,
    {
        let ghost before = out@;
        out.push(
            RegisterConstantWrite {
                register: writes[i].register.clone(),
                value: writes[i].value,
                width_bits: writes[i].width_bits,
            },
        );
        assert(writes_view(out@) =~= writes_view(before).push(writes@[i as int]@));
        assert(writes_view(writes@).subrange(0, i + 1) =~= writes_view(writes@).subrange(0, i as int).push(
            writes@[i as int]@,
        ));
        i += 1;
    }
    assert(writes_view(writes@).subrange(0, writes@.len() as int) =~= writes_view(writes@));
    let mut zero = zero_extended_alias_constant_writes(writes.as_slice());
    let mut low = low_byte_alias_constant_writes(writes.as_slice());
    let ghost a = out@;
    let ghost b = zero@;
    out.append(&mut zero);
    assert(writes_view(out@) =~= writes_view(a) + writes_view(b));
    let ghost c = out@;
    let ghost d = low@;
    out.append(&mut low);
    assert(writes_view(out@) =~= writes_view(c) + writes_view(d));
    out
}

fn append_writes(into: &mut Vec<RegisterConstantWrite>, more: Vec<RegisterConstantWrite>)
    ensures
        writes_view(final(into)@) == writes_view(old(into)@) + writes_view(more@),
{
    let mut more = more;
    let ghost a = into@;
    let ghost b = more@;
    into.append(&mut more);
    assert(writes_view(into@) =~= writes_view(a) + writes_view(b));
}

/// One step of the leader pre-scan: the resolved target of `d` and the constant table after
/// it (only `mov`/`lea`/zeroing constants and register copies are followed).
pub open spec fn leader_step(t: Seq<ConstantView>, d: DecodedInstruction) -> (Option<u64>, Seq<ConstantView>) {
    let cs = constant_sources_of(reads_list(d), t);
    let resolved = spec_resolved_target(d, cs);
    let writes = option_seq(spec_constant_write(d.mnemonic@, d.typed_operands@, d.data_target))
        + option_seq(spec_copied_write(d.mnemonic@, d.typed_operands@, cs));
    (resolved, put_all(clear_written(t, writes_list(d)), with_aliases(writes), 0))
}

/// The pre-scan over the first `n` instructions: the (address, target) pairs it resolves and
/// the constant table it ends with.
pub open spec fn leader_scan(ds: Seq<DecodedInstruction>, n: nat) -> (Seq<(u64, u64)>, Seq<ConstantView>)
    decreases n,
{
    if n == 0 {
        (Seq::empty(), Seq::empty())
    } else {
        let prev = leader_scan(ds, (n - 1) as nat);
        let d = ds[n - 1];
        let step = leader_step(prev.1, d);
        let pairs = match step.0 {
            Some(t) => prev.0.push((d.address, t)),
            None => prev.0,
        };
        (pairs, step.1)
    }
}

/// Targets of indirect calls and jumps through registers holding a constant loaded earlier in
/// the function, as (instruction address, target) pairs in instruction order.
pub fn resolved_control_flow_targets_by_address(instructions: &[DecodedInstruction]) -> (r: Vec<
    (u64, u64),
>)
    ensures
        r@ == leader_scan(instructions@, instructions@.len()).0,
{
    let mut resolved: Vec<(u64, u64)> = Vec::new();
    let mut table: Vec<RegisterConstantSource> = Vec::new();
    assert(constants_view(table@) =~= Seq::<ConstantView>::empty());
    let mut i: usize = 0;
    while i < instructions.len()
        invariant
            i <= instructions@.len(),
            resolved@ == leader_scan(instructions@, i as nat).0,
            constants_view(table@) == leader_scan(instructions@, i as nat).1,
        decreases instructions@.len() - i,
    {
        let instruction = &instructions[i];
        let (reads, writes) = register_accesses_for_instruction(
            instruction.mnemonic.as_str(),
            instruction.typed_operands.as_slice(),
        );
        proof {
            lemma_listed_names(reads@, instruction_reads(instruction.mnemonic@, instruction.typed_operands@));
            lemma_listed_names(writes@, instruction_writes(instruction.mnemonic@, instruction.typed_operands@));
        }
        let constant_sources = lookup_constants(&reads, &table);
        match resolved_control_flow_target(instruction, constant_sources.as_slice()) {
            Some(target) => resolved.push((instruction.address, target)),
            None => {},
        }
        let mut constant_writes = constant_writes_for_instruction(
            instruction.mnemonic.as_str(),
            instruction.typed_operands.as_slice(),
            instruction.data_target,
        );
        append_writes(
            &mut constant_writes,
            copied_constant_writes_for_instruction(
                instruction.mnemonic.as_str(),
                instruction.typed_operands.as_slice(),
                constant_sources.as_slice(),
            ),
        );
        let followed = writes_with_aliases(&constant_writes);
        clear_written_exec(&mut table, &writes);
        put_all_exec(&mut table, &followed, 0);
        i += 1;
    }
    resolved
}

/// The target resolved for the instruction at `a`, if any (the first pair for it).
pub open spec fn lookup_pair(pairs: Seq<(u64, u64)>, a: u64) -> Option<u64> {
    if exists|k: int| 0 <= k < pairs.len() && pairs[k].0 == a {
        let k = choose|k: int|
            0 <= k < pairs.len() && pairs[k].0 == a && forall|j: int| 0 <= j < k ==> pairs[j].0 != a;
        Some(pairs[k].1)
    } else {
        None
    }
}

fn lookup_pair_exec(pairs: &Vec<(u64, u64)>, a: u64) -> (r: Option<u64>)
    ensures
        r == lookup_pair(pairs@, a),
{
    let mut k: usize = 0;
    while k < pairs.len()
        invariant
            k <= pairs@.len(),
            forall|j: int| 0 <= j < k ==> pairs@[j].0 != a,
        decreases pairs@.len() - k,
    {
        if pairs[k].0 == a {
            proof {
                let p = pairs@;
                let c = choose|q: int| 0 <= q < p.len() && p[q].0 == a && forall|j: int| 0 <= j < q ==> p[j].0 != a;
                assert(0 <= k < p.len() && p[k as int].0 == a && forall|j: int| 0 <= j < k ==> p[j].0 != a);
                assert(c == k);
            }
            return Some(pairs[k].1);
        }
        k += 1;
    }
    None
}

/// The decoded target of an instruction, or else the target the pre-scan resolved for it.
pub open spec fn effective_target(d: DecodedInstruction, pairs: Seq<(u64, u64)>) -> Option<u64> {
    match d.target {
        Some(t) => Some(t),
        None => lookup_pair(pairs, d.address),
    }
}

/// Whether `a` starts a basic block: the function start, a branch or call target inside
/// `[start, end)`, or the fall-through address of a conditional branch inside it.
pub open spec fn is_leader(ds: Seq<DecodedInstruction>, pairs: Seq<(u64, u64)>, start: u64, end: int, a: u64) -> bool {
    ||| a == start
    ||| exists|i: int|
        0 <= i < ds.len() && effective_target(#[trigger] ds[i], pairs) == Some(a) && start <= a && a < end
    ||| exists|i: int|
        0 <= i < ds.len() && (#[trigger] ds[i]).flow == InstructionFlow::ConditionalBranch
            && ds[i].address + ds[i].size == a && a < end
}

/// Instructions end inside the decoded range.
pub open spec fn ends_fit(ds: Seq<DecodedInstruction>, end: int) -> bool {
    end <= u64::MAX && forall|i: int| 0 <= i < ds.len() ==> (#[trigger] ds[i]).address + ds[i].size <= end
}

/// The block leaders of a decoded function, sorted.
#[verifier::spinoff_prover]
#[verifier::rlimit(40)]
pub fn block_leaders(start: u64, end: u64, instructions: &[DecodedInstruction], pairs: &Vec<(u64, u64)>) -> (r: Vec<u64>)
    requires
        ends_fit(instructions@, end as int),
    ensures
        increasing(r@),
        forall|a: u64| r@.contains(a) <==> is_leader(instructions@, pairs@, start, end as int, a),
{
    let mut leaders: Vec<u64> = Vec::new();
    insert_sorted_u64(&mut leaders, start);
    let mut i: usize = 0;
    while i < instructions.len()
        invariant
            i <= instructions@.len(),
            ends_fit(instructions@, end as int),
            increasing(leaders@),
            forall|a: u64| #[trigger] leaders@.contains(a) <==> (a == start || (exists|j: int|
                0 <= j < i && effective_target(#[trigger] instructions@[j], pairs@) == Some(a) && start <= a && a < end)
                || (exists|j: int|
                0 <= j < i && (#[trigger] instructions@[j]).flow == InstructionFlow::ConditionalBranch
                    && instructions@[j].address + instructions@[j].size == a && a < end)),
        decreases instructions@.len() - i,
    {
        let ins = &instructions[i];
        let ghost before = leaders@;
        let target = match ins.target {
            Some(t) => Some(t),
            None => lookup_pair_exec(pairs, ins.address),
        };
        let ghost mid = leaders@;
        match target {
            Some(t) => {
                if t >= start && t < end {
                    insert_sorted_u64(&mut leaders, t);
                }
            },
            None => {},
        }
        let ghost mid2 = leaders@;
        assert(ins.address + ins.size <= end);
        if ins.flow == InstructionFlow::ConditionalBranch {
            let next = ins.address + ins.size as u64;
            if next < end {
                insert_sorted_u64(&mut leaders, next);
            }
        }
        proof {
            assert forall|a: u64| #[trigger] leaders@.contains(a) <==> (a == start || (exists|j: int|
                0 <= j < i + 1 && effective_target(#[trigger] instructions@[j], pairs@) == Some(a) && start <= a && a < end)
                || (exists|j: int|
                0 <= j < i + 1 && (#[trigger] instructions@[j]).flow == InstructionFlow::ConditionalBranch
                    && instructions@[j].address + instructions@[j].size == a && a < end)) by {
                assert(before.contains(a) <==> (a == start || (exists|j: int|
                    0 <= j < i && effective_target(#[trigger] instructions@[j], pairs@) == Some(a) && start <= a && a < end)
                    || (exists|j: int|
                    0 <= j < i && (#[trigger] instructions@[j]).flow == InstructionFlow::ConditionalBranch
                        && instructions@[j].address + instructions@[j].size == a && a < end)));
                if exists|j: int|
                    0 <= j < i + 1 && effective_target(#[trigger] instructions@[j], pairs@) == Some(a) && start <= a && a < end {
                    let j = choose|j: int|
                        0 <= j < i + 1 && effective_target(#[trigger] instructions@[j], pairs@) == Some(a) && start <= a && a < end;
                    if j < i {
                        assert(before.contains(a));
                    }
                }
                if exists|j: int|
                    0 <= j < i + 1 && (#[trigger] instructions@[j]).flow == InstructionFlow::ConditionalBranch
                        && instructions@[j].address + instructions@[j].size == a && a < end {
                    let j = choose|j: int|
                        0 <= j < i + 1 && (#[trigger] instructions@[j]).flow == InstructionFlow::ConditionalBranch
                            && instructions@[j].address + instructions@[j].size == a && a < end;
                    if j < i {
                        assert(before.contains(a));
                    }
                }
                if before.contains(a) {
                    if exists|j: int|
                        0 <= j < i && effective_target(#[trigger] instructions@[j], pairs@) == Some(a) && start <= a && a < end {
                        let j = choose|j: int|
                            0 <= j < i && effective_target(#[trigger] instructions@[j], pairs@) == Some(a) && start <= a && a < end;
                        assert(0 <= j < i + 1);
                    }
                    if exists|j: int|
                        0 <= j < i && (#[trigger] instructions@[j]).flow == InstructionFlow::ConditionalBranch
                            && instructions@[j].address + instructions@[j].size == a && a < end {
                        let j = choose|j: int|
                            0 <= j < i && (#[trigger] instructions@[j]).flow == InstructionFlow::ConditionalBranch
                                && instructions@[j].address + instructions@[j].size == a && a < end;
                        assert(0 <= j < i + 1);
                    }
                }
                assert(effective_target(instructions@[i as int], pairs@) == target);
            }
        }
        i += 1;
    }
    leaders
}

/// Whether instruction `k` begins a block: the first instruction, the one after a terminal
/// instruction, or one at a leader address.
pub open spec fn is_block_start(ds: Seq<DecodedInstruction>, leaders: Set<u64>, k: int) -> bool {
    0 <= k < ds.len() && (k == 0 || spec_is_terminal(ds[k - 1].flow) || leaders.contains(ds[k].address))
}

fn contains_u64(v: &Vec<u64>, x: u64) -> (r: bool)
    ensures
        r == v@.contains(x),
{
    let mut i: usize = 0;
    while i < v.len()
        invariant
            i <= v@.len(),
            forall|j: int| 0 <= j < i ==> v@[j] != x,
        decreases v@.len() - i,
    {
        if v[i] == x {
            return true;
        }
        i += 1;
    }
    false
}

/// The positions where blocks begin, increasing.
pub fn block_start_indices(instructions: &[DecodedInstruction], leaders: &Vec<u64>) -> (r: Vec<usize>)
    ensures
        forall|i: int, j: int| 0 <= i < j < r@.len() ==> r@[i] < r@[j],
        forall|k: int| 0 <= k < instructions@.len() ==> (r@.contains(k as usize) <==> is_block_start(
            instructions@,
            leaders@.to_set(),
            k,
        )),
        forall|i: int| 0 <= i < r@.len() ==> r@[i] < instructions@.len(),
        instructions@.len() > 0 ==> r@.len() > 0 && r@[0] == 0,
{
    let mut out: Vec<usize> = Vec::new();
    let mut k: usize = 0;
    while k < instructions.len()
        invariant
            k <= instructions@.len(),
            forall|i: int, j: int| 0 <= i < j < out@.len() ==> out@[i] < out@[j],
            forall|i: int| 0 <= i < out@.len() ==> out@[i] < k,
            forall|q: int| 0 <= q < k ==> (out@.contains(q as usize) <==> is_block_start(
                instructions@,
                leaders@.to_set(),
                q,
            )),
            k > 0 ==> out@.len() > 0 && out@[0] == 0,
        decreases instructions@.len() - k,
    {
        let starts = k == 0 || instructions[k - 1].is_terminal() || contains_u64(leaders, instructions[k].address);
        let ghost before = out@;
        if starts {
            out.push(k);
        }
        proof {
            assert(leaders@.to_set().contains(instructions@[k as int].address) == leaders@.contains(instructions@[k as int].address));
            assert forall|q: int| 0 <= q < k + 1 implies (out@.contains(q as usize) <==> is_block_start(
                instructions@,
                leaders@.to_set(),
                q,
            )) by {
                if q < k {
                    if out@.contains(q as usize) {
                        let m = choose|m: int| 0 <= m < out@.len() && out@[m] == q as usize;
                        if m < before.len() {
                            assert(before.contains(q as usize));
                        }
                    }
                    if before.contains(q as usize) {
                        let m = choose|m: int| 0 <= m < before.len() && before[m] == q as usize;
                        assert(out@[m] == q as usize);
                    }
                } else {
                    if starts {
                        assert(out@[out@.len() - 1] == k);
                    } else {
                        if out@.contains(q as usize) {
                            let m = choose|m: int| 0 <= m < out@.len() && out@[m] == q as usize;
                            assert(before[m] < k);
                        }
                    }
                }
            }
        }
        k += 1;
    }
    out
}

/// An instruction as indexed: where it sits, what it reads and writes, where its inputs come
/// from, the constants it leaves, and what its branch depends on.
#[derive(Clone, Debug)]
pub struct ParsedInstruction {
    pub block: u64,
    pub address: u64,
    pub size: u64,
    pub bytes_hex: String,
    pub mnemonic: String,
    pub operands_text: String,
    pub typed_operands: Vec<DecodedOperand>,
    pub register_reads: Vec<String>,
    pub register_writes: Vec<String>,
    pub register_sources: Vec<RegisterSource>,
    pub constant_writes: Vec<RegisterConstantWrite>,
    pub constant_sources: Vec<RegisterConstantSource>,
    pub target: Option<u64>,
    pub flow_kind: Option<String>,
    pub data_target: Option<u64>,
    pub condition_source: Option<u64>,
    pub condition_summary: Option<String>,
    pub ordinal: u64,
}

/// What a block scan carries from one instruction to the next: the latest flag producer, the
/// last writer of each register, and the known constants.
pub type ScanState = (Option<int>, Seq<WriterView>, Seq<ConstantView>);

/// The condition the flag producer at `flag` sets up.
pub open spec fn flag_condition_of(ds: Seq<DecodedInstruction>, flag: Option<int>) -> Option<
    (Seq<char>, Seq<DecodedOperand>),
> {
    match flag {
        Some(q) => Some((ds[q].mnemonic@, ds[q].typed_operands@)),
        None => None,
    }
}

/// Every constant an instruction writes: by itself, by copying, by `imul`, by `cmov`/`setcc`
/// under a known condition, by `movzx`/`movsx`/`movsxd`, and by in-place arithmetic.
pub open spec fn spec_all_writes(
    d: DecodedInstruction,
    cs: Seq<ConstantView>,
    cond: Option<(Seq<char>, Seq<DecodedOperand>)>,
    table: Seq<ConstantView>,
) -> Seq<WriteModel> {
    let m = d.mnemonic@;
    let ops = d.typed_operands@;
    option_seq(spec_constant_write(m, ops, d.data_target)) + option_seq(spec_copied_write(m, ops, cs))
        + option_seq(spec_imul_write(m, ops, cs)) + option_seq(spec_cmov_write(m, ops, cond, table))
        + option_seq(spec_setcc_write(m, ops, cond, table)) + option_seq(spec_movzx_write(m, ops, cs))
        + option_seq(spec_movsx_write(m, ops, cs)) + option_seq(spec_movsxd_write(m, ops, cs))
        + option_seq(spec_arithmetic_write(m, ops, cs))
}

/// The last-writer table after the instruction at `addr` writes `regs` (and their aliases).
pub open spec fn writers_after(t: Seq<WriterView>, regs: Seq<Seq<char>>, addr: u64) -> Seq<WriterView>
    decreases regs.len(),
{
    if regs.len() == 0 {
        t
    } else {
        let t0 = writers_after(t, regs.drop_last(), addr);
        let r = regs.last();
        let t1 = writers_without(t0, r).push((r, addr));
        let t2 = match spec_zero_extended_alias(r) {
            Some(a) => writers_without(t1, a).push((a, addr)),
            None => t1,
        };
        match spec_low_byte_alias(r) {
            Some(a) => writers_without(t2, a).push((a, addr)),
            None => t2,
        }
    }
}

/// The scan state after instruction `idx`.
#[verifier::opaque]
pub open spec fn next_state(ds: Seq<DecodedInstruction>, idx: int, st: ScanState) -> ScanState {
    let d = ds[idx];
    let cs = constant_sources_of(reads_list(d), st.2);
    let writes = spec_all_writes(d, cs, flag_condition_of(ds, st.0), st.2);
    (
        if d.mnemonic@ == "cmp"@ || d.mnemonic@ == "test"@ {
            Some(idx)
        } else {
            st.0
        },
        writers_after(st.1, writes_list(d), d.address),
        put_all(clear_written(st.2, writes_list(d)), with_aliases(writes), d.address),
    )
}

/// The scan state before instruction `idx` of the block that begins at `lo`.
pub open spec fn state_at(ds: Seq<DecodedInstruction>, lo: int, idx: int) -> ScanState
    decreases idx - lo,
{
    if idx <= lo {
        (None, Seq::empty(), Seq::empty())
    } else {
        next_state(ds, idx - 1, state_at(ds, lo, idx - 1))
    }
}

/// `o` holds a string with the characters of `s`, or nothing when `s` is absent.
pub open spec fn opt_text(o: Option<String>, s: Option<Seq<char>>) -> bool {
    match (o, s) {
        (Some(a), Some(b)) => a@ == b,
        (None, None) => true,
        _ => false,
    }
}

/// Instruction `idx` indexed in the block starting at `block_start`, from scan state `st`.
#[verifier::opaque]
pub open spec fn parsed_ok(p: ParsedInstruction, ds: Seq<DecodedInstruction>, idx: int, block_start: u64, st: ScanState) -> bool {
    let d = ds[idx];
    let cs = constant_sources_of(reads_list(d), st.2);
    &&& p.block == block_start
    &&& p.address == d.address
    &&& p.size == d.size
    &&& p.bytes_hex@ == bytes_hex_spec(d.bytes@)
    &&& p.mnemonic@ == d.mnemonic@
    &&& p.operands_text@ == d.operands@
    &&& p.typed_operands@ == d.typed_operands@
    &&& p.data_target == d.data_target
    &&& p.ordinal == idx
    &&& names_view(p.register_reads@) == reads_list(d)
    &&& names_view(p.register_writes@) == writes_list(d)
    &&& writers_view(p.register_sources@) == writer_sources(reads_list(d), st.1)
    &&& constants_view(p.constant_sources@) == cs
    &&& writes_view(p.constant_writes@) == spec_all_writes(d, cs, flag_condition_of(ds, st.0), st.2)
    &&& p.target == match spec_resolved_target(d, cs) {
        Some(t) => Some(t),
        None => d.target,
    }
    &&& opt_text(p.flow_kind, spec_flow_kind(d.flow))
    &&& p.condition_source == if d.flow == InstructionFlow::ConditionalBranch {
        match st.0 {
            Some(q) => Some(ds[q].address),
            None => None,
        }
    } else {
        None
    }
    &&& opt_text(
        p.condition_summary,
        if d.flow == InstructionFlow::ConditionalBranch {
            match st.0 {
                Some(q) => Some(
                    spec_branch_summary(d.mnemonic@, ds[q].mnemonic@, ds[q].operands@, ds[q].typed_operands@, st.2),
                ),
                None => None,
            }
        } else {
            None
        },
    )
}

fn copy_strings(v: &Vec<String>) -> (r: Vec<String>)
    ensures
        r@ == v@,
{
    let mut out: Vec<String> = Vec::new();
    let mut i: usize = 0;
    while i < v.len()
        invariant
            i <= v@.len(),
            out@ == v@.subrange(0, i as int),
        decreases v@.len() - i,
    {
        out.push(v[i].clone());
        i += 1;
        assert(out@ =~= v@.subrange(0, i as int));
    }
    assert(v@.subrange(0, v@.len() as int) =~= v@);
    out
}

fn record_writers(t: &mut Vec<RegisterSource>, regs: &Vec<String>, addr: u64)
    ensures
        writers_view(final(t)@) == writers_after(writers_view(old(t)@), names_view(regs@), addr),
{
    let ghost start = writers_view(t@);
    let mut i: usize = 0;
    while i < regs.len()
        invariant
            i <= regs@.len(),
            writers_view(t@) == writers_after(start, names_view(regs@).subrange(0, i as int), addr),
        decreases regs@.len() - i,
    {
        let ghost post = names_view(regs@).subrange(0, i + 1);
        assert(post.drop_last() =~= names_view(regs@).subrange(0, i as int));
        assert(post.last() == regs@[i as int]@);
        let r = regs[i].as_str();
        set_writer(t, r, addr);
        match zero_extended_alias_register(r) {
            Some(a) => set_writer(t, a, addr),
            None => {},
        }
        match low_byte_alias_register(r) {
            Some(a) => set_writer(t, a, addr),
            None => {},
        }
        i += 1;
    }
    assert(names_view(regs@).subrange(0, regs@.len() as int) =~= names_view(regs@));
}

/// Indexes instruction `idx` of a block starting at `block_start`, and advances the scan state.
#[verifier::spinoff_prover]
#[verifier::rlimit(60)]
fn scan_instruction(
    instructions: &[DecodedInstruction],
    idx: usize,
    block_start: u64,
    flag: Option<usize>,
    writers: &mut Vec<RegisterSource>,
    constants: &mut Vec<RegisterConstantSource>,
) -> (r: ParsedInstruction)
    requires
        idx < instructions@.len(),
        match flag {
            Some(q) => q < idx,
            None => true,
        },
    ensures
        parsed_ok(
            r,
            instructions@,
            idx as int,
            block_start,
            (
                match flag {
                    Some(q) => Some(q as int),
                    None => None,
                },
                writers_view(old(writers)@),
                constants_view(old(constants)@),
            ),
        ),
        ({
            let nxt = next_state(
                instructions@,
                idx as int,
                (
                    match flag {
                        Some(q) => Some(q as int),
                        None => None,
                    },
                    writers_view(old(writers)@),
                    constants_view(old(constants)@),
                ),
            );
            writers_view(final(writers)@) == nxt.1 && constants_view(final(constants)@) == nxt.2
        }),
{
    proof {
        reveal(parsed_ok);
        reveal(next_state);
    }
    let ins = &instructions[idx];
    let ghost st: ScanState = (
        match flag {
            Some(q) => Some(q as int),
            None => None,
        },
        writers_view(writers@),
        constants_view(constants@),
    );
    let condition: Option<FlagCondition> = match flag {
        Some(q) => Some(condition_from_flag_producer(&instructions[q])),
        None => None,
    };
    let (condition_source, condition_summary) = if ins.flow == InstructionFlow::ConditionalBranch {
        match flag {
            Some(q) => {
                let c = condition_from_flag_producer(&instructions[q]);
                (
                    Some(instructions[q].address),
                    Some(branch_condition_summary(ins, &c, constants.as_slice())),
                )
            },
            None => (None, None),
        }
    } else {
        (None, None)
    };
    let (reads, writes) = register_accesses_for_instruction(
        ins.mnemonic.as_str(),
        ins.typed_operands.as_slice(),
    );
    proof {
        lemma_listed_names(reads@, instruction_reads(ins.mnemonic@, ins.typed_operands@));
        lemma_listed_names(writes@, instruction_writes(ins.mnemonic@, ins.typed_operands@));
    }
    let register_sources = lookup_writers(&reads, writers);
    let constant_sources = lookup_constants(&reads, constants);
    let m = ins.mnemonic.as_str();
    let ops = ins.typed_operands.as_slice();
    let cs = constant_sources.as_slice();
    let cond_ref: Option<&FlagCondition> = match &condition {
        Some(c) => Some(c),
        None => None,
    };
    let mut constant_writes = constant_writes_for_instruction(m, ops, ins.data_target);
    append_writes(&mut constant_writes, copied_constant_writes_for_instruction(m, ops, cs));
    append_writes(&mut constant_writes, imul_constant_writes_for_instruction(m, ops, cs));
    append_writes(
        &mut constant_writes,
        cmov_constant_writes_for_instruction(m, ops, cond_ref, constants.as_slice()),
    );
    append_writes(
        &mut constant_writes,
        setcc_constant_writes_for_instruction(m, ops, cond_ref, constants.as_slice()),
    );
    append_writes(&mut constant_writes, movzx_constant_writes_for_instruction(m, ops, cs));
    append_writes(&mut constant_writes, movsx_constant_writes_for_instruction(m, ops, cs));
    append_writes(&mut constant_writes, movsxd_constant_writes_for_instruction(m, ops, cs));
    append_writes(&mut constant_writes, arithmetic_constant_writes_for_instruction(m, ops, cs));
    let target = match resolved_control_flow_target(ins, cs) {
        Some(t) => Some(t),
        None => ins.target,
    };
    let followed = writes_with_aliases(&constant_writes);
    let flow_kind = match ins.flow_kind() {
        Some(k) => Some(String::from_str(k)),
        None => None,
    };
    let parsed = ParsedInstruction {
        block: block_start,
        address: ins.address,
        size: ins.size as u64,
        bytes_hex: bytes_hex(ins.bytes.as_slice()),
        mnemonic: ins.mnemonic.clone(),
        operands_text: ins.operands.clone(),
        typed_operands: copy_operands(ins.typed_operands.as_slice()),
        register_reads: copy_strings(&reads),
        register_writes: copy_strings(&writes),
        register_sources,
        constant_writes,
        constant_sources,
        target,
        flow_kind,
        data_target: ins.data_target,
        condition_source,
        condition_summary,
        ordinal: idx as u64,
    };
    record_writers(writers, &writes, ins.address);
    clear_written_exec(constants, &writes);
    put_all_exec(constants, &followed, ins.address);
    parsed
}

/// A basic block: start, end, size, position in the function, and its last mnemonic.
#[derive(Clone, Debug, PartialEq, Eq)]
pub struct ParsedBasicBlock {
    pub address: u64,
    pub end_address: u64,
    pub size: u64,
    pub ordinal: u64,
    pub terminator: String,
}

/// A control-flow edge between blocks (by start address): `branch` or `fallthrough`, with
/// the branch's condition summary and its known outcome.
#[derive(Clone, Debug, PartialEq, Eq)]
pub struct ParsedCfgEdge {
    pub source: u64,
    pub target: u64,
    pub edge_kind: String,
    pub condition_summary: Option<String>,
    pub known_outcome: Option<String>,
}

/// What scanning one function yields.
#[derive(Clone, Debug)]
pub struct NativeCfgFacts {
    pub basic_blocks: Vec<ParsedBasicBlock>,
    pub instructions: Vec<ParsedInstruction>,
    pub cfg_edges: Vec<ParsedCfgEdge>,
    pub xrefs: Vec<NativeXref>,
    pub function_call_count: u64,
    pub function_string_count: u64,
}

/// What an xref points from or to.
#[derive(Clone, Copy, Debug, PartialEq, Eq, Structural)]
pub enum NativeRef {
    /// A function, by its start address and its position in the function list (which tells
    /// apart functions that share a start).
    Function(u64, u64),
    Block(u64),
    Instruction(u64),
    String(u64),
    Import(u64),
    /// A string that is not loaded at any address, by its file offset.
    StringAtOffset(u64),
    /// An import with no known slot address, by its position in the import list.
    ImportEntry(u64),
}

/// How an xref relates its ends.
#[derive(Clone, Copy, Debug, PartialEq, Eq, Structural)]
pub enum XrefRelation {
    References,
    Calls,
    CallsImport,
}

/// A cross reference found in the instructions.
#[derive(Clone, Copy, Debug, PartialEq, Eq, Structural)]
pub struct NativeXref {
    pub source: NativeRef,
    pub target: NativeRef,
    pub relation: XrefRelation,
    pub address: Option<u64>,
}

/// The first direct call or branch target among the operands.
pub open spec fn first_control_target(ops: Seq<DecodedOperand>) -> Option<u64>
    decreases ops.len(),
{
    if ops.len() == 0 {
        None
    } else {
        match spec_control_flow_target(ops[0]) {
            Some(a) => Some(a),
            None => first_control_target(ops.drop_first()),
        }
    }
}

/// The control-flow target of an indexed instruction: a direct operand target, or else its
/// (possibly resolved) target.
pub open spec fn spec_parsed_control_target(p: ParsedInstruction) -> Option<u64> {
    match first_control_target(p.typed_operands@) {
        Some(a) => Some(a),
        None => p.target,
    }
}

fn first_control_target_exec(ops: &Vec<DecodedOperand>) -> (r: Option<u64>)
    ensures
        r == first_control_target(ops@),
{
    let mut i: usize = 0;
    assert(ops@.skip(0) =~= ops@);
    while i < ops.len()
        invariant
            i <= ops@.len(),
            first_control_target(ops@) == first_control_target(ops@.skip(i as int)),
        decreases ops@.len() - i,
    {
        assert(ops@.skip(i as int)[0] == ops@[i as int]);
        match ops[i].control_flow_target() {
            Some(a) => {
                return Some(a);
            },
            None => {},
        }
        assert(ops@.skip(i as int).drop_first() =~= ops@.skip(i + 1));
        i += 1;
    }
    None
}

impl ParsedInstruction {
    /// The control-flow target of this instruction.
    pub fn control_flow_target(&self) -> (r: Option<u64>)
        ensures
            r == spec_parsed_control_target(*self),
    {
        match first_control_target_exec(&self.typed_operands) {
            Some(a) => Some(a),
            None => self.target,
        }
    }
}

/// The end of block `b`: the next block's first instruction, or the end of the instructions.
pub open spec fn block_end_index(bs: Seq<usize>, b: int, n: int) -> int {
    if b + 1 < bs.len() {
        bs[b + 1] as int
    } else {
        n
    }
}

/// Block `b` as stored.
pub open spec fn block_ok(blk: ParsedBasicBlock, ds: Seq<DecodedInstruction>, bs: Seq<usize>, b: int) -> bool {
    let lo = bs[b] as int;
    let last = ds[block_end_index(bs, b, ds.len() as int) - 1];
    &&& blk.address == ds[lo].address
    &&& blk.end_address == last.address + last.size
    &&& blk.size == last.address + last.size - ds[lo].address
    &&& blk.ordinal == b
    &&& blk.terminator@ == last.mnemonic@
}

/// Whether some block starts at `a`.
pub open spec fn block_starts_at(ds: Seq<DecodedInstruction>, bs: Seq<usize>, a: u64) -> bool {
    exists|b: int| 0 <= b < bs.len() && ds[bs[b] as int].address == a
}

/// An edge as a value.
pub type EdgeView = (u64, u64, Seq<char>, Option<Seq<char>>, Option<Seq<char>>);

/// The edges out of block `b`.
#[verifier::opaque]
pub open spec fn block_edges(ds: Seq<DecodedInstruction>, bs: Seq<usize>, ps: Seq<ParsedInstruction>, b: int) -> Seq<EdgeView> {
    let hi = block_end_index(bs, b, ds.len() as int);
    let last = ds[hi - 1];
    let p = ps[hi - 1];
    let from = ds[bs[b] as int].address;
    let summary: Option<Seq<char>> = match p.condition_summary {
        Some(x) => Some(x@),
        None => None,
    };
    let label: Option<Seq<char>> = match summary {
        Some(x) => spec_known_outcome_label(x),
        None => None,
    };
    let target = match spec_parsed_control_target(p) {
        Some(a) => Some(a),
        None => last.target,
    };
    let branch: Seq<EdgeView> = match target {
        Some(a) => if block_starts_at(ds, bs, a) {
            seq![(from, a, "branch"@, summary, if label == Some("taken"@) { Some("taken"@) } else { None })]
        } else {
            Seq::empty()
        },
        None => Seq::empty(),
    };
    let falls = last.flow == InstructionFlow::ConditionalBranch || !spec_is_terminal(last.flow);
    let fall: Seq<EdgeView> = if falls && b + 1 < bs.len() {
        seq![
            (
                from,
                ds[bs[b + 1] as int].address,
                "fallthrough"@,
                summary,
                if label == Some("not_taken"@) { Some("not_taken"@) } else { None },
            ),
        ]
    } else {
        Seq::empty()
    };
    branch + fall
}

/// The edges out of the first `nb` blocks.
pub open spec fn edges_upto(ds: Seq<DecodedInstruction>, bs: Seq<usize>, ps: Seq<ParsedInstruction>, nb: int) -> Seq<EdgeView>
    decreases nb,
{
    if nb <= 0 {
        Seq::empty()
    } else {
        edges_upto(ds, bs, ps, nb - 1) + block_edges(ds, bs, ps, nb - 1)
    }
}

/// The edges as values.
pub open spec fn edges_view(v: Seq<ParsedCfgEdge>) -> Seq<EdgeView> {
    Seq::new(
        v.len(),
        |i: int|
            (
                v[i].source,
                v[i].target,
                v[i].edge_kind@,
                match v[i].condition_summary {
                    Some(x) => Some(x@),
                    None => None,
                },
                match v[i].known_outcome {
                    Some(x) => Some(x@),
                    None => None,
                },
            ),
    )
}

/// The block starts `bs` are exactly the block-starting instructions, increasing.
pub open spec fn starts_ok(ds: Seq<DecodedInstruction>, leaders: Set<u64>, bs: Seq<usize>) -> bool {
    &&& forall|i: int, j: int| 0 <= i < j < bs.len() ==> bs[i] < bs[j]
    &&& forall|i: int| 0 <= i < bs.len() ==> bs[i] < ds.len()
    &&& forall|k: int| 0 <= k < ds.len() ==> (bs.contains(k as usize) <==> is_block_start(ds, leaders, k))
    &&& ds.len() > 0 ==> bs.len() > 0 && bs[0] == 0
}

/// The leaders of decoded instructions covering `[start, end)`.
pub open spec fn leader_set(start: u64, end: u64, ds: Seq<DecodedInstruction>) -> Set<u64> {
    Set::new(|a: u64| is_leader(ds, leader_scan(ds, ds.len()).0, start, end as int, a))
}

/// What scanning `ds` yields given its block starts `bs`: the blocks, every instruction indexed
/// with its block's scan state, and the edges between blocks.
pub open spec fn cfg_with_starts(start: u64, end: u64, ds: Seq<DecodedInstruction>, facts: NativeCfgFacts, bs: Seq<usize>) -> bool {
    &&& starts_ok(ds, leader_set(start, end, ds), bs)
    &&& facts.basic_blocks@.len() == bs.len()
    &&& forall|b: int| 0 <= b < bs.len() ==> block_ok(#[trigger] facts.basic_blocks@[b], ds, bs, b)
    &&& facts.instructions@.len() == ds.len()
    &&& forall|b: int, idx: int|
        0 <= b < bs.len() && bs[b] <= idx < block_end_index(bs, b, ds.len() as int) ==> parsed_ok(
            #[trigger] facts.instructions@[idx],
            ds,
            idx,
            ds[bs[b] as int].address,
            #[trigger] state_at(ds, bs[b] as int, idx),
        )
    &&& edges_view(facts.cfg_edges@) == edges_upto(ds, bs, facts.instructions@, bs.len() as int)
}

/// What scanning the decoded instructions `ds` of `[start, end)` yields: blocks split at the
/// leaders, every instruction indexed with its block's scan state, and the edges between blocks.
pub open spec fn cfg_ok(start: u64, end: u64, ds: Seq<DecodedInstruction>, facts: NativeCfgFacts) -> bool {
    exists|bs: Seq<usize>| #[trigger] cfg_with_starts(start, end, ds, facts, bs)
}

/// Decoded instructions follow one another without gaps.
pub open spec fn contiguous(ds: Seq<DecodedInstruction>) -> bool {
    &&& forall|k: int| 0 <= k < ds.len() ==> (#[trigger] ds[k]).size >= 1
    &&& forall|k: int| 0 < k < ds.len() ==> (#[trigger] ds[k]).address == ds[k - 1].address + ds[k - 1].size
}

proof fn lemma_contiguous_order(ds: Seq<DecodedInstruction>, i: int, j: int)
    requires
        contiguous(ds),
        0 <= i <= j < ds.len(),
    ensures
        ds[i].address <= ds[j].address,
        i < j ==> ds[i].address + ds[i].size <= ds[j].address,
    decreases j - i,
{
    if i < j {
        lemma_contiguous_order(ds, i, j - 1);
        assert(ds[j].address == ds[j - 1].address + ds[j - 1].size);
        assert(ds[j - 1].size >= 1);
    }
}

/// Scans the instructions of one block, from a fresh state.
#[verifier::spinoff_prover]
#[verifier::rlimit(60)]
fn scan_block(
    instructions: &[DecodedInstruction],
    lo: usize,
    hi: usize,
    out: &mut Vec<ParsedInstruction>,
)
    requires
        lo < hi <= instructions@.len(),
        old(out)@.len() == lo,
    ensures
        final(out)@.len() == hi,
        final(out)@.subrange(0, lo as int) == old(out)@,
        forall|idx: int|
            lo <= idx < hi ==> parsed_ok(
                #[trigger] final(out)@[idx],
                instructions@,
                idx,
                instructions@[lo as int].address,
                state_at(instructions@, lo as int, idx),
            ),
{
    proof {
        reveal(next_state);
    }
    let block_start = instructions[lo].address;
    let ghost start_out = out@;
    let mut writers: Vec<RegisterSource> = Vec::new();
    let mut constants: Vec<RegisterConstantSource> = Vec::new();
    let mut flag: Option<usize> = None;
    assert(writers_view(writers@) =~= Seq::<WriterView>::empty());
    assert(constants_view(constants@) =~= Seq::<ConstantView>::empty());
    let mut idx = lo;
    while idx < hi
        invariant
            lo <= idx <= hi,
            hi <= instructions@.len(),
            block_start == instructions@[lo as int].address,
            out@.len() == idx,
            out@.subrange(0, lo as int) == start_out,
            (match flag {
                Some(q) => Some(q as int),
                None => None,
            }) == state_at(instructions@, lo as int, idx as int).0,
            match flag {
                Some(q) => q < idx,
                None => true,
            },
            writers_view(writers@) == state_at(instructions@, lo as int, idx as int).1,
            constants_view(constants@) == state_at(instructions@, lo as int, idx as int).2,
            forall|k: int|
                lo <= k < idx ==> parsed_ok(
                    #[trigger] out@[k],
                    instructions@,
                    k,
                    block_start,
                    state_at(instructions@, lo as int, k),
                ),
        decreases hi - idx,
    {
        let parsed = scan_instruction(instructions, idx, block_start, flag, &mut writers, &mut constants);
        let ghost before = out@;
        out.push(parsed);
        assert(out@.subrange(0, lo as int) =~= before.subrange(0, lo as int));
        if is_flag_producer(&instructions[idx]) {
            flag = Some(idx);
        }
        proof {
            reveal(next_state);
            assert(state_at(instructions@, lo as int, idx + 1) == next_state(
                instructions@,
                idx as int,
                state_at(instructions@, lo as int, idx as int),
            ));
            assert forall|k: int| lo <= k < idx + 1 implies parsed_ok(
                #[trigger] out@[k],
                instructions@,
                k,
                block_start,
                state_at(instructions@, lo as int, k),
            ) by {
                if k < idx {
                    assert(out@[k] == before[k]);
                }
            }
        }
        idx += 1;
    }
}

fn block_start_address_exists(blocks: &Vec<ParsedBasicBlock>, a: u64) -> (r: bool)
    ensures
        r == exists|b: int| 0 <= b < blocks@.len() && blocks@[b].address == a,
{
    let mut b: usize = 0;
    while b < blocks.len()
        invariant
            b <= blocks@.len(),
            forall|q: int| 0 <= q < b ==> blocks@[q].address != a,
        decreases blocks@.len() - b,
    {
        if blocks[b].address == a {
            return true;
        }
        b += 1;
    }
    false
}

fn opt_string_copy(s: &Option<String>) -> (r: Option<String>)
    ensures
        r == *s,
{
    match s {
        Some(x) => Some(x.clone()),
        None => None,
    }
}

/// Splits the instructions at the block starts `starts`, records each block and indexes its
/// instructions.
#[verifier::spinoff_prover]
#[verifier::rlimit(100)]
fn index_blocks(
    instructions: &[DecodedInstruction],
    starts: &Vec<usize>,
    end: u64,
    Ghost(leader_set): Ghost<Set<u64>>,
) -> (r: (Vec<ParsedBasicBlock>, Vec<ParsedInstruction>))
    requires
        ends_fit(instructions@, end as int),
        contiguous(instructions@),
        starts_ok(instructions@, leader_set, starts@),
    ensures
        r.0@.len() == starts@.len(),
        forall|q: int| 0 <= q < starts@.len() ==> block_ok(#[trigger] r.0@[q], instructions@, starts@, q),
        r.1@.len() == instructions@.len(),
        forall|q: int, idx: int|
            0 <= q < starts@.len() && starts@[q] <= idx < block_end_index(starts@, q, instructions@.len() as int)
                ==> parsed_ok(
                #[trigger] r.1@[idx],
                instructions@,
                idx,
                instructions@[starts@[q] as int].address,
                #[trigger] state_at(instructions@, starts@[q] as int, idx),
            ),
{
    let ghost ds = instructions@;
    let ghost bs = starts@;
    let n = instructions.len();
    let nb = starts.len();
    let mut blocks: Vec<ParsedBasicBlock> = Vec::new();
    let mut parsed: Vec<ParsedInstruction> = Vec::new();
    let mut b: usize = 0;
    while b < nb
        invariant
            n == ds.len(),
            ds == instructions@,
            bs == starts@,
            nb == bs.len(),
            ends_fit(ds, end as int),
            contiguous(ds),
            starts_ok(ds, leader_set, bs),
            b <= nb,
            blocks@.len() == b,
            parsed@.len() == if b < nb { bs[b as int] as int } else { n as int },
            forall|q: int| 0 <= q < b ==> block_ok(#[trigger] blocks@[q], ds, bs, q),
            forall|q: int, idx: int|
                0 <= q < b && bs[q] <= idx < block_end_index(bs, q, n as int) ==> parsed_ok(
                    #[trigger] parsed@[idx],
                    ds,
                    idx,
                    ds[bs[q] as int].address,
                    #[trigger] state_at(ds, bs[q] as int, idx),
                ),
        decreases nb - b,
    {
        let lo = starts[b];
        let hi = if b + 1 < nb {
            starts[b + 1]
        } else {
            n
        };
        assert(lo < hi) by {
            if b + 1 < nb {
                assert(bs[b as int] < bs[b + 1]);
            }
        }
        assert(hi as int == block_end_index(bs, b as int, n as int));
        let ghost before = parsed@;
        scan_block(instructions, lo, hi, &mut parsed);
        let first = &instructions[lo];
        let last = &instructions[hi - 1];
        proof {
            lemma_contiguous_order(ds, lo as int, hi - 1);
            assert(ds[hi - 1].address + ds[hi - 1].size <= end);
        }
        let end_address = last.address + last.size as u64;
        blocks.push(
            ParsedBasicBlock {
                address: first.address,
                end_address,
                size: end_address - first.address,
                ordinal: b as u64,
                terminator: last.mnemonic.clone(),
            },
        );
        proof {
            assert forall|q: int, idx: int|
                0 <= q < b + 1 && bs[q] <= idx < block_end_index(bs, q, n as int) implies parsed_ok(
                    #[trigger] parsed@[idx],
                    ds,
                    idx,
                    ds[bs[q] as int].address,
                    #[trigger] state_at(ds, bs[q] as int, idx),
                ) by {
                if q < b {
                    assert(block_end_index(bs, q, n as int) <= bs[b as int]) by {
                        if q + 1 < b {
                            assert(bs[q + 1] < bs[b as int]);
                        }
                    }
                    assert(parsed@.subrange(0, lo as int)[idx] == before[idx]);
                } else {
                    assert(q == b);
                }
            }
            if b + 1 < nb {
                assert(parsed@.len() == bs[b + 1]);
            }
        }
        b += 1;
    }
    (blocks, parsed)
}

/// The control-flow edges out of block `b`.
#[verifier::spinoff_prover]
#[verifier::rlimit(60)]
fn edges_of_block(
    instructions: &[DecodedInstruction],
    starts: &Vec<usize>,
    blocks: &Vec<ParsedBasicBlock>,
    parsed: &Vec<ParsedInstruction>,
    b: usize,
    Ghost(leader_set): Ghost<Set<u64>>,
) -> (r: Vec<ParsedCfgEdge>)
    requires
        starts_ok(instructions@, leader_set, starts@),
        b < starts@.len(),
        blocks@.len() == starts@.len(),
        forall|q: int| 0 <= q < starts@.len() ==> block_ok(#[trigger] blocks@[q], instructions@, starts@, q),
        parsed@.len() == instructions@.len(),
    ensures
        edges_view(r@) == block_edges(instructions@, starts@, parsed@, b as int),
{
    proof {
        reveal(block_edges);
    }
    let ghost ds = instructions@;
    let ghost bs = starts@;
    let n = instructions.len();
    let nb = starts.len();
    let lo = starts[b];
    let hi = if b + 1 < nb {
        starts[b + 1]
    } else {
        n
    };
    assert(lo < hi) by {
        if b + 1 < nb {
            assert(bs[b as int] < bs[b + 1]);
        }
    }
    let mut edges: Vec<ParsedCfgEdge> = Vec::new();
    let last = &instructions[hi - 1];
    let p = &parsed[hi - 1];
    let from = instructions[lo].address;
    let context = branch_edge_context(&p.condition_summary);
    let target = match p.control_flow_target() {
        Some(a) => Some(a),
        None => last.target,
    };
    match target {
        Some(a) => {
            let exists_block = block_start_address_exists(blocks, a);
            proof {
                if block_starts_at(ds, bs, a) {
                    let q = choose|q: int| 0 <= q < bs.len() && ds[bs[q] as int].address == a;
                    assert(blocks@[q].address == ds[bs[q] as int].address);
                }
                if exists|q: int| 0 <= q < blocks@.len() && blocks@[q].address == a {
                    let q = choose|q: int| 0 <= q < blocks@.len() && blocks@[q].address == a;
                    assert(blocks@[q].address == ds[bs[q] as int].address);
                }
            }
            if exists_block {
                let known = match &context {
                    Some(c) => match &c.known_outcome {
                        Some(o) => if str_eq(o.as_str(), "taken") {
                            Some(String::from_str("taken"))
                        } else {
                            None
                        },
                        None => None,
                    },
                    None => None,
                };
                edges.push(
                    ParsedCfgEdge {
                        source: from,
                        target: a,
                        edge_kind: String::from_str("branch"),
                        condition_summary: opt_string_copy(&p.condition_summary),
                        known_outcome: known,
                    },
                );
            }
        },
        None => {},
    }
    if (last.flow == InstructionFlow::ConditionalBranch || !last.is_terminal()) && b + 1 < nb {
        let next = instructions[starts[b + 1]].address;
        let known = match &context {
            Some(c) => match &c.known_outcome {
                Some(o) => if str_eq(o.as_str(), "not_taken") {
                    Some(String::from_str("not_taken"))
                } else {
                    None
                },
                None => None,
            },
            None => None,
        };
        edges.push(
            ParsedCfgEdge {
                source: from,
                target: next,
                edge_kind: String::from_str("fallthrough"),
                condition_summary: opt_string_copy(&p.condition_summary),
                known_outcome: known,
            },
        );
    }
    assert(edges_view(edges@) =~= block_edges(ds, bs, parsed@, b as int));
    edges
}

/// The control-flow edges out of each block, in block order.
fn link_blocks(
    instructions: &[DecodedInstruction],
    starts: &Vec<usize>,
    blocks: &Vec<ParsedBasicBlock>,
    parsed: &Vec<ParsedInstruction>,
    Ghost(leader_set): Ghost<Set<u64>>,
) -> (r: Vec<ParsedCfgEdge>)
    requires
        starts_ok(instructions@, leader_set, starts@),
        blocks@.len() == starts@.len(),
        forall|q: int| 0 <= q < starts@.len() ==> block_ok(#[trigger] blocks@[q], instructions@, starts@, q),
        parsed@.len() == instructions@.len(),
    ensures
        edges_view(r@) == edges_upto(instructions@, starts@, parsed@, starts@.len() as int),
{
    let nb = starts.len();
    let mut edges: Vec<ParsedCfgEdge> = Vec::new();
    assert(edges_view(edges@) =~= edges_upto(instructions@, starts@, parsed@, 0));
    let mut b: usize = 0;
    while b < nb
        invariant
            nb == starts@.len(),
            starts_ok(instructions@, leader_set, starts@),
            b <= nb,
            blocks@.len() == nb,
            parsed@.len() == instructions@.len(),
            forall|q: int| 0 <= q < nb ==> block_ok(#[trigger] blocks@[q], instructions@, starts@, q),
            edges_view(edges@) == edges_upto(instructions@, starts@, parsed@, b as int),
        decreases nb - b,
    {
        let mut more = edges_of_block(instructions, starts, blocks, parsed, b, Ghost(leader_set));
        let ghost a = edges@;
        let ghost m = more@;
        edges.append(&mut more);
        assert(edges_view(edges@) =~= edges_view(a) + edges_view(m));
        b += 1;
    }
    edges
}

/// Scans decoded instructions that cover `[start, end)`: finds the leaders, splits the blocks,
/// indexes every instruction with what its block has established so far, and links the blocks.
#[verifier::spinoff_prover]
#[verifier::rlimit(100)]
pub fn scan_decoded_cfg(start: u64, end: u64, instructions: &[DecodedInstruction]) -> (facts: NativeCfgFacts)
    requires
        ends_fit(instructions@, end as int),
        contiguous(instructions@),
    ensures
        cfg_ok(start, end, instructions@, facts),
        facts.xrefs@.len() == 0,
        facts.function_call_count == 0,
        facts.function_string_count == 0,
{
    let pairs = resolved_control_flow_targets_by_address(instructions);
    let leaders = block_leaders(start, end, instructions, &pairs);
    let starts = block_start_indices(instructions, &leaders);
    let ghost leader_set = leader_set(start, end, instructions@);
    assert(leaders@.to_set() =~= leader_set);
    let (blocks, parsed) = index_blocks(instructions, &starts, end, Ghost(leader_set));
    let edges = link_blocks(instructions, &starts, &blocks, &parsed, Ghost(leader_set));
    let facts = NativeCfgFacts {
        basic_blocks: blocks,
        instructions: parsed,
        cfg_edges: edges,
        xrefs: Vec::new(),
        function_call_count: 0,
        function_string_count: 0,
    };
    assert(cfg_with_starts(start, end, instructions@, facts, starts@));
    facts
}

/// The data address an indexed instruction refers to: one of its memory operands', or else
/// the one decoded for it.
pub open spec fn spec_instruction_data_target(p: ParsedInstruction) -> Option<u64> {
    match first_data_reference_spec(p.typed_operands@) {
        Some(a) => Some(a),
        None => p.data_target,
    }
}

/// The address an instruction may reach an import through: its control-flow target, or else
/// its data address.
pub open spec fn spec_import_slot(p: ParsedInstruction) -> Option<u64> {
    match spec_parsed_control_target(p) {
        Some(a) => Some(a),
        None => spec_instruction_data_target(p),
    }
}

fn first_data_target_exec(ops: &Vec<DecodedOperand>) -> (r: Option<u64>)
    ensures
        r == first_data_reference_spec(ops@),
{
    let mut i: usize = 0;
    assert(ops@.skip(0) =~= ops@);
    while i < ops.len()
        invariant
            i <= ops@.len(),
            first_data_reference_spec(ops@) == first_data_reference_spec(ops@.skip(i as int)),
        decreases ops@.len() - i,
    {
        assert(ops@.skip(i as int)[0] == ops@[i as int]);
        match ops[i].data_reference_target() {
            Some(a) => {
                return Some(a);
            },
            None => {},
        }
        assert(ops@.skip(i as int).drop_first() =~= ops@.skip(i + 1));
        i += 1;
    }
    None
}

/// The data address an indexed instruction refers to.
pub fn instruction_data_target(instruction: &ParsedInstruction) -> (r: Option<u64>)
    ensures
        r == spec_instruction_data_target(*instruction),
{
    match first_data_target_exec(&instruction.typed_operands) {
        Some(a) => Some(a),
        None => instruction.data_target,
    }
}

/// The address through which an instruction may call or jump to an import.
pub fn instruction_import_slot(instruction: &ParsedInstruction) -> (r: Option<u64>)
    ensures
        r == spec_import_slot(*instruction),
{
    match instruction.control_flow_target() {
        Some(a) => Some(a),
        None => instruction_data_target(instruction),
    }
}

/// The xrefs to the instructions that last wrote the registers read.
pub open spec fn source_xrefs(addr: u64, sources: Seq<u64>) -> Seq<NativeXref> {
    Seq::new(
        sources.len(),
        |i: int|
            NativeXref {
                source: NativeRef::Instruction(addr),
                target: NativeRef::Instruction(sources[i]),
                relation: XrefRelation::References,
                address: Some(addr),
            },
    )
}

/// The function a target address lands on, among the function starts `fs` (each with its
/// ref): the last one listed at that start.
#[verifier::opaque]
pub open spec fn function_at(fs: Seq<(u64, NativeRef)>, t: u64) -> Option<NativeRef>
    decreases fs.len(),
{
    if fs.len() == 0 {
        None
    } else if fs.last().0 == t {
        Some(fs.last().1)
    } else {
        function_at(fs.drop_last(), t)
    }
}

/// The function that target `t` lands on, if any.
pub fn function_target(functions: &[(u64, NativeRef)], t: u64) -> (r: Option<NativeRef>)
    ensures
        r == function_at(functions@, t),
{
    reveal(function_at);
    let mut n: usize = functions.len();
    assert(functions@.subrange(0, n as int) =~= functions@);
    while n > 0
        invariant
            n <= functions@.len(),
            function_at(functions@, t) == function_at(functions@.subrange(0, n as int), t),
        decreases n,
    {
        proof {
            reveal(function_at);
        }
        let (start, target) = functions[n - 1];
        assert(functions@.subrange(0, n as int).last() == functions@[n - 1]);
        assert(functions@.subrange(0, n as int).drop_last() =~= functions@.subrange(0, n - 1));
        if start == t {
            return Some(target);
        }
        n = n - 1;
    }
    proof {
        reveal(function_at);
    }
    None
}

/// The xrefs of one indexed instruction of function `fa`, given the function targets and the
/// starts of strings, imports and blocks.
pub open spec fn instruction_xrefs(
    fa: NativeRef,
    fs: Seq<(u64, NativeRef)>,
    ss: Seq<u64>,
    is: Seq<u64>,
    bs: Seq<u64>,
    p: ParsedInstruction,
) -> Seq<NativeXref> {
    let a = p.address;
    let refs = source_xrefs(a, Seq::new(p.register_sources@.len(), |i: int| p.register_sources@[i].source))
        + source_xrefs(a, Seq::new(p.constant_sources@.len(), |i: int| p.constant_sources@[i].source));
    let strings: Seq<NativeXref> = match spec_instruction_data_target(p) {
        Some(d) => if ss.contains(d) {
            seq![
                NativeXref {
                    source: NativeRef::Instruction(a),
                    target: NativeRef::String(d),
                    relation: XrefRelation::References,
                    address: Some(a),
                },
                NativeXref {
                    source: fa,
                    target: NativeRef::String(d),
                    relation: XrefRelation::References,
                    address: Some(a),
                },
            ]
        } else {
            Seq::empty()
        },
        None => Seq::empty(),
    };
    let kind: Option<Seq<char>> = match p.flow_kind {
        Some(k) => Some(k@),
        None => None,
    };
    let target = spec_parsed_control_target(p);
    let slot = spec_import_slot(p);
    let import_call: Seq<NativeXref> = match slot {
        Some(x) => if is.contains(x) {
            seq![
                NativeXref {
                    source: fa,
                    target: NativeRef::Import(x),
                    relation: XrefRelation::CallsImport,
                    address: Some(a),
                },
            ]
        } else {
            Seq::empty()
        },
        None => Seq::empty(),
    };
    let flow: Seq<NativeXref> = if kind == Some("call"@) {
        match target {
            Some(t) => if function_at(fs, t) is Some {
                seq![
                    NativeXref {
                        source: fa,
                        target: function_at(fs, t)->0,
                        relation: XrefRelation::Calls,
                        address: Some(a),
                    },
                ]
            } else {
                import_call
            },
            None => import_call,
        }
    } else if kind == Some("jump"@) || kind == Some("conditional_branch"@) {
        let cond: Seq<NativeXref> = if kind == Some("conditional_branch"@) {
            match p.condition_source {
                Some(c) => seq![
                    NativeXref {
                        source: NativeRef::Instruction(a),
                        target: NativeRef::Instruction(c),
                        relation: XrefRelation::References,
                        address: Some(a),
                    },
                ],
                None => Seq::empty(),
            }
        } else {
            Seq::empty()
        };
        let jump: Seq<NativeXref> = if import_call.len() > 0 {
            import_call
        } else {
            match target {
                Some(t) => if bs.contains(t) {
                    seq![
                        NativeXref {
                            source: NativeRef::Instruction(a),
                            target: NativeRef::Block(t),
                            relation: XrefRelation::References,
                            address: Some(a),
                        },
                    ]
                } else if function_at(fs, t) is Some {
                    seq![
                        NativeXref {
                            source: NativeRef::Instruction(a),
                            target: function_at(fs, t)->0,
                            relation: XrefRelation::References,
                            address: Some(a),
                        },
                    ]
                } else {
                    Seq::empty()
                },
                None => Seq::empty(),
            }
        };
        cond + jump
    } else {
        Seq::empty()
    };
    refs + strings + flow
}

/// Calls the instruction counts toward its function: direct calls to known functions and
/// calls or jumps through import slots.
pub open spec fn instruction_calls(fs: Seq<(u64, NativeRef)>, is: Seq<u64>, p: ParsedInstruction) -> nat {
    let kind: Option<Seq<char>> = match p.flow_kind {
        Some(k) => Some(k@),
        None => None,
    };
    let via_import: nat = match spec_import_slot(p) {
        Some(x) => if is.contains(x) {
            1
        } else {
            0
        },
        None => 0,
    };
    if kind == Some("call"@) {
        match spec_parsed_control_target(p) {
            Some(t) => if function_at(fs, t) is Some {
                1
            } else {
                via_import
            },
            None => via_import,
        }
    } else if kind == Some("jump"@) || kind == Some("conditional_branch"@) {
        via_import
    } else {
        0
    }
}

/// The xrefs of the first `n` instructions.
pub open spec fn xrefs_upto(
    fa: NativeRef,
    fs: Seq<(u64, NativeRef)>,
    ss: Seq<u64>,
    is: Seq<u64>,
    bs: Seq<u64>,
    ps: Seq<ParsedInstruction>,
    n: int,
) -> Seq<NativeXref>
    decreases n,
{
    if n <= 0 {
        Seq::empty()
    } else {
        xrefs_upto(fa, fs, ss, is, bs, ps, n - 1) + instruction_xrefs(fa, fs, ss, is, bs, ps[n - 1])
    }
}

/// The calls of the first `n` instructions.
pub open spec fn calls_upto(fs: Seq<(u64, NativeRef)>, is: Seq<u64>, ps: Seq<ParsedInstruction>, n: int) -> nat
    decreases n,
{
    if n <= 0 {
        0
    } else {
        calls_upto(fs, is, ps, n - 1) + instruction_calls(fs, is, ps[n - 1])
    }
}

/// The known strings the first `n` instructions refer to.
pub open spec fn strings_upto(ss: Seq<u64>, ps: Seq<ParsedInstruction>, n: int) -> Set<u64>
    decreases n,
{
    if n <= 0 {
        Set::empty()
    } else {
        let prev = strings_upto(ss, ps, n - 1);
        match spec_instruction_data_target(ps[n - 1]) {
            Some(d) => if ss.contains(d) {
                prev.insert(d)
            } else {
                prev
            },
            None => prev,
        }
    }
}

fn push_xref(xrefs: &mut Vec<NativeXref>, source: NativeRef, target: NativeRef, relation: XrefRelation, address: u64)
    ensures
        final(xrefs)@ == old(xrefs)@.push(
            NativeXref { source, target, relation, address: Some(address) },
        ),
{
    xrefs.push(NativeXref { source, target, relation, address: Some(address) });
}

fn contains_start(v: &[u64], x: u64) -> (r: bool)
    ensures
        r == v@.contains(x),
{
    let mut i: usize = 0;
    while i < v.len()
        invariant
            i <= v@.len(),
            forall|j: int| 0 <= j < i ==> v@[j] != x,
        decreases v@.len() - i,
    {
        if v[i] == x {
            return true;
        }
        i += 1;
    }
    false
}

/// The xrefs of one instruction, and the calls it counts.
#[verifier::spinoff_prover]
#[verifier::rlimit(60)]
fn xrefs_of_instruction(
    function: NativeRef,
    functions: &[(u64, NativeRef)],
    strings: &[u64],
    imports: &[u64],
    blocks: &[u64],
    p: &ParsedInstruction,
) -> (r: (Vec<NativeXref>, u64))
    ensures
        r.0@ == instruction_xrefs(function, functions@, strings@, imports@, blocks@, *p),
        r.1 == instruction_calls(functions@, imports@, *p),
{
    let a = p.address;
    let mut out: Vec<NativeXref> = Vec::new();
    let mut i: usize = 0;
    while i < p.register_sources.len()
        invariant
            i <= p.register_sources@.len(),
            out@ == source_xrefs(a, Seq::new(p.register_sources@.len(), |k: int| p.register_sources@[k].source).subrange(0, i as int)),
        decreases p.register_sources@.len() - i,
    {
        push_xref(&mut out, NativeRef::Instruction(a), NativeRef::Instruction(p.register_sources[i].source), XrefRelation::References, a);
        i += 1;
        assert(out@ =~= source_xrefs(a, Seq::new(p.register_sources@.len(), |k: int| p.register_sources@[k].source).subrange(0, i as int)));
    }
    let ghost first = out@;
    assert(first =~= source_xrefs(a, Seq::new(p.register_sources@.len(), |k: int| p.register_sources@[k].source)));
    let mut i: usize = 0;
    while i < p.constant_sources.len()
        invariant
            i <= p.constant_sources@.len(),
            out@ == first + source_xrefs(a, Seq::new(p.constant_sources@.len(), |k: int| p.constant_sources@[k].source).subrange(0, i as int)),
        decreases p.constant_sources@.len() - i,
    {
        push_xref(&mut out, NativeRef::Instruction(a), NativeRef::Instruction(p.constant_sources[i].source), XrefRelation::References, a);
        i += 1;
        assert(out@ =~= first + source_xrefs(a, Seq::new(p.constant_sources@.len(), |k: int| p.constant_sources@[k].source).subrange(0, i as int)));
    }
    let ghost refs = out@;
    assert(refs =~= first + source_xrefs(a, Seq::new(p.constant_sources@.len(), |k: int| p.constant_sources@[k].source)));
    match instruction_data_target(p) {
        Some(d) => {
            if contains_start(strings, d) {
                push_xref(&mut out, NativeRef::Instruction(a), NativeRef::String(d), XrefRelation::References, a);
                push_xref(&mut out, function, NativeRef::String(d), XrefRelation::References, a);
            }
        },
        None => {},
    }
    let ghost with_strings = out@;
    let target = p.control_flow_target();
    let slot = instruction_import_slot(p);
    let via_import = match slot {
        Some(x) => contains_start(imports, x),
        None => false,
    };
    let mut calls: u64 = 0;
    let kind = match &p.flow_kind {
        Some(k) => k.as_str(),
        None => "",
    };
    let has_kind = p.flow_kind.is_some();
    if has_kind && str_eq(kind, "call") {
        let callee = match target {
            Some(t) => function_target(functions, t),
            None => None,
        };
        if callee.is_some() {
            match callee {
                Some(f) => push_xref(&mut out, function, f, XrefRelation::Calls, a),
                None => {},
            }
            calls = 1;
        } else if via_import {
            match slot {
                Some(x) => push_xref(&mut out, function, NativeRef::Import(x), XrefRelation::CallsImport, a),
                None => {},
            }
            calls = 1;
        }
    } else if has_kind && (str_eq(kind, "jump") || str_eq(kind, "conditional_branch")) {
        if str_eq(kind, "conditional_branch") {
            match p.condition_source {
                Some(c) => push_xref(&mut out, NativeRef::Instruction(a), NativeRef::Instruction(c), XrefRelation::References, a),
                None => {},
            }
        }
        if via_import {
            match slot {
                Some(x) => push_xref(&mut out, function, NativeRef::Import(x), XrefRelation::CallsImport, a),
                None => {},
            }
            calls = 1;
        } else {
            match target {
                Some(t) => {
                    if contains_start(blocks, t) {
                        push_xref(&mut out, NativeRef::Instruction(a), NativeRef::Block(t), XrefRelation::References, a);
                    } else {
                        match function_target(functions, t) {
                            Some(f) => push_xref(&mut out, NativeRef::Instruction(a), f, XrefRelation::References, a),
                            None => {},
                        }
                    }
                },
                None => {},
            }
        }
    }
    assert(out@ =~= instruction_xrefs(function, functions@, strings@, imports@, blocks@, *p));
    (out, calls)
}

/// Adds the xrefs of every indexed instruction of function `function`: reads to their
/// writers and constant sources, data references to known strings, calls to known functions and
/// imports, branches to blocks and functions; and counts the function's calls and distinct
/// strings.
pub fn append_instruction_xrefs(
    function: NativeRef,
    functions: &[(u64, NativeRef)],
    strings: &[u64],
    imports: &[u64],
    facts: &mut NativeCfgFacts,
)
    requires
        old(facts).function_call_count + old(facts).instructions@.len() <= u64::MAX,
        old(facts).function_string_count + old(facts).instructions@.len() <= u64::MAX,
    ensures
        final(facts).basic_blocks == old(facts).basic_blocks,
        final(facts).instructions == old(facts).instructions,
        final(facts).cfg_edges == old(facts).cfg_edges,
        final(facts).xrefs@ == old(facts).xrefs@ + xrefs_upto(
            function,
            functions@,
            strings@,
            imports@,
            Seq::new(old(facts).basic_blocks@.len(), |b: int| old(facts).basic_blocks@[b].address),
            old(facts).instructions@,
            old(facts).instructions@.len() as int,
        ),
        final(facts).function_call_count == old(facts).function_call_count + calls_upto(
            functions@,
            imports@,
            old(facts).instructions@,
            old(facts).instructions@.len() as int,
        ),
        exists|v: Seq<u64>|
            increasing(v) && v.to_set() == strings_upto(strings@, old(facts).instructions@, old(facts).instructions@.len() as int)
                && final(facts).function_string_count == old(facts).function_string_count + v.len(),
{
    let mut block_starts: Vec<u64> = Vec::new();
    let mut b: usize = 0;
    while b < facts.basic_blocks.len()
        invariant
            b <= facts.basic_blocks@.len(),
            block_starts@ == Seq::new(facts.basic_blocks@.len(), |q: int| facts.basic_blocks@[q].address).subrange(0, b as int),
        decreases facts.basic_blocks@.len() - b,
    {
        block_starts.push(facts.basic_blocks[b].address);
        b += 1;
        assert(block_starts@ =~= Seq::new(facts.basic_blocks@.len(), |q: int| facts.basic_blocks@[q].address).subrange(0, b as int));
    }
    assert(block_starts@ =~= Seq::new(facts.basic_blocks@.len(), |q: int| facts.basic_blocks@[q].address));
    let ghost ps = facts.instructions@;
    let ghost start_xrefs = facts.xrefs@;
    let ghost start_calls = facts.function_call_count;
    let mut referenced: Vec<u64> = Vec::new();
    assert(referenced@.to_set() =~= Set::<u64>::empty());
    let mut xrefs: Vec<NativeXref> = Vec::new();
    let mut calls: u64 = 0;
    let mut i: usize = 0;
    while i < facts.instructions.len()
        invariant
            ps == facts.instructions@,
            i <= ps.len(),
            start_calls + ps.len() <= u64::MAX,
            xrefs@ == xrefs_upto(function, functions@, strings@, imports@, block_starts@, ps, i as int),
            calls == calls_upto(functions@, imports@, ps, i as int),
            calls <= i,
            increasing(referenced@),
            referenced@.len() <= i,
            referenced@.to_set() == strings_upto(strings@, ps, i as int),
        decreases ps.len() - i,
    {
        let p = &facts.instructions[i];
        let (mut more, c) = xrefs_of_instruction(function, functions, strings, imports, block_starts.as_slice(), p);
        let ghost a = xrefs@;
        let ghost m = more@;
        xrefs.append(&mut more);
        assert(xrefs@ =~= a + m);
        assert(c <= 1) by {
            let pp = ps[i as int];
            let _ = instruction_calls(functions@, imports@, pp);
        }
        calls = calls + c;
        match instruction_data_target(p) {
            Some(d) => {
                if contains_start(strings, d) {
                    insert_sorted_u64(&mut referenced, d);
                }
            },
            None => {},
        }
        proof {
            assert(referenced@.to_set() =~= strings_upto(strings@, ps, i + 1));
        }
        i += 1;
    }
    let mut xrefs = xrefs;
    let ghost old_x = facts.xrefs@;
    let ghost x = xrefs@;
    facts.xrefs.append(&mut xrefs);
    assert(facts.xrefs@ =~= old_x + x);
    facts.function_call_count = facts.function_call_count + calls;
    facts.function_string_count = facts.function_string_count + referenced.len() as u64;
}

/// A scan's blocks, instructions and edges are all that its control-flow facts speak of.
proof fn lemma_cfg_ok_keeps(start: u64, end: u64, ds: Seq<DecodedInstruction>, a: NativeCfgFacts, b: NativeCfgFacts)
    requires
        cfg_ok(start, end, ds, a),
        a.basic_blocks == b.basic_blocks,
        a.instructions == b.instructions,
        a.cfg_edges == b.cfg_edges,
    ensures
        cfg_ok(start, end, ds, b),
{
    let bs = choose|bs: Seq<usize>| cfg_with_starts(start, end, ds, a, bs);
    assert(cfg_with_starts(start, end, ds, b, bs));
}

/// The start addresses of the blocks.
pub open spec fn block_addresses(blocks: Seq<ParsedBasicBlock>) -> Seq<u64> {
    Seq::new(blocks.len(), |b: int| blocks[b].address)
}

/// Builds the blocks, instructions and edges of a function's decoded instructions, then adds
/// its xrefs against the known function targets and string and import starts.
#[verifier::spinoff_prover]
#[verifier::rlimit(100)]
fn scan_decoded_function(
    function: NativeRef,
    start: u64,
    end: u64,
    decoded: &[DecodedInstruction],
    functions: &[(u64, NativeRef)],
    strings: &[u64],
    imports: &[u64],
) -> (facts: NativeCfgFacts)
    requires
        ends_fit(decoded@, end as int),
        contiguous(decoded@),
        decoded@.len() <= u64::MAX,
    ensures
        cfg_ok(start, end, decoded@, facts),
        facts.xrefs@ == xrefs_upto(
            function,
            functions@,
            strings@,
            imports@,
            block_addresses(facts.basic_blocks@),
            facts.instructions@,
            facts.instructions@.len() as int,
        ),
        facts.function_call_count == calls_upto(functions@, imports@, facts.instructions@, facts.instructions@.len() as int),
        exists|v: Seq<u64>|
            increasing(v) && v.to_set() == strings_upto(strings@, facts.instructions@, facts.instructions@.len() as int)
                && facts.function_string_count == v.len(),
{
    let mut facts = scan_decoded_cfg(start, end, decoded);
    assert(facts.instructions@.len() == decoded@.len());
    assert(block_addresses(facts.basic_blocks@) =~= Seq::new(facts.basic_blocks@.len(), |b: int| facts.basic_blocks@[b].address));
    let ghost before = facts;
    append_instruction_xrefs(function, functions, strings, imports, &mut facts);
    proof {
        lemma_cfg_ok_keeps(start, end, decoded@, before, facts);
    }
    assert(facts.xrefs@ =~= xrefs_upto(
        function,
        functions@,
        strings@,
        imports@,
        block_addresses(facts.basic_blocks@),
        facts.instructions@,
        facts.instructions@.len() as int,
    ));
    facts
}

/// Scans function `function`, whose bytes sit at `start_address`: decodes them, builds its
/// blocks, indexed instructions and edges, then its xrefs against the known function targets
/// and string and import starts.
#[verifier::spinoff_prover]
#[verifier::rlimit(100)]
pub fn scan_function_cfg(
    function: NativeRef,
    start_address: u64,
    bytes: &[u8],
    functions: &[(u64, NativeRef)],
    strings: &[u64],
    imports: &[u64],
) -> (facts: NativeCfgFacts)
    requires
        start_address + bytes@.len() <= u64::MAX,
    ensures
        bytes@.len() == 0 ==> facts.basic_blocks@.len() == 0 && facts.instructions@.len() == 0
            && facts.cfg_edges@.len() == 0 && facts.xrefs@.len() == 0 && facts.function_call_count == 0
            && facts.function_string_count == 0,
        bytes@.len() > 0 ==> exists|ds: Seq<DecodedInstruction>|
            decoding_tiles(start_address, bytes@, ds) && cfg_ok(
                start_address,
                (start_address + bytes@.len()) as u64,
                ds,
                facts,
            ),
        facts.xrefs@ == xrefs_upto(
            function,
            functions@,
            strings@,
            imports@,
            block_addresses(facts.basic_blocks@),
            facts.instructions@,
            facts.instructions@.len() as int,
        ),
        facts.function_call_count == calls_upto(functions@, imports@, facts.instructions@, facts.instructions@.len() as int),
        exists|v: Seq<u64>|
            increasing(v) && v.to_set() == strings_upto(strings@, facts.instructions@, facts.instructions@.len() as int)
                && facts.function_string_count == v.len(),
{
    let decoded = decode_native_instructions(start_address, bytes);
    if decoded.len() == 0 {
        let facts = NativeCfgFacts {
            basic_blocks: Vec::new(),
            instructions: Vec::new(),
            cfg_edges: Vec::new(),
            xrefs: Vec::new(),
            function_call_count: 0,
            function_string_count: 0,
        };
        assert(facts.xrefs@ =~= xrefs_upto(
            function,
            functions@,
            strings@,
            imports@,
            block_addresses(facts.basic_blocks@),
            facts.instructions@,
            0,
        ));
        assert(Seq::<u64>::empty().to_set() =~= Set::<u64>::empty());
        assert(increasing(Seq::<u64>::empty()));
        return facts;
    }
    let end = start_address + bytes.len() as u64;
    proof {
        lemma_tiling_facts(start_address, bytes@, decoded@);
        let ds = decoded@;
        assert(contiguous(ds));
        assert(ends_fit(ds, end as int));
        assert(end == (start_address + bytes@.len()) as u64);
    }
    scan_decoded_function(function, start_address, end, decoded.as_slice(), functions, strings, imports)
}

} // verus!
