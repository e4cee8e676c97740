use vstd::prelude::*;
use vstd::arithmetic::power2::pow2;
use vstd::bits::low_bits_mask;

use crate::decode::{DecodedOperand, OperandKind, OperandRole};
use crate::registers::{
    first_with, find_operand, destination_register_operand, self_xor_register,
    spec_self_xor_register, spec_zero_extended_alias, spec_low_byte_alias,
    zero_extended_alias_register, low_byte_alias_register, lemma_first_with_at,
};
use crate::text::{str_eq, string_of};
use crate::width::{
    spec_normalized_width, spec_width_mask, normalized_width_bits, width_mask, spec_sign_extend,
    sign_extend_to_width, spec_arithmetic_shift_right, arithmetic_shift_right, lemma_mask_is_mod,
    lemma_masked_mod, lemma_wrapping_add, lemma_wrapping_sub, lemma_wrapping_mul, lemma_shl_mod,
};

verus! {

/// A register that an instruction leaves holding a known value.
#[derive(Clone, Debug, PartialEq, Eq)]
pub struct RegisterConstantWrite {
    pub register: String,
    pub value: u64,
    pub width_bits: Option<u16>,
}

/// A register known to hold a value, with the address of the instruction that put it there.
#[derive(Clone, Debug, PartialEq, Eq)]
pub struct RegisterConstantSource {
    pub register: String,
    pub value: u64,
    pub width_bits: Option<u16>,
    pub source: u64,
}

/// A known constant as a value: register name, value, width, source instruction address.
pub type ConstantView = (Seq<char>, u64, Option<u16>, u64);

impl View for RegisterConstantSource {
    type V = ConstantView;

    open spec fn view(&self) -> ConstantView {
        (self.register@, self.value, self.width_bits, self.source)
    }
}

/// A constant table as values.
pub open spec fn constants_view(v: Seq<RegisterConstantSource>) -> Seq<ConstantView> {
    Seq::new(v.len(), |i: int| v[i]@)
}

/// A constant write as a value: register name, value, width.
pub type WriteModel = (Seq<char>, nat, Option<u16>);

impl View for RegisterConstantWrite {
    type V = WriteModel;

    open spec fn view(&self) -> WriteModel {
        (self.register@, self.value as nat, self.width_bits)
    }
}

/// The writes of a list, as values.
pub open spec fn writes_view(v: Seq<RegisterConstantWrite>) -> Seq<WriteModel> {
    Seq::new(v.len(), |i: int| v[i]@)
}

/// No write, or exactly one.
pub open spec fn option_seq(o: Option<WriteModel>) -> Seq<WriteModel> {
    match o {
        Some(w) => seq![w],
        None => Seq::empty(),
    }
}

/// `a`, or `b` when `a` is absent.
pub open spec fn opt_or(a: Option<u16>, b: Option<u16>) -> Option<u16> {
    match a {
        Some(x) => Some(x),
        None => b,
    }
}

/// Position of the first known constant for `register`.
#[verifier::opaque]
pub open spec fn constant_index(sources: Seq<ConstantView>, register: Seq<char>) -> Option<
    int,
> {
    if exists|k: int| 0 <= k < sources.len() && sources[k].0 == register {
        Some(
            choose|k: int|
                0 <= k < sources.len() && sources[k].0 == register && forall|j: int|
                    0 <= j < k ==> sources[j].0 != register,
        )
    } else {
        None
    }
}

/// Finds the known constant for `register`.
pub fn find_constant(sources: &[RegisterConstantSource], register: &str) -> (r: Option<usize>)
    ensures
        match r {
            Some(k) => {
                &&& constant_index(constants_view(sources@), register@) == Some(k as int)
                &&& k < sources@.len()
                &&& sources@[k as int].register@ == register@
            },
            None => constant_index(constants_view(sources@), register@) is None,
        },
{
    let mut i: usize = 0;
    while i < sources.len()
        invariant
            i <= sources@.len(),
            forall|j: int| 0 <= j < i ==> sources@[j].register@ != register@,
        decreases sources@.len() - i,
    {
        if str_eq(sources[i].register.as_str(), register) {
            proof {
                reveal(constant_index);
                let s = constants_view(sources@);
                let c = choose|k: int|
                    0 <= k < s.len() && s[k].0 == register@ && forall|j: int|
                        0 <= j < k ==> s[j].0 != register@;
                assert(0 <= i < s.len() && s[i as int].0 == register@ && forall|j: int|
                    0 <= j < i ==> s[j].0 != register@);
                assert(c == i);
            }
            return Some(i);
        }
        i += 1;
    }
    proof {
        reveal(constant_index);
        let s = constants_view(sources@);
        assert forall|k: int| 0 <= k < s.len() implies s[k].0 != register@ by {
            assert(s[k] == sources@[k]@);
        }
    }
    None
}

pub(crate) fn single_constant_write(register: String, value: u64, width_bits: Option<u16>) -> (r: Vec<RegisterConstantWrite>)
    ensures
        writes_view(r@) == seq![(register@, value as nat, width_bits)],
{
    let mut v: Vec<RegisterConstantWrite> = Vec::new();
    v.push(RegisterConstantWrite { register, value, width_bits });
    assert(writes_view(v@) =~= seq![(register@, value as nat, width_bits)]);
    v
}

pub(crate) fn no_constant_write() -> (r: Vec<RegisterConstantWrite>)
    ensures
        writes_view(r@) == Seq::<WriteModel>::empty(),
{
    let v: Vec<RegisterConstantWrite> = Vec::new();
    assert(writes_view(v@) =~= Seq::<WriteModel>::empty());
    v
}

fn or_width(a: Option<u16>, b: Option<u16>) -> (r: Option<u16>)
    ensures
        r == opt_or(a, b),
{
    match a {
        Some(x) => Some(x),
        None => b,
    }
}

/// The constant an instruction writes by itself: the `xor r, r` zeroing idiom, a `lea` of a
/// known data address, or a `mov` of an immediate into a register.
pub open spec fn spec_constant_write(m: Seq<char>, ops: Seq<DecodedOperand>, data_target: Option<u64>) -> Option<
    WriteModel,
> {
    let dest = first_with(ops, OperandRole::Destination, OperandKind::Register);
    match spec_self_xor_register(m, ops) {
        Some(reg) => Some(
            (
                reg,
                0,
                match dest {
                    Some(d) => opt_or(ops[d].width_bits, Some(64)),
                    None => Some(64),
                },
            ),
        ),
        None => if m == "lea"@ {
            match dest {
                Some(d) => match (ops[d].register, data_target) {
                    (Some(r), Some(v)) => Some((r@, v as nat, opt_or(ops[d].width_bits, Some(64)))),
                    _ => None,
                },
                None => None,
            }
        } else if m == "mov"@ {
            match (dest, first_with(ops, OperandRole::Source, OperandKind::Immediate)) {
                (Some(d), Some(i)) => match (ops[d].register, ops[i].value) {
                    (Some(r), Some(v)) => Some((r@, v as nat, ops[i].width_bits)),
                    _ => None,
                },
                _ => None,
            }
        } else {
            None
        },
    }
}

/// The register constant an instruction writes on its own, from its operands and its static
/// data address.
pub fn constant_writes_for_instruction(
    mnemonic: &str,
    operands: &[DecodedOperand],
    data_target: Option<u64>,
) -> (r: Vec<RegisterConstantWrite>)
    ensures
        writes_view(r@) == option_seq(spec_constant_write(mnemonic@, operands@, data_target)),
{
    match self_xor_register(mnemonic, operands) {
        Some(register) => {
            let width_bits = match find_operand(
                operands,
                OperandRole::Destination,
                OperandKind::Register,
            ) {
                Some(d) => or_width(operands[d].width_bits, Some(64)),
                None => Some(64),
            };
            return single_constant_write(register, 0, width_bits);
        },
        None => {},
    }
    if str_eq(mnemonic, "lea") {
        let d = match destination_register_operand(operands) {
            Some(d) => d,
            None => return no_constant_write(),
        };
        let register = match &operands[d].register {
            Some(x) => x.clone(),
            None => return no_constant_write(),
        };
        let value = match data_target {
            Some(v) => v,
            None => return no_constant_write(),
        };
        return single_constant_write(register, value, or_width(operands[d].width_bits, Some(64)));
    }
    if !str_eq(mnemonic, "mov") {
        return no_constant_write();
    }
    let d = match destination_register_operand(operands) {
        Some(d) => d,
        None => return no_constant_write(),
    };
    let i = match find_operand(operands, OperandRole::Source, OperandKind::Immediate) {
        Some(i) => i,
        None => return no_constant_write(),
    };
    let register = match &operands[d].register {
        Some(x) => x.clone(),
        None => return no_constant_write(),
    };
    let value = match operands[i].value {
        Some(v) => v,
        None => return no_constant_write(),
    };
    single_constant_write(register, value, operands[i].width_bits)
}

/// The register-to-register operands of a propagation: the destination register, the first
/// register source, and the known constant of that source.
pub open spec fn copy_parts(ops: Seq<DecodedOperand>, sources: Seq<ConstantView>) -> Option<
    (int, int, int),
> {
    match (
        first_with(ops, OperandRole::Destination, OperandKind::Register),
        first_with(ops, OperandRole::Source, OperandKind::Register),
    ) {
        (Some(d), Some(s)) => match (ops[d].register, ops[s].register) {
            (Some(_), Some(sr)) => match constant_index(sources, sr@) {
                Some(c) => Some((d, s, c)),
                None => None,
            },
            _ => None,
        },
        _ => None,
    }
}

/// Finds the parts `copy_parts` names.
fn find_copy_parts(operands: &[DecodedOperand], sources: &[RegisterConstantSource]) -> (r: Option<
    (usize, usize, usize),
>)
    ensures
        match r {
            Some((d, s, c)) => {
                &&& copy_parts(operands@, constants_view(sources@)) == Some((d as int, s as int, c as int))
                &&& d < operands@.len()
                &&& s < operands@.len()
                &&& c < sources@.len()
                &&& operands@[d as int].register is Some
            },
            None => copy_parts(operands@, constants_view(sources@)) is None,
        },
{
    let d = match destination_register_operand(operands) {
        Some(d) => d,
        None => return None,
    };
    let s = match find_operand(operands, OperandRole::Source, OperandKind::Register) {
        Some(s) => s,
        None => return None,
    };
    if operands[d].register.is_none() {
        return None;
    }
    let c = match &operands[s].register {
        Some(x) => match find_constant(sources, x.as_str()) {
            Some(c) => c,
            None => return None,
        },
        None => return None,
    };
    Some((d, s, c))
}

/// A `mov` between registers copies a known constant.
pub open spec fn spec_copied_write(
    m: Seq<char>,
    ops: Seq<DecodedOperand>,
    sources: Seq<ConstantView>,
) -> Option<WriteModel> {
    if m != "mov"@ {
        None
    } else {
        match copy_parts(ops, sources) {
            Some((d, s, c)) => Some(
                (
                    ops[d].register.unwrap()@,
                    sources[c].1 as nat,
                    opt_or(ops[d].width_bits, sources[c].2),
                ),
            ),
            None => None,
        }
    }
}

/// The constant a register-to-register `mov` copies from a register of known value.
pub fn copied_constant_writes_for_instruction(
    mnemonic: &str,
    operands: &[DecodedOperand],
    constant_sources: &[RegisterConstantSource],
) -> (r: Vec<RegisterConstantWrite>)
    ensures
        writes_view(r@) == option_seq(spec_copied_write(mnemonic@, operands@, constants_view(constant_sources@))),
{
    if !str_eq(mnemonic, "mov") {
        return no_constant_write();
    }
    match find_copy_parts(operands, constant_sources) {
        Some((d, _s, c)) => {
            let register = match &operands[d].register {
                Some(x) => x.clone(),
                None => return no_constant_write(),
            };
            single_constant_write(
                register,
                constant_sources[c].value,
                or_width(operands[d].width_bits, constant_sources[c].width_bits),
            )
        },
        None => no_constant_write(),
    }
}

/// `imul r, r/m, imm` of a register of known value: the product at the destination width.
pub open spec fn spec_imul_write(
    m: Seq<char>,
    ops: Seq<DecodedOperand>,
    sources: Seq<ConstantView>,
) -> Option<WriteModel> {
    if m != "imul"@ {
        None
    } else {
        match (copy_parts(ops, sources), first_with(ops, OperandRole::Source, OperandKind::Immediate)) {
            (Some((d, s, c)), Some(i)) => match ops[i].value {
                Some(imm) => {
                    let w = spec_normalized_width(
                        opt_or(opt_or(ops[d].width_bits, ops[s].width_bits), sources[c].2),
                    );
                    Some(
                        (
                            ops[d].register.unwrap()@,
                            ((sources[c].1 * imm) % (pow2(w) as int)) as nat,
                            Some(w as u16),
                        ),
                    )
                },
                None => None,
            },
            _ => None,
        }
    }
}

/// The constant an `imul` by an immediate computes from a register of known value.
pub fn imul_constant_writes_for_instruction(
    mnemonic: &str,
    operands: &[DecodedOperand],
    constant_sources: &[RegisterConstantSource],
) -> (r: Vec<RegisterConstantWrite>)
    ensures
        writes_view(r@) == option_seq(spec_imul_write(mnemonic@, operands@, constants_view(constant_sources@))),
{
    if !str_eq(mnemonic, "imul") {
        return no_constant_write();
    }
    let (d, s, c) = match find_copy_parts(operands, constant_sources) {
        Some(p) => p,
        None => return no_constant_write(),
    };
    let i = match find_operand(operands, OperandRole::Source, OperandKind::Immediate) {
        Some(i) => i,
        None => return no_constant_write(),
    };
    let immediate = match operands[i].value {
        Some(v) => v,
        None => return no_constant_write(),
    };
    let register = match &operands[d].register {
        Some(x) => x.clone(),
        None => return no_constant_write(),
    };
    let width = normalized_width_bits(
        or_width(
            or_width(operands[d].width_bits, operands[s].width_bits),
            constant_sources[c].width_bits,
        ),
    );
    let mask = width_mask(width);
    let product = constant_sources[c].value.wrapping_mul(immediate);
    proof {
        lemma_wrapping_mul(constant_sources@[c as int].value, immediate);
        lemma_masked_mod(product, constant_sources@[c as int].value * immediate, width as nat);
        assert(spec_width_mask(width) == low_bits_mask(width as nat));
    }
    single_constant_write(register, product & mask, Some(width))
}

/// `movzx` of a register of known value: the value at the source width.
pub open spec fn spec_movzx_write(
    m: Seq<char>,
    ops: Seq<DecodedOperand>,
    sources: Seq<ConstantView>,
) -> Option<WriteModel> {
    if m != "movzx"@ {
        None
    } else {
        match copy_parts(ops, sources) {
            Some((d, s, c)) => {
                let sw = spec_normalized_width(opt_or(ops[s].width_bits, sources[c].2));
                Some(
                    (
                        ops[d].register.unwrap()@,
                        (sources[c].1 as nat) % pow2(sw),
                        opt_or(ops[d].width_bits, Some(32)),
                    ),
                )
            },
            None => None,
        }
    }
}

/// The constant a `movzx` zero-extends from a register of known value.
pub fn movzx_constant_writes_for_instruction(
    mnemonic: &str,
    operands: &[DecodedOperand],
    constant_sources: &[RegisterConstantSource],
) -> (r: Vec<RegisterConstantWrite>)
    ensures
        writes_view(r@) == option_seq(spec_movzx_write(mnemonic@, operands@, constants_view(constant_sources@))),
{
    if !str_eq(mnemonic, "movzx") {
        return no_constant_write();
    }
    let (d, s, c) = match find_copy_parts(operands, constant_sources) {
        Some(p) => p,
        None => return no_constant_write(),
    };
    let register = match &operands[d].register {
        Some(x) => x.clone(),
        None => return no_constant_write(),
    };
    let source_width = normalized_width_bits(
        or_width(operands[s].width_bits, constant_sources[c].width_bits),
    );
    let mask = width_mask(source_width);
    proof {
        lemma_mask_is_mod(constant_sources@[c as int].value, source_width as nat);
        assert(spec_width_mask(source_width) == low_bits_mask(source_width as nat));
    }
    single_constant_write(
        register,
        constant_sources[c].value & mask,
        or_width(operands[d].width_bits, Some(32)),
    )
}

/// `movsx` of a register of known value: the value sign-extended from the source width to
/// the destination width (32 when absent).
pub open spec fn spec_movsx_write(
    m: Seq<char>,
    ops: Seq<DecodedOperand>,
    sources: Seq<ConstantView>,
) -> Option<WriteModel> {
    if m != "movsx"@ {
        None
    } else {
        match copy_parts(ops, sources) {
            Some((d, s, c)) => {
                let sw = spec_normalized_width(opt_or(ops[s].width_bits, sources[c].2));
                let dw = spec_normalized_width(opt_or(ops[d].width_bits, Some(32)));
                Some(
                    (
                        ops[d].register.unwrap()@,
                        spec_sign_extend(sources[c].1, sw as u16, dw as u16),
                        Some(dw as u16),
                    ),
                )
            },
            None => None,
        }
    }
}

/// The constant a `movsx` sign-extends from a register of known value.
pub fn movsx_constant_writes_for_instruction(
    mnemonic: &str,
    operands: &[DecodedOperand],
    constant_sources: &[RegisterConstantSource],
) -> (r: Vec<RegisterConstantWrite>)
    ensures
        writes_view(r@) == option_seq(spec_movsx_write(mnemonic@, operands@, constants_view(constant_sources@))),
{
    if !str_eq(mnemonic, "movsx") {
        return no_constant_write();
    }
    let (d, s, c) = match find_copy_parts(operands, constant_sources) {
        Some(p) => p,
        None => return no_constant_write(),
    };
    let register = match &operands[d].register {
        Some(x) => x.clone(),
        None => return no_constant_write(),
    };
    let source_width = normalized_width_bits(
        or_width(operands[s].width_bits, constant_sources[c].width_bits),
    );
    let destination_width = normalized_width_bits(or_width(operands[d].width_bits, Some(32)));
    let value = sign_extend_to_width(constant_sources[c].value, source_width, destination_width);
    single_constant_write(register, value, Some(destination_width))
}

/// `movsxd` of a register of known value: the value sign-extended from the source width (32
/// when absent) to the destination width (64 when absent).
pub open spec fn spec_movsxd_write(
    m: Seq<char>,
    ops: Seq<DecodedOperand>,
    sources: Seq<ConstantView>,
) -> Option<WriteModel> {
    if m != "movsxd"@ {
        None
    } else {
        match copy_parts(ops, sources) {
            Some((d, s, c)) => {
                let sw = spec_normalized_width(opt_or(ops[s].width_bits, Some(32)));
                let dw = spec_normalized_width(opt_or(ops[d].width_bits, Some(64)));
                Some(
                    (
                        ops[d].register.unwrap()@,
                        spec_sign_extend(sources[c].1, sw as u16, dw as u16),
                        Some(dw as u16),
                    ),
                )
            },
            None => None,
        }
    }
}

/// The constant a `movsxd` sign-extends from a register of known value.
pub fn movsxd_constant_writes_for_instruction(
    mnemonic: &str,
    operands: &[DecodedOperand],
    constant_sources: &[RegisterConstantSource],
) -> (r: Vec<RegisterConstantWrite>)
    ensures
        writes_view(r@) == option_seq(spec_movsxd_write(mnemonic@, operands@, constants_view(constant_sources@))),
{
    if !str_eq(mnemonic, "movsxd") {
        return no_constant_write();
    }
    let (d, s, c) = match find_copy_parts(operands, constant_sources) {
        Some(p) => p,
        None => return no_constant_write(),
    };
    let register = match &operands[d].register {
        Some(x) => x.clone(),
        None => return no_constant_write(),
    };
    let source_width = normalized_width_bits(or_width(operands[s].width_bits, Some(32)));
    let destination_width = normalized_width_bits(or_width(operands[d].width_bits, Some(64)));
    let value = sign_extend_to_width(constant_sources[c].value, source_width, destination_width);
    single_constant_write(register, value, Some(destination_width))
}

/// The in-place arithmetic mnemonics whose result on a known value is computed.
pub open spec fn is_tracked_arithmetic(m: Seq<char>) -> bool {
    m == "add"@ || m == "sub"@ || m == "and"@ || m == "or"@ || m == "xor"@ || m == "inc"@ || m
        == "dec"@ || m == "shl"@ || m == "shr"@ || m == "sar"@ || m == "not"@ || m == "neg"@
}

/// The result of arithmetic instruction `m` on `a` (and operand `imm`) at width `w`.
pub open spec fn spec_arithmetic_value(m: Seq<char>, a: u64, imm: u64, w: nat) -> nat {
    let p = pow2(w) as int;
    if m == "add"@ {
        ((a + imm) % p) as nat
    } else if m == "sub"@ {
        ((a - imm) % p) as nat
    } else if m == "and"@ {
        ((a & imm) as int % p) as nat
    } else if m == "or"@ {
        ((a | imm) as int % p) as nat
    } else if m == "xor"@ {
        ((a ^ imm) as int % p) as nat
    } else if m == "inc"@ {
        ((a + 1) % p) as nat
    } else if m == "dec"@ {
        ((a - 1) % p) as nat
    } else if m == "shl"@ {
        ((a * pow2((imm % 32) as nat)) % p) as nat
    } else if m == "shr"@ {
        ((a as int % p) / (pow2((imm % 32) as nat) as int)) as nat
    } else if m == "sar"@ {
        spec_arithmetic_shift_right(a, imm, Some(w as u16))
    } else if m == "not"@ {
        ((!a) as int % p) as nat
    } else {
        ((0 - a) % p) as nat
    }
}

/// In-place arithmetic on a register of known value: the result at the destination width.
pub open spec fn spec_arithmetic_write(
    m: Seq<char>,
    ops: Seq<DecodedOperand>,
    sources: Seq<ConstantView>,
) -> Option<WriteModel> {
    if !is_tracked_arithmetic(m) {
        None
    } else {
        match first_with(ops, OperandRole::Destination, OperandKind::Register) {
            Some(d) => match ops[d].register {
                Some(dr) => {
                    let imm: Option<u64> = if m == "inc"@ || m == "dec"@ || m == "not"@ || m
                        == "neg"@ {
                        Some(1)
                    } else {
                        match first_with(ops, OperandRole::Source, OperandKind::Immediate) {
                            Some(i) => ops[i].value,
                            None => None,
                        }
                    };
                    match (imm, constant_index(sources, dr@)) {
                        (Some(v), Some(c)) => {
                            let w = spec_normalized_width(
                                opt_or(ops[d].width_bits, sources[c].2),
                            );
                            Some(
                                (
                                    dr@,
                                    spec_arithmetic_value(m, sources[c].1, v, w),
                                    Some(w as u16),
                                ),
                            )
                        },
                        _ => None,
                    }
                },
                None => None,
            },
            None => None,
        }
    }
}

fn is_tracked_arithmetic_exec(m: &str) -> (r: bool)
    ensures
        r == is_tracked_arithmetic(m@),
{
    str_eq(m, "add") || str_eq(m, "sub") || str_eq(m, "and") || str_eq(m, "or") || str_eq(m, "xor")
        || str_eq(m, "inc") || str_eq(m, "dec") || str_eq(m, "shl") || str_eq(m, "shr") || str_eq(
        m,
        "sar",
    ) || str_eq(m, "not") || str_eq(m, "neg")
}

/// Computes `spec_arithmetic_value` for a width in `1..=64`.
fn arithmetic_value(mnemonic: &str, a: u64, imm: u64, width: u16) -> (r: u64)
    requires
        1 <= width <= 64,
        is_tracked_arithmetic(mnemonic@),
    ensures
        r == spec_arithmetic_value(mnemonic@, a, imm, width as nat),
{
    let mask = width_mask(width);
    let ghost w = width as nat;
    proof {
        assert(spec_width_mask(width) == low_bits_mask(w));
        vstd::arithmetic::power2::lemma_pow2_pos(w);
    }
    if str_eq(mnemonic, "add") {
        proof {
            lemma_wrapping_add(a, imm);
            lemma_masked_mod(a.wrapping_add(imm), a + imm, w);
        }
        a.wrapping_add(imm) & mask
    } else if str_eq(mnemonic, "sub") {
        proof {
            lemma_wrapping_sub(a, imm);
            lemma_masked_mod(a.wrapping_sub(imm), a - imm, w);
        }
        a.wrapping_sub(imm) & mask
    } else if str_eq(mnemonic, "and") {
        proof {
            lemma_mask_is_mod(a & imm, w);
        }
        (a & imm) & mask
    } else if str_eq(mnemonic, "or") {
        proof {
            lemma_mask_is_mod(a | imm, w);
        }
        (a | imm) & mask
    } else if str_eq(mnemonic, "xor") {
        proof {
            lemma_mask_is_mod(a ^ imm, w);
        }
        (a ^ imm) & mask
    } else if str_eq(mnemonic, "inc") {
        proof {
            lemma_wrapping_add(a, 1);
            lemma_masked_mod(a.wrapping_add(1), a + 1, w);
        }
        a.wrapping_add(1) & mask
    } else if str_eq(mnemonic, "dec") {
        proof {
            lemma_wrapping_sub(a, 1);
            lemma_masked_mod(a.wrapping_sub(1), a - 1, w);
        }
        a.wrapping_sub(1) & mask
    } else if str_eq(mnemonic, "shl") {
        let k = imm & 0x1f;
        proof {
            assert(imm & 0x1f == imm % 32) by (bit_vector);
            lemma_shl_mod(a, k);
            lemma_masked_mod(a << k, a * pow2(k as nat), w);
        }
        (a << k) & mask
    } else if str_eq(mnemonic, "shr") {
        let k = imm & 0x1f;
        proof {
            assert(imm & 0x1f == imm % 32) by (bit_vector);
            lemma_mask_is_mod(a, w);
            vstd::bits::lemma_u64_shr_is_div(a & mask, k);
        }
        (a & mask) >> k
    } else if str_eq(mnemonic, "sar") {
        arithmetic_shift_right(a, imm, Some(width))
    } else if str_eq(mnemonic, "not") {
        proof {
            lemma_mask_is_mod(!a, w);
        }
        (!a) & mask
    } else {
        proof {
            lemma_wrapping_sub(0, a);
            lemma_masked_mod(0u64.wrapping_sub(a), 0 - a, w);
        }
        0u64.wrapping_sub(a) & mask
    }
}

/// Bit `i` of `x`.
pub open spec fn bit_of(x: u64, i: u64) -> bool {
    (x >> i) & 1 == 1
}

/// Keeping the low `n` bits of `x` keeps each of its bits below `n`.
pub(crate) proof fn lemma_low_bit_kept(x: u64, n: nat, i: u64)
    requires
        1 <= n <= 64,
        i < n,
    ensures
        bit_of(x & (low_bits_mask(n) as u64), i) == bit_of(x, i),
{
    if n == 64 {
        vstd::bits::lemma_low_bits_mask_values();
        assert(low_bits_mask(64) as u64 == 0xffff_ffff_ffff_ffffu64);
        assert(bit_of(x & 0xffff_ffff_ffff_ffffu64, i) == bit_of(x, i)) by (bit_vector);
    } else {
        let k = n as u64;
        vstd::bits::lemma_u64_pow2_no_overflow(n);
        vstd::bits::lemma_u64_shl_is_mul(1, k);
        vstd::arithmetic::power2::lemma_pow2_pos(n);
        assert(low_bits_mask(n) == pow2(n) - 1);
        let m = ((1u64 << k) - 1) as u64;
        assert(low_bits_mask(n) as u64 == m);
        assert(bit_of(x & (((1u64 << k) - 1) as u64), i) == bit_of(x, i)) by (bit_vector)
            requires
                k < 64,
                i < k,
        ;
    }
}

/// `x % p` differs from `x` by a multiple of `p`.
proof fn lemma_mod_congruent(x: int, p: int)
    requires
        p > 0,
    ensures
        (x % p - x) % p == 0,
        0 <= x % p < p,
{
    vstd::arithmetic::div_mod::lemma_fundamental_div_mod(x, p);
    vstd::arithmetic::div_mod::lemma_mod_bound(x, p);
    vstd::arithmetic::div_mod::lemma_mod_multiples_basic(-(x / p), p);
    assert(x % p - x == -(x / p) * p) by (nonlinear_arith)
        requires
            x == p * (x / p) + x % p,
    ;
}

/// The letters of the arithmetic mnemonics, enough to tell them apart.
proof fn lemma_arithmetic_letters()
    ensures
        "add"@ =~= seq!['a', 'd', 'd'],
        "sub"@ =~= seq!['s', 'u', 'b'],
        "and"@ =~= seq!['a', 'n', 'd'],
        "or"@ =~= seq!['o', 'r'],
        "xor"@ =~= seq!['x', 'o', 'r'],
        "inc"@ =~= seq!['i', 'n', 'c'],
        "dec"@ =~= seq!['d', 'e', 'c'],
        "shl"@ =~= seq!['s', 'h', 'l'],
        "shr"@ =~= seq!['s', 'h', 'r'],
        "sar"@ =~= seq!['s', 'a', 'r'],
        "not"@ =~= seq!['n', 'o', 't'],
        "neg"@ =~= seq!['n', 'e', 'g'],
{
    reveal_strlit("add");
    reveal_strlit("sub");
    reveal_strlit("and");
    reveal_strlit("or");
    reveal_strlit("xor");
    reveal_strlit("inc");
    reveal_strlit("dec");
    reveal_strlit("shl");
    reveal_strlit("shr");
    reveal_strlit("sar");
    reveal_strlit("not");
    reveal_strlit("neg");
}

/// Law of direct constants: `xor r, r` leaves 0 in `r`; `mov r, imm` leaves the immediate in
/// its (first) register destination `r`; and `lea r, [addr]` with a known address leaves that
/// address in `r`.
pub proof fn law_direct_constants(m: Seq<char>, ops: Seq<DecodedOperand>, data_target: Option<u64>, d: int, i: int)
    requires
        0 <= d < ops.len(),
        ops[d].role == OperandRole::Destination && ops[d].kind == OperandKind::Register,
        forall|j: int| 0 <= j < d ==> !((#[trigger] ops[j]).role == OperandRole::Destination && ops[j].kind == OperandKind::Register),
        0 <= i < ops.len(),
        ops[i].role == OperandRole::Source && ops[i].kind == OperandKind::Immediate,
        forall|j: int| 0 <= j < i ==> !((#[trigger] ops[j]).role == OperandRole::Source && ops[j].kind == OperandKind::Immediate),
    ensures
        spec_self_xor_register(m, ops) is Some ==> spec_constant_write(m, ops, data_target) is Some
            && spec_constant_write(m, ops, data_target).unwrap().0 == spec_self_xor_register(m, ops).unwrap()
            && spec_constant_write(m, ops, data_target).unwrap().1 == 0,
        m == "mov"@ && ops[d].register is Some && ops[i].value is Some ==> spec_constant_write(m, ops, data_target) is Some
            && spec_constant_write(m, ops, data_target).unwrap().0 == ops[d].register.unwrap()@
            && spec_constant_write(m, ops, data_target).unwrap().1 == ops[i].value.unwrap() as nat,
        m == "lea"@ && ops[d].register is Some && data_target is Some ==> spec_constant_write(m, ops, data_target) is Some
            && spec_constant_write(m, ops, data_target).unwrap().0 == ops[d].register.unwrap()@
            && spec_constant_write(m, ops, data_target).unwrap().1 == data_target.unwrap() as nat,
{
    lemma_first_with_at(ops, OperandRole::Destination, OperandKind::Register, d);
    lemma_first_with_at(ops, OperandRole::Source, OperandKind::Immediate, i);
    reveal_strlit("mov");
    reveal_strlit("lea");
    reveal_strlit("xor");
    assert("mov"@[0] == 'm' && "lea"@[0] == 'l' && "xor"@[0] == 'x');
}

/// Law of bitwise constants: at width `w`, every bit below `w` of what `and`, `or`, `xor` and
/// `not` leave in a register of known value `a` (with operand `imm`) is, in turn, the and, the
/// or, the exclusive or of the operands' bits, and the negation of `a`'s bit; each result fits
/// in `w` bits. So `or` keeps every bit set in `a` or in `imm`.
#[verifier::spinoff_prover]
pub proof fn law_bitwise_constants(a: u64, imm: u64, w: nat, i: u64)
    requires
        1 <= w <= 64,
        i < w,
    ensures
        spec_arithmetic_value("and"@, a, imm, w) < pow2(w),
        spec_arithmetic_value("or"@, a, imm, w) < pow2(w),
        spec_arithmetic_value("xor"@, a, imm, w) < pow2(w),
        spec_arithmetic_value("not"@, a, imm, w) < pow2(w),
        bit_of(spec_arithmetic_value("and"@, a, imm, w) as u64, i) == (bit_of(a, i) && bit_of(imm, i)),
        bit_of(spec_arithmetic_value("or"@, a, imm, w) as u64, i) == (bit_of(a, i) || bit_of(imm, i)),
        bit_of(spec_arithmetic_value("xor"@, a, imm, w) as u64, i) == (bit_of(a, i) != bit_of(imm, i)),
        bit_of(spec_arithmetic_value("not"@, a, imm, w) as u64, i) == !bit_of(a, i),
{
    lemma_arithmetic_letters();
    lemma_mask_is_mod(a & imm, w);
    lemma_mask_is_mod(a | imm, w);
    lemma_mask_is_mod(a ^ imm, w);
    lemma_mask_is_mod(!a, w);
    lemma_low_bit_kept(a & imm, w, i);
    lemma_low_bit_kept(a | imm, w, i);
    lemma_low_bit_kept(a ^ imm, w, i);
    lemma_low_bit_kept(!a, w, i);
    assert(bit_of(a & imm, i) == (bit_of(a, i) && bit_of(imm, i))) by (bit_vector)
        requires
            i < 64,
    ;
    assert(bit_of(a | imm, i) == (bit_of(a, i) || bit_of(imm, i))) by (bit_vector)
        requires
            i < 64,
    ;
    assert(bit_of(a ^ imm, i) == (bit_of(a, i) != bit_of(imm, i))) by (bit_vector)
        requires
            i < 64,
    ;
    assert(bit_of(!a, i) == !bit_of(a, i)) by (bit_vector)
        requires
            i < 64,
    ;
}

/// Law of additive constants: at width `w`, what `add`, `sub`, `inc`, `dec`, `neg` and `shl`
/// leave in a register of known value `a` (with operand `imm`) is the `w`-bit number congruent,
/// modulo 2^w, to `a + imm`, `a - imm`, `a + 1`, `a - 1`, `-a` and `a * 2^(imm mod 32)`; and
/// `shr` leaves the quotient of `a`'s low `w` bits by 2^(imm mod 32).
#[verifier::spinoff_prover]
pub proof fn law_additive_constants(a: u64, imm: u64, w: nat)
    requires
        1 <= w <= 64,
    ensures
        ({
            let p = pow2(w) as int;
            let add = spec_arithmetic_value("add"@, a, imm, w) as int;
            let sub = spec_arithmetic_value("sub"@, a, imm, w) as int;
            let inc = spec_arithmetic_value("inc"@, a, imm, w) as int;
            let dec = spec_arithmetic_value("dec"@, a, imm, w) as int;
            let neg = spec_arithmetic_value("neg"@, a, imm, w) as int;
            let shl = spec_arithmetic_value("shl"@, a, imm, w) as int;
            let shr = spec_arithmetic_value("shr"@, a, imm, w) as int;
            let s = pow2((imm % 32) as nat) as int;
            &&& 0 <= add < p && (add - (a + imm)) % p == 0
            &&& 0 <= sub < p && (sub - (a - imm)) % p == 0
            &&& 0 <= inc < p && (inc - (a + 1)) % p == 0
            &&& 0 <= dec < p && (dec - (a - 1)) % p == 0
            &&& 0 <= neg < p && (neg + a) % p == 0
            &&& 0 <= shl < p && (shl - a * s) % p == 0
            &&& shr * s <= a as int % p < shr * s + s
        }),
{
    lemma_arithmetic_letters();
    let p = pow2(w) as int;
    vstd::arithmetic::power2::lemma_pow2_pos(w);
    let s = pow2((imm % 32) as nat) as int;
    vstd::arithmetic::power2::lemma_pow2_pos((imm % 32) as nat);
    lemma_mod_congruent(a + imm, p);
    lemma_mod_congruent(a - imm, p);
    lemma_mod_congruent(a + 1, p);
    lemma_mod_congruent(a - 1, p);
    lemma_mod_congruent(0 - a, p);
    lemma_mod_congruent(a * s, p);
    let x = a as int % p;
    vstd::arithmetic::div_mod::lemma_mod_pos_bound(a as int, p);
    vstd::arithmetic::div_mod::lemma_fundamental_div_mod(x, s);
    vstd::arithmetic::div_mod::lemma_mod_pos_bound(x, s);
    vstd::arithmetic::div_mod::lemma_div_pos_is_pos(x, s);
    assert(spec_arithmetic_value("shr"@, a, imm, w) as int == x / s);
    assert((x / s) * s <= x < (x / s) * s + s) by (nonlinear_arith)
        requires
            x == s * (x / s) + x % s,
            0 <= x % s < s,
    ;
}

/// Law of arithmetic constant writes: an instruction writes at most one arithmetic constant,
/// and only when it is a tracked arithmetic operation (`add`, `sub`, `and`, `or`, `xor`, `inc`,
/// `dec`, `shl`, `shr`, `sar`, `not`, `neg`) whose destination register holds a known constant
/// and, but for `inc`, `dec`, `not` and `neg`, whose immediate source is known; the constant is
/// then written to that destination register.
pub proof fn law_arithmetic_writes_need_known_inputs(m: Seq<char>, ops: Seq<DecodedOperand>, sources: Seq<ConstantView>)
    ensures
        option_seq(spec_arithmetic_write(m, ops, sources)).len() <= 1,
        spec_arithmetic_write(m, ops, sources) is Some ==> {
            &&& is_tracked_arithmetic(m)
            &&& first_with(ops, OperandRole::Destination, OperandKind::Register) is Some
            &&& ops[first_with(ops, OperandRole::Destination, OperandKind::Register).unwrap()].register is Some
            &&& constant_index(
                sources,
                ops[first_with(ops, OperandRole::Destination, OperandKind::Register).unwrap()].register.unwrap()@,
            ) is Some
            &&& spec_arithmetic_write(m, ops, sources).unwrap().0
                == ops[first_with(ops, OperandRole::Destination, OperandKind::Register).unwrap()].register.unwrap()@
            &&& (m == "inc"@ || m == "dec"@ || m == "not"@ || m == "neg"@ || first_with(
                ops,
                OperandRole::Source,
                OperandKind::Immediate,
            ) is Some)
        },
{
}

/// The constant in-place arithmetic (`add`, `sub`, `and`, `or`, `xor`, `inc`, `dec`, `shl`,
/// `shr`, `sar`, `not`, `neg`) leaves in a register of known value.
pub fn arithmetic_constant_writes_for_instruction(
    mnemonic: &str,
    operands: &[DecodedOperand],
    constant_sources: &[RegisterConstantSource],
) -> (r: Vec<RegisterConstantWrite>)
    ensures
        writes_view(r@) == option_seq(
            spec_arithmetic_write(mnemonic@, operands@, constants_view(constant_sources@)),
        ),
{
    if !is_tracked_arithmetic_exec(mnemonic) {
        return no_constant_write();
    }
    let d = match destination_register_operand(operands) {
        Some(d) => d,
        None => return no_constant_write(),
    };
    let register = match &operands[d].register {
        Some(x) => x.clone(),
        None => return no_constant_write(),
    };
    let immediate: u64 = if str_eq(mnemonic, "inc") || str_eq(mnemonic, "dec") || str_eq(
        mnemonic,
        "not",
    ) || str_eq(mnemonic, "neg") {
        1
    } else {
        let i = match find_operand(operands, OperandRole::Source, OperandKind::Immediate) {
            Some(i) => i,
            None => return no_constant_write(),
        };
        match operands[i].value {
            Some(v) => v,
            None => return no_constant_write(),
        }
    };
    let c = match find_constant(constant_sources, register.as_str()) {
        Some(c) => c,
        None => return no_constant_write(),
    };
    let width = normalized_width_bits(
        or_width(operands[d].width_bits, constant_sources[c].width_bits),
    );
    let value = arithmetic_value(mnemonic, constant_sources[c].value, immediate, width);
    single_constant_write(register, value, Some(width))
}

/// Constant writes as the 64-bit registers a 32-bit write zero-extends into.
pub open spec fn spec_zero_extended_aliases(ws: Seq<WriteModel>) -> Seq<WriteModel>
    decreases ws.len(),
{
    if ws.len() == 0 {
        Seq::empty()
    } else {
        let w = ws.last();
        let rest = spec_zero_extended_aliases(ws.drop_last());
        if w.2 == Some(32u16) {
            match spec_zero_extended_alias(w.0) {
                Some(alias) => rest.push((alias, w.1 % 0x1_0000_0000, Some(64u16))),
                None => rest,
            }
        } else {
            rest
        }
    }
}

/// For each 32-bit constant write, the same value written to the full 64-bit register.
pub fn zero_extended_alias_constant_writes(constant_writes: &[RegisterConstantWrite]) -> (r: Vec<
    RegisterConstantWrite,
>)
    ensures
        writes_view(r@) == spec_zero_extended_aliases(writes_view(constant_writes@)),
{
    let mut out: Vec<RegisterConstantWrite> = Vec::new();
    let mut i: usize = 0;
    while i < constant_writes.len()
        invariant
            i <= constant_writes@.len(),
            writes_view(out@) == spec_zero_extended_aliases(
                writes_view(constant_writes@.subrange(0, i as int)),
            ),
        decreases constant_writes@.len() - i,
    {
        let ghost before = out@;
        let w = &constant_writes[i];
        proof {
            let pre = writes_view(constant_writes@.subrange(0, i as int));
            let post = writes_view(constant_writes@.subrange(0, i + 1));
            assert(post.drop_last() =~= pre);
            assert(post.last() == constant_writes@[i as int]@);
        }
        if w.width_bits == Some(32u16) {
            match zero_extended_alias_register(w.register.as_str()) {
                Some(alias) => {
                    proof {
                        let x = w.value;
                        assert(x & 0xffff_ffff == x % 0x1_0000_0000) by (bit_vector);
                    }
                    out.push(
                        RegisterConstantWrite {
                            register: string_of(alias),
                            value: w.value & 0xffff_ffff,
                            width_bits: Some(64),
                        },
                    );
                    assert(writes_view(out@) =~= writes_view(before).push(out@.last()@));
                },
                None => {},
            }
        }
        i += 1;
    }
    assert(constant_writes@.subrange(0, constant_writes@.len() as int) =~= constant_writes@);
    out
}

/// Constant writes as the low-byte registers of 32- and 64-bit registers.
pub open spec fn spec_low_byte_aliases(ws: Seq<WriteModel>) -> Seq<WriteModel>
    decreases ws.len(),
{
    if ws.len() == 0 {
        Seq::empty()
    } else {
        let w = ws.last();
        let rest = spec_low_byte_aliases(ws.drop_last());
        if w.2 == Some(32u16) || w.2 == Some(64u16) {
            match spec_low_byte_alias(w.0) {
                Some(alias) => rest.push((alias, w.1 % 0x100, Some(8u16))),
                None => rest,
            }
        } else {
            rest
        }
    }
}

/// For each 32- or 64-bit constant write, its low byte written to the byte register.
pub fn low_byte_alias_constant_writes(constant_writes: &[RegisterConstantWrite]) -> (r: Vec<
    RegisterConstantWrite,
>)
    ensures
        writes_view(r@) == spec_low_byte_aliases(writes_view(constant_writes@)),
{
    let mut out: Vec<RegisterConstantWrite> = Vec::new();
    let mut i: usize = 0;
    while i < constant_writes.len()
        invariant
            i <= constant_writes@.len(),
            writes_view(out@) == spec_low_byte_aliases(
                writes_view(constant_writes@.subrange(0, i as int)),
            ),
        decreases constant_writes@.len() - i,
    {
        let ghost before = out@;
        let w = &constant_writes[i];
        proof {
            let pre = writes_view(constant_writes@.subrange(0, i as int));
            let post = writes_view(constant_writes@.subrange(0, i + 1));
            assert(post.drop_last() =~= pre);
            assert(post.last() == constant_writes@[i as int]@);
        }
        if w.width_bits == Some(32u16) || w.width_bits == Some(64u16) {
            match low_byte_alias_register(w.register.as_str()) {
                Some(alias) => {
                    proof {
                        let x = w.value;
                        assert(x & 0xff == x % 0x100) by (bit_vector);
                    }
                    out.push(
                        RegisterConstantWrite {
                            register: string_of(alias),
                            value: w.value & 0xff,
                            width_bits: Some(8),
                        },
                    );
                    assert(writes_view(out@) =~= writes_view(before).push(out@.last()@));
                },
                None => {},
            }
        }
        i += 1;
    }
    assert(constant_writes@.subrange(0, constant_writes@.len() as int) =~= constant_writes@);
    out
}

} // verus!
