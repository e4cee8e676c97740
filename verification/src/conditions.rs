use vstd::prelude::*;
use vstd::arithmetic::power2::pow2;
use vstd::bits::low_bits_mask;

use crate::constants::{
    RegisterConstantSource, RegisterConstantWrite, WriteModel, ConstantView, constants_view,
    constant_index, find_constant,
    writes_view, option_seq, opt_or, no_constant_write, single_constant_write, bit_of,
    lemma_low_bit_kept,
};
use crate::registers::{first_with, destination_register_operand};
use crate::decode::{DecodedInstruction, DecodedOperand, OperandKind, OperandRole, condition_suffixes};
use crate::text::{
    str_eq, string_of, hex_text, hex_string, spec_strip_prefix, str_strip_prefix, contains_text,
    str_contains,
};
use crate::width::{
    bit_set, count_ones, signed_value, spec_normalized_width, spec_width_mask, normalized_width_bits,
    width_mask, sign_bit_set, signed_width_value, parity_even, lemma_mask_is_mod, lemma_masked_mod,
    lemma_wrapping_sub,
};

verus! {

/// The flags-setting instruction a conditional branch depends on, borrowed from it.
#[derive(Clone, Copy, Debug)]
pub struct FlagCondition<'a> {
    pub mnemonic: &'a str,
    pub operands_text: &'a str,
    pub operands: &'a [DecodedOperand],
}

/// Whether an instruction sets the flags a later branch tests (`cmp` or `test`).
pub fn is_flag_producer(instruction: &DecodedInstruction) -> (r: bool)
    ensures
        r == (instruction.mnemonic@ == "cmp"@ || instruction.mnemonic@ == "test"@),
{
    str_eq(instruction.mnemonic.as_str(), "cmp") || str_eq(instruction.mnemonic.as_str(), "test")
}

/// Two optional strings holding the same characters.
pub open spec fn same_opt_string(a: Option<String>, b: Option<String>) -> bool {
    match (a, b) {
        (Some(x), Some(y)) => x@ == y@,
        (None, None) => true,
        _ => false,
    }
}

/// The flag condition a `cmp` or `test` sets up: its mnemonic, operand text and operands.
pub fn condition_from_flag_producer(instruction: &DecodedInstruction) -> (r: FlagCondition<'_>)
    ensures
        r.mnemonic@ == instruction.mnemonic@,
        r.operands_text@ == instruction.operands@,
        r.operands@ == instruction.typed_operands@,
{
    FlagCondition {
        mnemonic: instruction.mnemonic.as_str(),
        operands_text: instruction.operands.as_str(),
        operands: instruction.typed_operands.as_slice(),
    }
}

/// The value of an operand, when it is an immediate or a register of known value.
pub open spec fn spec_operand_value(op: DecodedOperand, k: Seq<ConstantView>) -> Option<u64> {
    match op.kind {
        OperandKind::Immediate => op.value,
        OperandKind::Register => match op.register {
            Some(r) => match constant_index(k, r@) {
                Some(c) => Some(k[c].1),
                None => None,
            },
            None => None,
        },
        _ => None,
    }
}

/// The value of an operand from its immediate or the known constant of its register.
pub fn condition_operand_value(operand: &DecodedOperand, constants: &[RegisterConstantSource]) -> (r:
    Option<u64>)
    ensures
        r == spec_operand_value(*operand, constants_view(constants@)),
{
    match operand.kind {
        OperandKind::Immediate => operand.value,
        OperandKind::Register => match &operand.register {
            Some(register) => match find_constant(constants, register.as_str()) {
                Some(c) => Some(constants[c].value),
                None => None,
            },
            None => None,
        },
        _ => None,
    }
}

/// The width of an operand, from the operand or else from its register's known constant,
/// normalized.
pub open spec fn spec_operand_known_width(op: DecodedOperand, k: Seq<ConstantView>) -> Option<
    nat,
> {
    let w = match op.width_bits {
        Some(w) => Some(w),
        None => match op.register {
            Some(r) => match constant_index(k, r@) {
                Some(c) => k[c].2,
                None => None,
            },
            None => None,
        },
    };
    match w {
        Some(x) => Some(spec_normalized_width(Some(x))),
        None => None,
    }
}

/// The width an operand is known to have.
pub fn operand_known_width_bits(operand: &DecodedOperand, constants: &[RegisterConstantSource]) -> (r:
    Option<u16>)
    ensures
        match r {
            Some(w) => spec_operand_known_width(*operand, constants_view(constants@)) == Some(w as nat),
            None => spec_operand_known_width(*operand, constants_view(constants@)) is None,
        },
{
    let w = match operand.width_bits {
        Some(w) => Some(w),
        None => match &operand.register {
            Some(register) => match find_constant(constants, register.as_str()) {
                Some(c) => constants[c].width_bits,
                None => None,
            },
            None => None,
        },
    };
    match w {
        Some(x) => Some(normalized_width_bits(Some(x))),
        None => None,
    }
}

/// The width a flag condition computes at: that of its first operand, else its second, else 64.
pub open spec fn spec_result_width(ops: Seq<DecodedOperand>, k: Seq<ConstantView>) -> nat {
    let first = if ops.len() >= 1 {
        spec_operand_known_width(ops[0], k)
    } else {
        None
    };
    match first {
        Some(w) => w,
        None => {
            let second = if ops.len() >= 2 {
                spec_operand_known_width(ops[1], k)
            } else {
                None
            };
            match second {
                Some(w) => w,
                None => 64,
            }
        },
    }
}

/// The width a flag condition's result has.
pub fn condition_result_width(condition: &FlagCondition, constants: &[RegisterConstantSource]) -> (r:
    u16)
    ensures
        r == spec_result_width(condition.operands@, constants_view(constants@)),
        1 <= r <= 64,
{
    if condition.operands.len() >= 1 {
        match operand_known_width_bits(&condition.operands[0], constants) {
            Some(w) => return w,
            None => {},
        }
    }
    if condition.operands.len() >= 2 {
        match operand_known_width_bits(&condition.operands[1], constants) {
            Some(w) => return w,
            None => {},
        }
    }
    64
}

/// Both compared values, when the condition has two operands of known value.
pub open spec fn spec_pair(ops: Seq<DecodedOperand>, k: Seq<ConstantView>) -> Option<
    (u64, u64),
> {
    if ops.len() >= 2 {
        match (spec_operand_value(ops[0], k), spec_operand_value(ops[1], k)) {
            (Some(a), Some(b)) => Some((a, b)),
            _ => None,
        }
    } else {
        None
    }
}

fn condition_pair(condition: &FlagCondition, constants: &[RegisterConstantSource]) -> (r: Option<
    (u64, u64),
>)
    ensures
        r == spec_pair(condition.operands@, constants_view(constants@)),
{
    if condition.operands.len() < 2 {
        return None;
    }
    let left = match condition_operand_value(&condition.operands[0], constants) {
        Some(v) => v,
        None => return None,
    };
    let right = match condition_operand_value(&condition.operands[1], constants) {
        Some(v) => v,
        None => return None,
    };
    Some((left, right))
}

/// Whether a conditional jump is taken after `cmp left, right` of known values.
pub open spec fn spec_compare_outcome(
    mn: Seq<char>,
    ops: Seq<DecodedOperand>,
    k: Seq<ConstantView>,
) -> Option<bool> {
    match spec_pair(ops, k) {
        Some((a, b)) => {
            let w = spec_result_width(ops, k);
            let l = (a as nat) % pow2(w);
            let r = (b as nat) % pow2(w);
            if mn == "je"@ {
                Some(l == r)
            } else if mn == "jne"@ {
                Some(l != r)
            } else if mn == "ja"@ {
                Some(l > r)
            } else if mn == "jae"@ {
                Some(l >= r)
            } else if mn == "jb"@ {
                Some(l < r)
            } else if mn == "jbe"@ {
                Some(l <= r)
            } else if mn == "jg"@ {
                Some(signed_value(l, w) > signed_value(r, w))
            } else if mn == "jge"@ {
                Some(signed_value(l, w) >= signed_value(r, w))
            } else if mn == "jl"@ {
                Some(signed_value(l, w) < signed_value(r, w))
            } else if mn == "jle"@ {
                Some(signed_value(l, w) <= signed_value(r, w))
            } else {
                None
            }
        },
        None => None,
    }
}

proof fn lemma_signed_reduced(v: nat, w: nat)
    requires
        1 <= w <= 64,
    ensures
        signed_value(v % pow2(w), w) == signed_value(v, w),
{
    vstd::arithmetic::power2::lemma_pow2_pos(w);
    vstd::arithmetic::div_mod::lemma_mod_twice(v as int, pow2(w) as int);
}

/// A `w`-bit value read as two's complement.
pub open spec fn twos_complement(v: nat, w: nat) -> int {
    if v >= pow2((w - 1) as nat) {
        v - pow2(w)
    } else {
        v as int
    }
}

/// The flags that `cmp l, r` leaves on `w`-bit values `l` and `r`: zero (the `w`-bit
/// difference is 0), carry (the subtraction borrows), sign (the top bit of the `w`-bit
/// difference) and overflow (the two's-complement difference does not fit in `w` bits).
pub open spec fn compare_flags(l: nat, r: nat, w: nat) -> (bool, bool, bool, bool) {
    let p = pow2(w) as int;
    let h = pow2((w - 1) as nat) as int;
    let diff = (l - r) % p;
    let d = twos_complement(l, w) - twos_complement(r, w);
    (diff == 0, l < r, diff >= h, d < -h || d >= h)
}

/// `x % p` for `x` strictly between `-p` and `p`.
proof fn lemma_mod_window(x: int, p: int)
    requires
        0 < p,
        -p < x < p,
    ensures
        x >= 0 ==> x % p == x,
        x < 0 ==> x % p == x + p,
{
    if x >= 0 {
        vstd::arithmetic::div_mod::lemma_small_mod(x as nat, p as nat);
    } else {
        vstd::arithmetic::div_mod::lemma_mod_add_multiples_vanish(x, p);
        vstd::arithmetic::div_mod::lemma_small_mod((p + x) as nat, p as nat);
    }
}

/// The comparison of two `w`-bit values against the flags of their `cmp`: equal exactly when
/// ZF, below exactly when CF, and less (as two's complement) exactly when SF differs from OF.
proof fn lemma_flags_compare(l: nat, r: nat, w: nat)
    requires
        1 <= w <= 64,
        l < pow2(w),
        r < pow2(w),
    ensures
        compare_flags(l, r, w).0 <==> l == r,
        compare_flags(l, r, w).1 <==> l < r,
        (compare_flags(l, r, w).2 != compare_flags(l, r, w).3) <==> signed_value(l, w) < signed_value(r, w),
        signed_value(l, w) == signed_value(r, w) <==> l == r,
{
    let p = pow2(w) as int;
    let h = pow2((w - 1) as nat) as int;
    vstd::arithmetic::power2::lemma_pow2_unfold(w);
    vstd::arithmetic::power2::lemma_pow2_pos((w - 1) as nat);
    lemma_mod_window(l - r, p);
    vstd::arithmetic::div_mod::lemma_small_mod(l, pow2(w));
    vstd::arithmetic::div_mod::lemma_small_mod(r, pow2(w));
    assert(signed_value(l, w) == twos_complement(l, w));
    assert(signed_value(r, w) == twos_complement(r, w));
}

/// Law of compared jumps: after `cmp` of known values, read at the compare's width `w`, each
/// conditional jump is taken exactly when its x86 condition holds on the flags `cmp` sets:
/// `je` on ZF, `jne` on not ZF, `ja` on neither CF nor ZF, `jae` on not CF, `jb` on CF, `jbe`
/// on CF or ZF, `jg` on not ZF and SF = OF, `jge` on SF = OF, `jl` on SF != OF, and `jle` on ZF
/// or SF != OF. In particular `ja` is not taken on equal values.
pub proof fn law_compare_outcome_follows_flags(mn: Seq<char>, ops: Seq<DecodedOperand>, k: Seq<ConstantView>)
    requires
        spec_pair(ops, k) is Some,
    ensures
        ({
            let (a, b) = spec_pair(ops, k).unwrap();
            let w = spec_result_width(ops, k);
            let f = compare_flags((a as nat) % pow2(w), (b as nat) % pow2(w), w);
            let (zf, cf, sf, of) = (f.0, f.1, f.2, f.3);
            let o = spec_compare_outcome(mn, ops, k);
            &&& mn == "je"@ ==> o == Some(zf)
            &&& mn == "jne"@ ==> o == Some(!zf)
            &&& mn == "ja"@ ==> o == Some(!cf && !zf)
            &&& mn == "jae"@ ==> o == Some(!cf)
            &&& mn == "jb"@ ==> o == Some(cf)
            &&& mn == "jbe"@ ==> o == Some(cf || zf)
            &&& mn == "jg"@ ==> o == Some(!zf && sf == of)
            &&& mn == "jge"@ ==> o == Some(sf == of)
            &&& mn == "jl"@ ==> o == Some(sf != of)
            &&& mn == "jle"@ ==> o == Some(zf || sf != of)
        }),
{
    let (a, b) = spec_pair(ops, k).unwrap();
    let w = spec_result_width(ops, k);
    assert(1 <= w <= 64);
    vstd::arithmetic::power2::lemma_pow2_pos(w);
    let l = (a as nat) % pow2(w);
    let r = (b as nat) % pow2(w);
    lemma_flags_compare(l, r, w);
    reveal_strlit("je");
    reveal_strlit("jne");
    reveal_strlit("ja");
    reveal_strlit("jae");
    reveal_strlit("jb");
    reveal_strlit("jbe");
    reveal_strlit("jg");
    reveal_strlit("jge");
    reveal_strlit("jl");
    reveal_strlit("jle");
    assert("je"@.len() == 2 && "je"@[1] == 'e' && "ja"@.len() == 2 && "ja"@[1] == 'a' && "jb"@.len() == 2 && "jb"@[1]
        == 'b' && "jg"@.len() == 2 && "jg"@[1] == 'g' && "jl"@.len() == 2 && "jl"@[1] == 'l');
    assert("jne"@.len() == 3 && "jne"@[1] == 'n' && "jae"@.len() == 3 && "jae"@[1] == 'a' && "jbe"@.len() == 3
        && "jbe"@[1] == 'b' && "jge"@.len() == 3 && "jge"@[1] == 'g' && "jle"@.len() == 3 && "jle"@[1] == 'l');
    let o = spec_compare_outcome(mn, ops, k);
    assert(mn == "je"@ ==> o == Some(l == r));
    assert(mn == "jne"@ ==> o == Some(l != r));
    assert(mn == "ja"@ ==> o == Some(l > r));
    assert(mn == "jae"@ ==> o == Some(l >= r));
    assert(mn == "jb"@ ==> o == Some(l < r));
    assert(mn == "jbe"@ ==> o == Some(l <= r));
    assert(mn == "jg"@ ==> o == Some(signed_value(l, w) > signed_value(r, w)));
    assert(mn == "jge"@ ==> o == Some(signed_value(l, w) >= signed_value(r, w)));
    assert(mn == "jl"@ ==> o == Some(signed_value(l, w) < signed_value(r, w)));
    assert(mn == "jle"@ ==> o == Some(signed_value(l, w) <= signed_value(r, w)));
}

/// Law of tested jumps: `test` of known values `a` and `b` at width `w` computes their bitwise
/// and `v`, a `w`-bit value whose bits below `w` are those set in both; `je` is then taken
/// exactly when `v` is zero (ZF), `jne` when it is not, `js` when its top bit, bit `w - 1`, is
/// set (SF), and `jns` when it is clear.
#[verifier::spinoff_prover]
pub proof fn law_test_outcome_follows_flags(mn: Seq<char>, ops: Seq<DecodedOperand>, k: Seq<ConstantView>)
    requires
        spec_pair(ops, k) is Some,
    ensures
        ({
            let (a, b) = spec_pair(ops, k).unwrap();
            let w = spec_result_width(ops, k);
            let v = spec_test_result(ops, k).unwrap();
            let o = spec_test_outcome(mn, ops, k);
            &&& v < pow2(w)
            &&& forall|i: u64| i < w ==> bit_of(v as u64, i) == (bit_of(a, i) && bit_of(b, i))
            &&& mn == "je"@ ==> o == Some(v == 0)
            &&& mn == "jne"@ ==> o == Some(v != 0)
            &&& mn == "js"@ ==> o == Some(v >= pow2((w - 1) as nat))
            &&& mn == "jns"@ ==> o == Some(v < pow2((w - 1) as nat))
        }),
{
    let (a, b) = spec_pair(ops, k).unwrap();
    let w = spec_result_width(ops, k);
    assert(1 <= w <= 64);
    let v = spec_test_result(ops, k).unwrap();
    lemma_mask_is_mod(a & b, w);
    assert forall|i: u64| i < w implies bit_of(v as u64, i) == (bit_of(a, i) && bit_of(b, i)) by {
        lemma_low_bit_kept(a & b, w, i);
        assert(bit_of(a & b, i) == (bit_of(a, i) && bit_of(b, i))) by (bit_vector)
            requires
                i < 64,
        ;
    }
    let h = pow2((w - 1) as nat);
    vstd::arithmetic::power2::lemma_pow2_unfold(w);
    vstd::arithmetic::power2::lemma_pow2_pos((w - 1) as nat);
    let vi = v as int;
    let hi = h as int;
    if vi < hi {
        vstd::arithmetic::div_mod::lemma_fundamental_div_mod_converse(vi, hi, 0, vi);
    } else {
        vstd::arithmetic::div_mod::lemma_fundamental_div_mod_converse(vi, hi, 1, vi - hi);
    }
    assert(bit_set(v, (w - 1) as nat) == (v >= h));
    reveal_strlit("je");
    reveal_strlit("jne");
    reveal_strlit("js");
    reveal_strlit("jns");
    reveal_strlit("jp");
    reveal_strlit("jnp");
    assert("je"@.len() == 2 && "je"@[1] == 'e' && "js"@.len() == 2 && "js"@[1] == 's' && "jp"@.len() == 2 && "jp"@[1]
        == 'p');
    assert("jne"@.len() == 3 && "jne"@[2] == 'e' && "jns"@.len() == 3 && "jns"@[2] == 's' && "jnp"@.len() == 3
        && "jnp"@[2] == 'p');
}

/// Whether the jump `mnemonic` is taken after a `cmp` of known values.
pub fn cmp_condition_outcome(
    mnemonic: &str,
    condition: &FlagCondition,
    constants: &[RegisterConstantSource],
) -> (r: Option<bool>)
    ensures
        r == spec_compare_outcome(mnemonic@, condition.operands@, constants_view(constants@)),
{
    compare_condition_outcome(mnemonic, condition, constants)
}

fn compare_condition_outcome(
    mnemonic: &str,
    condition: &FlagCondition,
    constants: &[RegisterConstantSource],
) -> (r: Option<bool>)
    ensures
        r == spec_compare_outcome(mnemonic@, condition.operands@, constants_view(constants@)),
{
    let width = condition_result_width(condition, constants);
    let mask = width_mask(width);
    let (a, b) = match condition_pair(condition, constants) {
        Some(p) => p,
        None => return None,
    };
    proof {
        assert(spec_width_mask(width) == low_bits_mask(width as nat));
        lemma_mask_is_mod(a, width as nat);
        lemma_mask_is_mod(b, width as nat);
    }
    let left = a & mask;
    let right = b & mask;
    proof {
        lemma_signed_reduced(a as nat, width as nat);
        lemma_signed_reduced(b as nat, width as nat);
    }
    if str_eq(mnemonic, "je") {
        Some(left == right)
    } else if str_eq(mnemonic, "jne") {
        Some(left != right)
    } else if str_eq(mnemonic, "ja") {
        Some(left > right)
    } else if str_eq(mnemonic, "jae") {
        Some(left >= right)
    } else if str_eq(mnemonic, "jb") {
        Some(left < right)
    } else if str_eq(mnemonic, "jbe") {
        Some(left <= right)
    } else if str_eq(mnemonic, "jg") {
        Some(signed_width_value(left, width) > signed_width_value(right, width))
    } else if str_eq(mnemonic, "jge") {
        Some(signed_width_value(left, width) >= signed_width_value(right, width))
    } else if str_eq(mnemonic, "jl") {
        Some(signed_width_value(left, width) < signed_width_value(right, width))
    } else if str_eq(mnemonic, "jle") {
        Some(signed_width_value(left, width) <= signed_width_value(right, width))
    } else {
        None
    }
}

/// The sign of `left - right` at the condition's width, after a `cmp` of known values.
pub open spec fn spec_compare_sign(ops: Seq<DecodedOperand>, k: Seq<ConstantView>) -> Option<
    bool,
> {
    match spec_pair(ops, k) {
        Some((a, b)) => {
            let w = spec_result_width(ops, k);
            Some(bit_set(((a - b) % (pow2(w) as int)) as nat, (w - 1) as nat))
        },
        None => None,
    }
}

/// Whether the sign flag is set after a `cmp` of known values.
pub fn cmp_sign_known_outcome(condition: &FlagCondition, constants: &[RegisterConstantSource]) -> (r:
    Option<bool>)
    ensures
        r == spec_compare_sign(condition.operands@, constants_view(constants@)),
{
    compare_sign_outcome(condition, constants)
}

fn compare_sign_outcome(condition: &FlagCondition, constants: &[RegisterConstantSource]) -> (r:
    Option<bool>)
    ensures
        r == spec_compare_sign(condition.operands@, constants_view(constants@)),
{
    let (a, b) = match condition_pair(condition, constants) {
        Some(p) => p,
        None => return None,
    };
    let width = condition_result_width(condition, constants);
    let mask = width_mask(width);
    proof {
        assert(spec_width_mask(width) == low_bits_mask(width as nat));
        lemma_wrapping_sub(a, b);
        lemma_masked_mod(a.wrapping_sub(b), a - b, width as nat);
    }
    let result = a.wrapping_sub(b) & mask;
    Some(sign_bit_set(result, width))
}

/// The value `left & right` at the condition's width, after a `test` of known values.
pub open spec fn spec_test_result(ops: Seq<DecodedOperand>, k: Seq<ConstantView>) -> Option<
    nat,
> {
    match spec_pair(ops, k) {
        Some((a, b)) => Some(((a & b) as nat) % pow2(spec_result_width(ops, k))),
        None => None,
    }
}

/// The result a `test` of known values computes, with its width.
pub fn test_result_value(condition: &FlagCondition, constants: &[RegisterConstantSource]) -> (r:
    Option<(u64, u16)>)
    ensures
        match r {
            Some((v, w)) => spec_test_result(condition.operands@, constants_view(constants@)) == Some(v as nat) && w
                == spec_result_width(condition.operands@, constants_view(constants@)),
            None => spec_test_result(condition.operands@, constants_view(constants@)) is None,
        },
{
    let (a, b) = match condition_pair(condition, constants) {
        Some(p) => p,
        None => return None,
    };
    let width = condition_result_width(condition, constants);
    let mask = width_mask(width);
    proof {
        assert(spec_width_mask(width) == low_bits_mask(width as nat));
        lemma_mask_is_mod(a & b, width as nat);
    }
    Some(((a & b) & mask, width))
}

/// Whether the sign flag is set after a `test` of known values.
pub fn test_sign_known_outcome(condition: &FlagCondition, constants: &[RegisterConstantSource]) -> (r:
    Option<bool>)
    ensures
        r == match spec_test_result(condition.operands@, constants_view(constants@)) {
            Some(v) => Some(bit_set(v, (spec_result_width(condition.operands@, constants_view(constants@)) - 1) as nat)),
            None => None,
        },
{
    match test_result_value(condition, constants) {
        Some((v, w)) => Some(sign_bit_set(v, w)),
        None => None,
    }
}

/// Whether the zero flag is set after a `test` of known values.
pub fn test_zero_known_outcome(condition: &FlagCondition, constants: &[RegisterConstantSource]) -> (r:
    Option<bool>)
    ensures
        r == match spec_test_result(condition.operands@, constants_view(constants@)) {
            Some(v) => Some(v == 0),
            None => None,
        },
{
    match test_result_value(condition, constants) {
        Some((v, _w)) => Some(v == 0),
        None => None,
    }
}

/// Whether the parity flag is set (even parity) after a `test` of known values.
pub fn test_parity_known_outcome(condition: &FlagCondition, constants: &[RegisterConstantSource]) -> (r:
    Option<bool>)
    ensures
        r == match spec_test_result(condition.operands@, constants_view(constants@)) {
            Some(v) => Some(count_ones(v, 8) % 2 == 0),
            None => None,
        },
{
    match test_result_value(condition, constants) {
        Some((v, _w)) => Some(parity_even(v)),
        None => None,
    }
}

/// Whether the jump `mn` is taken after a `test` of known values.
pub open spec fn spec_test_outcome(
    mn: Seq<char>,
    ops: Seq<DecodedOperand>,
    k: Seq<ConstantView>,
) -> Option<bool> {
    match spec_test_result(ops, k) {
        Some(v) => {
            let sign = bit_set(v, (spec_result_width(ops, k) - 1) as nat);
            let even = count_ones(v, 8) % 2 == 0;
            if mn == "js"@ {
                Some(sign)
            } else if mn == "jns"@ {
                Some(!sign)
            } else if mn == "je"@ {
                Some(v == 0)
            } else if mn == "jne"@ {
                Some(v != 0)
            } else if mn == "jp"@ {
                Some(even)
            } else if mn == "jnp"@ {
                Some(!even)
            } else {
                None
            }
        },
        None => None,
    }
}

/// The sign-flag state a jump waits for: set for `js`, clear for `jns`.
pub open spec fn spec_sign_expectation(mn: Seq<char>) -> Option<bool> {
    if mn == "js"@ {
        Some(true)
    } else if mn == "jns"@ {
        Some(false)
    } else {
        None
    }
}

/// Whether `js` (set) or `jns` (clear) waits on the sign flag.
pub fn sign_flag_branch_expectation(branch_mnemonic: &str) -> (r: Option<bool>)
    ensures
        r == spec_sign_expectation(branch_mnemonic@),
{
    if str_eq(branch_mnemonic, "js") {
        Some(true)
    } else if str_eq(branch_mnemonic, "jns") {
        Some(false)
    } else {
        None
    }
}

/// Whether the jump `mnemonic` is taken after a `test` of known values.
pub fn test_condition_outcome(
    mnemonic: &str,
    condition: &FlagCondition,
    constants: &[RegisterConstantSource],
) -> (r: Option<bool>)
    ensures
        r == spec_test_outcome(mnemonic@, condition.operands@, constants_view(constants@)),
{
    match sign_flag_branch_expectation(mnemonic) {
        Some(expect_sign_set) => {
            return match test_sign_known_outcome(condition, constants) {
                Some(sign_set) => Some(sign_set == expect_sign_set),
                None => None,
            };
        },
        None => {},
    }
    if str_eq(mnemonic, "je") {
        test_zero_known_outcome(condition, constants)
    } else if str_eq(mnemonic, "jne") {
        match test_zero_known_outcome(condition, constants) {
            Some(zero) => Some(!zero),
            None => None,
        }
    } else if str_eq(mnemonic, "jp") {
        test_parity_known_outcome(condition, constants)
    } else if str_eq(mnemonic, "jnp") {
        match test_parity_known_outcome(condition, constants) {
            Some(even) => Some(!even),
            None => None,
        }
    } else {
        proof {
            if spec_test_result(condition.operands@, constants_view(constants@)) is Some {
                assert(spec_test_outcome(mnemonic@, condition.operands@, constants_view(constants@)) is None);
            }
        }
        None
    }
}

/// Whether the jump `mn` is taken, when the flags come from a `cmp` or `test` of known values.
pub open spec fn spec_known_outcome(mn: Seq<char>, cm: Seq<char>, cops: Seq<DecodedOperand>, k: Seq<ConstantView>) -> Option<
    bool,
> {
    if cm == "cmp"@ {
        spec_compare_outcome(mn, cops, k)
    } else if cm == "test"@ {
        spec_test_outcome(mn, cops, k)
    } else {
        None
    }
}

/// Whether the conditional instruction `mnemonic` takes its branch under `condition`, when
/// the values it compares are known.
pub fn known_condition_outcome(
    mnemonic: &str,
    condition: &FlagCondition,
    constants: &[RegisterConstantSource],
) -> (r: Option<bool>)
    ensures
        r == spec_known_outcome(mnemonic@, condition.mnemonic@, condition.operands@, constants_view(constants@)),
{
    if str_eq(condition.mnemonic, "cmp") {
        return compare_condition_outcome(mnemonic, condition, constants);
    }
    if str_eq(condition.mnemonic, "test") {
        return test_condition_outcome(mnemonic, condition, constants);
    }
    None
}

/// Whether the jump is taken after a `cmp` (or `test`) of known values.
pub fn cmp_known_outcome(
    branch_mnemonic: &str,
    condition: &FlagCondition,
    constants: &[RegisterConstantSource],
) -> (r: Option<bool>)
    ensures
        r == spec_known_outcome(branch_mnemonic@, condition.mnemonic@, condition.operands@, constants_view(constants@)),
{
    known_condition_outcome(branch_mnemonic, condition, constants)
}

/// How an operand reads in a condition summary: a register name, an immediate in hex, or
/// the operand's text.
pub open spec fn spec_operand_summary(op: DecodedOperand) -> Option<Seq<char>> {
    match op.kind {
        OperandKind::Register => match op.register {
            Some(r) => Some(r@),
            None => None,
        },
        OperandKind::Immediate => match op.value {
            Some(v) => Some(hex_text(v as nat)),
            None => None,
        },
        _ => Some(op.text@),
    }
}

/// The text an operand contributes to a condition summary.
pub fn operand_summary_text(operand: &DecodedOperand) -> (r: Option<String>)
    ensures
        match r {
            Some(x) => spec_operand_summary(*operand) == Some(x@),
            None => spec_operand_summary(*operand) is None,
        },
{
    match operand.kind {
        OperandKind::Register => match &operand.register {
            Some(x) => Some(string_of(x.as_str())),
            None => None,
        },
        OperandKind::Immediate => match operand.value {
            Some(v) => Some(hex_string(v)),
            None => None,
        },
        _ => Some(string_of(operand.text.as_str())),
    }
}

/// The word for a sign-flag state.
pub open spec fn spec_sign_label(sign_set: bool) -> Seq<char> {
    if sign_set {
        "set"@
    } else {
        "clear"@
    }
}

/// `"set"` or `"clear"`.
pub fn sign_flag_state_label(sign_set: bool) -> (r: &'static str)
    ensures
        r@ == spec_sign_label(sign_set),
{
    if sign_set {
        "set"
    } else {
        "clear"
    }
}

/// The note a summary ends with when the branch outcome is known.
pub open spec fn spec_outcome_suffix(taken: bool) -> Seq<char> {
    if taken {
        " (known taken)"@
    } else {
        " (known not taken)"@
    }
}

/// `" (known taken)"` or `" (known not taken)"`.
pub fn branch_outcome_suffix(taken: bool) -> (r: &'static str)
    ensures
        r@ == spec_outcome_suffix(taken),
{
    if taken {
        " (known taken)"
    } else {
        " (known not taken)"
    }
}

/// The outcome note, or nothing when the outcome is unknown.
pub open spec fn opt_suffix(outcome: Option<bool>) -> Seq<char> {
    match outcome {
        Some(t) => spec_outcome_suffix(t),
        None => Seq::empty(),
    }
}

fn push_outcome(s: &mut String, outcome: Option<bool>)
    ensures
        final(s)@ == old(s)@ + opt_suffix(outcome),
{
    match outcome {
        Some(t) => s.append(branch_outcome_suffix(t)),
        None => {
            assert(old(s)@ + opt_suffix(outcome) =~= old(s)@);
        },
    }
}

/// The relation an unsigned or signed conditional jump tests after `cmp`.
pub open spec fn spec_relation(mn: Seq<char>) -> Option<Seq<char>> {
    if mn == "je"@ {
        Some("=="@)
    } else if mn == "jne"@ {
        Some("!="@)
    } else if mn == "ja"@ {
        Some(">"@)
    } else if mn == "jae"@ {
        Some(">="@)
    } else if mn == "jb"@ {
        Some("<"@)
    } else if mn == "jbe"@ {
        Some("<="@)
    } else if mn == "jg"@ {
        Some("> signed"@)
    } else if mn == "jge"@ {
        Some(">= signed"@)
    } else if mn == "jl"@ {
        Some("< signed"@)
    } else if mn == "jle"@ {
        Some("<= signed"@)
    } else {
        None
    }
}

fn relation_text(mn: &str) -> (r: Option<&'static str>)
    ensures
        match r {
            Some(x) => spec_relation(mn@) == Some(x@),
            None => spec_relation(mn@) is None,
        },
{
    if str_eq(mn, "je") {
        Some("==")
    } else if str_eq(mn, "jne") {
        Some("!=")
    } else if str_eq(mn, "ja") {
        Some(">")
    } else if str_eq(mn, "jae") {
        Some(">=")
    } else if str_eq(mn, "jb") {
        Some("<")
    } else if str_eq(mn, "jbe") {
        Some("<=")
    } else if str_eq(mn, "jg") {
        Some("> signed")
    } else if str_eq(mn, "jge") {
        Some(">= signed")
    } else if str_eq(mn, "jl") {
        Some("< signed")
    } else if str_eq(mn, "jle") {
        Some("<= signed")
    } else {
        None
    }
}

/// The summary of a jump after `cmp left, right`.
pub open spec fn spec_compare_summary(bm: Seq<char>, cm: Seq<char>, ops: Seq<DecodedOperand>, k: Seq<ConstantView>) -> Option<
    Seq<char>,
> {
    if ops.len() < 2 {
        None
    } else {
        match (spec_operand_summary(ops[0]), spec_operand_summary(ops[1])) {
            (Some(l), Some(r)) => match spec_sign_expectation(bm) {
                Some(e) => {
                    let outcome = match spec_compare_sign(ops, k) {
                        Some(sign_set) => Some(sign_set == e),
                        None => None,
                    };
                    Some(
                        bm + " if sign("@ + l + " - "@ + r + ") is "@ + spec_sign_label(e) + opt_suffix(
                            outcome,
                        ),
                    )
                },
                None => match spec_relation(bm) {
                    Some(rel) => Some(
                        bm + " if "@ + l + " "@ + rel + " "@ + r + opt_suffix(
                            spec_known_outcome(bm, cm, ops, k),
                        ),
                    ),
                    None => None,
                },
            },
            _ => None,
        }
    }
}

/// Summarizes a conditional jump after `cmp`, with its known outcome where the compared values
/// are known.
pub fn cmp_branch_summary(
    branch_mnemonic: &str,
    condition: &FlagCondition,
    constants: &[RegisterConstantSource],
) -> (r: Option<String>)
    ensures
        match r {
            Some(x) => spec_compare_summary(branch_mnemonic@, condition.mnemonic@, condition.operands@, constants_view(constants@)) == Some(x@),
            None => spec_compare_summary(branch_mnemonic@, condition.mnemonic@, condition.operands@, constants_view(constants@)) is None,
        },
{
    if condition.operands.len() < 2 {
        return None;
    }
    let left = match operand_summary_text(&condition.operands[0]) {
        Some(x) => x,
        None => return None,
    };
    let right = match operand_summary_text(&condition.operands[1]) {
        Some(x) => x,
        None => return None,
    };
    match sign_flag_branch_expectation(branch_mnemonic) {
        Some(expect_sign_set) => {
            let outcome = match cmp_sign_known_outcome(condition, constants) {
                Some(sign_set) => Some(sign_set == expect_sign_set),
                None => None,
            };
            let mut s = String::new();
            s.append(branch_mnemonic);
            s.append(" if sign(");
            s.append(left.as_str());
            s.append(" - ");
            s.append(right.as_str());
            s.append(") is ");
            s.append(sign_flag_state_label(expect_sign_set));
            push_outcome(&mut s, outcome);
            assert(s@ =~= spec_compare_summary(branch_mnemonic@, condition.mnemonic@, condition.operands@, constants_view(constants@)).unwrap());
            return Some(s);
        },
        None => {},
    }
    let relation = match relation_text(branch_mnemonic) {
        Some(x) => x,
        None => return None,
    };
    let outcome = cmp_known_outcome(branch_mnemonic, condition, constants);
    let mut s = String::new();
    s.append(branch_mnemonic);
    s.append(" if ");
    s.append(left.as_str());
    s.append(" ");
    s.append(relation);
    s.append(" ");
    s.append(right.as_str());
    push_outcome(&mut s, outcome);
    assert(s@ =~= spec_compare_summary(branch_mnemonic@, condition.mnemonic@, condition.operands@, constants_view(constants@)).unwrap());
    Some(s)
}

/// The outcome of `test r, r` on a register of known value.
pub open spec fn spec_self_test_outcome(bm: Seq<char>, c: ConstantView) -> Option<bool> {
    let v = c.1 as nat;
    let sign = bit_set(v, (spec_normalized_width(c.2) - 1) as nat);
    if bm == "je"@ {
        Some(v == 0)
    } else if bm == "jne"@ {
        Some(v != 0)
    } else if bm == "jp"@ {
        Some(count_ones(v, 8) % 2 == 0)
    } else if bm == "jnp"@ {
        Some(count_ones(v, 8) % 2 != 0)
    } else if bm == "js"@ {
        Some(sign)
    } else if bm == "jns"@ {
        Some(!sign)
    } else {
        None
    }
}

/// The summary of a jump after `test r, r`.
pub open spec fn spec_self_test_text(bm: Seq<char>, r: Seq<char>, outcome: Option<bool>) -> Option<
    Seq<char>,
> {
    let suf = opt_suffix(outcome);
    if bm == "je"@ {
        Some(bm + " if "@ + r + " == 0"@ + suf)
    } else if bm == "jne"@ {
        Some(bm + " if "@ + r + " != 0"@ + suf)
    } else if bm == "jp"@ {
        Some(bm + " if parity("@ + r + ") is even"@ + suf)
    } else if bm == "jnp"@ {
        Some(bm + " if parity("@ + r + ") is odd"@ + suf)
    } else if bm == "js"@ {
        Some(bm + " if "@ + r + " < 0"@ + suf)
    } else if bm == "jns"@ {
        Some(bm + " if "@ + r + " >= 0"@ + suf)
    } else {
        None
    }
}

fn self_test_text(bm: &str, register: &str, outcome: Option<bool>) -> (r: Option<String>)
    ensures
        match r {
            Some(x) => spec_self_test_text(bm@, register@, outcome) == Some(x@),
            None => spec_self_test_text(bm@, register@, outcome) is None,
        },
{
    let (open, tail): (&str, &str) = if str_eq(bm, "je") {
        (" if ", " == 0")
    } else if str_eq(bm, "jne") {
        (" if ", " != 0")
    } else if str_eq(bm, "jp") {
        (" if parity(", ") is even")
    } else if str_eq(bm, "jnp") {
        (" if parity(", ") is odd")
    } else if str_eq(bm, "js") {
        (" if ", " < 0")
    } else if str_eq(bm, "jns") {
        (" if ", " >= 0")
    } else {
        return None;
    };
    let mut s = String::new();
    s.append(bm);
    s.append(open);
    s.append(register);
    s.append(tail);
    push_outcome(&mut s, outcome);
    assert(s@ =~= spec_self_test_text(bm@, register@, outcome).unwrap());
    Some(s)
}

/// The summary of a jump after `test`.
pub open spec fn spec_test_summary(bm: Seq<char>, ops: Seq<DecodedOperand>, k: Seq<ConstantView>) -> Option<
    Seq<char>,
> {
    if ops.len() < 2 {
        None
    } else if ops[0].kind == OperandKind::Register && ops[1].kind == OperandKind::Register
        && same_opt_string(ops[0].register, ops[1].register) {
        match ops[0].register {
            None => None,
            Some(reg) => {
                let outcome = match constant_index(k, reg@) {
                    Some(c) => spec_self_test_outcome(bm, k[c]),
                    None => None,
                };
                spec_self_test_text(bm, reg@, outcome)
            },
        }
    } else {
        match (spec_operand_summary(ops[0]), spec_operand_summary(ops[1])) {
            (Some(l), Some(r)) => {
                let result = spec_test_result(ops, k);
                let w = spec_result_width(ops, k);
                match spec_sign_expectation(bm) {
                    Some(e) => {
                        let outcome = match result {
                            Some(v) => Some(bit_set(v, (w - 1) as nat) == e),
                            None => None,
                        };
                        Some(
                            bm + " if sign("@ + l + " & "@ + r + ") is "@ + spec_sign_label(e)
                                + opt_suffix(outcome),
                        )
                    },
                    None => {
                        let zero = match result {
                            Some(v) => Some(v == 0),
                            None => None,
                        };
                        let nonzero = match result {
                            Some(v) => Some(v != 0),
                            None => None,
                        };
                        let even = match result {
                            Some(v) => Some(count_ones(v, 8) % 2 == 0),
                            None => None,
                        };
                        let odd = match result {
                            Some(v) => Some(count_ones(v, 8) % 2 != 0),
                            None => None,
                        };
                        if bm == "je"@ {
                            Some(bm + " if ("@ + l + " & "@ + r + ") == 0"@ + opt_suffix(zero))
                        } else if bm == "jne"@ {
                            Some(bm + " if ("@ + l + " & "@ + r + ") != 0"@ + opt_suffix(nonzero))
                        } else if bm == "jp"@ {
                            Some(bm + " if parity("@ + l + " & "@ + r + ") is even"@ + opt_suffix(even))
                        } else if bm == "jnp"@ {
                            Some(bm + " if parity("@ + l + " & "@ + r + ") is odd"@ + opt_suffix(odd))
                        } else {
                            None
                        }
                    },
                }
            },
            _ => None,
        }
    }
}

fn self_test_outcome(bm: &str, c: &RegisterConstantSource) -> (r: Option<bool>)
    ensures
        r == spec_self_test_outcome(bm@, c@),
{
    if str_eq(bm, "je") {
        Some(c.value == 0)
    } else if str_eq(bm, "jne") {
        Some(c.value != 0)
    } else if str_eq(bm, "jp") {
        Some(parity_even(c.value))
    } else if str_eq(bm, "jnp") {
        Some(!parity_even(c.value))
    } else if str_eq(bm, "js") {
        Some(sign_bit_set(c.value, normalized_width_bits(c.width_bits)))
    } else if str_eq(bm, "jns") {
        Some(!sign_bit_set(c.value, normalized_width_bits(c.width_bits)))
    } else {
        None
    }
}

/// Summarizes a conditional jump after `test`, with its known outcome where the tested values
/// are known.
pub fn test_branch_summary(
    branch_mnemonic: &str,
    condition: &FlagCondition,
    constants: &[RegisterConstantSource],
) -> (r: Option<String>)
    ensures
        match r {
            Some(x) => spec_test_summary(branch_mnemonic@, condition.operands@, constants_view(constants@)) == Some(x@),
            None => spec_test_summary(branch_mnemonic@, condition.operands@, constants_view(constants@)) is None,
        },
{
    if condition.operands.len() < 2 {
        return None;
    }
    let left = &condition.operands[0];
    let right = &condition.operands[1];
    let same_register = match (&left.register, &right.register) {
        (Some(a), Some(b)) => str_eq(a.as_str(), b.as_str()),
        (None, None) => true,
        _ => false,
    };
    if left.kind == OperandKind::Register && right.kind == OperandKind::Register && same_register {
        let register = match &left.register {
            Some(x) => x.as_str(),
            None => return None,
        };
        let outcome = match find_constant(constants, register) {
            Some(c) => self_test_outcome(branch_mnemonic, &constants[c]),
            None => None,
        };
        return self_test_text(branch_mnemonic, register, outcome);
    }
    let l = match operand_summary_text(left) {
        Some(x) => x,
        None => return None,
    };
    let r = match operand_summary_text(right) {
        Some(x) => x,
        None => return None,
    };
    match sign_flag_branch_expectation(branch_mnemonic) {
        Some(expect_sign_set) => {
            let outcome = match test_sign_known_outcome(condition, constants) {
                Some(sign_set) => Some(sign_set == expect_sign_set),
                None => None,
            };
            let mut s = String::new();
            s.append(branch_mnemonic);
            s.append(" if sign(");
            s.append(l.as_str());
            s.append(" & ");
            s.append(r.as_str());
            s.append(") is ");
            s.append(sign_flag_state_label(expect_sign_set));
            push_outcome(&mut s, outcome);
            assert(s@ =~= spec_test_summary(branch_mnemonic@, condition.operands@, constants_view(constants@)).unwrap());
            return Some(s);
        },
        None => {},
    }
    let (open, tail, outcome): (&str, &str, Option<bool>) = if str_eq(branch_mnemonic, "je") {
        (" if (", ") == 0", test_zero_known_outcome(condition, constants))
    } else if str_eq(branch_mnemonic, "jne") {
        (
            " if (",
            ") != 0",
            match test_zero_known_outcome(condition, constants) {
                Some(zero) => Some(!zero),
                None => None,
            },
        )
    } else if str_eq(branch_mnemonic, "jp") {
        (" if parity(", ") is even", test_parity_known_outcome(condition, constants))
    } else if str_eq(branch_mnemonic, "jnp") {
        (
            " if parity(",
            ") is odd",
            match test_parity_known_outcome(condition, constants) {
                Some(even) => Some(!even),
                None => None,
            },
        )
    } else {
        return None;
    };
    let mut s = String::new();
    s.append(branch_mnemonic);
    s.append(open);
    s.append(l.as_str());
    s.append(" & ");
    s.append(r.as_str());
    s.append(tail);
    push_outcome(&mut s, outcome);
    assert(s@ =~= spec_test_summary(branch_mnemonic@, condition.operands@, constants_view(constants@)).unwrap());
    Some(s)
}

/// The text a conditional branch carries about the flags it tests.
pub open spec fn spec_branch_summary(
    bm: Seq<char>,
    cm: Seq<char>,
    ctext: Seq<char>,
    cops: Seq<DecodedOperand>,
    k: Seq<ConstantView>,
) -> Seq<char> {
    let compare = if cm == "cmp"@ {
        spec_compare_summary(bm, cm, cops, k)
    } else {
        None
    };
    let test = if cm == "test"@ {
        spec_test_summary(bm, cops, k)
    } else {
        None
    };
    match compare {
        Some(s) => s,
        None => match test {
            Some(s) => s,
            None => bm + " if "@ + cm + " "@ + ctext,
        },
    }
}

/// Describes what a conditional branch tests, as a readable condition, with the outcome when
/// the values are known; otherwise `<branch> if <cmp|test> <operands>`.
pub fn branch_condition_summary(
    branch: &DecodedInstruction,
    condition: &FlagCondition,
    constants: &[RegisterConstantSource],
) -> (r: String)
    ensures
        r@ == spec_branch_summary(
            branch.mnemonic@,
            condition.mnemonic@,
            condition.operands_text@,
            condition.operands@,
            constants_view(constants@),
        ),
{
    if str_eq(condition.mnemonic, "cmp") {
        match cmp_branch_summary(branch.mnemonic.as_str(), condition, constants) {
            Some(s) => return s,
            None => {},
        }
    }
    if str_eq(condition.mnemonic, "test") {
        match test_branch_summary(branch.mnemonic.as_str(), condition, constants) {
            Some(s) => return s,
            None => {},
        }
    }
    let mut s = String::new();
    s.append(branch.mnemonic.as_str());
    s.append(" if ");
    s.append(condition.mnemonic);
    s.append(" ");
    s.append(condition.operands_text);
    s
}

/// The conditional jump that tests the same condition as a `cmov`/`set` suffix.
pub open spec fn spec_condition_jump(suffix: Seq<char>) -> Option<Seq<char>> {
    if suffix == "o"@ {
        Some("jo"@)
    } else if suffix == "no"@ {
        Some("jno"@)
    } else if suffix == "b"@ {
        Some("jb"@)
    } else if suffix == "ae"@ {
        Some("jae"@)
    } else if suffix == "e"@ {
        Some("je"@)
    } else if suffix == "ne"@ {
        Some("jne"@)
    } else if suffix == "be"@ {
        Some("jbe"@)
    } else if suffix == "a"@ {
        Some("ja"@)
    } else if suffix == "s"@ {
        Some("js"@)
    } else if suffix == "ns"@ {
        Some("jns"@)
    } else if suffix == "p"@ {
        Some("jp"@)
    } else if suffix == "np"@ {
        Some("jnp"@)
    } else if suffix == "l"@ {
        Some("jl"@)
    } else if suffix == "ge"@ {
        Some("jge"@)
    } else if suffix == "le"@ {
        Some("jle"@)
    } else if suffix == "g"@ {
        Some("jg"@)
    } else {
        None
    }
}

/// Whether x86 condition code `c` (the low nibble of a `Jcc`, `SETcc` or `CMOVcc` opcode)
/// holds on the flags `f` = (ZF, CF, SF, OF), as the encoding defines it: bits 3..1 pick the
/// test (B: CF, E: ZF, BE: CF or ZF, L: SF != OF, LE: ZF or SF != OF; the overflow, sign and
/// parity tests are not decided here) and bit 0 negates it.
pub open spec fn condition_code_holds(c: int, f: (bool, bool, bool, bool)) -> Option<bool> {
    let base: Option<bool> = if c / 2 == 1 {
        Some(f.1)
    } else if c / 2 == 2 {
        Some(f.0)
    } else if c / 2 == 3 {
        Some(f.1 || f.0)
    } else if c / 2 == 6 {
        Some(f.2 != f.3)
    } else if c / 2 == 7 {
        Some(f.0 || f.2 != f.3)
    } else {
        None
    };
    match base {
        Some(b) => Some(if c % 2 == 0 {
            b
        } else {
            !b
        }),
        None => None,
    }
}

/// The characters of the condition suffixes, enough to tell them apart.
proof fn lemma_suffix_letters()
    ensures
        "o"@ =~= seq!['o'],
        "no"@ =~= seq!['n', 'o'],
        "b"@ =~= seq!['b'],
        "ae"@ =~= seq!['a', 'e'],
        "e"@ =~= seq!['e'],
        "ne"@ =~= seq!['n', 'e'],
        "be"@ =~= seq!['b', 'e'],
        "a"@ =~= seq!['a'],
        "s"@ =~= seq!['s'],
        "ns"@ =~= seq!['n', 's'],
        "p"@ =~= seq!['p'],
        "np"@ =~= seq!['n', 'p'],
        "l"@ =~= seq!['l'],
        "ge"@ =~= seq!['g', 'e'],
        "le"@ =~= seq!['l', 'e'],
        "g"@ =~= seq!['g'],
        "jb"@ =~= seq!['j', 'b'],
        "jae"@ =~= seq!['j', 'a', 'e'],
        "je"@ =~= seq!['j', 'e'],
        "jne"@ =~= seq!['j', 'n', 'e'],
        "jbe"@ =~= seq!['j', 'b', 'e'],
        "ja"@ =~= seq!['j', 'a'],
        "jl"@ =~= seq!['j', 'l'],
        "jge"@ =~= seq!['j', 'g', 'e'],
        "jle"@ =~= seq!['j', 'l', 'e'],
        "jg"@ =~= seq!['j', 'g'],
        "j"@ =~= seq!['j'],
{
    reveal_strlit("o");
    reveal_strlit("no");
    reveal_strlit("b");
    reveal_strlit("ae");
    reveal_strlit("e");
    reveal_strlit("ne");
    reveal_strlit("be");
    reveal_strlit("a");
    reveal_strlit("s");
    reveal_strlit("ns");
    reveal_strlit("p");
    reveal_strlit("np");
    reveal_strlit("l");
    reveal_strlit("ge");
    reveal_strlit("le");
    reveal_strlit("g");
    reveal_strlit("jb");
    reveal_strlit("jae");
    reveal_strlit("je");
    reveal_strlit("jne");
    reveal_strlit("jbe");
    reveal_strlit("ja");
    reveal_strlit("jl");
    reveal_strlit("jge");
    reveal_strlit("jle");
    reveal_strlit("jg");
    reveal_strlit("j");
}

/// Law of condition codes: the condition that the decoder names for code `c` (in `Jcc`,
/// `SETcc` and `CMOVcc` alike) is the jump `j` + its suffix, and after `cmp` of known values
/// that jump is taken exactly when code `c` holds on the flags the `cmp` sets, as the x86
/// encoding defines the code (for the codes decided by a comparison: `b`, `ae`, `e`, `ne`,
/// `be`, `a`, `l`, `ge`, `le`, `g`).
#[verifier::spinoff_prover]
pub proof fn law_condition_codes_follow_encoding(c: int, ops: Seq<DecodedOperand>, k: Seq<ConstantView>)
    requires
        0 <= c < 16,
    ensures
        c / 2 != 0 && c / 2 != 4 && c / 2 != 5 ==> spec_condition_jump(condition_suffixes()[c]) == Some(
            "j"@ + condition_suffixes()[c],
        ),
        spec_pair(ops, k) matches Some((a, b)) ==> ({
            let w = spec_result_width(ops, k);
            let f = compare_flags((a as nat) % pow2(w), (b as nat) % pow2(w), w);
            condition_code_holds(c, f) is Some ==> spec_compare_outcome("j"@ + condition_suffixes()[c], ops, k)
                == condition_code_holds(c, f)
        }),
{
    lemma_suffix_letters();
    let x = condition_suffixes()[c];
    let j = "j"@ + x;
    if c == 2 {
        assert(j =~= "jb"@);
    } else if c == 3 {
        assert(j =~= "jae"@);
    } else if c == 4 {
        assert(j =~= "je"@);
    } else if c == 5 {
        assert(j =~= "jne"@);
    } else if c == 6 {
        assert(j =~= "jbe"@);
    } else if c == 7 {
        assert(j =~= "ja"@);
    } else if c == 12 {
        assert(j =~= "jl"@);
    } else if c == 13 {
        assert(j =~= "jge"@);
    } else if c == 14 {
        assert(j =~= "jle"@);
    } else if c == 15 {
        assert(j =~= "jg"@);
    }
    if spec_pair(ops, k) is Some {
        law_compare_outcome_follows_flags(j, ops, k);
    }
}

/// The conditional jump (`jo` … `jg`) for a `cmovcc`/`setcc` condition suffix.
pub fn cmov_condition_mnemonic(suffix: &str) -> (r: Option<&'static str>)
    ensures
        match r {
            Some(x) => spec_condition_jump(suffix@) == Some(x@),
            None => spec_condition_jump(suffix@) is None,
        },
{
    if str_eq(suffix, "o") {
        Some("jo")
    } else if str_eq(suffix, "no") {
        Some("jno")
    } else if str_eq(suffix, "b") {
        Some("jb")
    } else if str_eq(suffix, "ae") {
        Some("jae")
    } else if str_eq(suffix, "e") {
        Some("je")
    } else if str_eq(suffix, "ne") {
        Some("jne")
    } else if str_eq(suffix, "be") {
        Some("jbe")
    } else if str_eq(suffix, "a") {
        Some("ja")
    } else if str_eq(suffix, "s") {
        Some("js")
    } else if str_eq(suffix, "ns") {
        Some("jns")
    } else if str_eq(suffix, "p") {
        Some("jp")
    } else if str_eq(suffix, "np") {
        Some("jnp")
    } else if str_eq(suffix, "l") {
        Some("jl")
    } else if str_eq(suffix, "ge") {
        Some("jge")
    } else if str_eq(suffix, "le") {
        Some("jle")
    } else if str_eq(suffix, "g") {
        Some("jg")
    } else {
        None
    }
}

/// The first register source that names a register.
pub open spec fn named_register_source(ops: Seq<DecodedOperand>) -> Option<int> {
    if exists|k: int|
        0 <= k < ops.len() && ops[k].role == OperandRole::Source && ops[k].kind
            == OperandKind::Register && ops[k].register is Some {
        Some(
            choose|k: int|
                0 <= k < ops.len() && ops[k].role == OperandRole::Source && ops[k].kind
                    == OperandKind::Register && ops[k].register is Some && forall|j: int|
                    0 <= j < k ==> !(ops[j].role == OperandRole::Source && ops[j].kind
                        == OperandKind::Register && ops[j].register is Some),
        )
    } else {
        None
    }
}

fn find_named_register_source(operands: &[DecodedOperand]) -> (r: Option<usize>)
    ensures
        match r {
            Some(k) => named_register_source(operands@) == Some(k as int) && k < operands@.len()
                && operands@[k as int].register is Some,
            None => named_register_source(operands@) is None,
        },
{
    let mut i: usize = 0;
    while i < operands.len()
        invariant
            i <= operands@.len(),
            forall|j: int|
                0 <= j < i ==> !(operands@[j].role == OperandRole::Source && operands@[j].kind
                    == OperandKind::Register && operands@[j].register is Some),
        decreases operands@.len() - i,
    {
        if operands[i].role == OperandRole::Source && operands[i].kind == OperandKind::Register
            && operands[i].register.is_some() {
            proof {
                let ops = operands@;
                let c = choose|k: int|
                    0 <= k < ops.len() && ops[k].role == OperandRole::Source && ops[k].kind
                        == OperandKind::Register && ops[k].register is Some && forall|j: int|
                        0 <= j < k ==> !(ops[j].role == OperandRole::Source && ops[j].kind
                            == OperandKind::Register && ops[j].register is Some);
                assert(0 <= i < ops.len() && ops[i as int].role == OperandRole::Source
                    && ops[i as int].kind == OperandKind::Register && ops[i as int].register is Some
                    && forall|j: int|
                    0 <= j < i ==> !(ops[j].role == OperandRole::Source && ops[j].kind
                        == OperandKind::Register && ops[j].register is Some));
                assert(c == i);
            }
            return Some(i);
        }
        i += 1;
    }
    None
}

/// The condition jump and branch outcome a `cmovcc`/`setcc` mnemonic resolves to under
/// `condition`.
pub open spec fn spec_conditional_outcome(
    m: Seq<char>,
    prefix: Seq<char>,
    ops: Seq<DecodedOperand>,
    condition: Option<(Seq<char>, Seq<DecodedOperand>)>,
    k: Seq<ConstantView>,
) -> Option<(int, bool)> {
    match spec_strip_prefix(m, prefix) {
        Some(suffix) => match spec_condition_jump(suffix) {
            Some(jump) => match first_with(ops, OperandRole::Destination, OperandKind::Register) {
                Some(d) => match (ops[d].register, condition) {
                    (Some(_), Some(cond)) => match spec_known_outcome(jump, cond.0, cond.1, k) {
                        Some(taken) => Some((d, taken)),
                        None => None,
                    },
                    _ => None,
                },
                None => None,
            },
            None => None,
        },
        None => None,
    }
}

fn conditional_outcome(
    mnemonic: &str,
    prefix: &str,
    operands: &[DecodedOperand],
    condition: Option<&FlagCondition>,
    constants: &[RegisterConstantSource],
) -> (r: Option<(usize, bool)>)
    ensures
        match r {
            Some((d, taken)) => spec_conditional_outcome(
                mnemonic@,
                prefix@,
                operands@,
                match condition {
                    Some(c) => Some((c.mnemonic@, c.operands@)),
                    None => None,
                },
                constants_view(constants@),
            ) == Some((d as int, taken)) && d < operands@.len() && operands@[d as int].register is Some,
            None => spec_conditional_outcome(
                mnemonic@,
                prefix@,
                operands@,
                match condition {
                    Some(c) => Some((c.mnemonic@, c.operands@)),
                    None => None,
                },
                constants_view(constants@),
            ) is None,
        },
{
    let suffix = match str_strip_prefix(mnemonic, prefix) {
        Some(x) => x,
        None => return None,
    };
    let jump = match cmov_condition_mnemonic(suffix) {
        Some(x) => x,
        None => return None,
    };
    let d = match destination_register_operand(operands) {
        Some(d) => d,
        None => return None,
    };
    if operands[d].register.is_none() {
        return None;
    }
    let cond = match condition {
        Some(c) => c,
        None => return None,
    };
    match known_condition_outcome(jump, cond, constants) {
        Some(taken) => Some((d, taken)),
        None => None,
    }
}

/// A `cmovcc` whose condition is known selects the source (taken) or keeps the destination;
/// the selected register's known constant is written to the destination.
pub open spec fn spec_cmov_write(
    m: Seq<char>,
    ops: Seq<DecodedOperand>,
    condition: Option<(Seq<char>, Seq<DecodedOperand>)>,
    k: Seq<ConstantView>,
) -> Option<WriteModel> {
    match spec_conditional_outcome(m, "cmov"@, ops, condition, k) {
        Some((d, taken)) => {
            let dest = ops[d].register.unwrap()@;
            let selected = if taken {
                match named_register_source(ops) {
                    Some(s) => Some(ops[s].register.unwrap()@),
                    None => None,
                }
            } else {
                Some(dest)
            };
            match selected {
                Some(reg) => match constant_index(k, reg) {
                    Some(c) => Some((dest, k[c].1 as nat, opt_or(ops[d].width_bits, k[c].2))),
                    None => None,
                },
                None => None,
            }
        },
        None => None,
    }
}

/// The constant a `cmovcc` with a known condition leaves in its destination.
pub fn cmov_constant_writes_for_instruction(
    mnemonic: &str,
    operands: &[DecodedOperand],
    condition: Option<&FlagCondition>,
    constants: &[RegisterConstantSource],
) -> (r: Vec<RegisterConstantWrite>)
    ensures
        writes_view(r@) == option_seq(
            spec_cmov_write(
                mnemonic@,
                operands@,
                match condition {
                    Some(c) => Some((c.mnemonic@, c.operands@)),
                    None => None,
                },
                constants_view(constants@),
            ),
        ),
{
    let (d, taken) = match conditional_outcome(mnemonic, "cmov", operands, condition, constants) {
        Some(p) => p,
        None => return no_constant_write(),
    };
    let destination = match &operands[d].register {
        Some(x) => x.as_str(),
        None => return no_constant_write(),
    };
    let selected: &str = if taken {
        match find_named_register_source(operands) {
            Some(s) => match &operands[s].register {
                Some(x) => x.as_str(),
                None => return no_constant_write(),
            },
            None => return no_constant_write(),
        }
    } else {
        destination
    };
    let c = match find_constant(constants, selected) {
        Some(c) => c,
        None => return no_constant_write(),
    };
    single_constant_write(
        string_of(destination),
        constants[c].value,
        match operands[d].width_bits {
            Some(w) => Some(w),
            None => constants[c].width_bits,
        },
    )
}

/// A `setcc` whose condition is known writes 1 (taken) or 0 to its destination.
pub open spec fn spec_setcc_write(
    m: Seq<char>,
    ops: Seq<DecodedOperand>,
    condition: Option<(Seq<char>, Seq<DecodedOperand>)>,
    k: Seq<ConstantView>,
) -> Option<WriteModel> {
    match spec_conditional_outcome(m, "set"@, ops, condition, k) {
        Some((d, taken)) => Some(
            (
                ops[d].register.unwrap()@,
                if taken {
                    1
                } else {
                    0
                },
                opt_or(ops[d].width_bits, Some(8)),
            ),
        ),
        None => None,
    }
}

/// The constant a `setcc` with a known condition writes.
pub fn setcc_constant_writes_for_instruction(
    mnemonic: &str,
    operands: &[DecodedOperand],
    condition: Option<&FlagCondition>,
    constants: &[RegisterConstantSource],
) -> (r: Vec<RegisterConstantWrite>)
    ensures
        writes_view(r@) == option_seq(
            spec_setcc_write(
                mnemonic@,
                operands@,
                match condition {
                    Some(c) => Some((c.mnemonic@, c.operands@)),
                    None => None,
                },
                constants_view(constants@),
            ),
        ),
{
    let (d, taken) = match conditional_outcome(mnemonic, "set", operands, condition, constants) {
        Some(p) => p,
        None => return no_constant_write(),
    };
    let destination = match &operands[d].register {
        Some(x) => string_of(x.as_str()),
        None => return no_constant_write(),
    };
    let value: u64 = if taken {
        1
    } else {
        0
    };
    single_constant_write(
        destination,
        value,
        match operands[d].width_bits {
            Some(w) => Some(w),
            None => Some(8),
        },
    )
}

/// What a conditional branch carries to its control-flow edges: the condition summary and,
/// when the summary states it, the known outcome (`taken` or `not_taken`).
#[derive(Clone, Debug, PartialEq, Eq)]
pub struct BranchEdgeContext {
    pub condition_summary: String,
    pub known_outcome: Option<String>,
}

/// The edge context of a branch whose instruction carries `condition_summary`.
pub open spec fn spec_known_outcome_label(summary: Seq<char>) -> Option<Seq<char>> {
    if contains_text(summary, "(known taken)"@) {
        Some("taken"@)
    } else if contains_text(summary, "(known not taken)"@) {
        Some("not_taken"@)
    } else {
        None
    }
}

/// The context a branch's summary gives its outgoing edges.
pub fn branch_edge_context(condition_summary: &Option<String>) -> (r: Option<BranchEdgeContext>)
    ensures
        match (r, *condition_summary) {
            (Some(c), Some(s)) => c.condition_summary@ == s@ && match (
                c.known_outcome,
                spec_known_outcome_label(s@),
            ) {
                (Some(a), Some(b)) => a@ == b,
                (None, None) => true,
                _ => false,
            },
            (None, None) => true,
            _ => false,
        },
{
    let summary = match condition_summary {
        Some(s) => s,
        None => return None,
    };
    let known_outcome = if str_contains(summary.as_str(), "(known taken)") {
        Some(string_of("taken"))
    } else if str_contains(summary.as_str(), "(known not taken)") {
        Some(string_of("not_taken"))
    } else {
        None
    };
    Some(BranchEdgeContext { condition_summary: string_of(summary.as_str()), known_outcome })
}

} // verus!
