use vstd::prelude::*;
use vstd::arithmetic::power2::{pow2, lemma2_to64, lemma_pow2_pos, lemma_pow2_adds, lemma_pow2_strictly_increases};
use vstd::arithmetic::div_mod::{lemma_mod_mod, lemma_small_mod, lemma_div_is_ordered};
use vstd::bits::{low_bits_mask, lemma_u64_low_bits_mask_is_mod, lemma_u64_shl_is_mul, lemma_u64_pow2_no_overflow, lemma_u64_shr_is_div, lemma_low_bits_mask_values};

verus! {

/// A width in bits as the value arithmetic uses it: absent means 64, and it is clamped
/// into `1..=64`.
pub open spec fn spec_normalized_width(w: Option<u16>) -> nat {
    match w {
        Some(x) => if x < 1 {
            1
        } else if x > 64 {
            64
        } else {
            x as nat
        },
        None => 64,
    }
}

/// The width to compute at: `width_bits`, or 64 when absent, clamped into `1..=64`.
pub fn normalized_width_bits(width_bits: Option<u16>) -> (r: u16)
    ensures
        r == spec_normalized_width(width_bits),
        1 <= r <= 64,
{
    let w = match width_bits {
        Some(x) => x,
        None => 64,
    };
    if w < 1 {
        1
    } else if w > 64 {
        64
    } else {
        w
    }
}

/// The mask of the low `w` bits (all 64 bits from 64 on).
pub open spec fn spec_width_mask(w: u16) -> nat {
    if w >= 64 {
        low_bits_mask(64)
    } else {
        low_bits_mask(w as nat)
    }
}

/// The mask with the low `width_bits` bits set.
pub fn width_mask(width_bits: u16) -> (r: u64)
    ensures
        r == spec_width_mask(width_bits),
{
    proof {
        lemma_low_bits_mask_values();
    }
    if width_bits >= 64 {
        u64::MAX
    } else {
        let w = width_bits as u64;
        proof {
            lemma_u64_pow2_no_overflow(w as nat);
            lemma_u64_shl_is_mul(1, w);
        }
        (1u64 << w) - 1
    }
}

/// Masking with the low `n` bits keeps the value modulo `2^n`.
pub proof fn lemma_mask_is_mod(x: u64, n: nat)
    requires
        1 <= n <= 64,
    ensures
        x & (low_bits_mask(n) as u64) == x as nat % pow2(n),
        (x as nat % pow2(n)) < pow2(n),
{
    lemma_pow2_pos(n);
    if n < 64 {
        lemma_u64_low_bits_mask_is_mod(x, n);
        lemma_u64_pow2_no_overflow(n);
    } else {
        lemma_low_bits_mask_values();
        lemma2_to64();
        assert(x & 0xffff_ffff_ffff_ffffu64 == x) by (bit_vector);
        lemma_small_mod(x as nat, pow2(64));
    }
}

/// Bit `k` of `v`.
pub open spec fn bit_set(v: nat, k: nat) -> bool {
    (v / pow2(k)) % 2 == 1
}

/// Whether the sign bit (bit `width_bits - 1`, after normalizing the width) of `value` is set.
pub fn sign_bit_set(value: u64, width_bits: u16) -> (r: bool)
    ensures
        r == bit_set(value as nat, (spec_normalized_width(Some(width_bits)) - 1) as nat),
{
    let width_bits = normalized_width_bits(Some(width_bits));
    let k = (width_bits - 1) as u64;
    proof {
        lemma_u64_pow2_no_overflow(k as nat);
        lemma_u64_shl_is_mul(1, k);
        lemma_u64_shr_is_div(value, k);
        assert(((value & (1u64 << k)) != 0) == (((value >> k) & 1u64) == 1u64)) by (bit_vector)
            requires
                k < 64,
        ;
        let q = value >> k;
        assert((q & 1u64) == q % 2) by (bit_vector);
    }
    let sign_bit = 1u64 << k;
    value & sign_bit != 0
}

/// For a value below `2^n`, its top bit is set exactly when it is at least `2^(n-1)`.
proof fn lemma_top_bit(x: nat, n: nat)
    requires
        1 <= n,
        x < pow2(n),
    ensures
        bit_set(x, (n - 1) as nat) == (x >= pow2((n - 1) as nat)),
{
    let h = pow2((n - 1) as nat);
    lemma_pow2_adds((n - 1) as nat, 1);
    assert(pow2(1) == 2) by {
        lemma2_to64();
    }
    assert(pow2(n) == h * 2);
    lemma_pow2_pos((n - 1) as nat);
    if x >= h {
        vstd::arithmetic::div_mod::lemma_fundamental_div_mod_converse(
            x as int,
            h as int,
            1,
            x - h,
        );
    } else {
        lemma_small_div(x as int, h as int);
    }
}

proof fn lemma_small_div(x: int, d: int)
    requires
        0 <= x < d,
    ensures
        x / d == 0,
{
    vstd::arithmetic::div_mod::lemma_basic_div(x, d);
}

/// The value of the low `n` bits of `v`, read as a two's-complement number.
pub open spec fn signed_value(v: nat, n: nat) -> int {
    let low = v % pow2(n);
    if n >= 1 && low >= pow2((n - 1) as nat) {
        low - pow2(n)
    } else {
        low as int
    }
}

/// How a `u64` reads as an `i64`.
proof fn lemma_u64_as_i64(x: u64)
    ensures
        (x as i64) as int == if x >= 0x8000_0000_0000_0000u64 {
            x as int - 0x1_0000_0000_0000_0000int
        } else {
            x as int
        },
{
    assert(x >= 0x8000_0000_0000_0000u64 ==> (x as i64) as int == x as int
        - 0x1_0000_0000_0000_0000int) by (bit_vector);
    assert(x < 0x8000_0000_0000_0000u64 ==> (x as i64) as int == x as int) by (bit_vector);
}

/// Setting every bit above a low-bits mask `m` adds the complement of `m`.
proof fn lemma_or_high_bits(v: u64, m: u64, n: u64)
    requires
        n < 64,
        m == (1u64 << n) - 1,
        v <= m,
    ensures
        v | !m == v + !m,
        !m == 0xffff_ffff_ffff_ffffu64 - m,
{
    assert(v | !m == v + !m && !m == 0xffff_ffff_ffff_ffffu64 - m) by (bit_vector)
        requires
            n < 64,
            m == (1u64 << n) - 1,
            v <= m,
    ;
}

/// Facts about the width mask of a normalized width `n`.
proof fn lemma_mask_facts(n: u16, mask: u64)
    requires
        1 <= n <= 64,
        mask == spec_width_mask(n),
    ensures
        mask == low_bits_mask(n as nat),
        mask + 1 == pow2(n as nat),
        n < 64 ==> mask == (1u64 << (n as u64)) - 1,
        n == 64 ==> mask == 0xffff_ffff_ffff_ffffu64,
        pow2(64) == 0x1_0000_0000_0000_0000int,
        pow2(63) == 0x8000_0000_0000_0000int,
{
    lemma_low_bits_mask_values();
    lemma2_to64();
    vstd::arithmetic::power2::lemma2_to64_rest();
    lemma_pow2_pos(n as nat);
    if n < 64 {
        lemma_u64_pow2_no_overflow(n as nat);
        lemma_u64_shl_is_mul(1, n as u64);
    }
}

/// The low `width_bits` bits of `value` (after normalizing the width) read as a signed
/// number.
pub fn signed_width_value(value: u64, width_bits: u16) -> (r: i64)
    ensures
        r == signed_value(value as nat, spec_normalized_width(Some(width_bits))),
{
    let n = normalized_width_bits(Some(width_bits));
    let mask = width_mask(n);
    proof {
        lemma_mask_facts(n, mask);
        lemma_mask_is_mod(value, n as nat);
    }
    let v = value & mask;
    proof {
        lemma_top_bit(v as nat, n as nat);
        lemma_u64_as_i64(v);
    }
    if n >= 64 {
        v as i64
    } else if sign_bit_set(v, n) {
        proof {
            lemma_or_high_bits(v, mask, n as u64);
            lemma_u64_as_i64(v | !mask);
            lemma_pow2_adds((n - 1) as nat, 1);
            assert(pow2(1) == 2) by {
                lemma2_to64();
            }
        }
        (v | !mask) as i64
    } else {
        proof {
            if (n - 1) as nat != 63 {
                lemma_pow2_strictly_increases((n - 1) as nat, 63);
            }
        }
        v as i64
    }
}

/// The number of set bits among the low `bits` bits of `v`.
pub open spec fn count_ones(v: nat, bits: nat) -> nat
    decreases bits,
{
    if bits == 0 {
        0
    } else {
        v % 2 + count_ones(v / 2, (bits - 1) as nat)
    }
}

/// Whether the low byte of `value` has an even number of set bits (the x86 parity flag).
pub fn parity_even(value: u64) -> (r: bool)
    ensures
        r == (count_ones(value as nat, 8) % 2 == 0),
{
    let mut x = value;
    let mut count: u64 = 0;
    let mut i: u64 = 0;
    while i < 8
        invariant
            i <= 8,
            count <= i,
            count + count_ones(x as nat, (8 - i) as nat) == count_ones(value as nat, 8),
        decreases 8 - i,
    {
        count = count + x % 2;
        x = x / 2;
        i = i + 1;
    }
    count % 2 == 0
}

/// `(x - k * m) % m == x % m` for the powers of two used here.
proof fn lemma_mod_sub_pow2(x: int, big: nat, small: nat)
    requires
        small <= big,
    ensures
        (x - pow2(big)) % (pow2(small) as int) == x % (pow2(small) as int),
{
    lemma_pow2_adds(small, (big - small) as nat);
    lemma_pow2_pos(small);
    vstd::arithmetic::div_mod::lemma_mod_multiples_vanish(
        -(pow2((big - small) as nat) as int),
        x,
        pow2(small) as int,
    );
    assert(pow2(small) * (-(pow2((big - small) as nat) as int)) + x == x - pow2(big)) by (
    nonlinear_arith)
        requires
            pow2(big) == pow2(small) * pow2((big - small) as nat),
    ;
}

/// `value` read as a signed number of `source_width_bits` bits, written back at
/// `destination_width_bits` bits (both widths normalized).
pub open spec fn spec_sign_extend(value: u64, source_width_bits: u16, destination_width_bits: u16) -> nat {
    let s = spec_normalized_width(Some(source_width_bits));
    let d = spec_normalized_width(Some(destination_width_bits));
    (signed_value(value as nat, s) % (pow2(d) as int)) as nat
}

/// The two's-complement reading of `v`'s low `n` bits lies in `[-2^(n-1), 2^(n-1))` and is
/// congruent to `v` modulo `2^n`.
proof fn lemma_signed_range(v: nat, n: nat)
    requires
        1 <= n <= 64,
    ensures
        -(pow2((n - 1) as nat) as int) <= signed_value(v, n) < pow2((n - 1) as nat),
        signed_value(v, n) == v % pow2(n) || signed_value(v, n) == v % pow2(n) - pow2(n),
{
    vstd::arithmetic::power2::lemma_pow2_unfold(n);
    lemma_pow2_pos(n);
    vstd::arithmetic::div_mod::lemma_mod_pos_bound(v as int, pow2(n) as int);
}

/// Law of sign extension: extending the low `s` bits of `value` to `d >= s` bits keeps its
/// two's-complement number and its low `s` bits, and fits in `d` bits; so a negative source
/// fills the new high bits with ones, a non-negative one with zeros.
pub proof fn law_sign_extension_keeps_value(value: u64, source_width_bits: u16, destination_width_bits: u16)
    requires
        spec_normalized_width(Some(source_width_bits)) <= spec_normalized_width(Some(destination_width_bits)),
    ensures
        ({
            let s = spec_normalized_width(Some(source_width_bits));
            let d = spec_normalized_width(Some(destination_width_bits));
            let r = spec_sign_extend(value, source_width_bits, destination_width_bits);
            &&& r < pow2(d)
            &&& signed_value(r, d) == signed_value(value as nat, s)
            &&& r % pow2(s) == (value as nat) % pow2(s)
        }),
{
    let s = spec_normalized_width(Some(source_width_bits));
    let d = spec_normalized_width(Some(destination_width_bits));
    let r = spec_sign_extend(value, source_width_bits, destination_width_bits);
    let sv = signed_value(value as nat, s);
    let ps = pow2(s) as int;
    let pd = pow2(d) as int;
    let hs = pow2((s - 1) as nat) as int;
    let hd = pow2((d - 1) as nat) as int;
    lemma_signed_range(value as nat, s);
    lemma_pow2_pos(s);
    lemma_pow2_pos(d);
    vstd::arithmetic::power2::lemma_pow2_unfold(d);
    if s < d {
        lemma_pow2_strictly_increases((s - 1) as nat, (d - 1) as nat);
    }
    assert(hs <= hd);
    // r is sv brought into [0, 2^d)
    if sv >= 0 {
        vstd::arithmetic::div_mod::lemma_small_mod(sv as nat, pd as nat);
        assert(r == sv);
    } else {
        vstd::arithmetic::div_mod::lemma_mod_add_multiples_vanish(sv, pd);
        vstd::arithmetic::div_mod::lemma_small_mod((pd + sv) as nat, pd as nat);
        assert(r == sv + pd);
    }
    vstd::arithmetic::div_mod::lemma_small_mod(r, pd as nat);
    assert(signed_value(r, d) == sv);
    // the low s bits
    lemma_pow2_adds(s, (d - s) as nat);
    let m = pow2((d - s) as nat) as int;
    assert(pd == ps * m);
    vstd::arithmetic::div_mod::lemma_mod_pos_bound(value as int, ps);
    let low = (value as nat % pow2(s)) as int;
    if sv >= 0 {
        assert(r == low);
        vstd::arithmetic::div_mod::lemma_small_mod(low as nat, ps as nat);
    } else {
        assert(r == low - ps + pd);
        vstd::arithmetic::div_mod::lemma_mod_multiples_vanish(m - 1, low, ps);
        assert(r == (m - 1) * ps + low) by (nonlinear_arith)
            requires
                r == low - ps + pd,
                pd == ps * m,
        ;
        vstd::arithmetic::div_mod::lemma_small_mod(low as nat, ps as nat);
    }
}

/// Sign-extends the low `source_width_bits` bits of `value` to `destination_width_bits`
/// bits.
pub fn sign_extend_to_width(value: u64, source_width_bits: u16, destination_width_bits: u16) -> (r:
    u64)
    ensures
        r == spec_sign_extend(value, source_width_bits, destination_width_bits),
{
    let s = normalized_width_bits(Some(source_width_bits));
    let d = normalized_width_bits(Some(destination_width_bits));
    let source_mask = width_mask(s);
    let destination_mask = width_mask(d);
    proof {
        lemma_mask_facts(s, source_mask);
        lemma_mask_facts(d, destination_mask);
        lemma_mask_is_mod(value, s as nat);
        lemma_pow2_pos(d as nat);
    }
    let v = value & source_mask;
    proof {
        lemma_top_bit(v as nat, s as nat);
        lemma_mod_mod_pow2(value as nat, s as nat);
    }
    if sign_bit_set(v, s) {
        let widened = if s >= 64 {
            v
        } else {
            v | !source_mask
        };
        proof {
            if s < 64 {
                lemma_or_high_bits(v, source_mask, s as u64);
            }
            assert(widened == v + pow2(64) - pow2(s as nat));
            lemma_mask_is_mod(widened, d as nat);
            lemma_mod_sub_pow2(widened as int, 64, d as nat);
            assert(widened as int - pow2(64) == v - pow2(s as nat));
        }
        assert(widened & destination_mask == widened & (low_bits_mask(d as nat) as u64));
        widened & destination_mask
    } else {
        proof {
            lemma_mask_is_mod(v, d as nat);
        }
        v & destination_mask
    }
}

/// Reducing modulo `2^n` twice is reducing once.
proof fn lemma_mod_mod_pow2(x: nat, n: nat)
    ensures
        (x % pow2(n)) % pow2(n) == x % pow2(n),
{
    lemma_pow2_pos(n);
    vstd::arithmetic::div_mod::lemma_mod_twice(x as int, pow2(n) as int);
}

/// The shift count an arithmetic right shift at width `n` uses: the count modulo 32, at
/// most `n - 1`.
pub open spec fn sar_count(shift: u64, n: nat) -> nat {
    let k = (shift % 32) as nat;
    if k < n - 1 {
        k
    } else {
        (n - 1) as nat
    }
}

/// `value` read as a signed number at the normalized width, shifted right arithmetically,
/// written back at that width.
pub open spec fn spec_arithmetic_shift_right(value: u64, shift: u64, width_bits: Option<u16>) -> nat {
    let n = spec_normalized_width(width_bits);
    let k = sar_count(shift, n);
    ((signed_value(value as nat, n) / (pow2(k) as int)) % (pow2(n) as int)) as nat
}

/// Law of arithmetic right shifts: shifting the `n`-bit two's-complement reading of `value`
/// right fills with its sign, so the result fits in `n` bits and is negative exactly when
/// `value` is; for a non-negative `value` it is the plain (logical) shift of its low `n` bits,
/// and for a negative one it never rises above -1 nor falls below `value`.
#[verifier::spinoff_prover]
pub proof fn law_arithmetic_shift_keeps_sign(value: u64, shift: u64, width_bits: Option<u16>)
    ensures
        ({
            let n = spec_normalized_width(width_bits);
            let k = sar_count(shift, n);
            let r = spec_arithmetic_shift_right(value, shift, width_bits);
            let sv = signed_value(value as nat, n);
            let sr = signed_value(r, n);
            &&& r < pow2(n)
            &&& (sr < 0) == (sv < 0)
            &&& sv >= 0 ==> r == (value as nat % pow2(n)) / pow2(k)
            &&& sv < 0 ==> sv <= sr <= -1
        }),
{
    let n = spec_normalized_width(width_bits);
    let k = sar_count(shift, n);
    let sv = signed_value(value as nat, n);
    let d = pow2(k) as int;
    let pn = pow2(n) as int;
    let hn = pow2((n - 1) as nat) as int;
    lemma_signed_range(value as nat, n);
    lemma_pow2_pos(k);
    lemma_pow2_pos(n);
    vstd::arithmetic::power2::lemma_pow2_unfold(n);
    let q = sv / d;
    vstd::arithmetic::div_mod::lemma_fundamental_div_mod(sv, d);
    vstd::arithmetic::div_mod::lemma_mod_bound(sv, d);
    let rem = sv % d;
    if sv >= 0 {
        assert(0 <= q <= sv) by (nonlinear_arith)
            requires
                sv == d * q + rem,
                0 <= rem < d,
                d >= 1,
                sv >= 0,
        ;
        vstd::arithmetic::div_mod::lemma_small_mod(q as nat, pn as nat);
        vstd::arithmetic::div_mod::lemma_small_mod(q as nat, pn as nat);
        assert(sv == value as nat % pow2(n));
    } else {
        assert(sv <= q < 0) by (nonlinear_arith)
            requires
                sv == d * q + rem,
                0 <= rem < d,
                d >= 1,
                sv < 0,
        ;
        vstd::arithmetic::div_mod::lemma_mod_add_multiples_vanish(q, pn);
        vstd::arithmetic::div_mod::lemma_small_mod((pn + q) as nat, pn as nat);
        vstd::arithmetic::div_mod::lemma_small_mod((pn + q) as nat, pn as nat);
    }
}

/// The bit pattern of a sign-filled right shift inside an `n`-bit window.
proof fn lemma_sar_bits(v: u64, m: u64, n: u64, k: u64)
    requires
        1 <= n <= 64,
        k < n,
        n < 64 ==> m == (1u64 << n) - 1,
        n == 64 ==> m == 0xffff_ffff_ffff_ffffu64,
        v <= m,
    ensures
        ((v >> k) | (m ^ (m >> k))) & m == (v >> k) + (m - (m >> k)),
{
    assert(((v >> k) | (m ^ (m >> k))) & m == (v >> k) + (m - (m >> k))) by (bit_vector)
        requires
            1 <= n <= 64,
            k < n,
            n < 64 ==> m == (1u64 << n) - 1,
            n == 64 ==> m == 0xffff_ffff_ffff_ffffu64,
            v <= m,
    ;
}

/// Shifts the low `width_bits` bits of `value` right by `shift` (taken modulo 32 and capped at
/// the width less one), filling with the sign bit.
pub fn arithmetic_shift_right(value: u64, shift: u64, width_bits: Option<u16>) -> (r: u64)
    ensures
        r == spec_arithmetic_shift_right(value, shift, width_bits),
{
    let n = normalized_width_bits(width_bits);
    let mask = width_mask(n);
    let masked_shift = shift & 0x1f;
    proof {
        assert(shift & 0x1f == shift % 32) by (bit_vector);
    }
    let top = (n - 1) as u64;
    let k = if masked_shift < top {
        masked_shift
    } else {
        top
    };
    proof {
        lemma_mask_facts(n, mask);
        lemma_mask_is_mod(value, n as nat);
        lemma_pow2_pos(k as nat);
        lemma_pow2_pos(n as nat);
        lemma_pow2_adds(k as nat, (n - k) as nat);
    }
    let v = value & mask;
    proof {
        lemma_top_bit(v as nat, n as nat);
        lemma_u64_shr_is_div(v, k);
    }
    if !sign_bit_set(v, n) {
        proof {
            vstd::arithmetic::div_mod::lemma_div_is_ordered(v as int, pow2(n as nat) as int, pow2(k as nat) as int);
            lemma_div_le_self(v as int, pow2(k as nat) as int);
            lemma_small_mod((v as nat / pow2(k as nat)) as nat, pow2(n as nat));
        }
        return v >> k;
    }
    let shifted = v >> k;
    let fill = mask ^ (mask >> k);
    proof {
        lemma_sar_bits(v, mask, n as u64, k);
        lemma_u64_shr_is_div(mask, k);
        let pk = pow2(k as nat) as int;
        let pnk = pow2((n - k) as nat) as int;
        let pn = pow2(n as nat) as int;
        assert(pn == pk * pnk);
        lemma_pow2_pos((n - k) as nat);
        // mask / 2^k == 2^(n-k) - 1
        assert((pnk - 1) * pk + (pk - 1) == pn - 1) by (nonlinear_arith)
            requires
                pn == pk * pnk,
        ;
        vstd::arithmetic::div_mod::lemma_fundamental_div_mod_converse(
            mask as int,
            pk,
            pnk - 1,
            pk - 1,
        );
        // (v - 2^n) / 2^k == v / 2^k - 2^(n-k)
        vstd::arithmetic::div_mod::lemma_hoist_over_denominator(v as int, -pnk, pk as nat);
        assert(v as int + (-pnk) * pk == v as int - pn) by (nonlinear_arith)
            requires
                pn == pk * pnk,
        ;
        let q = v as int / pk;
        // 2^(n-1) <= v, so v / 2^k >= 2^(n-1-k) = 2^(n-k) / 2
        lemma_pow2_adds((n - 1 - k) as nat, 1);
        lemma_pow2_adds(k as nat, (n - 1 - k) as nat);
        assert(pow2(1) == 2) by {
            lemma2_to64();
        }
        let half = pow2((n - 1 - k) as nat) as int;
        assert(pnk == half * 2);
        assert(pow2((n - 1) as nat) == pk * half);
        vstd::arithmetic::div_mod::lemma_div_is_ordered(pk * half, v as int, pk);
        vstd::arithmetic::div_mod::lemma_div_multiples_vanish(half, pk);
        assert(q >= half);
        assert(q < pnk) by {
            vstd::arithmetic::div_mod::lemma_div_is_ordered(v as int, pn - 1, pk);
        }
        vstd::arithmetic::div_mod::lemma_fundamental_div_mod_converse(q - pnk, pn, -1, q - pnk + pn);
        assert(half <= pn) by {
            lemma_pow2_pos((n - 1 - k) as nat);
            assert(pk >= 1);
            assert(pk * half >= half) by (nonlinear_arith)
                requires
                    pk >= 1,
                    half >= 0,
            ;
        }
    }
    (shifted | fill) & mask
}

/// Dividing a nonnegative number by a positive one never makes it larger.
proof fn lemma_div_le_self(x: int, d: int)
    requires
        x >= 0,
        d >= 1,
    ensures
        x / d <= x,
{
    vstd::arithmetic::div_mod::lemma_div_is_ordered_by_denominator(x, 1, d);
}

/// A 64-bit result that equals `x` modulo `2^64`, masked to `w` bits, is `x` modulo `2^w`.
pub proof fn lemma_masked_mod(r: u64, x: int, w: nat)
    requires
        1 <= w <= 64,
        r as int == x % (pow2(64) as int),
    ensures
        r & (low_bits_mask(w) as u64) == x % (pow2(w) as int),
{
    lemma_mask_is_mod(r, w);
    lemma_pow2_pos(w);
    lemma_pow2_pos((64 - w) as nat);
    lemma_pow2_adds(w, (64 - w) as nat);
    lemma_mod_mod(x, pow2(w) as int, pow2((64 - w) as nat) as int);
}

/// `wrapping_add` is addition modulo `2^64`.
pub proof fn lemma_wrapping_add(a: u64, b: u64)
    ensures
        a.wrapping_add(b) as int == (a + b) % (pow2(64) as int),
{
    lemma2_to64();
    let m = pow2(64) as int;
    if a + b > u64::MAX {
        vstd::arithmetic::div_mod::lemma_fundamental_div_mod_converse(a + b, m, 1, a + b - m);
    } else {
        vstd::arithmetic::div_mod::lemma_fundamental_div_mod_converse(a + b, m, 0, a + b);
    }
}

/// `wrapping_sub` is subtraction modulo `2^64`.
pub proof fn lemma_wrapping_sub(a: u64, b: u64)
    ensures
        a.wrapping_sub(b) as int == (a - b) % (pow2(64) as int),
{
    lemma2_to64();
    let m = pow2(64) as int;
    if a - b < 0 {
        vstd::arithmetic::div_mod::lemma_fundamental_div_mod_converse(a - b, m, -1, a - b + m);
    } else {
        vstd::arithmetic::div_mod::lemma_fundamental_div_mod_converse(a - b, m, 0, a - b);
    }
}

/// `wrapping_mul` is multiplication modulo `2^64`.
pub proof fn lemma_wrapping_mul(a: u64, b: u64)
    ensures
        a.wrapping_mul(b) as int == (a * b) % (pow2(64) as int),
{
    lemma2_to64();
}

/// A left shift by `k < 64` multiplies by `2^k` modulo `2^64`.
pub proof fn lemma_shl_mod(a: u64, k: u64)
    requires
        k < 64,
    ensures
        (a << k) as int == (a * pow2(k as nat)) % (pow2(64) as int),
{
    lemma2_to64();
    lemma_pow2_pos(k as nat);
    if k == 0 {
        assert(a << 0u64 == a) by (bit_vector);
        assert(pow2(0) == 1);
        lemma_small_mod(a as nat, pow2(64));
    } else {
        let j = (64 - k) as nat;
        lemma_u64_pow2_no_overflow(j);
        lemma_pow2_pos(j);
        let m = low_bits_mask(j) as u64;
        let jj: u64 = (64 - k) as u64;
        lemma_u64_shl_is_mul(1, jj);
        assert(m == (1u64 << jj) - 1);
        assert(a << k == (a & m) << k) by (bit_vector)
            requires
                0 < k < 64,
                jj == 64 - k,
                m == (1u64 << jj) - 1,
        ;
        lemma_u64_low_bits_mask_is_mod(a, j);
        lemma_pow2_adds(k as nat, j);
        let low = (a & m) as int;
        assert(low < pow2(j));
        assert(low * pow2(k as nat) < pow2(64)) by (nonlinear_arith)
            requires
                low < pow2(j),
                pow2(64) == pow2(k as nat) * pow2(j),
                pow2(k as nat) > 0,
        ;
        lemma_u64_shl_is_mul(a & m, k);
        vstd::arithmetic::div_mod::lemma_truncate_middle(a as int, pow2(k as nat) as int, pow2(j) as int);
        assert(pow2(k as nat) * a == a * pow2(k as nat)) by (nonlinear_arith);
        assert(pow2(k as nat) * (a as int % pow2(j) as int) == (a & m) * pow2(k as nat)) by (nonlinear_arith)
            requires
                (a & m) == a as int % pow2(j) as int,
        ;
    }
}

} // verus!
