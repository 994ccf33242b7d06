//! Facts about 128-bit words that the two-limb (256-bit) multiply and the
//! binary long division rely on.
//!
//! Both fixed-point modules (`staking::fixed_point` and
//! `valuation::performance`) widen `a * b` into a pair of `u128` limbs and then
//! divide by a `u128`; the lemmas here carry the bit-level reasoning so that the
//! executable code can be stated over plain integers.

use vstd::arithmetic::div_mod::*;
use vstd::arithmetic::mul::*;
use vstd::arithmetic::power2::*;
use vstd::bits::*;
use vstd::prelude::*;

verus! {

/// 2^64 as an integer.
pub open spec fn b64() -> int {
    0x1_0000_0000_0000_0000int
}

/// 2^128 as an integer.
pub open spec fn b128() -> int {
    0x1_0000_0000_0000_0000_0000_0000_0000_0000int
}

/// `2^k` as an integer.
pub open spec fn p2(k: nat) -> int {
    pow2(k) as int
}

/// The value of a two-limb number `hi * 2^128 + lo`.
pub open spec fn limbs(hi: u128, lo: u128) -> int {
    hi as int * b128() + lo as int
}

/// Absolute value of an integer.
pub open spec fn abs(x: int) -> int {
    if x < 0 {
        -x
    } else {
        x
    }
}

/// Splitting a word into 64-bit halves with a mask and a shift.
pub proof fn lemma_split_u128(a: u128)
    ensures
        (a & 0xFFFF_FFFF_FFFF_FFFF) as int == a as int % b64(),
        (a >> 64) as int == a as int / b64(),
        a as int == (a >> 64) as int * b64() + (a & 0xFFFF_FFFF_FFFF_FFFF) as int,
        (a & 0xFFFF_FFFF_FFFF_FFFF) < 0x1_0000_0000_0000_0000,
        (a >> 64) < 0x1_0000_0000_0000_0000,
{
    assert((a & 0xFFFF_FFFF_FFFF_FFFF) == a % 0x1_0000_0000_0000_0000) by (bit_vector);
    assert((a >> 64) == a / 0x1_0000_0000_0000_0000) by (bit_vector);
    assert((a & 0xFFFF_FFFF_FFFF_FFFF) < 0x1_0000_0000_0000_0000) by (bit_vector);
    assert((a >> 64) < 0x1_0000_0000_0000_0000) by (bit_vector);
    lemma_fundamental_div_mod(a as int, b64());
}

/// Shifting a word left by 64 keeps its low half, moved up.
pub proof fn lemma_shl64(x: u128)
    ensures
        (x << 64) as int == (x as int % b64()) * b64(),
{
    assert((x << 64) == (x % 0x1_0000_0000_0000_0000) * 0x1_0000_0000_0000_0000) by (bit_vector);
    assert((x as int % b64()) * b64() < b128()) by (nonlinear_arith)
        requires
            0 <= x as int % b64() < b64(),
    ;
}

/// The product of two halves fits in a word.
pub proof fn lemma_half_product(x: u128, y: u128)
    requires
        x < 0x1_0000_0000_0000_0000,
        y < 0x1_0000_0000_0000_0000,
    ensures
        x as int * y as int <= u128::MAX,
{
    assert(x as int * y as int <= (b64() - 1) * (b64() - 1)) by (nonlinear_arith)
        requires
            0 <= x < b64(),
            0 <= y < b64(),
    ;
}

/// Schoolbook multiplication of two words split in halves.
pub proof fn lemma_schoolbook(ah: int, al: int, bh: int, bl: int)
    ensures
        (ah * b64() + al) * (bh * b64() + bl) == (ah * bh) * b128() + (al * bh + ah * bl) * b64()
            + al * bl,
{
    assert((ah * b64() + al) * (bh * b64() + bl) == (ah * bh) * (b64() * b64()) + (al * bh + ah
        * bl) * b64() + al * bl) by (nonlinear_arith);
}

/// Adding `m << 64` to the low limb and `(m >> 64) + carry` to the high limb adds
/// `m * 2^64` to a two-limb number.
pub proof fn lemma_add_shifted(hi: int, lo: int, m: int, mid: int, carry: int)
    requires
        0 <= m,
        mid + carry * b128() == lo + (m % b64()) * b64(),
    ensures
        (hi + m / b64() + carry) * b128() + mid == hi * b128() + lo + m * b64(),
{
    lemma_fundamental_div_mod(m, b64());
    assert((m / b64()) * b128() + (m % b64()) * b64() == m * b64()) by (nonlinear_arith)
        requires
            m == b64() * (m / b64()) + m % b64(),
    ;
}

/// A two-limb number below 2^256 has a high limb that is its quotient by 2^128.
pub proof fn lemma_limbs_div(hi: int, lo: int)
    requires
        0 <= lo < b128(),
    ensures
        (hi * b128() + lo) / b128() == hi,
        (hi * b128() + lo) % b128() == lo,
{
    lemma_fundamental_div_mod_converse(hi * b128() + lo, b128(), hi, lo);
}

/// `1 << k` is `2^k` for a 128-bit word.
pub proof fn lemma_u128_one_shl(k: u128)
    requires
        k < 128,
    ensures
        (1u128 << k) as int == p2(k as nat),
    decreases k,
{
    if k == 0 {
        assert((1u128 << 0u128) == 1) by (bit_vector);
        lemma2_to64();
    } else {
        lemma_u128_one_shl((k - 1) as u128);
        assert((1u128 << k) == (1u128 << ((k - 1) as u128)) * 2) by (bit_vector)
            requires
                0 < k < 128,
        ;
        lemma_pow2_unfold(k as nat);
        lemma_pow2_strictly_increases((k - 1) as nat, 127);
        lemma_pow2_adds(126, 1);
        lemma2_to64();
        lemma2_to64_rest();
        assert(p2(127) == 0x8000_0000_0000_0000_0000_0000_0000_0000) by {
            lemma_pow2_adds(64, 63);
            lemma2_to64_rest();
        }
    }
}

/// Bit `k` of a word, read with a shift and a mask, is the parity of `x / 2^k`.
pub proof fn lemma_u128_bit(x: u128, k: u128)
    requires
        k < 128,
    ensures
        ((x >> k) & 1) as int == (x as int / p2(k as nat)) % 2,
        ((x >> k) & 1) <= 1,
{
    lemma_u128_shr_is_div(x, k);
    let y = x >> k;
    assert(y & 1 == y % 2) by (bit_vector);
    assert(y & 1 <= 1) by (bit_vector);
}

/// Setting bit `k` of a word whose bits `0..=k` are clear adds `2^k`.
pub proof fn lemma_u128_set_bit(x: u128, k: u128)
    requires
        k < 128,
        (x as int / p2(k as nat)) % 2 == 0,
    ensures
        (x | (1u128 << k)) as int == x as int + p2(k as nat),
        x as int + p2(k as nat) <= u128::MAX,
{
    lemma_u128_bit(x, k);
    lemma_u128_one_shl(k);
    assert(((x >> k) & 1) == 0 ==> (x | (1u128 << k)) as int == x as int + (1u128 << k) as int)
        by (bit_vector)
        requires
            k < 128,
    ;
    assert(((x >> k) & 1) == 0 ==> x as int + (1u128 << k) as int <= u128::MAX) by (bit_vector)
        requires
            k < 128,
    ;
}

/// A multiple of `2^(k+1)` has bit `k` clear.
pub proof fn lemma_multiple_bit_clear(x: int, m: int, k: nat)
    requires
        m >= 0,
        x == m * p2(k + 1),
    ensures
        (x / p2(k)) % 2 == 0,
{
    lemma_pow2_pos(k);
    lemma_pow2_adds(k, 1);
    lemma2_to64();
    assert(x == (2 * m) * p2(k)) by {
        lemma_mul_is_associative(m, 2, pow2(k) as int);
        lemma_mul_is_commutative(2, pow2(k) as int);
    }
    lemma_div_multiples_vanish(2 * m, pow2(k) as int);
    lemma_mul_is_commutative(2 * m, pow2(k) as int);
    lemma_mod_multiples_basic(m, 2);
    lemma_mul_is_commutative(m, 2);
}

/// `x / 2^(k+1)` is `(x / 2^k) / 2`.
pub proof fn lemma_div_pow2_step(x: int, k: nat)
    requires
        x >= 0,
    ensures
        x / p2(k + 1) == (x / p2(k)) / 2,
        x / p2(k) == 2 * (x / p2(k + 1)) + (x / p2(k)) % 2,
{
    lemma_pow2_pos(k);
    lemma_pow2_adds(k, 1);
    lemma2_to64();
    lemma_div_denominator(x, pow2(k) as int, 2);
    lemma_fundamental_div_mod(x / pow2(k) as int, 2);
}

/// Division by `2^k` of a two-limb number, for `k >= 128`, only sees the high limb.
pub proof fn lemma_limbs_div_high(hi: u128, lo: u128, k: nat)
    requires
        128 <= k,
    ensures
        limbs(hi, lo) / p2(k) == hi as int / p2((k - 128) as nat),
{
    lemma_pow2_adds(128, (k - 128) as nat);
    lemma_pow2_pos(128);
    lemma_pow2_pos((k - 128) as nat);
    lemma_b128_is_pow2();
    lemma_div_denominator(limbs(hi, lo), b128(), pow2((k - 128) as nat) as int);
    lemma_limbs_div(hi as int, lo as int);
}

/// Division by `2^k` of a two-limb number, for `k < 128`: the parity only sees the low limb.
pub proof fn lemma_limbs_div_low(hi: u128, lo: u128, k: nat)
    requires
        k < 128,
    ensures
        (limbs(hi, lo) / p2(k)) % 2 == (lo as int / p2(k)) % 2,
{
    lemma_pow2_adds(k, (128 - k) as nat);
    lemma_b128_is_pow2();
    lemma_pow2_pos(k);
    let e = p2((128 - k) as nat);
    assert(limbs(hi, lo) == (hi as int * e) * p2(k) + lo as int) by {
        lemma_mul_is_associative(hi as int, e, pow2(k) as int);
        lemma_mul_is_commutative(e, pow2(k) as int);
    }
    lemma_hoist_over_denominator(lo as int, hi as int * e, pow2(k));
    assert(limbs(hi, lo) / p2(k) == lo as int / p2(k) + hi as int * e);
    // hi * e is even since 128 - k >= 1
    lemma_pow2_adds(1, (127 - k) as nat);
    lemma2_to64();
    assert(hi as int * e == 2 * (hi as int * p2((127 - k) as nat))) by {
        lemma_mul_is_associative(hi as int, 2, pow2((127 - k) as nat) as int);
        lemma_mul_is_commutative(hi as int, 2);
        lemma_mul_is_associative(2, hi as int, pow2((127 - k) as nat) as int);
    }
    lemma_pow2_pos((127 - k) as nat);
    lemma_mod_multiples_vanish(hi as int * p2((127 - k) as nat), lo as int / p2(k), 2);
}

/// `b128()` is `2^128` and `b64()` is `2^64`.
pub proof fn lemma_b128_is_pow2()
    ensures
        p2(128) == b128(),
        p2(64) == b64(),
{
    lemma2_to64();
    lemma_pow2_adds(64, 64);
}

/// A product of two words is below `2^256`.
pub proof fn lemma_product_below_b256(a: u128, b: u128)
    ensures
        0 <= (a as int) * (b as int) < b128() * b128(),
{
    assert(0 <= (a as int) * (b as int) < b128() * b128()) by (nonlinear_arith)
        requires
            0 <= a < b128(),
            0 <= b < b128(),
    ;
}

/// A two-limb number that, together with a further non-negative amount, makes
/// up a value below `2^256` has a high limb that fits in a word.
pub proof fn lemma_high_limb_bound(hi: int, lo: int, rest: int, total: int)
    requires
        hi >= 0,
        0 <= lo,
        rest >= 0,
        hi * b128() + lo + rest == total,
        total < b128() * b128(),
    ensures
        hi <= u128::MAX,
{
    assert(hi < b128()) by (nonlinear_arith)
        requires
            hi >= 0,
            hi * b128() <= total,
            total < b128() * b128(),
    ;
}

/// Starting facts for the long division: `n / 2^256 == 0`.
pub proof fn lemma_small_div_by_b256(n: int)
    requires
        0 <= n < b128() * b128(),
        pow2(256) == b128() * b128(),
    ensures
        n / p2(256) == 0,
{
    lemma_small_div_converse_fact(n, p2(256));
}

/// `x / d == 0` when `0 <= x < d`.
pub proof fn lemma_small_div_converse_fact(x: int, d: int)
    requires
        0 <= x < d,
    ensures
        x / d == 0,
{
    lemma_basic_div(x, d);
}

/// Non-negativity facts used at the start of the division.
pub proof fn lemma_div_basics(n: int)
    requires
        n >= 0,
    ensures
        n >= 0,
{
}

/// Shifting the remainder left by one and or-ing in a bit.
pub proof fn lemma_shift_in_bit(rem: u128, bit: u128)
    requires
        bit <= 1,
    ensures
        (rem >> 127) <= 1,
        (rem >> 127) == 1 <==> rem as int >= 0x8000_0000_0000_0000_0000_0000_0000_0000,
        (rem >> 127) == 0 ==> ((rem << 1) | bit) as int == 2 * rem as int + bit as int,
        (rem >> 127) == 1 ==> ((rem << 1) | bit) as int == 2 * rem as int + bit as int - b128(),
{
    assert((rem >> 127) <= 1) by (bit_vector);
    assert((rem >> 127) == 1 <==> rem >= 0x8000_0000_0000_0000_0000_0000_0000_0000u128)
        by (bit_vector);
    assert(bit <= 1 && (rem >> 127) == 0 ==> ((rem << 1) | bit) as int == 2 * rem as int
        + bit as int) by (bit_vector);
    assert(bit <= 1 && (rem >> 127) == 1 ==> ((rem << 1) | bit) as int == 2 * rem as int
        + bit as int - 0x1_0000_0000_0000_0000_0000_0000_0000_0000int) by (bit_vector);
}

/// Before bit `k` is set, the quotient limbs are a multiple of `2^(k+1)`.
pub proof fn lemma_quotient_bit_clear(hi: u128, lo: u128, q: int, k: nat)
    requires
        q >= 0,
        k < 256,
        limbs(hi, lo) == q * p2(k + 1),
    ensures
        k >= 128 ==> lo == 0 && (hi as int / p2((k - 128) as nat)) % 2 == 0,
        k < 128 ==> (lo as int / p2(k)) % 2 == 0,
{
    lemma_b128_is_pow2();
    if k >= 128 {
        lemma_pow2_adds(128, (k + 1 - 128) as nat);
        assert(limbs(hi, lo) == (q * p2((k + 1 - 128) as nat)) * b128()) by {
            lemma_mul_is_associative(q, p2((k + 1 - 128) as nat), b128());
        }
        lemma_pow2_pos((k + 1 - 128) as nat);
        lemma_mul_nonnegative(q, p2((k + 1 - 128) as nat));
        lemma_fundamental_div_mod_converse(limbs(hi, lo), b128(), hi as int, lo as int);
        lemma_fundamental_div_mod_converse(
            limbs(hi, lo),
            b128(),
            q * p2((k + 1 - 128) as nat),
            0,
        );
        lemma_multiple_bit_clear(hi as int, q, (k - 128) as nat);
    } else {
        // lo == (q * 2^(k+1)) % 2^128, a multiple of 2^(k+1)
        lemma_pow2_adds(k + 1, (127 - k) as nat);
        lemma_pow2_pos(k + 1);
        lemma_pow2_pos((127 - k) as nat);
        lemma_fundamental_div_mod_converse(limbs(hi, lo), b128(), hi as int, lo as int);
        lemma_mod_breakdown_fact(q, p2(k + 1), p2((127 - k) as nat));
        lemma_mod_nonneg_bound(q, p2((127 - k) as nat));
        lemma_multiple_bit_clear(lo as int, q % p2((127 - k) as nat), k);
    }
}

/// `(q * d) % (d * e) == (q % e) * d` for positive `d` and `e`.
pub proof fn lemma_mod_breakdown_fact(q: int, d: int, e: int)
    requires
        d > 0,
        e > 0,
        q >= 0,
    ensures
        (q * d) % (d * e) == (q % e) * d,
{
    lemma_fundamental_div_mod(q, e);
    let qq = q / e;
    let rr = q % e;
    lemma_mod_pos_bound(q, e);
    assert(q * d == qq * (d * e) + rr * d) by (nonlinear_arith)
        requires
            q == e * qq + rr,
    ;
    assert(0 <= rr * d < d * e) by (nonlinear_arith)
        requires
            0 <= rr < e,
            d > 0,
    ;
    lemma_fundamental_div_mod_converse(q * d, d * e, qq, rr * d);
}

/// `q % e` is non-negative.
pub proof fn lemma_mod_nonneg_bound(q: int, e: int)
    requires
        q >= 0,
        e > 0,
    ensures
        0 <= q % e < e,
{
    lemma_mod_pos_bound(q, e);
}

/// Setting bit `k >= 128` in the high limb adds `2^k` to the number.
pub proof fn lemma_set_bit_limbs_high(hi: u128, lo: u128, k: nat)
    requires
        128 <= k < 256,
    ensures
        limbs(hi, lo) + p2(k) == (hi as int + p2((k - 128) as nat)) * b128() + lo as int,
{
    lemma_b128_is_pow2();
    lemma_pow2_adds(128, (k - 128) as nat);
    lemma_mul_is_distributive_add(b128(), hi as int, p2((k - 128) as nat));
}

/// Setting bit `k < 128` in the low limb adds `2^k` to the number.
pub proof fn lemma_set_bit_limbs_low(hi: u128, lo: u128, k: nat)
    requires
        k < 128,
    ensures
        limbs(hi, lo) + p2(k) == hi as int * b128() + (lo as int + p2(k)),
{
}

/// One long-division step keeps `quotient * den + remainder` equal to the prefix.
pub proof fn lemma_remainder_step(prev: int, den: int, rem_old: int, bit: int, c: int, rem: int)
    requires
        rem == 2 * rem_old + bit - c * den,
    ensures
        (2 * prev + c) * den + rem == 2 * (prev * den + rem_old) + bit,
{
    assert((2 * prev + c) * den == 2 * (prev * den) + c * den) by (nonlinear_arith);
}

/// `(2q + b) * 2^k == q * 2^(k+1) + b * 2^k`.
pub proof fn lemma_mul_step(q: int, k: nat, b: int)
    ensures
        (2 * q + b) * p2(k) == q * p2(k + 1) + b * p2(k),
{
    lemma_pow2_adds(k, 1);
    lemma2_to64();
    assert((2 * q + b) * p2(k) == q * (p2(k) * 2) + b * p2(k)) by (nonlinear_arith);
}

} // verus!
