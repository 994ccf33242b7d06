//! Fixed-point arithmetic primitives for deterministic yield math.
//!
//! All rates and factors are integers scaled by [`SCALE`] (1e18): a real number
//! `x` is stored as `round(x * SCALE)`. The helpers implement multiply, divide,
//! integer power and `e^x` in pure `i128` integer math; intermediate products
//! are widened to 256 bits (two `u128` limbs) so that `a * b` never overflows
//! before the final division.

use crate::wide::{
    lemma_high_limb_bound, lemma_mul_step,
    lemma_product_below_b256, lemma_quotient_bit_clear, lemma_remainder_step,
    lemma_set_bit_limbs_high, lemma_set_bit_limbs_low, lemma_shift_in_bit, lemma_small_div_by_b256,
    lemma_div_basics,
    abs, b128, b64, lemma_add_shifted, lemma_b128_is_pow2, lemma_div_pow2_step, lemma_half_product,
    lemma_limbs_div, lemma_limbs_div_high, lemma_limbs_div_low,
    lemma_schoolbook, lemma_shl64, lemma_split_u128, lemma_u128_bit, lemma_u128_one_shl,
    lemma_u128_set_bit, limbs, p2,
};
use vstd::arithmetic::div_mod::*;
use vstd::arithmetic::mul::*;
use vstd::arithmetic::power2::*;
use vstd::prelude::*;

verus! {

/// The scaling factor used for all fixed-point values: 1e18.
pub const SCALE: i128 = 1_000_000_000_000_000_000;

/// One whole unit (1.0) in fixed-point representation.
pub const ONE: i128 = SCALE;

/// Number of seconds in a standard (365-day) year.
pub const SECONDS_PER_YEAR: u64 = 365 * 24 * 60 * 60;

/// Number of seconds in a day.
pub const SECONDS_PER_DAY: u64 = 24 * 60 * 60;

/// Number of compounding periods per year for the daily model.
pub const DAYS_PER_YEAR: u64 = 365;

/// Errors that can arise from fixed-point operations.
#[derive(Debug, Clone, Copy, PartialEq, Eq, Structural)]
pub enum MathError {
    /// A multiplication or addition overflowed the `i128` range.
    Overflow,
    /// A division by zero was attempted.
    DivideByZero,
    /// A negative input was supplied where only non-negative values are valid.
    NegativeInput,
}

/// The absolute value of `x` as a `u128`, which never wraps (so
/// `i128::MIN` gives `2^127`).
pub fn abs_u128(x: i128) -> (r: u128)
    ensures
        r as int == abs(x as int),
{
    if x >= 0 {
        x as u128
    } else {
        (-(x + 1)) as u128 + 1
    }
}

/// Add two words: the sum modulo `2^128` and whether the true sum reached
/// `2^128`.
pub fn add_with_carry(x: u128, y: u128) -> (r: (u128, bool))
    ensures
        r.0 as int == (x as int + y as int) % b128(),
        r.1 == (x as int + y as int >= b128()),
{
    let s = x.wrapping_add(y);
    proof {
        let t = x as int + y as int;
        if t >= b128() {
            lemma_fundamental_div_mod_converse(t, b128(), 1, t - b128());
        } else {
            lemma_fundamental_div_mod_converse(t, b128(), 0, t);
        }
    }
    (s, s < x)
}

/// `a * b / denom` rounded toward zero, or the error `mul_div` reports.
pub open spec fn mul_div_spec(a: int, b: int, denom: int) -> Result<i128, MathError> {
    if denom == 0 {
        Err(MathError::DivideByZero)
    } else {
        let q = abs(a) * abs(b) / abs(denom);
        if q > i128::MAX {
            Err(MathError::Overflow)
        } else if (a < 0) != ((b < 0) != (denom < 0)) {
            Ok((-q) as i128)
        } else {
            Ok(q as i128)
        }
    }
}

/// Fixed-point product `a * b / SCALE`.
pub open spec fn mul_spec(a: int, b: int) -> Result<i128, MathError> {
    mul_div_spec(a, b, SCALE as int)
}

/// Fixed-point quotient `a * SCALE / b`.
pub open spec fn div_spec(a: int, b: int) -> Result<i128, MathError> {
    if b == 0 {
        Err(MathError::DivideByZero)
    } else {
        mul_div_spec(a, SCALE as int, b)
    }
}

/// Multiply two fixed-point numbers, returning a fixed-point result.
///
/// Computes `(a * b) / SCALE` with a widened intermediate.
pub fn mul(a: i128, b: i128) -> (r: Result<i128, MathError>)
    ensures
        r == mul_spec(a as int, b as int),
{
    mul_div(a, b, SCALE)
}

/// Divide two fixed-point numbers, returning a fixed-point result.
///
/// Computes `(a * SCALE) / b`.
pub fn div(a: i128, b: i128) -> (r: Result<i128, MathError>)
    ensures
        r == div_spec(a as int, b as int),
{
    if b == 0 {
        return Err(MathError::DivideByZero);
    }
    mul_div(a, SCALE, b)
}

/// Compute `a * b / denom` using a 256-bit intermediate to avoid overflow.
///
/// The quotient is rounded toward zero and carries the sign of `a * b / denom`;
/// a quotient that does not fit in `i128` is [`MathError::Overflow`].
pub fn mul_div(a: i128, b: i128, denom: i128) -> (r: Result<i128, MathError>)
    ensures
        r == mul_div_spec(a as int, b as int, denom as int),
{
    if denom == 0 {
        return Err(MathError::DivideByZero);
    }
    // Track the sign separately and operate on magnitudes.
    let neg = (a < 0) ^ (b < 0) ^ (denom < 0);
    let a = abs_u128(a);
    let b = abs_u128(b);
    let d = abs_u128(denom);

    let prod = mul_u128_to_u256(a, b);
    let (q, _r) = match div_u256_by_u128(prod, d) {
        Ok(qr) => qr,
        Err(e) => {
            return Err(e);
        },
    };
    // The quotient must fit back into i128.
    if q > i128::MAX as u128 {
        return Err(MathError::Overflow);
    }
    let q = q as i128;
    Ok(
        if neg {
            -q
        } else {
            q
        },
    )
}

/// The result of exponentiation by squaring, from the loop state
/// `(result, acc, e)`: each step multiplies `acc` into `result` when the low
/// bit of `e` is set, halves `e`, and squares `acc` while bits remain.
pub open spec fn pow_loop(result: i128, acc: i128, e: nat) -> Result<i128, MathError>
    decreases e,
{
    if e == 0 {
        Ok(result)
    } else {
        let r = if e % 2 == 1 {
            mul_spec(result as int, acc as int)
        } else {
            Ok(result)
        };
        match r {
            Err(err) => Err(err),
            Ok(r1) => if e / 2 > 0 {
                match mul_spec(acc as int, acc as int) {
                    Err(err) => Err(err),
                    Ok(a1) => pow_loop(r1, a1, e / 2),
                }
            } else {
                Ok(r1)
            },
        }
    }
}

/// `base^exp` in fixed point, as computed by exponentiation by squaring.
pub open spec fn pow_uint_spec(base: i128, exp: nat) -> Result<i128, MathError> {
    pow_loop(ONE, base, exp)
}

/// Raise a fixed-point base to an integer power using exponentiation by
/// squaring.
///
/// `base` is in fixed-point; `exp` is an ordinary non-negative integer. Returns
/// `base^exp` in fixed-point. `base^0` is [`ONE`].
pub fn pow_uint(base: i128, exp: u64) -> (r: Result<i128, MathError>)
    ensures
        r == pow_uint_spec(base, exp as nat),
        exp == 0 ==> r == Ok::<i128, MathError>(ONE),
{
    let mut result = ONE;
    let mut acc = base;
    let mut e = exp;

    while e > 0
        invariant
            pow_loop(result, acc, e as nat) == pow_uint_spec(base, exp as nat),
        decreases e,
    {
        assert(e & 1 == 1 <==> e % 2 == 1) by (bit_vector);
        assert(e >> 1 == e / 2) by (bit_vector);
        if e & 1 == 1 {
            result = self::mul(result, acc)?;
        }
        e >>= 1;
        if e > 0 {
            acc = self::mul(acc, acc)?;
        }
    }
    Ok(result)
}

/// Half of one, the bound below which the exponent is reduced.
pub open spec fn half_one() -> int {
    SCALE as int / 2
}

/// Range reduction for `exp`: halve `x` until it is at most one half, counting
/// the halvings.
pub open spec fn halvings(x: int) -> (int, nat)
    decreases x,
{
    if x > half_one() {
        let (r, k) = halvings(x / 2);
        (r, k + 1)
    } else {
        (x, 0)
    }
}

/// The Taylor series `sum + term*r/n + ...` continued from step `n` (at most
/// twenty steps, stopping early once a term rounds to zero).
pub open spec fn exp_series(term: i128, sum: i128, reduced: i128, n: nat) -> Result<i128, MathError>
    decreases 21 - n,
{
    if n > 20 {
        Ok(sum)
    } else {
        match mul_spec(term as int, reduced as int) {
            Err(err) => Err(err),
            Ok(t1) => {
                let t = t1 as int / n as int;
                let s = sum + t;
                if s > i128::MAX || s < i128::MIN {
                    Err(MathError::Overflow)
                } else if t == 0 {
                    Ok(s as i128)
                } else {
                    exp_series(t as i128, s as i128, reduced, n + 1)
                }
            },
        }
    }
}

/// Square `r` in fixed point `k` times.
pub open spec fn square_times(r: i128, k: nat) -> Result<i128, MathError>
    decreases k,
{
    if k == 0 {
        Ok(r)
    } else {
        match mul_spec(r as int, r as int) {
            Err(err) => Err(err),
            Ok(r2) => square_times(r2, (k - 1) as nat),
        }
    }
}

/// `e^x` in fixed point, as computed by [`exp`]: range reduction by halving,
/// a Taylor series on the reduced exponent, then squaring back up.
pub open spec fn exp_spec(x: i128) -> Result<i128, MathError> {
    if x < 0 {
        Err(MathError::NegativeInput)
    } else if x == 0 {
        Ok(ONE)
    } else {
        let (reduced, k) = halvings(x as int);
        exp_finish(exp_series(ONE, ONE, reduced as i128, 1), k)
    }
}

/// Compute `e^x` for a fixed-point exponent `x` via a Taylor series.
///
/// The exponent is range-reduced, `e^x = (e^(x/2^k))^(2^k)`, with `k` chosen so
/// the reduced exponent is at most 0.5; twenty Taylor terms are then summed and
/// the result squared `k` times. Only non-negative `x` is supported.
pub fn exp(x: i128) -> (r: Result<i128, MathError>)
    ensures
        r == exp_spec(x),
        x < 0 ==> r == Err::<i128, MathError>(MathError::NegativeInput),
        x == 0 ==> r == Ok::<i128, MathError>(ONE),
{
    if x < 0 {
        return Err(MathError::NegativeInput);
    }
    if x == 0 {
        return Ok(ONE);
    }

    // Range-reduce: halve the exponent until it is at most 0.5, remembering how
    // many halvings we performed.
    let half = SCALE / 2;
    let mut k: u32 = 0;
    let mut reduced = x;
    proof {
        lemma_i128_max_below_pow2_127();
        lemma_halvings_bound(x as int, 127);
    }
    while reduced > half
        invariant
            half == half_one(),
            0 < reduced <= x,
            halvings(x as int).0 == halvings(reduced as int).0,
            halvings(x as int).1 == halvings(reduced as int).1 + k,
            k + halvings(reduced as int).1 <= 127,
        decreases reduced,
    {
        reduced = reduced / 2;
        k += 1;
    }
    assert(halvings(reduced as int) == (reduced as int, 0nat));

    // Taylor series on the reduced exponent.
    // term_0 = 1, term_n = term_{n-1} * x / n.
    let mut term = ONE;
    let mut sum = ONE;
    let mut n: u64 = 1;
    while n <= 20
        invariant_except_break
            1 <= n <= 21,
            0 <= term,
            exp_series(term, sum, reduced, n as nat) == exp_series(ONE, ONE, reduced, 1),
            exp_spec(x) == exp_finish(exp_series(term, sum, reduced, n as nat), k as nat),
        invariant
            0 <= reduced,
        ensures
            exp_series(ONE, ONE, reduced, 1) == Ok::<i128, MathError>(sum),
            exp_spec(x) == square_times(sum, k as nat),
        decreases 21 - n,
    {
        term = self::mul(term, reduced)?;
        term = term / (n as i128);
        sum = sum.checked_add(term).ok_or(MathError::Overflow)?;
        if term == 0 {
            break;
        }
        n += 1;
    }

    // Square the result k times to undo the range reduction.
    let mut result = sum;
    let mut j: u32 = 0;
    while j < k
        invariant
            j <= k,
            exp_spec(x) == square_times(result, (k - j) as nat),
        decreases k - j,
    {
        result = self::mul(result, result)?;
        j += 1;
    }
    Ok(result)
}

/// Squaring a series result back up, passing an error through.
pub open spec fn exp_finish(series: Result<i128, MathError>, k: nat) -> Result<i128, MathError> {
    match series {
        Err(err) => Err(err),
        Ok(s) => square_times(s, k),
    }
}

/// An exponent below `2^b` is halved at most `b` times, and the reduced
/// exponent is positive and at most one half.
proof fn lemma_halvings_bound(x: int, b: nat)
    requires
        0 < x < p2(b),
    ensures
        halvings(x).1 <= b,
        0 < halvings(x).0 <= half_one(),
    decreases x,
{
    if x > half_one() {
        if b == 0 {
            lemma2_to64();
        } else {
            lemma_pow2_adds((b - 1) as nat, 1);
            lemma2_to64();
            lemma_halvings_bound(x / 2, (b - 1) as nat);
        }
    }
}

/// `i128::MAX` is below `2^127`.
proof fn lemma_i128_max_below_pow2_127()
    ensures
        i128::MAX < p2(127),
{
    lemma_pow2_adds(64, 63);
    lemma2_to64();
    lemma2_to64_rest();
}

/// Rust's `/` on integers: the quotient rounded toward zero (for `b > 0`).
pub open spec fn tdiv(a: int, b: int) -> int {
    if a >= 0 {
        a / b
    } else {
        -((-a) / b)
    }
}

/// The Taylor series from a non-negative term, with the reduced exponent at
/// most one half, succeeds and adds at most `term` to `sum`.
pub proof fn lemma_exp_series_bounds(term: i128, sum: i128, reduced: i128, n: nat)
    requires
        0 <= term,
        0 <= reduced <= half_one(),
        1 <= n,
        sum as int + term as int <= i128::MAX,
        0 <= sum,
    ensures
        exp_series(term, sum, reduced, n) matches Ok(s) && sum <= s <= sum + term,
    decreases 21 - n,
{
    if n <= 20 {
        let t1 = term as int * reduced as int / SCALE as int;
        assert(0 <= t1 <= term / 2) by (nonlinear_arith)
            requires
                t1 == term as int * reduced as int / SCALE as int,
                0 <= term,
                0 <= reduced <= SCALE as int / 2,
                SCALE as int == 1_000_000_000_000_000_000,
        ;
        assert(mul_spec(term as int, reduced as int) == Ok::<i128, MathError>(t1 as i128));
        let t = t1 / n as int;
        assert(0 <= t <= t1) by (nonlinear_arith)
            requires
                t == t1 / n as int,
                0 <= t1,
                1 <= n,
        ;
        if t != 0 {
            lemma_exp_series_bounds(t as i128, (sum + t) as i128, reduced, n + 1);
        }
    }
}

/// A fixed-point square of a value above one is larger than the value.
pub proof fn lemma_square_grows(r: i128)
    requires
        r > ONE,
    ensures
        mul_spec(r as int, r as int) matches Ok(r2) ==> r2 > r,
{
    assert((r as int) * (r as int) / SCALE as int > r) by (nonlinear_arith)
        requires
            r > SCALE,
            SCALE as int > 0,
    ;
}

/// Squaring a value above one any number of times keeps it above one.
pub proof fn lemma_square_times_grows(r: i128, k: nat)
    requires
        r > ONE,
    ensures
        square_times(r, k) matches Ok(v) ==> v >= r,
    decreases k,
{
    if k > 0 {
        lemma_square_grows(r);
        if let Ok(r2) = mul_spec(r as int, r as int) {
            lemma_square_times_grows(r2, (k - 1) as nat);
        }
    }
}

/// `e^x` exceeds one for a positive exponent, and is exactly one at zero.
pub proof fn lemma_exp_above_one(x: i128)
    requires
        x >= 0,
    ensures
        exp_spec(x) matches Ok(v) ==> v >= ONE && (x > 0 ==> v > ONE),
{
    if x > 0 {
        lemma_i128_max_below_pow2_127();
        lemma_halvings_bound(x as int, 127);
        let (reduced, k) = halvings(x as int);
        let red = reduced as i128;
        assert(mul_spec(ONE as int, red as int) == Ok::<i128, MathError>(red)) by {
            assert((ONE as int) * (red as int) / (SCALE as int) == red as int) by (nonlinear_arith)
                requires
                    ONE == SCALE,
                    SCALE as int > 0,
            ;
        }
        let s1 = ONE + red;
        lemma_exp_series_bounds(red, s1 as i128, red, 2);
        let s = exp_series(ONE, ONE, red, 1)->Ok_0;
        lemma_square_times_grows(s, k);
    }
}

/// The constant `e = exp(1)` as computed lies between 2 and 4.
pub proof fn lemma_exp_one_bounds()
    ensures
        exp_spec(ONE) matches Ok(e) && 2 * ONE <= e <= 4 * ONE,
{
    assert(halvings(ONE as int / 2) == (ONE as int / 2, 0nat));
    assert(halvings(ONE as int) == (ONE as int / 2, 1nat));
    let h = (ONE / 2) as i128;
    assert(mul_spec(ONE as int, h as int) == Ok::<i128, MathError>(h)) by {
        assert((ONE as int) * (h as int) / (SCALE as int) == h as int) by (nonlinear_arith)
            requires
                ONE == SCALE,
                SCALE as int > 0,
        ;
    }
    lemma_exp_series_bounds(h, (ONE + h) as i128, h, 2);
    let s = exp_series(ONE, ONE, h, 1)->Ok_0;
    assert(ONE + h <= s <= ONE + 2 * h);
    let sq = (s as int) * (s as int) / (SCALE as int);
    assert(2 * ONE <= sq <= 4 * ONE) by (nonlinear_arith)
        requires
            sq == (s as int) * (s as int) / (SCALE as int),
            1_500_000_000_000_000_000 <= s <= 2_000_000_000_000_000_000,
            SCALE == 1_000_000_000_000_000_000,
            ONE == SCALE,
    ;
    reveal_with_fuel(square_times, 2);
    assert(mul_spec(s as int, s as int) == Ok::<i128, MathError>(sq as i128));
    assert(square_times(s, 1) == Ok::<i128, MathError>(sq as i128));
}

/// A minimal unsigned 256-bit integer represented as two 128-bit limbs.
#[derive(Clone, Copy)]
struct U256 {
    hi: u128,
    lo: u128,
}

impl U256 {
    /// The number the two limbs represent.
    spec fn value(self) -> int {
        limbs(self.hi, self.lo)
    }
}

/// `(N / d, N % d)` for a 256-bit `N`, or the error `div_u256_by_u128` reports.
spec fn div_u256_spec(n: int, d: int) -> Result<(u128, u128), MathError> {
    if d == 0 {
        Err(MathError::DivideByZero)
    } else if n / d > u128::MAX {
        Err(MathError::Overflow)
    } else {
        Ok(((n / d) as u128, (n % d) as u128))
    }
}

/// Multiply two `u128` values into a full 256-bit product with no loss.
fn mul_u128_to_u256(a: u128, b: u128) -> (r: U256)
    ensures
        r.value() == a as int * b as int,
{
    // Split each operand into 64-bit halves and use schoolbook multiplication.
    let a_lo = a & 0xFFFF_FFFF_FFFF_FFFF;
    let a_hi = a >> 64;
    let b_lo = b & 0xFFFF_FFFF_FFFF_FFFF;
    let b_hi = b >> 64;
    proof {
        lemma_split_u128(a);
        lemma_split_u128(b);
        lemma_half_product(a_lo, b_lo);
        lemma_half_product(a_lo, b_hi);
        lemma_half_product(a_hi, b_lo);
        lemma_half_product(a_hi, b_hi);
    }

    let ll = a_lo * b_lo;
    let lh = a_lo * b_hi;
    let hl = a_hi * b_lo;
    let hh = a_hi * b_hi;

    proof {
        lemma_schoolbook(a_hi as int, a_lo as int, b_hi as int, b_lo as int);
        lemma_mul_nonnegative(a as int, b as int);
        lemma_shl64(lh);
        lemma_shl64(hl);
        lemma_split_u128(lh);
        lemma_split_u128(hl);
    }

    // Accumulate the cross terms, carrying into the high limb.
    let mut lo = ll;
    let mut hi = hh;

    // Add lh << 64.
    let (mid1, carry1) = add_with_carry(lo, lh << 64);
    proof {
        lemma_fundamental_div_mod(lo as int + (lh << 64) as int, b128());
        lemma_add_shifted(hh as int, ll as int, lh as int, mid1 as int, carry1 as int);
        lemma_product_below_b256(a, b);
        lemma_high_limb_bound(
            hh as int + lh as int / b64() + carry1 as int,
            mid1 as int,
            hl as int * b64(),
            a as int * b as int,
        );
    }
    lo = mid1;
    hi += (lh >> 64) + carry1 as u128;

    // Add hl << 64.
    let (mid2, carry2) = add_with_carry(lo, hl << 64);
    proof {
        lemma_fundamental_div_mod(lo as int + (hl << 64) as int, b128());
        lemma_add_shifted(hi as int, lo as int, hl as int, mid2 as int, carry2 as int);
        lemma_high_limb_bound(hi as int + hl as int / b64() + carry2 as int, mid2 as int, 0, a as int * b as int);
    }
    lo = mid2;
    hi += (hl >> 64) + carry2 as u128;

    U256 { hi, lo }
}



/// Divide a 256-bit numerator by a 128-bit divisor.
///
/// Returns `(quotient, remainder)` by binary long division, or
/// [`MathError::Overflow`] if the quotient would not fit in `u128`.
fn div_u256_by_u128(num: U256, den: u128) -> (res: Result<(u128, u128), MathError>)
    ensures
        res == div_u256_spec(num.value(), den as int),
{
    if den == 0 {
        return Err(MathError::DivideByZero);
    }
    // Fast path: numerator fits in a single limb.
    if num.hi == 0 {
        return Ok((num.lo / den, num.lo % den));
    }
    // Binary long division over the 256-bit value, MSB first.

    let mut quotient_hi: u128 = 0;
    let mut quotient_lo: u128 = 0;
    let mut rem: u128 = 0;
    let ghost n = num.value();
    let ghost mut q: int = 0;
    proof {
        lemma_b128_is_pow2();
        lemma_pow2_adds(128, 128);
        lemma_div_basics(n);
        lemma_small_div_by_b256(n);
    }

    let mut i: u128 = 256;
    while i > 0
        invariant
            i <= 256,
            den > 0,
            n == num.value(),
            0 <= n < b128() * b128(),
            rem < den,
            q >= 0,
            q * den + rem == n / p2(i as nat),
            limbs(quotient_hi, quotient_lo) == q * p2(i as nat),
        decreases i,
    {
        i = i - 1;
        let ghost k = i as nat;
        proof {
            lemma_div_pow2_step(n, k);
            lemma_pow2_pos(k);
        }
        // Shift remainder left by one and bring in the next numerator bit.
        let bit = if i >= 128 {
            proof {
                lemma_u128_bit(num.hi, (i - 128) as u128);
                lemma_limbs_div_high(num.hi, num.lo, k);
            }
            (num.hi >> (i - 128)) & 1
        } else {
            proof {
                lemma_u128_bit(num.lo, i);
                lemma_limbs_div_low(num.hi, num.lo, k);
            }
            (num.lo >> i) & 1
        };
        assert(bit as int == (n / p2(k)) % 2);

        let overflow_top = rem >> 127;
        proof {
            lemma_shift_in_bit(rem, bit);
        }
        let ghost rem_old = rem as int;
        let ghost prev_q = q;
        assert(prev_q * den + rem_old == n / p2(k + 1));
        assert(n / p2(k) == 2 * (prev_q * den + rem_old) + bit);
        rem = (rem << 1) | bit;

        if overflow_top == 1 || rem >= den {
            rem = rem.wrapping_sub(den);
            assert(rem as int == 2 * rem_old + bit - den);
            // Set bit i in the quotient.
            proof {
                q = 2 * prev_q + 1;
                lemma_quotient_bit_clear(quotient_hi, quotient_lo, prev_q, k);
            }
            if i >= 128 {
                proof {
                    lemma_u128_set_bit(quotient_hi, (i - 128) as u128);
                    lemma_u128_one_shl((i - 128) as u128);
                    lemma_set_bit_limbs_high(quotient_hi, quotient_lo, k);
                }
                quotient_hi |= 1u128 << (i - 128);
            } else {
                proof {
                    lemma_u128_set_bit(quotient_lo, i);
                    lemma_u128_one_shl(i);
                    lemma_set_bit_limbs_low(quotient_hi, quotient_lo, k);
                }
                quotient_lo |= 1u128 << i;
            }
            proof {
                lemma_mul_step(prev_q, k, 1);
                lemma_remainder_step(prev_q, den as int, rem_old, bit as int, 1, rem as int);
            }
        } else {
            assert(rem as int == 2 * rem_old + bit);
            proof {
                q = 2 * prev_q;
                lemma_mul_step(prev_q, k, 0);
                lemma_remainder_step(prev_q, den as int, rem_old, bit as int, 0, rem as int);
            }
        }
    }
    proof {
        lemma2_to64();
        assert(n / p2(0) == n);
        assert(q * p2(0) == q);
        lemma_fundamental_div_mod_converse(n, den as int, q, rem as int);
        lemma_limbs_div(quotient_hi as int, quotient_lo as int);
        assert(q == limbs(quotient_hi, quotient_lo));
        assert(quotient_hi != 0 <==> q > u128::MAX);
    }
    if quotient_hi != 0 {
        return Err(MathError::Overflow);
    }
    Ok((quotient_lo, rem))
}












} // verus!
