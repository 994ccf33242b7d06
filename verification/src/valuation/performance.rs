//! Deterministic fixed-point performance metric calculations.
//!
//! Portfolio performance formulas on the same 1e18 fixed-point scale as the
//! staking contract, so every validator computes identical results.
//!
//! - Returns are **decimal fractions** (0.10 = +10%).
//! - Ratios like Sharpe/Sortino are dimensionless decimal values.
//! - Maximum drawdown is reported as a **positive** fraction (0.25 = 25% drop).

use crate::staking::fixed_point::{abs_u128, add_with_carry};
use crate::valuation::records::{ONE, SCALE};
use crate::wide::{
    abs, b128, b64, lemma_add_shifted, lemma_b128_is_pow2, lemma_div_pow2_step, lemma_half_product,
    lemma_high_limb_bound, lemma_limbs_div, lemma_limbs_div_high, lemma_limbs_div_low,
    lemma_mul_step, lemma_product_below_b256, lemma_quotient_bit_clear, lemma_remainder_step,
    lemma_schoolbook, lemma_set_bit_limbs_high, lemma_set_bit_limbs_low, lemma_shift_in_bit,
    lemma_shl64, lemma_small_div_by_b256, lemma_split_u128, lemma_u128_bit, lemma_u128_one_shl,
    lemma_u128_set_bit, limbs, p2,
};
use vstd::arithmetic::div_mod::*;
use vstd::arithmetic::mul::*;
use vstd::arithmetic::power2::*;
use vstd::prelude::*;

verus! {

/// Errors arising from performance calculations.
#[derive(Debug, Clone, Copy, PartialEq, Eq, Structural)]
pub enum PerfError {
    /// A division by zero was attempted.
    DivideByZero,
    /// Insufficient data points for the requested calculation.
    InsufficientData,
    /// Computation overflowed the i128 range.
    Overflow,
}

/// `a * b / denom` rounded toward zero, or the error `fp_mul_div` reports.
pub open spec fn fp_mul_div_spec(a: int, b: int, denom: int) -> Result<i128, PerfError> {
    if denom == 0 {
        Err(PerfError::DivideByZero)
    } else {
        let q = abs(a) * abs(b) / abs(denom);
        if q > i128::MAX {
            Err(PerfError::Overflow)
        } else if (a < 0) != ((b < 0) != (denom < 0)) {
            Ok((-q) as i128)
        } else {
            Ok(q as i128)
        }
    }
}

/// Fixed-point product `a * b / SCALE`.
pub open spec fn fp_mul_spec(a: int, b: int) -> Result<i128, PerfError> {
    fp_mul_div_spec(a, b, SCALE as int)
}

/// Fixed-point quotient `a * SCALE / b`.
pub open spec fn fp_div_spec(a: int, b: int) -> Result<i128, PerfError> {
    if b == 0 {
        Err(PerfError::DivideByZero)
    } else {
        fp_mul_div_spec(a, SCALE as int, b)
    }
}

/// Multiply two fixed-point values: `(a * b) / SCALE`.
pub fn fp_mul(a: i128, b: i128) -> (r: Result<i128, PerfError>)
    ensures
        r == fp_mul_spec(a as int, b as int),
{
    fp_mul_div(a, b, SCALE)
}

/// Divide two fixed-point values: `(a * SCALE) / b`.
pub fn fp_div(a: i128, b: i128) -> (r: Result<i128, PerfError>)
    ensures
        r == fp_div_spec(a as int, b as int),
{
    if b == 0 {
        return Err(PerfError::DivideByZero);
    }
    fp_mul_div(a, SCALE, b)
}

/// Compute `a * b / denom` with a 256-bit intermediate to avoid overflow.
///
/// The quotient is rounded toward zero and carries the sign of `a * b / denom`;
/// a quotient that does not fit in `i128` is [`PerfError::Overflow`].
#[verifier::rlimit(60)]
#[verifier::spinoff_prover]
pub fn fp_mul_div(a: i128, b: i128, denom: i128) -> (r: Result<i128, PerfError>)
    ensures
        r == fp_mul_div_spec(a as int, b as int, denom as int),
{
    if denom == 0 {
        return Err(PerfError::DivideByZero);
    }

    let neg = (a < 0) ^ (b < 0) ^ (denom < 0);
    let a_abs = abs_u128(a);
    let b_abs = abs_u128(b);
    let d = abs_u128(denom);

    // 256-bit product via schoolbook
    let a_lo = a_abs & 0xFFFF_FFFF_FFFF_FFFF;
    let a_hi = a_abs >> 64;
    let b_lo = b_abs & 0xFFFF_FFFF_FFFF_FFFF;
    let b_hi = b_abs >> 64;
    proof {
        lemma_split_u128(a_abs);
        lemma_split_u128(b_abs);
        lemma_half_product(a_lo, b_lo);
        lemma_half_product(a_lo, b_hi);
        lemma_half_product(a_hi, b_lo);
        lemma_half_product(a_hi, b_hi);
    }

    let ll = a_lo * b_lo;
    let lh = a_lo * b_hi;
    let hl = a_hi * b_lo;
    let hh = a_hi * b_hi;
    proof {
        lemma_schoolbook(a_hi as int, a_lo as int, b_hi as int, b_lo as int);
        lemma_mul_nonnegative(a_abs as int, b_abs as int);
        lemma_shl64(lh);
        lemma_shl64(hl);
        lemma_split_u128(lh);
        lemma_split_u128(hl);
    }

    let mut lo = ll;
    let mut hi = hh;

    let (m1, c1) = add_with_carry(lo, lh << 64);
    proof {
        lemma_fundamental_div_mod(lo as int + (lh << 64) as int, b128());
        lemma_add_shifted(hh as int, ll as int, lh as int, m1 as int, c1 as int);
        lemma_product_below_b256(a_abs, b_abs);
        lemma_high_limb_bound(
            hh as int + lh as int / b64() + c1 as int,
            m1 as int,
            hl as int * b64(),
            a_abs as int * b_abs as int,
        );
    }
    lo = m1;
    hi = hi.wrapping_add((lh >> 64).wrapping_add(c1 as u128));

    let (m2, c2) = add_with_carry(lo, hl << 64);
    proof {
        lemma_fundamental_div_mod(lo as int + (hl << 64) as int, b128());
        lemma_add_shifted(hi as int, lo as int, hl as int, m2 as int, c2 as int);
        lemma_high_limb_bound(
            hi as int + hl as int / b64() + c2 as int,
            m2 as int,
            0,
            a_abs as int * b_abs as int,
        );
    }
    lo = m2;
    hi = hi.wrapping_add((hl >> 64).wrapping_add(c2 as u128));
    let ghost n = limbs(hi, lo);
    assert(n == a_abs as int * b_abs as int);

    // Binary long division of 256-bit / 128-bit
    if hi == 0 {
        let q = lo / d;
        if q > i128::MAX as u128 {
            return Err(PerfError::Overflow);
        }
        return Ok(
            if neg {
                -(q as i128)
            } else {
                q as i128
            },
        );
    }
    // Full 256-bit division

    let mut quotient_hi: u128 = 0;
    let mut quotient_lo: u128 = 0;
    let mut rem: u128 = 0;
    let ghost mut q: int = 0;
    proof {
        lemma_b128_is_pow2();
        lemma_pow2_adds(128, 128);
        lemma_small_div_by_b256(n);
    }

    let mut i: u128 = 256;
    while i > 0
        invariant
            i <= 256,
            d > 0,
            n == limbs(hi, lo),
            0 <= n < b128() * b128(),
            rem < d,
            q >= 0,
            q * d + rem == n / p2(i as nat),
            limbs(quotient_hi, quotient_lo) == q * p2(i as nat),
        decreases i,
    {
        i = i - 1;
        let ghost k = i as nat;
        proof {
            lemma_div_pow2_step(n, k);
            lemma_pow2_pos(k);
        }
        let bit = if i >= 128 {
            proof {
                lemma_u128_bit(hi, (i - 128) as u128);
                lemma_limbs_div_high(hi, lo, k);
            }
            (hi >> (i - 128)) & 1
        } else {
            proof {
                lemma_u128_bit(lo, i);
                lemma_limbs_div_low(hi, lo, k);
            }
            (lo >> i) & 1
        };

        let overflow_top = rem >> 127;
        proof {
            lemma_shift_in_bit(rem, bit);
        }
        let ghost rem_old = rem as int;
        let ghost prev_q = q;
        assert(prev_q * d + rem_old == n / p2(k + 1));
        assert(n / p2(k) == 2 * (prev_q * d + rem_old) + bit);
        rem = (rem << 1) | bit;

        if overflow_top == 1 || rem >= d {
            rem = rem.wrapping_sub(d);
            assert(rem as int == 2 * rem_old + bit - d);
            proof {
                q = 2 * prev_q + 1;
                lemma_quotient_bit_clear(quotient_hi, quotient_lo, prev_q, k);
            }
            if i >= 128 {
                proof {
                    lemma_u128_set_bit(quotient_hi, (i - 128) as u128);
                    lemma_u128_one_shl((i - 128) as u128);
                    lemma_set_bit_limbs_high(quotient_hi, quotient_lo, k);
                }
                quotient_hi |= 1u128 << (i - 128);
            } else {
                proof {
                    lemma_u128_set_bit(quotient_lo, i);
                    lemma_u128_one_shl(i);
                    lemma_set_bit_limbs_low(quotient_hi, quotient_lo, k);
                }
                quotient_lo |= 1u128 << i;
            }
            proof {
                lemma_mul_step(prev_q, k, 1);
                lemma_remainder_step(prev_q, d as int, rem_old, bit as int, 1, rem as int);
            }
        } else {
            assert(rem as int == 2 * rem_old + bit);
            proof {
                q = 2 * prev_q;
                lemma_mul_step(prev_q, k, 0);
                lemma_remainder_step(prev_q, d as int, rem_old, bit as int, 0, rem as int);
            }
        }
    }
    proof {
        lemma2_to64();
        assert(n / p2(0) == n);
        assert(q * p2(0) == q);
        lemma_fundamental_div_mod_converse(n, d as int, q, rem as int);
        lemma_limbs_div(quotient_hi as int, quotient_lo as int);
        assert(q == limbs(quotient_hi, quotient_lo));
        assert(quotient_hi != 0 <==> q > u128::MAX);
    }

    if quotient_hi != 0 {
        return Err(PerfError::Overflow);
    }
    // The quotient must fit back into i128.
    if quotient_lo > i128::MAX as u128 {
        return Err(PerfError::Overflow);
    }
    Ok(
        if neg {
            -(quotient_lo as i128)
        } else {
            quotient_lo as i128
        },
    )
}

/// `r` is the integer square root of `n`: `r^2 <= n < (r+1)^2`.
pub open spec fn is_isqrt(r: int, n: int) -> bool {
    0 <= r && r * r <= n < (r + 1) * (r + 1)
}

/// The fixed-point square root of `x`: `floor(sqrt(x * SCALE))`, so that the
/// real value of the result is the square root of the real value of `x`.
pub open spec fn fp_sqrt_holds(x: int, r: int) -> bool {
    is_isqrt(r, x * SCALE)
}

/// Fixed-point square root via Newton's method.
///
/// For a fixed-point input `x` (real value `x / SCALE`), returns
/// `sqrt(x / SCALE) * SCALE` rounded down, i.e. the integer square root of
/// `x * SCALE`. The iteration `guess' = (guess + fp_div(x, guess)) / 2` starts at
/// or above the root (`x / 2` for inputs of at least 4.0, 2.0 below that) and
/// decreases until it reaches it. A negative input is an error.
pub fn fp_sqrt(x: i128) -> (r: Result<i128, PerfError>)
    ensures
        x < 0 ==> r == Err::<i128, PerfError>(PerfError::Overflow),
        x >= 0 ==> (r matches Ok(v) && fp_sqrt_holds(x as int, v as int)),
{
    if x < 0 {
        return Err(PerfError::Overflow);
    }
    if x == 0 {
        proof {
            assert(0 * 0 <= 0 * SCALE < 1 * 1);
        }
        return Ok(0);
    }
    let ghost n = x * SCALE;
    let ghost root = lemma_isqrt_exists(n);

    // Initial guess at or above the root: x / 2 when x >= 4.0, else 2.0.
    let mut guess = x / 2;
    if guess < 2 * SCALE {
        guess = 2 * SCALE;
    }
    proof {
        lemma_initial_guess(x as int, guess as int, root);
    }

    // Newton's method: guess' = (guess + x/guess) / 2
    loop
        invariant
            x > 0,
            n == x * SCALE,
            is_isqrt(root, n),
            root <= guess,
            guess <= x / 2 || guess <= 2 * SCALE,
        ensures
            guess == root,
        decreases guess,
    {
        proof {
            lemma_root_bounds(x as int, root);
            lemma_newton_step(n, guess as int, n / (guess as int), root);
            assert(abs(x as int) * abs(SCALE as int) / abs(guess as int) == n / (guess as int));
        }
        let q = match fp_div(x, guess) {
            Ok(v) => v,
            Err(_) => {
                return Err(PerfError::Overflow);
            },
        };
        let new_guess = (guess + q) / 2;
        if new_guess >= guess {
            break;
        }
        guess = new_guess;
    }
    Ok(guess)
}

/// Every non-negative integer has an integer square root.
proof fn lemma_isqrt_exists(n: int) -> (r: int)
    requires
        n >= 0,
    ensures
        is_isqrt(r, n),
    decreases n,
{
    if n == 0 {
        assert(is_isqrt(0, 0));
        0
    } else {
        let s = lemma_isqrt_exists(n - 1);
        assert(s * s <= n);
        if (s + 1) * (s + 1) <= n {
            assert((s + 1) * (s + 1) == n) by (nonlinear_arith)
                requires
                    s * s <= n - 1 < (s + 1) * (s + 1),
                    (s + 1) * (s + 1) <= n,
            ;
            assert(n < (s + 2) * (s + 2)) by (nonlinear_arith)
                requires
                    (s + 1) * (s + 1) == n,
                    s >= 0,
            ;
            s + 1
        } else {
            assert(is_isqrt(s, n));
            s
        }
    }
}

/// The initial guess is at or above the root.
proof fn lemma_initial_guess(x: int, guess: int, root: int)
    requires
        x > 0,
        is_isqrt(root, x * SCALE),
        guess == (if x / 2 < 2 * SCALE {
            2 * SCALE as int
        } else {
            x / 2
        }),
    ensures
        root <= guess,
{
    if x / 2 < 2 * SCALE {
        assert(root <= 2 * SCALE) by (nonlinear_arith)
            requires
                root >= 0,
                root * root <= x * SCALE,
                x / 2 < 2 * SCALE,
                x > 0,
                SCALE == 1_000_000_000_000_000_000,
        ;
    } else {
        assert(root <= x / 2) by (nonlinear_arith)
            requires
                root >= 0,
                root * root <= x * SCALE,
                x / 2 >= 2 * SCALE,
                x > 0,
                SCALE == 1_000_000_000_000_000_000,
        ;
    }
}

/// The root of `x * SCALE` for a positive `i128` is positive and far below
/// the `i128` range.
proof fn lemma_root_bounds(x: int, root: int)
    requires
        0 < x <= i128::MAX,
        is_isqrt(root, x * SCALE),
    ensures
        1 <= root <= 20_000_000_000_000_000_000_000_000_000,
{
    assert(1 <= root <= 20_000_000_000_000_000_000_000_000_000) by (nonlinear_arith)
        requires
            0 < x <= i128::MAX,
            root >= 0,
            root * root <= x * SCALE < (root + 1) * (root + 1),
            SCALE == 1_000_000_000_000_000_000,
    ;
}

/// One Newton step from a guess at or above the root: the quotient fits, the
/// new guess is still at or above the root, and it decreases unless the guess
/// is the root itself.
proof fn lemma_newton_step(n: int, g: int, q: int, root: int)
    requires
        is_isqrt(root, n),
        1 <= root <= 20_000_000_000_000_000_000_000_000_000,
        root <= g <= i128::MAX / 2 + 2 * SCALE,
        q == n / g,
    ensures
        g + q <= i128::MAX,
        root <= (g + q) / 2,
        (g + q) / 2 >= g ==> g == root,
{
    assert(q <= root + 2) by (nonlinear_arith)
        requires
            q == n / g,
            root <= g,
            1 <= root,
            n < (root + 1) * (root + 1),
    ;
    assert(g + q >= 2 * root) by (nonlinear_arith)
        requires
            q == n / g,
            g >= 1,
            root >= 0,
            root * root <= n,
    ;
    if g > root {
        lemma_fundamental_div_mod(n, g);
        lemma_mod_pos_bound(n, g);
        assert(q < g) by (nonlinear_arith)
            requires
                n == g * q + n % g,
                0 <= n % g,
                g >= root + 1,
                root >= 0,
                n < (root + 1) * (root + 1),
        ;
    }
}

/// The sequential sum of `rs[0..i]`, or `None` if a partial sum overflows.
pub open spec fn checked_sum(rs: Seq<i128>, i: int) -> Option<i128>
    decreases i,
{
    if i <= 0 {
        Some(0)
    } else {
        match checked_sum(rs, i - 1) {
            None => None,
            Some(s) => if s + rs[i - 1] > i128::MAX || s + rs[i - 1] < i128::MIN {
                None
            } else {
                Some((s + rs[i - 1]) as i128)
            },
        }
    }
}

/// Rust's `/` on integers: the quotient rounded toward zero (for `b > 0`).
pub open spec fn tdiv(a: int, b: int) -> int {
    if a >= 0 {
        a / b
    } else {
        -((-a) / b)
    }
}

/// The sum of squared deviations `sum (rs[j] - mean)^2` for `j < i`, each square
/// taken with `fp_mul`.
pub open spec fn sq_dev_sum(rs: Seq<i128>, mean: int, i: int) -> Result<i128, PerfError>
    decreases i,
{
    if i <= 0 {
        Ok(0)
    } else {
        match sq_dev_sum(rs, mean, i - 1) {
            Err(e) => Err(e),
            Ok(s) => match fp_mul_spec(rs[i - 1] - mean, rs[i - 1] - mean) {
                Err(e) => Err(e),
                Ok(sq) => if s + sq > i128::MAX || s + sq < i128::MIN {
                    Err(PerfError::Overflow)
                } else {
                    Ok((s + sq) as i128)
                },
            },
        }
    }
}

/// The sum of squared negative excess returns `sum min(0, rs[j] - rf)^2` for
/// `j < i`, each square taken with `fp_mul`.
pub open spec fn sq_down_sum(rs: Seq<i128>, rf: int, i: int) -> Result<i128, PerfError>
    decreases i,
{
    if i <= 0 {
        Ok(0)
    } else {
        match sq_down_sum(rs, rf, i - 1) {
            Err(e) => Err(e),
            Ok(s) => if rs[i - 1] - rf < 0 {
                match fp_mul_spec(rs[i - 1] - rf, rs[i - 1] - rf) {
                    Err(e) => Err(e),
                    Ok(sq) => if s + sq > i128::MAX || s + sq < i128::MIN {
                        Err(PerfError::Overflow)
                    } else {
                        Ok((s + sq) as i128)
                    },
                }
            } else {
                Ok(s)
            },
        }
    }
}

/// The fixed-point square root: `floor(sqrt(x * SCALE))`, or the error for a
/// negative input.
pub open spec fn fp_sqrt_spec(x: int) -> Result<i128, PerfError> {
    if x < 0 {
        Err(PerfError::Overflow)
    } else {
        Ok((choose|r: int| #[trigger] is_isqrt(r, x * SCALE)) as i128)
    }
}

/// Every value fits between the `i128` bounds after the subtractions the
/// Sharpe ratio performs without a check (`mean - rf` and `r - mean`).
pub open spec fn deviations_fit(rs: Seq<i128>, mean: int, rf: int) -> bool {
    &&& i128::MIN <= mean - rf <= i128::MAX
    &&& forall|j: int| 0 <= j < rs.len() ==> i128::MIN <= #[trigger] rs[j] - mean <= i128::MAX
}

/// The annualized excess-return ratio `excess / dev * sqrt(periods)`, or zero
/// when the deviation is zero.
pub open spec fn annualized_ratio(excess: int, dev: int, periods_per_year: u64) -> Result<
    i128,
    PerfError,
> {
    if dev == 0 {
        Ok(0)
    } else {
        match fp_sqrt_spec(periods_per_year as int * ONE as int) {
            Err(e) => Err(e),
            Ok(sqrt_periods) => match fp_div_spec(excess, dev) {
                Err(e) => Err(e),
                Ok(ratio) => fp_mul_spec(ratio as int, sqrt_periods as int),
            },
        }
    }
}

/// The Sharpe ratio as [`sharpe_ratio`] computes it.
pub open spec fn sharpe_spec(rs: Seq<i128>, risk_free_rate: i128, periods_per_year: u64) -> Result<
    i128,
    PerfError,
> {
    let n = rs.len() as int;
    if n < 2 {
        Err(PerfError::InsufficientData)
    } else if periods_per_year == 0 {
        Err(PerfError::DivideByZero)
    } else {
        match checked_sum(rs, n) {
            None => Err(PerfError::Overflow),
            Some(sum) => {
                let mean = tdiv(sum as int, n);
                match fp_div_spec(risk_free_rate as int, periods_per_year as int * ONE as int) {
                    Err(e) => Err(e),
                    Ok(rf) => match sq_dev_sum(rs, mean, n) {
                        Err(e) => Err(e),
                        Ok(ssd) => match fp_sqrt_spec(tdiv(ssd as int, n - 1)) {
                            Err(e) => Err(e),
                            Ok(stddev) => annualized_ratio(mean - rf, stddev as int, periods_per_year),
                        },
                    },
                }
            },
        }
    }
}

/// The inputs on which [`sharpe_ratio`] performs no unchecked subtraction that
/// leaves the `i128` range.
pub open spec fn sharpe_fits(rs: Seq<i128>, risk_free_rate: i128, periods_per_year: u64) -> bool {
    let n = rs.len() as int;
    n >= 2 && periods_per_year > 0 ==> match checked_sum(rs, n) {
        None => true,
        Some(sum) => match fp_div_spec(risk_free_rate as int, periods_per_year as int * ONE as int) {
            Err(_) => true,
            Ok(rf) => deviations_fit(rs, tdiv(sum as int, n), rf as int),
        },
    }
}

/// Run `fp_sqrt`, which cannot fail on a non-negative input, and return its
/// value as the specification names it.
fn sqrt_of_nonneg(x: i128) -> (r: Result<i128, PerfError>)
    ensures
        r == fp_sqrt_spec(x as int),
{
    let r = fp_sqrt(x);
    proof {
        if x >= 0 {
            let v = r->Ok_0;
            let c = choose|c: int| #[trigger] is_isqrt(c, x * SCALE);
            lemma_isqrt_unique(v as int, c, x * SCALE);
        }
    }
    r
}

/// The integer square root is unique.
proof fn lemma_isqrt_unique(a: int, b: int, n: int)
    requires
        is_isqrt(a, n),
        is_isqrt(b, n),
    ensures
        a == b,
{
    if a < b {
        assert((a + 1) * (a + 1) <= b * b) by (nonlinear_arith)
            requires
                0 <= a < b,
        ;
    }
    if b < a {
        assert((b + 1) * (b + 1) <= a * a) by (nonlinear_arith)
            requires
                0 <= b < a,
        ;
    }
}

/// Compute the annualized Sharpe ratio from a series of periodic returns.
///
/// `risk_free_rate` is the annualized risk-free rate in decimal fixed-point;
/// `periodic_returns` holds at least two periodic returns; `periods_per_year`
/// is the number of periods in a year (e.g. 365 for daily).
///
/// Formula: `(mean(returns) - rf/periods) / stddev(returns) * sqrt(periods_per_year)`,
/// with the sample standard deviation; zero when the deviation is zero.
pub fn sharpe_ratio(periodic_returns: &Vec<i128>, risk_free_rate: i128, periods_per_year: u64) -> (r:
    Result<i128, PerfError>)
    requires
        periodic_returns@.len() <= u32::MAX,
        sharpe_fits(periodic_returns@, risk_free_rate, periods_per_year),
    ensures
        r == sharpe_spec(periodic_returns@, risk_free_rate, periods_per_year),
{
    let n = periodic_returns.len();
    if n < 2 {
        return Err(PerfError::InsufficientData);
    }
    if periods_per_year == 0 {
        return Err(PerfError::DivideByZero);
    }
    let n_fp = n as i128;

    // Mean return: sum is already in fixed-point, divide by count.
    let mut sum = 0i128;
    let mut i: usize = 0;
    while i < n
        invariant
            n == periodic_returns@.len(),
            n >= 2,
            periods_per_year > 0,
            i <= n,
            checked_sum(periodic_returns@, i as int) == Some(sum),
        decreases n - i,
    {
        let r = periodic_returns[i];
        sum = match sum.checked_add(r) {
            Some(v) => v,
            None => {
                proof {
                    assert(checked_sum(periodic_returns@, (i + 1) as int) == None::<i128>);
                    lemma_checked_sum_none(periodic_returns@, (i + 1) as int, n as int);
                }
                return Err(PerfError::Overflow);
            },
        };
        i += 1;
    }
    let mean = sum / n_fp;
    assert(mean == tdiv(sum as int, n as int));

    // Risk-free return per period
    let rf_per_period = fp_div(risk_free_rate, (periods_per_year as i128) * ONE)?;

    // Excess mean
    let excess_mean = mean - rf_per_period;

    // Standard deviation (sample)
    let mut sum_sq_diff = 0i128;
    let mut i: usize = 0;
    while i < n
        invariant
            n == periodic_returns@.len(),
            n >= 2,
            n_fp == n,
            periods_per_year > 0,
            checked_sum(periodic_returns@, n as int) == Some(sum),
            mean == tdiv(sum as int, n as int),
            fp_div_spec(risk_free_rate as int, periods_per_year as int * ONE as int) == Ok::<
                i128,
                PerfError,
            >(rf_per_period),
            i <= n,
            deviations_fit(periodic_returns@, mean as int, rf_per_period as int),
            sq_dev_sum(periodic_returns@, mean as int, i as int) == Ok::<i128, PerfError>(sum_sq_diff),
        decreases n - i,
    {
        let r = periodic_returns[i];
        let diff = r - mean;
        let diff_sq = match fp_mul(diff, diff) {
            Ok(v) => v,
            Err(e) => {
                proof {
                    lemma_sq_dev_sum_err(periodic_returns@, mean as int, (i + 1) as int, n as int);
                }
                return Err(e);
            },
        };
        sum_sq_diff = match sum_sq_diff.checked_add(diff_sq) {
            Some(v) => v,
            None => {
                proof {
                    lemma_sq_dev_sum_err(periodic_returns@, mean as int, (i + 1) as int, n as int);
                }
                return Err(PerfError::Overflow);
            },
        };
        i += 1;
    }
    // variance = sum_sq_diff / (n-1), kept on the squared scale
    let variance = sum_sq_diff / (n_fp - 1);
    let stddev = sqrt_of_nonneg(variance)?;

    if stddev == 0 {
        return Ok(0);
    }

    // Sharpe = excess_mean / stddev * sqrt(periods_per_year)
    let periods_fp = (periods_per_year as i128) * ONE;
    let sqrt_periods = sqrt_of_nonneg(periods_fp)?;
    let sharpe = fp_mul(fp_div(excess_mean, stddev)?, sqrt_periods)?;
    Ok(sharpe)
}

/// Once a partial sum overflows, every longer partial sum does too.
proof fn lemma_checked_sum_none(rs: Seq<i128>, i: int, n: int)
    requires
        0 <= i <= n,
        checked_sum(rs, i) == None::<i128>,
    ensures
        checked_sum(rs, n) == None::<i128>,
    decreases n - i,
{
    if i < n {
        lemma_checked_sum_none(rs, i + 1, n);
    }
}

/// Once a sum of squares fails, every longer sum fails with the same error.
proof fn lemma_sq_dev_sum_err(rs: Seq<i128>, mean: int, i: int, n: int)
    requires
        0 <= i <= n,
        sq_dev_sum(rs, mean, i) is Err,
    ensures
        sq_dev_sum(rs, mean, n) == sq_dev_sum(rs, mean, i),
    decreases n - i,
{
    if i < n {
        lemma_sq_dev_sum_err(rs, mean, i + 1, n);
    }
}

/// Once a sum of downside squares fails, every longer sum fails the same way.
proof fn lemma_sq_down_sum_err(rs: Seq<i128>, rf: int, i: int, n: int)
    requires
        0 <= i <= n,
        sq_down_sum(rs, rf, i) is Err,
    ensures
        sq_down_sum(rs, rf, n) == sq_down_sum(rs, rf, i),
    decreases n - i,
{
    if i < n {
        lemma_sq_down_sum_err(rs, rf, i + 1, n);
    }
}

/// Every value fits between the `i128` bounds after the subtractions the
/// Sortino ratio performs without a check (`mean - rf` and `r - rf`).
pub open spec fn excesses_fit(rs: Seq<i128>, mean: int, rf: int) -> bool {
    &&& i128::MIN <= mean - rf <= i128::MAX
    &&& forall|j: int| 0 <= j < rs.len() ==> i128::MIN <= #[trigger] rs[j] - rf <= i128::MAX
}

/// The Sortino ratio as [`sortino_ratio`] computes it: like the Sharpe ratio,
/// but dividing by the downside deviation; with no downside it is zero when the
/// excess mean is not positive and `i128::MAX / 2` otherwise.
pub open spec fn sortino_spec(rs: Seq<i128>, risk_free_rate: i128, periods_per_year: u64) -> Result<
    i128,
    PerfError,
> {
    let n = rs.len() as int;
    if n < 2 {
        Err(PerfError::InsufficientData)
    } else if periods_per_year == 0 {
        Err(PerfError::DivideByZero)
    } else {
        match checked_sum(rs, n) {
            None => Err(PerfError::Overflow),
            Some(sum) => {
                let mean = tdiv(sum as int, n);
                match fp_div_spec(risk_free_rate as int, periods_per_year as int * ONE as int) {
                    Err(e) => Err(e),
                    Ok(rf) => match sq_down_sum(rs, rf as int, n) {
                        Err(e) => Err(e),
                        Ok(ssd) => match fp_sqrt_spec(tdiv(ssd as int, n - 1)) {
                            Err(e) => Err(e),
                            Ok(dd) => if dd == 0 {
                                if mean - rf <= 0 {
                                    Ok(0)
                                } else {
                                    Ok((i128::MAX / 2) as i128)
                                }
                            } else {
                                annualized_ratio(mean - rf, dd as int, periods_per_year)
                            },
                        },
                    },
                }
            },
        }
    }
}

/// The inputs on which [`sortino_ratio`] performs no unchecked subtraction that
/// leaves the `i128` range.
pub open spec fn sortino_fits(rs: Seq<i128>, risk_free_rate: i128, periods_per_year: u64) -> bool {
    let n = rs.len() as int;
    n >= 2 && periods_per_year > 0 ==> match checked_sum(rs, n) {
        None => true,
        Some(sum) => match fp_div_spec(risk_free_rate as int, periods_per_year as int * ONE as int) {
            Err(_) => true,
            Ok(rf) => excesses_fit(rs, tdiv(sum as int, n), rf as int),
        },
    }
}

/// Compute the annualized Sortino ratio from a series of periodic returns.
///
/// Like [`sharpe_ratio`] but uses the downside deviation (the root of the sum
/// of squared negative excess returns over `n - 1`) instead of the total
/// standard deviation.
pub fn sortino_ratio(periodic_returns: &Vec<i128>, risk_free_rate: i128, periods_per_year: u64) -> (r:
    Result<i128, PerfError>)
    requires
        periodic_returns@.len() <= u32::MAX,
        sortino_fits(periodic_returns@, risk_free_rate, periods_per_year),
    ensures
        r == sortino_spec(periodic_returns@, risk_free_rate, periods_per_year),
{
    let n = periodic_returns.len();
    if n < 2 {
        return Err(PerfError::InsufficientData);
    }
    if periods_per_year == 0 {
        return Err(PerfError::DivideByZero);
    }
    let n_fp = n as i128;

    // Mean return
    let mut sum = 0i128;
    let mut i: usize = 0;
    while i < n
        invariant
            n == periodic_returns@.len(),
            n >= 2,
            periods_per_year > 0,
            i <= n,
            checked_sum(periodic_returns@, i as int) == Some(sum),
        decreases n - i,
    {
        let r = periodic_returns[i];
        sum = match sum.checked_add(r) {
            Some(v) => v,
            None => {
                proof {
                    lemma_checked_sum_none(periodic_returns@, (i + 1) as int, n as int);
                }
                return Err(PerfError::Overflow);
            },
        };
        i += 1;
    }
    let mean = sum / n_fp;
    assert(mean == tdiv(sum as int, n as int));

    // Risk-free return per period
    let rf_per_period = fp_div(risk_free_rate, (periods_per_year as i128) * ONE)?;

    // Excess mean
    let excess_mean = mean - rf_per_period;

    // Downside deviation: sqrt(sum of (min(0, excess))^2 / (n-1))
    let mut sum_sq_down = 0i128;
    let mut i: usize = 0;
    while i < n
        invariant
            n == periodic_returns@.len(),
            n >= 2,
            n_fp == n,
            periods_per_year > 0,
            checked_sum(periodic_returns@, n as int) == Some(sum),
            mean == tdiv(sum as int, n as int),
            fp_div_spec(risk_free_rate as int, periods_per_year as int * ONE as int) == Ok::<
                i128,
                PerfError,
            >(rf_per_period),
            i <= n,
            excesses_fit(periodic_returns@, mean as int, rf_per_period as int),
            sq_down_sum(periodic_returns@, rf_per_period as int, i as int) == Ok::<i128, PerfError>(
                sum_sq_down,
            ),
        decreases n - i,
    {
        let r = periodic_returns[i];
        let excess = r - rf_per_period;
        if excess < 0 {
            let sq = match fp_mul(excess, excess) {
                Ok(v) => v,
                Err(e) => {
                    proof {
                        lemma_sq_down_sum_err(
                            periodic_returns@,
                            rf_per_period as int,
                            (i + 1) as int,
                            n as int,
                        );
                    }
                    return Err(e);
                },
            };
            sum_sq_down = match sum_sq_down.checked_add(sq) {
                Some(v) => v,
                None => {
                    proof {
                        lemma_sq_down_sum_err(
                            periodic_returns@,
                            rf_per_period as int,
                            (i + 1) as int,
                            n as int,
                        );
                    }
                    return Err(PerfError::Overflow);
                },
            };
        }
        i += 1;
    }

    // downside_var is on the squared scale; divide by the integer (n-1)
    let downside_var = sum_sq_down / (n_fp - 1);
    let downside_dev = sqrt_of_nonneg(downside_var)?;

    if downside_dev == 0 {
        // No downside risk: the ratio is effectively infinite; report a large
        // value, or 0 if the excess is also not positive.
        if excess_mean <= 0 {
            return Ok(0);
        }
        return Ok(i128::MAX / 2);
    }

    let periods_fp = (periods_per_year as i128) * ONE;
    let sqrt_periods = sqrt_of_nonneg(periods_fp)?;
    let sortino = fp_mul(fp_div(excess_mean, downside_dev)?, sqrt_periods)?;
    Ok(sortino)
}

/// The largest drawdown seen from position `i` on, with the running `peak` and
/// the largest drawdown `max_dd` so far.
pub open spec fn drawdown_from(vs: Seq<i128>, i: int, peak: i128, max_dd: i128) -> Result<
    i128,
    PerfError,
>
    decreases vs.len() - i,
{
    if i >= vs.len() || i < 1 {
        Ok(max_dd)
    } else {
        let p = if vs[i] > peak {
            vs[i]
        } else {
            peak
        };
        if p > 0 {
            match fp_div_spec(p - vs[i], p as int) {
                Err(e) => Err(e),
                Ok(dd) => drawdown_from(
                    vs,
                    i + 1,
                    p,
                    if dd > max_dd {
                        dd
                    } else {
                        max_dd
                    },
                ),
            }
        } else {
            drawdown_from(vs, i + 1, p, max_dd)
        }
    }
}

/// The running maximum of `vs[0..=i]`.
pub open spec fn running_peak(vs: Seq<i128>, i: int) -> i128
    decreases i,
{
    if i <= 0 {
        vs[0]
    } else {
        let p = running_peak(vs, i - 1);
        if vs[i] > p {
            vs[i]
        } else {
            p
        }
    }
}

/// The inputs on which [`max_drawdown`] performs no unchecked subtraction
/// (`peak - value`) that leaves the `i128` range.
pub open spec fn drawdown_fits(vs: Seq<i128>) -> bool {
    forall|i: int|
        1 <= i < vs.len() && running_peak(vs, i) > 0 ==> #[trigger] running_peak(vs, i) - vs[i]
            <= i128::MAX
}

/// Compute the maximum drawdown from a series of portfolio valuations.
///
/// `valuations` holds at least two portfolio values (fixed-point) in
/// chronological order. Returns the largest `(peak - value) / peak` over all
/// points with a positive running peak, as a **positive** fraction, or 0 if
/// the portfolio never declined from a peak.
pub fn max_drawdown(valuations: &Vec<i128>) -> (r: Result<i128, PerfError>)
    requires
        valuations@.len() <= u32::MAX,
        drawdown_fits(valuations@),
    ensures
        valuations@.len() < 2 ==> r == Err::<i128, PerfError>(PerfError::InsufficientData),
        valuations@.len() >= 2 ==> r == drawdown_from(valuations@, 1, valuations@[0], 0),
        r matches Ok(dd) ==> dd >= 0,
{
    let n = valuations.len();
    if n < 2 {
        return Err(PerfError::InsufficientData);
    }

    let mut peak = valuations[0];
    let mut max_dd = 0i128;

    let mut i: usize = 1;
    while i < n
        invariant
            n == valuations@.len(),
            1 <= i <= n,
            drawdown_fits(valuations@),
            peak == running_peak(valuations@, i - 1),
            max_dd >= 0,
            drawdown_from(valuations@, i as int, peak, max_dd) == drawdown_from(
                valuations@,
                1,
                valuations@[0],
                0,
            ),
        decreases n - i,
    {
        let val = valuations[i];
        if val > peak {
            peak = val;
        }
        assert(peak == running_peak(valuations@, i as int));
        if peak > 0 {
            let drawdown = fp_div(peak - val, peak)?;
            if drawdown > max_dd {
                max_dd = drawdown;
            }
        }
        i += 1;
    }
    Ok(max_dd)
}

/// The chained product `product * v[i]/v[i-1] * ...` from position `i` on.
pub open spec fn twr_product(vs: Seq<i128>, i: int, product: i128) -> Result<i128, PerfError>
    decreases vs.len() - i,
{
    if i >= vs.len() || i < 1 {
        Ok(product)
    } else if vs[i - 1] == 0 {
        Err(PerfError::DivideByZero)
    } else {
        match fp_div_spec(vs[i] as int, vs[i - 1] as int) {
            Err(e) => Err(e),
            Ok(ratio) => match fp_mul_spec(product as int, ratio as int) {
                Err(e) => Err(e),
                Ok(p) => twr_product(vs, i + 1, p),
            },
        }
    }
}

/// Compute the time-weighted return from a series of portfolio valuations.
///
/// `TWR = Π(V_i / V_{i-1}) - 1`, chained in fixed point, for at least two
/// valuations in chronological order; a zero valuation before the last one is
/// a division by zero.
pub fn time_weighted_return(valuations: &Vec<i128>) -> (r: Result<i128, PerfError>)
    requires
        valuations@.len() <= u32::MAX,
        twr_product(valuations@, 1, SCALE) matches Ok(p) ==> p >= i128::MIN + SCALE,
    ensures
        valuations@.len() < 2 ==> r == Err::<i128, PerfError>(PerfError::InsufficientData),
        valuations@.len() >= 2 ==> r == (match twr_product(valuations@, 1, SCALE) {
            Err(e) => Err(e),
            Ok(p) => Ok((p - SCALE) as i128),
        }),
{
    let n = valuations.len();
    if n < 2 {
        return Err(PerfError::InsufficientData);
    }

    // Product of (V_i / V_{i-1}), starting at 1.0
    let mut product = SCALE;

    let mut i: usize = 1;
    while i < n
        invariant
            n == valuations@.len(),
            1 <= i <= n,
            twr_product(valuations@, i as int, product) == twr_product(valuations@, 1, SCALE),
        decreases n - i,
    {
        let prev = valuations[i - 1];
        let curr = valuations[i];
        if prev == 0 {
            return Err(PerfError::DivideByZero);
        }
        let ratio = fp_div(curr, prev)?;
        product = fp_mul(product, ratio)?;
        i += 1;
    }

    // TWR = product - 1
    Ok(product - SCALE)
}


/// With a non-negative multiplier and a positive divisor, `fp_mul_div` keeps
/// the order of its first argument.
proof fn lemma_mul_div_monotone(a1: int, a2: int, b: int, d: int)
    requires
        a1 <= a2,
        b >= 0,
        d > 0,
        fp_mul_div_spec(a1, b, d) is Ok,
        fp_mul_div_spec(a2, b, d) is Ok,
    ensures
        fp_mul_div_spec(a1, b, d)->Ok_0 <= fp_mul_div_spec(a2, b, d)->Ok_0,
{
    let q1 = abs(a1) * abs(b) / abs(d);
    let q2 = abs(a2) * abs(b) / abs(d);
    assert(abs(b) == b && abs(d) == d);
    lemma_mul_nonnegative(abs(a1), b);
    lemma_mul_nonnegative(abs(a2), b);
    lemma_div_pos_is_pos(abs(a1) * b, d);
    lemma_div_pos_is_pos(abs(a2) * b, d);
    if a1 >= 0 {
        lemma_mul_inequality(a1, a2, b);
        lemma_div_is_ordered(a1 * b, a2 * b, d);
    } else if a2 < 0 {
        lemma_mul_inequality(-a2, -a1, b);
        lemma_div_is_ordered((-a2) * b, (-a1) * b, d);
    }
}

/// With a non-negative multiplier and a positive divisor, `fp_mul_div` keeps
/// the sign of its first argument.
proof fn lemma_mul_div_sign(a: int, b: int, d: int)
    requires
        b >= 0,
        d > 0,
        fp_mul_div_spec(a, b, d) is Ok,
    ensures
        a <= 0 ==> fp_mul_div_spec(a, b, d)->Ok_0 <= 0,
        a >= 0 ==> fp_mul_div_spec(a, b, d)->Ok_0 >= 0,
{
    assert(abs(0) == 0);
    assert(0 * abs(b) == 0);
    assert(0int / abs(d) == 0);
    assert(fp_mul_div_spec(0, b, d) == Ok::<i128, PerfError>(0));
    if a <= 0 {
        lemma_mul_div_monotone(a, 0, b, d);
    } else {
        lemma_mul_div_monotone(0, a, b, d);
    }
}

/// A fixed-point square root of an `i128` value is never negative.
proof fn lemma_sqrt_nonneg(x: int)
    requires
        x <= i128::MAX,
        fp_sqrt_spec(x) is Ok,
    ensures
        fp_sqrt_spec(x)->Ok_0 >= 0,
{
    assert(x * SCALE >= 0) by (nonlinear_arith)
        requires
            x >= 0,
            SCALE > 0,
    ;
    let root = lemma_isqrt_exists(x * SCALE);
    let c = choose|c: int| #[trigger] is_isqrt(c, x * SCALE);
    lemma_isqrt_unique(root, c, x * SCALE);
    if x > 0 {
        lemma_root_bounds(x, root);
    } else {
        assert(root == 0) by (nonlinear_arith)
            requires
                root >= 0,
                root * root <= 0,
        ;
    }
}

/// The plain sum of `rs[0..i]`.
pub open spec fn returns_total(rs: Seq<i128>, i: int) -> int
    decreases i,
{
    if i <= 0 {
        0
    } else {
        returns_total(rs, i - 1) + rs[i - 1]
    }
}

/// A partial sum that does not overflow is the plain sum.
proof fn lemma_checked_sum_total(rs: Seq<i128>, i: int)
    requires
        0 <= i <= rs.len(),
        checked_sum(rs, i) is Some,
    ensures
        checked_sum(rs, i)->Some_0 == returns_total(rs, i),
    decreases i,
{
    if i > 0 {
        lemma_checked_sum_total(rs, i - 1);
    }
}

/// The truncated mean of a total is on the same side of `p` as the total is
/// of `n * p`.
proof fn lemma_tdiv_side(sum: int, n: int, p: int)
    requires
        n > 0,
    ensures
        sum <= n * p ==> tdiv(sum, n) <= p,
        sum >= n * p ==> tdiv(sum, n) >= p,
{
    lemma_div_multiples_vanish(p, n);
    lemma_div_multiples_vanish(-p, n);
    assert(n * (-p) == -(n * p)) by (nonlinear_arith);
    if sum >= 0 {
        lemma_div_pos_is_pos(sum, n);
        if sum <= n * p {
            lemma_div_is_ordered(sum, n * p, n);
        }
        if sum >= n * p && p > 0 {
            lemma_div_is_ordered(n * p, sum, n);
        }
    } else {
        lemma_div_pos_is_pos(-sum, n);
        if sum <= n * p && p < 0 {
            lemma_div_is_ordered(n * (-p), -sum, n);
        }
        if sum >= n * p {
            lemma_div_is_ordered(-sum, n * (-p), n);
        }
    }
}

/// `tdiv` of an `i128` value by a positive count stays within the `i128` range
/// from above.
proof fn lemma_tdiv_below_max(x: int, n: int)
    requires
        x <= i128::MAX,
        n >= 1,
    ensures
        tdiv(x, n) <= i128::MAX,
{
    if x >= 0 {
        lemma_div_is_ordered_by_denominator(x, 1, n);
    } else {
        lemma_div_pos_is_pos(-x, n);
    }
}

/// `annualized_ratio` has the sign of the excess for a non-negative deviation.
proof fn lemma_annualized_sign(excess: int, dev: int, periods_per_year: u64)
    requires
        dev >= 0,
        annualized_ratio(excess, dev, periods_per_year) is Ok,
    ensures
        excess <= 0 ==> annualized_ratio(excess, dev, periods_per_year)->Ok_0 <= 0,
        excess >= 0 ==> annualized_ratio(excess, dev, periods_per_year)->Ok_0 >= 0,
{
    if dev != 0 {
        let x = periods_per_year as int * ONE as int;
        assert(x <= i128::MAX) by (nonlinear_arith)
            requires
                x == periods_per_year as int * ONE as int,
                periods_per_year <= u64::MAX,
                ONE == 1_000_000_000_000_000_000,
        ;
        lemma_sqrt_nonneg(x);
        let s = fp_sqrt_spec(x)->Ok_0;
        lemma_mul_div_sign(excess, SCALE as int, dev);
        let ratio = fp_div_spec(excess, dev)->Ok_0;
        lemma_mul_div_sign(ratio as int, s as int, SCALE as int);
    }
}

/// `annualized_ratio` keeps the order of the excess for a non-negative
/// deviation.
proof fn lemma_annualized_monotone(e1: int, e2: int, dev: int, periods_per_year: u64)
    requires
        e1 <= e2,
        dev >= 0,
        annualized_ratio(e1, dev, periods_per_year) is Ok,
        annualized_ratio(e2, dev, periods_per_year) is Ok,
    ensures
        annualized_ratio(e1, dev, periods_per_year)->Ok_0 <= annualized_ratio(
            e2,
            dev,
            periods_per_year,
        )->Ok_0,
{
    if dev != 0 {
        let x = periods_per_year as int * ONE as int;
        assert(x <= i128::MAX) by (nonlinear_arith)
            requires
                x == periods_per_year as int * ONE as int,
                periods_per_year <= u64::MAX,
                ONE == 1_000_000_000_000_000_000,
        ;
        lemma_sqrt_nonneg(x);
        let s = fp_sqrt_spec(x)->Ok_0;
        lemma_mul_div_monotone(e1, e2, SCALE as int, dev);
        let r1 = fp_div_spec(e1, dev)->Ok_0;
        let r2 = fp_div_spec(e2, dev)->Ok_0;
        lemma_mul_div_monotone(r1 as int, r2 as int, s as int, SCALE as int);
    }
}

/// The Sharpe ratio has the sign of the excess return: when the returns total
/// at most (at least) their count times the per-period risk-free rate
/// `risk_free_rate / periods_per_year`, the ratio is at most (at least) zero.
pub proof fn lemma_sharpe_sign(rs: Seq<i128>, risk_free_rate: i128, periods_per_year: u64)
    requires
        sharpe_spec(rs, risk_free_rate, periods_per_year) is Ok,
    ensures
        returns_total(rs, rs.len() as int) <= rs.len() * fp_div_spec(
            risk_free_rate as int,
            periods_per_year as int * ONE as int,
        )->Ok_0 ==> sharpe_spec(rs, risk_free_rate, periods_per_year)->Ok_0 <= 0,
        returns_total(rs, rs.len() as int) >= rs.len() * fp_div_spec(
            risk_free_rate as int,
            periods_per_year as int * ONE as int,
        )->Ok_0 ==> sharpe_spec(rs, risk_free_rate, periods_per_year)->Ok_0 >= 0,
{
    let n = rs.len() as int;
    lemma_checked_sum_total(rs, n);
    let sum = checked_sum(rs, n)->Some_0;
    let mean = tdiv(sum as int, n);
    let rf = fp_div_spec(risk_free_rate as int, periods_per_year as int * ONE as int)->Ok_0;
    lemma_tdiv_side(sum as int, n, rf as int);
    let ssd = sq_dev_sum(rs, mean, n)->Ok_0;
    lemma_tdiv_below_max(ssd as int, n - 1);
    lemma_sqrt_nonneg(tdiv(ssd as int, n - 1));
    let stddev = fp_sqrt_spec(tdiv(ssd as int, n - 1))->Ok_0;
    lemma_annualized_sign(mean - rf, stddev as int, periods_per_year);
}

/// A higher risk-free rate never gives a larger Sharpe ratio on the same
/// returns.
pub proof fn lemma_sharpe_risk_free_monotone(
    rs: Seq<i128>,
    rf1: i128,
    rf2: i128,
    periods_per_year: u64,
)
    requires
        rf1 <= rf2,
        sharpe_spec(rs, rf1, periods_per_year) is Ok,
        sharpe_spec(rs, rf2, periods_per_year) is Ok,
    ensures
        sharpe_spec(rs, rf2, periods_per_year)->Ok_0 <= sharpe_spec(rs, rf1, periods_per_year)->Ok_0,
{
    let n = rs.len() as int;
    let sum = checked_sum(rs, n)->Some_0;
    let mean = tdiv(sum as int, n);
    let periods = periods_per_year as int * ONE as int;
    assert(periods > 0) by (nonlinear_arith)
        requires
            periods == periods_per_year as int * ONE as int,
            periods_per_year > 0,
            ONE > 0,
    ;
    lemma_mul_div_monotone(rf1 as int, rf2 as int, SCALE as int, periods);
    let p1 = fp_div_spec(rf1 as int, periods)->Ok_0;
    let p2 = fp_div_spec(rf2 as int, periods)->Ok_0;
    let ssd = sq_dev_sum(rs, mean, n)->Ok_0;
    lemma_tdiv_below_max(ssd as int, n - 1);
    lemma_sqrt_nonneg(tdiv(ssd as int, n - 1));
    let stddev = fp_sqrt_spec(tdiv(ssd as int, n - 1))->Ok_0;
    lemma_annualized_monotone(mean - p2, mean - p1, stddev as int, periods_per_year);
}

/// The Sortino ratio has the sign of the excess return: when the returns
/// total at most (at least) their count times the per-period risk-free rate
/// `risk_free_rate / periods_per_year`, the ratio is at most (at least) zero.
pub proof fn lemma_sortino_sign(rs: Seq<i128>, risk_free_rate: i128, periods_per_year: u64)
    requires
        sortino_spec(rs, risk_free_rate, periods_per_year) is Ok,
    ensures
        returns_total(rs, rs.len() as int) <= rs.len() * fp_div_spec(
            risk_free_rate as int,
            periods_per_year as int * ONE as int,
        )->Ok_0 ==> sortino_spec(rs, risk_free_rate, periods_per_year)->Ok_0 <= 0,
        returns_total(rs, rs.len() as int) >= rs.len() * fp_div_spec(
            risk_free_rate as int,
            periods_per_year as int * ONE as int,
        )->Ok_0 ==> sortino_spec(rs, risk_free_rate, periods_per_year)->Ok_0 >= 0,
{
    let n = rs.len() as int;
    lemma_checked_sum_total(rs, n);
    let sum = checked_sum(rs, n)->Some_0;
    let mean = tdiv(sum as int, n);
    let rf = fp_div_spec(risk_free_rate as int, periods_per_year as int * ONE as int)->Ok_0;
    lemma_tdiv_side(sum as int, n, rf as int);
    let ssd = sq_down_sum(rs, rf as int, n)->Ok_0;
    lemma_tdiv_below_max(ssd as int, n - 1);
    lemma_sqrt_nonneg(tdiv(ssd as int, n - 1));
    let dd = fp_sqrt_spec(tdiv(ssd as int, n - 1))->Ok_0;
    if dd != 0 {
        lemma_annualized_sign(mean - rf, dd as int, periods_per_year);
    }
}


/// The running peak bounds every earlier value and is one of them.
proof fn lemma_running_peak_is_max(vs: Seq<i128>, j: int) -> (w: int)
    requires
        0 <= j < vs.len(),
    ensures
        0 <= w <= j,
        vs[w] == running_peak(vs, j),
        forall|k: int| 0 <= k <= j ==> vs[k] <= running_peak(vs, j),
    decreases j,
{
    if j == 0 {
        0
    } else {
        let w0 = lemma_running_peak_is_max(vs, j - 1);
        if vs[j] > running_peak(vs, j - 1) {
            j
        } else {
            w0
        }
    }
}

/// From position `i` on, the drawdown is at least the fall from the running
/// peak at each later point and at least `max_dd`, and it is `max_dd` or one
/// of those falls.
proof fn lemma_drawdown_from_bounds(vs: Seq<i128>, i: int, peak: i128, max_dd: i128)
    requires
        1 <= i <= vs.len(),
        peak == running_peak(vs, i - 1),
        drawdown_from(vs, i, peak, max_dd) is Ok,
    ensures
        drawdown_from(vs, i, peak, max_dd)->Ok_0 >= max_dd,
        forall|j: int|
            i <= j < vs.len() && running_peak(vs, j) > 0 ==> (fp_div_spec(
                running_peak(vs, j) - vs[j],
                #[trigger] running_peak(vs, j) as int,
            ) matches Ok(x) && x <= drawdown_from(vs, i, peak, max_dd)->Ok_0),
        drawdown_from(vs, i, peak, max_dd)->Ok_0 == max_dd || exists|j: int|
            i <= j < vs.len() && running_peak(vs, j) > 0 && fp_div_spec(
                running_peak(vs, j) - vs[j],
                #[trigger] running_peak(vs, j) as int,
            ) == Ok::<i128, PerfError>(drawdown_from(vs, i, peak, max_dd)->Ok_0),
    decreases vs.len() - i,
{
    if i < vs.len() {
        let p = running_peak(vs, i);
        let dd = drawdown_from(vs, i, peak, max_dd)->Ok_0;
        if p > 0 {
            let d = fp_div_spec(p - vs[i], p as int)->Ok_0;
            let m = if d > max_dd {
                d
            } else {
                max_dd
            };
            lemma_drawdown_from_bounds(vs, i + 1, p, m);
            assert(fp_div_spec(running_peak(vs, i) - vs[i], running_peak(vs, i) as int) == Ok::<
                i128,
                PerfError,
            >(d));
        } else {
            lemma_drawdown_from_bounds(vs, i + 1, p, max_dd);
        }
    }
}

/// For a peak `p` at or above an earlier value `v > 0`, the fall from `v` to a
/// non-negative `x` is at most the fall from `p` to `x`.
proof fn lemma_fall_from_higher_peak(v: int, p: int, x: int)
    requires
        0 < v <= p,
        0 <= x <= v,
        fp_div_spec(v - x, v) is Ok,
        fp_div_spec(p - x, p) is Ok,
    ensures
        fp_div_spec(v - x, v)->Ok_0 <= fp_div_spec(p - x, p)->Ok_0,
{
    let s = SCALE as int;
    assert(abs(v - x) == v - x && abs(p - x) == p - x && abs(s) == s && abs(v) == v && abs(p)
        == p);
    let a = (v - x) * s;
    let b = (p - x) * s;
    let q1 = a / v;
    lemma_fundamental_div_mod(a, v);
    lemma_mod_pos_bound(a, v);
    assert(q1 * p <= b) by (nonlinear_arith)
        requires
            a == (v - x) * s,
            b == (p - x) * s,
            a == v * q1 + a % v,
            a % v >= 0,
            0 < v <= p,
            0 <= x,
            s > 0,
    ;
    lemma_div_is_ordered(q1 * p, b, p);
    lemma_div_multiples_vanish(q1, p);
    lemma_mul_is_commutative(q1, p);
    lemma_mul_nonnegative(v - x, s);
    lemma_mul_nonnegative(p - x, s);
}

/// The maximum drawdown is the largest fall from a running peak: it is never
/// negative; at every point whose running peak is positive, the fall
/// `(peak - value) / peak` is at most the result; for any earlier value
/// `vs[i] > 0` and later value `vs[j] >= 0`, so is the fall `(vs[i] - vs[j]) /
/// vs[i]`; and a non-zero result is the fall from some value that is the
/// largest up to a later point, to that point.
pub proof fn lemma_max_drawdown_is_largest_fall(vs: Seq<i128>)
    requires
        vs.len() >= 2,
        drawdown_from(vs, 1, vs[0], 0) is Ok,
    ensures
        drawdown_from(vs, 1, vs[0], 0)->Ok_0 >= 0,
        forall|j: int|
            1 <= j < vs.len() && running_peak(vs, j) > 0 ==> (fp_div_spec(
                running_peak(vs, j) - vs[j],
                #[trigger] running_peak(vs, j) as int,
            ) matches Ok(x) && x <= drawdown_from(vs, 1, vs[0], 0)->Ok_0),
        forall|i: int, j: int|
            0 <= i < j < vs.len() && vs[i] > 0 && vs[j] >= 0 && (fp_div_spec(
                vs[i] - vs[j],
                vs[i] as int,
            ) matches Ok(x)) ==> fp_div_spec(#[trigger] vs[i] - #[trigger] vs[j], vs[i] as int)->Ok_0
                <= drawdown_from(vs, 1, vs[0], 0)->Ok_0,
        drawdown_from(vs, 1, vs[0], 0)->Ok_0 == 0 || exists|i: int, j: int|
            0 <= i <= j < vs.len() && 1 <= j && vs[i] > 0 && (forall|k: int|
                0 <= k <= j ==> vs[k] <= vs[i]) && fp_div_spec(
                #[trigger] vs[i] - #[trigger] vs[j],
                vs[i] as int,
            ) == Ok::<i128, PerfError>(drawdown_from(vs, 1, vs[0], 0)->Ok_0),
{
    let dd = drawdown_from(vs, 1, vs[0], 0)->Ok_0;
    lemma_drawdown_from_bounds(vs, 1, vs[0], 0);
    assert forall|i: int, j: int|
        0 <= i < j < vs.len() && vs[i] > 0 && vs[j] >= 0 && (fp_div_spec(
            vs[i] - vs[j],
            vs[i] as int,
        ) matches Ok(x)) implies fp_div_spec(#[trigger] vs[i] - #[trigger] vs[j], vs[i] as int)->Ok_0
        <= dd by {
        let w = lemma_running_peak_is_max(vs, j);
        let p = running_peak(vs, j);
        assert(vs[i] <= p);
        if vs[j] <= vs[i] {
            lemma_fall_from_higher_peak(vs[i] as int, p as int, vs[j] as int);
        } else {
            lemma_mul_div_sign(vs[i] - vs[j], SCALE as int, vs[i] as int);
        }
    }
    if dd != 0 {
        let j = choose|j: int|
            1 <= j < vs.len() && running_peak(vs, j) > 0 && fp_div_spec(
                running_peak(vs, j) - vs[j],
                #[trigger] running_peak(vs, j) as int,
            ) == Ok::<i128, PerfError>(dd);
        let w = lemma_running_peak_is_max(vs, j);
        assert(fp_div_spec(vs[w] - vs[j], vs[w] as int) == Ok::<i128, PerfError>(dd));
    }
}


/// The chained product over `vs.push(x)` continues the one over `vs` by the
/// last period's ratio.
proof fn lemma_twr_product_push(vs: Seq<i128>, x: i128, i: int, product: i128)
    requires
        1 <= i <= vs.len(),
    ensures
        twr_product(vs.push(x), i, product) == (match twr_product(vs, i, product) {
            Err(e) => Err(e),
            Ok(p) => if vs.last() == 0 {
                Err(PerfError::DivideByZero)
            } else {
                match fp_div_spec(x as int, vs.last() as int) {
                    Err(e) => Err(e),
                    Ok(ratio) => fp_mul_spec(p as int, ratio as int),
                }
            },
        }),
    decreases vs.len() - i,
{
    let ws = vs.push(x);
    assert(ws[i - 1] == vs[i - 1]);
    if i < vs.len() {
        assert(ws[i] == vs[i]);
        if vs[i - 1] != 0 {
            if let Ok(ratio) = fp_div_spec(vs[i] as int, vs[i - 1] as int) {
                if let Ok(p) = fp_mul_spec(product as int, ratio as int) {
                    lemma_twr_product_push(vs, x, i + 1, p);
                }
            }
        }
    } else {
        assert(ws[i] == x);
        if vs.last() != 0 {
            if let Ok(ratio) = fp_div_spec(x as int, vs.last() as int) {
                if let Ok(p) = fp_mul_spec(product as int, ratio as int) {
                    assert(twr_product(ws, i + 1, p) == Ok::<i128, PerfError>(p));
                }
            }
        }
    }
}

/// Multiplying by one whole unit in fixed point changes nothing.
proof fn lemma_fp_mul_by_one(r: i128)
    requires
        r > i128::MIN,
    ensures
        fp_mul_spec(SCALE as int, r as int) == Ok::<i128, PerfError>(r),
{
    assert(abs(SCALE as int) == SCALE);
    assert((SCALE as int) * abs(r as int) / (SCALE as int) == abs(r as int)) by (nonlinear_arith)
        requires
            SCALE > 0,
    ;
}

/// Time-weighted returns chain: appending a valuation `x` to a series `vs`
/// multiplies its growth factor (the return plus one) by the new period's
/// ratio `x / vs.last()`, both in fixed point; a zero last valuation is a
/// division by zero. The growth factor of two valuations `a`, `b` is their
/// ratio `b / a`.
pub proof fn lemma_twr_appends_period(vs: Seq<i128>, x: i128)
    requires
        vs.len() >= 1,
    ensures
        twr_product(vs.push(x), 1, SCALE) == (match twr_product(vs, 1, SCALE) {
            Err(e) => Err(e),
            Ok(p) => if vs.last() == 0 {
                Err(PerfError::DivideByZero)
            } else {
                match fp_div_spec(x as int, vs.last() as int) {
                    Err(e) => Err(e),
                    Ok(ratio) => fp_mul_spec(p as int, ratio as int),
                }
            },
        }),
        vs.len() == 1 ==> twr_product(vs.push(x), 1, SCALE) == (if vs[0] == 0 {
            Err(PerfError::DivideByZero)
        } else {
            fp_div_spec(x as int, vs[0] as int)
        }),
{
    lemma_twr_product_push(vs, x, 1, SCALE);
    if vs.len() == 1 && vs[0] != 0 {
        if let Ok(ratio) = fp_div_spec(x as int, vs[0] as int) {
            lemma_fp_mul_by_one(ratio);
        }
    }
}

} // verus!
