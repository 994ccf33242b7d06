//! APY / APR conversion utilities.
//!
//! **APR** is the simple annualized rate, ignoring compounding; **APY** is the
//! effective annual return once compounding is taken into account.
//!
//! - **Daily:** `APY = (1 + r/365)^365 - 1`, and inversely
//!   `APR = 365 * ((1 + APY)^(1/365) - 1)`.
//! - **Continuous:** `APY = e^r - 1`, and inversely `APR = ln(1 + APY)`.
//!
//! All values are fixed-point fractions (e.g. `0.05 * SCALE` is 5%).

use crate::staking::compounding::{
    checked_add_spec, checked_sub_spec, growth_spec, lemma_growth_at_least_one, yield_spec,
    Compounding, CompoundingStrategy,
};
use crate::staking::fixed_point::{
    self as fp, div_spec, exp_spec, lemma_exp_one_bounds, mul_div_spec, mul_spec, tdiv, MathError,
    ONE, SCALE, SECONDS_PER_YEAR,
};
use crate::wide::abs;
use vstd::prelude::*;

verus! {

/// Converts between APR and APY for a given compounding model.
pub struct APYCalculator;

/// The effective APY of `apr`: the one-year growth factor minus one.
pub open spec fn apr_to_apy_spec(apr: i128, compounding: Compounding) -> Result<i128, MathError> {
    match growth_spec(compounding, apr, SECONDS_PER_YEAR) {
        Err(e) => Err(e),
        Ok(factor) => checked_sub_spec(factor as int, ONE as int),
    }
}

/// The nominal APR of `apy`: `ln(1 + APY)` for continuous compounding, and
/// `365 * ((1 + APY)^(1/365) - 1)` for daily compounding.
pub open spec fn apy_to_apr_spec(apy: i128, compounding: Compounding) -> Result<i128, MathError> {
    match checked_add_spec(ONE as int, apy as int) {
        Err(e) => Err(e),
        Ok(one_plus) => match compounding {
            Compounding::Continuous => ln_spec(one_plus),
            Compounding::Daily => match nth_root_spec(one_plus, 365) {
                Err(e) => Err(e),
                Ok(root) => match checked_sub_spec(root as int, ONE as int) {
                    Err(e) => Err(e),
                    Ok(periodic) => mul_spec(periodic as int, 365 * ONE as int),
                },
            },
        },
    }
}

impl APYCalculator {
    /// Convert a nominal `apr` into the effective APY under `compounding`.
    ///
    /// This is exactly the one-year growth factor minus one, so it stays
    /// consistent with [`crate::staking::compounding::YieldCalculator`].
    pub fn apr_to_apy(apr: i128, compounding: Compounding) -> (r: Result<i128, MathError>)
        ensures
            r == apr_to_apy_spec(apr, compounding),
            apr == 0 ==> r == Ok::<i128, MathError>(0),
    {
        let factor = compounding.growth_factor(apr, SECONDS_PER_YEAR)?;
        factor.checked_sub(ONE).ok_or(MathError::Overflow)
    }

    /// Convert an effective `apy` back into the nominal APR under `compounding`.
    ///
    /// - Continuous: `APR = ln(1 + APY)`.
    /// - Daily: `APR = 365 * ((1 + APY)^(1/365) - 1)`, via the 365th root.
    pub fn apy_to_apr(apy: i128, compounding: Compounding) -> (r: Result<i128, MathError>)
        ensures
            r == apy_to_apr_spec(apy, compounding),
            apy == 0 ==> r == Ok::<i128, MathError>(0),
    {
        proof {
            assert(abs(0) == 0);
            assert(abs(365 * ONE as int) == 365 * ONE as int);
            assert(0 * (365 * ONE as int) == 0) by (nonlinear_arith);
            assert(mul_spec(0, 365 * ONE as int) == Ok::<i128, MathError>(0));
        }
        let one_plus = ONE.checked_add(apy).ok_or(MathError::Overflow)?;
        match compounding {
            Compounding::Continuous => ln(one_plus),
            Compounding::Daily => {
                // periodic rate = (1 + APY)^(1/365) - 1; APR = 365 * periodic.
                let root = nth_root(one_plus, 365)?;
                let periodic = root.checked_sub(ONE).ok_or(MathError::Overflow)?;
                fp::mul(periodic, 365 * ONE)
            },
        }
    }
}

/// The APY is the one-year yield on one whole unit (`SCALE`): both fail
/// together, and agree whenever the APY is above `i128::MIN` (a growth
/// factor exactly `i128::MIN` below one, where only the yield overflows);
/// at a non-negative rate they are always equal, and a zero rate gives zero.
pub proof fn lemma_apy_is_one_year_yield(apr: i128, c: Compounding)
    ensures
        apr_to_apy_spec(apr, c) is Err ==> yield_spec(c, SCALE, apr, SECONDS_PER_YEAR)
            == apr_to_apy_spec(apr, c),
        apr_to_apy_spec(apr, c) matches Ok(v) && v > i128::MIN ==> yield_spec(
            c,
            SCALE,
            apr,
            SECONDS_PER_YEAR,
        ) == apr_to_apy_spec(apr, c),
        apr >= 0 ==> yield_spec(c, SCALE, apr, SECONDS_PER_YEAR) == apr_to_apy_spec(apr, c),
        apr_to_apy_spec(0, c) == Ok::<i128, MathError>(0),
{
    if apr >= 0 {
        lemma_growth_at_least_one(c, apr, SECONDS_PER_YEAR);
    }
    if let Ok(f) = growth_spec(c, apr, SECONDS_PER_YEAR) {
        let g = f as int - ONE as int;
        assert(abs(SCALE as int) == SCALE);
        assert((SCALE as int) * abs(g) / (SCALE as int) == abs(g)) by (nonlinear_arith)
            requires
                SCALE > 0,
        ;
    }
}

/// Divide `val` by `e` (multiply by `inv_e`) while it exceeds `e`, counting the
/// steps in `k`. Each step strictly shrinks `val` for the library's constant
/// `e`; a step that would not is reported as an overflow.
pub open spec fn reduce_above(val: i128, k: int, e: i128, inv_e: i128) -> Result<(i128, int), MathError>
    decreases val,
{
    if val > e {
        match mul_spec(val as int, inv_e as int) {
            Err(err) => Err(err),
            Ok(v2) => if 0 <= v2 < val {
                reduce_above(v2, k + 1, e, inv_e)
            } else {
                Err(MathError::Overflow)
            },
        }
    } else {
        Ok((val, k))
    }
}

/// How far `val` still is below `inv_e`.
pub open spec fn gap_below(val: i128, inv_e: i128) -> int {
    if val < inv_e {
        inv_e - val
    } else {
        0
    }
}

/// Multiply `val` by `e` while it is below `1/e`, counting the steps down in
/// `k`. Each step strictly grows `val` for the library's constant `e`; a step
/// that would not is reported as an overflow.
pub open spec fn reduce_below(val: i128, k: int, e: i128, inv_e: i128) -> Result<(i128, int), MathError>
    decreases gap_below(val, inv_e),
{
    if val < inv_e {
        match mul_spec(val as int, e as int) {
            Err(err) => Err(err),
            Ok(v2) => if val < v2 {
                reduce_below(v2, k - 1, e, inv_e)
            } else {
                Err(MathError::Overflow)
            },
        }
    } else {
        Ok((val, k))
    }
}

/// The series `sum + y^(2n+1)/(2n+1) + ...` for `atanh`, continued from step
/// `n` (at most thirty steps, stopping once an added term rounds to zero).
pub open spec fn atanh_series(term: i128, sum: i128, y2: i128, n: int) -> Result<i128, MathError>
    decreases 31 - n,
{
    if n > 30 || n < 1 {
        Ok(sum)
    } else {
        match mul_spec(term as int, y2 as int) {
            Err(err) => Err(err),
            Ok(t) => {
                let add = tdiv(t as int, 2 * n + 1);
                match checked_add_spec(sum as int, add) {
                    Err(err) => Err(err),
                    Ok(s) => if add == 0 {
                        Ok(s)
                    } else {
                        atanh_series(t, s, y2, n + 1)
                    },
                }
            },
        }
    }
}

/// `k + 2 * atanh((v - 1) / (v + 1))` for the reduced value `v`.
pub open spec fn ln_reduced_spec(v: i128, k: int) -> Result<i128, MathError> {
    match checked_sub_spec(v as int, ONE as int) {
        Err(err) => Err(err),
        Ok(num) => match checked_add_spec(v as int, ONE as int) {
            Err(err) => Err(err),
            Ok(den) => match div_spec(num as int, den as int) {
                Err(err) => Err(err),
                Ok(y) => match mul_spec(y as int, y as int) {
                    Err(err) => Err(err),
                    Ok(y2) => ln_combine(atanh_series(y, y, y2, 1), k),
                },
            },
        },
    }
}

/// `k + 2 * sum` from the `atanh` series result, passing an error through.
pub open spec fn ln_combine(series: Result<i128, MathError>, k: int) -> Result<i128, MathError> {
    match series {
        Err(err) => Err(err),
        Ok(sum) => match mul_spec(2 * ONE as int, sum as int) {
            Err(err) => Err(err),
            Ok(lr) => if k * ONE > i128::MAX || k * ONE < i128::MIN {
                Err(MathError::Overflow)
            } else {
                checked_add_spec(k * ONE, lr as int)
            },
        },
    }
}

/// The natural logarithm as [`ln`] computes it: range reduction by powers of
/// the computed constant `e`, then the `atanh` series.
pub open spec fn ln_spec(x: i128) -> Result<i128, MathError> {
    if x <= 0 {
        Err(MathError::NegativeInput)
    } else if x == ONE {
        Ok(0)
    } else {
        match exp_spec(ONE) {
            Err(err) => Err(err),
            Ok(e) => match div_spec(ONE as int, e as int) {
                Err(err) => Err(err),
                Ok(inv_e) => match reduce_above(x, 0, e, inv_e) {
                    Err(err) => Err(err),
                    Ok(a) => match reduce_below(a.0, a.1, e, inv_e) {
                        Err(err) => Err(err),
                        Ok(b) => ln_reduced_spec(b.0, b.1),
                    },
                },
            },
        }
    }
}

/// Natural logarithm of a fixed-point value `x > 0`.
///
/// Uses `ln(x) = 2 * atanh((x-1)/(x+1))` with the series
/// `atanh(y) = y + y^3/3 + y^5/5 + ...`, after range reduction by factors of
/// `e` that brings the argument into `[1/e, e]`.
pub fn ln(x: i128) -> (r: Result<i128, MathError>)
    ensures
        r == ln_spec(x),
        x <= 0 ==> r == Err::<i128, MathError>(MathError::NegativeInput),
        x == ONE ==> r == Ok::<i128, MathError>(0),
{
    if x <= 0 {
        return Err(MathError::NegativeInput);
    }
    if x == ONE {
        return Ok(0);
    }
    proof {
        lemma_exp_one_bounds();
    }
    // Range-reduce toward 1 by dividing/multiplying by e and counting.
    let e = fp::exp(ONE)?;
    let inv_e = fp::div(ONE, e)?;
    proof {
        lemma_inverse_e_bounds(e);
    }
    let mut val = x;
    let mut k: i128 = 0;
    // Bring val into [1/e, e] roughly, so the atanh series converges fast.
    while val > e
        invariant
            0 < x,
            x != ONE,
            exp_spec(ONE) == Ok::<i128, MathError>(e),
            div_spec(ONE as int, e as int) == Ok::<i128, MathError>(inv_e),
            2 * ONE <= e <= 4 * ONE,
            ONE / 4 <= inv_e <= ONE / 2,
            1 <= val <= x,
            0 <= k <= x - val,
            reduce_above(val, k as int, e, inv_e) == reduce_above(x, 0, e, inv_e),
        decreases val,
    {
        proof {
            lemma_shrink_by_inverse(val, inv_e, e);
        }
        val = fp::mul(val, inv_e)?;
        k += 1;
    }
    let ghost above = reduce_above(x, 0, e, inv_e);
    assert(above == Ok::<(i128, int), MathError>((val, k as int)));
    let ghost before_series = ln_spec(x);
    while val < inv_e
        invariant
            0 < x,
            x != ONE,
            exp_spec(ONE) == Ok::<i128, MathError>(e),
            div_spec(ONE as int, e as int) == Ok::<i128, MathError>(inv_e),
            above == reduce_above(x, 0, e, inv_e),
            above matches Ok(a),
            2 * ONE <= e <= 4 * ONE,
            ONE / 4 <= inv_e <= ONE / 2,
            1 <= val,
            -(val as int) <= k <= x,
            reduce_below(val, k as int, e, inv_e) == reduce_below(above->Ok_0.0, above->Ok_0.1, e, inv_e),
        decreases gap_below(val, inv_e),
    {
        proof {
            lemma_grow_by_e(val, inv_e, e);
        }
        val = fp::mul(val, e)?;
        k -= 1;
    }

    assert(ln_spec(x) == ln_reduced_spec(val, k as int));
    // y = (val - 1) / (val + 1)
    let num = val.checked_sub(ONE).ok_or(MathError::Overflow)?;
    let den = val.checked_add(ONE).ok_or(MathError::Overflow)?;
    let y = fp::div(num, den)?;
    let y2 = fp::mul(y, y)?;

    // atanh series: sum of y^(2n+1)/(2n+1)
    let mut term = y;
    let mut sum = y;
    let mut n: i128 = 1;
    while n <= 30
        invariant_except_break
            1 <= n <= 31,
            atanh_series(term, sum, y2, n as int) == atanh_series(y, y, y2, 1),
        invariant
            0 < x,
            ln_spec(x) == ln_combine(atanh_series(y, y, y2, 1), k as int),
        ensures
            atanh_series(y, y, y2, 1) == Ok::<i128, MathError>(sum),
        decreases 31 - n,
    {
        term = fp::mul(term, y2)?;
        let add = term / (2 * n + 1);
        sum = sum.checked_add(add).ok_or(MathError::Overflow)?;
        if add == 0 {
            break;
        }
        n += 1;
    }
    let ln_reduced = fp::mul(2 * ONE, sum)?;

    // ln(x) = k + ln_reduced (since each reduction step multiplied by e^±1).
    (k.checked_mul(ONE).ok_or(MathError::Overflow)?).checked_add(ln_reduced).ok_or(
        MathError::Overflow,
    )
}

/// `1/e` computed from the library's `e` lies between a quarter and a half.
proof fn lemma_inverse_e_bounds(e: i128)
    requires
        2 * ONE <= e <= 4 * ONE,
    ensures
        div_spec(ONE as int, e as int) matches Ok(inv_e) && ONE / 4 <= inv_e <= ONE / 2,
{
    let q = (SCALE as int) * (SCALE as int) / (e as int);
    assert(SCALE / 4 <= q <= SCALE / 2) by (nonlinear_arith)
        requires
            q == (SCALE as int) * (SCALE as int) / (e as int),
            2 * SCALE <= e <= 4 * SCALE,
            SCALE == 1_000_000_000_000_000_000,
    ;
}

/// Multiplying a value above `e` by `1/e` shrinks it but keeps it positive.
proof fn lemma_shrink_by_inverse(val: i128, inv_e: i128, e: i128)
    requires
        2 * ONE <= e <= 4 * ONE,
        ONE / 4 <= inv_e <= ONE / 2,
        val > e,
    ensures
        mul_spec(val as int, inv_e as int) matches Ok(v2) && 1 <= v2 < val,
{
    let q = (val as int) * (inv_e as int) / (SCALE as int);
    assert(1 <= q < val) by (nonlinear_arith)
        requires
            q == (val as int) * (inv_e as int) / (SCALE as int),
            SCALE / 4 <= inv_e <= SCALE / 2,
            val > 2 * SCALE,
            SCALE == 1_000_000_000_000_000_000,
    ;
}

/// Multiplying a positive value below `1/e` by `e` grows it without overflow.
proof fn lemma_grow_by_e(val: i128, inv_e: i128, e: i128)
    requires
        2 * ONE <= e <= 4 * ONE,
        ONE / 4 <= inv_e <= ONE / 2,
        1 <= val < inv_e,
    ensures
        mul_spec(val as int, e as int) matches Ok(v2) && val < v2 <= 2 * ONE,
{
    let q = (val as int) * (e as int) / (SCALE as int);
    assert(val < q <= 2 * SCALE) by (nonlinear_arith)
        requires
            q == (val as int) * (e as int) / (SCALE as int),
            2 * SCALE <= e <= 4 * SCALE,
            1 <= val < SCALE / 2,
            SCALE == 1_000_000_000_000_000_000,
    ;
}

/// `e^y` for any exponent: directly for `y >= 0`, and as `1 / e^(-y)` for a
/// negative `y`.
pub open spec fn exp_signed_spec(y: int) -> Result<i128, MathError> {
    if y >= 0 {
        exp_spec(y as i128)
    } else {
        match exp_spec((-y) as i128) {
            Err(err) => Err(err),
            Ok(g) => div_spec(ONE as int, g as int),
        }
    }
}

/// The `n`-th root as [`nth_root`] computes it: `exp(ln(x) / n)`, the
/// exponential of a negative exponent (for `x < ONE`) taken as a
/// reciprocal.
pub open spec fn nth_root_spec(x: i128, n: u64) -> Result<i128, MathError> {
    if n == 0 {
        Err(MathError::DivideByZero)
    } else if n == 1 || x == ONE {
        Ok(x)
    } else if x <= 0 {
        Err(MathError::NegativeInput)
    } else {
        match ln_spec(x) {
            Err(err) => Err(err),
            Ok(l) => exp_signed_spec(tdiv(l as int, n as int)),
        }
    }
}

/// The `n`-th root of a fixed-point value `x > 0` for `n >= 1`.
///
/// Computed as `exp(ln(x) / n)`; for `x < ONE` the exponent is negative and
/// the root is `1 / exp(-ln(x) / n)`. `n == 1` and `x == ONE` return `x`
/// directly; `x <= 0` (other than those) is a `NegativeInput`.
pub fn nth_root(x: i128, n: u64) -> (r: Result<i128, MathError>)
    ensures
        r == nth_root_spec(x, n),
        n == 0 ==> r == Err::<i128, MathError>(MathError::DivideByZero),
        n >= 1 && (n == 1 || x == ONE) ==> r == Ok::<i128, MathError>(x),
{
    if n == 0 {
        return Err(MathError::DivideByZero);
    }
    if n == 1 || x == ONE {
        return Ok(x);
    }
    if x <= 0 {
        return Err(MathError::NegativeInput);
    }
    let l = ln(x)?;
    let scaled = l / (n as i128);
    if scaled >= 0 {
        fp::exp(scaled)
    } else {
        // n >= 2, so |scaled| <= |l| / 2 and the negation fits.
        proof {
            let m = -(l as int);
            assert(m <= 0x8000_0000_0000_0000_0000_0000_0000_0000);
            assert(m / (n as int) <= m / 2) by (nonlinear_arith)
                requires
                    m >= 0,
                    n >= 2,
            ;
        }
        let grown = fp::exp(-scaled)?;
        fp::div(ONE, grown)
    }
}

/// `1/e` in fixed point is exactly `SCALE^2 / e` rounded down.
proof fn lemma_inverse_e_exact(e: i128)
    requires
        2 * ONE <= e <= 4 * ONE,
    ensures
        div_spec(ONE as int, e as int) == Ok::<i128, MathError>(
            ((SCALE as int) * (SCALE as int) / (e as int)) as i128,
        ),
{
    assert(abs(SCALE as int) == SCALE);
    assert(abs(e as int) == e);
    lemma_inverse_e_bounds(e);
}

/// A fixed-point product's sign follows its factors'.
proof fn lemma_mul_sign(a: int, b: int)
    ensures
        mul_spec(a, b) matches Ok(v) ==> ((a >= 0 && b >= 0 ==> v >= 0) && (a <= 0 && b >= 0
            ==> v <= 0) && (a == b ==> v >= 0)),
{
    assert(abs(SCALE as int) == SCALE);
    let q = abs(a) * abs(b) / (SCALE as int);
    assert(q >= 0) by (nonlinear_arith)
        requires
            q == abs(a) * abs(b) / (SCALE as int),
            abs(a) >= 0,
            abs(b) >= 0,
            SCALE > 0,
    ;
    assert(a == 0 || b == 0 ==> q == 0) by (nonlinear_arith)
        requires
            q == abs(a) * abs(b) / (SCALE as int),
            a == 0 ==> abs(a) == 0,
            b == 0 ==> abs(b) == 0,
            SCALE > 0,
    ;
}

/// A fixed-point quotient by a positive value has the sign of the numerator.
proof fn lemma_div_sign(num: int, den: int)
    requires
        den > 0,
    ensures
        div_spec(num, den) matches Ok(y) ==> ((num >= 0 ==> y >= 0) && (num <= 0 ==> y <= 0)),
{
    assert(abs(SCALE as int) == SCALE);
    assert(abs(den) == den);
    assert(abs(num) * (SCALE as int) / den >= 0) by (nonlinear_arith)
        requires
            abs(num) >= 0,
            SCALE > 0,
            den > 0,
    ;
}

/// The `atanh` series keeps the sign of its starting term and sum.
proof fn lemma_series_sign(term: i128, sum: i128, y2: i128, n: int)
    requires
        y2 >= 0,
    ensures
        atanh_series(term, sum, y2, n) matches Ok(s) ==> ((term >= 0 && sum >= 0 ==> s >= 0) && (
        term <= 0 && sum <= 0 ==> s <= 0)),
    decreases 31 - n,
{
    if 1 <= n <= 30 {
        lemma_mul_sign(term as int, y2 as int);
        if let Ok(t) = mul_spec(term as int, y2 as int) {
            let add = tdiv(t as int, 2 * n + 1);
            assert(t >= 0 ==> add >= 0) by (nonlinear_arith)
                requires
                    add == tdiv(t as int, 2 * n + 1),
                    n >= 1,
            ;
            assert(t <= 0 ==> add <= 0) by (nonlinear_arith)
                requires
                    add == tdiv(t as int, 2 * n + 1),
                    n >= 1,
            ;
            if let Ok(s2) = checked_add_spec(sum as int, add) {
                if add != 0 {
                    lemma_series_sign(t, s2, y2, n + 1);
                }
            }
        }
    }
}

/// Dividing by `e` from above `e` lands no lower than five units below one,
/// no higher than `e`; without a step the value is returned as it was.
proof fn lemma_reduce_above_bounds(val: i128, k: int, e: i128, inv_e: i128)
    requires
        2 * ONE <= e <= 4 * ONE,
        inv_e == (SCALE as int) * (SCALE as int) / (e as int),
        val >= ONE - 5,
    ensures
        reduce_above(val, k, e, inv_e) matches Ok(r) ==> (r.0 >= ONE - 5 && r.0 <= e && r.1 >= k
            && (r.1 == k ==> r.0 == val)),
    decreases val,
{
    if val > e {
        let ss = (SCALE as int) * (SCALE as int);
        let rem = ss % (e as int);
        vstd::arithmetic::div_mod::lemma_fundamental_div_mod(ss, e as int);
        assert(abs(val as int) == val);
        assert(abs(inv_e as int) == inv_e);
        assert(abs(SCALE as int) == SCALE);
        let q = (val as int) * (inv_e as int) / (SCALE as int);
        assert(q >= SCALE - 5) by (nonlinear_arith)
            requires
                q == (val as int) * (inv_e as int) / (SCALE as int),
                val >= e + 1,
                inv_e >= 0,
                ss == (e as int) * (inv_e as int) + rem,
                0 <= rem < e,
                ss == (SCALE as int) * (SCALE as int),
                e <= 4 * SCALE,
                SCALE == 1_000_000_000_000_000_000,
        ;
        lemma_inverse_e_bounds(e);
        if let Ok(v2) = mul_spec(val as int, inv_e as int) {
            if 0 <= v2 < val {
                lemma_reduce_above_bounds(v2, k + 1, e, inv_e);
            }
        }
    }
}

/// Multiplying by `e` from below `1/e` stays below one and counts down;
/// from `1/e` upward nothing happens.
proof fn lemma_reduce_below_bounds(val: i128, k: int, e: i128, inv_e: i128)
    requires
        2 * ONE <= e <= 4 * ONE,
        inv_e == (SCALE as int) * (SCALE as int) / (e as int),
        val >= 0,
    ensures
        reduce_below(val, k, e, inv_e) matches Ok(r) ==> ((val >= inv_e ==> r.0 == val && r.1 == k)
            && (val < inv_e ==> r.0 < ONE && r.1 < k) && (val > 0 ==> r.0 > 0)),
    decreases gap_below(val, inv_e),
{
    if val < inv_e {
        let ss = (SCALE as int) * (SCALE as int);
        let rem = ss % (e as int);
        vstd::arithmetic::div_mod::lemma_fundamental_div_mod(ss, e as int);
        assert(abs(val as int) == val);
        assert(abs(e as int) == e);
        assert(abs(SCALE as int) == SCALE);
        let q = (val as int) * (e as int) / (SCALE as int);
        assert(0 <= q < SCALE) by (nonlinear_arith)
            requires
                q == (val as int) * (e as int) / (SCALE as int),
                0 <= val <= inv_e - 1,
                ss == (e as int) * (inv_e as int) + rem,
                0 <= rem < e,
                e > 0,
                ss == (SCALE as int) * (SCALE as int),
                SCALE > 0,
        ;
        if let Ok(v2) = mul_spec(val as int, e as int) {
            if val < v2 {
                lemma_reduce_below_bounds(v2, k - 1, e, inv_e);
            }
        }
    }
}

/// The natural logarithm is non-negative from one upward and non-positive
/// below one (whenever it can be computed).
pub proof fn lemma_ln_sign(x: i128)
    ensures
        ln_spec(x) matches Ok(l) ==> ((x >= ONE ==> l >= 0) && (x < ONE ==> l <= 0)),
{
    if x > 0 && x != ONE {
        lemma_exp_one_bounds();
        let e = exp_spec(ONE)->Ok_0;
        lemma_inverse_e_exact(e);
        lemma_inverse_e_bounds(e);
        let inv_e = div_spec(ONE as int, e as int)->Ok_0;
        if x > ONE {
            lemma_reduce_above_bounds(x, 0, e, inv_e);
        } else {
            assert(reduce_above(x, 0, e, inv_e) == Ok::<(i128, int), MathError>((x, 0)));
        }
        if let Ok(a) = reduce_above(x, 0, e, inv_e) {
            lemma_reduce_below_bounds(a.0, a.1, e, inv_e);
            if let Ok(b) = reduce_below(a.0, a.1, e, inv_e) {
                lemma_ln_reduced_sign(b.0, b.1, x > ONE);
            }
        }
    }
}

/// The sign of `k + 2 atanh((v - 1)/(v + 1))` in the three cases that the
/// range reduction leaves.
proof fn lemma_ln_reduced_sign(v: i128, k: int, above: bool)
    requires
        above ==> v >= ONE - 5 && k >= 0 && (v < ONE ==> k >= 1),
        !above ==> v < ONE && k <= 0 && v > 0,
    ensures
        ln_reduced_spec(v, k) matches Ok(l) ==> ((above ==> l >= 0) && (!above ==> l <= 0)),
{
    if let Ok(num) = checked_sub_spec(v as int, ONE as int) {
        if let Ok(den) = checked_add_spec(v as int, ONE as int) {
            if den > 0 {
                lemma_div_sign(num as int, den as int);
                if let Ok(y) = div_spec(num as int, den as int) {
                    lemma_mul_sign(y as int, y as int);
                    if let Ok(y2) = mul_spec(y as int, y as int) {
                        lemma_series_sign(y, y, y2, 1);
                        if let Ok(sum) = atanh_series(y, y, y2, 1) {
                            lemma_mul_sign(2 * ONE as int, sum as int);
                            if above && v < ONE {
                                // y is at most a few units below zero, so y2 is zero and
                                // the series stops at once.
                                assert(abs(SCALE as int) == SCALE);
                                assert(abs(den as int) == den);
                                assert(abs(num as int) <= 5);
                                assert(abs(num as int) * (SCALE as int) / (den as int) <= 2) by (
                                nonlinear_arith)
                                    requires
                                        abs(num as int) <= 5,
                                        den >= 2 * ONE - 5,
                                        SCALE == 1_000_000_000_000_000_000,
                                        ONE == SCALE,
                                ;
                                assert(-2 <= y <= 0);
                                assert(abs(y as int) * abs(y as int) / (SCALE as int) == 0) by (
                                nonlinear_arith)
                                    requires
                                        abs(y as int) <= 2,
                                        SCALE == 1_000_000_000_000_000_000,
                                ;
                                assert(y2 == 0);
                                assert(mul_spec(y as int, 0) == Ok::<i128, MathError>(0));
                                assert(tdiv(0, 3) == 0);
                                assert(sum == y);
                                assert(abs(2 * ONE as int) == 2 * ONE);
                                assert(abs(2 * ONE as int) * abs(sum as int) / (SCALE as int)
                                    == 2 * abs(sum as int)) by (nonlinear_arith)
                                    requires
                                        SCALE == 1_000_000_000_000_000_000,
                                        ONE == SCALE,
                                        abs(sum as int) >= 0,
                                ;
                            }
                        }
                    }
                }
            }
        }
    }
}

} // verus!
