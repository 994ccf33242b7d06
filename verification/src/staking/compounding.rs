//! Compounding strategies and the core yield calculator.
//!
//! Given an annual percentage rate `r` (APR, fixed-point), a principal `P` and a
//! duration in seconds:
//!
//! - **Daily compounding** grows the principal by `(1 + r/365)^d` for the whole
//!   day count `d`, times a linear factor `(1 + r/365 * frac)` for a trailing
//!   partial day.
//! - **Continuous compounding** grows the principal by `e^(r * t)` with `t` the
//!   duration as a fixed-point fraction of a year. Since `1 + x <= e^x`, it
//!   earns at least as much as daily compounding; the computed factor is kept
//!   from falling below the daily one by rounding.
//!
//! The *yield* (interest earned) is `P * (factor - 1)`.

use crate::staking::fixed_point::{
    self as fp, div_spec, exp_spec, lemma_exp_above_one, mul_div_spec, mul_spec, pow_loop,
    pow_uint_spec, tdiv, MathError, DAYS_PER_YEAR, ONE, SCALE, SECONDS_PER_DAY, SECONDS_PER_YEAR,
};
use crate::wide::abs;
use vstd::arithmetic::div_mod::lemma_hoist_over_denominator;
use vstd::prelude::*;

verus! {

/// The compounding model applied to a staked position.
#[derive(Debug, Clone, Copy, PartialEq, Eq, Structural)]
pub enum Compounding {
    /// Interest is compounded once per day (365 periods per year).
    Daily,
    /// Interest is compounded continuously (`e^(rt)`).
    Continuous,
}

/// Behavior shared by all compounding strategies: computing the growth factor
/// applied to a principal over a given duration at a given annual rate.
pub trait CompoundingStrategy {
    /// The growth factor this strategy yields for `apr` over `duration_seconds`.
    spec fn growth_factor_spec(&self, apr: i128, duration_seconds: u64) -> Result<i128, MathError>;

    /// Compute the fixed-point growth factor for annual rate `apr` applied over
    /// `duration_seconds`, such that `new_principal = principal * factor`.
    fn growth_factor(&self, apr: i128, duration_seconds: u64) -> (r: Result<i128, MathError>)
        ensures
            r == self.growth_factor_spec(apr, duration_seconds),
    ;
}

/// Add two fixed-point values, reporting overflow.
pub open spec fn checked_add_spec(a: int, b: int) -> Result<i128, MathError> {
    if a + b > i128::MAX || a + b < i128::MIN {
        Err(MathError::Overflow)
    } else {
        Ok((a + b) as i128)
    }
}

/// `(1 + r/365)^d * (1 + r/365 * frac)` as the daily model computes it.
pub open spec fn daily_growth_spec(apr: i128, duration_seconds: u64) -> Result<i128, MathError> {
    let daily_rate = tdiv(apr as int, DAYS_PER_YEAR as int);
    match checked_add_spec(ONE as int, daily_rate) {
        Err(e) => Err(e),
        Ok(per_day) => match pow_uint_spec(per_day, (duration_seconds / SECONDS_PER_DAY) as nat) {
            Err(e) => Err(e),
            Ok(factor) => {
                let rem = duration_seconds % SECONDS_PER_DAY;
                if rem > 0 {
                    match div_spec(rem as int, SECONDS_PER_DAY as int) {
                        Err(e) => Err(e),
                        Ok(frac) => match mul_spec(daily_rate, frac as int) {
                            Err(e) => Err(e),
                            Ok(partial) => match checked_add_spec(ONE as int, partial as int) {
                                Err(e) => Err(e),
                                Ok(pf) => mul_spec(factor as int, pf as int),
                            },
                        },
                    }
                } else {
                    Ok(factor)
                }
            },
        },
    }
}

/// `e^(r * t)` with `t` the duration as a fixed-point fraction of a year.
pub open spec fn exp_growth_spec(apr: i128, duration_seconds: u64) -> Result<i128, MathError> {
    match div_spec(duration_seconds as int, SECONDS_PER_YEAR as int) {
        Err(e) => Err(e),
        Ok(t) => match mul_spec(apr as int, t as int) {
            Err(e) => Err(e),
            Ok(exponent) => exp_spec(exponent),
        },
    }
}

/// The continuous growth factor: `e^(r * t)`, never below the daily factor
/// for the same rate and duration when that one can be computed. (Exactly,
/// `1 + x <= e^x`, so continuous compounding earns at least as much as daily
/// compounding; the floor only undoes rounding in the last fixed-point
/// units.)
pub open spec fn continuous_growth_spec(apr: i128, duration_seconds: u64) -> Result<
    i128,
    MathError,
> {
    match exp_growth_spec(apr, duration_seconds) {
        Err(e) => Err(e),
        Ok(fc) => match daily_growth_spec(apr, duration_seconds) {
            Ok(fd) => if fd > fc {
                Ok(fd)
            } else {
                Ok(fc)
            },
            Err(_) => Ok(fc),
        },
    }
}

/// The growth factor of a compounding model; exactly one for a zero rate or a
/// zero duration.
pub open spec fn growth_spec(c: Compounding, apr: i128, duration_seconds: u64) -> Result<
    i128,
    MathError,
> {
    if apr == 0 || duration_seconds == 0 {
        Ok(ONE)
    } else {
        match c {
            Compounding::Daily => daily_growth_spec(apr, duration_seconds),
            Compounding::Continuous => continuous_growth_spec(apr, duration_seconds),
        }
    }
}

impl CompoundingStrategy for Compounding {
    open spec fn growth_factor_spec(&self, apr: i128, duration_seconds: u64) -> Result<
        i128,
        MathError,
    > {
        growth_spec(*self, apr, duration_seconds)
    }

    fn growth_factor(&self, apr: i128, duration_seconds: u64) -> (r: Result<i128, MathError>) {
        if apr == 0 || duration_seconds == 0 {
            return Ok(ONE);
        }
        match self {
            Compounding::Daily => daily_growth_factor(apr, duration_seconds),
            Compounding::Continuous => continuous_growth_factor(apr, duration_seconds),
        }
    }
}

/// Growth factor for the daily-compounding model.
///
/// Computes `(1 + r/365)^d` for the whole-day count `d`, then multiplies by a
/// fractional factor `(1 + r/365 * frac)` for any partial trailing day.
fn daily_growth_factor(apr: i128, duration_seconds: u64) -> (r: Result<i128, MathError>)
    ensures
        r == daily_growth_spec(apr, duration_seconds),
{
    // Per-day rate: r / 365 in fixed-point (ordinary integer division).
    let daily_rate = apr / (DAYS_PER_YEAR as i128);
    let per_day_factor = ONE.checked_add(daily_rate).ok_or(MathError::Overflow)?;

    let whole_days = duration_seconds / SECONDS_PER_DAY;
    let mut factor = fp::pow_uint(per_day_factor, whole_days)?;

    // Simple (linear) interest over the partial trailing day.
    let remainder_seconds = duration_seconds % SECONDS_PER_DAY;
    if remainder_seconds > 0 {
        let frac = fp::div(remainder_seconds as i128, SECONDS_PER_DAY as i128)?;
        let partial_interest = fp::mul(daily_rate, frac)?;
        let partial_factor = ONE.checked_add(partial_interest).ok_or(MathError::Overflow)?;
        factor = fp::mul(factor, partial_factor)?;
    }
    Ok(factor)
}

/// Growth factor for the continuous-compounding model: `e^(r * t)`, kept
/// from falling below the daily factor by rounding.
fn continuous_growth_factor(apr: i128, duration_seconds: u64) -> (r: Result<i128, MathError>)
    ensures
        r == continuous_growth_spec(apr, duration_seconds),
{
    // t = duration_seconds / SECONDS_PER_YEAR, in fixed-point.
    let t = fp::div(duration_seconds as i128, SECONDS_PER_YEAR as i128)?;
    let exponent = fp::mul(apr, t)?;
    let continuous = fp::exp(exponent)?;
    match daily_growth_factor(apr, duration_seconds) {
        Ok(daily) if daily > continuous => Ok(daily),
        _ => Ok(continuous),
    }
}

/// The yield `P * (factor - 1)` on `principal`, or zero for a non-positive
/// principal.
pub open spec fn yield_spec(c: Compounding, principal: i128, apr: i128, duration_seconds: u64) -> Result<
    i128,
    MathError,
> {
    if principal <= 0 {
        Ok(0)
    } else {
        match growth_spec(c, apr, duration_seconds) {
            Err(e) => Err(e),
            Ok(factor) => if (factor as int) - (ONE as int) < i128::MIN {
                Err(MathError::Overflow)
            } else {
                mul_spec(principal as int, factor as int - ONE as int)
            },
        }
    }
}

/// The balance `P * factor`, or the principal itself when it is not positive.
pub open spec fn balance_spec(c: Compounding, principal: i128, apr: i128, duration_seconds: u64) -> Result<
    i128,
    MathError,
> {
    if principal <= 0 {
        Ok(principal)
    } else {
        match growth_spec(c, apr, duration_seconds) {
            Err(e) => Err(e),
            Ok(factor) => mul_spec(principal as int, factor as int),
        }
    }
}

/// The balance after rolling `balance` through the segments `segs[i..]` in turn.
pub open spec fn segments_balance(c: Compounding, balance: i128, segs: Seq<(i128, u64)>, i: int) -> Result<
    i128,
    MathError,
>
    decreases segs.len() - i,
{
    if i >= segs.len() || i < 0 {
        Ok(balance)
    } else {
        match balance_spec(c, balance, segs[i].0, segs[i].1) {
            Err(e) => Err(e),
            Ok(b) => segments_balance(c, b, segs, i + 1),
        }
    }
}

/// The yield over a sequence of `(apr, duration)` segments: the rolled-forward
/// balance minus the principal, or zero for a non-positive principal.
pub open spec fn segments_yield_spec(c: Compounding, principal: i128, segs: Seq<(i128, u64)>) -> Result<
    i128,
    MathError,
> {
    if principal <= 0 {
        Ok(0)
    } else {
        match segments_balance(c, principal, segs, 0) {
            Err(e) => Err(e),
            Ok(b) => checked_sub_spec(b as int, principal as int),
        }
    }
}

/// Subtract two values, reporting overflow.
pub open spec fn checked_sub_spec(a: int, b: int) -> Result<i128, MathError> {
    if a - b > i128::MAX || a - b < i128::MIN {
        Err(MathError::Overflow)
    } else {
        Ok((a - b) as i128)
    }
}

/// Computes yields for staked positions using a selectable compounding model.
///
/// The calculator is stateless: it is constructed with a [`Compounding`] mode
/// and then queried.
#[derive(Debug, Clone, Copy)]
pub struct YieldCalculator {
    compounding: Compounding,
}

impl YieldCalculator {
    /// The compounding model, as seen by contracts.
    pub closed spec fn mode(self) -> Compounding {
        self.compounding
    }

    /// Create a calculator using the given compounding model.
    pub fn new(compounding: Compounding) -> (r: Self)
        ensures
            r.mode() == compounding,
    {
        Self { compounding }
    }

    /// The compounding model this calculator applies.
    pub fn compounding(&self) -> (r: Compounding)
        ensures
            r == self.mode(),
    {
        self.compounding
    }

    /// Compute the yield (interest earned) on `principal` at annual rate `apr`
    /// over `duration_seconds`: `P * (factor - 1)` in base units, or zero for a
    /// non-positive principal.
    pub fn compute_yield(&self, principal: i128, apr: i128, duration_seconds: u64) -> (r: Result<
        i128,
        MathError,
    >)
        ensures
            r == yield_spec(self.mode(), principal, apr, duration_seconds),
    {
        if principal <= 0 {
            return Ok(0);
        }
        let factor = self.compounding.growth_factor(apr, duration_seconds)?;
        let growth = factor.checked_sub(ONE).ok_or(MathError::Overflow)?;
        fp::mul(principal, growth)
    }

    /// Compute the final balance (principal + yield) on `principal` at annual
    /// rate `apr` over `duration_seconds`.
    pub fn compute_balance(&self, principal: i128, apr: i128, duration_seconds: u64) -> (r: Result<
        i128,
        MathError,
    >)
        ensures
            r == balance_spec(self.mode(), principal, apr, duration_seconds),
    {
        if principal <= 0 {
            return Ok(principal);
        }
        let factor = self.compounding.growth_factor(apr, duration_seconds)?;
        fp::mul(principal, factor)
    }

    /// Compute yield across a sequence of `(apr, duration_seconds)` segments,
    /// compounding the balance through each in turn, and return the total
    /// yield earned across all segments.
    pub fn compute_yield_segments(&self, principal: i128, segments: &[(i128, u64)]) -> (r: Result<
        i128,
        MathError,
    >)
        ensures
            r == segments_yield_spec(self.mode(), principal, segments@),
    {
        if principal <= 0 {
            return Ok(0);
        }
        let mut balance = principal;
        let mut i: usize = 0;
        while i < segments.len()
            invariant
                principal > 0,
                i <= segments@.len(),
                segments_balance(self.mode(), balance, segments@, i as int) == segments_balance(
                    self.mode(),
                    principal,
                    segments@,
                    0,
                ),
            decreases segments@.len() - i,
        {
            let (apr, duration) = segments[i];
            balance = self.compute_balance(balance, apr, duration)?;
            i += 1;
        }
        balance.checked_sub(principal).ok_or(MathError::Overflow)
    }
}


/// For a positive principal and a growth factor of at least one, the yield
/// is exactly the balance minus the principal; whenever the balance can be
/// computed, so can the yield.
pub proof fn lemma_yield_is_balance_minus_principal(
    c: Compounding,
    principal: i128,
    apr: i128,
    duration_seconds: u64,
)
    requires
        principal > 0,
        growth_spec(c, apr, duration_seconds) is Ok,
        growth_spec(c, apr, duration_seconds)->Ok_0 >= ONE,
        balance_spec(c, principal, apr, duration_seconds) is Ok,
    ensures
        yield_spec(c, principal, apr, duration_seconds) == Ok::<i128, MathError>(
            (balance_spec(c, principal, apr, duration_seconds)->Ok_0 - principal) as i128,
        ),
{
    let f = growth_spec(c, apr, duration_seconds)->Ok_0;
    let x = principal * (f - ONE);
    assert(x >= 0) by (nonlinear_arith)
        requires
            principal > 0,
            f >= ONE,
            x == principal * (f - ONE),
    ;
    assert(principal * f == x + principal * SCALE) by (nonlinear_arith)
        requires
            x == principal * (f - ONE),
            ONE == SCALE,
    ;
    lemma_hoist_over_denominator(x, principal as int, SCALE as nat);
    assert(abs(principal as int) == principal);
    assert(abs(f as int) == f);
    assert(abs(f - ONE) == f - ONE);
    assert(abs(SCALE as int) == SCALE);
}

/// A single `(apr, duration)` segment earns exactly the plain yield over
/// that period (positive principal, growth factor at least one, balance
/// computable).
pub proof fn lemma_single_segment_is_plain_yield(
    c: Compounding,
    principal: i128,
    apr: i128,
    duration_seconds: u64,
)
    requires
        principal > 0,
        growth_spec(c, apr, duration_seconds) is Ok,
        growth_spec(c, apr, duration_seconds)->Ok_0 >= ONE,
        balance_spec(c, principal, apr, duration_seconds) is Ok,
    ensures
        segments_yield_spec(c, principal, seq![(apr, duration_seconds)]) == yield_spec(
            c,
            principal,
            apr,
            duration_seconds,
        ),
{
    let segs = seq![(apr, duration_seconds)];
    let b = balance_spec(c, principal, apr, duration_seconds)->Ok_0;
    lemma_yield_is_balance_minus_principal(c, principal, apr, duration_seconds);
    assert(segs[0] == (apr, duration_seconds));
    assert(segments_balance(c, b, segs, 1) == Ok::<i128, MathError>(b));
    assert(segments_balance(c, principal, segs, 0) == Ok::<i128, MathError>(b));
}

/// A product or quotient of non-negative values (positive denominator) is
/// non-negative whenever it can be computed.
proof fn lemma_mul_div_nonneg(a: int, b: int, d: int)
    requires
        a >= 0,
        b >= 0,
        d > 0,
    ensures
        mul_div_spec(a, b, d) matches Ok(v) ==> v >= 0,
{
    assert(abs(a) == a);
    assert(abs(b) == b);
    assert(abs(d) == d);
    assert(a * b >= 0) by (nonlinear_arith)
        requires
            a >= 0,
            b >= 0,
    ;
    assert(a * b / d >= 0) by (nonlinear_arith)
        requires
            a * b >= 0,
            d > 0,
    ;
}

/// The fixed-point product of two values of at least one is at least one.
proof fn lemma_mul_at_least_one(a: i128, b: i128)
    requires
        a >= ONE,
        b >= ONE,
    ensures
        mul_spec(a as int, b as int) matches Ok(v) ==> v >= ONE,
{
    assert(abs(a as int) == a);
    assert(abs(b as int) == b);
    assert(abs(SCALE as int) == SCALE);
    assert((a as int) * (b as int) / (SCALE as int) >= SCALE) by (nonlinear_arith)
        requires
            a >= SCALE,
            b >= SCALE,
            SCALE > 0,
    ;
}

/// Exponentiation by squaring from values of at least one stays at least one.
proof fn lemma_pow_loop_at_least_one(result: i128, acc: i128, e: nat)
    requires
        result >= ONE,
        acc >= ONE,
    ensures
        pow_loop(result, acc, e) matches Ok(v) ==> v >= ONE,
    decreases e,
{
    if e > 0 {
        lemma_mul_at_least_one(result, acc);
        lemma_mul_at_least_one(acc, acc);
        let r = if e % 2 == 1 {
            mul_spec(result as int, acc as int)
        } else {
            Ok(result)
        };
        if let Ok(r1) = r {
            if e / 2 > 0 {
                if let Ok(a1) = mul_spec(acc as int, acc as int) {
                    lemma_pow_loop_at_least_one(r1, a1, e / 2);
                }
            }
        }
    }
}

/// At a non-negative rate, every growth factor that can be computed is at
/// least one: balances never shrink.
pub proof fn lemma_growth_at_least_one(c: Compounding, apr: i128, duration_seconds: u64)
    requires
        apr >= 0,
    ensures
        growth_spec(c, apr, duration_seconds) matches Ok(f) ==> f >= ONE,
{
    if apr != 0 && duration_seconds != 0 {
        match c {
            Compounding::Daily => {
                let dr = tdiv(apr as int, DAYS_PER_YEAR as int);
                assert(dr >= 0);
                if let Ok(per_day) = checked_add_spec(ONE as int, dr) {
                    let n = (duration_seconds / SECONDS_PER_DAY) as nat;
                    lemma_pow_loop_at_least_one(ONE, per_day, n);
                    if let Ok(factor) = pow_uint_spec(per_day, n) {
                        let rem = duration_seconds % SECONDS_PER_DAY;
                        if rem > 0 {
                            lemma_mul_div_nonneg(rem as int, SCALE as int, SECONDS_PER_DAY as int);
                            if let Ok(frac) = div_spec(rem as int, SECONDS_PER_DAY as int) {
                                lemma_mul_div_nonneg(dr, frac as int, SCALE as int);
                                if let Ok(partial) = mul_spec(dr, frac as int) {
                                    if let Ok(pf) = checked_add_spec(ONE as int, partial as int) {
                                        lemma_mul_at_least_one(factor, pf);
                                    }
                                }
                            }
                        }
                    }
                }
            },
            Compounding::Continuous => {
                lemma_mul_div_nonneg(duration_seconds as int, SCALE as int, SECONDS_PER_YEAR as int);
                if let Ok(t) = div_spec(duration_seconds as int, SECONDS_PER_YEAR as int) {
                    lemma_mul_div_nonneg(apr as int, t as int, SCALE as int);
                    if let Ok(x) = mul_spec(apr as int, t as int) {
                        lemma_exp_above_one(x);
                    }
                }
            },
        }
    }
}

/// At a non-negative rate the balance is the principal plus the yield: for
/// a non-positive principal both stand still (the balance is the principal,
/// the yield zero); otherwise the balance succeeds exactly when the yield
/// does and adding it to the principal fits, and then equals that sum.
/// The yield is never negative.
pub proof fn lemma_balance_is_principal_plus_yield(
    c: Compounding,
    principal: i128,
    apr: i128,
    duration_seconds: u64,
)
    requires
        apr >= 0,
    ensures
        principal <= 0 ==> balance_spec(c, principal, apr, duration_seconds) == Ok::<
            i128,
            MathError,
        >(principal) && yield_spec(c, principal, apr, duration_seconds) == Ok::<i128, MathError>(
            0,
        ),
        principal > 0 ==> balance_spec(c, principal, apr, duration_seconds) == match yield_spec(
            c,
            principal,
            apr,
            duration_seconds,
        ) {
            Err(e) => Err(e),
            Ok(y) => checked_add_spec(principal as int, y as int),
        },
        yield_spec(c, principal, apr, duration_seconds) matches Ok(y) ==> y >= 0,
{
    lemma_growth_at_least_one(c, apr, duration_seconds);
    if principal > 0 {
        if let Ok(f) = growth_spec(c, apr, duration_seconds) {
            let x = principal * (f - ONE);
            assert(x >= 0) by (nonlinear_arith)
                requires
                    principal > 0,
                    f >= ONE,
                    x == principal * (f - ONE),
            ;
            assert(principal * f == x + principal * SCALE) by (nonlinear_arith)
                requires
                    x == principal * (f - ONE),
                    ONE == SCALE,
            ;
            lemma_hoist_over_denominator(x, principal as int, SCALE as nat);
            assert(x / (SCALE as int) >= 0) by (nonlinear_arith)
                requires
                    x >= 0,
                    SCALE > 0,
            ;
            assert(abs(principal as int) == principal);
            assert(abs(f as int) == f);
            assert(abs(f - ONE) == f - ONE);
            assert(abs(SCALE as int) == SCALE);
        }
    }
}

/// The balance after rolling `balance` through `segs[i..]`, adding each
/// segment's yield on the balance reached so far.
pub open spec fn rolled_by_yield(c: Compounding, balance: i128, segs: Seq<(i128, u64)>, i: int) -> Result<
    i128,
    MathError,
>
    decreases segs.len() - i,
{
    if i >= segs.len() || i < 0 {
        Ok(balance)
    } else {
        match yield_spec(c, balance, segs[i].0, segs[i].1) {
            Err(e) => Err(e),
            Ok(y) => match checked_add_spec(balance as int, y as int) {
                Err(e) => Err(e),
                Ok(b) => rolled_by_yield(c, b, segs, i + 1),
            },
        }
    }
}

/// Every segment's rate is non-negative.
pub open spec fn nonneg_rates(segs: Seq<(i128, u64)>) -> bool {
    forall|i: int| 0 <= i < segs.len() ==> (#[trigger] segs[i]).0 >= 0
}

proof fn lemma_rolled_matches_balance(c: Compounding, balance: i128, segs: Seq<(i128, u64)>, i: int)
    requires
        balance > 0,
        nonneg_rates(segs),
        0 <= i,
    ensures
        segments_balance(c, balance, segs, i) == rolled_by_yield(c, balance, segs, i),
    decreases segs.len() - i,
{
    if i < segs.len() {
        let (apr, d) = segs[i];
        lemma_balance_is_principal_plus_yield(c, balance, apr, d);
        if let Ok(y) = yield_spec(c, balance, apr, d) {
            if let Ok(b) = checked_add_spec(balance as int, y as int) {
                lemma_rolled_matches_balance(c, b, segs, i + 1);
            }
        }
    }
}

/// Yield over rate segments (all rates non-negative) is time-weighted:
/// it is what rolling the balance forward gives, adding each segment's yield
/// on the balance reached so far, minus the principal (zero for a
/// non-positive principal; zero for no segments).
pub proof fn lemma_segments_roll_forward_by_yield(
    c: Compounding,
    principal: i128,
    segs: Seq<(i128, u64)>,
)
    requires
        nonneg_rates(segs),
    ensures
        segments_yield_spec(c, principal, segs) == if principal <= 0 {
            Ok::<i128, MathError>(0)
        } else {
            match rolled_by_yield(c, principal, segs, 0) {
                Err(e) => Err(e),
                Ok(b) => checked_sub_spec(b as int, principal as int),
            }
        },
        principal > 0 && segs.len() == 0 ==> segments_yield_spec(c, principal, segs) == Ok::<
            i128,
            MathError,
        >(0),
{
    if principal > 0 {
        lemma_rolled_matches_balance(c, principal, segs, 0);
    }
}

/// A fixed-point product with a positive factor grows with the other
/// factor (the quotient is rounded toward zero).
proof fn lemma_mul_monotone(p: i128, g1: int, g2: int)
    requires
        p > 0,
        g1 <= g2,
    ensures
        mul_spec(p as int, g1) matches Ok(a) ==> (mul_spec(p as int, g2) matches Ok(b) ==> a <= b),
{
    let pp = p as int;
    let s = SCALE as int;
    assert(abs(pp) == pp);
    assert(abs(s) == s);
    let q1 = pp * abs(g1) / s;
    let q2 = pp * abs(g2) / s;
    assert(q1 >= 0 && q2 >= 0) by (nonlinear_arith)
        requires
            pp > 0,
            q1 == pp * abs(g1) / s,
            q2 == pp * abs(g2) / s,
            abs(g1) >= 0,
            abs(g2) >= 0,
            s > 0,
    ;
    if g1 >= 0 {
        assert(q1 <= q2) by (nonlinear_arith)
            requires
                pp > 0,
                0 <= g1 <= g2,
                abs(g1) == g1,
                abs(g2) == g2,
                q1 == pp * abs(g1) / s,
                q2 == pp * abs(g2) / s,
                s > 0,
        ;
        assert(mul_spec(pp, g1) matches Ok(a) ==> a == q1);
        assert(mul_spec(pp, g2) matches Ok(b) ==> b == q2);
    } else if g2 < 0 {
        assert(q1 >= q2) by (nonlinear_arith)
            requires
                pp > 0,
                g1 <= g2 < 0,
                abs(g1) == -g1,
                abs(g2) == -g2,
                q1 == pp * abs(g1) / s,
                q2 == pp * abs(g2) / s,
                s > 0,
        ;
        assert(mul_spec(pp, g1) matches Ok(a) ==> a == -q1);
        assert(mul_spec(pp, g2) matches Ok(b) ==> b == -q2);
    } else {
        assert(mul_spec(pp, g1) matches Ok(a) ==> a == -q1);
        assert(mul_spec(pp, g2) matches Ok(b) ==> b == q2);
    }
}

/// Continuous compounding earns at least as much as daily compounding over
/// the same rate and duration: its growth factor, yield and balance are never
/// below the daily ones whenever both can be computed.
pub proof fn lemma_continuous_at_least_daily(principal: i128, apr: i128, duration_seconds: u64)
    ensures
        growth_spec(Compounding::Continuous, apr, duration_seconds) matches Ok(fc) ==> (growth_spec(
            Compounding::Daily,
            apr,
            duration_seconds,
        ) matches Ok(fd) ==> fc >= fd),
        yield_spec(Compounding::Continuous, principal, apr, duration_seconds) matches Ok(yc) ==> (
        yield_spec(Compounding::Daily, principal, apr, duration_seconds) matches Ok(yd) ==> yc
            >= yd),
        balance_spec(Compounding::Continuous, principal, apr, duration_seconds) matches Ok(bc) ==> (
        balance_spec(Compounding::Daily, principal, apr, duration_seconds) matches Ok(bd) ==> bc
            >= bd),
{
    if principal > 0 {
        if let (Ok(fc), Ok(fd)) = (
            growth_spec(Compounding::Continuous, apr, duration_seconds),
            growth_spec(Compounding::Daily, apr, duration_seconds),
        ) {
            lemma_mul_monotone(principal, fd as int - ONE as int, fc as int - ONE as int);
            lemma_mul_monotone(principal, fd as int, fc as int);
        }
    }
}

} // verus!
