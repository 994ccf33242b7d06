use astraport::staking::apy::{ln, APYCalculator};
use astraport::staking::compounding::{Compounding, YieldCalculator};
use astraport::staking::fixed_point::{
    div, exp, mul, mul_div, pow_uint, MathError, ONE, SCALE, SECONDS_PER_DAY, SECONDS_PER_YEAR,
};
use astraport::staking::projection::YieldProjector;
use astraport::staking::records::CompoundingMode;

fn approx(a: i128, b: i128, tol: i128) {
    let diff = (a - b).abs();
    assert!(diff <= tol, "expected {} ~= {} within {}, diff was {}", a, b, tol, diff);
}

// ---------------------------------------------------------------------------
// Fixed-point arithmetic
// ---------------------------------------------------------------------------

#[test]
fn mul_identity() {
    assert_eq!(mul(ONE, ONE).unwrap(), ONE);
    assert_eq!(mul(2 * ONE, 3 * ONE).unwrap(), 6 * ONE);
}

#[test]
fn mul_fractional() {
    let half = SCALE / 2;
    approx(mul(half, half).unwrap(), SCALE / 4, 1);
}

#[test]
fn div_basic() {
    approx(div(ONE, 4 * ONE).unwrap(), SCALE / 4, 1);
    approx(div(3 * ONE, 2 * ONE).unwrap(), 3 * SCALE / 2, 1);
}

#[test]
fn div_by_zero_errors() {
    assert_eq!(div(ONE, 0), Err(MathError::DivideByZero));
}

#[test]
fn mul_div_no_overflow_large() {
    let big = 1_000_000_000_000_000_000_000_000_000_000i128; // 1e30
    let r = mul_div(big, big, big).unwrap();
    assert_eq!(r, big);
}

#[test]
fn pow_uint_basic() {
    approx(pow_uint(2 * ONE, 10).unwrap(), 1024 * ONE, 1000);
    assert_eq!(pow_uint(5 * ONE, 0).unwrap(), ONE);
    let base = ONE + SCALE / 20; // 1.05
    approx(pow_uint(base, 2).unwrap(), 11_025 * SCALE / 10_000, SCALE / 1_000_000);
}

#[test]
fn exp_zero_is_one() {
    assert_eq!(exp(0).unwrap(), ONE);
}

#[test]
fn exp_one_is_e() {
    let e = 2_718_281_828_459_045_235i128;
    approx(exp(ONE).unwrap(), e, 1_000_000);
}

#[test]
fn exp_small_value() {
    let x = SCALE / 20; // 0.05
    let expected = 1_051_271_096_376_024_040i128;
    approx(exp(x).unwrap(), expected, 1_000_000);
}

// ---------------------------------------------------------------------------
// Natural log and APR/APY conversion
// ---------------------------------------------------------------------------

#[test]
fn ln_of_e_is_one() {
    let e = exp(ONE).unwrap();
    approx(ln(e).unwrap(), ONE, 1_000_000);
}

#[test]
fn ln_of_one_is_zero() {
    assert_eq!(ln(ONE).unwrap(), 0);
}

#[test]
fn ln_known_value() {
    approx(ln(2 * ONE).unwrap(), 693_147_180_559_945_309, 10_000_000);
}

#[test]
fn daily_apr_to_apy_known() {
    let apy = APYCalculator::apr_to_apy(SCALE / 20, Compounding::Daily).unwrap();
    approx(apy, 51_267_496_505_408_400, 100_000_000_000);
}

#[test]
fn continuous_apr_to_apy_known() {
    let apy = APYCalculator::apr_to_apy(SCALE / 20, Compounding::Continuous).unwrap();
    approx(apy, 51_271_096_376_024_040, 100_000_000_000);
}

#[test]
fn roundtrip_continuous() {
    let apr = SCALE / 10;
    let apy = APYCalculator::apr_to_apy(apr, Compounding::Continuous).unwrap();
    let back = APYCalculator::apy_to_apr(apy, Compounding::Continuous).unwrap();
    approx(back, apr, 10_000_000);
}

#[test]
fn roundtrip_daily() {
    let apr = SCALE / 10;
    let apy = APYCalculator::apr_to_apy(apr, Compounding::Daily).unwrap();
    let back = APYCalculator::apy_to_apr(apy, Compounding::Daily).unwrap();
    approx(back, apr, 100_000_000_000_000);
}

// ---------------------------------------------------------------------------
// Compounding
// ---------------------------------------------------------------------------

#[test]
fn zero_rate_yields_nothing() {
    let calc = YieldCalculator::new(Compounding::Daily);
    assert_eq!(calc.compute_yield(1_000_000, 0, SECONDS_PER_YEAR).unwrap(), 0);
}

#[test]
fn zero_duration_yields_nothing() {
    let calc = YieldCalculator::new(Compounding::Continuous);
    assert_eq!(calc.compute_yield(1_000_000, SCALE / 10, 0).unwrap(), 0);
}

#[test]
fn daily_one_year_matches_formula() {
    let calc = YieldCalculator::new(Compounding::Daily);
    let earned = calc.compute_yield(SCALE, SCALE / 20, SECONDS_PER_YEAR).unwrap();
    approx(earned, 51_267_496_505_408_400i128, 100_000_000_000);
}

#[test]
fn continuous_one_year_matches_formula() {
    let calc = YieldCalculator::new(Compounding::Continuous);
    let earned = calc.compute_yield(SCALE, SCALE / 20, SECONDS_PER_YEAR).unwrap();
    approx(earned, 51_271_096_376_024_040i128, 100_000_000_000);
}

#[test]
fn continuous_exceeds_daily() {
    let principal = 1_000_000_000i128;
    let apr = SCALE / 10;
    let daily = YieldCalculator::new(Compounding::Daily)
        .compute_yield(principal, apr, SECONDS_PER_YEAR)
        .unwrap();
    let cont = YieldCalculator::new(Compounding::Continuous)
        .compute_yield(principal, apr, SECONDS_PER_YEAR)
        .unwrap();
    assert!(cont >= daily, "continuous {} should be >= daily {}", cont, daily);
}

#[test]
fn partial_period_half_day() {
    let calc = YieldCalculator::new(Compounding::Daily);
    let apr = 365 * SCALE / 1000;
    let earned = calc.compute_yield(SCALE, apr, SECONDS_PER_DAY / 2).unwrap();
    approx(earned, 500_000_000_000_000i128, 1_000_000);
}

#[test]
fn variable_rate_segments() {
    let calc = YieldCalculator::new(Compounding::Continuous);
    let half_year = SECONDS_PER_YEAR / 2;
    let segs = [(4 * SCALE / 100, half_year), (8 * SCALE / 100, half_year)];
    let earned = calc.compute_yield_segments(SCALE, &segs).unwrap();
    approx(earned, 61_836_546_545_359_750i128, 1_000_000_000);
}

// ---------------------------------------------------------------------------
// Projection
// ---------------------------------------------------------------------------

#[test]
fn thirty_day_projection_is_reasonable() {
    let horizon = 30 * SECONDS_PER_DAY;
    let p = SCALE;
    let apr = SCALE / 10;
    let proj = YieldProjector::project(p, apr, CompoundingMode::Continuous, horizon).unwrap();
    let expected = 8_253_048_640_000_000i128;
    let diff = (proj.projected_yield - expected).abs();
    assert!(diff <= expected / 100, "diff {} exceeds 1% of {}", diff, expected);
    assert_eq!(proj.projected_balance, p + proj.projected_yield);
}

// ---------------------------------------------------------------------------
// Further values and error cases
// ---------------------------------------------------------------------------

#[test]
fn mul_overflow_is_reported() {
    assert_eq!(mul(i128::MAX, 2 * ONE), Err(MathError::Overflow));
}

#[test]
fn mul_div_rounds_toward_zero() {
    assert_eq!(mul_div(7, 3, 2).unwrap(), 10);
    assert_eq!(mul_div(-7, 3, 2).unwrap(), -10);
    assert_eq!(mul_div(1, 1, 0), Err(MathError::DivideByZero));
}

#[test]
fn ln_of_non_positive_is_negative_input() {
    assert_eq!(ln(0), Err(MathError::NegativeInput));
    assert_eq!(ln(-ONE), Err(MathError::NegativeInput));
}

#[test]
fn zero_apr_converts_to_zero_apy_and_back() {
    assert_eq!(APYCalculator::apr_to_apy(0, Compounding::Daily).unwrap(), 0);
    assert_eq!(APYCalculator::apy_to_apr(0, Compounding::Continuous).unwrap(), 0);
}

#[test]
fn exp_is_at_least_one_for_non_negative_inputs() {
    for x in [0, 1, SCALE / 1000, SCALE / 2, ONE, 3 * ONE] {
        assert!(exp(x).unwrap() >= ONE);
    }
    assert!(exp(SCALE / 2).unwrap() > ONE);
}

#[test]
fn yield_is_balance_minus_principal() {
    for mode in [Compounding::Daily, Compounding::Continuous] {
        let calc = YieldCalculator::new(mode);
        let p = 123_456_789_000i128;
        let y = calc.compute_yield(p, SCALE / 7, 100 * SECONDS_PER_DAY).unwrap();
        let b = calc.compute_balance(p, SCALE / 7, 100 * SECONDS_PER_DAY).unwrap();
        assert_eq!(y, b - p);
    }
}

#[test]
fn single_segment_matches_plain_yield() {
    let calc = YieldCalculator::new(Compounding::Daily);
    let p = 9_876_543_210i128;
    let seg = [(SCALE / 8, 45 * SECONDS_PER_DAY)];
    assert_eq!(
        calc.compute_yield_segments(p, &seg).unwrap(),
        calc.compute_yield(p, SCALE / 8, 45 * SECONDS_PER_DAY).unwrap()
    );
}

#[test]
fn compounding_mode_roundtrip() {
    for m in [CompoundingMode::Daily, CompoundingMode::Continuous] {
        assert_eq!(CompoundingMode::from_strategy(m.to_strategy()), m);
    }
    assert_eq!(YieldCalculator::new(Compounding::Continuous).compounding(), Compounding::Continuous);
}

#[test]
fn continuous_never_trails_daily_after_rounding() {
    // Over one second the exponential lands one fixed-point unit below the
    // daily factor by rounding; the continuous factor is kept at the daily one.
    let apr = 38_638_674_218_760_815;
    let daily = YieldCalculator::new(Compounding::Daily).compute_yield(SCALE, apr, 1).unwrap();
    let continuous =
        YieldCalculator::new(Compounding::Continuous).compute_yield(SCALE, apr, 1).unwrap();
    assert_eq!(daily, 1_225_224_322);
    assert_eq!(continuous, 1_225_224_322);
    for d in [1u64, 2, 22, 86_399, 86_400, 86_401, 10 * 86_400 + 5] {
        for apr in [962_306_989_278_648i128, 9_570_085_500_927_420, SCALE / 100, SCALE, 10 * SCALE] {
            let dy = YieldCalculator::new(Compounding::Daily).compute_yield(SCALE, apr, d);
            let cy = YieldCalculator::new(Compounding::Continuous).compute_yield(SCALE, apr, d);
            if let (Ok(dy), Ok(cy)) = (dy, cy) {
                assert!(cy >= dy, "apr {} d {}: {} < {}", apr, d, cy, dy);
            }
        }
    }
}

#[test]
fn nth_root_below_one_is_the_root() {
    let r = astraport::staking::apy::nth_root(SCALE / 4, 2).unwrap();
    approx(r, SCALE / 2, 1_000_000);
    let c = astraport::staking::apy::nth_root(SCALE / 8, 3).unwrap();
    approx(c, SCALE / 2, 1_000_000);
    assert_eq!(astraport::staking::apy::nth_root(SCALE / 4, 1), Ok(SCALE / 4));
    assert_eq!(astraport::staking::apy::nth_root(0, 2), Err(MathError::NegativeInput));
    let above = astraport::staking::apy::nth_root(4 * SCALE, 2).unwrap();
    approx(above, 2 * SCALE, 1_000_000);
}

#[test]
fn negative_apy_converts_back_to_a_negative_apr() {
    // (1 - 0.05)^(1/365) - 1, times 365: about -0.0513.
    let apr = APYCalculator::apy_to_apr(-SCALE / 20, Compounding::Daily).unwrap();
    assert!(apr < -SCALE / 20 && apr > -SCALE / 19, "apr = {}", apr);
    let back = APYCalculator::apr_to_apy(apr, Compounding::Daily).unwrap();
    approx(back, -SCALE / 20, 1_000_000_000);
}

#[test]
fn balance_is_principal_plus_yield() {
    for c in [Compounding::Daily, Compounding::Continuous] {
        let calc = YieldCalculator::new(c);
        for (p, apr, d) in [(1_000_000_000i128, SCALE / 10, SECONDS_PER_YEAR), (7, SCALE, 12_345), (SCALE, SCALE / 20, 1)] {
            let b = calc.compute_balance(p, apr, d).unwrap();
            let y = calc.compute_yield(p, apr, d).unwrap();
            assert_eq!(b, p + y);
        }
        assert_eq!(calc.compute_balance(-5, SCALE, 100), Ok(-5));
        assert_eq!(calc.compute_yield(-5, SCALE, 100), Ok(0));
    }
}

#[test]
fn segment_yield_rolls_the_balance_forward() {
    for c in [Compounding::Daily, Compounding::Continuous] {
        let calc = YieldCalculator::new(c);
        let segs = [(SCALE / 10, 30 * SECONDS_PER_DAY), (SCALE / 20, 45 * SECONDS_PER_DAY + 77), (0, 9)];
        let p = 5_000_000_000i128;
        let mut b = p;
        for (apr, d) in segs {
            b += calc.compute_yield(b, apr, d).unwrap();
        }
        assert_eq!(calc.compute_yield_segments(p, &segs), Ok(b - p));
        assert_eq!(calc.compute_yield_segments(p, &[]), Ok(0));
    }
}

#[test]
fn apy_is_the_one_year_yield_on_one_unit() {
    for c in [Compounding::Daily, Compounding::Continuous] {
        for apr in [0, SCALE / 100, SCALE / 20, SCALE, 3 * SCALE] {
            assert_eq!(
                APYCalculator::apr_to_apy(apr, c),
                YieldCalculator::new(c).compute_yield(SCALE, apr, SECONDS_PER_YEAR)
            );
        }
        assert_eq!(APYCalculator::apr_to_apy(0, c), Ok(0));
    }
}

#[test]
fn ln_sign_follows_one() {
    for x in [1, SCALE / 1000, SCALE / 3, SCALE - 1] {
        assert!(ln(x).unwrap() <= 0, "ln({})", x);
    }
    assert!(ln(SCALE / 2).unwrap() < 0);
    assert_eq!(ln(SCALE), Ok(0));
    for x in [SCALE + 1, 2 * SCALE, 3 * SCALE, 1_000 * SCALE] {
        assert!(ln(x).unwrap() >= 0, "ln({})", x);
    }
    assert!(ln(3 * SCALE).unwrap() > 0);
}
