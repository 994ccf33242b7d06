use astraport::staking::compounding::{Compounding, YieldCalculator};
use astraport::staking::contract::{Error, StakingContract, DEFAULT_APR};
use astraport::staking::engine::{YieldEngine, YieldLedger};
use astraport::staking::fixed_point::{div, exp, mul, MathError, SCALE, SECONDS_PER_DAY, SECONDS_PER_YEAR};
use astraport::staking::records::{
    AssetYieldRate, CompoundingMode, StakingConfig, UnlockSchedule, YieldProjection,
};

fn approx(a: i128, b: i128, tol: i128) {
    let diff = (a - b).abs();
    assert!(diff <= tol, "expected {} ~= {} within {}, diff {}", a, b, tol, diff);
}

/// Allow a tolerance in basis points of a reference value.
fn assert_within_bps(actual: i128, reference: i128, bps: i128) {
    let tol = (reference.abs() * bps) / 10_000;
    let diff = (actual - reference).abs();
    assert!(
        diff <= tol.max(1),
        "actual={}, reference={}, bps tolerance={}, diff={}",
        actual,
        reference,
        bps,
        diff,
    );
}

/// Reference daily-compounded yield `P * ((1 + APR/365)^days - 1)` over
/// whole days.
fn reference_daily_yield(principal: i128, apr_fp: i128, whole_days: u64) -> i128 {
    let daily_rate = apr_fp / 365;
    let per_day = SCALE + daily_rate;
    let mut factor = SCALE;
    let mut base = per_day;
    let mut e = whole_days;
    while e > 0 {
        if e & 1 == 1 {
            factor = (factor * base) / SCALE;
        }
        e >>= 1;
        if e > 0 {
            base = (base * base) / SCALE;
        }
    }
    let growth = factor - SCALE;
    (principal * growth) / SCALE
}

/// Reference continuous-compounded yield `P * (e^(APR * t) - 1)`.
fn reference_continuous_yield(principal: i128, apr_fp: i128, duration_secs: u64) -> i128 {
    let t = div(duration_secs as i128, SECONDS_PER_YEAR as i128).unwrap();
    let exponent = mul(apr_fp, t).unwrap();
    let factor = exp(exponent).unwrap();
    let growth = factor - SCALE;
    (principal * growth) / SCALE
}

fn project(principal: i128, apr: i128, mode: CompoundingMode, horizon: u64) -> YieldProjection {
    StakingContract::project_yield(principal, apr, mode, horizon)
}

fn open(ledger: &mut YieldLedger, principal: i128, apr: i128, mode: CompoundingMode, now: u64) {
    let staker = "GSTAKER".to_string();
    let asset = "XLM".to_string();
    StakingContract::open_yield_position(ledger, &staker, &asset, principal, apr, mode, now);
}

// ---------------------------------------------------------------------------
// Contract-level conversions and projections
// ---------------------------------------------------------------------------

#[test]
fn apr_to_apy_via_contract_matches_formula() {
    let apy = StakingContract::apr_to_apy(SCALE / 20, CompoundingMode::Daily);
    approx(apy, 51_267_496_505_408_400, 100_000_000_000);
    let apy_c = StakingContract::apr_to_apy(SCALE / 20, CompoundingMode::Continuous);
    approx(apy_c, 51_271_096_376_024_040, 100_000_000_000);
}

#[test]
fn apy_apr_roundtrip_via_contract() {
    let apr = SCALE / 10;
    let apy = StakingContract::apr_to_apy(apr, CompoundingMode::Daily);
    let back = StakingContract::apy_to_apr(apy, CompoundingMode::Daily);
    approx(back, apr, 100_000_000_000_000);
}

#[test]
fn thirty_day_projection_within_one_percent() {
    let horizon = 30 * SECONDS_PER_DAY;
    let proj = project(SCALE, SCALE / 10, CompoundingMode::Continuous, horizon);
    let expected = 8_253_048_640_000_000i128;
    let diff = (proj.projected_yield - expected).abs();
    assert!(diff <= expected / 100, "projection off >1%: {} vs {}", proj.projected_yield, expected);
    assert_eq!(proj.projected_balance, SCALE + proj.projected_yield);
}

// ---------------------------------------------------------------------------
// Stress tests: extreme rates and durations
// ---------------------------------------------------------------------------

#[test]
fn stress_daily_100pct_apr_one_year() {
    let principal = 1_000_000_000i128;
    let apr = SCALE;
    let calc = YieldCalculator::new(Compounding::Daily);
    let earned = calc.compute_yield(principal, apr, SECONDS_PER_YEAR).unwrap();
    let ref_earned = reference_daily_yield(principal, apr, 365);
    assert_within_bps(earned, ref_earned, 1);
    assert!(earned > principal, "100% APR over 1 year should more than double: earned={}", earned);
}

#[test]
fn stress_continuous_100pct_apr_one_year() {
    let principal = 1_000_000_000i128;
    let apr = SCALE;
    let calc = YieldCalculator::new(Compounding::Continuous);
    let earned = calc.compute_yield(principal, apr, SECONDS_PER_YEAR).unwrap();
    let ref_earned = reference_continuous_yield(principal, apr, SECONDS_PER_YEAR);
    assert_within_bps(earned, ref_earned, 1);
    assert!(earned > principal, "continuous 100% APR over 1 year: earned={}", earned);
}

#[test]
fn stress_five_year_duration() {
    let principal = 100_000_000_000i128;
    let apr = SCALE / 10;
    let five_years = 5 * SECONDS_PER_YEAR;
    let calc = YieldCalculator::new(Compounding::Daily);
    let earned = calc.compute_yield(principal, apr, five_years).unwrap();
    assert!(earned > 50_000_000_000, "5yr 10% should exceed simple: {}", earned);
    assert!(earned < 100_000_000_000, "5yr 10% should be < 100%: {}", earned);
}

#[test]
fn stress_ten_year_duration_continuous() {
    let principal = 100_000_000_000i128;
    let apr = SCALE / 20;
    let ten_years = 10 * SECONDS_PER_YEAR;
    let calc = YieldCalculator::new(Compounding::Continuous);
    let earned = calc.compute_yield(principal, apr, ten_years).unwrap();
    let ref_earned = reference_continuous_yield(principal, apr, ten_years);
    assert_within_bps(earned, ref_earned, 1);
    assert!(earned > 60_000_000_000, "10yr 5% continuous: {}", earned);
    assert!(earned < 70_000_000_000, "10yr 5% continuous: {}", earned);
}

#[test]
fn stress_continuous_never_less_than_daily_various_rates() {
    let principal = 1_000_000_000i128;
    let rates = [SCALE / 100, SCALE / 10, SCALE / 4, SCALE / 2, SCALE, SCALE * 2, SCALE * 10];
    for &apr in &rates {
        for &dur in &[SECONDS_PER_DAY, 30 * SECONDS_PER_DAY, SECONDS_PER_YEAR] {
            let daily = YieldCalculator::new(Compounding::Daily)
                .compute_yield(principal, apr, dur)
                .unwrap();
            let cont = YieldCalculator::new(Compounding::Continuous)
                .compute_yield(principal, apr, dur)
                .unwrap();
            assert!(
                cont >= daily,
                "continuous ({}) should be >= daily ({}) for apr={}, dur={}",
                cont,
                daily,
                apr,
                dur,
            );
        }
    }
}

#[test]
fn accuracy_daily_matches_reference_various_aprs() {
    let principal = 1_000_000_000_000i128;
    let rates = [SCALE / 100, SCALE / 20, SCALE / 10, SCALE / 4, SCALE / 2];
    let durations = [SECONDS_PER_DAY, 7 * SECONDS_PER_DAY, 30 * SECONDS_PER_DAY, SECONDS_PER_YEAR];
    let calc = YieldCalculator::new(Compounding::Daily);
    for &apr in &rates {
        for &dur in &durations {
            let earned = calc.compute_yield(principal, apr, dur).unwrap();
            let whole_days = dur / SECONDS_PER_DAY;
            let ref_earned = reference_daily_yield(principal, apr, whole_days);
            assert_within_bps(earned, ref_earned, 1);
        }
    }
}

#[test]
fn accuracy_continuous_matches_reference_various_aprs() {
    let principal = 1_000_000_000_000i128;
    let rates = [SCALE / 100, SCALE / 20, SCALE / 10, SCALE / 4, SCALE / 2];
    let durations = [SECONDS_PER_DAY, 7 * SECONDS_PER_DAY, 30 * SECONDS_PER_DAY, SECONDS_PER_YEAR];
    let calc = YieldCalculator::new(Compounding::Continuous);
    for &apr in &rates {
        for &dur in &durations {
            let earned = calc.compute_yield(principal, apr, dur).unwrap();
            let ref_earned = reference_continuous_yield(principal, apr, dur);
            assert_within_bps(earned, ref_earned, 1);
        }
    }
}

#[test]
fn apy_roundtrip_extreme_low_apr() {
    let apr = SCALE / 10_000;
    for mode in [CompoundingMode::Daily, CompoundingMode::Continuous] {
        let apy = StakingContract::apr_to_apy(apr, mode);
        let back = StakingContract::apy_to_apr(apy, mode);
        approx(back, apr, SCALE / 10_000_000);
    }
}

#[test]
fn apy_roundtrip_high_apr() {
    let apr = SCALE * 2;
    for mode in [CompoundingMode::Daily, CompoundingMode::Continuous] {
        let apy = StakingContract::apr_to_apy(apr, mode);
        let back = StakingContract::apy_to_apr(apy, mode);
        approx(back, apr, SCALE / 1000);
    }
}

#[test]
fn apy_roundtrip_extreme_high_apr() {
    let apr = SCALE * 10;
    for mode in [CompoundingMode::Daily, CompoundingMode::Continuous] {
        let apy = StakingContract::apr_to_apy(apr, mode);
        let back = StakingContract::apy_to_apr(apy, mode);
        approx(back, apr, SCALE / 100);
    }
}

#[test]
fn projection_accuracy_30_days() {
    let principal = SCALE;
    let apr = SCALE / 10;
    let horizon = 30 * SECONDS_PER_DAY;
    let proj = project(principal, apr, CompoundingMode::Continuous, horizon);
    let ref_yield = reference_continuous_yield(principal, apr, horizon);
    assert_within_bps(proj.projected_yield, ref_yield, 1);
}

#[test]
fn projection_accuracy_1_year() {
    let principal = SCALE * 100;
    let apr = SCALE / 20;
    let proj = project(principal, apr, CompoundingMode::Daily, SECONDS_PER_YEAR);
    let ref_yield = reference_daily_yield(principal, apr, 365);
    assert_within_bps(proj.projected_yield, ref_yield, 1);
}

#[test]
fn projection_balance_equals_principal_plus_yield() {
    let principal = 500_000_000i128;
    let apr = SCALE / 5;
    let proj = project(principal, apr, CompoundingMode::Continuous, SECONDS_PER_YEAR);
    assert_eq!(proj.projected_balance, principal + proj.projected_yield);
}

#[test]
fn zero_principal_yields_zero_all_modes() {
    for mode in [CompoundingMode::Daily, CompoundingMode::Continuous] {
        let calc = YieldCalculator::new(mode.to_strategy());
        assert_eq!(calc.compute_yield(0, SCALE / 10, SECONDS_PER_YEAR).unwrap(), 0);
        assert_eq!(calc.compute_balance(0, SCALE / 10, SECONDS_PER_YEAR).unwrap(), 0);
    }
}

#[test]
fn zero_apr_yields_zero_all_modes() {
    let principal = 1_000_000i128;
    for mode in [CompoundingMode::Daily, CompoundingMode::Continuous] {
        let calc = YieldCalculator::new(mode.to_strategy());
        assert_eq!(calc.compute_yield(principal, 0, SECONDS_PER_YEAR).unwrap(), 0);
    }
}

#[test]
fn zero_duration_yields_zero_all_modes() {
    let principal = 1_000_000i128;
    for mode in [CompoundingMode::Daily, CompoundingMode::Continuous] {
        let calc = YieldCalculator::new(mode.to_strategy());
        assert_eq!(calc.compute_yield(principal, SCALE / 10, 0).unwrap(), 0);
    }
}

#[test]
fn yield_segments_time_weighted_accuracy() {
    let principal = 1_000_000_000i128;
    let calc = YieldCalculator::new(Compounding::Daily);
    let segments = [(SCALE / 10, 180 * SECONDS_PER_DAY), (SCALE / 20, 185 * SECONDS_PER_DAY)];
    let total_yield = calc.compute_yield_segments(principal, &segments).unwrap();
    assert!(total_yield > 0, "segments should produce yield");
    let mut balance = principal;
    for &(apr, dur) in &segments {
        let earned = calc.compute_yield(balance, apr, dur).unwrap();
        balance += earned;
    }
    assert_eq!(total_yield, balance - principal);
}

#[test]
fn precision_small_yield_on_large_principal() {
    let principal = 1_000_000_000_000_000_000i128;
    let apr = SCALE / 1_000_000;
    let calc = YieldCalculator::new(Compounding::Continuous);
    let earned = calc.compute_yield(principal, apr, SECONDS_PER_DAY).unwrap();
    assert!(earned > 0, "small yield should be non-zero: {}", earned);
}

// ---------------------------------------------------------------------------
// The yield engine through the contract interface
// ---------------------------------------------------------------------------

#[test]
fn test_set_yield_defaults_applies_to_new_positions() {
    let mut ledger = YieldLedger::new();
    open(&mut ledger, SCALE, SCALE / 20, CompoundingMode::Daily, 0);
    let record = StakingContract::accrue_yield(&mut ledger, SECONDS_PER_YEAR);
    approx(record.accrued_yield, 51_267_496_505_408_400, 100_000_000_000);
}

#[test]
fn accrue_claim_and_reclaim_resets_unclaimed_yield() {
    let mut ledger = YieldLedger::new();
    let staker = "GSTAKER".to_string();
    let asset = "VESTED".to_string();
    StakingContract::open_yield_position(
        &mut ledger,
        &staker,
        &asset,
        SCALE,
        SCALE / 10,
        CompoundingMode::Daily,
        0,
    );
    let now = 30 * SECONDS_PER_DAY;
    let accrued = StakingContract::accrue_yield(&mut ledger, now).accrued_yield;
    assert!(accrued > 0);
    assert_eq!(StakingContract::claim_yield(&mut ledger, now), accrued);
    assert_eq!(StakingContract::current_yield(&ledger, now), 0);
    assert_eq!(StakingContract::claim_yield(&mut ledger, now), 0);
}

#[test]
fn time_weighted_rate_change_daily() {
    let mut ledger = YieldLedger::new();
    let principal = 1_000_000_000i128;
    let apr1 = SCALE / 10;
    open(&mut ledger, principal, apr1, CompoundingMode::Daily, 0);
    let mid = StakingContract::accrue_yield(&mut ledger, 180 * SECONDS_PER_DAY);
    let yield_phase1 = mid.accrued_yield;
    assert!(yield_phase1 > 0, "phase 1 should accrue yield");

    let apr2 = SCALE / 20;
    StakingContract::set_yield_rate(&mut ledger, apr2, 180 * SECONDS_PER_DAY);
    let full = StakingContract::accrue_yield(&mut ledger, 365 * SECONDS_PER_DAY);
    let yield_phase2 = full.accrued_yield - yield_phase1;
    assert!(yield_phase2 > 0, "phase 2 should accrue yield");

    assert_within_bps(yield_phase1, reference_daily_yield(principal, apr1, 180), 1);
    assert_within_bps(yield_phase2, reference_daily_yield(principal, apr2, 185), 1);
}

#[test]
fn time_weighted_multiple_rate_changes() {
    let mut ledger = YieldLedger::new();
    open(&mut ledger, 10_000_000, SCALE, CompoundingMode::Continuous, 0);
    StakingContract::set_yield_rate(&mut ledger, SCALE / 5, 100 * SECONDS_PER_DAY);
    StakingContract::set_yield_rate(&mut ledger, SCALE / 10, 200 * SECONDS_PER_DAY);
    let record = StakingContract::accrue_yield(&mut ledger, 365 * SECONDS_PER_DAY);
    assert!(record.accrued_yield > 0, "must have yield");
}

#[test]
fn current_yield_does_not_mutate_state() {
    let mut ledger = YieldLedger::new();
    open(&mut ledger, 1_000_000, SCALE / 10, CompoundingMode::Daily, 0);
    let now = SECONDS_PER_DAY * 30;
    let y1 = StakingContract::current_yield(&ledger, now);
    let y2 = StakingContract::current_yield(&ledger, now);
    assert_eq!(y1, y2, "repeated current_yield calls should return the same value");
    assert!(y1 > 0, "should have some yield after 30 days");
    assert_eq!(StakingContract::yield_history(&ledger, now).len(), 0);
}

#[test]
fn history_grows_with_each_accrual() {
    let mut ledger = YieldLedger::new();
    open(&mut ledger, 1_000_000, SCALE / 10, CompoundingMode::Daily, 0);
    StakingContract::accrue_yield(&mut ledger, 30 * SECONDS_PER_DAY);
    let h1 = StakingContract::yield_history(&ledger, 30 * SECONDS_PER_DAY);
    assert_eq!(h1.len(), 1, "should have 1 history entry");
    StakingContract::accrue_yield(&mut ledger, 60 * SECONDS_PER_DAY);
    let h2 = StakingContract::yield_history(&ledger, 60 * SECONDS_PER_DAY);
    assert_eq!(h2.len(), 2, "should have 2 history entries");
    for (i, entry) in h2.iter().enumerate() {
        assert!(entry.yield_earned > 0, "entry {} should have earned yield", i);
        assert!(entry.period_seconds > 0, "entry {} should have positive period", i);
    }
}

#[test]
fn history_records_rate_change_periods() {
    let mut ledger = YieldLedger::new();
    open(&mut ledger, 1_000_000, SCALE / 10, CompoundingMode::Daily, 0);
    StakingContract::accrue_yield(&mut ledger, 100 * SECONDS_PER_DAY);
    StakingContract::set_yield_rate(&mut ledger, SCALE / 20, 100 * SECONDS_PER_DAY);
    StakingContract::accrue_yield(&mut ledger, 200 * SECONDS_PER_DAY);
    let history = StakingContract::yield_history(&ledger, 200 * SECONDS_PER_DAY);
    assert_eq!(history[0].apr, SCALE / 10);
    assert!(history.len() >= 2);
    assert_eq!(history[history.len() - 1].apr, SCALE / 20);
}

#[test]
fn claim_full_cycle_accrue_claim_reaccrue() {
    let mut ledger = YieldLedger::new();
    open(&mut ledger, 1_000_000, SCALE / 10, CompoundingMode::Daily, 0);
    let first_claim = StakingContract::claim_yield(&mut ledger, 30 * SECONDS_PER_DAY);
    assert!(first_claim > 0);
    assert_eq!(StakingContract::current_yield(&ledger, 30 * SECONDS_PER_DAY), 0);
    let second_yield = StakingContract::current_yield(&ledger, 60 * SECONDS_PER_DAY);
    assert!(second_yield > 0, "should accrue again after claim");
    assert_within_bps(second_yield, first_claim, 100);
}

// ---------------------------------------------------------------------------
// Engine behaviour: errors, idempotence, claims and distributions
// ---------------------------------------------------------------------------

#[test]
fn accrue_without_position_is_negative_input() {
    let mut ledger = YieldLedger::new();
    let engine = YieldEngine::new(100);
    assert_eq!(engine.accrue(&mut ledger).unwrap_err(), MathError::NegativeInput);
    assert_eq!(engine.current_yield(&ledger).unwrap_err(), MathError::NegativeInput);
    assert_eq!(engine.set_rate(&mut ledger, SCALE).unwrap_err(), MathError::NegativeInput);
    assert_eq!(engine.set_principal(&mut ledger, 5).unwrap_err(), MathError::NegativeInput);
}

#[test]
fn accruing_twice_at_the_same_time_is_a_no_op() {
    let mut ledger = YieldLedger::new();
    open(&mut ledger, 1_000_000_000, SCALE / 10, CompoundingMode::Daily, 0);
    let first = StakingContract::accrue_yield(&mut ledger, 10 * SECONDS_PER_DAY);
    let second = StakingContract::accrue_yield(&mut ledger, 10 * SECONDS_PER_DAY);
    assert_eq!(first.accrued_yield, second.accrued_yield);
    assert_eq!(first.last_accrual_ts, second.last_accrual_ts);
    assert_eq!(StakingContract::yield_history(&ledger, 0).len(), 1);
}

#[test]
fn set_principal_realizes_yield_on_old_principal() {
    let mut ledger = YieldLedger::new();
    open(&mut ledger, 1_000_000_000, SCALE / 10, CompoundingMode::Continuous, 0);
    let engine = YieldEngine::new(SECONDS_PER_YEAR);
    let rec = engine.set_principal(&mut ledger, 2_000_000_000).unwrap();
    assert_eq!(rec.principal, 2_000_000_000);
    assert_eq!(rec.apr, SCALE / 10);
    assert_eq!(rec.accrued_yield, reference_continuous_yield(1_000_000_000, SCALE / 10, SECONDS_PER_YEAR));
}

#[test]
fn reopening_keeps_accrued_yield() {
    let mut ledger = YieldLedger::new();
    open(&mut ledger, 1_000_000_000, SCALE / 10, CompoundingMode::Daily, 0);
    let engine = YieldEngine::new(30 * SECONDS_PER_DAY);
    let before = engine.current_yield(&ledger).unwrap();
    let staker = "GSTAKER".to_string();
    let asset = "XLM".to_string();
    let rec = engine
        .open_position(&mut ledger, &staker, &asset, 5, SCALE, CompoundingMode::Continuous)
        .unwrap();
    assert_eq!(rec.accrued_yield, before);
    assert_eq!(rec.principal, 5);
    assert_eq!(rec.last_accrual_ts, 30 * SECONDS_PER_DAY);
    assert_eq!(ledger.history.len(), 1);
}

#[test]
fn claim_appends_a_claim_marker() {
    let mut ledger = YieldLedger::new();
    open(&mut ledger, 1_000_000_000, SCALE / 10, CompoundingMode::Daily, 0);
    let claimed = StakingContract::claim_yield(&mut ledger, 10 * SECONDS_PER_DAY);
    let h = StakingContract::yield_history(&ledger, 0);
    assert_eq!(h.len(), 2);
    assert!(!h[0].is_claim);
    assert_eq!(h[0].cumulative_yield, claimed);
    assert!(h[1].is_claim);
    assert_eq!(h[1].yield_earned, 0);
    assert_eq!(h[1].cumulative_yield, 0);
    assert_eq!(h[1].period_seconds, 0);
    assert_eq!(ledger.record.as_ref().unwrap().accrued_yield, 0);
}

#[test]
fn distributions_fire_once_or_recur() {
    let mut ledger = YieldLedger::new();
    let staker = "GSTAKER".to_string();
    let asset = "XLM".to_string();
    let one_off = StakingContract::schedule_distribution(&mut ledger, &staker, &asset, 100, 50, 0, 0);
    assert!(!one_off.executed);
    StakingContract::schedule_distribution(&mut ledger, &staker, &asset, 7, 40, 30, 0);
    StakingContract::schedule_distribution(&mut ledger, &staker, &asset, 1_000, 500, 0, 0);
    assert_eq!(StakingContract::process_distribution(&mut ledger, 10), 0);
    assert_eq!(StakingContract::process_distribution(&mut ledger, 60), 107);
    let schedules = YieldEngine::new(60).schedules(&ledger);
    assert!(schedules[0].executed);
    assert_eq!(schedules[1].due_ts, 70);
    assert!(!schedules[1].executed);
    assert!(!schedules[2].executed);
    assert_eq!(StakingContract::process_distribution(&mut ledger, 60), 0);
    assert_eq!(StakingContract::process_distribution(&mut ledger, 70), 7);
}

// ---------------------------------------------------------------------------
// Contract configuration and validation
// ---------------------------------------------------------------------------

#[test]
fn asset_config_falls_back_to_defaults() {
    let asset = "XLM".to_string();
    let cfg = StakingContract::load_asset_config(None, None, &asset);
    assert_eq!(cfg.apr, DEFAULT_APR);
    assert_eq!(DEFAULT_APR, SCALE / 20);
    assert_eq!(cfg.mode, CompoundingMode::Daily);
    assert_eq!(cfg.min_stake, 0);
    assert_eq!(cfg.max_stake, 0);
    assert_eq!(cfg.unlock_schedule, UnlockSchedule::Immediate);
    let global = StakingContract::set_yield_defaults(SCALE / 10, CompoundingMode::Continuous);
    let cfg = StakingContract::load_asset_config(None, Some(global), &asset);
    assert_eq!(cfg.apr, SCALE / 10);
    assert_eq!(cfg.mode, CompoundingMode::Continuous);
    let own = StakingContract::configure_asset(&asset, 7, CompoundingMode::Daily, 10, 20, UnlockSchedule::Cliff(99));
    let cfg = StakingContract::load_asset_config(Some(own), Some(StakingConfig { default_apr: 1, default_mode: CompoundingMode::Continuous }), &asset);
    assert_eq!(cfg.apr, 7);
    assert_eq!(cfg.min_stake, 10);
    assert_eq!(cfg.unlock_schedule, UnlockSchedule::Cliff(99));
}

#[test]
fn stake_validation_errors() {
    let cfg = AssetYieldRate {
        asset: "XLM".to_string(),
        apr: SCALE / 20,
        mode: CompoundingMode::Daily,
        min_stake: 100,
        max_stake: 0,
        unlock_schedule: UnlockSchedule::Immediate,
    };
    assert_eq!(StakingContract::validate_stake(&cfg, 0), Err(Error::InvalidStakeAmount));
    assert_eq!(StakingContract::validate_stake(&cfg, -5), Err(Error::InvalidStakeAmount));
    assert_eq!(StakingContract::validate_stake(&cfg, 99), Err(Error::BelowMinimumStake));
    assert_eq!(StakingContract::validate_stake(&cfg, 100), Ok(()));
    assert_eq!(StakingContract::validate_unstake(0), Err(Error::InvalidStakeAmount));
    assert_eq!(StakingContract::validate_unstake(1), Ok(()));
}

#[test]
fn initialize_records_admin() {
    let mut slot: Option<String> = None;
    StakingContract::initialize(&mut slot, &"GADMIN".to_string());
    assert_eq!(slot, Some("GADMIN".to_string()));
}

#[test]
fn one_second_yield_is_a_day_fraction_of_the_daily_rate() {
    // The one-second stress case (5 % APR on 1e12, both models):
    // 1e12 * 0.05 / (365 * 86400) ≈ 1585.5, so the yield is about 1585; a
    // bound of "under 1000" for this case would contradict the yield formula.
    for mode in [Compounding::Daily, Compounding::Continuous] {
        let earned = YieldCalculator::new(mode).compute_yield(1_000_000_000_000, SCALE / 20, 1).unwrap();
        assert!((1_580..=1_590).contains(&earned), "{:?}: {}", mode, earned);
    }
}

#[test]
fn very_low_apr_yield_is_about_simple_interest() {
    // The very-low-APR stress case (0.001 % APR on 1e9 for a year, both
    // models): 1e9 * 0.00001 ≈ 10_000, so a bound of "under 2000" for this
    // case would contradict the yield formula.
    for mode in [Compounding::Daily, Compounding::Continuous] {
        let earned = YieldCalculator::new(mode)
            .compute_yield(1_000_000_000, SCALE / 100_000, SECONDS_PER_YEAR)
            .unwrap();
        assert!((9_990..=10_010).contains(&earned), "{:?}: {}", mode, earned);
    }
}

#[test]
fn test_zero_principal_accrues_nothing() {
    let mut ledger = YieldLedger::new();
    StakingContract::open_yield_position(
        &mut ledger,
        &"staker".to_string(),
        &"XLM".to_string(),
        0,
        SCALE / 10,
        CompoundingMode::Daily,
        1_000,
    );
    assert_eq!(StakingContract::accrue_yield(&mut ledger, SECONDS_PER_YEAR).accrued_yield, 0);
}

#[test]
fn only_the_recorded_admin_is_admin() {
    let mut slot: Option<String> = None;
    assert!(!StakingContract::is_admin(&slot, &"GADMIN".to_string()));
    StakingContract::initialize(&mut slot, &"GADMIN".to_string());
    assert!(StakingContract::is_admin(&slot, &"GADMIN".to_string()));
    assert!(!StakingContract::is_admin(&slot, &"GOTHER".to_string()));
}
