//! The staking contract's operations: stake validation, per-asset
//! configuration with global defaults, and the per-position yield interface
//! over the [`YieldEngine`].
//!
//! Operations that the contract aborts on failure require, here, the inputs
//! on which they succeed.

use crate::staking::apy::{apr_to_apy_spec, apy_to_apr_spec, APYCalculator};
use crate::staking::engine::{
    checkpoint, checkpoint_history, distribution_fits, due_total, pending_spec, YieldEngine,
    YieldLedger,
};
use crate::staking::compounding::checked_add_spec;
use crate::staking::multi_asset::{
    balance_of, portfolio_yield_ok, snapshot_fits, stake_applied, stake_refusal, sync_succeeds,
    total_accrued, total_principal, total_yield, unstake_applied, unstake_refusal,
    weighted_avg_apr, MultiAssetStaking, StakeSlot,
};
use crate::staking::projection::{projection_spec, YieldProjector};
use crate::staking::records::{
    mode_strategy, AssetYieldRate, CompoundingMode, DistributionSchedule, PortfolioSnapshot,
    StakingConfig, StakingPosition, UnlockSchedule, YieldHistoryEntry, YieldProjection, YieldRecord,
};
use vstd::prelude::*;

verus! {

/// Default APR: 5 % (0.05 × SCALE, SCALE = 10^18).
pub const DEFAULT_APR: i128 = 50_000_000_000_000_000;

/// Default compounding mode.
pub const DEFAULT_MODE: CompoundingMode = CompoundingMode::Daily;

/// Errors returned by the staking contract.
#[derive(Debug, Clone, Copy, PartialEq, Eq, Structural)]
pub enum Error {
    /// Invalid amount: must be positive for staking.
    InvalidStakeAmount,
    /// Insufficient balance: cannot unstake more than currently staked.
    InsufficientBalance,
    /// The requested amount is below the asset's configured minimum stake.
    BelowMinimumStake,
    /// The resulting position would exceed the asset's configured maximum stake.
    ExceedsMaximumStake,
    /// The position is still within its lock-up period.
    PositionLocked,
    /// The requested withdrawal exceeds the amount that has unlocked so far.
    ExceedsUnlockedAmount,
}

/// Whether opening or replacing a position at `now` succeeds.
pub open spec fn open_succeeds(ledger: YieldLedger, now: u64) -> bool {
    match ledger.record {
        None => true,
        Some(rec) => checkpoint(rec, now) is Ok,
    }
}

/// Whether checkpointing the pair's position at `now` succeeds.
pub open spec fn accrue_succeeds(ledger: YieldLedger, now: u64) -> bool {
    match ledger.record {
        None => false,
        Some(rec) => checkpoint(rec, now) is Ok,
    }
}

/// Staking contract: multi-asset staking with per-asset yield terms.
pub struct StakingContract;

impl StakingContract {
    /// Record the admin; the contract can be initialized only once.
    pub fn initialize(admin_slot: &mut Option<String>, admin: &String)
        requires
            *old(admin_slot) is None,
        ensures
            *final(admin_slot) == Some(*admin),
    {
        *admin_slot = Some(admin.clone());
    }

    /// Whether `caller` is the recorded admin (never, before initialization).
    pub fn is_admin(admin_slot: &Option<String>, caller: &String) -> (r: bool)
        ensures
            r == (admin_slot matches Some(a) && a@ == caller@),
    {
        match admin_slot {
            Some(a) => *a == *caller,
            None => false,
        }
    }

    /// The checks a stake must pass: a positive amount
    /// (`InvalidStakeAmount`), at least the asset's minimum when one is set
    /// (`BelowMinimumStake`).
    pub fn validate_stake(config: &AssetYieldRate, amount: i128) -> (r: Result<(), Error>)
        ensures
            amount <= 0 ==> r == Err::<(), Error>(Error::InvalidStakeAmount),
            amount > 0 && config.min_stake > 0 && amount < config.min_stake ==> r == Err::<
                (),
                Error,
            >(Error::BelowMinimumStake),
            amount > 0 && !(config.min_stake > 0 && amount < config.min_stake) ==> r is Ok,
    {
        if amount <= 0 {
            return Err(Error::InvalidStakeAmount);
        }
        if config.min_stake > 0 && amount < config.min_stake {
            return Err(Error::BelowMinimumStake);
        }
        Ok(())
    }

    /// The check an unstake must pass: a positive amount
    /// (`InvalidStakeAmount`).
    pub fn validate_unstake(amount: i128) -> (r: Result<(), Error>)
        ensures
            amount <= 0 ==> r == Err::<(), Error>(Error::InvalidStakeAmount),
            amount > 0 ==> r is Ok,
    {
        if amount <= 0 {
            return Err(Error::InvalidStakeAmount);
        }
        Ok(())
    }

    /// Stake `amount` of `asset` for `staker` under the asset's `config` at
    /// ledger time `now`.
    ///
    /// Refused, with nothing changed, for a non-positive amount or a total
    /// that would overflow (`InvalidStakeAmount`), an amount under the
    /// asset's minimum (`BelowMinimumStake`) or a new balance over its
    /// maximum (`ExceedsMaximumStake`). Otherwise the position is opened (on
    /// the asset's terms) or grown, its principal is synchronised into the
    /// yield engine keeping any accrued yield, the asset joins the staker's
    /// list, the asset's total grows, and a first position counts the
    /// staker.
    pub fn stake(
        slot: &mut StakeSlot,
        staker: &String,
        asset: &String,
        config: &AssetYieldRate,
        amount: i128,
        now: u64,
    ) -> (r: Result<(), Error>)
        requires
            old(slot).wf(asset@),
            stake_refusal(*old(slot), *config, amount) is None ==> {
                &&& sync_succeeds(old(slot).ledger, now)
                &&& old(slot).assets@.len() == 0 ==> old(slot).staker_count < u32::MAX
            },
        ensures
            stake_refusal(*old(slot), *config, amount) matches Some(e) ==> r == Err::<(), Error>(e)
                && *final(slot) == *old(slot),
            stake_refusal(*old(slot), *config, amount) is None ==> {
                &&& r is Ok
                &&& stake_applied(*old(slot), *final(slot), *staker, *asset, *config, amount, now)
                &&& final(slot).wf(asset@)
            },
    {
        Self::validate_stake(config, amount)?;
        MultiAssetStaking::new(now).stake(slot, staker, asset, config, amount)
    }

    /// Unstake `amount` of `asset` at ledger time `now`.
    ///
    /// Refused, with nothing changed, for a non-positive amount
    /// (`InvalidStakeAmount`), more than the balance
    /// (`InsufficientBalance`), a position in lock-up (`PositionLocked`) or
    /// more than has unlocked (`ExceedsUnlockedAmount`). Otherwise accrued
    /// yield is checkpointed before the principal is reduced, the asset's
    /// total shrinks, and a fully withdrawn position is closed, its asset
    /// unlisted, and a staker left without positions no longer counted.
    pub fn unstake(slot: &mut StakeSlot, asset: &String, amount: i128, now: u64) -> (r: Result<
        (),
        Error,
    >)
        requires
            old(slot).wf(asset@),
            unstake_refusal(*old(slot), amount, now) is None ==> sync_succeeds(
                old(slot).ledger,
                now,
            ),
        ensures
            unstake_refusal(*old(slot), amount, now) matches Some(e) ==> r == Err::<(), Error>(e)
                && *final(slot) == *old(slot),
            unstake_refusal(*old(slot), amount, now) is None ==> {
                &&& r is Ok
                &&& unstake_applied(*old(slot), *final(slot), *asset, amount, now)
                &&& final(slot).wf(asset@)
            },
    {
        Self::validate_unstake(amount)?;
        MultiAssetStaking::new(now).unstake(slot, asset, amount)
    }

    /// The staked balance of a `(staker, asset)` pair: its position's
    /// principal, or zero without one.
    pub fn get_balance(position: &Option<StakingPosition>) -> (b: i128)
        ensures
            b == balance_of(*position),
    {
        match position {
            Some(p) => p.principal,
            None => 0,
        }
    }

    /// A snapshot aggregating a staker's active positions, without changing
    /// anything: total principal, total accrued yield, asset count,
    /// principal-weighted average APR and the positions.
    pub fn get_portfolio(positions: &Vec<StakingPosition>) -> (s: PortfolioSnapshot)
        requires
            positions@.len() <= u32::MAX,
            snapshot_fits(positions@),
        ensures
            s.total_principal == total_principal(positions@),
            s.total_accrued_yield == total_accrued(positions@),
            s.asset_count == positions@.len(),
            s.weighted_avg_apr == weighted_avg_apr(positions@),
            s.positions@ == positions@,
    {
        MultiAssetStaking::new(0).portfolio_snapshot(positions)
    }

    /// The total yield a staker has earned across all their assets as of
    /// ledger time `now`, without changing anything.
    pub fn portfolio_yield(ledgers: &Vec<YieldLedger>, now: u64) -> (y: i128)
        requires
            portfolio_yield_ok(ledgers@, now),
        ensures
            y == total_yield(ledgers@, now),
    {
        MultiAssetStaking::new(now).portfolio_yield(ledgers)
    }

    /// The configuration in effect for `asset`: its own, or else one built
    /// from the global defaults (5 % APR, daily compounding when none are
    /// set) with no stake limits and immediate unlock.
    pub fn load_asset_config(
        asset_config: Option<AssetYieldRate>,
        defaults: Option<StakingConfig>,
        asset: &String,
    ) -> (r: AssetYieldRate)
        ensures
            asset_config is Some ==> r == asset_config->Some_0,
            asset_config is None ==> {
                let global = match defaults {
                    Some(g) => g,
                    None => StakingConfig { default_apr: DEFAULT_APR, default_mode: DEFAULT_MODE },
                };
                r == (AssetYieldRate {
                    asset: *asset,
                    apr: global.default_apr,
                    mode: global.default_mode,
                    min_stake: 0,
                    max_stake: 0,
                    unlock_schedule: UnlockSchedule::Immediate,
                })
            },
    {
        if let Some(cfg) = asset_config {
            return cfg;
        }
        let global = match defaults {
            Some(g) => g,
            None => StakingConfig { default_apr: DEFAULT_APR, default_mode: DEFAULT_MODE },
        };
        AssetYieldRate {
            asset: asset.clone(),
            apr: global.default_apr,
            mode: global.default_mode,
            min_stake: 0,
            max_stake: 0,
            unlock_schedule: UnlockSchedule::Immediate,
        }
    }

    /// The configuration record for an asset's yield terms.
    pub fn configure_asset(
        asset: &String,
        apr: i128,
        mode: CompoundingMode,
        min_stake: i128,
        max_stake: i128,
        unlock_schedule: UnlockSchedule,
    ) -> (r: AssetYieldRate)
        ensures
            r == (AssetYieldRate {
                asset: *asset,
                apr,
                mode,
                min_stake,
                max_stake,
                unlock_schedule,
            }),
    {
        AssetYieldRate { asset: asset.clone(), apr, mode, min_stake, max_stake, unlock_schedule }
    }

    /// The global default yield terms.
    pub fn set_yield_defaults(default_apr: i128, mode: CompoundingMode) -> (r: StakingConfig)
        ensures
            r == (StakingConfig { default_apr, default_mode: mode }),
    {
        StakingConfig { default_apr, default_mode: mode }
    }

    /// Open (or replace) the pair's yield position at ledger time `now`; an
    /// existing position is checkpointed and its accrued yield kept.
    pub fn open_yield_position(
        ledger: &mut YieldLedger,
        staker: &String,
        asset: &String,
        principal: i128,
        apr: i128,
        mode: CompoundingMode,
        now: u64,
    ) -> (r: YieldRecord)
        requires
            open_succeeds(*old(ledger), now),
        ensures
            r == (YieldRecord {
                staker: *staker,
                asset: *asset,
                principal,
                apr,
                mode,
                last_accrual_ts: now,
                accrued_yield: match old(ledger).record {
                    None => 0,
                    Some(rec) => checkpoint(rec, now)->Ok_0.accrued_yield,
                },
            }),
            final(ledger).record == Some(r),
            final(ledger).history@ == match old(ledger).record {
                None => old(ledger).history@,
                Some(rec) => checkpoint_history(old(ledger).history@, rec, now),
            },
            final(ledger).schedules == old(ledger).schedules,
    {
        let engine = YieldEngine::new(now);
        match engine.open_position(ledger, staker, asset, principal, apr, mode) {
            Ok(rec) => rec,
            Err(_) => {
                proof {
                    assert(false);
                }
                YieldRecord {
                    staker: staker.clone(),
                    asset: asset.clone(),
                    principal,
                    apr,
                    mode,
                    last_accrual_ts: now,
                    accrued_yield: 0,
                }
            },
        }
    }

    /// Checkpoint the pair's position at `now`, realizing the yield accrued
    /// so far and logging the elapsed period.
    pub fn accrue_yield(ledger: &mut YieldLedger, now: u64) -> (r: YieldRecord)
        requires
            accrue_succeeds(*old(ledger), now),
        ensures
            r == checkpoint(old(ledger).record->Some_0, now)->Ok_0,
            final(ledger).record == Some(r),
            final(ledger).history@ == checkpoint_history(
                old(ledger).history@,
                old(ledger).record->Some_0,
                now,
            ),
            final(ledger).schedules == old(ledger).schedules,
    {
        let engine = YieldEngine::new(now);
        match engine.accrue(ledger) {
            Ok(rec) => rec,
            Err(_) => {
                proof {
                    assert(false);
                }
                YieldRecord {
                    staker: String::new(),
                    asset: String::new(),
                    principal: 0,
                    apr: 0,
                    mode: CompoundingMode::Daily,
                    last_accrual_ts: 0,
                    accrued_yield: 0,
                }
            },
        }
    }

    /// Claim all yield of the pair's position at `now`: the position is
    /// checkpointed, its accrued yield is returned, and the position keeps
    /// running with zero unclaimed yield; a claim marker ends the history.
    pub fn claim_yield(ledger: &mut YieldLedger, now: u64) -> (claimed: i128)
        requires
            accrue_succeeds(*old(ledger), now),
        ensures
            ({
                let rec = checkpoint(old(ledger).record->Some_0, now)->Ok_0;
                &&& claimed == rec.accrued_yield
                &&& final(ledger).record == Some(YieldRecord { accrued_yield: 0, ..rec })
                &&& final(ledger).history@ == checkpoint_history(
                    old(ledger).history@,
                    old(ledger).record->Some_0,
                    now,
                ).push(
                    YieldHistoryEntry {
                        timestamp: now,
                        period_seconds: 0,
                        apr: rec.apr,
                        yield_earned: 0,
                        cumulative_yield: 0,
                        is_claim: true,
                    },
                )
                &&& final(ledger).schedules == old(ledger).schedules
            }),
    {
        let record = Self::accrue_yield(ledger, now);
        let engine = YieldEngine::new(now);
        engine.finalize_claim(ledger, record)
    }

    /// The total yield the pair's position has earned at `now`, checkpointed
    /// plus pending, without changing anything.
    pub fn current_yield(ledger: &YieldLedger, now: u64) -> (y: i128)
        requires
            ledger.record is Some,
            pending_spec(ledger.record->Some_0, now) is Ok,
            checked_add_spec(
                ledger.record->Some_0.accrued_yield as int,
                pending_spec(ledger.record->Some_0, now)->Ok_0 as int,
            ) is Ok,
        ensures
            y == ledger.record->Some_0.accrued_yield + pending_spec(
                ledger.record->Some_0,
                now,
            )->Ok_0,
    {
        let engine = YieldEngine::new(now);
        match engine.current_yield(ledger) {
            Ok(y) => y,
            Err(_) => {
                proof {
                    assert(false);
                }
                0
            },
        }
    }

    /// Change the pair's APR at `now`; yield earned at the old rate is
    /// realized first.
    pub fn set_yield_rate(ledger: &mut YieldLedger, new_apr: i128, now: u64) -> (r: YieldRecord)
        requires
            accrue_succeeds(*old(ledger), now),
        ensures
            r == (YieldRecord { apr: new_apr, ..checkpoint(old(ledger).record->Some_0, now)->Ok_0 }),
            final(ledger).record == Some(r),
            final(ledger).history@ == checkpoint_history(
                old(ledger).history@,
                old(ledger).record->Some_0,
                now,
            ),
            final(ledger).schedules == old(ledger).schedules,
    {
        let engine = YieldEngine::new(now);
        match engine.set_rate(ledger, new_apr) {
            Ok(rec) => rec,
            Err(_) => {
                proof {
                    assert(false);
                }
                YieldRecord {
                    staker: String::new(),
                    asset: String::new(),
                    principal: 0,
                    apr: 0,
                    mode: CompoundingMode::Daily,
                    last_accrual_ts: 0,
                    accrued_yield: 0,
                }
            },
        }
    }

    /// The pair's full yield history, oldest first.
    pub fn yield_history(ledger: &YieldLedger, now: u64) -> (h: Vec<YieldHistoryEntry>)
        ensures
            h@ == ledger.history@,
    {
        YieldEngine::new(now).history(ledger)
    }

    /// Project future earnings of a position over `horizon_seconds`.
    pub fn project_yield(principal: i128, apr: i128, mode: CompoundingMode, horizon_seconds: u64) -> (p:
        YieldProjection)
        requires
            projection_spec(principal, apr, mode, horizon_seconds) is Ok,
        ensures
            p == projection_spec(principal, apr, mode, horizon_seconds)->Ok_0,
            p.projected_balance == p.principal + p.projected_yield,
    {
        match YieldProjector::project(principal, apr, mode, horizon_seconds) {
            Ok(p) => p,
            Err(_) => {
                proof {
                    assert(false);
                }
                YieldProjection {
                    principal,
                    apr,
                    mode,
                    horizon_seconds,
                    projected_yield: 0,
                    projected_balance: principal,
                    effective_apy: 0,
                }
            },
        }
    }

    /// The effective APY of a nominal APR under a compounding mode.
    pub fn apr_to_apy(apr: i128, mode: CompoundingMode) -> (apy: i128)
        requires
            apr_to_apy_spec(apr, mode_strategy(mode)) is Ok,
        ensures
            apy == apr_to_apy_spec(apr, mode_strategy(mode))->Ok_0,
    {
        match APYCalculator::apr_to_apy(apr, mode.to_strategy()) {
            Ok(v) => v,
            Err(_) => {
                proof {
                    assert(false);
                }
                0
            },
        }
    }

    /// The nominal APR of an effective APY under a compounding mode.
    pub fn apy_to_apr(apy: i128, mode: CompoundingMode) -> (apr: i128)
        requires
            apy_to_apr_spec(apy, mode_strategy(mode)) is Ok,
        ensures
            apr == apy_to_apr_spec(apy, mode_strategy(mode))->Ok_0,
    {
        match APYCalculator::apy_to_apr(apy, mode.to_strategy()) {
            Ok(v) => v,
            Err(_) => {
                proof {
                    assert(false);
                }
                0
            },
        }
    }

    /// Schedule a distribution for the pair: one-off when `interval_seconds`
    /// is 0, recurring otherwise.
    pub fn schedule_distribution(
        ledger: &mut YieldLedger,
        staker: &String,
        asset: &String,
        amount: i128,
        due_ts: u64,
        interval_seconds: u64,
        now: u64,
    ) -> (s: DistributionSchedule)
        ensures
            s == (DistributionSchedule {
                staker: *staker,
                asset: *asset,
                due_ts,
                interval_seconds,
                amount,
                executed: false,
            }),
            final(ledger).schedules@ == old(ledger).schedules@.push(s),
            final(ledger).record == old(ledger).record,
            final(ledger).history == old(ledger).history,
    {
        YieldEngine::new(now).schedule_distribution(ledger, staker, asset, amount, due_ts, interval_seconds)
    }

    /// Process the pair's due distributions at `now`, returning the total
    /// amount that became due.
    pub fn process_distribution(ledger: &mut YieldLedger, now: u64) -> (total: i128)
        requires
            distribution_fits(old(ledger).schedules@, now),
        ensures
            total == due_total(old(ledger).schedules@, now),
            final(ledger).schedules@.len() == old(ledger).schedules@.len(),
            final(ledger).record == old(ledger).record,
            final(ledger).history == old(ledger).history,
    {
        YieldEngine::new(now).process_distribution(ledger)
    }
}

} // verus!
