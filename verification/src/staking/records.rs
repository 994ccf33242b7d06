//! Records for tracking yield accrual, history, schedules and multi-asset
//! positions.
//!
//! Stakers and assets are identified by their textual form (an address
//! string and an asset symbol such as `XLM`).

use crate::staking::compounding::Compounding;
use vstd::prelude::*;

verus! {

/// The compounding model, as stored with a position.
///
/// [`Compounding`] is the enum used by the math layer; this is its stored twin.
/// Convert between them with [`CompoundingMode::to_strategy`] and
/// [`CompoundingMode::from_strategy`].
#[derive(Debug, Clone, Copy, PartialEq, Eq, Structural)]
pub enum CompoundingMode {
    /// Daily compounding (365 periods/year).
    Daily,
    /// Continuous compounding (`e^(rt)`).
    Continuous,
}

/// The math-layer strategy a stored mode stands for.
pub open spec fn mode_strategy(m: CompoundingMode) -> Compounding {
    match m {
        CompoundingMode::Daily => Compounding::Daily,
        CompoundingMode::Continuous => Compounding::Continuous,
    }
}

/// The stored mode a math-layer strategy stands for.
pub open spec fn strategy_mode(s: Compounding) -> CompoundingMode {
    match s {
        Compounding::Daily => CompoundingMode::Daily,
        Compounding::Continuous => CompoundingMode::Continuous,
    }
}

impl CompoundingMode {
    /// Convert to the math-layer [`Compounding`] strategy.
    pub fn to_strategy(self) -> (r: Compounding)
        ensures
            r == mode_strategy(self),
            strategy_mode(r) == self,
    {
        match self {
            CompoundingMode::Daily => Compounding::Daily,
            CompoundingMode::Continuous => Compounding::Continuous,
        }
    }

    /// Build from the math-layer [`Compounding`] strategy.
    pub fn from_strategy(s: Compounding) -> (r: Self)
        ensures
            r == strategy_mode(s),
            mode_strategy(r) == s,
    {
        match s {
            Compounding::Daily => CompoundingMode::Daily,
            Compounding::Continuous => CompoundingMode::Continuous,
        }
    }
}

/// Converting a stored mode to a strategy and back gives the same mode, and
/// converting a strategy to a stored mode and back gives the same strategy.
pub proof fn lemma_mode_roundtrip(m: CompoundingMode, s: Compounding)
    ensures
        strategy_mode(mode_strategy(m)) == m,
        mode_strategy(strategy_mode(s)) == s,
{
}

/// A staker's active yield-accruing position for a single asset.
///
/// `accrued_yield` is the yield already realized and checkpointed up to
/// `last_accrual_ts`; yield earned since then is computed on demand. `apr` is
/// fixed-point.
#[derive(Debug)]
pub struct YieldRecord {
    /// The staker who owns the position.
    pub staker: String,
    /// The asset being staked (a symbol such as `XLM`, `USDC`).
    pub asset: String,
    /// Principal currently staked, in the asset's base units.
    pub principal: i128,
    /// Current annual percentage rate for this position, fixed-point.
    pub apr: i128,
    /// Compounding model applied to this position.
    pub mode: CompoundingMode,
    /// Ledger timestamp (seconds) at which yield was last checkpointed.
    pub last_accrual_ts: u64,
    /// Yield realized and checkpointed up to `last_accrual_ts`, base units.
    pub accrued_yield: i128,
}

impl YieldRecord {
    /// A copy of the record with the same fields.
    pub fn duplicate(&self) -> (r: Self)
        ensures
            r == *self,
    {
        YieldRecord {
            staker: self.staker.clone(),
            asset: self.asset.clone(),
            principal: self.principal,
            apr: self.apr,
            mode: self.mode,
            last_accrual_ts: self.last_accrual_ts,
            accrued_yield: self.accrued_yield,
        }
    }
}

/// A single immutable entry in a staker/asset yield history log.
///
/// One entry is appended each time yield is checkpointed, the rate changes, or
/// yield is claimed.
#[derive(Debug, Clone, Copy, PartialEq, Eq, Structural)]
pub struct YieldHistoryEntry {
    /// Ledger timestamp (seconds) the entry covers up to.
    pub timestamp: u64,
    /// Duration in seconds this entry accounts for since the previous entry.
    pub period_seconds: u64,
    /// APR in effect over this period, fixed-point.
    pub apr: i128,
    /// Yield earned during this period, base units.
    pub yield_earned: i128,
    /// Cumulative unclaimed yield after this entry, base units.
    pub cumulative_yield: i128,
    /// True when this is a zero-period marker recording a yield claim.
    /// Claim markers have `yield_earned == 0` and `cumulative_yield == 0`.
    pub is_claim: bool,
}

/// A projected future-earnings estimate for a position.
#[derive(Debug, Clone, Copy, PartialEq, Eq, Structural)]
pub struct YieldProjection {
    /// Principal the projection is based on, base units.
    pub principal: i128,
    /// APR assumed for the projection, fixed-point.
    pub apr: i128,
    /// Compounding model assumed.
    pub mode: CompoundingMode,
    /// Horizon of the projection in seconds from now.
    pub horizon_seconds: u64,
    /// Projected yield over the horizon, base units.
    pub projected_yield: i128,
    /// Projected total balance (principal + yield) at the horizon, base units.
    pub projected_balance: i128,
    /// Effective APY implied by the assumed APR and mode, fixed-point.
    pub effective_apy: i128,
}

/// A scheduled yield distribution to a staker.
#[derive(Debug)]
pub struct DistributionSchedule {
    /// The staker to receive the distribution.
    pub staker: String,
    /// The asset being distributed.
    pub asset: String,
    /// Ledger timestamp (seconds) at which the distribution becomes due.
    pub due_ts: u64,
    /// Interval in seconds between recurring distributions (0 = one-off).
    pub interval_seconds: u64,
    /// Amount scheduled for distribution, base units.
    pub amount: i128,
    /// Whether this schedule has been fully distributed / closed.
    pub executed: bool,
}

impl DistributionSchedule {
    /// A copy of the schedule with the same fields.
    pub fn duplicate(&self) -> (r: Self)
        ensures
            r == *self,
    {
        DistributionSchedule {
            staker: self.staker.clone(),
            asset: self.asset.clone(),
            due_ts: self.due_ts,
            interval_seconds: self.interval_seconds,
            amount: self.amount,
            executed: self.executed,
        }
    }
}

/// The unlock schedule controlling when a staked position can be withdrawn.
///
/// - `Immediate`: no lock-up.
/// - `Cliff(unlock_ts)`: the full principal is locked until `unlock_ts`.
/// - `Graduated`: the principal unlocks in tranches of `tranche_pct_bps` every
///   `interval_seconds`, starting at `start_ts`.
#[derive(Debug, Clone, Copy, PartialEq, Eq, Structural)]
pub enum UnlockSchedule {
    /// No lock-up.
    Immediate,
    /// Entire position unlocks at `unlock_ts` (ledger timestamp, seconds).
    Cliff(u64),
    /// Tranched unlock.
    Graduated(GraduatedUnlock),
}

/// Parameters for a graduated (tranche-based) unlock schedule.
#[derive(Debug, Clone, Copy, PartialEq, Eq, Structural)]
pub struct GraduatedUnlock {
    /// Ledger timestamp (seconds) at which the first tranche unlocks.
    pub start_ts: u64,
    /// Seconds between consecutive tranches.
    pub interval_seconds: u64,
    /// Percentage of principal that unlocks per tranche, in basis points.
    pub tranche_pct_bps: u32,
}

/// Asset-specific yield configuration, independent per asset.
///
/// `min_stake` prevents dust positions; `max_stake` caps individual exposure.
/// Both are in base units; `0` means no limit.
#[derive(Debug)]
pub struct AssetYieldRate {
    /// Asset this configuration applies to.
    pub asset: String,
    /// Annual percentage rate for this asset, fixed-point.
    pub apr: i128,
    /// Compounding model for this asset.
    pub mode: CompoundingMode,
    /// Minimum stake required to open a position (0 = no minimum).
    pub min_stake: i128,
    /// Maximum stake allowed per staker (0 = no maximum).
    pub max_stake: i128,
    /// Unlock schedule applied to new positions for this asset.
    pub unlock_schedule: UnlockSchedule,
}

/// A staking position for a single `(staker, asset)` pair.
#[derive(Debug)]
pub struct StakingPosition {
    /// Staker who owns this position.
    pub staker: String,
    /// Asset staked in this position.
    pub asset: String,
    /// Principal currently locked in this position, base units.
    pub principal: i128,
    /// APR in effect for this position, fixed-point.
    pub apr: i128,
    /// Compounding model for this position.
    pub mode: CompoundingMode,
    /// Ledger timestamp (seconds) at which the position was first opened.
    pub opened_at: u64,
    /// Unlock schedule for this position.
    pub unlock_schedule: UnlockSchedule,
    /// Cached accrued yield (updated on each checkpoint), base units.
    pub accrued_yield: i128,
}

impl StakingPosition {
    /// A copy of the position with the same fields.
    pub fn duplicate(&self) -> (r: Self)
        ensures
            r == *self,
    {
        StakingPosition {
            staker: self.staker.clone(),
            asset: self.asset.clone(),
            principal: self.principal,
            apr: self.apr,
            mode: self.mode,
            opened_at: self.opened_at,
            unlock_schedule: self.unlock_schedule,
            accrued_yield: self.accrued_yield,
        }
    }
}

/// A point-in-time snapshot of an entire portfolio's staking state.
#[derive(Debug)]
pub struct PortfolioSnapshot {
    /// Total principal staked across all assets, summed in their base units.
    pub total_principal: i128,
    /// Total accrued yield across all assets, base units.
    pub total_accrued_yield: i128,
    /// Number of distinct assets held in the portfolio.
    pub asset_count: u32,
    /// Weighted-average APR across all positions (weighted by principal).
    pub weighted_avg_apr: i128,
    /// All active positions at the time of the snapshot.
    pub positions: Vec<StakingPosition>,
}

/// Default yield parameters applied when a position is first opened by a stake.
#[derive(Debug, Clone, Copy, PartialEq, Eq, Structural)]
pub struct StakingConfig {
    /// APR seeded onto a newly opened yield position, fixed-point.
    pub default_apr: i128,
    /// Compounding mode seeded onto a newly opened yield position.
    pub default_mode: CompoundingMode,
}

} // verus!
