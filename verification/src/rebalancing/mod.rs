//! Portfolio rebalancing: portfolios with owners and target allocations,
//! drift-based rebalance plans, and interval schedules.
//!
//! Weights are in basis points (10_000 = 100%). All state of one portfolio is
//! held in a [`PortfolioState`]; the contract's operations take that state, the
//! caller's identity (already authenticated by the host) and the ledger time.

pub mod weights;
pub mod rbac;
pub mod multi_asset_rebalancer;
pub mod contract;

use crate::rebalancing::weights::{copy_entries, copy_names};
use vstd::prelude::*;

verus! {

/// Errors returned by the rebalancing contract.
#[derive(Debug, Clone, Copy, PartialEq, Eq, Structural)]
pub enum RebalancingError {
    /// The target allocation weights do not sum to 10_000 basis points (100%),
    /// or an allocated asset is missing from the portfolio's asset list.
    InvalidAllocation,
    /// The supplied current holding weights do not sum to 10_000 basis points.
    InvalidCurrentHoldings,
    /// No target allocation has been configured for this portfolio.
    TargetAllocationNotFound,
    /// No current holdings have been supplied for this portfolio.
    CurrentHoldingsNotFound,
    /// An error occurred during multi-asset rebalancing.
    MultiAssetRebalanceFailed,
    /// Caller is not authorized to modify this portfolio.
    Unauthorized,
    /// The portfolio already exists.
    PortfolioAlreadyExists,
    /// The portfolio does not exist.
    PortfolioNotFound,
    /// The asset list is empty.
    EmptyAssets,
    /// The portfolio name is empty.
    EmptyName,
    /// The allocation percentages do not sum to 100% (within ±0.1% tolerance).
    AllocationSumOutOfRange,
}

/// How often a scheduled rebalance runs.
#[derive(Debug, Clone, Copy, PartialEq, Eq, Structural)]
pub enum RebalanceInterval {
    Hourly,
    Daily,
    Weekly,
    Monthly,
}

/// Metadata for a portfolio including naming and timestamps.
#[derive(Debug)]
pub struct PortfolioMetadata {
    /// Human-readable portfolio name.
    pub name: String,
    /// Optional description of the portfolio strategy.
    pub description: String,
    /// Ledger timestamp when the portfolio was created.
    pub created_at: u64,
    /// Ledger timestamp of the last modification.
    pub last_modified: u64,
}

/// Target allocation for a portfolio: each asset's target weight in basis
/// points, in the order the allocation map yields them.
#[derive(Debug)]
pub struct TargetAllocation {
    pub allocations: Vec<(String, u32)>,
}

/// Current portfolio weights in basis points. A holding omitted from this
/// table is treated as zero when it is compared with the target allocation.
#[derive(Debug)]
pub struct CurrentHoldings {
    pub allocations: Vec<(String, u32)>,
}

/// A complete portfolio with owner, assets, target allocations, and metadata.
#[derive(Debug)]
pub struct Portfolio {
    /// Unique portfolio identifier.
    pub id: String,
    /// Address of the portfolio owner.
    pub owner: String,
    /// Ordered list of asset symbols in this portfolio.
    pub assets: Vec<String>,
    /// Target allocation weights in basis points per asset.
    pub target_allocation: TargetAllocation,
    /// Portfolio metadata (name, description, timestamps).
    pub metadata: PortfolioMetadata,
}

/// A portfolio's rebalance schedule.
#[derive(Debug)]
pub struct RebalancingSchedule {
    pub portfolio_id: String,
    pub interval: RebalanceInterval,
    /// Earliest ledger time at which the next scheduled run may execute.
    pub next_execution: u64,
    /// Ledger time of the last scheduled run; 0 means never.
    pub last_execution: u64,
}

/// What a rebalance run found.
#[derive(Debug, Clone, Copy, PartialEq, Eq, Structural)]
pub enum RebalanceOutcome {
    /// A plan was computed.
    Done,
    /// No target allocation was configured.
    NoTarget,
    /// No current holdings were supplied.
    NoHoldings,
    /// Any other failure.
    Failed,
}

/// What started a rebalance run.
#[derive(Debug, Clone, Copy, PartialEq, Eq, Structural)]
pub enum ExecutionTrigger {
    /// Requested by the owner.
    Manual,
    /// Run by the schedule.
    Scheduled,
}

/// One entry of a portfolio's execution history.
#[derive(Debug, Clone, Copy, PartialEq, Eq, Structural)]
pub struct ExecutionHistoryRecord {
    pub timestamp: u64,
    pub outcome: RebalanceOutcome,
    pub details: ExecutionTrigger,
}

/// The action required to move a holding back toward its target weight.
#[derive(Debug, Clone, Copy, PartialEq, Eq, Structural)]
pub enum RebalanceDirection {
    Buy,
    Sell,
}

/// An asset whose current weight differs from its target by more than the
/// configured tolerance.
#[derive(Debug)]
pub struct RebalanceAdjustment {
    pub asset: String,
    pub current_weight_bps: u32,
    pub target_weight_bps: u32,
    /// `current_weight_bps - target_weight_bps`. Positive drift means sell;
    /// negative drift means buy.
    pub drift_bps: i32,
    pub direction: RebalanceDirection,
}

/// Computed rebalance plan for a portfolio.
#[derive(Debug)]
pub struct RebalanceResult {
    pub portfolio_id: String,
    pub drift_threshold_bps: u32,
    pub adjustments: Vec<RebalanceAdjustment>,
}

/// Result of a schedule change.
#[derive(Debug, Clone, Copy, PartialEq, Eq, Structural)]
pub enum ScheduleStatus {
    /// The change was applied.
    Applied,
    /// The caller is not the portfolio owner.
    ErrAuth,
    /// The interval is not accepted.
    ErrVal,
    /// A schedule already exists.
    ErrExist,
    /// No schedule exists.
    ErrNone,
}

/// Result of checking a portfolio's schedule.
#[derive(Debug, Clone, Copy, PartialEq, Eq, Structural)]
pub enum ScheduleCheck {
    /// The portfolio has no schedule.
    NoSchedule,
    /// The next run is still in the future.
    NotDue,
    /// The scheduled run executed with this outcome.
    Ran(RebalanceOutcome),
}

impl View for TargetAllocation {
    type V = Seq<(String, u32)>;

    open spec fn view(&self) -> Seq<(String, u32)> {
        self.allocations@
    }
}

impl View for CurrentHoldings {
    type V = Seq<(String, u32)>;

    open spec fn view(&self) -> Seq<(String, u32)> {
        self.allocations@
    }
}

impl View for Portfolio {
    /// Identifier, owner, assets, target weights and metadata.
    type V = (String, String, Seq<String>, Seq<(String, u32)>, PortfolioMetadata);

    open spec fn view(&self) -> (String, String, Seq<String>, Seq<(String, u32)>, PortfolioMetadata) {
        (self.id, self.owner, self.assets@, self.target_allocation@, self.metadata)
    }
}

impl PortfolioMetadata {
    /// A copy with equal fields.
    pub fn duplicate(&self) -> (r: Self)
        ensures
            r == *self,
    {
        PortfolioMetadata {
            name: self.name.clone(),
            description: self.description.clone(),
            created_at: self.created_at,
            last_modified: self.last_modified,
        }
    }
}

impl TargetAllocation {
    /// A copy with equal entries.
    pub fn duplicate(&self) -> (r: Self)
        ensures
            r@ == self@,
    {
        TargetAllocation { allocations: copy_entries(&self.allocations) }
    }
}

impl CurrentHoldings {
    /// A copy with equal entries.
    pub fn duplicate(&self) -> (r: Self)
        ensures
            r@ == self@,
    {
        CurrentHoldings { allocations: copy_entries(&self.allocations) }
    }
}

impl Portfolio {
    /// A copy with equal fields.
    pub fn duplicate(&self) -> (r: Self)
        ensures
            r@ == self@,
    {
        Portfolio {
            id: self.id.clone(),
            owner: self.owner.clone(),
            assets: copy_names(&self.assets),
            target_allocation: self.target_allocation.duplicate(),
            metadata: self.metadata.duplicate(),
        }
    }
}

impl RebalancingSchedule {
    /// A copy with equal fields.
    pub fn duplicate(&self) -> (r: Self)
        ensures
            r == *self,
    {
        RebalancingSchedule {
            portfolio_id: self.portfolio_id.clone(),
            interval: self.interval,
            next_execution: self.next_execution,
            last_execution: self.last_execution,
        }
    }
}

/// Checks that a rebalance interval is supported.
pub struct ScheduleValidator;

impl ScheduleValidator {
    /// Every interval variant is supported.
    pub fn validate(interval: &RebalanceInterval) -> (ok: bool)
        ensures
            ok,
    {
        match interval {
            RebalanceInterval::Hourly
            | RebalanceInterval::Daily
            | RebalanceInterval::Weekly
            | RebalanceInterval::Monthly => true,
        }
    }
}

/// Length in seconds of a rebalance interval (a month is 30 days).
pub open spec fn interval_seconds(interval: RebalanceInterval) -> u64 {
    match interval {
        RebalanceInterval::Hourly => 3600,
        RebalanceInterval::Daily => 86400,
        RebalanceInterval::Weekly => 604800,
        RebalanceInterval::Monthly => 2592000,
    }
}

/// Length in seconds of a rebalance interval (a month is 30 days).
pub fn interval_to_seconds(interval: &RebalanceInterval) -> (secs: u64)
    ensures
        secs == interval_seconds(*interval),
{
    match interval {
        RebalanceInterval::Hourly => 3600,
        RebalanceInterval::Daily => 86400,
        RebalanceInterval::Weekly => 604800,
        RebalanceInterval::Monthly => 2592000,
    }
}

} // verus!
