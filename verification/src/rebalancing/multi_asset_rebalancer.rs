//! Execution of a rebalance plan across several assets.
//!
//! Trade routing is not implemented yet: execution accepts every plan and a
//! simulation reports no trades and no costs.

use crate::rebalancing::RebalanceAdjustment;
use vstd::prelude::*;

verus! {

/// Errors of the multi-asset rebalancer.
#[derive(Debug, Clone, Copy, PartialEq, Eq, Structural)]
pub enum RebalanceError {
    /// The target allocation weights do not sum to 10_000 basis points (100%).
    InvalidAllocation,
    /// The supplied current holding weights do not sum to 10_000 basis points.
    InvalidCurrentHoldings,
    /// No target allocation has been configured for this portfolio.
    TargetAllocationNotFound,
    /// No current holdings have been supplied for this portfolio.
    CurrentHoldingsNotFound,
}

/// How trades of a rebalance are to be routed.
#[derive(Debug, Clone, Copy, PartialEq, Eq, Structural)]
pub enum ExecutionStrategy {
    MinimalCost,
    MinimalTime,
    Balanced,
}

/// One swap of a rebalance.
#[derive(Debug)]
pub struct Trade {
    pub asset_to_sell: String,
    pub asset_to_buy: String,
    pub amount_to_sell: u128,
    pub expected_amount_to_buy: u128,
}

/// What executing a plan would do.
#[derive(Debug)]
pub struct SimulationResult {
    pub trades: Vec<Trade>,
    pub total_fee: u128,
    pub slippage: u128,
}

/// Executes rebalance plans across several assets.
pub struct MultiAssetRebalancer;

impl MultiAssetRebalancer {
    /// Execute a plan; every plan is accepted.
    pub fn rebalance(
        portfolio_id: &String,
        strategy: ExecutionStrategy,
        adjustments: &Vec<RebalanceAdjustment>,
    ) -> (r: Result<(), RebalanceError>)
        ensures
            r == Ok::<(), RebalanceError>(()),
    {
        Ok(())
    }

    /// Simulate a plan: no trades, no fee, no slippage.
    pub fn simulate_rebalance(
        portfolio_id: &String,
        strategy: ExecutionStrategy,
        adjustments: &Vec<RebalanceAdjustment>,
    ) -> (r: Result<SimulationResult, RebalanceError>)
        ensures
            r matches Ok(s) && s.trades@.len() == 0 && s.total_fee == 0 && s.slippage == 0,
    {
        Ok(SimulationResult { trades: Vec::new(), total_fee: 0, slippage: 0 })
    }
}

} // verus!
