//! Records for portfolio valuation, snapshots and performance tracking.
//!
//! Values use the same 1e18 fixed-point scale as the staking contract.

use vstd::prelude::*;

verus! {

/// Scale factor: 1e18. A value of `1.0` is represented as `1_000_000_000_000_000_000`.
pub const SCALE: i128 = 1_000_000_000_000_000_000;

/// One whole unit in fixed-point representation.
pub const ONE: i128 = SCALE;

/// A single asset held in a portfolio.
#[derive(Debug)]
pub struct PortfolioAsset {
    /// Asset symbol (e.g. `XLM`, `USDC`).
    pub asset: String,
    /// Quantity of this asset held, in base units (integer).
    pub quantity: i128,
    /// Current price per unit in the portfolio's base currency, fixed-point.
    pub current_price: i128,
    /// Average cost basis per unit, fixed-point.
    pub cost_basis: i128,
}

/// The allocation of a single asset as a share of total portfolio value, in
/// basis points (10000 = 100%).
#[derive(Debug)]
pub struct AssetAllocation {
    /// Asset symbol.
    pub asset: String,
    /// Current market value (quantity × current_price) in fixed-point.
    pub market_value: i128,
    /// Allocation percentage in basis points.
    pub allocation_bps: u32,
}

/// Absolute and percentage returns for the portfolio.
#[derive(Debug, Clone, Copy, PartialEq, Eq, Structural)]
pub struct PortfolioReturns {
    /// Absolute return = current_value − initial_investment, fixed-point.
    pub absolute_return: i128,
    /// Percentage return = absolute_return / initial_investment, fixed-point.
    pub percentage_return: i128,
}

/// Comprehensive performance metrics for a portfolio.
#[derive(Debug, Clone, Copy, PartialEq, Eq, Structural)]
pub struct PerformanceMetrics {
    /// Annualized Sharpe ratio, fixed-point.
    pub sharpe_ratio: i128,
    /// Annualized Sortino ratio, fixed-point.
    pub sortino_ratio: i128,
    /// Maximum drawdown from peak to trough, as a positive fraction, fixed-point.
    pub max_drawdown: i128,
    /// Time-weighted return over the evaluation period, fixed-point.
    pub time_weighted_return: i128,
}

/// A point-in-time snapshot of the entire portfolio.
#[derive(Debug, Clone, Copy, PartialEq, Eq, Structural)]
pub struct PortfolioSnapshot {
    /// Ledger timestamp (seconds) when this snapshot was taken.
    pub timestamp: u64,
    /// Total portfolio value at this moment, fixed-point.
    pub total_value: i128,
    /// Total initial investment (cumulative cost basis), fixed-point.
    pub total_cost_basis: i128,
    /// Number of assets in the portfolio at this moment.
    pub asset_count: u32,
}

/// A single entry in the valuation history log.
#[derive(Debug)]
pub struct ValuationHistoryEntry {
    /// Ledger timestamp (seconds).
    pub timestamp: u64,
    /// Total portfolio value at this timestamp, fixed-point.
    pub total_value: i128,
    /// Absolute return at this point, fixed-point.
    pub absolute_return: i128,
    /// Percentage return at this point, fixed-point.
    pub percentage_return: i128,
    /// Per-asset market values at this point, in asset order.
    pub asset_values: Vec<(String, i128)>,
}

} // verus!
