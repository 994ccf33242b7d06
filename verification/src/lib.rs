//! Verified core of the AstraPort portfolio contracts.

pub mod audit;
pub mod bytes;
pub mod emergency;
pub mod events;
pub mod fee;
pub mod gamification;
pub mod rebalancing;
pub mod staking;
pub mod valuation;
pub mod versioning;
pub mod wide;
