//! Multi-asset staking: fixed-point yield math, compounding, APR/APY
//! conversion, projections and the yield-accrual engine.

pub mod fixed_point;
pub mod compounding;
pub mod apy;
pub mod projection;
pub mod records;
pub mod engine;
pub mod contract;
pub mod multi_asset;
