//! Portfolio valuation: performance metrics and valuation records.

pub mod performance;
pub mod records;
