//! Fee management: fee structures (flat, percentage, tiered), waivers and
//! revenue recipients.

use vstd::prelude::*;

verus! {

/// Errors of fee management.
#[derive(Debug, Clone, Copy, PartialEq, Eq, Structural)]
pub enum Error {
    FeeNotFound,
    FeeInactive,
    InvalidFeeConfiguration,
    ArithmeticOverflow,
    FeeWaiverNotFound,
    TooManyRecipients,
}

/// How a fee is computed.
#[derive(Debug, Clone, Copy, PartialEq, Eq, Structural)]
pub enum FeeType {
    Flat,
    Percentage,
    Tiered,
}

/// One tier of a tiered fee: amounts from `threshold` up pay `fee_bps`.
#[derive(Debug, Clone, Copy, PartialEq, Eq, Structural)]
pub struct TierEntry {
    pub threshold: i128,
    pub fee_bps: i128,
}

/// A configured fee.
#[derive(Debug)]
pub struct FeeStructure {
    pub fee_id: String,
    pub fee_type: FeeType,
    pub amount_bps: i128,
    pub tiered_entries: Vec<TierEntry>,
    pub active: bool,
}

/// A recipient of collected fees and its share.
#[derive(Debug)]
pub struct RevenueRecipient {
    pub address: String,
    pub share_numerator: u32,
}

/// A collected fee.
#[derive(Debug)]
pub struct FeeRecord {
    pub fee_id: String,
    pub portfolio_id: String,
    pub amount: i128,
    pub calculated_fee: i128,
    pub timestamp: u64,
    pub beneficiary: String,
}

/// A fee discount or waiver for an address or a portfolio.
#[derive(Debug)]
pub struct FeeWaiver {
    pub address: Option<String>,
    pub portfolio_id: Option<String>,
    pub discount_bps: i128,
    pub waived: bool,
}

/// The outcome of a fee calculation.
#[derive(Debug)]
pub struct FeeCalculationResult {
    pub fee_id: String,
    pub gross_amount: i128,
    pub discount_bps: i128,
    pub fee_amount: i128,
    pub waived: bool,
}

/// The fee-management contract.
pub struct FeeManagementContract;

} // verus!
