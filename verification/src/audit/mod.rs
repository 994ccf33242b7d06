//! The audit log: entry records, filtered queries, and the canonical byte
//! layout that chain hashing runs over.

pub mod log_query;
pub mod checksum;

use vstd::prelude::*;

verus! {

/// One named value of a state snapshot.
#[derive(Debug)]
pub struct SnapshotField {
    pub key: String,
    pub value: i128,
}

/// Named values captured before or after an audited change, in insertion
/// order.
#[derive(Debug)]
pub struct StateSnapshot {
    pub fields: Vec<SnapshotField>,
}

/// The fields of an audit log entry that queries and chain hashing read.
#[derive(Debug)]
pub struct AuditLog {
    /// Position in the log, from 0.
    pub seq: u64,
    /// Ledger timestamp of the audited event.
    pub timestamp: u64,
    /// Numeric code of the event type.
    pub event_type: u32,
    /// Permission bits the actor exercised.
    pub permissions: u32,
    /// Who acted.
    pub actor: String,
    /// The portfolio concerned.
    pub portfolio: String,
    /// Outcome label.
    pub outcome: String,
    /// Free-form detail.
    pub detail: String,
    /// State before the change.
    pub state_before: StateSnapshot,
    /// State after the change.
    pub state_after: StateSnapshot,
}

} // verus!
