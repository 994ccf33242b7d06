//! Contract versioning records: version lifecycle, upgrade proposals with
//! multi-signature approval, feature flags, migrations and the audit trail.

use vstd::prelude::*;

verus! {

/// Lifecycle status of a deployed contract version.
#[derive(Debug, Clone, Copy, PartialEq, Eq, Structural)]
pub enum VersionStatus {
    /// Version has been proposed but not yet activated.
    Proposed,
    /// Version is the current live version.
    Active,
    /// Version has been superseded by a newer version.
    Superseded,
    /// Version has been frozen for archival; can never be upgraded from.
    Frozen,
    /// Version was rolled back from an active state.
    RolledBack,
}

/// Metadata describing a single contract version.
#[derive(Debug)]
pub struct VersionMetadata {
    /// Increasing version number (starting at 1).
    pub version_number: u32,
    /// Human-readable semantic version string (e.g. "1.2.0").
    pub semantic_version: String,
    /// Status of this version.
    pub status: VersionStatus,
    /// Address that proposed this version.
    pub proposer: String,
    /// Ledger timestamp when this version was proposed.
    pub proposed_at: u64,
    /// Ledger timestamp when this version became active (0 if not yet active).
    pub activated_at: u64,
    /// Hash of the deployed WASM binary for this version.
    pub wasm_hash: [u8; 32],
    /// Ordered list of migration step descriptions for upgrading to this version.
    pub migration_steps: Vec<String>,
    /// Free-form description of changes in this version.
    pub description: String,
}

/// A single upgrade proposal pending multi-sig approval.
#[derive(Debug)]
pub struct UpgradeProposal {
    /// Unique proposal id.
    pub proposal_id: u64,
    /// The target version number to upgrade to.
    pub target_version: u32,
    /// Address of the admin who created this proposal.
    pub proposer: String,
    /// Ledger timestamp when the proposal was created.
    pub created_at: u64,
    /// Addresses that have approved this proposal.
    pub approvals: Vec<String>,
    /// Whether the proposal has been executed.
    pub executed: bool,
    /// Whether the proposal was rejected.
    pub rejected: bool,
}

/// Status of a feature flag.
#[derive(Debug, Clone, Copy, PartialEq, Eq, Structural)]
pub enum FeatureFlagStatus {
    /// Flag is disabled; feature is not available.
    Disabled,
    /// Flag is enabled for all users.
    Enabled,
    /// Flag is in gradual rollout mode (percentage-based).
    GradualRollout,
}

/// A feature flag that controls availability of specific functionality.
#[derive(Debug)]
pub struct FeatureFlag {
    /// Unique flag name.
    pub flag_name: String,
    /// Current status of the flag.
    pub status: FeatureFlagStatus,
    /// Rollout percentage (0–100) when status is `GradualRollout`.
    pub rollout_percentage: u32,
    /// Minimum version required for this feature to be available.
    pub min_version: u32,
    /// Description of what the flag controls.
    pub description: String,
    /// Ledger timestamp when the flag was last modified.
    pub last_modified: u64,
}

/// Record of a completed migration between versions.
#[derive(Debug)]
pub struct MigrationRecord {
    /// The version that was migrated from.
    pub from_version: u32,
    /// The version that was migrated to.
    pub to_version: u32,
    /// Address that performed the migration.
    pub migrator: String,
    /// Ledger timestamp when the migration completed.
    pub timestamp: u64,
    /// Whether the migration completed successfully.
    pub success: bool,
    /// Number of data items migrated.
    pub items_migrated: u64,
}

/// A single entry in the version audit trail.
#[derive(Debug)]
pub struct VersionAuditEntry {
    /// Increasing sequence id.
    pub seq: u64,
    /// Ledger timestamp.
    pub timestamp: u64,
    /// What action was taken (e.g. "propose", "approve", "upgrade", "rollback").
    pub action: String,
    /// Version number this action pertains to.
    pub version_number: u32,
    /// Actor who performed the action.
    pub actor: String,
    /// Additional detail (free-form).
    pub detail: String,
}

} // verus!
