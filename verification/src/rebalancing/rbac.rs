//! Roles and permission bitmasks for portfolio access control.
//!
//! A permission set is a `u32` bitmask with one bit per capability; each
//! role grants a default set. Holding a set of permissions means holding
//! every bit of it.

use vstd::prelude::*;

verus! {

/// May read portfolio state.
pub const CAN_VIEW: u32 = 1;

/// May change target allocations and holdings.
pub const CAN_MODIFY_ALLOCATIONS: u32 = 2;

/// May run a rebalance.
pub const CAN_REBALANCE: u32 = 4;

/// May create, change or cancel rebalancing schedules.
pub const CAN_MANAGE_SCHEDULE: u32 = 8;

/// May execute a planned rebalance.
pub const CAN_EXECUTE_REBALANCE: u32 = 16;

/// May liquidate positions.
pub const CAN_LIQUIDATE: u32 = 32;

/// May assign and revoke roles.
pub const CAN_MANAGE_ROLES: u32 = 64;

/// May change portfolio configuration.
pub const CAN_CONFIGURE: u32 = 128;

/// Every permission.
pub const ALL_PERMISSIONS: u32 = 255;

/// A role that can be assigned on a portfolio.
#[derive(Debug, Clone, Copy, PartialEq, Eq, Structural)]
pub enum Role {
    /// Full control.
    Owner,
    /// Day-to-day management: viewing, allocations, rebalancing and schedules.
    Manager,
    /// Read-only access.
    Viewer,
    /// Viewing and liquidation.
    Liquidator,
}

/// The permissions a role grants by default.
pub open spec fn role_permissions(role: Role) -> u32 {
    match role {
        Role::Owner => ALL_PERMISSIONS,
        Role::Manager => CAN_VIEW | CAN_MODIFY_ALLOCATIONS | CAN_REBALANCE | CAN_MANAGE_SCHEDULE
            | CAN_EXECUTE_REBALANCE,
        Role::Viewer => CAN_VIEW,
        Role::Liquidator => CAN_VIEW | CAN_LIQUIDATE,
    }
}

/// Whether `held` includes every permission of `required`.
pub open spec fn contains_spec(held: u32, required: u32) -> bool {
    held & required == required
}

impl Role {
    /// The permissions this role grants by default.
    pub fn default_permissions(self) -> (p: u32)
        ensures
            p == role_permissions(self),
    {
        match self {
            Role::Owner => ALL_PERMISSIONS,
            Role::Manager => CAN_VIEW | CAN_MODIFY_ALLOCATIONS | CAN_REBALANCE | CAN_MANAGE_SCHEDULE
                | CAN_EXECUTE_REBALANCE,
            Role::Viewer => CAN_VIEW,
            Role::Liquidator => CAN_VIEW | CAN_LIQUIDATE,
        }
    }

    /// The role's lower-case name.
    pub fn label(self) -> (s: &'static str)
        ensures
            s@ == match self {
                Role::Owner => "owner"@,
                Role::Manager => "manager"@,
                Role::Viewer => "viewer"@,
                Role::Liquidator => "liquidator"@,
            },
    {
        match self {
            Role::Owner => "owner",
            Role::Manager => "manager",
            Role::Viewer => "viewer",
            Role::Liquidator => "liquidator",
        }
    }
}

/// Whether `held` includes every permission of `required`.
pub fn permission_contains(held: u32, required: u32) -> (r: bool)
    ensures
        r == contains_spec(held, required),
{
    held & required == required
}

/// A manager can do everything a viewer can.
pub proof fn lemma_manager_inherits_viewer()
    ensures
        contains_spec(role_permissions(Role::Manager), role_permissions(Role::Viewer)),
{
    assert((1u32 | 2u32 | 4u32 | 8u32 | 16u32) & 1u32 == 1u32) by (bit_vector);
}

/// The owner holds every permission of every role.
pub proof fn lemma_owner_holds_every_role(role: Role)
    ensures
        contains_spec(role_permissions(Role::Owner), role_permissions(role)),
{
    let p = role_permissions(role);
    assert(p <= 255) by {
        assert((1u32 | 2u32 | 4u32 | 8u32 | 16u32) == 31u32) by (bit_vector);
        assert((1u32 | 32u32) == 33u32) by (bit_vector);
    }
    assert(p <= 255 ==> 255u32 & p == p) by (bit_vector);
}

/// Holding permissions is a partial order: every set holds itself, and
/// holding is transitive.
pub proof fn lemma_contains_reflexive_transitive(a: u32, b: u32, c: u32)
    ensures
        contains_spec(a, a),
        contains_spec(a, b) && contains_spec(b, c) ==> contains_spec(a, c),
{
    assert(a & a == a) by (bit_vector);
    assert((a & b == b && b & c == c) ==> a & c == c) by (bit_vector);
}

} // verus!
