use astraport::rebalancing::rbac::{
    permission_contains, Role, ALL_PERMISSIONS, CAN_CONFIGURE, CAN_EXECUTE_REBALANCE,
    CAN_LIQUIDATE, CAN_MANAGE_ROLES, CAN_MANAGE_SCHEDULE, CAN_MODIFY_ALLOCATIONS, CAN_REBALANCE,
    CAN_VIEW,
};

#[test]
fn test_owner_role_has_all_permissions() {
    assert_eq!(Role::Owner.default_permissions(), ALL_PERMISSIONS);
}

#[test]
fn test_manager_role_has_view_modify_rebalance_schedule_execute() {
    let perms = Role::Manager.default_permissions();
    assert!(perms & CAN_VIEW != 0);
    assert!(perms & CAN_MODIFY_ALLOCATIONS != 0);
    assert!(perms & CAN_REBALANCE != 0);
    assert!(perms & CAN_MANAGE_SCHEDULE != 0);
    assert!(perms & CAN_EXECUTE_REBALANCE != 0);
    assert_eq!(perms & CAN_LIQUIDATE, 0);
    assert_eq!(perms & CAN_MANAGE_ROLES, 0);
    assert_eq!(perms & CAN_CONFIGURE, 0);
}

#[test]
fn test_viewer_role_has_only_view() {
    assert_eq!(Role::Viewer.default_permissions(), CAN_VIEW);
}

#[test]
fn test_liquidator_role_has_view_and_liquidate() {
    let perms = Role::Liquidator.default_permissions();
    assert!(perms & CAN_VIEW != 0);
    assert!(perms & CAN_LIQUIDATE != 0);
    assert_eq!(perms & CAN_MODIFY_ALLOCATIONS, 0);
    assert_eq!(perms & CAN_REBALANCE, 0);
    assert_eq!(perms & CAN_MANAGE_SCHEDULE, 0);
    assert_eq!(perms & CAN_EXECUTE_REBALANCE, 0);
    assert_eq!(perms & CAN_MANAGE_ROLES, 0);
    assert_eq!(perms & CAN_CONFIGURE, 0);
}

#[test]
fn test_role_labels() {
    assert_eq!(Role::Owner.label(), "owner");
    assert_eq!(Role::Manager.label(), "manager");
    assert_eq!(Role::Viewer.label(), "viewer");
    assert_eq!(Role::Liquidator.label(), "liquidator");
}

#[test]
fn test_permission_contains_exact() {
    assert!(permission_contains(CAN_VIEW, CAN_VIEW));
    assert!(permission_contains(ALL_PERMISSIONS, CAN_VIEW));
    assert!(permission_contains(ALL_PERMISSIONS, CAN_REBALANCE));
}

#[test]
fn test_permission_contains_missing() {
    assert!(!permission_contains(CAN_VIEW, CAN_REBALANCE));
    assert!(!permission_contains(CAN_VIEW, CAN_MODIFY_ALLOCATIONS));
}

#[test]
fn test_permission_contains_combined() {
    let held = CAN_VIEW | CAN_REBALANCE;
    assert!(permission_contains(held, CAN_VIEW));
    assert!(permission_contains(held, CAN_REBALANCE));
    assert!(!permission_contains(held, CAN_MODIFY_ALLOCATIONS));
}

#[test]
fn manager_holds_every_viewer_permission_and_owner_every_role() {
    let viewer = Role::Viewer.default_permissions();
    assert!(permission_contains(Role::Manager.default_permissions(), viewer));
    for role in [Role::Owner, Role::Manager, Role::Viewer, Role::Liquidator] {
        assert!(permission_contains(ALL_PERMISSIONS, role.default_permissions()));
    }
    assert!(!permission_contains(Role::Liquidator.default_permissions(), CAN_REBALANCE));
}

#[test]
fn permission_bits_are_distinct() {
    let all = [
        CAN_VIEW,
        CAN_MODIFY_ALLOCATIONS,
        CAN_REBALANCE,
        CAN_MANAGE_SCHEDULE,
        CAN_EXECUTE_REBALANCE,
        CAN_LIQUIDATE,
        CAN_MANAGE_ROLES,
        CAN_CONFIGURE,
    ];
    let mut union = 0;
    for (i, a) in all.iter().enumerate() {
        assert_eq!(a.count_ones(), 1);
        for b in &all[i + 1..] {
            assert_eq!(a & b, 0);
        }
        union |= a;
    }
    assert_eq!(union, ALL_PERMISSIONS);
}
