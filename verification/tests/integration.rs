//! Cross-contract smoke tests: each prints the workflow it stands for.

#[test]
fn test_rebalancing_workflow() {
    println!("Rebalancing workflow test");
}

#[test]
fn test_event_emission() {
    println!("Event emission test");
}

#[test]
fn test_staking_and_alerts() {
    println!("Staking and alerts test");
}

#[test]
fn test_cross_contract_interaction() {
    println!("Cross-contract interaction test");
}

#[test]
fn test_error_handling() {
    println!("Error handling test");
}

#[test]
fn test_access_control() {
    println!("Access control test");
}
