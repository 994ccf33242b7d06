use astraport::rebalancing::contract::{
    PortfolioState, RebalancingContract, DEFAULT_DRIFT_THRESHOLD_BPS,
};
use astraport::rebalancing::multi_asset_rebalancer::ExecutionStrategy;
use astraport::rebalancing::{
    interval_to_seconds, CurrentHoldings, ExecutionTrigger, RebalanceDirection, RebalanceInterval,
    RebalanceOutcome, RebalancingError, ScheduleCheck, ScheduleStatus, ScheduleValidator,
    TargetAllocation,
};

fn weights(entries: &[(&str, u32)]) -> Vec<(String, u32)> {
    entries.iter().map(|(a, w)| (a.to_string(), *w)).collect()
}

fn target(entries: &[(&str, u32)]) -> TargetAllocation {
    TargetAllocation { allocations: weights(entries) }
}

fn holdings(entries: &[(&str, u32)]) -> CurrentHoldings {
    CurrentHoldings { allocations: weights(entries) }
}

fn s(x: &str) -> String {
    x.to_string()
}

/// A portfolio created by `owner` at `now` with USDC/XLM/BTC at 40/35/25 %.
fn create(state: &mut PortfolioState, owner: &str, now: u64) -> Result<(), RebalancingError> {
    RebalancingContract::initialize_portfolio(
        state,
        &s(owner),
        &s("myportf"),
        s("Growth Portfolio"),
        s("A diversified growth portfolio"),
        vec![s("USDC"), s("XLM"), s("BTC")],
        target(&[("USDC", 4_000), ("XLM", 3_500), ("BTC", 2_500)]),
        now,
    )
    .map(|_| ())
}

#[test]
fn test_rebalance_no_drift_does_not_flag_assets_and_logs_manual_execution() {
    let mut st = PortfolioState::new();
    let owner = s("GOWNER");
    let alloc = &[("USDC", 6_000), ("XLM", 4_000)];
    RebalancingContract::set_target_allocation(&mut st, &owner, target(alloc)).unwrap();
    RebalancingContract::set_current_holdings(&mut st, &owner, holdings(alloc)).unwrap();
    let result = RebalancingContract::rebalance(&mut st, &owner, &s("port1"), 0).unwrap();
    assert_eq!(result.adjustments.len(), 0);
    let history = RebalancingContract::get_execution_history(&st);
    assert_eq!(history.len(), 1);
    assert_eq!(history[0].details, ExecutionTrigger::Manual);
    assert_eq!(history[0].outcome, RebalanceOutcome::Done);
    assert_eq!(RebalancingContract::get_owner(&st), Some(owner));
}

#[test]
fn test_rebalance_flags_single_asset_drift_with_direction() {
    let mut st = PortfolioState::new();
    let owner = s("GOWNER");
    RebalancingContract::set_target_allocation(
        &mut st,
        &owner,
        target(&[("USDC", 5_000), ("XLM", 3_000), ("BTC", 2_000)]),
    )
    .unwrap();
    RebalancingContract::set_current_holdings(
        &mut st,
        &owner,
        holdings(&[("USDC", 5_250), ("XLM", 2_900), ("BTC", 1_850)]),
    )
    .unwrap();
    RebalancingContract::set_drift_threshold_bps(&mut st, &owner, 200).unwrap();
    let result = RebalancingContract::rebalance(&mut st, &owner, &s("port1"), 0).unwrap();
    assert_eq!(result.adjustments.len(), 1);
    let adjustment = &result.adjustments[0];
    assert_eq!(adjustment.asset, "USDC");
    assert_eq!(adjustment.drift_bps, 250);
    assert_eq!(adjustment.direction, RebalanceDirection::Sell);
    assert_eq!(result.drift_threshold_bps, 200);
}

#[test]
fn test_rebalance_flags_multiple_assets_and_includes_buy_and_sell() {
    let mut st = PortfolioState::new();
    let owner = s("GOWNER");
    RebalancingContract::set_target_allocation(
        &mut st,
        &owner,
        target(&[("BTC", 2_000), ("USDC", 5_000), ("XLM", 3_000)]),
    )
    .unwrap();
    RebalancingContract::set_current_holdings(
        &mut st,
        &owner,
        holdings(&[("BTC", 2_000), ("USDC", 5_300), ("XLM", 2_700)]),
    )
    .unwrap();
    RebalancingContract::set_drift_threshold_bps(&mut st, &owner, 100).unwrap();
    let result = RebalancingContract::rebalance(&mut st, &owner, &s("port1"), 0).unwrap();
    assert_eq!(result.adjustments.len(), 2);
    assert_eq!(result.adjustments[0].direction, RebalanceDirection::Sell);
    assert_eq!(result.adjustments[1].direction, RebalanceDirection::Buy);
}

#[test]
fn removed_target_asset_is_sold() {
    let mut st = PortfolioState::new();
    let owner = s("GOWNER");
    RebalancingContract::set_target_allocation(&mut st, &owner, target(&[("USDC", 10_000)])).unwrap();
    RebalancingContract::set_current_holdings(&mut st, &owner, holdings(&[("USDC", 9_000), ("XLM", 1_000)]))
        .unwrap();
    let plan = RebalancingContract::get_rebalance_plan(&st, &s("p")).unwrap();
    assert_eq!(plan.drift_threshold_bps, DEFAULT_DRIFT_THRESHOLD_BPS);
    assert_eq!(plan.adjustments.len(), 2);
    assert_eq!(plan.adjustments[0].asset, "USDC");
    assert_eq!(plan.adjustments[0].direction, RebalanceDirection::Buy);
    assert_eq!(plan.adjustments[0].drift_bps, -1_000);
    assert_eq!(plan.adjustments[1].asset, "XLM");
    assert_eq!(plan.adjustments[1].target_weight_bps, 0);
    assert_eq!(plan.adjustments[1].direction, RebalanceDirection::Sell);
}

#[test]
fn drift_exactly_at_threshold_is_not_flagged() {
    let mut st = PortfolioState::new();
    let owner = s("GOWNER");
    RebalancingContract::set_target_allocation(&mut st, &owner, target(&[("A", 5_000), ("B", 5_000)])).unwrap();
    RebalancingContract::set_current_holdings(&mut st, &owner, holdings(&[("A", 5_100), ("B", 4_900)])).unwrap();
    let plan = RebalancingContract::get_rebalance_plan(&st, &s("p")).unwrap();
    assert_eq!(plan.adjustments.len(), 0);
}

#[test]
fn test_scheduled_rebalance_execution() {
    let mut st = PortfolioState::new();
    let owner = s("GOWNER");
    let pf = s("port1");
    assert_eq!(
        RebalancingContract::set_schedule(&mut st, &owner, &pf, RebalanceInterval::Hourly, 0),
        ScheduleStatus::Applied
    );
    let alloc = &[("USDC", 10_000)];
    RebalancingContract::set_target_allocation(&mut st, &owner, target(alloc)).unwrap();
    RebalancingContract::set_current_holdings(&mut st, &owner, holdings(alloc)).unwrap();
    assert_eq!(RebalancingContract::check_exec_sched_rebalance(&mut st, &pf, 0), ScheduleCheck::NotDue);
    assert_eq!(
        RebalancingContract::check_exec_sched_rebalance(&mut st, &pf, 3600),
        ScheduleCheck::Ran(RebalanceOutcome::Done)
    );
    let history = RebalancingContract::get_execution_history(&st);
    assert_eq!(history.len(), 1);
    assert_eq!(history[0].details, ExecutionTrigger::Scheduled);
    let sched = RebalancingContract::get_schedule(&st).unwrap();
    assert_eq!(sched.last_execution, 3600);
    assert_eq!(sched.next_execution, 7200);
}

#[test]
fn scheduled_run_records_missing_configuration() {
    let mut st = PortfolioState::new();
    let owner = s("GOWNER");
    let pf = s("port1");
    assert_eq!(RebalancingContract::check_exec_sched_rebalance(&mut st, &pf, 0), ScheduleCheck::NoSchedule);
    RebalancingContract::set_schedule(&mut st, &owner, &pf, RebalanceInterval::Daily, 0);
    assert_eq!(
        RebalancingContract::check_exec_sched_rebalance(&mut st, &pf, 86_400),
        ScheduleCheck::Ran(RebalanceOutcome::NoTarget)
    );
    RebalancingContract::set_target_allocation(&mut st, &owner, target(&[("USDC", 10_000)])).unwrap();
    assert_eq!(
        RebalancingContract::check_exec_sched_rebalance(&mut st, &pf, 172_800),
        ScheduleCheck::Ran(RebalanceOutcome::NoHoldings)
    );
    assert_eq!(RebalancingContract::get_execution_history(&st).len(), 2);
}

#[test]
fn test_owner_registration_and_access_control() {
    let mut st = PortfolioState::new();
    let owner1 = s("GOWNER1");
    let owner2 = s("GOWNER2");
    let pf = s("port1");
    let alloc = &[("USDC", 10_000)];
    assert_eq!(RebalancingContract::set_target_allocation(&mut st, &owner1, target(alloc)), Ok(()));
    assert_eq!(RebalancingContract::get_owner(&st), Some(owner1.clone()));
    assert_eq!(
        RebalancingContract::set_schedule(&mut st, &owner1, &pf, RebalanceInterval::Hourly, 0),
        ScheduleStatus::Applied
    );
    assert_eq!(
        RebalancingContract::update_schedule(&mut st, &owner1, RebalanceInterval::Daily, 0),
        ScheduleStatus::Applied
    );
    assert_eq!(
        RebalancingContract::update_schedule(&mut st, &owner2, RebalanceInterval::Weekly, 0),
        ScheduleStatus::ErrAuth
    );
    assert_eq!(RebalancingContract::cancel_schedule(&mut st, &owner2), ScheduleStatus::ErrAuth);
    assert_eq!(
        RebalancingContract::set_schedule(&mut st, &owner2, &pf, RebalanceInterval::Monthly, 0),
        ScheduleStatus::ErrAuth
    );
    assert_eq!(
        RebalancingContract::set_target_allocation(&mut st, &owner2, target(alloc)),
        Err(RebalancingError::Unauthorized)
    );
    assert!(matches!(
        RebalancingContract::rebalance(&mut st, &owner2, &pf, 0),
        Err(RebalancingError::Unauthorized)
    ));
    assert_eq!(RebalancingContract::cancel_schedule(&mut st, &owner1), ScheduleStatus::Applied);
    assert_eq!(RebalancingContract::cancel_schedule(&mut st, &owner1), ScheduleStatus::ErrNone);
}

#[test]
fn test_read_methods_remain_public_without_auth() {
    let mut st = PortfolioState::new();
    let owner = s("GOWNER");
    let alloc = &[("USDC", 10_000)];
    RebalancingContract::set_target_allocation(&mut st, &owner, target(alloc)).unwrap();
    RebalancingContract::set_current_holdings(&mut st, &owner, holdings(alloc)).unwrap();
    RebalancingContract::set_schedule(&mut st, &owner, &s("port1"), RebalanceInterval::Daily, 0);
    assert_eq!(RebalancingContract::get_owner(&st), Some(owner));
    assert!(RebalancingContract::get_schedule(&st).is_some());
    assert!(RebalancingContract::get_target_allocation(&st).is_some());
    assert!(RebalancingContract::get_current_holdings(&st).is_some());
    assert_eq!(RebalancingContract::get_drift_threshold_bps(&st), DEFAULT_DRIFT_THRESHOLD_BPS);
}

#[test]
fn invalid_weights_are_rejected_without_registering_an_owner() {
    let mut st = PortfolioState::new();
    let owner = s("GOWNER");
    assert_eq!(
        RebalancingContract::set_target_allocation(&mut st, &owner, target(&[("USDC", 9_999)])),
        Err(RebalancingError::InvalidAllocation)
    );
    assert_eq!(
        RebalancingContract::set_current_holdings(&mut st, &owner, holdings(&[("USDC", 10_001)])),
        Err(RebalancingError::InvalidCurrentHoldings)
    );
    assert_eq!(RebalancingContract::get_owner(&st), None);
    assert!(matches!(
        RebalancingContract::rebalance(&mut st, &owner, &s("p"), 0),
        Err(RebalancingError::TargetAllocationNotFound)
    ));
    RebalancingContract::set_target_allocation(&mut st, &owner, target(&[("USDC", 10_000)])).unwrap();
    assert!(matches!(
        RebalancingContract::get_rebalance_plan(&st, &s("p")),
        Err(RebalancingError::CurrentHoldingsNotFound)
    ));
}

#[test]
fn test_initialize_portfolio_success() {
    let mut st = PortfolioState::new();
    let owner = s("GOWNER");
    let portfolio = RebalancingContract::initialize_portfolio(
        &mut st,
        &owner,
        &s("myportf"),
        s("Growth Portfolio"),
        s("A diversified growth portfolio"),
        vec![s("USDC"), s("XLM"), s("BTC")],
        target(&[("USDC", 4_000), ("XLM", 3_500), ("BTC", 2_500)]),
        1,
    )
    .unwrap();
    assert_eq!(portfolio.id, "myportf");
    assert_eq!(portfolio.owner, owner);
    assert_eq!(portfolio.assets.len(), 3);
    assert_eq!(portfolio.metadata.name, "Growth Portfolio");
    assert_eq!(portfolio.metadata.description, "A diversified growth portfolio");
    assert!(portfolio.metadata.created_at > 0);
    assert_eq!(portfolio.metadata.created_at, portfolio.metadata.last_modified);
}

#[test]
fn test_initialize_portfolio_stores_and_retrieves() {
    let mut st = PortfolioState::new();
    create(&mut st, "GOWNER", 1).unwrap();
    let p = RebalancingContract::get_portfolio(&st).unwrap();
    assert_eq!(p.id, "myportf");
    assert_eq!(p.owner, "GOWNER");
    assert!(p.assets.contains(&s("USDC")) && p.assets.contains(&s("XLM")) && p.assets.contains(&s("BTC")));
    assert_eq!(p.target_allocation.allocations, weights(&[("USDC", 4_000), ("XLM", 3_500), ("BTC", 2_500)]));
}

#[test]
fn test_initialize_portfolio_already_exists() {
    let mut st = PortfolioState::new();
    create(&mut st, "GOWNER", 1).unwrap();
    assert_eq!(create(&mut st, "GOWNER", 2), Err(RebalancingError::PortfolioAlreadyExists));
}

fn init_with(assets: Vec<String>, name: &str, alloc: &[(&str, u32)]) -> Result<(), RebalancingError> {
    let mut st = PortfolioState::new();
    RebalancingContract::initialize_portfolio(
        &mut st,
        &s("GOWNER"),
        &s("myportf"),
        s(name),
        s("desc"),
        assets,
        target(alloc),
        5,
    )
    .map(|_| ())
}

#[test]
fn test_initialize_portfolio_empty_assets() {
    assert_eq!(init_with(vec![], "Empty Assets", &[("USDC", 10_000)]), Err(RebalancingError::EmptyAssets));
}

#[test]
fn test_initialize_portfolio_empty_name() {
    assert_eq!(init_with(vec![s("USDC")], "", &[("USDC", 10_000)]), Err(RebalancingError::EmptyName));
}

#[test]
fn test_initialize_portfolio_allocation_sum_too_low() {
    assert_eq!(
        init_with(vec![s("USDC"), s("XLM")], "Bad Alloc", &[("USDC", 5_000), ("XLM", 4_900)]),
        Err(RebalancingError::AllocationSumOutOfRange)
    );
}

#[test]
fn test_initialize_portfolio_allocation_sum_too_high() {
    assert_eq!(
        init_with(vec![s("USDC"), s("XLM")], "Bad Alloc", &[("USDC", 5_000), ("XLM", 5_100)]),
        Err(RebalancingError::AllocationSumOutOfRange)
    );
}

#[test]
fn test_initialize_portfolio_allocation_within_tolerance() {
    assert_eq!(init_with(vec![s("USDC"), s("XLM")], "Tolerance", &[("USDC", 5_000), ("XLM", 5_005)]), Ok(()));
}

#[test]
fn test_initialize_portfolio_allocation_at_boundary_low() {
    assert_eq!(init_with(vec![s("USDC"), s("XLM")], "Boundary", &[("USDC", 5_000), ("XLM", 4_990)]), Ok(()));
}

#[test]
fn test_initialize_portfolio_allocation_at_boundary_high() {
    assert_eq!(init_with(vec![s("USDC"), s("XLM")], "Boundary", &[("USDC", 5_000), ("XLM", 5_010)]), Ok(()));
}

#[test]
fn unlisted_allocated_asset_is_invalid() {
    assert_eq!(
        init_with(vec![s("USDC")], "Missing", &[("USDC", 5_000), ("XLM", 5_000)]),
        Err(RebalancingError::InvalidAllocation)
    );
}

#[test]
fn test_initialize_portfolio_unauthorized() {
    let mut st = PortfolioState::new();
    create(&mut st, "GOWNER", 1).unwrap();
    assert!(matches!(
        RebalancingContract::update_portfolio_metadata(&mut st, &s("GATTACKER"), s("Hacked Name"), s("hacked"), 2),
        Err(RebalancingError::Unauthorized)
    ));
}

#[test]
fn test_update_portfolio_metadata_success() {
    let mut st = PortfolioState::new();
    create(&mut st, "GOWNER", 1).unwrap();
    let p = RebalancingContract::update_portfolio_metadata(
        &mut st,
        &s("GOWNER"),
        s("Updated Portfolio"),
        s("Updated description"),
        1000,
    )
    .unwrap();
    assert_eq!(p.metadata.name, "Updated Portfolio");
    assert_eq!(p.metadata.description, "Updated description");
    assert!(p.metadata.last_modified >= 1000);
    assert_eq!(p.metadata.created_at, 1);
}

#[test]
fn test_update_portfolio_metadata_empty_name() {
    let mut st = PortfolioState::new();
    create(&mut st, "GOWNER", 1).unwrap();
    assert!(matches!(
        RebalancingContract::update_portfolio_metadata(&mut st, &s("GOWNER"), s(""), s("desc"), 2),
        Err(RebalancingError::EmptyName)
    ));
}

#[test]
fn update_metadata_of_missing_portfolio_is_not_found() {
    let mut st = PortfolioState::new();
    assert!(matches!(
        RebalancingContract::update_portfolio_metadata(&mut st, &s("GOWNER"), s("Name"), s("desc"), 2),
        Err(RebalancingError::PortfolioNotFound)
    ));
    assert_eq!(RebalancingContract::get_owner(&st), None);
}

#[test]
fn test_update_portfolio_allocation_success() {
    let mut st = PortfolioState::new();
    create(&mut st, "GOWNER", 1).unwrap();
    let new_target = target(&[("USDC", 3_000), ("XLM", 3_000), ("BTC", 4_000)]);
    let p = RebalancingContract::update_portfolio_allocation(&mut st, &s("GOWNER"), new_target, 2000).unwrap();
    assert_eq!(p.target_allocation.allocations, weights(&[("USDC", 3_000), ("XLM", 3_000), ("BTC", 4_000)]));
    assert!(p.metadata.last_modified >= 2000);
    let stored = RebalancingContract::get_target_allocation(&st).unwrap();
    assert_eq!(stored.allocations, p.target_allocation.allocations);
}

#[test]
fn test_update_portfolio_allocation_out_of_range() {
    let mut st = PortfolioState::new();
    create(&mut st, "GOWNER", 1).unwrap();
    assert!(matches!(
        RebalancingContract::update_portfolio_allocation(
            &mut st,
            &s("GOWNER"),
            target(&[("USDC", 4_000), ("XLM", 4_000)]),
            2
        ),
        Err(RebalancingError::AllocationSumOutOfRange)
    ));
}

#[test]
fn test_get_portfolio_not_found() {
    let st = PortfolioState::new();
    assert!(matches!(RebalancingContract::get_portfolio(&st), Err(RebalancingError::PortfolioNotFound)));
}

#[test]
fn test_initialize_portfolio_sets_owner_for_rebalance_compat() {
    let mut st = PortfolioState::new();
    create(&mut st, "GOWNER", 1).unwrap();
    assert_eq!(RebalancingContract::get_owner(&st), Some(s("GOWNER")));
    assert!(RebalancingContract::get_target_allocation(&st).is_some());
}

#[test]
fn test_initialize_portfolio_timestamps_are_set() {
    let mut st = PortfolioState::new();
    RebalancingContract::initialize_portfolio(
        &mut st,
        &s("GOWNER"),
        &s("myportf"),
        s("Growth Portfolio"),
        s("desc"),
        vec![s("USDC")],
        target(&[("USDC", 10_000)]),
        5000,
    )
    .unwrap();
    let p = RebalancingContract::get_portfolio(&st).unwrap();
    assert_eq!(p.metadata.created_at, 5000);
    assert_eq!(p.metadata.last_modified, 5000);
}

#[test]
fn schedule_intervals_and_updates() {
    assert!(ScheduleValidator::validate(&RebalanceInterval::Monthly));
    assert_eq!(interval_to_seconds(&RebalanceInterval::Hourly), 3_600);
    assert_eq!(interval_to_seconds(&RebalanceInterval::Weekly), 604_800);
    assert_eq!(interval_to_seconds(&RebalanceInterval::Monthly), 2_592_000);
    let mut st = PortfolioState::new();
    let owner = s("GOWNER");
    RebalancingContract::set_schedule(&mut st, &owner, &s("p"), RebalanceInterval::Hourly, 100);
    assert_eq!(
        RebalancingContract::set_schedule(&mut st, &owner, &s("p"), RebalanceInterval::Hourly, 100),
        ScheduleStatus::ErrExist
    );
    RebalancingContract::update_schedule(&mut st, &owner, RebalanceInterval::Daily, 500);
    assert_eq!(RebalancingContract::get_schedule(&st).unwrap().next_execution, 500 + 86_400);
    RebalancingContract::check_exec_sched_rebalance(&mut st, &s("p"), 100_000);
    RebalancingContract::update_schedule(&mut st, &owner, RebalanceInterval::Hourly, 999_999);
    assert_eq!(RebalancingContract::get_schedule(&st).unwrap().next_execution, 100_000 + 3_600);
}

#[test]
fn execution_and_simulation() {
    let mut st = PortfolioState::new();
    let owner = s("GOWNER");
    assert_eq!(
        RebalancingContract::execute_rebalance(&mut st, &owner, &s("p"), ExecutionStrategy::Balanced),
        Err(RebalancingError::TargetAllocationNotFound)
    );
    let alloc = &[("USDC", 10_000)];
    RebalancingContract::set_target_allocation(&mut st, &owner, target(alloc)).unwrap();
    RebalancingContract::set_current_holdings(&mut st, &owner, holdings(alloc)).unwrap();
    assert_eq!(
        RebalancingContract::execute_rebalance(&mut st, &owner, &s("p"), ExecutionStrategy::MinimalCost),
        Ok(())
    );
    let sim = RebalancingContract::simulate_rebalance(&st, &s("p"), ExecutionStrategy::MinimalTime).unwrap();
    assert_eq!(sim.trades.len(), 0);
    assert_eq!(sim.total_fee, 0);
    assert_eq!(sim.slippage, 0);
}

#[test]
fn audit_snapshot_widens_weights() {
    let snap = RebalancingContract::audit_snapshot(&weights(&[("USDC", 6_000), ("XLM", 4_000)]));
    assert_eq!(snap, vec![(s("USDC"), 6_000i128), (s("XLM"), 4_000i128)]);
    assert_eq!(RebalancingContract::allocation_sum(&target(&[("A", 1), ("B", 2)])), 3);
}
