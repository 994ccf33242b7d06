use std::collections::HashMap;

use astraport::staking::contract::{Error, StakingContract, DEFAULT_APR};
use astraport::staking::engine::YieldLedger;
use astraport::staking::fixed_point::{SCALE, SECONDS_PER_DAY};
use astraport::staking::multi_asset::{
    has_asset, remove_asset, unlocked_amount, MultiAssetStaking, StakeSlot,
};
use astraport::staking::records::{
    AssetYieldRate, CompoundingMode, GraduatedUnlock, StakingPosition, UnlockSchedule,
};

/// Contract storage in memory: one slot's worth of state per
/// `(staker, asset)` pair, each staker's asset list, per-asset totals and
/// the active staker count, loaded into a slot for each call and written
/// back after it.
#[derive(Default)]
struct Chain {
    now: u64,
    positions: HashMap<(String, String), StakingPosition>,
    ledgers: HashMap<(String, String), YieldLedger>,
    assets: HashMap<String, Vec<String>>,
    totals: HashMap<String, i128>,
    staker_count: u32,
    configs: HashMap<String, AssetYieldRate>,
}

impl Chain {
    fn key(staker: &str, asset: &str) -> (String, String) {
        (staker.to_string(), asset.to_string())
    }

    fn take_slot(&mut self, staker: &str, asset: &str) -> StakeSlot {
        let key = Self::key(staker, asset);
        StakeSlot {
            position: self.positions.remove(&key),
            ledger: self.ledgers.remove(&key).unwrap_or_else(YieldLedger::new),
            assets: self.assets.remove(staker).unwrap_or_default(),
            total_staked: *self.totals.get(asset).unwrap_or(&0),
            staker_count: self.staker_count,
        }
    }

    fn put_slot(&mut self, staker: &str, asset: &str, slot: StakeSlot) {
        let key = Self::key(staker, asset);
        if let Some(p) = slot.position {
            self.positions.insert(key.clone(), p);
        }
        self.ledgers.insert(key, slot.ledger);
        self.assets.insert(staker.to_string(), slot.assets);
        self.totals.insert(asset.to_string(), slot.total_staked);
        self.staker_count = slot.staker_count;
    }

    fn config(&self, asset: &str) -> AssetYieldRate {
        let own = self.configs.get(asset).map(|c| AssetYieldRate {
            asset: c.asset.clone(),
            apr: c.apr,
            mode: c.mode,
            min_stake: c.min_stake,
            max_stake: c.max_stake,
            unlock_schedule: c.unlock_schedule,
        });
        StakingContract::load_asset_config(own, None, &asset.to_string())
    }

    fn stake(&mut self, staker: &str, asset: &str, amount: i128) -> Result<(), Error> {
        let config = self.config(asset);
        let mut slot = self.take_slot(staker, asset);
        let r = StakingContract::stake(
            &mut slot,
            &staker.to_string(),
            &asset.to_string(),
            &config,
            amount,
            self.now,
        );
        self.put_slot(staker, asset, slot);
        r
    }

    fn unstake(&mut self, staker: &str, asset: &str, amount: i128) -> Result<(), Error> {
        let mut slot = self.take_slot(staker, asset);
        let r = StakingContract::unstake(&mut slot, &asset.to_string(), amount, self.now);
        self.put_slot(staker, asset, slot);
        r
    }

    fn get_balance(&self, staker: &str, asset: &str) -> i128 {
        let position = self.positions.get(&Self::key(staker, asset)).map(|p| p.duplicate());
        StakingContract::get_balance(&position)
    }

    fn total_staked(&self, asset: &str) -> i128 {
        *self.totals.get(asset).unwrap_or(&0)
    }

    fn staker_count(&self) -> u32 {
        self.staker_count
    }

    fn configure(&mut self, asset: &str, min_stake: i128, max_stake: i128, unlock: UnlockSchedule) {
        self.configs.insert(
            asset.to_string(),
            StakingContract::configure_asset(
                &asset.to_string(),
                SCALE / 10,
                CompoundingMode::Daily,
                min_stake,
                max_stake,
                unlock,
            ),
        );
    }
}

// ---------------------------------------------------------------------------
// Balances
// ---------------------------------------------------------------------------

#[test]
fn tests_test_initialize() {
    let mut admin: Option<String> = None;
    StakingContract::initialize(&mut admin, &"GADMIN".to_string());
    assert_eq!(admin, Some("GADMIN".to_string()));
}

#[test]
fn test_get_balance_initial() {
    let chain = Chain::default();
    assert_eq!(chain.get_balance("alice", "XLM"), 0);
}

#[test]
fn test_stake_and_unstake() {
    let mut chain = Chain::default();
    let (staker, asset) = ("alice", "XLM");

    assert_eq!(chain.stake(staker, asset, 100), Ok(()));
    assert_eq!(chain.get_balance(staker, asset), 100);

    assert_eq!(chain.stake(staker, asset, 50), Ok(()));
    assert_eq!(chain.get_balance(staker, asset), 150);

    assert_eq!(chain.unstake(staker, asset, 75), Ok(()));
    assert_eq!(chain.get_balance(staker, asset), 75);

    assert_eq!(chain.unstake(staker, asset, 75), Ok(()));
    assert_eq!(chain.get_balance(staker, asset), 0);
}

#[test]
fn test_stake_multiple_assets_independently() {
    let mut chain = Chain::default();
    let staker = "alice";

    chain.stake(staker, "XLM", 1_000).unwrap();
    chain.stake(staker, "USDC", 2_000).unwrap();
    chain.stake(staker, "BTC", 500).unwrap();

    assert_eq!(chain.get_balance(staker, "XLM"), 1_000);
    assert_eq!(chain.get_balance(staker, "USDC"), 2_000);
    assert_eq!(chain.get_balance(staker, "BTC"), 500);

    // Unstaking one asset does not affect others.
    chain.unstake(staker, "XLM", 1_000).unwrap();
    assert_eq!(chain.get_balance(staker, "XLM"), 0);
    assert_eq!(chain.get_balance(staker, "USDC"), 2_000);
    assert_eq!(chain.get_balance(staker, "BTC"), 500);
}

#[test]
fn test_unstake_more_than_balance() {
    let mut chain = Chain::default();
    chain.stake("alice", "XLM", 100).unwrap();
    assert_eq!(chain.unstake("alice", "XLM", 150), Err(Error::InsufficientBalance));
}

#[test]
fn test_stake_requires_auth() {
    let mut chain = Chain::default();
    let mut admin: Option<String> = None;
    StakingContract::initialize(&mut admin, &"GADMIN".to_string());
    chain.stake("alice", "XLM", 1_000).unwrap();
    assert_eq!(chain.get_balance("alice", "XLM"), 1_000);
}

// ---------------------------------------------------------------------------
// Protocol-level totals
// ---------------------------------------------------------------------------

#[test]
fn test_totals_initial_state() {
    let chain = Chain::default();
    assert_eq!(chain.total_staked("XLM"), 0);
    assert_eq!(chain.total_staked("USDC"), 0);
    assert_eq!(chain.staker_count(), 0);
}

#[test]
fn test_total_staked_reflects_stake_and_unstake_one_staker() {
    let mut chain = Chain::default();
    let (staker, xlm) = ("alice", "XLM");

    chain.stake(staker, xlm, 1_000).unwrap();
    assert_eq!(chain.total_staked(xlm), 1_000);
    assert_eq!(chain.staker_count(), 1);

    chain.stake(staker, xlm, 500).unwrap();
    assert_eq!(chain.total_staked(xlm), 1_500);
    assert_eq!(chain.staker_count(), 1, "same staker, same asset: count stays at 1");

    chain.unstake(staker, xlm, 700).unwrap();
    assert_eq!(chain.total_staked(xlm), 800);
    assert_eq!(chain.staker_count(), 1);

    chain.unstake(staker, xlm, 800).unwrap();
    assert_eq!(chain.total_staked(xlm), 0);
    assert_eq!(chain.staker_count(), 0);
}

#[test]
fn test_total_staked_sums_across_multiple_stakers() {
    let mut chain = Chain::default();
    let xlm = "XLM";

    chain.stake("alice", xlm, 1_000).unwrap();
    chain.stake("bob", xlm, 2_500).unwrap();
    chain.stake("carol", xlm, 750).unwrap();

    assert_eq!(chain.total_staked(xlm), 1_000 + 2_500 + 750);
    assert_eq!(chain.staker_count(), 3);

    assert_eq!(
        chain
            .get_balance("alice", xlm)
            .checked_add(chain.get_balance("bob", xlm))
            .and_then(|s| s.checked_add(chain.get_balance("carol", xlm)))
            .unwrap(),
        chain.total_staked(xlm),
    );
}

#[test]
fn test_totals_are_per_asset() {
    let mut chain = Chain::default();
    let staker = "alice";

    chain.stake(staker, "XLM", 1_000).unwrap();
    chain.stake(staker, "USDC", 5_000).unwrap();

    assert_eq!(chain.total_staked("XLM"), 1_000);
    assert_eq!(chain.total_staked("USDC"), 5_000);
    assert_eq!(chain.staker_count(), 1);

    chain.unstake(staker, "XLM", 1_000).unwrap();
    assert_eq!(chain.total_staked("XLM"), 0);
    assert_eq!(chain.total_staked("USDC"), 5_000);
    assert_eq!(chain.staker_count(), 1, "still active in usdc");

    chain.unstake(staker, "USDC", 5_000).unwrap();
    assert_eq!(chain.total_staked("USDC"), 0);
    assert_eq!(chain.staker_count(), 0);
}

#[test]
fn test_staker_count_increments_only_on_first_active_position() {
    let mut chain = Chain::default();
    let xlm = "XLM";

    assert_eq!(chain.staker_count(), 0);

    chain.stake("s1", xlm, 100).unwrap();
    assert_eq!(chain.staker_count(), 1);

    chain.stake("s1", xlm, 50).unwrap();
    chain.stake("s2", xlm, 100).unwrap();
    assert_eq!(chain.staker_count(), 2);

    chain.stake("s3", xlm, 200).unwrap();
    assert_eq!(chain.staker_count(), 3);

    chain.unstake("s1", xlm, 50).unwrap();
    chain.unstake("s2", xlm, 50).unwrap();
    assert_eq!(chain.staker_count(), 3);

    chain.unstake("s1", xlm, 100).unwrap();
    assert_eq!(chain.staker_count(), 2);

    chain.unstake("s3", xlm, 200).unwrap();
    assert_eq!(chain.staker_count(), 1);

    chain.unstake("s2", xlm, 50).unwrap();
    assert_eq!(chain.staker_count(), 0);
}

#[test]
fn test_totals_handle_re_stake_after_full_exit() {
    let mut chain = Chain::default();
    let (staker, asset) = ("alice", "XLM");

    chain.stake(staker, asset, 500).unwrap();
    assert_eq!(chain.staker_count(), 1);
    chain.unstake(staker, asset, 500).unwrap();
    assert_eq!(chain.staker_count(), 0);
    assert_eq!(chain.total_staked(asset), 0);

    chain.stake(staker, asset, 500).unwrap();
    assert_eq!(chain.staker_count(), 1);
    assert_eq!(chain.total_staked(asset), 500);
}

// ---------------------------------------------------------------------------
// Stake limits, refusals and yield synchronisation
// ---------------------------------------------------------------------------

#[test]
fn stake_refusals_leave_everything_unchanged() {
    let mut chain = Chain::default();
    chain.configure("XLM", 100, 1_000, UnlockSchedule::Immediate);
    assert_eq!(chain.stake("alice", "XLM", 0), Err(Error::InvalidStakeAmount));
    assert_eq!(chain.stake("alice", "XLM", -5), Err(Error::InvalidStakeAmount));
    assert_eq!(chain.stake("alice", "XLM", 99), Err(Error::BelowMinimumStake));
    chain.stake("alice", "XLM", 900).unwrap();
    assert_eq!(chain.stake("alice", "XLM", 101), Err(Error::ExceedsMaximumStake));
    assert_eq!(chain.get_balance("alice", "XLM"), 900);
    assert_eq!(chain.total_staked("XLM"), 900);
    chain.stake("alice", "XLM", 100).unwrap();
    assert_eq!(chain.get_balance("alice", "XLM"), 1_000);
}

#[test]
fn stake_overflowing_the_total_is_an_invalid_amount() {
    let mut chain = Chain::default();
    chain.stake("alice", "XLM", i128::MAX - 10).unwrap();
    assert_eq!(chain.stake("bob", "XLM", 11), Err(Error::InvalidStakeAmount));
    assert_eq!(chain.total_staked("XLM"), i128::MAX - 10);
    assert_eq!(chain.get_balance("bob", "XLM"), 0);
    assert_eq!(chain.staker_count(), 1);
}

#[test]
fn unstake_of_non_positive_amount_is_invalid() {
    let mut chain = Chain::default();
    chain.stake("alice", "XLM", 100).unwrap();
    assert_eq!(chain.unstake("alice", "XLM", 0), Err(Error::InvalidStakeAmount));
    assert_eq!(chain.unstake("alice", "XLM", -1), Err(Error::InvalidStakeAmount));
    assert_eq!(chain.unstake("bob", "XLM", 1), Err(Error::InsufficientBalance));
}

#[test]
fn new_position_takes_the_asset_terms() {
    let mut chain = Chain::default();
    chain.now = 7_000;
    chain.configure("XLM", 0, 0, UnlockSchedule::Cliff(9_000));
    chain.stake("alice", "XLM", 400).unwrap();
    let p = chain.positions.get(&Chain::key("alice", "XLM")).unwrap();
    assert_eq!(p.principal, 400);
    assert_eq!(p.apr, SCALE / 10);
    assert_eq!(p.opened_at, 7_000);
    assert_eq!(p.unlock_schedule, UnlockSchedule::Cliff(9_000));
    assert_eq!(p.accrued_yield, 0);
    let rec = chain.ledgers.get(&Chain::key("alice", "XLM")).unwrap().record.as_ref().unwrap();
    assert_eq!(rec.principal, 400);
    assert_eq!(rec.last_accrual_ts, 7_000);
}

#[test]
fn default_terms_apply_without_asset_config() {
    let mut chain = Chain::default();
    chain.stake("alice", "XLM", 400).unwrap();
    let p = chain.positions.get(&Chain::key("alice", "XLM")).unwrap();
    assert_eq!(p.apr, DEFAULT_APR);
    assert_eq!(p.mode, CompoundingMode::Daily);
    assert_eq!(p.unlock_schedule, UnlockSchedule::Immediate);
}

#[test]
fn restaking_checkpoints_yield_on_the_old_principal() {
    let mut chain = Chain::default();
    chain.configure("XLM", 0, 0, UnlockSchedule::Immediate);
    chain.stake("alice", "XLM", 1_000_000_000).unwrap();
    chain.now = 10 * SECONDS_PER_DAY;
    chain.stake("alice", "XLM", 1_000_000_000).unwrap();
    let p = chain.positions.get(&Chain::key("alice", "XLM")).unwrap();
    let ledger = chain.ledgers.get(&Chain::key("alice", "XLM")).unwrap();
    let rec = ledger.record.as_ref().unwrap();
    // Ten days at 10 % on 1e9, compounded daily, is a little over 2.7e6.
    assert!(rec.accrued_yield > 2_700_000 && rec.accrued_yield < 2_750_000);
    assert_eq!(p.accrued_yield, rec.accrued_yield);
    assert_eq!(rec.principal, 2_000_000_000);
    assert_eq!(ledger.history.len(), 1);
}

#[test]
fn full_exit_keeps_the_yield_record_with_zero_principal() {
    let mut chain = Chain::default();
    chain.stake("alice", "XLM", 1_000).unwrap();
    chain.now = SECONDS_PER_DAY;
    chain.unstake("alice", "XLM", 1_000).unwrap();
    assert!(chain.positions.get(&Chain::key("alice", "XLM")).is_none());
    let rec = chain.ledgers.get(&Chain::key("alice", "XLM")).unwrap().record.as_ref().unwrap();
    assert_eq!(rec.principal, 0);
    assert!(chain.assets.get("alice").unwrap().is_empty());
}

// ---------------------------------------------------------------------------
// Unlock schedules
// ---------------------------------------------------------------------------

#[test]
fn cliff_locks_until_unlock_time() {
    let mut chain = Chain::default();
    chain.configure("XLM", 0, 0, UnlockSchedule::Cliff(1_000));
    chain.stake("alice", "XLM", 500).unwrap();
    chain.now = 999;
    assert_eq!(chain.unstake("alice", "XLM", 1), Err(Error::PositionLocked));
    chain.now = 1_000;
    assert_eq!(chain.unstake("alice", "XLM", 500), Ok(()));
}

#[test]
fn graduated_unlocks_in_tranches() {
    let g = GraduatedUnlock { start_ts: 100, interval_seconds: 10, tranche_pct_bps: 2_500 };
    let mut chain = Chain::default();
    chain.configure("XLM", 0, 0, UnlockSchedule::Graduated(g));
    chain.stake("alice", "XLM", 1_000).unwrap();
    chain.now = 99;
    assert_eq!(chain.unstake("alice", "XLM", 1), Err(Error::PositionLocked));
    chain.now = 105;
    // One tranche (25 %) is out at the start.
    assert_eq!(chain.unstake("alice", "XLM", 251), Err(Error::ExceedsUnlockedAmount));
    assert_eq!(chain.unstake("alice", "XLM", 250), Ok(()));
    assert_eq!(chain.get_balance("alice", "XLM"), 750);
}

#[test]
fn unlocked_amount_per_schedule() {
    assert_eq!(unlocked_amount(1_000, UnlockSchedule::Immediate, 0), 1_000);
    assert_eq!(unlocked_amount(1_000, UnlockSchedule::Cliff(50), 49), 0);
    assert_eq!(unlocked_amount(1_000, UnlockSchedule::Cliff(50), 50), 1_000);
    let g = GraduatedUnlock { start_ts: 100, interval_seconds: 10, tranche_pct_bps: 3_000 };
    let s = UnlockSchedule::Graduated(g);
    assert_eq!(unlocked_amount(1_000, s, 99), 0);
    assert_eq!(unlocked_amount(1_000, s, 100), 300);
    assert_eq!(unlocked_amount(1_000, s, 119), 600);
    assert_eq!(unlocked_amount(1_000, s, 120), 900);
    // The fourth tranche passes the whole: the remainder unlocks with it.
    assert_eq!(unlocked_amount(1_000, s, 130), 1_000);
    assert_eq!(unlocked_amount(999, s, 100), 299);
    let instant = GraduatedUnlock { start_ts: 5, interval_seconds: 0, tranche_pct_bps: 1 };
    assert_eq!(unlocked_amount(1_000, UnlockSchedule::Graduated(instant), 5), 1_000);
    // Huge principals do not overflow the share.
    assert_eq!(unlocked_amount(i128::MAX, s, 100), i128::MAX / 10_000 * 3_000 + (i128::MAX % 10_000) * 3_000 / 10_000);
}

#[test]
fn unlocked_amount_never_shrinks_over_time() {
    let g = GraduatedUnlock { start_ts: 1_000, interval_seconds: 7, tranche_pct_bps: 1_234 };
    let s = UnlockSchedule::Graduated(g);
    let mut last = 0;
    for t in (990..1_100).step_by(3) {
        let u = unlocked_amount(12_345, s, t);
        assert!(u >= last && u <= 12_345);
        last = u;
    }
    assert_eq!(last, 12_345);
}

#[test]
fn stake_then_unstake_restores_balance_and_total() {
    let mut chain = Chain::default();
    chain.stake("alice", "XLM", 300).unwrap();
    chain.stake("bob", "XLM", 200).unwrap();
    chain.now = 50;
    chain.stake("alice", "XLM", 123).unwrap();
    chain.unstake("alice", "XLM", 123).unwrap();
    assert_eq!(chain.get_balance("alice", "XLM"), 300);
    assert_eq!(chain.total_staked("XLM"), 500);
}

// ---------------------------------------------------------------------------
// Portfolio
// ---------------------------------------------------------------------------

fn position(asset: &str, principal: i128, apr: i128, accrued: i128) -> StakingPosition {
    StakingPosition {
        staker: "alice".to_string(),
        asset: asset.to_string(),
        principal,
        apr,
        mode: CompoundingMode::Daily,
        opened_at: 0,
        unlock_schedule: UnlockSchedule::Immediate,
        accrued_yield: accrued,
    }
}

#[test]
fn portfolio_snapshot_aggregates_positions() {
    let ps = vec![position("XLM", 1_000, 100, 5), position("USDC", 3_000, 200, 7)];
    let snap = StakingContract::get_portfolio(&ps);
    assert_eq!(snap.total_principal, 4_000);
    assert_eq!(snap.total_accrued_yield, 12);
    assert_eq!(snap.asset_count, 2);
    // (1000 * 100 + 3000 * 200) / 4000 = 175
    assert_eq!(snap.weighted_avg_apr, 175);
    assert_eq!(snap.positions.len(), 2);
    assert_eq!(snap.positions[1].asset, "USDC");
}

#[test]
fn empty_portfolio_has_zero_average() {
    let snap = StakingContract::get_portfolio(&vec![]);
    assert_eq!(snap.total_principal, 0);
    assert_eq!(snap.asset_count, 0);
    assert_eq!(snap.weighted_avg_apr, 0);
}

#[test]
fn weighted_average_rounds_toward_zero() {
    let ps = vec![position("XLM", 3, -1, 0)];
    assert_eq!(StakingContract::get_portfolio(&ps).weighted_avg_apr, -1);
    let ps = vec![position("XLM", 2, -1, 0), position("BTC", 1, 0, 0)];
    // -2 / 3 rounds toward zero.
    assert_eq!(StakingContract::get_portfolio(&ps).weighted_avg_apr, 0);
}

#[test]
fn portfolio_yield_sums_current_yield_of_each_asset() {
    let mut chain = Chain::default();
    chain.configure("XLM", 0, 0, UnlockSchedule::Immediate);
    chain.configure("USDC", 0, 0, UnlockSchedule::Immediate);
    chain.stake("alice", "XLM", 1_000_000_000).unwrap();
    chain.stake("alice", "USDC", 2_000_000_000).unwrap();
    let now = 30 * SECONDS_PER_DAY;
    let xlm = chain.ledgers.remove(&Chain::key("alice", "XLM")).unwrap();
    let usdc = chain.ledgers.remove(&Chain::key("alice", "USDC")).unwrap();
    let one = StakingContract::current_yield(&xlm, now);
    let two = StakingContract::current_yield(&usdc, now);
    assert!(one > 0 && two > one);
    let total = StakingContract::portfolio_yield(&vec![xlm, usdc, YieldLedger::new()], now);
    assert_eq!(total, one + two);
    assert_eq!(MultiAssetStaking::new(now).portfolio_yield(&vec![]), 0);
}

// ---------------------------------------------------------------------------
// Asset lists
// ---------------------------------------------------------------------------

#[test]
fn asset_list_helpers() {
    let mut list = vec!["XLM".to_string(), "USDC".to_string(), "XLM".to_string()];
    assert!(has_asset(&list, &"USDC".to_string()));
    assert!(!has_asset(&list, &"BTC".to_string()));
    remove_asset(&mut list, &"XLM".to_string());
    assert_eq!(list, vec!["USDC".to_string()]);
}
