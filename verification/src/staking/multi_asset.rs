//! Multi-asset staking positions: the facade over the yield engine that adds
//! per-asset stake limits, unlock-schedule enforcement and portfolio
//! aggregation.
//!
//! Each `(staker, asset)` pair has an optional [`StakingPosition`] and a
//! [`YieldLedger`]; each staker has the list of assets they hold positions
//! in; each asset has its total staked; and the protocol counts the stakers
//! with an active position. Staking and unstaking keep these in step (see
//! [`StakeSlot`]): the position's principal is synchronised into the yield
//! engine (checkpointing the accrued yield first), the asset list gains an
//! asset on its first stake and loses it when the position is fully
//! withdrawn, and the total and the count follow.

use crate::staking::contract::Error;
use crate::staking::compounding::checked_add_spec;
use crate::staking::engine::{
    checkpoint, checkpoint_history, pending_spec, YieldEngine, YieldLedger,
};
use crate::staking::records::{
    AssetYieldRate, GraduatedUnlock, PortfolioSnapshot, StakingPosition, UnlockSchedule,
    YieldRecord,
};
use vstd::prelude::*;

verus! {

/// The staked balance of an optional position (zero when there is none).
pub open spec fn balance_of(position: Option<StakingPosition>) -> int {
    match position {
        Some(p) => p.principal as int,
        None => 0,
    }
}

/// Whether the asset list names `asset`.
pub open spec fn lists_asset(assets: Seq<String>, asset: Seq<char>) -> bool {
    exists|j: int| 0 <= j < assets.len() && (#[trigger] assets[j])@ == asset
}

/// Whether a schedule still holds the whole position in lock-up at `now`:
/// before a cliff's unlock time, or before a graduated schedule's start.
pub open spec fn is_locked(schedule: UnlockSchedule, now: u64) -> bool {
    match schedule {
        UnlockSchedule::Immediate => false,
        UnlockSchedule::Cliff(unlock_ts) => now < unlock_ts,
        UnlockSchedule::Graduated(g) => now < g.start_ts,
    }
}

/// The basis points of principal a started graduated schedule has released
/// at `now`: one tranche at `start_ts` and one more every
/// `interval_seconds` after it (not capped at the whole).
pub open spec fn released_bps(g: GraduatedUnlock, now: u64) -> int {
    ((now - g.start_ts) / (g.interval_seconds as int) + 1) * g.tranche_pct_bps
}

/// The part of `principal` that may be withdrawn at `now` under `schedule`.
///
/// Immediate: all of it. Cliff: nothing before the unlock time, all of it
/// from then on. Graduated: nothing before the start; from the start on,
/// the released share of the principal, rounded down, until the released
/// tranches reach the whole, when the remainder unlocks with the final
/// tranche (a zero interval releases every tranche at the start).
pub open spec fn unlocked_spec(principal: i128, schedule: UnlockSchedule, now: u64) -> int {
    match schedule {
        UnlockSchedule::Immediate => principal as int,
        UnlockSchedule::Cliff(unlock_ts) => if now < unlock_ts {
            0
        } else {
            principal as int
        },
        UnlockSchedule::Graduated(g) => if now < g.start_ts {
            0
        } else if g.interval_seconds == 0 || released_bps(g, now) >= 10_000 {
            principal as int
        } else {
            principal * released_bps(g, now) / 10_000
        },
    }
}

/// Everything one staker's stake in one asset reads or changes.
#[derive(Debug)]
pub struct StakeSlot {
    /// The staker's position in the asset, if any.
    pub position: Option<StakingPosition>,
    /// The pair's yield ledger.
    pub ledger: YieldLedger,
    /// The assets the staker holds positions in, in the order first staked.
    pub assets: Vec<String>,
    /// The total staked in the asset across all stakers.
    pub total_staked: i128,
    /// The number of stakers with at least one active position.
    pub staker_count: u32,
}

impl StakeSlot {
    /// The slot is consistent for `asset`: the balance is not negative and
    /// is part of the asset's total, an open position has its asset listed,
    /// and a staker with listed assets is counted.
    pub open spec fn wf(self, asset: Seq<char>) -> bool {
        &&& balance_of(self.position) >= 0
        &&& self.total_staked >= balance_of(self.position)
        &&& self.position is Some ==> lists_asset(self.assets@, asset)
        &&& self.assets@.len() > 0 ==> self.staker_count >= 1
    }
}

/// Why staking `amount` under the asset's `config` into `slot` is refused,
/// if it is, checked in this order: a non-positive amount
/// (`InvalidStakeAmount`), an amount under the asset's minimum when one is
/// set (`BelowMinimumStake`), a total that would overflow
/// (`InvalidStakeAmount`), a new balance over the asset's maximum when one
/// is set (`ExceedsMaximumStake`).
pub open spec fn stake_refusal(slot: StakeSlot, config: AssetYieldRate, amount: i128) -> Option<
    Error,
> {
    if amount <= 0 {
        Some(Error::InvalidStakeAmount)
    } else if config.min_stake > 0 && amount < config.min_stake {
        Some(Error::BelowMinimumStake)
    } else if slot.total_staked + amount > i128::MAX {
        Some(Error::InvalidStakeAmount)
    } else if config.max_stake > 0 && balance_of(slot.position) + amount > config.max_stake {
        Some(Error::ExceedsMaximumStake)
    } else {
        None
    }
}

/// Why unstaking `amount` from `slot` at `now` is refused, if it is, checked
/// in this order: a non-positive amount (`InvalidStakeAmount`), more than
/// the balance (`InsufficientBalance`), a position in lock-up
/// (`PositionLocked`), more than has unlocked (`ExceedsUnlockedAmount`).
pub open spec fn unstake_refusal(slot: StakeSlot, amount: i128, now: u64) -> Option<Error> {
    let p = slot.position->Some_0;
    if amount <= 0 {
        Some(Error::InvalidStakeAmount)
    } else if balance_of(slot.position) < amount {
        Some(Error::InsufficientBalance)
    } else if is_locked(p.unlock_schedule, now) {
        Some(Error::PositionLocked)
    } else if amount > unlocked_spec(p.principal, p.unlock_schedule, now) {
        Some(Error::ExceedsUnlockedAmount)
    } else {
        None
    }
}

/// The position after staking `amount` more: a new position takes the
/// asset's configured rate, compounding mode and unlock schedule and opens
/// at `now`; an existing one keeps its terms and grows by `amount`.
pub open spec fn staked_position(
    position: Option<StakingPosition>,
    staker: String,
    asset: String,
    config: AssetYieldRate,
    amount: i128,
    now: u64,
) -> StakingPosition {
    match position {
        None => StakingPosition {
            staker,
            asset,
            principal: amount,
            apr: config.apr,
            mode: config.mode,
            opened_at: now,
            unlock_schedule: config.unlock_schedule,
            accrued_yield: 0,
        },
        Some(p) => StakingPosition { principal: (p.principal + amount) as i128, ..p },
    }
}

/// The yield record after the position's principal is synchronised at
/// `now`: an existing record is checkpointed (keeping its accrued yield)
/// and takes the new principal; otherwise a record opens with the
/// position's terms and no yield.
pub open spec fn synced_record(ledger: YieldLedger, position: StakingPosition, now: u64) -> YieldRecord {
    match ledger.record {
        None => YieldRecord {
            staker: position.staker,
            asset: position.asset,
            principal: position.principal,
            apr: position.apr,
            mode: position.mode,
            last_accrual_ts: now,
            accrued_yield: 0,
        },
        Some(rec) => YieldRecord { principal: position.principal, ..checkpoint(rec, now)->Ok_0 },
    }
}

/// The yield history after synchronising at `now`: an existing record's
/// elapsed period is logged.
pub open spec fn synced_history(ledger: YieldLedger, now: u64) -> Seq<crate::staking::records::YieldHistoryEntry> {
    match ledger.record {
        None => ledger.history@,
        Some(rec) => checkpoint_history(ledger.history@, rec, now),
    }
}

/// Whether synchronising the pair's yield record at `now` succeeds (an
/// existing record can be checkpointed).
pub open spec fn sync_succeeds(ledger: YieldLedger, now: u64) -> bool {
    match ledger.record {
        None => true,
        Some(rec) => checkpoint(rec, now) is Ok,
    }
}

/// Whether `new` is `old` after a stake of `amount` that was not refused:
/// the position opened or grown, its principal synchronised into the yield
/// record (the cached accrued yield taken from it), the asset listed once,
/// the asset's total grown by `amount`, and the staker counted if this is
/// their first listed asset.
pub open spec fn stake_applied(
    old: StakeSlot,
    new: StakeSlot,
    staker: String,
    asset: String,
    config: AssetYieldRate,
    amount: i128,
    now: u64,
) -> bool {
    let grown = staked_position(old.position, staker, asset, config, amount, now);
    let rec = synced_record(old.ledger, grown, now);
    &&& grown.principal == balance_of(old.position) + amount
    &&& new.position == Some(StakingPosition { accrued_yield: rec.accrued_yield, ..grown })
    &&& new.ledger.record == Some(rec)
    &&& new.ledger.history@ == synced_history(old.ledger, now)
    &&& new.ledger.schedules == old.ledger.schedules
    &&& lists_asset(old.assets@, asset@) ==> new.assets@ == old.assets@
    &&& !lists_asset(old.assets@, asset@) ==> new.assets@ == old.assets@.push(asset)
    &&& new.total_staked == old.total_staked + amount
    &&& new.staker_count == if old.assets@.len() == 0 {
        old.staker_count + 1
    } else {
        old.staker_count as int
    }
}

/// Whether `new` is `old` after an unstake of `amount` that was not
/// refused: an existing yield record is checkpointed and takes the reduced
/// principal; the asset's total shrinks by `amount`; at a zero balance the
/// position is closed and the asset unlisted, and a staker left with no
/// listed asset is no longer counted; otherwise the position shrinks (its
/// cached accrued yield taken from the record, if any).
pub open spec fn unstake_applied(
    old: StakeSlot,
    new: StakeSlot,
    asset: String,
    amount: i128,
    now: u64,
) -> bool {
    let p = old.position->Some_0;
    let shrunk = StakingPosition { principal: (p.principal - amount) as i128, ..p };
    let unlisted = old.assets@.filter(|a: String| a@ != asset@);
    &&& match old.ledger.record {
        None => new.ledger == old.ledger,
        Some(_) => {
            &&& new.ledger.record == Some(synced_record(old.ledger, shrunk, now))
            &&& new.ledger.history@ == synced_history(old.ledger, now)
            &&& new.ledger.schedules == old.ledger.schedules
        },
    }
    &&& new.total_staked == old.total_staked - amount
    &&& shrunk.principal == 0 ==> {
        &&& new.position is None
        &&& new.assets@ == unlisted
        &&& new.staker_count == if unlisted.len() == 0 && old.assets@.len() > 0 {
            old.staker_count - 1
        } else {
            old.staker_count as int
        }
    }
    &&& shrunk.principal != 0 ==> {
        &&& new.position == Some(StakingPosition {
            accrued_yield: match new.ledger.record {
                Some(rec) => rec.accrued_yield,
                None => p.accrued_yield,
            },
            ..shrunk
        })
        &&& new.assets@ == old.assets@
        &&& new.staker_count == old.staker_count
    }
}

/// Total principal of the positions.
pub open spec fn total_principal(ps: Seq<StakingPosition>) -> int
    decreases ps.len(),
{
    if ps.len() == 0 {
        0
    } else {
        total_principal(ps.drop_last()) + ps.last().principal
    }
}

/// Total cached accrued yield of the positions.
pub open spec fn total_accrued(ps: Seq<StakingPosition>) -> int
    decreases ps.len(),
{
    if ps.len() == 0 {
        0
    } else {
        total_accrued(ps.drop_last()) + ps.last().accrued_yield
    }
}

/// Sum of principal × APR over the positions.
pub open spec fn total_rate_weight(ps: Seq<StakingPosition>) -> int
    decreases ps.len(),
{
    if ps.len() == 0 {
        0
    } else {
        total_rate_weight(ps.drop_last()) + ps.last().principal * ps.last().apr
    }
}

/// Whether `x` lies in the symmetric range of `i128` (`MIN` excluded).
pub open spec fn fits_i128(x: int) -> bool {
    -i128::MAX <= x <= i128::MAX
}

/// Whether every principal × APR product and every running total taken
/// over the positions, in order, fits.
pub open spec fn snapshot_fits(ps: Seq<StakingPosition>) -> bool {
    &&& forall|j: int| 0 <= j < ps.len() ==> fits_i128(#[trigger] ps[j].principal * ps[j].apr)
    &&& forall|k: int|
        0 <= k <= ps.len() ==> {
            &&& fits_i128(#[trigger] total_principal(ps.take(k)))
            &&& fits_i128(total_accrued(ps.take(k)))
            &&& fits_i128(total_rate_weight(ps.take(k)))
        }
}

/// Integer division rounding toward zero.
pub open spec fn div_toward_zero(n: int, d: int) -> int {
    if n >= 0 {
        n / d
    } else {
        -((-n) / d)
    }
}

/// The principal-weighted average APR of the positions (zero when the total
/// principal is not positive), rounded toward zero.
pub open spec fn weighted_avg_apr(ps: Seq<StakingPosition>) -> int {
    if total_principal(ps) > 0 {
        div_toward_zero(total_rate_weight(ps), total_principal(ps))
    } else {
        0
    }
}

/// The yield a pair has earned at `now`, checkpointed plus pending (zero
/// without a record).
pub open spec fn ledger_yield(ledger: YieldLedger, now: u64) -> int {
    match ledger.record {
        None => 0,
        Some(rec) => rec.accrued_yield + pending_spec(rec, now)->Ok_0,
    }
}

/// Whether a pair's earned yield at `now` can be computed and fits.
pub open spec fn ledger_yield_ok(ledger: YieldLedger, now: u64) -> bool {
    match ledger.record {
        None => true,
        Some(rec) => pending_spec(rec, now) is Ok && checked_add_spec(
            rec.accrued_yield as int,
            pending_spec(rec, now)->Ok_0 as int,
        ) is Ok,
    }
}

/// The yield earned at `now` over all the ledgers.
pub open spec fn total_yield(ls: Seq<YieldLedger>, now: u64) -> int
    decreases ls.len(),
{
    if ls.len() == 0 {
        0
    } else {
        total_yield(ls.drop_last(), now) + ledger_yield(ls.last(), now)
    }
}

/// Whether every pair's yield can be computed and every running total, in
/// order, fits in an `i128`.
pub open spec fn portfolio_yield_ok(ls: Seq<YieldLedger>, now: u64) -> bool {
    &&& forall|j: int| 0 <= j < ls.len() ==> ledger_yield_ok(#[trigger] ls[j], now)
    &&& forall|k: int|
        0 <= k <= ls.len() ==> i128::MIN <= #[trigger] total_yield(ls.take(k), now) <= i128::MAX
}

/// `principal * bps / 10_000`, rounded down, for `0 <= bps < 10_000`,
/// without overflow.
fn share_of(principal: i128, bps: u128) -> (r: i128)
    requires
        principal >= 0,
        bps < 10_000,
    ensures
        r == principal * bps / 10_000,
{
    let q: i128 = principal / 10_000;
    let rem: i128 = principal % 10_000;
    let b: i128 = bps as i128;
    proof {
        let p = principal as int;
        let d = 10_000int;
        vstd::arithmetic::div_mod::lemma_fundamental_div_mod(p, d);
        let s = rem * b;
        vstd::arithmetic::div_mod::lemma_fundamental_div_mod(s, d);
        assert(p * b == (q * b + s / d) * d + s % d) by (nonlinear_arith)
            requires
                p == d * q + rem,
                s == rem * b,
                s == d * (s / d) + s % d,
        ;
        vstd::arithmetic::div_mod::lemma_fundamental_div_mod_converse(
            p * b,
            d,
            q * b + s / d,
            s % d,
        );
        assert(0 <= q * b <= q * 9_999) by (nonlinear_arith)
            requires
                0 <= q,
                0 <= b < 10_000,
        ;
        assert(0 <= rem * b / 10_000 <= rem) by (nonlinear_arith)
            requires
                0 <= rem < 10_000,
                0 <= b < 10_000,
        ;
        assert(0 <= rem * b < 100_000_000) by (nonlinear_arith)
            requires
                0 <= rem < 10_000,
                0 <= b < 10_000,
        ;
    }
    q * b + rem * b / 10_000
}

/// The part of `principal` that may be withdrawn at `now` under `schedule`.
pub fn unlocked_amount(principal: i128, schedule: UnlockSchedule, now: u64) -> (r: i128)
    requires
        principal >= 0,
    ensures
        r == unlocked_spec(principal, schedule, now),
{
    match schedule {
        UnlockSchedule::Immediate => principal,
        UnlockSchedule::Cliff(unlock_ts) => if now < unlock_ts {
            0
        } else {
            principal
        },
        UnlockSchedule::Graduated(g) => {
            if now < g.start_ts {
                0
            } else if g.interval_seconds == 0 {
                principal
            } else {
                let tranches: u128 = ((now - g.start_ts) / g.interval_seconds) as u128 + 1;
                proof {
                    assert(tranches <= 0x1_0000_0000_0000_0000);
                    assert(tranches * (g.tranche_pct_bps as int) <= 0x1_0000_0000_0000_0000
                        * 0xffff_ffff) by (nonlinear_arith)
                        requires
                            0 <= tranches <= 0x1_0000_0000_0000_0000,
                            0 <= g.tranche_pct_bps <= 0xffff_ffff,
                    ;
                }
                let bps: u128 = tranches * (g.tranche_pct_bps as u128);
                if bps >= 10_000 {
                    principal
                } else {
                    share_of(principal, bps)
                }
            }
        },
    }
}

/// Multi-asset staking at a ledger time.
#[derive(Debug, Clone, Copy)]
pub struct MultiAssetStaking {
    /// The current ledger timestamp, in seconds.
    pub now: u64,
}

impl MultiAssetStaking {
    /// The facade working at ledger time `now`.
    pub fn new(now: u64) -> (m: Self)
        ensures
            m.now == now,
    {
        MultiAssetStaking { now }
    }

    /// Synchronise the pair's yield record with `position`'s principal.
    fn sync_principal(&self, ledger: &mut YieldLedger, position: &StakingPosition) -> (rec:
        YieldRecord)
        requires
            sync_succeeds(*old(ledger), self.now),
        ensures
            rec == synced_record(*old(ledger), *position, self.now),
            final(ledger).record == Some(rec),
            final(ledger).history@ == synced_history(*old(ledger), self.now),
            final(ledger).schedules == old(ledger).schedules,
    {
        let engine = YieldEngine::new(self.now);
        let outcome = if ledger.record.is_some() {
            engine.set_principal(ledger, position.principal)
        } else {
            engine.open_position(
                ledger,
                &position.staker,
                &position.asset,
                position.principal,
                position.apr,
                position.mode,
            )
        };
        match outcome {
            Ok(rec) => rec,
            Err(_) => {
                proof {
                    assert(false);
                }
                YieldRecord {
                    staker: String::new(),
                    asset: String::new(),
                    principal: 0,
                    apr: 0,
                    mode: crate::staking::records::CompoundingMode::Daily,
                    last_accrual_ts: 0,
                    accrued_yield: 0,
                }
            },
        }
    }

    /// Stake `amount` of `asset` for `staker` under the asset's `config`.
    ///
    /// Refused as [`stake_refusal`] says, with nothing changed. Otherwise
    /// the position is opened (on the asset's terms) or grown, its principal
    /// synchronised into the yield engine (an existing yield record keeps
    /// its accrued yield), the asset listed for the staker, the asset's
    /// total grown, and a staker's first listed asset counts them.
    pub fn stake(
        &self,
        slot: &mut StakeSlot,
        staker: &String,
        asset: &String,
        config: &AssetYieldRate,
        amount: i128,
    ) -> (r: Result<(), Error>)
        requires
            old(slot).wf(asset@),
            stake_refusal(*old(slot), *config, amount) is None ==> {
                &&& sync_succeeds(old(slot).ledger, self.now)
                &&& old(slot).assets@.len() == 0 ==> old(slot).staker_count < u32::MAX
            },
        ensures
            stake_refusal(*old(slot), *config, amount) matches Some(e) ==> r == Err::<(), Error>(e)
                && *final(slot) == *old(slot),
            stake_refusal(*old(slot), *config, amount) is None ==> {
                &&& r is Ok
                &&& stake_applied(*old(slot), *final(slot), *staker, *asset, *config, amount, self.now)
                &&& final(slot).wf(asset@)
            },
    {
        if amount <= 0 {
            return Err(Error::InvalidStakeAmount);
        }
        if config.min_stake > 0 && amount < config.min_stake {
            return Err(Error::BelowMinimumStake);
        }
        if slot.total_staked > i128::MAX - amount {
            return Err(Error::InvalidStakeAmount);
        }
        let balance: i128 = match &slot.position {
            Some(p) => p.principal,
            None => 0,
        };
        let new_balance: i128 = balance + amount;
        if config.max_stake > 0 && new_balance > config.max_stake {
            return Err(Error::ExceedsMaximumStake);
        }
        let grown = match &slot.position {
            Some(p) => StakingPosition { principal: new_balance, ..p.duplicate() },
            None => StakingPosition {
                staker: staker.clone(),
                asset: asset.clone(),
                principal: amount,
                apr: config.apr,
                mode: config.mode,
                opened_at: self.now,
                unlock_schedule: config.unlock_schedule,
                accrued_yield: 0,
            },
        };
        let rec = self.sync_principal(&mut slot.ledger, &grown);
        slot.position = Some(StakingPosition { accrued_yield: rec.accrued_yield, ..grown });
        if slot.assets.len() == 0 {
            slot.staker_count = slot.staker_count + 1;
        }
        if !has_asset(&slot.assets, asset) {
            slot.assets.push(asset.clone());
            proof {
                let n = slot.assets@.len() - 1;
                assert(slot.assets@[n]@ == asset@);
            }
        }
        slot.total_staked = slot.total_staked + amount;
        Ok(())
    }

    /// Unstake `amount` of `asset`.
    ///
    /// Refused as [`unstake_refusal`] says, with nothing changed. Otherwise
    /// the yield record is checkpointed before the principal is reduced,
    /// the asset's total shrinks, and at a zero balance the position is
    /// closed, the asset unlisted, and a staker left with no listed asset
    /// no longer counted.
    pub fn unstake(&self, slot: &mut StakeSlot, asset: &String, amount: i128) -> (r: Result<
        (),
        Error,
    >)
        requires
            old(slot).wf(asset@),
            unstake_refusal(*old(slot), amount, self.now) is None ==> sync_succeeds(
                old(slot).ledger,
                self.now,
            ),
        ensures
            unstake_refusal(*old(slot), amount, self.now) matches Some(e) ==> r == Err::<(), Error>(
                e,
            ) && *final(slot) == *old(slot),
            unstake_refusal(*old(slot), amount, self.now) is None ==> {
                &&& r is Ok
                &&& unstake_applied(*old(slot), *final(slot), *asset, amount, self.now)
                &&& final(slot).wf(asset@)
            },
    {
        if amount <= 0 {
            return Err(Error::InvalidStakeAmount);
        }
        let p = match &slot.position {
            Some(p) => p.duplicate(),
            None => {
                return Err(Error::InsufficientBalance);
            },
        };
        if p.principal < amount {
            return Err(Error::InsufficientBalance);
        }
        let locked = match p.unlock_schedule {
            UnlockSchedule::Immediate => false,
            UnlockSchedule::Cliff(unlock_ts) => self.now < unlock_ts,
            UnlockSchedule::Graduated(g) => self.now < g.start_ts,
        };
        if locked {
            return Err(Error::PositionLocked);
        }
        if amount > unlocked_amount(p.principal, p.unlock_schedule, self.now) {
            return Err(Error::ExceedsUnlockedAmount);
        }
        let remaining: i128 = p.principal - amount;
        let shrunk = StakingPosition { principal: remaining, ..p };
        let accrued: i128 = if slot.ledger.record.is_some() {
            let rec = self.sync_principal(&mut slot.ledger, &shrunk);
            rec.accrued_yield
        } else {
            shrunk.accrued_yield
        };
        slot.total_staked = slot.total_staked - amount;
        if remaining == 0 {
            slot.position = None;
            let had_assets = slot.assets.len() > 0;
            remove_asset(&mut slot.assets, asset);
            if had_assets && slot.assets.len() == 0 {
                slot.staker_count = slot.staker_count - 1;
            }
        } else {
            slot.position = Some(StakingPosition { accrued_yield: accrued, ..shrunk });
        }
        Ok(())
    }
}

impl MultiAssetStaking {
    /// A snapshot of a staker's positions: total principal, total cached
    /// accrued yield, the number of assets, the principal-weighted average
    /// APR (rounded toward zero; zero without principal) and the positions
    /// themselves, in order.
    pub fn portfolio_snapshot(&self, positions: &Vec<StakingPosition>) -> (s: PortfolioSnapshot)
        requires
            positions@.len() <= u32::MAX,
            snapshot_fits(positions@),
        ensures
            s.total_principal == total_principal(positions@),
            s.total_accrued_yield == total_accrued(positions@),
            s.asset_count == positions@.len(),
            s.weighted_avg_apr == weighted_avg_apr(positions@),
            s.positions@ == positions@,
    {
        let ghost ps = positions@;
        let mut principal: i128 = 0;
        let mut accrued: i128 = 0;
        let mut weight: i128 = 0;
        let mut copies: Vec<StakingPosition> = Vec::new();
        let mut i: usize = 0;
        while i < positions.len()
            invariant
                ps == positions@,
                i <= ps.len(),
                snapshot_fits(ps),
                principal == total_principal(ps.take(i as int)),
                accrued == total_accrued(ps.take(i as int)),
                weight == total_rate_weight(ps.take(i as int)),
                copies@ == ps.take(i as int),
            decreases ps.len() - i,
        {
            proof {
                assert(ps.take(i + 1).drop_last() =~= ps.take(i as int));
                assert(ps.take(i + 1).last() == ps[i as int]);
                assert(fits_i128(total_principal(ps.take(i + 1))));
                assert(fits_i128(ps[i as int].principal * ps[i as int].apr));
            }
            let p = &positions[i];
            principal = principal + p.principal;
            accrued = accrued + p.accrued_yield;
            weight = weight + p.principal * p.apr;
            copies.push(p.duplicate());
            i = i + 1;
        }
        proof {
            assert(ps.take(ps.len() as int) =~= ps);
        }
        let avg: i128 = if principal > 0 {
            if weight >= 0 {
                weight / principal
            } else {
                -((-weight) / principal)
            }
        } else {
            0
        };
        PortfolioSnapshot {
            total_principal: principal,
            total_accrued_yield: accrued,
            asset_count: positions.len() as u32,
            weighted_avg_apr: avg,
            positions: copies,
        }
    }

    /// The yield a staker has earned at the current time over all their
    /// pairs' ledgers: each pair's checkpointed plus pending yield, summed;
    /// a pair without a yield record contributes nothing.
    pub fn portfolio_yield(&self, ledgers: &Vec<YieldLedger>) -> (y: i128)
        requires
            portfolio_yield_ok(ledgers@, self.now),
        ensures
            y == total_yield(ledgers@, self.now),
    {
        let ghost ls = ledgers@;
        let engine = YieldEngine::new(self.now);
        let mut total: i128 = 0;
        let mut i: usize = 0;
        while i < ledgers.len()
            invariant
                ls == ledgers@,
                i <= ls.len(),
                engine.now == self.now,
                portfolio_yield_ok(ls, self.now),
                total == total_yield(ls.take(i as int), self.now),
            decreases ls.len() - i,
        {
            proof {
                assert(ls.take(i + 1).drop_last() =~= ls.take(i as int));
                assert(ls.take(i + 1).last() == ls[i as int]);
                assert(ledger_yield_ok(ls[i as int], self.now));
                assert(i128::MIN <= total_yield(ls.take(i + 1), self.now) <= i128::MAX);
            }
            let earned: i128 = if ledgers[i].record.is_some() {
                match engine.current_yield(&ledgers[i]) {
                    Ok(v) => v,
                    Err(_) => {
                        proof {
                            assert(false);
                        }
                        0
                    },
                }
            } else {
                0
            };
            total = total + earned;
            i = i + 1;
        }
        proof {
            assert(ls.take(ls.len() as int) =~= ls);
        }
        total
    }
}

/// Unlocking never releases more than the principal, nor less than
/// nothing.
pub proof fn lemma_unlocked_within_principal(principal: i128, schedule: UnlockSchedule, now: u64)
    requires
        principal >= 0,
    ensures
        0 <= unlocked_spec(principal, schedule, now) <= principal,
{
    if let UnlockSchedule::Graduated(g) = schedule {
        if now >= g.start_ts && g.interval_seconds != 0 {
            let b = released_bps(g, now);
            assert(b >= 0) by (nonlinear_arith)
                requires
                    b == ((now - g.start_ts) / (g.interval_seconds as int) + 1) * g.tranche_pct_bps,
                    now >= g.start_ts,
                    g.interval_seconds > 0,
                    g.tranche_pct_bps >= 0,
            ;
            if b < 10_000 {
                assert(0 <= principal * b / 10_000 <= principal) by (nonlinear_arith)
                    requires
                        principal >= 0,
                        0 <= b < 10_000,
                ;
            }
        }
    }
}

/// What has unlocked stays unlocked: for a fixed principal, the
/// withdrawable part never shrinks as time passes.
pub proof fn lemma_unlocked_monotone(principal: i128, schedule: UnlockSchedule, t1: u64, t2: u64)
    requires
        principal >= 0,
        t1 <= t2,
    ensures
        unlocked_spec(principal, schedule, t1) <= unlocked_spec(principal, schedule, t2),
{
    lemma_unlocked_within_principal(principal, schedule, t1);
    lemma_unlocked_within_principal(principal, schedule, t2);
    if let UnlockSchedule::Graduated(g) = schedule {
        if t1 >= g.start_ts && g.interval_seconds != 0 {
            let i = g.interval_seconds as int;
            let k1 = (t1 - g.start_ts) / i;
            let k2 = (t2 - g.start_ts) / i;
            vstd::arithmetic::div_mod::lemma_div_is_ordered(t1 - g.start_ts, t2 - g.start_ts, i);
            let b1 = released_bps(g, t1);
            let b2 = released_bps(g, t2);
            assert(b1 <= b2) by (nonlinear_arith)
                requires
                    b1 == (k1 + 1) * g.tranche_pct_bps,
                    b2 == (k2 + 1) * g.tranche_pct_bps,
                    k1 <= k2,
                    g.tranche_pct_bps >= 0,
            ;
            if b2 < 10_000 {
                assert(b1 >= 0) by (nonlinear_arith)
                    requires
                        b1 == (k1 + 1) * g.tranche_pct_bps,
                        k1 >= 0,
                        g.tranche_pct_bps >= 0,
                ;
                assert(principal * b1 <= principal * b2) by (nonlinear_arith)
                    requires
                        principal >= 0,
                        b1 <= b2,
                ;
                vstd::arithmetic::div_mod::lemma_div_is_ordered(principal * b1, principal * b2, 10_000);
            }
        }
    }
}

/// A stake followed by an unstake of the same amount (neither refused)
/// restores the balance and the asset's total; from no position at all, it
/// leaves no position.
pub proof fn lemma_stake_then_unstake_restores_balance(
    slot: StakeSlot,
    staked: StakeSlot,
    unstaked: StakeSlot,
    staker: String,
    asset: String,
    config: AssetYieldRate,
    amount: i128,
    staked_at: u64,
    unstaked_at: u64,
)
    requires
        slot.wf(asset@),
        stake_refusal(slot, config, amount) is None,
        stake_applied(slot, staked, staker, asset, config, amount, staked_at),
        unstake_refusal(staked, amount, unstaked_at) is None,
        unstake_applied(staked, unstaked, asset, amount, unstaked_at),
    ensures
        balance_of(unstaked.position) == balance_of(slot.position),
        unstaked.total_staked == slot.total_staked,
        slot.position is None ==> unstaked.position is None,
{
}

/// Staking and unstaking move a pair's balance and its asset's total by the
/// same amount, so what the other stakers hold in the asset,
/// `total - balance`, is unchanged: a total that starts as the sum of the
/// balances stays that sum.
pub proof fn lemma_total_tracks_balances(
    old: StakeSlot,
    new: StakeSlot,
    staker: String,
    asset: String,
    config: AssetYieldRate,
    amount: i128,
    now: u64,
)
    requires
        old.wf(asset@),
        stake_applied(old, new, staker, asset, config, amount, now) || (unstake_refusal(
            old,
            amount,
            now,
        ) is None && unstake_applied(old, new, asset, amount, now)),
    ensures
        new.total_staked - balance_of(new.position) == old.total_staked - balance_of(old.position),
{
}

/// Whether the asset list names `asset`.
pub fn has_asset(assets: &Vec<String>, asset: &String) -> (found: bool)
    ensures
        found == lists_asset(assets@, asset@),
{
    let mut i: usize = 0;
    while i < assets.len()
        invariant
            i <= assets@.len(),
            forall|j: int| 0 <= j < i ==> (#[trigger] assets@[j])@ != asset@,
        decreases assets@.len() - i,
    {
        if assets[i] == *asset {
            assert(assets@[i as int]@ == asset@);
            return true;
        }
        i = i + 1;
    }
    false
}

/// Drop every entry naming `asset` from the list, keeping the others in
/// order.
pub fn remove_asset(assets: &mut Vec<String>, asset: &String)
    ensures
        final(assets)@ == old(assets)@.filter(|a: String| a@ != asset@),
{
    let ghost s = assets@;
    let ghost keep = |a: String| a@ != asset@;
    let mut kept: Vec<String> = Vec::new();
    let mut i: usize = 0;
    while i < assets.len()
        invariant
            s == assets@,
            keep == (|a: String| a@ != asset@),
            i <= s.len(),
            kept@ == s.take(i as int).filter(keep),
        decreases s.len() - i,
    {
        proof {
            reveal(Seq::filter);
            assert(s.take(i + 1).drop_last() =~= s.take(i as int));
            assert(s.take(i + 1).last() == s[i as int]);
        }
        if !(assets[i] == *asset) {
            kept.push(assets[i].clone());
        }
        i = i + 1;
    }
    assert(s.take(s.len() as int) =~= s);
    *assets = kept;
}

} // verus!
