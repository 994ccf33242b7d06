//! The yield engine: real-time accrual, time-weighted rate changes, history
//! logging and distribution scheduling for one `(staker, asset)` pair.
//!
//! Yield is checkpointed against the ledger clock so a position's earnings
//! are always current when queried. Rate and principal changes checkpoint
//! accrued yield at the old terms *before* applying the new ones, which makes
//! the history time-weighted and exact across boundaries.

use crate::staking::compounding::{checked_add_spec, yield_spec, YieldCalculator};
use crate::staking::fixed_point::MathError;
use crate::staking::records::{
    mode_strategy, CompoundingMode, DistributionSchedule, YieldHistoryEntry, YieldRecord,
};
use vstd::prelude::*;

verus! {

/// Everything stored for one `(staker, asset)` pair.
#[derive(Debug)]
pub struct YieldLedger {
    /// The active position, if any.
    pub record: Option<YieldRecord>,
    /// The append-only yield history, oldest first.
    pub history: Vec<YieldHistoryEntry>,
    /// Distribution schedules, in creation order.
    pub schedules: Vec<DistributionSchedule>,
}

impl YieldLedger {
    /// A pair with no position, history or schedules.
    pub fn new() -> (l: Self)
        ensures
            l.record is None,
            l.history@.len() == 0,
            l.schedules@.len() == 0,
    {
        YieldLedger { record: None, history: Vec::new(), schedules: Vec::new() }
    }
}

/// The yield earned by `record` between its last checkpoint and `now` (zero
/// when `now` is not later). Yield compounds on principal only.
pub open spec fn pending_spec(record: YieldRecord, now: u64) -> Result<i128, MathError> {
    if now <= record.last_accrual_ts {
        Ok(0)
    } else {
        yield_spec(
            mode_strategy(record.mode),
            record.principal,
            record.apr,
            (now - record.last_accrual_ts) as u64,
        )
    }
}

/// `record` brought current as of `now`: the pending yield is added to the
/// accrued yield and the checkpoint moves to `now`. A record already current
/// (or ahead) is unchanged.
pub open spec fn checkpoint(record: YieldRecord, now: u64) -> Result<YieldRecord, MathError> {
    if now <= record.last_accrual_ts {
        Ok(record)
    } else {
        match pending_spec(record, now) {
            Err(e) => Err(e),
            Ok(earned) => match checked_add_spec(record.accrued_yield as int, earned as int) {
                Err(e) => Err(e),
                Ok(cumulative) => Ok(
                    YieldRecord { accrued_yield: cumulative, last_accrual_ts: now, ..record },
                ),
            },
        }
    }
}

/// The history after checkpointing `record` at `now`: one entry for the
/// elapsed period, or nothing when no time has elapsed.
pub open spec fn checkpoint_history(
    history: Seq<YieldHistoryEntry>,
    record: YieldRecord,
    now: u64,
) -> Seq<YieldHistoryEntry> {
    if now <= record.last_accrual_ts {
        history
    } else {
        match checkpoint(record, now) {
            Err(_) => history,
            Ok(updated) => history.push(
                YieldHistoryEntry {
                    timestamp: now,
                    period_seconds: (now - record.last_accrual_ts) as u64,
                    apr: record.apr,
                    yield_earned: (updated.accrued_yield - record.accrued_yield) as i128,
                    cumulative_yield: updated.accrued_yield,
                    is_claim: false,
                },
            ),
        }
    }
}

/// Whether a schedule fires at `now`: not yet executed and due.
pub open spec fn fires(s: DistributionSchedule, now: u64) -> bool {
    !s.executed && s.due_ts <= now
}

/// A schedule after firing: a recurring one moves its due time one interval
/// later; a one-off one is marked executed.
pub open spec fn after_firing(s: DistributionSchedule) -> DistributionSchedule {
    if s.interval_seconds > 0 {
        DistributionSchedule { due_ts: (s.due_ts + s.interval_seconds) as u64, ..s }
    } else {
        DistributionSchedule { executed: true, ..s }
    }
}

/// Total amount of the schedules that fire at `now`.
pub open spec fn due_total(s: Seq<DistributionSchedule>, now: u64) -> int
    decreases s.len(),
{
    if s.len() == 0 {
        0
    } else {
        due_total(s.drop_last(), now) + if fires(s.last(), now) {
            s.last().amount as int
        } else {
            0
        }
    }
}

/// Whether processing the schedules at `now` stays within machine ranges:
/// every running total of due amounts fits `i128`, and every recurring due
/// time can move one interval later.
pub open spec fn distribution_fits(s: Seq<DistributionSchedule>, now: u64) -> bool {
    &&& forall|k: int|
        0 <= k <= s.len() ==> i128::MIN <= #[trigger] due_total(s.take(k), now) <= i128::MAX
    &&& forall|i: int|
        0 <= i < s.len() && fires(#[trigger] s[i], now) && s[i].interval_seconds > 0 ==> s[i].due_ts
            + s[i].interval_seconds <= u64::MAX
}

/// Coordinates yield accrual, history and distributions as of a ledger time.
#[derive(Debug, Clone, Copy)]
pub struct YieldEngine {
    /// The current ledger timestamp, in seconds.
    pub now: u64,
}

impl YieldEngine {
    /// An engine working at ledger time `now`.
    pub fn new(now: u64) -> (e: Self)
        ensures
            e.now == now,
    {
        YieldEngine { now }
    }

    /// Open or replace the pair's position with the given principal, rate and
    /// compounding mode, starting at the current time.
    ///
    /// An existing position is first checkpointed so its accrued yield is
    /// kept (and its elapsed period logged); the new position starts with
    /// that accrued yield.
    pub fn open_position(
        &self,
        ledger: &mut YieldLedger,
        staker: &String,
        asset: &String,
        principal: i128,
        apr: i128,
        mode: CompoundingMode,
    ) -> (r: Result<YieldRecord, MathError>)
        ensures
            final(ledger).schedules == old(ledger).schedules,
            match old(ledger).record {
                None => {
                    let rec = YieldRecord {
                        staker: *staker,
                        asset: *asset,
                        principal,
                        apr,
                        mode,
                        last_accrual_ts: self.now,
                        accrued_yield: 0,
                    };
                    &&& r == Ok::<YieldRecord, MathError>(rec)
                    &&& final(ledger).record == Some(rec)
                    &&& final(ledger).history == old(ledger).history
                },
                Some(existing) => match checkpoint(existing, self.now) {
                    Err(e) => r == Err::<YieldRecord, MathError>(e) && *final(ledger) == *old(ledger),
                    Ok(updated) => {
                        let rec = YieldRecord {
                            staker: *staker,
                            asset: *asset,
                            principal,
                            apr,
                            mode,
                            last_accrual_ts: self.now,
                            accrued_yield: updated.accrued_yield,
                        };
                        &&& r == Ok::<YieldRecord, MathError>(rec)
                        &&& final(ledger).record == Some(rec)
                        &&& final(ledger).history@ == checkpoint_history(
                            old(ledger).history@,
                            existing,
                            self.now,
                        )
                    },
                },
            },
    {
        let existing = match &ledger.record {
            Some(rec) => Some(rec.duplicate()),
            None => None,
        };
        let accrued = match existing {
            Some(rec) => {
                let updated = self.accrue_to(ledger, &rec)?;
                updated.accrued_yield
            },
            None => 0,
        };
        let record = YieldRecord {
            staker: staker.clone(),
            asset: asset.clone(),
            principal,
            apr,
            mode,
            last_accrual_ts: self.now,
            accrued_yield: accrued,
        };
        self.store_record(ledger, record.duplicate());
        Ok(record)
    }

    /// Bring the pair's position current, logging the elapsed period.
    /// Fails with `NegativeInput` when there is no position.
    pub fn accrue(&self, ledger: &mut YieldLedger) -> (r: Result<YieldRecord, MathError>)
        ensures
            final(ledger).schedules == old(ledger).schedules,
            match old(ledger).record {
                None => r == Err::<YieldRecord, MathError>(MathError::NegativeInput) && *final(ledger) == *old(ledger),
                Some(rec) => match checkpoint(rec, self.now) {
                    Err(e) => r == Err::<YieldRecord, MathError>(e) && *final(ledger) == *old(ledger),
                    Ok(updated) => r == Ok::<YieldRecord, MathError>(updated) && final(ledger).record == Some(updated) && final(ledger).history@ == checkpoint_history(
                        old(ledger).history@,
                        rec,
                        self.now,
                    ),
                },
            },
    {
        let record = match &ledger.record {
            Some(rec) => rec.duplicate(),
            None => {
                return Err(MathError::NegativeInput);
            },
        };
        let updated = self.accrue_to(ledger, &record)?;
        self.store_record(ledger, updated.duplicate());
        Ok(updated)
    }

    /// Change the pair's principal, keeping its rate, mode and accrued yield.
    /// Yield earned on the old principal is realized first. Fails with
    /// `NegativeInput` when there is no position.
    pub fn set_principal(&self, ledger: &mut YieldLedger, new_principal: i128) -> (r: Result<
        YieldRecord,
        MathError,
    >)
        ensures
            final(ledger).schedules == old(ledger).schedules,
            match old(ledger).record {
                None => r == Err::<YieldRecord, MathError>(MathError::NegativeInput) && *final(ledger) == *old(ledger),
                Some(rec) => match checkpoint(rec, self.now) {
                    Err(e) => r == Err::<YieldRecord, MathError>(e) && *final(ledger) == *old(ledger),
                    Ok(updated) => {
                        let next = YieldRecord { principal: new_principal, ..updated };
                        &&& r == Ok::<YieldRecord, MathError>(next)
                        &&& final(ledger).record == Some(next)
                        &&& final(ledger).history@ == checkpoint_history(
                            old(ledger).history@,
                            rec,
                            self.now,
                        )
                    },
                },
            },
    {
        let record = match &ledger.record {
            Some(rec) => rec.duplicate(),
            None => {
                return Err(MathError::NegativeInput);
            },
        };
        let mut updated = self.accrue_to(ledger, &record)?;
        updated.principal = new_principal;
        self.store_record(ledger, updated.duplicate());
        Ok(updated)
    }

    /// Change the pair's APR. Yield earned at the old rate is realized first,
    /// so the transition is exact and time-weighted. Fails with
    /// `NegativeInput` when there is no position.
    pub fn set_rate(&self, ledger: &mut YieldLedger, new_apr: i128) -> (r: Result<
        YieldRecord,
        MathError,
    >)
        ensures
            final(ledger).schedules == old(ledger).schedules,
            match old(ledger).record {
                None => r == Err::<YieldRecord, MathError>(MathError::NegativeInput) && *final(ledger) == *old(ledger),
                Some(rec) => match checkpoint(rec, self.now) {
                    Err(e) => r == Err::<YieldRecord, MathError>(e) && *final(ledger) == *old(ledger),
                    Ok(updated) => {
                        let next = YieldRecord { apr: new_apr, ..updated };
                        &&& r == Ok::<YieldRecord, MathError>(next)
                        &&& final(ledger).record == Some(next)
                        &&& final(ledger).history@ == checkpoint_history(
                            old(ledger).history@,
                            rec,
                            self.now,
                        )
                    },
                },
            },
    {
        let record = match &ledger.record {
            Some(rec) => rec.duplicate(),
            None => {
                return Err(MathError::NegativeInput);
            },
        };
        let mut updated = self.accrue_to(ledger, &record)?;
        updated.apr = new_apr;
        self.store_record(ledger, updated.duplicate());
        Ok(updated)
    }

    /// The yield the pair's position has earned right now: checkpointed plus
    /// pending. Reads only. Fails with `NegativeInput` when there is no
    /// position.
    pub fn current_yield(&self, ledger: &YieldLedger) -> (r: Result<i128, MathError>)
        ensures
            match ledger.record {
                None => r == Err::<i128, MathError>(MathError::NegativeInput),
                Some(rec) => match pending_spec(rec, self.now) {
                    Err(e) => r == Err::<i128, MathError>(e),
                    Ok(p) => r == checked_add_spec(rec.accrued_yield as int, p as int),
                },
            },
    {
        let record = match &ledger.record {
            Some(rec) => rec,
            None => {
                return Err(MathError::NegativeInput);
            },
        };
        let pending = self.pending_yield(record, self.now)?;
        record.accrued_yield.checked_add(pending).ok_or(MathError::Overflow)
    }

    /// Yield earned by `record` since its last checkpoint, up to `now`.
    fn pending_yield(&self, record: &YieldRecord, now: u64) -> (r: Result<i128, MathError>)
        ensures
            r == pending_spec(*record, now),
    {
        if now <= record.last_accrual_ts {
            return Ok(0);
        }
        let elapsed = now - record.last_accrual_ts;
        let calc = YieldCalculator::new(record.mode.to_strategy());
        calc.compute_yield(record.principal, record.apr, elapsed)
    }

    /// `record` advanced to now, with an entry for the elapsed period
    /// appended to the history. The record itself is not stored.
    fn accrue_to(&self, ledger: &mut YieldLedger, record: &YieldRecord) -> (r: Result<
        YieldRecord,
        MathError,
    >)
        ensures
            r == checkpoint(*record, self.now),
            r is Err ==> *final(ledger) == *old(ledger),
            r is Ok ==> final(ledger).history@ == checkpoint_history(
                old(ledger).history@,
                *record,
                self.now,
            ) && final(ledger).record == old(ledger).record && final(ledger).schedules == old(ledger).schedules,
    {
        let now = self.now;
        if now <= record.last_accrual_ts {
            return Ok(record.duplicate());
        }
        let elapsed = now - record.last_accrual_ts;
        let earned = self.pending_yield(record, now)?;
        let cumulative = match record.accrued_yield.checked_add(earned) {
            Some(c) => c,
            None => {
                return Err(MathError::Overflow);
            },
        };
        Self::append_history(
            ledger,
            YieldHistoryEntry {
                timestamp: now,
                period_seconds: elapsed,
                apr: record.apr,
                yield_earned: earned,
                cumulative_yield: cumulative,
                is_claim: false,
            },
        );
        let mut updated = record.duplicate();
        updated.accrued_yield = cumulative;
        updated.last_accrual_ts = now;
        Ok(updated)
    }

    /// The pair's full yield history, oldest first.
    pub fn history(&self, ledger: &YieldLedger) -> (h: Vec<YieldHistoryEntry>)
        ensures
            h@ == ledger.history@,
    {
        let mut h: Vec<YieldHistoryEntry> = Vec::new();
        let mut i: usize = 0;
        while i < ledger.history.len()
            invariant
                i <= ledger.history@.len(),
                h@ == ledger.history@.take(i as int),
            decreases ledger.history@.len() - i,
        {
            h.push(ledger.history[i]);
            assert(ledger.history@.take(i + 1) =~= ledger.history@.take(i as int).push(
                ledger.history@[i as int],
            ));
            i = i + 1;
        }
        assert(ledger.history@.take(ledger.history@.len() as int) =~= ledger.history@);
        h
    }

    /// Append an entry to the pair's history.
    fn append_history(ledger: &mut YieldLedger, entry: YieldHistoryEntry)
        ensures
            final(ledger).history@ == old(ledger).history@.push(entry),
            final(ledger).record == old(ledger).record,
            final(ledger).schedules == old(ledger).schedules,
    {
        ledger.history.push(entry);
    }

    /// Schedule a distribution for the pair: a one-off when `interval_seconds`
    /// is 0, otherwise recurring every `interval_seconds`.
    pub fn schedule_distribution(
        &self,
        ledger: &mut YieldLedger,
        staker: &String,
        asset: &String,
        amount: i128,
        due_ts: u64,
        interval_seconds: u64,
    ) -> (s: DistributionSchedule)
        ensures
            s == (DistributionSchedule {
                staker: *staker,
                asset: *asset,
                due_ts,
                interval_seconds,
                amount,
                executed: false,
            }),
            final(ledger).schedules@ == old(ledger).schedules@.push(s),
            final(ledger).record == old(ledger).record,
            final(ledger).history == old(ledger).history,
    {
        let schedule = DistributionSchedule {
            staker: staker.clone(),
            asset: asset.clone(),
            due_ts,
            interval_seconds,
            amount,
            executed: false,
        };
        ledger.schedules.push(schedule.duplicate());
        schedule
    }

    /// The pair's distribution schedules, in creation order.
    pub fn schedules(&self, ledger: &YieldLedger) -> (r: Vec<DistributionSchedule>)
        ensures
            r@ == ledger.schedules@,
    {
        let mut r: Vec<DistributionSchedule> = Vec::new();
        let mut i: usize = 0;
        while i < ledger.schedules.len()
            invariant
                i <= ledger.schedules@.len(),
                r@ == ledger.schedules@.take(i as int),
            decreases ledger.schedules@.len() - i,
        {
            r.push(ledger.schedules[i].duplicate());
            assert(ledger.schedules@.take(i + 1) =~= ledger.schedules@.take(i as int).push(
                ledger.schedules@[i as int],
            ));
            i = i + 1;
        }
        assert(ledger.schedules@.take(ledger.schedules@.len() as int) =~= ledger.schedules@);
        r
    }

    /// Process the pair's due distributions at the current time and return
    /// the total amount that became due. One-off schedules are marked
    /// executed; recurring ones move one interval later and stay active.
    pub fn process_distribution(&self, ledger: &mut YieldLedger) -> (total: i128)
        requires
            distribution_fits(old(ledger).schedules@, self.now),
        ensures
            total == due_total(old(ledger).schedules@, self.now),
            final(ledger).schedules@.len() == old(ledger).schedules@.len(),
            forall|i: int|
                0 <= i < old(ledger).schedules@.len() ==> #[trigger] final(ledger).schedules@[i]
                    == if fires(old(ledger).schedules@[i], self.now) {
                    after_firing(old(ledger).schedules@[i])
                } else {
                    old(ledger).schedules@[i]
                },
            final(ledger).record == old(ledger).record,
            final(ledger).history == old(ledger).history,
    {
        let now = self.now;
        let ghost s0 = ledger.schedules@;
        let mut total: i128 = 0;
        let mut i: usize = 0;
        while i < ledger.schedules.len()
            invariant
                s0 == old(ledger).schedules@,
                distribution_fits(s0, now),
                now == self.now,
                i <= s0.len(),
                ledger.schedules@.len() == s0.len(),
                ledger.record == old(ledger).record,
                ledger.history == old(ledger).history,
                total == due_total(s0.take(i as int), now),
                forall|j: int|
                    0 <= j < i ==> #[trigger] ledger.schedules@[j] == if fires(s0[j], now) {
                        after_firing(s0[j])
                    } else {
                        s0[j]
                    },
                forall|j: int| i <= j < s0.len() ==> #[trigger] ledger.schedules@[j] == s0[j],
            decreases s0.len() - i,
        {
            proof {
                assert(s0.take(i + 1).drop_last() =~= s0.take(i as int));
                assert(s0.take(i + 1).last() == s0[i as int]);
                assert(i128::MIN <= due_total(s0.take(i + 1), now) <= i128::MAX);
            }
            if !ledger.schedules[i].executed && ledger.schedules[i].due_ts <= now {
                total = total + ledger.schedules[i].amount;
                if ledger.schedules[i].interval_seconds > 0 {
                    ledger.schedules[i].due_ts = ledger.schedules[i].due_ts
                        + ledger.schedules[i].interval_seconds;
                } else {
                    ledger.schedules[i].executed = true;
                }
            }
            i = i + 1;
        }
        assert(s0.take(s0.len() as int) =~= s0);
        total
    }

    /// The pair's position, if any.
    pub fn load_record(&self, ledger: &YieldLedger) -> (r: Option<YieldRecord>)
        ensures
            r == ledger.record,
    {
        match &ledger.record {
            Some(rec) => Some(rec.duplicate()),
            None => None,
        }
    }

    /// Store the pair's position.
    fn store_record(&self, ledger: &mut YieldLedger, record: YieldRecord)
        ensures
            final(ledger).record == Some(record),
            final(ledger).history == old(ledger).history,
            final(ledger).schedules == old(ledger).schedules,
    {
        ledger.record = Some(record);
    }

    /// Pay out the checkpointed yield of `record`: the position keeps its
    /// principal and rate with its accrued yield reset to zero, and a claim
    /// marker is appended to the history. Returns the amount claimed.
    pub fn finalize_claim(&self, ledger: &mut YieldLedger, record: YieldRecord) -> (claimed: i128)
        ensures
            claimed == record.accrued_yield,
            final(ledger).record == Some(YieldRecord { accrued_yield: 0, ..record }),
            final(ledger).history@ == old(ledger).history@.push(
                YieldHistoryEntry {
                    timestamp: self.now,
                    period_seconds: 0,
                    apr: record.apr,
                    yield_earned: 0,
                    cumulative_yield: 0,
                    is_claim: true,
                },
            ),
            final(ledger).schedules == old(ledger).schedules,
    {
        let claimed = record.accrued_yield;
        let apr = record.apr;
        let mut cleared = record;
        cleared.accrued_yield = 0;
        self.store_record(ledger, cleared);
        Self::append_history(
            ledger,
            YieldHistoryEntry {
                timestamp: self.now,
                period_seconds: 0,
                apr,
                yield_earned: 0,
                cumulative_yield: 0,
                is_claim: true,
            },
        );
        claimed
    }
}


/// Checkpointing twice at the same time changes nothing the second time:
/// the record stays as the first checkpoint left it and no further history
/// entry is logged.
pub proof fn lemma_checkpoint_idempotent(record: YieldRecord, now: u64, history: Seq<YieldHistoryEntry>)
    requires
        checkpoint(record, now) is Ok,
    ensures
        checkpoint(checkpoint(record, now)->Ok_0, now) == checkpoint(record, now),
        checkpoint_history(history, checkpoint(record, now)->Ok_0, now) == history,
{
}

/// The history is append-only: a checkpoint keeps every earlier entry and
/// adds at most one.
pub proof fn lemma_history_append_only(history: Seq<YieldHistoryEntry>, record: YieldRecord, now: u64)
    ensures
        history.len() <= checkpoint_history(history, record, now).len() <= history.len() + 1,
        checkpoint_history(history, record, now).take(history.len() as int) == history,
{
    assert(history.take(history.len() as int) =~= history);
    if now > record.last_accrual_ts && checkpoint(record, now) is Ok {
        let h2 = checkpoint_history(history, record, now);
        assert(h2.take(history.len() as int) =~= history);
    }
}

/// A checkpoint never loses realized yield: the accrued yield afterwards is
/// the accrued yield before plus the pending yield, and the logged entry's
/// earned and cumulative amounts agree with it.
pub proof fn lemma_checkpoint_realizes_pending(record: YieldRecord, now: u64)
    requires
        now > record.last_accrual_ts,
        checkpoint(record, now) is Ok,
    ensures
        pending_spec(record, now) is Ok,
        checkpoint(record, now)->Ok_0.accrued_yield == record.accrued_yield + pending_spec(
            record,
            now,
        )->Ok_0,
        checkpoint(record, now)->Ok_0.last_accrual_ts == now,
{
}

} // verus!
