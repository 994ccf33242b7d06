//! The rebalancing contract's operations on one portfolio's state.
//!
//! Operations that return `Result` are transactional: when they fail, the
//! state is left exactly as it was. Schedule operations report their status
//! instead and keep what they did before the status was decided.

use crate::rebalancing::multi_asset_rebalancer::{
    ExecutionStrategy, MultiAssetRebalancer, SimulationResult,
};
use crate::rebalancing::weights::{
    all_listed, contains_asset, has_key, is_listed, lemma_entry_le_total, lemma_lookup_le_total,
    lookup_weight, sum_weights, weight_of, weights_total,
};
use crate::rebalancing::{
    interval_seconds, interval_to_seconds, CurrentHoldings, ExecutionHistoryRecord,
    ExecutionTrigger, Portfolio, PortfolioMetadata, RebalanceAdjustment, RebalanceDirection,
    RebalanceInterval, RebalanceOutcome, RebalanceResult, RebalancingError, RebalancingSchedule,
    ScheduleCheck, ScheduleStatus, ScheduleValidator, TargetAllocation,
};
use crate::wide::abs;
use vstd::prelude::*;

verus! {

/// Default tolerance used when deciding whether a holding needs rebalancing.
pub const DEFAULT_DRIFT_THRESHOLD_BPS: u32 = 100;

/// Allocations must sum to `FULL_ALLOCATION_BPS` within this tolerance (0.1%).
pub const ALLOCATION_TOLERANCE_BPS: u32 = 10;

/// 100% in basis points.
pub const FULL_ALLOCATION_BPS: u32 = 10_000;

/// Everything the contract stores about one portfolio.
#[derive(Debug)]
pub struct PortfolioState {
    /// The registered owner; the first caller of an owner-gated operation
    /// becomes the owner.
    pub owner: Option<String>,
    /// The full portfolio record, once created.
    pub portfolio: Option<Portfolio>,
    /// The rebalance schedule, if any.
    pub schedule: Option<RebalancingSchedule>,
    /// Rebalance runs, oldest first.
    pub history: Vec<ExecutionHistoryRecord>,
    /// The target allocation used for rebalance plans.
    pub allocation: Option<TargetAllocation>,
    /// The current weights used for rebalance plans.
    pub holdings: Option<CurrentHoldings>,
    /// The configured drift tolerance, if any.
    pub drift_threshold: Option<u32>,
}

impl PortfolioState {
    /// The stored weights are valid: a target allocation sums to at most
    /// 100% + 0.1%, and current holdings sum to exactly 100%.
    pub open spec fn wf(&self) -> bool {
        &&& (self.allocation matches Some(a) ==> weights_total(a@) <= FULL_ALLOCATION_BPS
            + ALLOCATION_TOLERANCE_BPS)
        &&& (self.holdings matches Some(h) ==> weights_total(h@) == FULL_ALLOCATION_BPS)
        &&& (self.allocation matches Some(a) ==> distinct_assets(a@))
        &&& (self.holdings matches Some(h) ==> distinct_assets(h@))
        &&& (self.portfolio matches Some(p) ==> distinct_assets(p.target_allocation@))
    }

    /// The drift tolerance in effect.
    pub open spec fn threshold(&self) -> u32 {
        match self.drift_threshold {
            Some(t) => t,
            None => DEFAULT_DRIFT_THRESHOLD_BPS,
        }
    }

    /// Whether `caller` may run owner-gated operations: it is the registered
    /// owner, or no owner is registered yet.
    pub open spec fn allows(&self, caller: String) -> bool {
        match self.owner {
            Some(o) => o@ == caller@,
            None => true,
        }
    }

    /// The state after `caller` passed the owner check: registered as owner
    /// when none was.
    pub open spec fn claimed_by(self, caller: String) -> PortfolioState {
        match self.owner {
            Some(_) => self,
            None => PortfolioState { owner: Some(caller), ..self },
        }
    }

    /// Why a rebalance plan cannot be computed, if it cannot.
    pub open spec fn plan_error(&self) -> Option<RebalancingError> {
        if self.allocation is None {
            Some(RebalancingError::TargetAllocationNotFound)
        } else if self.holdings is None {
            Some(RebalancingError::CurrentHoldingsNotFound)
        } else {
            None
        }
    }

    /// The adjustments of the rebalance plan, when one can be computed.
    pub open spec fn plan(&self) -> Seq<RebalanceAdjustment> {
        match (self.allocation, self.holdings) {
            (Some(a), Some(h)) => rebalance_plan(a@, h@, self.threshold()),
            _ => Seq::empty(),
        }
    }

    /// A state for a portfolio nothing is known about yet.
    pub fn new() -> (r: Self)
        ensures
            r.owner is None,
            r.portfolio is None,
            r.schedule is None,
            r.history@.len() == 0,
            r.allocation is None,
            r.holdings is None,
            r.drift_threshold is None,
            r.wf(),
    {
        PortfolioState {
            owner: None,
            portfolio: None,
            schedule: None,
            history: Vec::new(),
            allocation: None,
            holdings: None,
            drift_threshold: None,
        }
    }
}

/// The adjustment needed for one asset, if its drift exceeds the threshold.
pub open spec fn adjustment_for(asset: String, current: u32, target: u32, threshold: u32) -> Option<
    RebalanceAdjustment,
> {
    let drift = current - target;
    if abs(drift) > threshold {
        Some(
            RebalanceAdjustment {
                asset,
                current_weight_bps: current,
                target_weight_bps: target,
                drift_bps: drift as i32,
                direction: if drift > 0 {
                    RebalanceDirection::Sell
                } else {
                    RebalanceDirection::Buy
                },
            },
        )
    } else {
        None
    }
}

/// `s` followed by the adjustment, if there is one.
pub open spec fn push_opt(s: Seq<RebalanceAdjustment>, a: Option<RebalanceAdjustment>) -> Seq<
    RebalanceAdjustment,
> {
    match a {
        Some(x) => s.push(x),
        None => s,
    }
}

/// Adjustments for the target assets `t`, in order, against holdings `c`
/// (an asset missing from `c` is held at 0).
pub open spec fn target_pass(
    t: Seq<(String, u32)>,
    c: Seq<(String, u32)>,
    threshold: u32,
) -> Seq<RebalanceAdjustment>
    decreases t.len(),
{
    if t.len() == 0 {
        Seq::empty()
    } else {
        let e = t.last();
        push_opt(
            target_pass(t.drop_last(), c, threshold),
            adjustment_for(e.0, lookup_weight(c, e.0@), e.1, threshold),
        )
    }
}

/// Adjustments for the held assets `c` that the target `t` does not name
/// (their target is 0), in order.
pub open spec fn holdings_pass(
    c: Seq<(String, u32)>,
    t: Seq<(String, u32)>,
    threshold: u32,
) -> Seq<RebalanceAdjustment>
    decreases c.len(),
{
    if c.len() == 0 {
        Seq::empty()
    } else {
        let e = c.last();
        let rest = holdings_pass(c.drop_last(), t, threshold);
        if has_key(t, e.0@) {
            rest
        } else {
            push_opt(rest, adjustment_for(e.0, e.1, 0, threshold))
        }
    }
}

/// The rebalance plan: target assets first, then assets held but no longer
/// targeted, each included only when its absolute drift exceeds the threshold.
pub open spec fn rebalance_plan(
    t: Seq<(String, u32)>,
    c: Seq<(String, u32)>,
    threshold: u32,
) -> Seq<RebalanceAdjustment> {
    target_pass(t, c, threshold) + holdings_pass(c, t, threshold)
}

/// The outcome a scheduled run records for a state.
pub open spec fn outcome_of(e: Option<RebalancingError>) -> RebalanceOutcome {
    match e {
        None => RebalanceOutcome::Done,
        Some(RebalancingError::TargetAllocationNotFound) => RebalanceOutcome::NoTarget,
        Some(RebalancingError::CurrentHoldingsNotFound) => RebalanceOutcome::NoHoldings,
        Some(_) => RebalanceOutcome::Failed,
    }
}

/// Whether a total weight is within the tolerance around 100%.
pub open spec fn total_in_range(total: int) -> bool {
    FULL_ALLOCATION_BPS - ALLOCATION_TOLERANCE_BPS <= total <= FULL_ALLOCATION_BPS
        + ALLOCATION_TOLERANCE_BPS
}

/// Why a portfolio cannot be created, checked in this order.
pub open spec fn init_error(
    state: PortfolioState,
    name: Seq<char>,
    assets: Seq<String>,
    target: Seq<(String, u32)>,
) -> Option<RebalancingError> {
    if state.portfolio is Some {
        Some(RebalancingError::PortfolioAlreadyExists)
    } else if name.len() == 0 {
        Some(RebalancingError::EmptyName)
    } else if assets.len() == 0 {
        Some(RebalancingError::EmptyAssets)
    } else if !total_in_range(weights_total(target)) {
        Some(RebalancingError::AllocationSumOutOfRange)
    } else if !all_listed(target, assets) {
        Some(RebalancingError::InvalidAllocation)
    } else {
        None
    }
}

/// An adjustment is consistent with the rule that produced it: its drift is
/// current minus target, its magnitude exceeds the threshold, and it sells
/// exactly when the drift is positive.
pub open spec fn flagged(a: RebalanceAdjustment, threshold: u32) -> bool {
    &&& a.drift_bps == a.current_weight_bps - a.target_weight_bps
    &&& abs(a.drift_bps as int) > threshold
    &&& (a.direction == RebalanceDirection::Sell <==> a.drift_bps > 0)
}

/// No two entries of a table name the same asset (as in a map).
pub open spec fn distinct_assets(s: Seq<(String, u32)>) -> bool {
    forall|i: int, j: int| 0 <= i < j < s.len() ==> (#[trigger] s[i]).0@ != (#[trigger] s[j]).0@
}

proof fn lemma_adjustment_flagged(asset: String, current: u32, target: u32, threshold: u32)
    requires
        current <= i32::MAX,
        target <= i32::MAX,
    ensures
        adjustment_for(asset, current, target, threshold) matches Some(a) ==> flagged(
            a,
            threshold,
        ),
{
}

proof fn lemma_target_pass_flagged(t: Seq<(String, u32)>, c: Seq<(String, u32)>, threshold: u32, n: int)
    requires
        0 <= n <= t.len(),
        weights_total(t) <= i32::MAX,
        weights_total(c) <= i32::MAX,
    ensures
        forall|i: int|
            0 <= i < target_pass(t.take(n), c, threshold).len() ==> flagged(
                #[trigger] target_pass(t.take(n), c, threshold)[i],
                threshold,
            ),
    decreases n,
{
    if n > 0 {
        lemma_target_pass_flagged(t, c, threshold, n - 1);
        assert(t.take(n).drop_last() =~= t.take(n - 1));
        assert(t.take(n).last() == t[n - 1]);
        lemma_entry_le_total(t, n - 1);
        lemma_lookup_le_total(c, t[n - 1].0@);
        lemma_adjustment_flagged(t[n - 1].0, lookup_weight(c, t[n - 1].0@), t[n - 1].1, threshold);
        let prev = target_pass(t.take(n - 1), c, threshold);
        let adj = adjustment_for(t[n - 1].0, lookup_weight(c, t[n - 1].0@), t[n - 1].1, threshold);
        let cur = target_pass(t.take(n), c, threshold);
        assert(cur == push_opt(prev, adj));
        assert forall|i: int| 0 <= i < cur.len() implies flagged(#[trigger] cur[i], threshold) by {
            if i < prev.len() {
                assert(cur[i] == prev[i]);
            }
        }
    }
}

proof fn lemma_holdings_pass_flagged(c: Seq<(String, u32)>, t: Seq<(String, u32)>, threshold: u32, n: int)
    requires
        0 <= n <= c.len(),
        weights_total(c) <= i32::MAX,
    ensures
        forall|i: int|
            0 <= i < holdings_pass(c.take(n), t, threshold).len() ==> flagged(
                #[trigger] holdings_pass(c.take(n), t, threshold)[i],
                threshold,
            ),
    decreases n,
{
    if n > 0 {
        lemma_holdings_pass_flagged(c, t, threshold, n - 1);
        assert(c.take(n).drop_last() =~= c.take(n - 1));
        assert(c.take(n).last() == c[n - 1]);
        lemma_entry_le_total(c, n - 1);
        lemma_adjustment_flagged(c[n - 1].0, c[n - 1].1, 0, threshold);
        let prev = holdings_pass(c.take(n - 1), t, threshold);
        let cur = holdings_pass(c.take(n), t, threshold);
        assert(cur == (if has_key(t, c[n - 1].0@) {
            prev
        } else {
            push_opt(prev, adjustment_for(c[n - 1].0, c[n - 1].1, 0, threshold))
        }));
        assert forall|i: int| 0 <= i < cur.len() implies flagged(#[trigger] cur[i], threshold) by {
            if i < prev.len() {
                assert(cur[i] == prev[i]);
            }
        }
    }
}

/// Every adjustment of a valid portfolio's plan is flagged by the drift
/// rule: drift is current minus target weight, its magnitude exceeds the
/// threshold in effect, and the direction is a sell exactly when the drift
/// is positive.
pub proof fn lemma_plan_adjustments_flagged(state: PortfolioState)
    requires
        state.wf(),
    ensures
        forall|i: int|
            0 <= i < state.plan().len() ==> flagged(#[trigger] state.plan()[i], state.threshold()),
{
    if let (Some(a), Some(h)) = (state.allocation, state.holdings) {
        let (t, c, thr) = (a@, h@, state.threshold());
        lemma_target_pass_flagged(t, c, thr, t.len() as int);
        lemma_holdings_pass_flagged(c, t, thr, c.len() as int);
        assert(t.take(t.len() as int) =~= t);
        assert(c.take(c.len() as int) =~= c);
        let p1 = target_pass(t, c, thr);
        let p2 = holdings_pass(c, t, thr);
        assert forall|i: int| 0 <= i < (p1 + p2).len() implies flagged(
            #[trigger] (p1 + p2)[i],
            thr,
        ) by {
            if i < p1.len() {
                assert((p1 + p2)[i] == p1[i]);
            } else {
                assert((p1 + p2)[i] == p2[i - p1.len()]);
            }
        }
    }
}

proof fn lemma_lookup_distinct(s: Seq<(String, u32)>, i: int)
    requires
        distinct_assets(s),
        0 <= i < s.len(),
    ensures
        lookup_weight(s, s[i].0@) == s[i].1,
    decreases s.len(),
{
    if i > 0 {
        assert(s[0].0@ != s[i].0@);
        let rest = s.drop_first();
        assert(rest[i - 1] == s[i]);
        assert forall|a: int, b: int| 0 <= a < b < rest.len() implies (#[trigger] rest[a]).0@ != (
        #[trigger] rest[b]).0@ by {
            assert(rest[a] == s[a + 1]);
            assert(rest[b] == s[b + 1]);
        }
        lemma_lookup_distinct(rest, i - 1);
    }
}

/// When the holdings are exactly the target allocation (a table naming each
/// asset once), the rebalance plan is empty: nothing has drifted.
pub proof fn lemma_balanced_plan_is_empty(t: Seq<(String, u32)>, threshold: u32)
    requires
        distinct_assets(t),
    ensures
        rebalance_plan(t, t, threshold).len() == 0,
{
    assert forall|n: int| 0 <= n <= t.len() implies #[trigger] target_pass(t.take(n), t, threshold).len()
        == 0 by {
        lemma_target_pass_balanced(t, threshold, n);
    }
    assert forall|n: int| 0 <= n <= t.len() implies #[trigger] holdings_pass(t.take(n), t, threshold).len()
        == 0 by {
        lemma_holdings_pass_balanced(t, threshold, n);
    }
    assert(t.take(t.len() as int) =~= t);
}

proof fn lemma_target_pass_balanced(t: Seq<(String, u32)>, threshold: u32, n: int)
    requires
        distinct_assets(t),
        0 <= n <= t.len(),
    ensures
        target_pass(t.take(n), t, threshold).len() == 0,
    decreases n,
{
    if n > 0 {
        lemma_target_pass_balanced(t, threshold, n - 1);
        assert(t.take(n).drop_last() =~= t.take(n - 1));
        assert(t.take(n).last() == t[n - 1]);
        lemma_lookup_distinct(t, n - 1);
    }
}

proof fn lemma_holdings_pass_balanced(t: Seq<(String, u32)>, threshold: u32, n: int)
    requires
        0 <= n <= t.len(),
    ensures
        holdings_pass(t.take(n), t, threshold).len() == 0,
    decreases n,
{
    if n > 0 {
        lemma_holdings_pass_balanced(t, threshold, n - 1);
        assert(t.take(n).drop_last() =~= t.take(n - 1));
        assert(t.take(n).last() == t[n - 1]);
        assert(has_key(t, t[n - 1].0@));
    }
}

/// Once a portfolio has an owner, passing the owner check never changes it;
/// and only the registered owner passes it.
pub proof fn lemma_owner_is_permanent(state: PortfolioState, caller: String)
    requires
        state.owner is Some,
    ensures
        state.claimed_by(caller).owner == state.owner,
        state.allows(caller) <==> state.owner->Some_0@ == caller@,
{
}

/// Manages portfolio rebalancing and allocation adjustments.
pub struct RebalancingContract;

impl RebalancingContract {
    /// Create a new portfolio.
    ///
    /// Fails with `PortfolioAlreadyExists`, `EmptyName`, `EmptyAssets`,
    /// `AllocationSumOutOfRange` (sum outside 10_000 ± 10 bps) or
    /// `InvalidAllocation` (an allocated asset is not in `assets`), checked in
    /// that order. On success the portfolio, its target allocation and (when
    /// none is registered) its owner are stored.
    #[verifier::loop_isolation(false)]
    pub fn initialize_portfolio(
        state: &mut PortfolioState,
        owner: &String,
        portfolio_id: &String,
        name: String,
        description: String,
        assets: Vec<String>,
        target_allocation: TargetAllocation,
        now: u64,
    ) -> (r: Result<Portfolio, RebalancingError>)
        requires
            old(state).wf(),
            distinct_assets(target_allocation@),
            old(state).portfolio is None && name@.len() > 0 && assets@.len() > 0 ==> weights_total(
                target_allocation@,
            ) <= u32::MAX,
        ensures
            final(state).wf(),
            match init_error(*old(state), name@, assets@, target_allocation@) {
                Some(e) => r == Err::<Portfolio, RebalancingError>(e) && *final(state) == *old(
                    state,
                ),
                None => {
                    let p = Portfolio {
                        id: *portfolio_id,
                        owner: *owner,
                        assets,
                        target_allocation,
                        metadata: PortfolioMetadata {
                            name,
                            description,
                            created_at: now,
                            last_modified: now,
                        },
                    };
                    &&& r matches Ok(q) && q@ == p@
                    &&& final(state).portfolio matches Some(s) && s@ == p@
                    &&& final(state).allocation matches Some(a) && a@ == target_allocation@
                    &&& final(state).owner == (match old(state).owner {
                        Some(o) => Some(o),
                        None => Some(*owner),
                    })
                    &&& final(state).schedule == old(state).schedule
                    &&& final(state).history == old(state).history
                    &&& final(state).holdings == old(state).holdings
                    &&& final(state).drift_threshold == old(state).drift_threshold
                },
            },
    {
        if state.portfolio.is_some() {
            return Err(RebalancingError::PortfolioAlreadyExists);
        }
        if name.as_str().is_empty() {
            return Err(RebalancingError::EmptyName);
        }
        if assets.len() == 0 {
            return Err(RebalancingError::EmptyAssets);
        }
        let total = Self::allocation_sum(&target_allocation);
        if total < FULL_ALLOCATION_BPS - ALLOCATION_TOLERANCE_BPS || total > FULL_ALLOCATION_BPS
            + ALLOCATION_TOLERANCE_BPS {
            return Err(RebalancingError::AllocationSumOutOfRange);
        }
        let mut i: usize = 0;
        while i < target_allocation.allocations.len()
            invariant
                i <= target_allocation.allocations@.len(),
                forall|k: int|
                    0 <= k < i ==> exists|j: int|
                        0 <= j < assets@.len() && (#[trigger] assets@[j])@ == (
                        #[trigger] target_allocation.allocations@[k]).0@,
            decreases target_allocation.allocations@.len() - i,
        {
            if !is_listed(&assets, &target_allocation.allocations[i].0) {
                return Err(RebalancingError::InvalidAllocation);
            }
            i = i + 1;
        }
        let stored_allocation = target_allocation.duplicate();
        let portfolio = Portfolio {
            id: portfolio_id.clone(),
            owner: owner.clone(),
            assets,
            target_allocation,
            metadata: PortfolioMetadata { name, description, created_at: now, last_modified: now },
        };
        let result = portfolio.duplicate();
        state.portfolio = Some(portfolio);
        if state.owner.is_none() {
            state.owner = Some(owner.clone());
        }
        state.allocation = Some(stored_allocation);
        Ok(result)
    }

    /// The stored portfolio, or `PortfolioNotFound`.
    pub fn get_portfolio(state: &PortfolioState) -> (r: Result<Portfolio, RebalancingError>)
        ensures
            match state.portfolio {
                Some(p) => r matches Ok(q) && q@ == p@,
                None => r == Err::<Portfolio, RebalancingError>(
                    RebalancingError::PortfolioNotFound,
                ),
            },
    {
        match &state.portfolio {
            Some(p) => Ok(p.duplicate()),
            None => Err(RebalancingError::PortfolioNotFound),
        }
    }

    /// Sum of a target allocation's weights in basis points.
    pub fn allocation_sum(allocation: &TargetAllocation) -> (total: u32)
        requires
            weights_total(allocation@) <= u32::MAX,
        ensures
            total == weights_total(allocation@),
    {
        sum_weights(&allocation.allocations)
    }

    /// Enforce portfolio ownership: a registered owner must be `owner`;
    /// when none is registered yet, `owner` is registered.
    pub fn require_owner_auth(state: &mut PortfolioState, owner: &String) -> (r: Result<
        (),
        RebalancingError,
    >)
        ensures
            r is Ok <==> old(state).allows(*owner),
            r is Ok ==> *final(state) == old(state).claimed_by(*owner),
            r is Err ==> r == Err::<(), RebalancingError>(RebalancingError::Unauthorized)
                && *final(state) == *old(state),
    {
        match &state.owner {
            Some(stored) => {
                if *stored == *owner {
                    Ok(())
                } else {
                    Err(RebalancingError::Unauthorized)
                }
            },
            None => {
                state.owner = Some(owner.clone());
                Ok(())
            },
        }
    }

    /// Whether `owner` passes the owner check, without registering anyone.
    fn owner_allowed(state: &PortfolioState, owner: &String) -> (ok: bool)
        ensures
            ok == state.allows(*owner),
    {
        match &state.owner {
            Some(stored) => *stored == *owner,
            None => true,
        }
    }

    /// The registered owner, if any.
    pub fn get_owner(state: &PortfolioState) -> (r: Option<String>)
        ensures
            r == state.owner,
    {
        match &state.owner {
            Some(o) => Some(o.clone()),
            None => None,
        }
    }
}


impl RebalancingContract {
    /// Rename and re-describe a portfolio. Only the owner may do this.
    ///
    /// Fails with `Unauthorized`, `EmptyName` or `PortfolioNotFound`, checked
    /// in that order. On success `last_modified` becomes `now`.
    pub fn update_portfolio_metadata(
        state: &mut PortfolioState,
        owner: &String,
        name: String,
        description: String,
        now: u64,
    ) -> (r: Result<Portfolio, RebalancingError>)
        ensures
            !old(state).allows(*owner) ==> r == Err::<Portfolio, RebalancingError>(
                RebalancingError::Unauthorized,
            ) && *final(state) == *old(state),
            old(state).allows(*owner) && name@.len() == 0 ==> r == Err::<
                Portfolio,
                RebalancingError,
            >(RebalancingError::EmptyName) && *final(state) == *old(state),
            old(state).allows(*owner) && name@.len() > 0 && old(state).portfolio is None ==> r
                == Err::<Portfolio, RebalancingError>(RebalancingError::PortfolioNotFound)
                && *final(state) == *old(state),
            old(state).allows(*owner) && name@.len() > 0 && old(state).portfolio is Some ==> {
                let p = old(state).portfolio->Some_0;
                let np = Portfolio {
                    metadata: PortfolioMetadata {
                        name,
                        description,
                        last_modified: now,
                        ..p.metadata
                    },
                    ..p
                };
                &&& r matches Ok(q) && q@ == np@
                &&& *final(state) == (PortfolioState {
                    portfolio: Some(np),
                    ..old(state).claimed_by(*owner)
                })
            },
    {
        if !Self::owner_allowed(state, owner) {
            return Err(RebalancingError::Unauthorized);
        }
        if name.as_str().is_empty() {
            return Err(RebalancingError::EmptyName);
        }
        let taken = state.portfolio.take();
        match taken {
            None => Err(RebalancingError::PortfolioNotFound),
            Some(mut p) => {
                p.metadata.name = name;
                p.metadata.description = description;
                p.metadata.last_modified = now;
                let result = p.duplicate();
                state.portfolio = Some(p);
                let _ = Self::require_owner_auth(state, owner);
                Ok(result)
            },
        }
    }

    /// Replace a portfolio's target allocation. Only the owner may do this.
    ///
    /// Fails with `Unauthorized`, `AllocationSumOutOfRange` (sum outside
    /// 10_000 ± 10 bps) or `PortfolioNotFound`, checked in that order. On
    /// success the allocation used for rebalance plans is replaced too.
    pub fn update_portfolio_allocation(
        state: &mut PortfolioState,
        owner: &String,
        target_allocation: TargetAllocation,
        now: u64,
    ) -> (r: Result<Portfolio, RebalancingError>)
        requires
            old(state).wf(),
            distinct_assets(target_allocation@),
            old(state).allows(*owner) ==> weights_total(target_allocation@) <= u32::MAX,
        ensures
            final(state).wf(),
            !old(state).allows(*owner) ==> r == Err::<Portfolio, RebalancingError>(
                RebalancingError::Unauthorized,
            ) && *final(state) == *old(state),
            old(state).allows(*owner) && !total_in_range(weights_total(target_allocation@)) ==> r
                == Err::<Portfolio, RebalancingError>(RebalancingError::AllocationSumOutOfRange)
                && *final(state) == *old(state),
            old(state).allows(*owner) && total_in_range(weights_total(target_allocation@))
                && old(state).portfolio is None ==> r == Err::<Portfolio, RebalancingError>(
                RebalancingError::PortfolioNotFound,
            ) && *final(state) == *old(state),
            old(state).allows(*owner) && total_in_range(weights_total(target_allocation@))
                && old(state).portfolio is Some ==> {
                let p = old(state).portfolio->Some_0;
                let np = Portfolio {
                    target_allocation,
                    metadata: PortfolioMetadata { last_modified: now, ..p.metadata },
                    ..p
                };
                &&& r matches Ok(q) && q@ == np@
                &&& final(state).allocation matches Some(a) && a@ == target_allocation@
                &&& *final(state) == (PortfolioState {
                    portfolio: Some(np),
                    allocation: final(state).allocation,
                    ..old(state).claimed_by(*owner)
                })
            },
    {
        if !Self::owner_allowed(state, owner) {
            return Err(RebalancingError::Unauthorized);
        }
        let total = Self::allocation_sum(&target_allocation);
        if total < FULL_ALLOCATION_BPS - ALLOCATION_TOLERANCE_BPS || total > FULL_ALLOCATION_BPS
            + ALLOCATION_TOLERANCE_BPS {
            return Err(RebalancingError::AllocationSumOutOfRange);
        }
        let taken = state.portfolio.take();
        match taken {
            None => Err(RebalancingError::PortfolioNotFound),
            Some(mut p) => {
                let stored_allocation = target_allocation.duplicate();
                p.target_allocation = target_allocation;
                p.metadata.last_modified = now;
                let result = p.duplicate();
                state.portfolio = Some(p);
                state.allocation = Some(stored_allocation);
                let _ = Self::require_owner_auth(state, owner);
                Ok(result)
            },
        }
    }

    /// Create the portfolio's rebalance schedule; the first run is due one
    /// interval from `now`.
    pub fn set_schedule(
        state: &mut PortfolioState,
        owner: &String,
        portfolio_id: &String,
        interval: RebalanceInterval,
        now: u64,
    ) -> (r: ScheduleStatus)
        requires
            old(state).allows(*owner) && old(state).schedule is None ==> now + interval_seconds(
                interval,
            ) <= u64::MAX,
        ensures
            !old(state).allows(*owner) ==> r == ScheduleStatus::ErrAuth && *final(state) == *old(
                state,
            ),
            old(state).allows(*owner) && old(state).schedule is Some ==> r
                == ScheduleStatus::ErrExist && *final(state) == old(state).claimed_by(*owner),
            old(state).allows(*owner) && old(state).schedule is None ==> r
                == ScheduleStatus::Applied && *final(state) == (PortfolioState {
                schedule: Some(
                    RebalancingSchedule {
                        portfolio_id: *portfolio_id,
                        interval,
                        next_execution: (now + interval_seconds(interval)) as u64,
                        last_execution: 0,
                    },
                ),
                ..old(state).claimed_by(*owner)
            }),
            final(state).wf() == old(state).wf(),
    {
        if Self::require_owner_auth(state, owner).is_err() {
            return ScheduleStatus::ErrAuth;
        }
        if !ScheduleValidator::validate(&interval) {
            return ScheduleStatus::ErrVal;
        }
        if state.schedule.is_some() {
            return ScheduleStatus::ErrExist;
        }
        let next_execution = now + interval_to_seconds(&interval);
        state.schedule = Some(
            RebalancingSchedule {
                portfolio_id: portfolio_id.clone(),
                interval,
                next_execution,
                last_execution: 0,
            },
        );
        ScheduleStatus::Applied
    }

    /// Change the interval of the portfolio's schedule. The next run is due
    /// one interval after the last run, or after `now` if it never ran.
    pub fn update_schedule(
        state: &mut PortfolioState,
        owner: &String,
        interval: RebalanceInterval,
        now: u64,
    ) -> (r: ScheduleStatus)
        requires
            old(state).allows(*owner) && old(state).schedule is Some ==> next_due(
                old(state).schedule->Some_0,
                interval,
                now,
            ) <= u64::MAX,
        ensures
            !old(state).allows(*owner) ==> r == ScheduleStatus::ErrAuth && *final(state) == *old(
                state,
            ),
            old(state).allows(*owner) && old(state).schedule is None ==> r
                == ScheduleStatus::ErrNone && *final(state) == old(state).claimed_by(*owner),
            old(state).allows(*owner) && old(state).schedule is Some ==> {
                let s = old(state).schedule->Some_0;
                &&& r == ScheduleStatus::Applied
                &&& *final(state) == (PortfolioState {
                    schedule: Some(
                        RebalancingSchedule {
                            interval,
                            next_execution: next_due(s, interval, now) as u64,
                            ..s
                        },
                    ),
                    ..old(state).claimed_by(*owner)
                })
            },
            final(state).wf() == old(state).wf(),
    {
        if Self::require_owner_auth(state, owner).is_err() {
            return ScheduleStatus::ErrAuth;
        }
        if !ScheduleValidator::validate(&interval) {
            return ScheduleStatus::ErrVal;
        }
        let taken = state.schedule.take();
        match taken {
            None => ScheduleStatus::ErrNone,
            Some(mut s) => {
                let interval_secs = interval_to_seconds(&interval);
                s.interval = interval;
                if s.last_execution > 0 {
                    s.next_execution = s.last_execution + interval_secs;
                } else {
                    s.next_execution = now + interval_secs;
                }
                state.schedule = Some(s);
                ScheduleStatus::Applied
            },
        }
    }

    /// Remove the portfolio's schedule.
    pub fn cancel_schedule(state: &mut PortfolioState, owner: &String) -> (r: ScheduleStatus)
        ensures
            !old(state).allows(*owner) ==> r == ScheduleStatus::ErrAuth && *final(state) == *old(
                state,
            ),
            old(state).allows(*owner) && old(state).schedule is None ==> r
                == ScheduleStatus::ErrNone && *final(state) == old(state).claimed_by(*owner),
            old(state).allows(*owner) && old(state).schedule is Some ==> r
                == ScheduleStatus::Applied && *final(state) == (PortfolioState {
                schedule: None,
                ..old(state).claimed_by(*owner)
            }),
            final(state).wf() == old(state).wf(),
    {
        if Self::require_owner_auth(state, owner).is_err() {
            return ScheduleStatus::ErrAuth;
        }
        if state.schedule.is_none() {
            return ScheduleStatus::ErrNone;
        }
        state.schedule = None;
        ScheduleStatus::Applied
    }

    /// The portfolio's schedule, if any.
    pub fn get_schedule(state: &PortfolioState) -> (r: Option<RebalancingSchedule>)
        ensures
            r == state.schedule,
    {
        match &state.schedule {
            Some(s) => Some(s.duplicate()),
            None => None,
        }
    }
}

/// When the next scheduled run is due after switching to `interval`.
pub open spec fn next_due(s: RebalancingSchedule, interval: RebalanceInterval, now: u64) -> int {
    if s.last_execution > 0 {
        s.last_execution + interval_seconds(interval)
    } else {
        now + interval_seconds(interval)
    }
}


impl RebalancingContract {
    /// Set the target allocation used for rebalance plans; its weights must
    /// total exactly 10_000 bps. Only the owner may do this.
    pub fn set_target_allocation(
        state: &mut PortfolioState,
        owner: &String,
        allocation: TargetAllocation,
    ) -> (r: Result<(), RebalancingError>)
        requires
            old(state).wf(),
            distinct_assets(allocation@),
            old(state).allows(*owner) ==> weights_total(allocation@) <= u32::MAX,
        ensures
            final(state).wf(),
            !old(state).allows(*owner) ==> r == Err::<(), RebalancingError>(
                RebalancingError::Unauthorized,
            ) && *final(state) == *old(state),
            old(state).allows(*owner) && weights_total(allocation@) != FULL_ALLOCATION_BPS ==> r
                == Err::<(), RebalancingError>(RebalancingError::InvalidAllocation) && *final(state)
                == *old(state),
            old(state).allows(*owner) && weights_total(allocation@) == FULL_ALLOCATION_BPS ==> r
                is Ok && *final(state) == (PortfolioState {
                allocation: Some(allocation),
                ..old(state).claimed_by(*owner)
            }),
    {
        if !Self::owner_allowed(state, owner) {
            return Err(RebalancingError::Unauthorized);
        }
        let total = Self::allocation_sum(&allocation);
        if total != FULL_ALLOCATION_BPS {
            return Err(RebalancingError::InvalidAllocation);
        }
        state.allocation = Some(allocation);
        let _ = Self::require_owner_auth(state, owner);
        Ok(())
    }

    /// The target allocation used for rebalance plans, if one has been set.
    pub fn get_target_allocation(state: &PortfolioState) -> (r: Option<TargetAllocation>)
        ensures
            match state.allocation {
                Some(a) => r matches Some(b) && b@ == a@,
                None => r is None,
            },
    {
        match &state.allocation {
            Some(a) => Some(a.duplicate()),
            None => None,
        }
    }

    /// Store the current weights used for rebalance plans; they must total
    /// exactly 10_000 bps. Only the owner may do this.
    pub fn set_current_holdings(
        state: &mut PortfolioState,
        owner: &String,
        holdings: CurrentHoldings,
    ) -> (r: Result<(), RebalancingError>)
        requires
            old(state).wf(),
            distinct_assets(holdings@),
            old(state).allows(*owner) ==> weights_total(holdings@) <= u32::MAX,
        ensures
            final(state).wf(),
            !old(state).allows(*owner) ==> r == Err::<(), RebalancingError>(
                RebalancingError::Unauthorized,
            ) && *final(state) == *old(state),
            old(state).allows(*owner) && weights_total(holdings@) != FULL_ALLOCATION_BPS ==> r
                == Err::<(), RebalancingError>(RebalancingError::InvalidCurrentHoldings)
                && *final(state) == *old(state),
            old(state).allows(*owner) && weights_total(holdings@) == FULL_ALLOCATION_BPS ==> r
                is Ok && *final(state) == (PortfolioState {
                holdings: Some(holdings),
                ..old(state).claimed_by(*owner)
            }),
    {
        if !Self::owner_allowed(state, owner) {
            return Err(RebalancingError::Unauthorized);
        }
        let total = sum_weights(&holdings.allocations);
        if total != FULL_ALLOCATION_BPS {
            return Err(RebalancingError::InvalidCurrentHoldings);
        }
        state.holdings = Some(holdings);
        let _ = Self::require_owner_auth(state, owner);
        Ok(())
    }

    /// The current weights used for rebalance plans, if supplied.
    pub fn get_current_holdings(state: &PortfolioState) -> (r: Option<CurrentHoldings>)
        ensures
            match state.holdings {
                Some(h) => r matches Some(g) && g@ == h@,
                None => r is None,
            },
    {
        match &state.holdings {
            Some(h) => Some(h.duplicate()),
            None => None,
        }
    }

    /// Set the portfolio's drift tolerance in basis points. Only the owner
    /// may do this.
    pub fn set_drift_threshold_bps(
        state: &mut PortfolioState,
        owner: &String,
        threshold_bps: u32,
    ) -> (r: Result<(), RebalancingError>)
        ensures
            !old(state).allows(*owner) ==> r == Err::<(), RebalancingError>(
                RebalancingError::Unauthorized,
            ) && *final(state) == *old(state),
            old(state).allows(*owner) ==> r is Ok && *final(state) == (PortfolioState {
                drift_threshold: Some(threshold_bps),
                ..old(state).claimed_by(*owner)
            }),
            final(state).wf() == old(state).wf(),
    {
        if !Self::owner_allowed(state, owner) {
            return Err(RebalancingError::Unauthorized);
        }
        state.drift_threshold = Some(threshold_bps);
        let _ = Self::require_owner_auth(state, owner);
        Ok(())
    }

    /// The drift tolerance in effect: the configured one, or 100 bps.
    pub fn get_drift_threshold_bps(state: &PortfolioState) -> (t: u32)
        ensures
            t == state.threshold(),
    {
        match state.drift_threshold {
            Some(t) => t,
            None => DEFAULT_DRIFT_THRESHOLD_BPS,
        }
    }

    /// The portfolio's rebalance runs, oldest first.
    pub fn get_execution_history(state: &PortfolioState) -> (h: Vec<ExecutionHistoryRecord>)
        ensures
            h@ == state.history@,
    {
        let mut h: Vec<ExecutionHistoryRecord> = Vec::new();
        let mut i: usize = 0;
        while i < state.history.len()
            invariant
                i <= state.history@.len(),
                h@ == state.history@.take(i as int),
            decreases state.history@.len() - i,
        {
            h.push(state.history[i]);
            assert(state.history@.take(i + 1) =~= state.history@.take(i as int).push(
                state.history@[i as int],
            ));
            i = i + 1;
        }
        assert(state.history@.take(state.history@.len() as int) =~= state.history@);
        h
    }
}


impl RebalancingContract {
    /// Append the adjustment for one asset when its absolute drift exceeds
    /// the threshold.
    fn add_adjustment_if_needed(
        adjustments: &mut Vec<RebalanceAdjustment>,
        asset: String,
        current_weight: u32,
        target_weight: u32,
        threshold: u32,
    )
        requires
            current_weight <= i32::MAX,
            target_weight <= i32::MAX,
        ensures
            final(adjustments)@ == push_opt(
                old(adjustments)@,
                adjustment_for(asset, current_weight, target_weight, threshold),
            ),
    {
        let drift: i32 = current_weight as i32 - target_weight as i32;
        let magnitude: u32 = if current_weight >= target_weight {
            current_weight - target_weight
        } else {
            target_weight - current_weight
        };
        if magnitude > threshold {
            let direction = if drift > 0 {
                RebalanceDirection::Sell
            } else {
                RebalanceDirection::Buy
            };
            adjustments.push(
                RebalanceAdjustment {
                    asset,
                    current_weight_bps: current_weight,
                    target_weight_bps: target_weight,
                    drift_bps: drift,
                    direction,
                },
            );
        }
    }

    /// The rebalance plan from the stored target allocation and holdings:
    /// target assets first, then assets held but no longer targeted, each
    /// included only when its absolute drift exceeds the threshold.
    fn calculate_rebalance(state: &PortfolioState, portfolio_id: &String) -> (r: Result<
        RebalanceResult,
        RebalancingError,
    >)
        requires
            state.wf(),
        ensures
            match state.plan_error() {
                Some(e) => r == Err::<RebalanceResult, RebalancingError>(e),
                None => r matches Ok(res) && res.portfolio_id == *portfolio_id
                    && res.drift_threshold_bps == state.threshold() && res.adjustments@
                    == state.plan(),
            },
    {
        let target = match &state.allocation {
            Some(a) => a,
            None => {
                return Err(RebalancingError::TargetAllocationNotFound);
            },
        };
        let current = match &state.holdings {
            Some(h) => h,
            None => {
                return Err(RebalancingError::CurrentHoldingsNotFound);
            },
        };
        let threshold = Self::get_drift_threshold_bps(state);
        let t = &target.allocations;
        let c = &current.allocations;
        let ghost ts = t@;
        let ghost cs = c@;
        let mut adjustments: Vec<RebalanceAdjustment> = Vec::new();
        let mut i: usize = 0;
        while i < t.len()
            invariant
                ts == t@,
                cs == c@,
                i <= ts.len(),
                weights_total(ts) <= FULL_ALLOCATION_BPS + ALLOCATION_TOLERANCE_BPS,
                weights_total(cs) == FULL_ALLOCATION_BPS,
                adjustments@ == target_pass(ts.take(i as int), cs, threshold),
            decreases ts.len() - i,
        {
            let current_weight = weight_of(c, &t[i].0);
            proof {
                lemma_entry_le_total(ts, i as int);
                lemma_lookup_le_total(cs, ts[i as int].0@);
                assert(ts.take(i + 1).drop_last() =~= ts.take(i as int));
                assert(ts.take(i + 1).last() == ts[i as int]);
            }
            Self::add_adjustment_if_needed(
                &mut adjustments,
                t[i].0.clone(),
                current_weight,
                t[i].1,
                threshold,
            );
            i = i + 1;
        }
        assert(ts.take(ts.len() as int) =~= ts);
        let ghost first = adjustments@;
        let mut k: usize = 0;
        while k < c.len()
            invariant
                ts == t@,
                cs == c@,
                k <= cs.len(),
                weights_total(cs) == FULL_ALLOCATION_BPS,
                first == target_pass(ts, cs, threshold),
                adjustments@ == first + holdings_pass(cs.take(k as int), ts, threshold),
            decreases cs.len() - k,
        {
            proof {
                lemma_entry_le_total(cs, k as int);
                assert(cs.take(k + 1).drop_last() =~= cs.take(k as int));
                assert(cs.take(k + 1).last() == cs[k as int]);
            }
            if !contains_asset(t, &c[k].0) {
                Self::add_adjustment_if_needed(&mut adjustments, c[k].0.clone(), c[k].1, 0, threshold);
            }
            proof {
                let hp = holdings_pass(cs.take(k as int), ts, threshold);
                match adjustment_for(cs[k as int].0, cs[k as int].1, 0, threshold) {
                    Some(x) => {
                        assert((first + hp).push(x) =~= first + hp.push(x));
                    },
                    None => {},
                }
            }
            k = k + 1;
        }
        assert(cs.take(cs.len() as int) =~= cs);
        Ok(RebalanceResult {
            portfolio_id: portfolio_id.clone(),
            drift_threshold_bps: threshold,
            adjustments,
        })
    }

    /// The current rebalance plan, without recording anything.
    pub fn get_rebalance_plan(state: &PortfolioState, portfolio_id: &String) -> (r: Result<
        RebalanceResult,
        RebalancingError,
    >)
        requires
            state.wf(),
        ensures
            match state.plan_error() {
                Some(e) => r == Err::<RebalanceResult, RebalancingError>(e),
                None => r matches Ok(res) && res.portfolio_id == *portfolio_id
                    && res.drift_threshold_bps == state.threshold() && res.adjustments@
                    == state.plan(),
            },
    {
        Self::calculate_rebalance(state, portfolio_id)
    }

    /// Append a run to the execution history.
    fn record_execution(
        state: &mut PortfolioState,
        outcome: RebalanceOutcome,
        details: ExecutionTrigger,
        now: u64,
    )
        ensures
            final(state).history@ == old(state).history@.push(
                ExecutionHistoryRecord { timestamp: now, outcome, details },
            ),
            *final(state) == (PortfolioState { history: final(state).history, ..*old(state) }),
    {
        state.history.push(ExecutionHistoryRecord { timestamp: now, outcome, details });
    }

    /// Compute the rebalance plan on the owner's request and record a manual
    /// run. Fails with `Unauthorized`, `TargetAllocationNotFound` or
    /// `CurrentHoldingsNotFound`, leaving the state unchanged.
    pub fn rebalance(
        state: &mut PortfolioState,
        owner: &String,
        portfolio_id: &String,
        now: u64,
    ) -> (r: Result<RebalanceResult, RebalancingError>)
        requires
            old(state).wf(),
        ensures
            final(state).wf(),
            !old(state).allows(*owner) ==> r == Err::<RebalanceResult, RebalancingError>(
                RebalancingError::Unauthorized,
            ) && *final(state) == *old(state),
            old(state).allows(*owner) && old(state).plan_error() is Some ==> r == Err::<
                RebalanceResult,
                RebalancingError,
            >(old(state).plan_error()->Some_0) && *final(state) == *old(state),
            old(state).allows(*owner) && old(state).plan_error() is None ==> {
                &&& r matches Ok(res) && res.portfolio_id == *portfolio_id
                    && res.drift_threshold_bps == old(state).threshold() && res.adjustments@
                    == old(state).plan()
                &&& final(state).history@ == old(state).history@.push(
                    ExecutionHistoryRecord {
                        timestamp: now,
                        outcome: RebalanceOutcome::Done,
                        details: ExecutionTrigger::Manual,
                    },
                )
                &&& *final(state) == (PortfolioState {
                    history: final(state).history,
                    ..old(state).claimed_by(*owner)
                })
            },
    {
        if !Self::owner_allowed(state, owner) {
            return Err(RebalancingError::Unauthorized);
        }
        let result = match Self::calculate_rebalance(state, portfolio_id) {
            Ok(res) => res,
            Err(e) => {
                return Err(e);
            },
        };
        let _ = Self::require_owner_auth(state, owner);
        Self::record_execution(state, RebalanceOutcome::Done, ExecutionTrigger::Manual, now);
        Ok(result)
    }

    /// Run the portfolio's schedule if it is due: compute the plan, move the
    /// schedule one interval past `now`, and record a scheduled run with its
    /// outcome. The run is recorded even when no plan can be computed.
    pub fn check_exec_sched_rebalance(
        state: &mut PortfolioState,
        portfolio_id: &String,
        now: u64,
    ) -> (r: ScheduleCheck)
        requires
            old(state).wf(),
            old(state).schedule is Some && now >= old(state).schedule->Some_0.next_execution ==> now
                + interval_seconds(old(state).schedule->Some_0.interval) <= u64::MAX,
        ensures
            final(state).wf(),
            old(state).schedule is None ==> r == ScheduleCheck::NoSchedule && *final(state)
                == *old(state),
            old(state).schedule is Some && now < old(state).schedule->Some_0.next_execution ==> r
                == ScheduleCheck::NotDue && *final(state) == *old(state),
            old(state).schedule is Some && now >= old(state).schedule->Some_0.next_execution ==> {
                let s = old(state).schedule->Some_0;
                let outcome = outcome_of(old(state).plan_error());
                &&& r == ScheduleCheck::Ran(outcome)
                &&& final(state).history@ == old(state).history@.push(
                    ExecutionHistoryRecord {
                        timestamp: now,
                        outcome,
                        details: ExecutionTrigger::Scheduled,
                    },
                )
                &&& *final(state) == (PortfolioState {
                    schedule: Some(
                        RebalancingSchedule {
                            last_execution: now,
                            next_execution: (now + interval_seconds(s.interval)) as u64,
                            ..s
                        },
                    ),
                    history: final(state).history,
                    ..*old(state)
                })
            },
    {
        let taken = state.schedule.take();
        let mut schedule = match taken {
            None => {
                return ScheduleCheck::NoSchedule;
            },
            Some(s) => s,
        };
        if now < schedule.next_execution {
            state.schedule = Some(schedule);
            return ScheduleCheck::NotDue;
        }
        let outcome = match Self::calculate_rebalance(state, portfolio_id) {
            Ok(_) => RebalanceOutcome::Done,
            Err(RebalancingError::TargetAllocationNotFound) => RebalanceOutcome::NoTarget,
            Err(RebalancingError::CurrentHoldingsNotFound) => RebalanceOutcome::NoHoldings,
            Err(_) => RebalanceOutcome::Failed,
        };
        schedule.last_execution = now;
        schedule.next_execution = now + interval_to_seconds(&schedule.interval);
        state.schedule = Some(schedule);
        Self::record_execution(state, outcome, ExecutionTrigger::Scheduled, now);
        ScheduleCheck::Ran(outcome)
    }

    /// Compute the plan and hand it to the multi-asset rebalancer. Fails
    /// with `Unauthorized`, `TargetAllocationNotFound` or
    /// `CurrentHoldingsNotFound`, leaving the state unchanged.
    pub fn execute_rebalance(
        state: &mut PortfolioState,
        owner: &String,
        portfolio_id: &String,
        strategy: ExecutionStrategy,
    ) -> (r: Result<(), RebalancingError>)
        requires
            old(state).wf(),
        ensures
            !old(state).allows(*owner) ==> r == Err::<(), RebalancingError>(
                RebalancingError::Unauthorized,
            ) && *final(state) == *old(state),
            old(state).allows(*owner) && old(state).plan_error() is Some ==> r == Err::<
                (),
                RebalancingError,
            >(old(state).plan_error()->Some_0) && *final(state) == *old(state),
            old(state).allows(*owner) && old(state).plan_error() is None ==> r is Ok
                && *final(state) == old(state).claimed_by(*owner),
            final(state).wf(),
    {
        if !Self::owner_allowed(state, owner) {
            return Err(RebalancingError::Unauthorized);
        }
        let plan = match Self::calculate_rebalance(state, portfolio_id) {
            Ok(res) => res,
            Err(e) => {
                return Err(e);
            },
        };
        if MultiAssetRebalancer::rebalance(portfolio_id, strategy, &plan.adjustments).is_err() {
            return Err(RebalancingError::MultiAssetRebalanceFailed);
        }
        let _ = Self::require_owner_auth(state, owner);
        Ok(())
    }

    /// Compute the plan and simulate its execution.
    pub fn simulate_rebalance(
        state: &PortfolioState,
        portfolio_id: &String,
        strategy: ExecutionStrategy,
    ) -> (r: Result<SimulationResult, RebalancingError>)
        requires
            state.wf(),
        ensures
            match state.plan_error() {
                Some(e) => r == Err::<SimulationResult, RebalancingError>(e),
                None => r matches Ok(s) && s.trades@.len() == 0 && s.total_fee == 0 && s.slippage
                    == 0,
            },
    {
        let plan = match Self::calculate_rebalance(state, portfolio_id) {
            Ok(res) => res,
            Err(e) => {
                return Err(e);
            },
        };
        match MultiAssetRebalancer::simulate_rebalance(portfolio_id, strategy, &plan.adjustments) {
            Ok(sim) => Ok(sim),
            Err(_) => Err(RebalancingError::MultiAssetRebalanceFailed),
        }
    }

    /// Balances as audit snapshot entries: the same assets, in the same
    /// order, with each weight widened to `i128`.
    pub fn audit_snapshot(balances: &Vec<(String, u32)>) -> (r: Vec<(String, i128)>)
        ensures
            r@.len() == balances@.len(),
            forall|i: int|
                0 <= i < r@.len() ==> (#[trigger] r@[i]).0 == balances@[i].0 && r@[i].1
                    == balances@[i].1,
    {
        let mut r: Vec<(String, i128)> = Vec::new();
        let mut i: usize = 0;
        while i < balances.len()
            invariant
                i <= balances@.len(),
                r@.len() == i,
                forall|j: int|
                    0 <= j < i ==> (#[trigger] r@[j]).0 == balances@[j].0 && r@[j].1
                        == balances@[j].1,
            decreases balances@.len() - i,
        {
            r.push((balances[i].0.clone(), balances[i].1 as i128));
            i = i + 1;
        }
        r
    }
}

} // verus!
