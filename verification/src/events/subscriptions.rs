//! Advanced event subscriptions: filtering by type, severity and custom
//! numeric predicates; delivery preferences (immediate vs batch);
//! delivery tracking with exponential-backoff retries; delivery metrics.

use crate::bytes::{
    as_signed_128, be_i128, be_unsigned, lemma_pow256_values, lemma_pow_increases_to,
    lemma_pow_unfold, lemma_u128_signed,
};
use crate::events::{compare_holds, ComparisonOperator, PortfolioEventType};
use vstd::arithmetic::div_mod::*;
use vstd::arithmetic::power::*;
use vstd::prelude::*;

verus! {

/// Delay before the first retry, in seconds.
pub const RETRY_INITIAL_SECS: u64 = 1;

/// Longest delay between retries, in seconds (one hour).
pub const RETRY_MAX_SECS: u64 = 3_600;

/// Delivery modes for a managed subscription.
#[derive(Debug, Clone, Copy, PartialEq, Eq, Structural)]
pub enum DeliveryMode {
    /// Deliver each matching event as soon as it is dispatched.
    Immediate,
    /// Accumulate events; flush when batch size or window is reached.
    Batch,
}

/// Lifecycle status of a managed subscription.
#[derive(Debug, Clone, Copy, PartialEq, Eq, Structural)]
pub enum SubscriptionStatus {
    Active,
    Paused,
    Cancelled,
}

impl SubscriptionStatus {
    /// Only active subscriptions receive events.
    pub fn is_receives_events(self) -> (r: bool)
        ensures
            r == (self == SubscriptionStatus::Active),
    {
        match self {
            SubscriptionStatus::Active => true,
            _ => false,
        }
    }
}

/// A single custom predicate evaluated against an event's details.
///
/// The detail value must be a payload of exactly 16 bytes encoding a
/// big-endian `i128` (see [`numeric_detail`] for writing one). Non-numeric
/// details never satisfy a condition.
#[derive(Debug)]
pub struct FilterCondition {
    pub key: String,
    pub op: ComparisonOperator,
    pub value: i128,
}

/// Filtering criteria applied to every dispatched event.
///
/// An empty `event_types` list means "all types"; `min_severity` of 0 means
/// "any severity"; all `conditions` must pass (empty = no extra constraint).
#[derive(Debug)]
pub struct EventFilter {
    pub event_types: Vec<PortfolioEventType>,
    pub min_severity: u32,
    pub conditions: Vec<FilterCondition>,
}

/// The first detail stored under `key`, if any.
pub open spec fn detail_for(details: Seq<(String, Vec<u8>)>, key: Seq<char>) -> Option<Seq<u8>>
    decreases details.len(),
{
    if details.len() == 0 {
        None
    } else if details[0].0@ == key {
        Some(details[0].1@)
    } else {
        detail_for(details.drop_first(), key)
    }
}

/// Whether a condition holds for an event's details: the detail under its key
/// is a 16-byte big-endian `i128` that compares as the condition says.
pub open spec fn condition_holds(cond: FilterCondition, details: Seq<(String, Vec<u8>)>) -> bool {
    match detail_for(details, cond.key@) {
        None => false,
        Some(raw) => raw.len() == 16 && compare_holds(
            cond.op,
            as_signed_128(be_unsigned(raw) as int),
            cond.value as int,
        ),
    }
}

/// Whether a filter accepts an event of type `event_type` with `severity`
/// and `details`.
pub open spec fn filter_accepts(
    filter: EventFilter,
    event_type: PortfolioEventType,
    severity: u32,
    details: Seq<(String, Vec<u8>)>,
) -> bool {
    &&& filter.min_severity <= severity
    &&& (filter.event_types@.len() == 0 || filter.event_types@.contains(event_type))
    &&& forall|i: int|
        0 <= i < filter.conditions@.len() ==> condition_holds(
            #[trigger] filter.conditions@[i],
            details,
        )
}

impl EventFilter {
    /// Whether the filter accepts an event: severity at least the minimum,
    /// type among the listed ones (if any are listed), and every condition
    /// satisfied.
    pub fn matches(
        &self,
        event_type: &PortfolioEventType,
        severity: u32,
        details: &Vec<(String, Vec<u8>)>,
    ) -> (r: bool)
        ensures
            r == filter_accepts(*self, *event_type, severity, details@),
    {
        if self.min_severity > severity {
            return false;
        }
        if self.event_types.len() != 0 && !contains_type(&self.event_types, event_type) {
            return false;
        }
        let mut i: usize = 0;
        while i < self.conditions.len()
            invariant
                i <= self.conditions@.len(),
                forall|j: int| 0 <= j < i ==> condition_holds(#[trigger] self.conditions@[j], details@),
            decreases self.conditions@.len() - i,
        {
            if !condition_matches(&self.conditions[i], details) {
                return false;
            }
            i = i + 1;
        }
        true
    }
}

/// Whether `t` is one of `types`.
pub fn contains_type(types: &Vec<PortfolioEventType>, t: &PortfolioEventType) -> (r: bool)
    ensures
        r == types@.contains(*t),
{
    let mut i: usize = 0;
    while i < types.len()
        invariant
            i <= types@.len(),
            forall|j: int| 0 <= j < i ==> types@[j] != *t,
        decreases types@.len() - i,
    {
        if types[i] == *t {
            return true;
        }
        i = i + 1;
    }
    false
}

/// The 16-byte big-endian two's-complement encoding of `value`, as expected
/// by [`FilterCondition`].
pub fn numeric_detail(value: i128) -> (b: Vec<u8>)
    ensures
        b@.len() == 16,
        as_signed_128(be_unsigned(b@) as int) == value,
{
    be_i128(value)
}

/// The detail stored under `key`, if any.
fn find_detail(details: &Vec<(String, Vec<u8>)>, key: &String) -> (r: Option<usize>)
    ensures
        match r {
            Some(i) => i < details@.len() && detail_for(details@, key@) == Some(details@[i as int].1@),
            None => detail_for(details@, key@) is None,
        },
{
    let mut i: usize = 0;
    assert(details@.subrange(0, details@.len() as int) =~= details@);
    while i < details.len()
        invariant
            i <= details@.len(),
            detail_for(details@, key@) == detail_for(
                details@.subrange(i as int, details@.len() as int),
                key@,
            ),
        decreases details@.len() - i,
    {
        let ghost rest = details@.subrange(i as int, details@.len() as int);
        assert(rest[0] == details@[i as int]);
        if details[i].0 == *key {
            return Some(i);
        }
        assert(rest.drop_first() =~= details@.subrange(i + 1, details@.len() as int));
        i = i + 1;
    }
    None
}

/// Whether a condition holds for an event's details.
fn condition_matches(cond: &FilterCondition, details: &Vec<(String, Vec<u8>)>) -> (r: bool)
    ensures
        r == condition_holds(*cond, details@),
{
    let idx = match find_detail(details, &cond.key) {
        Some(i) => i,
        None => {
            return false;
        },
    };
    let raw = &details[idx].1;
    if raw.len() != 16 {
        return false;
    }
    let mut acc: u128 = 0;
    let mut i: usize = 0;
    proof {
        lemma_pow256_values();
        reveal(pow);
        assert(raw@.take(0) =~= Seq::<u8>::empty());
    }
    while i < 16
        invariant
            raw@.len() == 16,
            i <= 16,
            acc == be_unsigned(raw@.take(i as int)),
            acc < pow(256, i as nat),
            pow(256, 16) == 0x1_0000_0000_0000_0000_0000_0000_0000_0000int,
        decreases 16 - i,
    {
        proof {
            assert(raw@.take(i + 1).drop_last() =~= raw@.take(i as int));
            lemma_pow_unfold(256, (i + 1) as nat);
            lemma_pow_increases_to((i + 1) as nat, 16);
            assert(acc * 256 + raw@[i as int] < pow(256, (i + 1) as nat)) by (nonlinear_arith)
                requires
                    acc < pow(256, i as nat),
                    raw@[i as int] < 256,
                    pow(256, (i + 1) as nat) == 256 * pow(256, i as nat),
            ;
        }
        acc = acc * 256 + raw[i] as u128;
        i = i + 1;
    }
    assert(raw@.take(16) =~= raw@);
    proof {
        lemma_u128_signed(acc);
    }
    let actual: i128 = #[verifier::truncate] (acc as i128);
    match cond.op {
        ComparisonOperator::GreaterThan => actual > cond.value,
        ComparisonOperator::LessThan => actual < cond.value,
        ComparisonOperator::EqualTo => actual == cond.value,
        ComparisonOperator::GreaterOrEqual => actual >= cond.value,
        ComparisonOperator::LessOrEqual => actual <= cond.value,
    }
}

/// A value written by [`numeric_detail`] under a condition's key is read
/// back exactly: the condition compares that very value.
pub proof fn lemma_numeric_detail_readback(b: Seq<u8>, value: i128, cond: FilterCondition, details: Seq<(String, Vec<u8>)>)
    requires
        b.len() == 16,
        as_signed_128(be_unsigned(b) as int) == value,
        detail_for(details, cond.key@) == Some(b),
    ensures
        condition_holds(cond, details) == compare_holds(cond.op, value as int, cond.value as int),
{
}

/// Per-subscription notification preferences.
#[derive(Debug, Clone, Copy, PartialEq, Eq, Structural)]
pub struct SubscriptionPreferences {
    pub mode: DeliveryMode,
    /// Batch mode: flush automatically when this many events accumulate.
    /// Ignored in immediate mode.
    pub batch_size: u32,
    /// Batch mode: maximum seconds an event may wait in the batch.
    pub batch_window_secs: u64,
}

impl SubscriptionPreferences {
    /// Deliver every event at once.
    pub fn immediate() -> (p: Self)
        ensures
            p == (SubscriptionPreferences {
                mode: DeliveryMode::Immediate,
                batch_size: 1,
                batch_window_secs: 0,
            }),
    {
        SubscriptionPreferences {
            mode: DeliveryMode::Immediate,
            batch_size: 1,
            batch_window_secs: 0,
        }
    }

    /// Deliver in batches of `batch_size` (at least 1) or after
    /// `window_secs`, whichever comes first.
    pub fn batch(batch_size: u32, window_secs: u64) -> (p: Self)
        ensures
            p == (SubscriptionPreferences {
                mode: DeliveryMode::Batch,
                batch_size: if batch_size >= 1 {
                    batch_size
                } else {
                    1
                },
                batch_window_secs: window_secs,
            }),
    {
        SubscriptionPreferences {
            mode: DeliveryMode::Batch,
            batch_size: if batch_size >= 1 {
                batch_size
            } else {
                1
            },
            batch_window_secs: window_secs,
        }
    }
}

/// Fully-featured subscription with metadata, managed by the contract.
#[derive(Debug)]
pub struct ManagedSubscription {
    pub id: u64,
    pub subscriber: String,
    pub portfolio_id: String,
    pub filter: EventFilter,
    pub prefs: SubscriptionPreferences,
    pub created_at: u64,
    /// Timestamp of the last event matched for this subscription.
    pub last_event_received_at: Option<u64>,
    pub status: SubscriptionStatus,
    pub total_delivered: u32,
    pub total_failed: u32,
}

/// Delivery lifecycle states.
#[derive(Debug, Clone, Copy, PartialEq, Eq, Structural)]
pub enum DeliveryStatus {
    /// Scheduled; waiting for `next_retry_at` before first/next attempt.
    Pending,
    /// Notification published; awaiting subscriber acknowledgment.
    Delivered,
    /// Subscriber acknowledged receipt.
    Acknowledged,
    /// Exhausted or explicitly failed; no further retries scheduled.
    Failed,
}

/// Tracking record for one event's delivery to one subscription.
#[derive(Debug)]
pub struct DeliveryRecord {
    pub event_id: u64,
    pub subscription_id: u64,
    pub subscriber: String,
    pub status: DeliveryStatus,
    /// Number of delivery attempts made so far.
    pub attempts: u32,
    /// Earliest ledger timestamp at which the next attempt may run.
    pub next_retry_at: u64,
    pub delivered_at: Option<u64>,
    pub acked_at: Option<u64>,
}

/// Aggregate delivery metrics for observability.
#[derive(Debug, Clone, Copy, PartialEq, Eq, Structural)]
pub struct DeliveryMetrics {
    pub total_dispatched: u32,
    pub total_delivered: u32,
    pub total_acknowledged: u32,
    pub total_failed: u32,
    pub total_retry_attempts: u32,
    /// Sum of (acked_at - event timestamp) over acknowledgments, in seconds.
    pub latency_sum_secs: u64,
}

/// Successful deliveries over attempts, in basis points, or 10_000 before
/// any attempt.
pub open spec fn success_rate_spec(delivered: int, failed: int) -> int {
    if delivered + failed == 0 {
        10_000
    } else {
        delivered * 10_000 / (delivered + failed)
    }
}

impl DeliveryMetrics {
    /// All counters at zero.
    pub fn new() -> (m: Self)
        ensures
            m == (DeliveryMetrics {
                total_dispatched: 0,
                total_delivered: 0,
                total_acknowledged: 0,
                total_failed: 0,
                total_retry_attempts: 0,
                latency_sum_secs: 0,
            }),
    {
        DeliveryMetrics {
            total_dispatched: 0,
            total_delivered: 0,
            total_acknowledged: 0,
            total_failed: 0,
            total_retry_attempts: 0,
            latency_sum_secs: 0,
        }
    }

    /// Successful deliveries / attempts, in basis points (0..=10000).
    /// Returns 10000 when no attempts have been made yet.
    pub fn success_rate_bps(&self) -> (r: u32)
        requires
            self.total_delivered + self.total_failed <= u32::MAX,
        ensures
            r == success_rate_spec(self.total_delivered as int, self.total_failed as int),
            r <= 10_000,
    {
        if self.total_delivered + self.total_failed == 0 {
            return 10_000;
        }
        let attempts: u128 = (self.total_delivered + self.total_failed) as u128;
        let scaled: u128 = self.total_delivered as u128 * 10_000;
        proof {
            assert(scaled / attempts <= 10_000) by (nonlinear_arith)
                requires
                    scaled == self.total_delivered * 10_000,
                    attempts == self.total_delivered + self.total_failed,
                    attempts > 0,
                    self.total_failed >= 0,
            {
                lemma_div_is_ordered(scaled as int, attempts as int * 10_000, attempts as int);
                lemma_div_multiples_vanish(10_000, attempts as int);
            }
        }
        (scaled / attempts) as u32
    }
}

/// The delay before the attempt numbered `attempt` (0-based count of prior
/// attempts): `2^attempt` seconds, capped at one hour.
pub open spec fn backoff_spec(attempt: u32) -> u64 {
    if attempt < 12 {
        pow(2, attempt as nat) as u64
    } else {
        RETRY_MAX_SECS
    }
}

/// Compute the delay before the attempt numbered `attempt` (0-based count of
/// prior attempts). Exponential with saturation at [`RETRY_MAX_SECS`].
pub fn backoff_delay(attempt: u32) -> (delay: u64)
    ensures
        delay == backoff_spec(attempt),
        RETRY_INITIAL_SECS <= delay <= RETRY_MAX_SECS,
{
    let mut delay: u64 = RETRY_INITIAL_SECS;
    let shifts: u32 = if attempt < 31 {
        attempt
    } else {
        31
    };
    let mut k: u32 = 0;
    proof {
        reveal(pow);
    }
    while k < shifts
        invariant
            k <= shifts,
            shifts == (if attempt < 31 {
                attempt
            } else {
                31
            }),
            k < 12 ==> delay == pow(2, k as nat),
            k >= 12 ==> delay == RETRY_MAX_SECS,
        ensures
            k <= shifts,
            k < 12 ==> delay == pow(2, k as nat),
            k >= 12 ==> delay == RETRY_MAX_SECS,
            delay < RETRY_MAX_SECS ==> k == shifts,
        decreases shifts - k,
    {
        proof {
            lemma_pow2_small(k as nat);
        }
        let doubled = if delay <= u64::MAX / 2 {
            delay * 2
        } else {
            u64::MAX
        };
        delay = if doubled < RETRY_MAX_SECS {
            doubled
        } else {
            RETRY_MAX_SECS
        };
        k = k + 1;
        if delay >= RETRY_MAX_SECS {
            break;
        }
    }
    proof {
        lemma_pow2_small(k as nat);
        lemma_pow2_small(attempt as nat);
    }
    if delay < RETRY_MAX_SECS {
        delay
    } else {
        RETRY_MAX_SECS
    }
}

proof fn lemma_pow2_small(k: nat)
    ensures
        k < 12 ==> 1 <= pow(2, k) <= 2048,
        k < 11 ==> pow(2, k + 1) == 2 * pow(2, k) && pow(2, k + 1) < RETRY_MAX_SECS,
        k == 11 ==> 2 * pow(2, k) >= RETRY_MAX_SECS,
{
    reveal_with_fuel(pow, 13);
    if k < 12 {
        assert(pow(2, 0) == 1);
        assert(pow(2, 11) == 2048);
    }
}

/// The retry delay never shrinks as attempts accumulate, and stays within
/// one second and one hour.
pub proof fn lemma_backoff_monotone(a: u32, b: u32)
    requires
        a <= b,
    ensures
        backoff_spec(a) <= backoff_spec(b),
        RETRY_INITIAL_SECS <= backoff_spec(a) <= RETRY_MAX_SECS,
{
    reveal_with_fuel(pow, 13);
}

} // verus!
