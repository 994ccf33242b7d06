//! The events contract: AI-analysis triggers, analysis tracking,
//! recommendations and metrics, and each portfolio's event feed.
//!
//! Identifiers of analyses, recommendations and events come from one counter
//! and increase by one each time one is issued. Trigger, analysis and
//! recommendation tables are kept in the order of their keys.

use crate::events::{
    compare_holds, event_type_code, event_type_of, operator_of, recommendation_code, status_code,
    status_of, AnalysisStatus, ComparisonOperator, Error, EventType, PortfolioEventType,
    RecommendationType,
};
use crate::events::subscriptions::contains_type;
use crate::rebalancing::weights::{contains_asset, has_key, lookup_weight, weight_of};
use vstd::prelude::*;
use vstd::string::*;

verus! {

/// Defines when AI analysis should be invoked.
#[derive(Debug)]
pub struct AITrigger {
    pub trigger_id: String,
    pub name: String,
    /// Codes of the event types (see [`EventType::code`]) that fire this
    /// trigger.
    pub event_types: Vec<u32>,
    pub has_threshold: bool,
    pub threshold: i128,
    pub has_operator: bool,
    /// Code of the comparison operator (see [`ComparisonOperator`]).
    pub operator: u32,
    pub ai_service_endpoint: String,
    pub timeout: u64,
    pub is_active: bool,
    pub owner: String,
}

/// Condition to evaluate against current values.
#[derive(Debug, Clone, Copy, PartialEq, Eq, Structural)]
pub struct TriggerCondition {
    pub current_value: i128,
    pub threshold: i128,
    pub operator: ComparisonOperator,
}

/// Output of an AI analysis.
#[derive(Debug)]
pub struct AnalysisResult {
    pub analysis_id: u64,
    pub trigger_id: String,
    pub portfolio_id: String,
    pub timestamp: u64,
    pub latency_ms: u64,
    /// Code of the analysis status (see [`AnalysisStatus::code`]).
    pub status: u32,
    pub raw_output: Vec<u8>,
    pub error_message: String,
}

/// Recommendation generated from AI analysis output.
#[derive(Debug)]
pub struct Recommendation {
    pub recommendation_id: u64,
    pub analysis_id: u64,
    pub portfolio_id: String,
    /// Code of the recommended action (see [`RecommendationType::code`]).
    pub action_type: u32,
    pub asset: String,
    pub has_amount: bool,
    pub amount: u128,
    pub confidence_score: u32,
    pub timestamp: u64,
    pub accepted: Option<bool>,
}

/// Performance metrics of AI analysis.
#[derive(Debug, Clone, Copy, PartialEq, Eq, Structural)]
pub struct AnalysisMetrics {
    pub total_analyses: u64,
    pub successful_analyses: u64,
    pub failed_analyses: u64,
    pub timed_out_analyses: u64,
    pub average_latency_ms: u64,
    pub recommendations_accepted: u64,
    pub recommendations_rejected: u64,
}

/// An immutable record of a change to a portfolio.
#[derive(Debug)]
pub struct Event {
    /// Globally unique, increasing identifier.
    pub event_id: u64,
    /// The portfolio this event concerns.
    pub portfolio_id: String,
    /// The kind of change that occurred.
    pub event_type: PortfolioEventType,
    /// Ledger timestamp when the event was emitted.
    pub timestamp: u64,
    /// Key-value details attached to the event.
    pub details: Vec<(String, Vec<u8>)>,
    /// Opaque metadata (empty if none).
    pub metadata: Vec<u8>,
}

/// A subscription to a portfolio's events.
#[derive(Debug)]
pub struct Subscription {
    /// The subscriber (external contract or account).
    pub subscriber: String,
    /// The portfolio this subscription watches.
    pub portfolio_id: String,
    /// The event types of interest; empty means all.
    pub event_types: Vec<PortfolioEventType>,
    /// Position in registration order (0-based).
    pub order_index: u32,
    /// Ledger timestamp when the subscription was created.
    pub subscribed_at: u64,
    /// Whether the subscription is currently active.
    pub is_active: bool,
}

/// Everything the contract stores outside the per-portfolio feeds.
#[derive(Debug)]
pub struct EventsState {
    /// The last identifier issued (0 before any).
    pub last_id: u64,
    /// Registered triggers, in key order.
    pub triggers: Vec<AITrigger>,
    /// Analyses, by increasing identifier.
    pub analyses: Vec<AnalysisResult>,
    /// Recommendations, by increasing identifier.
    pub recommendations: Vec<Recommendation>,
    /// Analysis metrics.
    pub metrics: AnalysisMetrics,
}

/// One portfolio's subscriptions and event history.
#[derive(Debug)]
pub struct PortfolioFeed {
    /// Subscriptions in registration order.
    pub subscriptions: Vec<Subscription>,
    /// Emitted events, oldest first.
    pub history: Vec<Event>,
}

impl AITrigger {
    /// Equal fields, lists compared by contents.
    pub open spec fn same_as(self, o: AITrigger) -> bool {
        &&& self.trigger_id == o.trigger_id
        &&& self.name == o.name
        &&& self.event_types@ == o.event_types@
        &&& self.has_threshold == o.has_threshold
        &&& self.threshold == o.threshold
        &&& self.has_operator == o.has_operator
        &&& self.operator == o.operator
        &&& self.ai_service_endpoint == o.ai_service_endpoint
        &&& self.timeout == o.timeout
        &&& self.is_active == o.is_active
        &&& self.owner == o.owner
    }

    /// A copy with equal fields.
    pub fn duplicate(&self) -> (r: Self)
        ensures
            r.same_as(*self),
    {
        AITrigger {
            trigger_id: self.trigger_id.clone(),
            name: self.name.clone(),
            event_types: copy_codes(&self.event_types),
            has_threshold: self.has_threshold,
            threshold: self.threshold,
            has_operator: self.has_operator,
            operator: self.operator,
            ai_service_endpoint: self.ai_service_endpoint.clone(),
            timeout: self.timeout,
            is_active: self.is_active,
            owner: self.owner.clone(),
        }
    }
}

impl AnalysisResult {
    /// Equal fields, output compared by contents.
    pub open spec fn same_as(self, o: AnalysisResult) -> bool {
        &&& self.analysis_id == o.analysis_id
        &&& self.trigger_id == o.trigger_id
        &&& self.portfolio_id == o.portfolio_id
        &&& self.timestamp == o.timestamp
        &&& self.latency_ms == o.latency_ms
        &&& self.status == o.status
        &&& self.raw_output@ == o.raw_output@
        &&& self.error_message == o.error_message
    }

    /// A copy with equal fields.
    pub fn duplicate(&self) -> (r: Self)
        ensures
            r.same_as(*self),
    {
        AnalysisResult {
            analysis_id: self.analysis_id,
            trigger_id: self.trigger_id.clone(),
            portfolio_id: self.portfolio_id.clone(),
            timestamp: self.timestamp,
            latency_ms: self.latency_ms,
            status: self.status,
            raw_output: copy_bytes(&self.raw_output),
            error_message: self.error_message.clone(),
        }
    }
}

impl Recommendation {
    /// A copy with equal fields.
    pub fn duplicate(&self) -> (r: Self)
        ensures
            r == *self,
    {
        Recommendation {
            recommendation_id: self.recommendation_id,
            analysis_id: self.analysis_id,
            portfolio_id: self.portfolio_id.clone(),
            action_type: self.action_type,
            asset: self.asset.clone(),
            has_amount: self.has_amount,
            amount: self.amount,
            confidence_score: self.confidence_score,
            timestamp: self.timestamp,
            accepted: self.accepted,
        }
    }
}

/// The contents of an event's details.
pub open spec fn details_view(d: Seq<(String, Vec<u8>)>) -> Seq<(String, Seq<u8>)> {
    d.map_values(|e: (String, Vec<u8>)| (e.0, e.1@))
}

impl Event {
    /// Equal fields, details and metadata compared by contents.
    pub open spec fn same_as(self, o: Event) -> bool {
        &&& self.event_id == o.event_id
        &&& self.portfolio_id == o.portfolio_id
        &&& self.event_type == o.event_type
        &&& self.timestamp == o.timestamp
        &&& details_view(self.details@) == details_view(o.details@)
        &&& self.metadata@ == o.metadata@
    }

    /// A copy with equal fields.
    pub fn duplicate(&self) -> (r: Self)
        ensures
            r.same_as(*self),
    {
        Event {
            event_id: self.event_id,
            portfolio_id: self.portfolio_id.clone(),
            event_type: self.event_type,
            timestamp: self.timestamp,
            details: copy_details(&self.details),
            metadata: copy_bytes(&self.metadata),
        }
    }
}

impl Subscription {
    /// Equal fields, type lists compared by contents.
    pub open spec fn same_as(self, o: Subscription) -> bool {
        &&& self.subscriber == o.subscriber
        &&& self.portfolio_id == o.portfolio_id
        &&& self.event_types@ == o.event_types@
        &&& self.order_index == o.order_index
        &&& self.subscribed_at == o.subscribed_at
        &&& self.is_active == o.is_active
    }

    /// A copy with equal fields.
    pub fn duplicate(&self) -> (r: Self)
        ensures
            r.same_as(*self),
    {
        Subscription {
            subscriber: self.subscriber.clone(),
            portfolio_id: self.portfolio_id.clone(),
            event_types: copy_types(&self.event_types),
            order_index: self.order_index,
            subscribed_at: self.subscribed_at,
            is_active: self.is_active,
        }
    }
}

fn copy_codes(v: &Vec<u32>) -> (r: Vec<u32>)
    ensures
        r@ == v@,
{
    let mut r: Vec<u32> = Vec::new();
    let mut i: usize = 0;
    while i < v.len()
        invariant
            i <= v@.len(),
            r@ == v@.take(i as int),
        decreases v@.len() - i,
    {
        r.push(v[i]);
        assert(v@.take(i + 1) =~= v@.take(i as int).push(v@[i as int]));
        i = i + 1;
    }
    assert(v@.take(v@.len() as int) =~= v@);
    r
}

fn copy_bytes(v: &Vec<u8>) -> (r: Vec<u8>)
    ensures
        r@ == v@,
{
    let mut r: Vec<u8> = Vec::new();
    let mut i: usize = 0;
    while i < v.len()
        invariant
            i <= v@.len(),
            r@ == v@.take(i as int),
        decreases v@.len() - i,
    {
        r.push(v[i]);
        assert(v@.take(i + 1) =~= v@.take(i as int).push(v@[i as int]));
        i = i + 1;
    }
    assert(v@.take(v@.len() as int) =~= v@);
    r
}

fn copy_types(v: &Vec<PortfolioEventType>) -> (r: Vec<PortfolioEventType>)
    ensures
        r@ == v@,
{
    let mut r: Vec<PortfolioEventType> = Vec::new();
    let mut i: usize = 0;
    while i < v.len()
        invariant
            i <= v@.len(),
            r@ == v@.take(i as int),
        decreases v@.len() - i,
    {
        r.push(v[i]);
        assert(v@.take(i + 1) =~= v@.take(i as int).push(v@[i as int]));
        i = i + 1;
    }
    assert(v@.take(v@.len() as int) =~= v@);
    r
}

fn copy_details(v: &Vec<(String, Vec<u8>)>) -> (r: Vec<(String, Vec<u8>)>)
    ensures
        details_view(r@) == details_view(v@),
{
    let mut r: Vec<(String, Vec<u8>)> = Vec::new();
    let mut i: usize = 0;
    while i < v.len()
        invariant
            i <= v@.len(),
            details_view(r@) == details_view(v@.take(i as int)),
        decreases v@.len() - i,
    {
        let ghost before = r@;
        let entry = (v[i].0.clone(), copy_bytes(&v[i].1));
        r.push(entry);
        assert(details_view(v@.take(i + 1)) =~= details_view(v@.take(i as int)).push(
            (v@[i as int].0, v@[i as int].1@),
        ));
        assert(details_view(r@) =~= details_view(before).push((entry.0, entry.1@)));
        i = i + 1;
    }
    assert(v@.take(v@.len() as int) =~= v@);
    r
}


/// Whether a trigger fires for an event of type `event_type` with the
/// observed `value`: the type is among the trigger's codes, and when the
/// trigger has both a threshold and an operator, a value is given and
/// compares as the operator says.
pub open spec fn trigger_fires(t: AITrigger, event_type: EventType, value: Option<i128>) -> bool {
    &&& t.event_types@.contains(event_type_code(event_type))
    &&& (!t.has_threshold || !t.has_operator || (value matches Some(v) && compare_holds(
        operator_of(t.operator),
        v as int,
        t.threshold as int,
    )))
}

/// A trigger that listens for the event's type and has both a threshold and an
/// operator fires on an observed value exactly when the value compares with
/// the threshold as the operator code says: code 0 (and any unknown code)
/// "greater than", 1 "less than", 2 "equal to", 3 "greater or equal", 4 "less
/// or equal"; with no observed value it does not fire.
pub proof fn lemma_trigger_operator_codes(t: AITrigger, event_type: EventType, value: i128)
    requires
        t.event_types@.contains(event_type_code(event_type)),
        t.has_threshold,
        t.has_operator,
    ensures
        (t.operator == 0 || t.operator > 4) ==> (trigger_fires(t, event_type, Some(value)) <==> value
            > t.threshold),
        t.operator == 1 ==> (trigger_fires(t, event_type, Some(value)) <==> value < t.threshold),
        t.operator == 2 ==> (trigger_fires(t, event_type, Some(value)) <==> value == t.threshold),
        t.operator == 3 ==> (trigger_fires(t, event_type, Some(value)) <==> value >= t.threshold),
        t.operator == 4 ==> (trigger_fires(t, event_type, Some(value)) <==> value <= t.threshold),
        !trigger_fires(t, event_type, None),
{
}

/// Handles condition checking for triggers.
pub struct TriggerEvaluator;

impl TriggerEvaluator {
    /// Whether `trigger` fires for an event of `event_type` with the observed
    /// `current_value`.
    pub fn evaluate(trigger: &AITrigger, event_type: EventType, current_value: Option<i128>) -> (r:
        bool)
        ensures
            r == trigger_fires(*trigger, event_type, current_value),
    {
        let code = event_type.code();
        let mut found = false;
        let mut i: usize = 0;
        while i < trigger.event_types.len()
            invariant
                i <= trigger.event_types@.len(),
                found == exists|j: int| 0 <= j < i && trigger.event_types@[j] == code,
            decreases trigger.event_types@.len() - i,
        {
            if trigger.event_types[i] == code {
                found = true;
            }
            i = i + 1;
        }
        if !found {
            return false;
        }
        if !trigger.has_threshold || !trigger.has_operator {
            return true;
        }
        let value = match current_value {
            Some(v) => v,
            None => {
                return false;
            },
        };
        let condition = TriggerCondition {
            current_value: value,
            threshold: trigger.threshold,
            operator: ComparisonOperator::from(trigger.operator),
        };
        Self::evaluate_condition(&condition)
    }

    /// Whether `current_value operator threshold` holds.
    pub fn evaluate_condition(condition: &TriggerCondition) -> (r: bool)
        ensures
            r == compare_holds(
                condition.operator,
                condition.current_value as int,
                condition.threshold as int,
            ),
    {
        match condition.operator {
            ComparisonOperator::GreaterThan => condition.current_value > condition.threshold,
            ComparisonOperator::LessThan => condition.current_value < condition.threshold,
            ComparisonOperator::EqualTo => condition.current_value == condition.threshold,
            ComparisonOperator::GreaterOrEqual => condition.current_value >= condition.threshold,
            ComparisonOperator::LessOrEqual => condition.current_value <= condition.threshold,
        }
    }
}

impl EventsState {
    /// No two triggers share an identifier; analyses and recommendations
    /// are listed by strictly increasing identifier, none above the last
    /// identifier issued.
    pub open spec fn wf(&self) -> bool {
        &&& forall|i: int, j: int|
            0 <= i < j < self.triggers@.len() ==> (#[trigger] self.triggers@[i]).trigger_id@ != (
            #[trigger] self.triggers@[j]).trigger_id@
        &&& forall|i: int, j: int|
            0 <= i < j < self.analyses@.len() ==> (#[trigger] self.analyses@[i]).analysis_id < (
            #[trigger] self.analyses@[j]).analysis_id
        &&& forall|i: int|
            0 <= i < self.analyses@.len() ==> (#[trigger] self.analyses@[i]).analysis_id
                <= self.last_id
        &&& forall|i: int, j: int|
            0 <= i < j < self.recommendations@.len() ==> (
            #[trigger] self.recommendations@[i]).recommendation_id < (
            #[trigger] self.recommendations@[j]).recommendation_id
        &&& forall|i: int|
            0 <= i < self.recommendations@.len() ==> (
            #[trigger] self.recommendations@[i]).recommendation_id <= self.last_id
    }

    /// A fresh state: no identifiers issued, no triggers, analyses or
    /// recommendations, all metrics zero.
    pub fn new() -> (s: Self)
        ensures
            s.last_id == 0,
            s.triggers@.len() == 0,
            s.analyses@.len() == 0,
            s.recommendations@.len() == 0,
            s.metrics == zero_metrics(),
            s.wf(),
    {
        EventsState {
            last_id: 0,
            triggers: Vec::new(),
            analyses: Vec::new(),
            recommendations: Vec::new(),
            metrics: AnalysisMetrics {
                total_analyses: 0,
                successful_analyses: 0,
                failed_analyses: 0,
                timed_out_analyses: 0,
                average_latency_ms: 0,
                recommendations_accepted: 0,
                recommendations_rejected: 0,
            },
        }
    }
}

/// All metrics at zero.
pub open spec fn zero_metrics() -> AnalysisMetrics {
    AnalysisMetrics {
        total_analyses: 0,
        successful_analyses: 0,
        failed_analyses: 0,
        timed_out_analyses: 0,
        average_latency_ms: 0,
        recommendations_accepted: 0,
        recommendations_rejected: 0,
    }
}

/// Issue the next identifier.
pub fn next_id(state: &mut EventsState) -> (id: u64)
    requires
        old(state).last_id < u64::MAX,
    ensures
        id == old(state).last_id + 1,
        *final(state) == (EventsState { last_id: id, ..*old(state) }),
{
    let next = state.last_id + 1;
    state.last_id = next;
    next
}

/// A service that accepts analysis requests and reports their status.
pub trait AIServiceClient {
    /// Submit an analysis request, returning its identifier.
    fn submit_analysis(
        state: &mut EventsState,
        trigger: &AITrigger,
        portfolio_id: &String,
        event_data: &Vec<u8>,
    ) -> (r: Result<u64, Error>)
        requires
            old(state).last_id < u64::MAX,
    ;

    /// The status of an analysis.
    fn check_analysis_status(state: &EventsState, analysis_id: u64) -> (r: Result<
        AnalysisStatus,
        Error,
    >)
        requires
            state.wf(),
    ;
}

/// The AI service client backed by this contract's own storage.
pub struct SorobanAIServiceClient;

impl AIServiceClient for SorobanAIServiceClient {
    /// Submit an analysis request; its identifier is the next one issued.
    fn submit_analysis(
        state: &mut EventsState,
        trigger: &AITrigger,
        portfolio_id: &String,
        event_data: &Vec<u8>,
    ) -> (r: Result<u64, Error>)
        ensures
            r == Ok::<u64, Error>((old(state).last_id + 1) as u64),
            *final(state) == (EventsState { last_id: (old(state).last_id + 1) as u64, ..*old(state) }),
    {
        let analysis_id = next_id(state);
        Ok(analysis_id)
    }

    /// The status of an analysis, or `NotFound`.
    fn check_analysis_status(state: &EventsState, analysis_id: u64) -> (r: Result<
        AnalysisStatus,
        Error,
    >)
        ensures
            has_analysis(state.analyses@, analysis_id) ==> r == Ok::<AnalysisStatus, Error>(
                status_of(analysis_at(state.analyses@, analysis_id).status),
            ),
            !has_analysis(state.analyses@, analysis_id) ==> r == Err::<AnalysisStatus, Error>(
                Error::NotFound,
            ),
    {
        match find_analysis(&state.analyses, analysis_id) {
            Some(i) => {
                proof {
                    lemma_analysis_index(state.analyses@, analysis_id, i as int);
                }
                Ok(AnalysisStatus::from(state.analyses[i].status))
            },
            None => Err(Error::NotFound),
        }
    }
}

/// In a table of strictly increasing identifiers, the analysis with a given
/// identifier is the one at the position where it was found.
proof fn lemma_analysis_index(s: Seq<AnalysisResult>, id: u64, i: int)
    requires
        forall|a: int, b: int|
            0 <= a < b < s.len() ==> (#[trigger] s[a]).analysis_id < (#[trigger] s[b]).analysis_id,
        0 <= i < s.len(),
        s[i].analysis_id == id,
    ensures
        has_analysis(s, id),
        analysis_index(s, id) == i,
{
    let k = analysis_index(s, id);
    assert(0 <= k < s.len() && s[k].analysis_id == id);
    if k < i {
        assert(s[k].analysis_id < s[i].analysis_id);
    } else if k > i {
        assert(s[i].analysis_id < s[k].analysis_id);
    }
}

/// In a table of strictly increasing identifiers, the recommendation with a
/// given identifier is the one at the position where it was found.
proof fn lemma_recommendation_index(s: Seq<Recommendation>, id: u64, i: int)
    requires
        forall|a: int, b: int|
            0 <= a < b < s.len() ==> (#[trigger] s[a]).recommendation_id < (
            #[trigger] s[b]).recommendation_id,
        0 <= i < s.len(),
        s[i].recommendation_id == id,
    ensures
        has_recommendation(s, id),
        recommendation_index(s, id) == i,
{
    let k = recommendation_index(s, id);
    assert(0 <= k < s.len() && s[k].recommendation_id == id);
    if k < i {
        assert(s[k].recommendation_id < s[i].recommendation_id);
    } else if k > i {
        assert(s[i].recommendation_id < s[k].recommendation_id);
    }
}

/// Whether some analysis has identifier `id`.
pub open spec fn has_analysis(s: Seq<AnalysisResult>, id: u64) -> bool {
    exists|i: int| 0 <= i < s.len() && (#[trigger] s[i]).analysis_id == id
}

/// The position of the analysis with identifier `id`.
pub open spec fn analysis_index(s: Seq<AnalysisResult>, id: u64) -> int {
    choose|i: int| 0 <= i < s.len() && (#[trigger] s[i]).analysis_id == id
}

/// The analysis with identifier `id`.
pub open spec fn analysis_at(s: Seq<AnalysisResult>, id: u64) -> AnalysisResult {
    s[analysis_index(s, id)]
}

/// Whether some recommendation has identifier `id`.
pub open spec fn has_recommendation(s: Seq<Recommendation>, id: u64) -> bool {
    exists|i: int| 0 <= i < s.len() && (#[trigger] s[i]).recommendation_id == id
}

/// The position of the recommendation with identifier `id`.
pub open spec fn recommendation_index(s: Seq<Recommendation>, id: u64) -> int {
    choose|i: int| 0 <= i < s.len() && (#[trigger] s[i]).recommendation_id == id
}

/// The position of the analysis with identifier `id`, if any.
fn find_analysis(analyses: &Vec<AnalysisResult>, id: u64) -> (r: Option<usize>)
    ensures
        match r {
            Some(i) => i < analyses@.len() && analyses@[i as int].analysis_id == id,
            None => !has_analysis(analyses@, id),
        },
{
    let mut i: usize = 0;
    while i < analyses.len()
        invariant
            i <= analyses@.len(),
            forall|j: int| 0 <= j < i ==> (#[trigger] analyses@[j]).analysis_id != id,
        decreases analyses@.len() - i,
    {
        if analyses[i].analysis_id == id {
            return Some(i);
        }
        i = i + 1;
    }
    None
}

/// The position of the recommendation with identifier `id`, if any.
fn find_recommendation(recommendations: &Vec<Recommendation>, id: u64) -> (r: Option<usize>)
    ensures
        match r {
            Some(i) => i < recommendations@.len() && recommendations@[i as int].recommendation_id
                == id,
            None => !has_recommendation(recommendations@, id),
        },
{
    let mut i: usize = 0;
    while i < recommendations.len()
        invariant
            i <= recommendations@.len(),
            forall|j: int| 0 <= j < i ==> (#[trigger] recommendations@[j]).recommendation_id != id,
        decreases recommendations@.len() - i,
    {
        if recommendations[i].recommendation_id == id {
            return Some(i);
        }
        i = i + 1;
    }
    None
}

/// The action code an AI output value stands for: codes 0..=4 are kept,
/// anything else means no action.
pub open spec fn action_code(value: u32) -> u32 {
    if value <= 4 {
        value
    } else {
        recommendation_code(RecommendationType::NoAction)
    }
}

/// Whether `r` is the recommendation numbered `id` generated at `now` from
/// `analysis` with the given action and confidence.
pub open spec fn fresh_recommendation(
    r: Recommendation,
    id: u64,
    analysis: AnalysisResult,
    action_type: u32,
    confidence: u32,
    now: u64,
) -> bool {
    &&& r.recommendation_id == id
    &&& r.analysis_id == analysis.analysis_id
    &&& r.portfolio_id == analysis.portfolio_id
    &&& r.action_type == action_type
    &&& r.asset@ == Seq::<char>::empty()
    &&& !r.has_amount
    &&& r.amount == 0
    &&& r.confidence_score == confidence
    &&& r.timestamp == now
    &&& r.accepted is None
}

/// Turns completed analyses into recommendations.
pub struct RecommendationEngine;

impl RecommendationEngine {
    /// A recommendation from a completed analysis and its AI output: the
    /// action is the output's `action` value (0..=4, anything else or none
    /// means no action), the confidence its `conf` value (0 if none). Fails
    /// with `InvalidState` unless the analysis is completed.
    pub fn generate_recommendation(
        state: &mut EventsState,
        analysis: &AnalysisResult,
        ai_output: &Vec<(String, u32)>,
        now: u64,
    ) -> (r: Result<Recommendation, Error>)
        requires
            status_of(analysis.status) == AnalysisStatus::Completed ==> old(state).last_id
                < u64::MAX,
        ensures
            analysis.status != status_code(AnalysisStatus::Completed) ==> r == Err::<
                Recommendation,
                Error,
            >(Error::InvalidState) && *final(state) == *old(state),
            analysis.status == status_code(AnalysisStatus::Completed) ==> {
                let action = if has_key(ai_output@, "action"@) {
                    action_code(lookup_weight(ai_output@, "action"@))
                } else {
                    recommendation_code(RecommendationType::NoAction)
                };
                &&& r matches Ok(rec) && fresh_recommendation(
                    rec,
                    (old(state).last_id + 1) as u64,
                    *analysis,
                    action,
                    lookup_weight(ai_output@, "conf"@),
                    now,
                )
                &&& *final(state) == (EventsState {
                    last_id: (old(state).last_id + 1) as u64,
                    ..*old(state)
                })
            },
    {
        if analysis.status != AnalysisStatus::Completed.code() {
            return Err(Error::InvalidState);
        }
        let action_key = String::from_str("action");
        let action_type = if contains_asset(ai_output, &action_key) {
            let action = weight_of(ai_output, &action_key);
            if action <= 4 {
                action
            } else {
                RecommendationType::NoAction.code()
            }
        } else {
            RecommendationType::NoAction.code()
        };
        let conf_key = String::from_str("conf");
        let confidence = weight_of(ai_output, &conf_key);
        let recommendation_id = next_id(state);
        Ok(Recommendation {
            recommendation_id,
            analysis_id: analysis.analysis_id,
            portfolio_id: analysis.portfolio_id.clone(),
            action_type,
            asset: String::new(),
            has_amount: false,
            amount: 0,
            confidence_score: confidence,
            timestamp: now,
            accepted: None,
        })
    }
}


/// Whether some trigger has identifier `id`.
pub open spec fn has_trigger(s: Seq<AITrigger>, id: Seq<char>) -> bool {
    exists|i: int| 0 <= i < s.len() && (#[trigger] s[i]).trigger_id@ == id
}

/// The position of the trigger with identifier `id`.
pub open spec fn trigger_index(s: Seq<AITrigger>, id: Seq<char>) -> int {
    choose|i: int| 0 <= i < s.len() && (#[trigger] s[i]).trigger_id@ == id
}

/// Registering a new trigger and then removing it as its owner restores the
/// trigger table: the new trigger is found at the end, owned as registered,
/// and removing it leaves the table as it was.
pub proof fn lemma_trigger_add_then_remove_restores(state: EventsState, trigger: AITrigger)
    requires
        state.wf(),
        !has_trigger(state.triggers@, trigger.trigger_id@),
    ensures
        ({
            let added = state.triggers@.push(trigger);
            let i = trigger_index(added, trigger.trigger_id@);
            &&& has_trigger(added, trigger.trigger_id@)
            &&& i == state.triggers@.len()
            &&& added[i].owner == trigger.owner
            &&& added.remove(i) == state.triggers@
        }),
{
    let ts = state.triggers@;
    let added = ts.push(trigger);
    let id = trigger.trigger_id@;
    assert(added[ts.len() as int].trigger_id@ == id);
    let i = trigger_index(added, id);
    if i < ts.len() {
        assert(ts[i].trigger_id@ == id);
    }
    assert(added.remove(i) =~= ts);
}

/// The active triggers that fire for an event, in table order.
pub open spec fn fired_triggers(ts: Seq<AITrigger>, event_type: EventType, value: Option<i128>) -> Seq<
    AITrigger,
> {
    ts.filter(|t: AITrigger| t.is_active && trigger_fires(t, event_type, value))
}

/// Whether `a` is the fresh pending analysis `id` of `trigger_id` for
/// `portfolio_id`, requested at `now`.
pub open spec fn pending_analysis(
    a: AnalysisResult,
    id: u64,
    trigger_id: String,
    portfolio_id: String,
    now: u64,
) -> bool {
    &&& a.analysis_id == id
    &&& a.trigger_id == trigger_id
    &&& a.portfolio_id == portfolio_id
    &&& a.timestamp == now
    &&& a.latency_ms == 0
    &&& a.status == status_code(AnalysisStatus::Pending)
    &&& a.raw_output@ == Seq::<u8>::empty()
    &&& a.error_message@ == Seq::<char>::empty()
}

/// Whether `b` is analysis `a` after a status report.
pub open spec fn status_applied(
    a: AnalysisResult,
    b: AnalysisResult,
    status: u32,
    latency_ms: Option<u64>,
    raw_output: Option<Vec<u8>>,
    error: Option<String>,
) -> bool {
    &&& b.analysis_id == a.analysis_id
    &&& b.trigger_id == a.trigger_id
    &&& b.portfolio_id == a.portfolio_id
    &&& b.timestamp == a.timestamp
    &&& b.status == status
    &&& b.latency_ms == (match latency_ms {
        Some(l) => l,
        None => a.latency_ms,
    })
    &&& b.raw_output@ == (match raw_output {
        Some(o) => o@,
        None => a.raw_output@,
    })
    &&& b.error_message@ == (match error {
        Some(e) => e@,
        None => Seq::<char>::empty(),
    })
}

/// Whether the metric counters can absorb a status report without
/// overflowing.
pub open spec fn metrics_fit(m: AnalysisMetrics, s: AnalysisStatus, latency_ms: u64) -> bool {
    match s {
        AnalysisStatus::Completed => m.successful_analyses < u64::MAX && (latency_ms > 0
            && m.successful_analyses >= 1 ==> m.average_latency_ms * m.successful_analyses
            + latency_ms <= u64::MAX),
        AnalysisStatus::Failed => m.failed_analyses < u64::MAX,
        AnalysisStatus::TimedOut => m.timed_out_analyses < u64::MAX,
        _ => true,
    }
}

/// The metrics after a status report: completions update the running
/// average latency (over completions that reported a latency), failures and
/// timeouts are counted.
pub open spec fn metrics_after(m: AnalysisMetrics, s: AnalysisStatus, latency_ms: u64) -> AnalysisMetrics {
    match s {
        AnalysisStatus::Completed => {
            let n = m.successful_analyses + 1;
            AnalysisMetrics {
                successful_analyses: n as u64,
                average_latency_ms: if latency_ms > 0 && n > 1 {
                    ((m.average_latency_ms * (n - 1) + latency_ms) / n) as u64
                } else if latency_ms > 0 {
                    latency_ms
                } else {
                    m.average_latency_ms
                },
                ..m
            }
        },
        AnalysisStatus::Failed => AnalysisMetrics {
            failed_analyses: (m.failed_analyses + 1) as u64,
            ..m
        },
        AnalysisStatus::TimedOut => AnalysisMetrics {
            timed_out_analyses: (m.timed_out_analyses + 1) as u64,
            ..m
        },
        _ => m,
    }
}

/// The action a completed analysis' output recommends: its first byte as an
/// action code, or no action for an empty output.
pub open spec fn output_action(raw: Seq<u8>) -> u32 {
    if raw.len() > 0 {
        action_code(raw[0] as u32)
    } else {
        recommendation_code(RecommendationType::NoAction)
    }
}

/// The confidence attached to a completed analysis' output: 85 for a
/// non-empty output, 0 otherwise.
pub open spec fn output_confidence(raw: Seq<u8>) -> u32 {
    if raw.len() > 0 {
        85
    } else {
        0
    }
}

/// The AI-analysis and event-feed contract.
pub struct EventsContract;

impl EventsContract {
    /// Register a trigger; fails with `AlreadyExists` when its identifier is
    /// taken.
    pub fn add_trigger(state: &mut EventsState, trigger: AITrigger) -> (r: Result<(), Error>)
        requires
            old(state).wf(),
        ensures
            final(state).wf(),
            has_trigger(old(state).triggers@, trigger.trigger_id@) ==> r == Err::<(), Error>(
                Error::AlreadyExists,
            ) && *final(state) == *old(state),
            !has_trigger(old(state).triggers@, trigger.trigger_id@) ==> r is Ok
                && final(state).triggers@ == old(state).triggers@.push(trigger) && *final(state)
                == (EventsState { triggers: final(state).triggers, ..*old(state) }),
    {
        let mut i: usize = 0;
        while i < state.triggers.len()
            invariant
                *state == *old(state),
                state.wf(),
                i <= state.triggers@.len(),
                forall|j: int|
                    0 <= j < i ==> (#[trigger] state.triggers@[j]).trigger_id@
                        != trigger.trigger_id@,
            decreases state.triggers@.len() - i,
        {
            if state.triggers[i].trigger_id == trigger.trigger_id {
                return Err(Error::AlreadyExists);
            }
            i = i + 1;
        }
        state.triggers.push(trigger);
        Ok(())
    }

    /// Remove a trigger on its owner's request; fails with `NotFound` or
    /// `Unauthorized` (another owner).
    pub fn remove_trigger(state: &mut EventsState, trigger_id: &String, owner: &String) -> (r:
        Result<(), Error>)
        requires
            old(state).wf(),
        ensures
            final(state).wf(),
            !has_trigger(old(state).triggers@, trigger_id@) ==> r == Err::<(), Error>(
                Error::NotFound,
            ) && *final(state) == *old(state),
            has_trigger(old(state).triggers@, trigger_id@) ==> {
                let i = trigger_index(old(state).triggers@, trigger_id@);
                &&& old(state).triggers@[i].owner@ != owner@ ==> r == Err::<(), Error>(
                    Error::Unauthorized,
                ) && *final(state) == *old(state)
                &&& old(state).triggers@[i].owner@ == owner@ ==> r is Ok
                    && final(state).triggers@ == old(state).triggers@.remove(i) && *final(state)
                    == (EventsState { triggers: final(state).triggers, ..*old(state) })
            },
    {
        let mut i: usize = 0;
        while i < state.triggers.len()
            invariant
                *state == *old(state),
                state.wf(),
                i <= state.triggers@.len(),
                forall|j: int|
                    0 <= j < i ==> (#[trigger] state.triggers@[j]).trigger_id@ != trigger_id@,
            decreases state.triggers@.len() - i,
        {
            if state.triggers[i].trigger_id == *trigger_id {
                proof {
                    let k = trigger_index(state.triggers@, trigger_id@);
                    assert(state.triggers@[i as int].trigger_id@ == trigger_id@);
                    if k != i {
                        if k < i {
                            assert(state.triggers@[k].trigger_id@ != state.triggers@[i as int].trigger_id@);
                        } else {
                            assert(state.triggers@[i as int].trigger_id@ != state.triggers@[k].trigger_id@);
                        }
                    }
                }
                if state.triggers[i].owner != *owner {
                    return Err(Error::Unauthorized);
                }
                let ghost before = state.triggers@;
                state.triggers.remove(i);
                proof {
                    assert forall|a: int, b: int|
                        0 <= a < b < state.triggers@.len() implies (#[trigger] state.triggers@[a]).trigger_id@
                        != (#[trigger] state.triggers@[b]).trigger_id@ by {
                        let a0 = if a < i { a } else { a + 1 };
                        let b0 = if b < i { b } else { b + 1 };
                        assert(state.triggers@[a] == before[a0]);
                        assert(state.triggers@[b] == before[b0]);
                    }
                }
                return Ok(());
            }
            i = i + 1;
        }
        Err(Error::NotFound)
    }

    /// Process an event: every active trigger that fires gets a pending
    /// analysis with the next identifier, in table order. Returns those
    /// identifiers.
    pub fn process_event(
        state: &mut EventsState,
        portfolio_id: &String,
        event_type: u32,
        event_data: &Vec<u8>,
        current_value: Option<i128>,
        now: u64,
    ) -> (r: Result<Vec<u64>, Error>)
        requires
            old(state).wf(),
            old(state).last_id + fired_triggers(
                old(state).triggers@,
                event_type_of(event_type),
                current_value,
            ).len() <= u64::MAX,
            old(state).metrics.total_analyses + fired_triggers(
                old(state).triggers@,
                event_type_of(event_type),
                current_value,
            ).len() <= u64::MAX,
        ensures
            final(state).wf(),
            ({
                let fired = fired_triggers(old(state).triggers@, event_type_of(event_type), current_value);
                let k = fired.len();
                &&& r matches Ok(ids) && ids@.len() == k && forall|j: int|
                    0 <= j < k ==> #[trigger] ids@[j] == old(state).last_id + 1 + j
                &&& final(state).last_id == old(state).last_id + k
                &&& final(state).metrics == (AnalysisMetrics {
                    total_analyses: (old(state).metrics.total_analyses + k) as u64,
                    ..old(state).metrics
                })
                &&& final(state).triggers == old(state).triggers
                &&& final(state).recommendations == old(state).recommendations
                &&& final(state).analyses@.len() == old(state).analyses@.len() + k
                &&& forall|j: int|
                    0 <= j < old(state).analyses@.len() ==> #[trigger] final(state).analyses@[j]
                        == old(state).analyses@[j]
                &&& forall|j: int|
                    0 <= j < k ==> pending_analysis(
                        #[trigger] final(state).analyses@[old(state).analyses@.len() + j],
                        (old(state).last_id + 1 + j) as u64,
                        fired[j].trigger_id,
                        *portfolio_id,
                        now,
                    )
            }),
    {
        let event = EventType::from(event_type);
        let ghost ts = state.triggers@;
        let ghost pred = |t: AITrigger| t.is_active && trigger_fires(t, event_type_of(event_type), current_value);
        let ghost old_state = *state;
        let ghost n0 = state.analyses@.len();
        let mut triggered: Vec<u64> = Vec::new();
        let mut i: usize = 0;
        while i < state.triggers.len()
            invariant
                ts == state.triggers@,
                state.triggers == old_state.triggers,
                state.recommendations == old_state.recommendations,
                event == event_type_of(event_type),
                pred == (|t: AITrigger| t.is_active && trigger_fires(t, event_type_of(event_type), current_value)),
                i <= ts.len(),
                old_state.wf(),
                state.wf(),
                n0 == old_state.analyses@.len(),
                old_state.last_id + ts.filter(pred).len() <= u64::MAX,
                old_state.metrics.total_analyses + ts.filter(pred).len() <= u64::MAX,
                triggered@.len() == ts.take(i as int).filter(pred).len(),
                state.last_id == old_state.last_id + triggered@.len(),
                state.metrics == (AnalysisMetrics {
                    total_analyses: (old_state.metrics.total_analyses + triggered@.len()) as u64,
                    ..old_state.metrics
                }),
                forall|j: int| 0 <= j < triggered@.len() ==> #[trigger] triggered@[j] == old_state.last_id + 1 + j,
                state.analyses@.len() == n0 + triggered@.len(),
                forall|j: int| 0 <= j < n0 ==> #[trigger] state.analyses@[j] == old_state.analyses@[j],
                forall|j: int|
                    0 <= j < triggered@.len() ==> pending_analysis(
                        #[trigger] state.analyses@[n0 + j],
                        (old_state.last_id + 1 + j) as u64,
                        ts.take(i as int).filter(pred)[j].trigger_id,
                        *portfolio_id,
                        now,
                    ),
            decreases ts.len() - i,
        {
            proof {
                assert(ts.take(i + 1).drop_last() =~= ts.take(i as int));
                assert(ts.take(i + 1).last() == ts[i as int]);
                lemma_filter_prefix_len(ts, pred, i as int);
            }
            let fires = state.triggers[i].is_active && TriggerEvaluator::evaluate(
                &state.triggers[i],
                event,
                current_value,
            );
            proof {
                reveal(Seq::filter);
                assert(pred(ts[i as int]) == fires);
                if fires {
                    assert(ts.take(i + 1).filter(pred) == ts.take(i as int).filter(pred).push(
                        ts[i as int],
                    ));
                } else {
                    assert(ts.take(i + 1).filter(pred) == ts.take(i as int).filter(pred));
                }
            }
            if fires {
                let trigger = state.triggers[i].duplicate();
                let ghost before = *state;
                match SorobanAIServiceClient::submit_analysis(state, &trigger, portfolio_id, event_data) {
                    Ok(analysis_id) => {
                        let analysis = AnalysisResult {
                            analysis_id,
                            trigger_id: trigger.trigger_id.clone(),
                            portfolio_id: portfolio_id.clone(),
                            timestamp: now,
                            latency_ms: 0,
                            status: AnalysisStatus::Pending.code(),
                            raw_output: Vec::new(),
                            error_message: String::new(),
                        };
                        state.analyses.push(analysis);
                        state.metrics.total_analyses = state.metrics.total_analyses + 1;
                        triggered.push(analysis_id);
                        proof {
                            assert forall|a: int, b: int|
                                0 <= a < b < state.analyses@.len() implies (#[trigger] state.analyses@[a]).analysis_id
                                < (#[trigger] state.analyses@[b]).analysis_id by {
                                if b == state.analyses@.len() - 1 {
                                    assert(before.analyses@[a].analysis_id <= before.last_id);
                                }
                            }
                        }
                    },
                    Err(_) => {},
                }
            }
            i = i + 1;
        }
        proof {
            assert(ts.take(ts.len() as int) =~= ts);
        }
        Ok(triggered)
    }
}

/// Filtering a longer prefix keeps at least as many elements, and the whole
/// sequence keeps at least as many as any prefix.
proof fn lemma_filter_prefix_len<A>(s: Seq<A>, pred: spec_fn(A) -> bool, i: int)
    requires
        0 <= i < s.len(),
    ensures
        s.take(i + 1).filter(pred).len() <= s.filter(pred).len(),
    decreases s.len() - i,
{
    reveal(Seq::filter);
    if i + 1 < s.len() {
        lemma_filter_prefix_len(s, pred, i + 1);
        assert(s.take(i + 2).drop_last() =~= s.take(i + 1));
        let sub = s.take(i + 2).drop_last().filter(pred);
        assert(s.take(i + 2).filter(pred) == (if pred(s.take(i + 2).last()) {
            sub.push(s.take(i + 2).last())
        } else {
            sub
        }));
    } else {
        assert(s.take(i + 1) =~= s);
    }
}


impl EventsContract {
    /// Record a status report for an analysis: its status, and when given,
    /// its latency and raw output; its error message becomes `error` (empty
    /// if none). Metrics are updated for completions, failures and timeouts,
    /// and a completed analysis yields a recommendation (see
    /// [`output_action`], [`output_confidence`]). Fails with `NotFound`.
    pub fn update_analysis_status(
        state: &mut EventsState,
        analysis_id: u64,
        status: u32,
        latency_ms: Option<u64>,
        raw_output: Option<Vec<u8>>,
        error: Option<String>,
        now: u64,
    ) -> (r: Result<(), Error>)
        requires
            old(state).wf(),
            has_analysis(old(state).analyses@, analysis_id) ==> {
                let a = analysis_at(old(state).analyses@, analysis_id);
                let latency = match latency_ms {
                    Some(l) => l,
                    None => a.latency_ms,
                };
                &&& metrics_fit(old(state).metrics, status_of(status), latency)
                &&& status_of(status) == AnalysisStatus::Completed ==> old(state).last_id
                    < u64::MAX
            },
        ensures
            final(state).wf(),
            !has_analysis(old(state).analyses@, analysis_id) ==> r == Err::<(), Error>(
                Error::NotFound,
            ) && *final(state) == *old(state),
            has_analysis(old(state).analyses@, analysis_id) ==> {
                let i = analysis_index(old(state).analyses@, analysis_id);
                let a = old(state).analyses@[i];
                let b = final(state).analyses@[i];
                &&& r is Ok
                &&& final(state).analyses@.len() == old(state).analyses@.len()
                &&& forall|j: int|
                    0 <= j < old(state).analyses@.len() && j != i ==> #[trigger] final(state).analyses@[j] == old(state).analyses@[j]
                &&& status_applied(a, b, status, latency_ms, raw_output, error)
                &&& final(state).metrics == metrics_after(
                    old(state).metrics,
                    status_of(status),
                    b.latency_ms,
                )
                &&& final(state).triggers == old(state).triggers
                &&& status_of(status) != AnalysisStatus::Completed ==> final(state).last_id == old(state).last_id && final(state).recommendations == old(state).recommendations
                &&& status_of(status) == AnalysisStatus::Completed ==> {
                    &&& final(state).last_id == old(state).last_id + 1
                    &&& final(state).recommendations@.len() == old(state).recommendations@.len()
                        + 1
                    &&& forall|j: int|
                        0 <= j < old(state).recommendations@.len() ==> #[trigger] final(state).recommendations@[j] == old(state).recommendations@[j]
                    &&& fresh_recommendation(
                        final(state).recommendations@.last(),
                        final(state).last_id,
                        b,
                        output_action(b.raw_output@),
                        output_confidence(b.raw_output@),
                        now,
                    )
                }
            },
    {
        let i = match find_analysis(&state.analyses, analysis_id) {
            Some(i) => i,
            None => {
                return Err(Error::NotFound);
            },
        };
        proof {
            lemma_analysis_index(state.analyses@, analysis_id, i as int);
        }
        let ghost old_state = *state;
        let new_status = AnalysisStatus::from(status);
        state.analyses[i].status = status;
        if let Some(latency) = latency_ms {
            state.analyses[i].latency_ms = latency;
        }
        if let Some(output) = raw_output {
            state.analyses[i].raw_output = output;
        }
        state.analyses[i].error_message = match error {
            Some(e) => e,
            None => String::new(),
        };
        proof {
            assert forall|a: int, b: int|
                0 <= a < b < state.analyses@.len() implies (#[trigger] state.analyses@[a]).analysis_id
                < (#[trigger] state.analyses@[b]).analysis_id by {
                assert(old_state.analyses@[a].analysis_id < old_state.analyses@[b].analysis_id);
            }
            assert forall|a: int| 0 <= a < state.analyses@.len() implies (
            #[trigger] state.analyses@[a]).analysis_id <= state.last_id by {
                assert(old_state.analyses@[a].analysis_id <= old_state.last_id);
            }
        }
        let latency = state.analyses[i].latency_ms;
        match new_status {
            AnalysisStatus::Completed => {
                let n = state.metrics.successful_analyses + 1;
                state.metrics.successful_analyses = n;
                if latency > 0 && n > 1 {
                    proof {
                        assert((state.metrics.average_latency_ms * (n - 1) + latency) / (n as int)
                            <= u64::MAX) by (nonlinear_arith)
                            requires
                                state.metrics.average_latency_ms * (n - 1) + latency <= u64::MAX,
                                n > 1,
                        ;
                    }
                    state.metrics.average_latency_ms = (state.metrics.average_latency_ms * (n - 1)
                        + latency) / n;
                } else if latency > 0 {
                    state.metrics.average_latency_ms = latency;
                }
            },
            AnalysisStatus::Failed => {
                state.metrics.failed_analyses = state.metrics.failed_analyses + 1;
            },
            AnalysisStatus::TimedOut => {
                state.metrics.timed_out_analyses = state.metrics.timed_out_analyses + 1;
            },
            _ => {},
        }
        if new_status == AnalysisStatus::Completed {
            let analysis = state.analyses[i].duplicate();
            let mut ai_output: Vec<(String, u32)> = Vec::new();
            if analysis.raw_output.len() > 0 {
                ai_output.push((String::from_str("action"), analysis.raw_output[0] as u32));
                ai_output.push((String::from_str("conf"), 85));
            }
            proof {
                reveal_strlit("action");
                reveal_strlit("conf");
                if analysis.raw_output@.len() > 0 {
                    assert(ai_output@[0].0@ == "action"@);
                    assert(has_key(ai_output@, "action"@));
                    assert(ai_output@.drop_first()[0] == ai_output@[1]);
                    assert(ai_output@[1].0@ == "conf"@);
                    assert("action"@[0] != "conf"@[0]);
                    assert(ai_output@[0].0@ != "conf"@);
                    assert(lookup_weight(ai_output@.drop_first(), "conf"@) == 85);
                    assert(lookup_weight(ai_output@, "conf"@) == 85);
                } else {
                    assert(!has_key(ai_output@, "action"@));
                }
            }
            let ghost before = *state;
            match RecommendationEngine::generate_recommendation(state, &analysis, &ai_output, now) {
                Ok(recommendation) => {
                    state.recommendations.push(recommendation);
                    proof {
                        assert forall|a: int, b: int|
                            0 <= a < b < state.recommendations@.len() implies (
                            #[trigger] state.recommendations@[a]).recommendation_id < (
                            #[trigger] state.recommendations@[b]).recommendation_id by {
                            if b == state.recommendations@.len() - 1 {
                                assert(before.recommendations@[a].recommendation_id <= before.last_id);
                            }
                        }
                        assert forall|a: int| 0 <= a < state.recommendations@.len() implies (
                        #[trigger] state.recommendations@[a]).recommendation_id <= state.last_id by {
                            if a < state.recommendations@.len() - 1 {
                                assert(before.recommendations@[a].recommendation_id <= before.last_id);
                            }
                        }
                    }
                },
                Err(_) => {},
            }
        }
        Ok(())
    }
}


impl EventsContract {
    /// Time out a pending or in-progress analysis: its status becomes
    /// timed out and its error message `TIMEOUT`. Fails with `NotFound`, or
    /// `InvalidState` for an analysis in any other status.
    pub fn process_timeout(state: &mut EventsState, analysis_id: u64) -> (r: Result<(), Error>)
        requires
            old(state).wf(),
            has_analysis(old(state).analyses@, analysis_id) ==> old(
                state,
            ).metrics.timed_out_analyses < u64::MAX,
        ensures
            final(state).wf(),
            !has_analysis(old(state).analyses@, analysis_id) ==> r == Err::<(), Error>(
                Error::NotFound,
            ) && *final(state) == *old(state),
            has_analysis(old(state).analyses@, analysis_id) ==> {
                let i = analysis_index(old(state).analyses@, analysis_id);
                let a = old(state).analyses@[i];
                let b = final(state).analyses@[i];
                &&& a.status != status_code(AnalysisStatus::Pending) && a.status != status_code(
                    AnalysisStatus::InProgress,
                ) ==> r == Err::<(), Error>(Error::InvalidState) && *final(state) == *old(state)
                &&& a.status == status_code(AnalysisStatus::Pending) || a.status == status_code(
                    AnalysisStatus::InProgress,
                ) ==> {
                    &&& r is Ok
                    &&& b == (AnalysisResult {
                        status: status_code(AnalysisStatus::TimedOut),
                        error_message: b.error_message,
                        ..a
                    })
                    &&& b.error_message@ == "TIMEOUT"@
                    &&& final(state).analyses@ == old(state).analyses@.update(i, b)
                    &&& *final(state) == (EventsState {
                        analyses: final(state).analyses,
                        metrics: AnalysisMetrics {
                            timed_out_analyses: (old(state).metrics.timed_out_analyses
                                + 1) as u64,
                            ..old(state).metrics
                        },
                        ..*old(state)
                    })
                }
            },
    {
        let i = match find_analysis(&state.analyses, analysis_id) {
            Some(i) => i,
            None => {
                return Err(Error::NotFound);
            },
        };
        proof {
            lemma_analysis_index(state.analyses@, analysis_id, i as int);
        }
        let status = state.analyses[i].status;
        if status != AnalysisStatus::Pending.code() && status != AnalysisStatus::InProgress.code() {
            return Err(Error::InvalidState);
        }
        let ghost old_state = *state;
        state.analyses[i].status = AnalysisStatus::TimedOut.code();
        state.analyses[i].error_message = String::from_str("TIMEOUT");
        state.metrics.timed_out_analyses = state.metrics.timed_out_analyses + 1;
        proof {
            assert(state.analyses@ =~= old_state.analyses@.update(i as int, state.analyses@[i as int]));
            assert forall|a: int, b: int|
                0 <= a < b < state.analyses@.len() implies (#[trigger] state.analyses@[a]).analysis_id
                < (#[trigger] state.analyses@[b]).analysis_id by {
                assert(old_state.analyses@[a].analysis_id < old_state.analyses@[b].analysis_id);
            }
            assert forall|a: int| 0 <= a < state.analyses@.len() implies (
            #[trigger] state.analyses@[a]).analysis_id <= state.last_id by {
                assert(old_state.analyses@[a].analysis_id <= old_state.last_id);
            }
        }
        Ok(())
    }

    /// Record whether a recommendation was accepted, and count it. Fails with
    /// `NotFound`.
    pub fn process_recommendation_feedback(
        state: &mut EventsState,
        recommendation_id: u64,
        accepted: bool,
    ) -> (r: Result<(), Error>)
        requires
            old(state).wf(),
            has_recommendation(old(state).recommendations@, recommendation_id) ==> (if accepted {
                old(state).metrics.recommendations_accepted < u64::MAX
            } else {
                old(state).metrics.recommendations_rejected < u64::MAX
            }),
        ensures
            final(state).wf(),
            !has_recommendation(old(state).recommendations@, recommendation_id) ==> r == Err::<
                (),
                Error,
            >(Error::NotFound) && *final(state) == *old(state),
            has_recommendation(old(state).recommendations@, recommendation_id) ==> {
                let i = recommendation_index(old(state).recommendations@, recommendation_id);
                let m = old(state).metrics;
                &&& r is Ok
                &&& final(state).recommendations@ == old(state).recommendations@.update(
                    i,
                    Recommendation { accepted: Some(accepted), ..old(state).recommendations@[i] },
                )
                &&& *final(state) == (EventsState {
                    recommendations: final(state).recommendations,
                    metrics: if accepted {
                        AnalysisMetrics {
                            recommendations_accepted: (m.recommendations_accepted + 1) as u64,
                            ..m
                        }
                    } else {
                        AnalysisMetrics {
                            recommendations_rejected: (m.recommendations_rejected + 1) as u64,
                            ..m
                        }
                    },
                    ..*old(state)
                })
            },
    {
        let i = match find_recommendation(&state.recommendations, recommendation_id) {
            Some(i) => i,
            None => {
                return Err(Error::NotFound);
            },
        };
        proof {
            lemma_recommendation_index(state.recommendations@, recommendation_id, i as int);
        }
        let ghost old_state = *state;
        state.recommendations[i].accepted = Some(accepted);
        if accepted {
            state.metrics.recommendations_accepted = state.metrics.recommendations_accepted + 1;
        } else {
            state.metrics.recommendations_rejected = state.metrics.recommendations_rejected + 1;
        }
        proof {
            assert(state.recommendations@ =~= old_state.recommendations@.update(
                i as int,
                Recommendation { accepted: Some(accepted), ..old_state.recommendations@[i as int] },
            ));
            assert forall|a: int, b: int|
                0 <= a < b < state.recommendations@.len() implies (
                #[trigger] state.recommendations@[a]).recommendation_id < (
                #[trigger] state.recommendations@[b]).recommendation_id by {
                assert(old_state.recommendations@[a].recommendation_id
                    < old_state.recommendations@[b].recommendation_id);
            }
            assert forall|a: int| 0 <= a < state.recommendations@.len() implies (
            #[trigger] state.recommendations@[a]).recommendation_id <= state.last_id by {
                assert(old_state.recommendations@[a].recommendation_id <= old_state.last_id);
            }
        }
        Ok(())
    }

    /// The analyses of a portfolio, by identifier.
    pub fn get_portfolio_analyses(state: &EventsState, portfolio_id: &String) -> (r: Vec<
        AnalysisResult,
    >)
        ensures
            ({
                let sel = state.analyses@.filter(|a: AnalysisResult| a.portfolio_id@ == portfolio_id@);
                &&& r@.len() == sel.len()
                &&& forall|j: int| 0 <= j < sel.len() ==> (#[trigger] r@[j]).same_as(sel[j])
            }),
    {
        let ghost s = state.analyses@;
        let ghost pred = |a: AnalysisResult| a.portfolio_id@ == portfolio_id@;
        let mut r: Vec<AnalysisResult> = Vec::new();
        let mut i: usize = 0;
        while i < state.analyses.len()
            invariant
                s == state.analyses@,
                pred == (|a: AnalysisResult| a.portfolio_id@ == portfolio_id@),
                i <= s.len(),
                r@.len() == s.take(i as int).filter(pred).len(),
                forall|j: int|
                    0 <= j < r@.len() ==> (#[trigger] r@[j]).same_as(s.take(i as int).filter(pred)[j]),
            decreases s.len() - i,
        {
            proof {
                reveal(Seq::filter);
                assert(s.take(i + 1).drop_last() =~= s.take(i as int));
                assert(s.take(i + 1).last() == s[i as int]);
            }
            if state.analyses[i].portfolio_id == *portfolio_id {
                r.push(state.analyses[i].duplicate());
            }
            i = i + 1;
        }
        assert(s.take(s.len() as int) =~= s);
        r
    }

    /// The recommendations for a portfolio, by identifier.
    pub fn get_portfolio_recommendations(state: &EventsState, portfolio_id: &String) -> (r: Vec<
        Recommendation,
    >)
        ensures
            r@ == state.recommendations@.filter(
                |x: Recommendation| x.portfolio_id@ == portfolio_id@,
            ),
    {
        let ghost s = state.recommendations@;
        let ghost pred = |x: Recommendation| x.portfolio_id@ == portfolio_id@;
        let mut r: Vec<Recommendation> = Vec::new();
        let mut i: usize = 0;
        while i < state.recommendations.len()
            invariant
                s == state.recommendations@,
                pred == (|x: Recommendation| x.portfolio_id@ == portfolio_id@),
                i <= s.len(),
                r@ == s.take(i as int).filter(pred),
            decreases s.len() - i,
        {
            proof {
                reveal(Seq::filter);
                assert(s.take(i + 1).drop_last() =~= s.take(i as int));
                assert(s.take(i + 1).last() == s[i as int]);
            }
            if state.recommendations[i].portfolio_id == *portfolio_id {
                r.push(state.recommendations[i].duplicate());
            }
            i = i + 1;
        }
        assert(s.take(s.len() as int) =~= s);
        r
    }

    /// The analysis metrics.
    pub fn get_metrics(state: &EventsState) -> (m: AnalysisMetrics)
        ensures
            m == state.metrics,
    {
        state.metrics
    }

    /// All registered triggers, in table order.
    pub fn get_all_triggers(state: &EventsState) -> (r: Vec<AITrigger>)
        ensures
            r@.len() == state.triggers@.len(),
            forall|j: int| 0 <= j < r@.len() ==> (#[trigger] r@[j]).same_as(state.triggers@[j]),
    {
        let mut r: Vec<AITrigger> = Vec::new();
        let mut i: usize = 0;
        while i < state.triggers.len()
            invariant
                i <= state.triggers@.len(),
                r@.len() == i,
                forall|j: int| 0 <= j < i ==> (#[trigger] r@[j]).same_as(state.triggers@[j]),
            decreases state.triggers@.len() - i,
        {
            r.push(state.triggers[i].duplicate());
            i = i + 1;
        }
        r
    }
}


/// A feed's history is in identifier order: identifiers strictly increase
/// along it and none is above the last identifier issued.
pub open spec fn history_ordered(history: Seq<Event>, last_id: u64) -> bool {
    &&& forall|i: int, j: int|
        0 <= i < j < history.len() ==> (#[trigger] history[i]).event_id < (#[trigger] history[j]).event_id
    &&& forall|i: int| 0 <= i < history.len() ==> (#[trigger] history[i]).event_id <= last_id
}

/// Issuing identifiers elsewhere (for other portfolios, analyses or
/// recommendations) keeps every feed in identifier order: identifiers are
/// only ever issued upward.
pub proof fn lemma_history_order_survives_issuing(history: Seq<Event>, last_id: u64, later_id: u64)
    requires
        history_ordered(history, last_id),
        last_id <= later_id,
    ensures
        history_ordered(history, later_id),
{
}

/// Whether a subscription wants events of `event_type`: it lists no types,
/// or lists this one.
pub open spec fn wants(sub: Subscription, event_type: PortfolioEventType) -> bool {
    sub.event_types@.len() == 0 || sub.event_types@.contains(event_type)
}

/// Whether `subscriber` has an active subscription in `subs`.
pub open spec fn actively_subscribed(subs: Seq<Subscription>, subscriber: Seq<char>) -> bool {
    exists|j: int| 0 <= j < subs.len() && (#[trigger] subs[j]).subscriber@ == subscriber && subs[j].is_active
}

/// Whether an event is selected by an optional type and an optional
/// inclusive time range.
pub open spec fn event_selected(
    e: Event,
    event_type: Option<PortfolioEventType>,
    range: Option<(u64, u64)>,
) -> bool {
    &&& (event_type matches Some(t) ==> e.event_type == t)
    &&& (range matches Some((from, to)) ==> from <= e.timestamp <= to)
}

/// Whether a subscription wants events of `event_type`: it lists no types,
/// or lists this one.
pub fn matches_filter(sub: &Subscription, event_type: &PortfolioEventType) -> (r: bool)
    ensures
        r == wants(*sub, *event_type),
{
    if sub.event_types.len() == 0 {
        return true;
    }
    contains_type(&sub.event_types, event_type)
}

impl EventsContract {
    /// Subscribe to a portfolio's events, optionally only some types (empty
    /// means all). A subscriber that is already actively subscribed is left
    /// as it is.
    pub fn subscribe(
        feed: &mut PortfolioFeed,
        portfolio_id: &String,
        subscriber: &String,
        event_types: Vec<PortfolioEventType>,
        now: u64,
    ) -> (r: Result<(), Error>)
        requires
            old(feed).subscriptions@.len() <= u32::MAX,
        ensures
            r is Ok,
            actively_subscribed(final(feed).subscriptions@, subscriber@),
            actively_subscribed(old(feed).subscriptions@, subscriber@) ==> *final(feed) == *old(
                feed,
            ),
            !actively_subscribed(old(feed).subscriptions@, subscriber@) ==> {
                &&& final(feed).subscriptions@ == old(feed).subscriptions@.push(
                    Subscription {
                        subscriber: *subscriber,
                        portfolio_id: *portfolio_id,
                        event_types,
                        order_index: old(feed).subscriptions@.len() as u32,
                        subscribed_at: now,
                        is_active: true,
                    },
                )
                &&& final(feed).history == old(feed).history
            },
    {
        let mut i: usize = 0;
        while i < feed.subscriptions.len()
            invariant
                *feed == *old(feed),
                i <= feed.subscriptions@.len(),
                forall|j: int|
                    0 <= j < i ==> !((#[trigger] feed.subscriptions@[j]).subscriber@ == subscriber@
                        && feed.subscriptions@[j].is_active),
            decreases feed.subscriptions@.len() - i,
        {
            if feed.subscriptions[i].subscriber == *subscriber && feed.subscriptions[i].is_active {
                assert(feed.subscriptions@[i as int].subscriber@ == subscriber@);
                return Ok(());
            }
            i = i + 1;
        }
        let order_index = feed.subscriptions.len() as u32;
        feed.subscriptions.push(
            Subscription {
                subscriber: subscriber.clone(),
                portfolio_id: portfolio_id.clone(),
                event_types,
                order_index,
                subscribed_at: now,
                is_active: true,
            },
        );
        proof {
            let last = feed.subscriptions@.len() - 1;
            assert(feed.subscriptions@[last].subscriber@ == subscriber@);
        }
        Ok(())
    }

    /// Subscribe to all of a portfolio's events.
    pub fn subscribe_all(
        feed: &mut PortfolioFeed,
        portfolio_id: &String,
        subscriber: &String,
        now: u64,
    ) -> (r: Result<(), Error>)
        requires
            old(feed).subscriptions@.len() <= u32::MAX,
        ensures
            r is Ok,
            actively_subscribed(final(feed).subscriptions@, subscriber@),
            actively_subscribed(old(feed).subscriptions@, subscriber@) ==> *final(feed) == *old(
                feed,
            ),
            !actively_subscribed(old(feed).subscriptions@, subscriber@) ==> {
                let s = final(feed).subscriptions@.last();
                &&& final(feed).subscriptions@.drop_last() == old(feed).subscriptions@
                &&& final(feed).subscriptions@.len() == old(feed).subscriptions@.len() + 1
                &&& s.subscriber == *subscriber && s.portfolio_id == *portfolio_id
                &&& s.event_types@.len() == 0
                &&& s.order_index == old(feed).subscriptions@.len()
                &&& s.subscribed_at == now && s.is_active
                &&& final(feed).history == old(feed).history
            },
    {
        let r = Self::subscribe(feed, portfolio_id, subscriber, Vec::new(), now);
        proof {
            if !actively_subscribed(old(feed).subscriptions@, subscriber@) {
                assert(feed.subscriptions@.drop_last() =~= old(feed).subscriptions@);
            }
        }
        r
    }

    /// Deactivate the subscriber's active subscriptions. Fails with
    /// `NotFound` when it has none.
    pub fn unsubscribe(feed: &mut PortfolioFeed, subscriber: &String) -> (r: Result<(), Error>)
        ensures
            !actively_subscribed(final(feed).subscriptions@, subscriber@),
            !actively_subscribed(old(feed).subscriptions@, subscriber@) ==> r == Err::<(), Error>(
                Error::NotFound,
            ) && *final(feed) == *old(feed),
            actively_subscribed(old(feed).subscriptions@, subscriber@) ==> {
                &&& r is Ok
                &&& final(feed).subscriptions@.len() == old(feed).subscriptions@.len()
                &&& forall|j: int|
                    0 <= j < old(feed).subscriptions@.len() ==> #[trigger] final(feed).subscriptions@[j]
                        == (if old(feed).subscriptions@[j].subscriber@ == subscriber@ && old(
                        feed,
                    ).subscriptions@[j].is_active {
                        Subscription { is_active: false, ..old(feed).subscriptions@[j] }
                    } else {
                        old(feed).subscriptions@[j]
                    })
                &&& final(feed).history == old(feed).history
            },
    {
        let mut k: usize = 0;
        while k < feed.subscriptions.len()
            invariant
                *feed == *old(feed),
                k <= feed.subscriptions@.len(),
                forall|j: int|
                    0 <= j < k ==> !((#[trigger] feed.subscriptions@[j]).subscriber@ == subscriber@
                        && feed.subscriptions@[j].is_active),
            ensures
                *feed == *old(feed),
                k <= feed.subscriptions@.len(),
                k < feed.subscriptions@.len() ==> feed.subscriptions@[k as int].subscriber@
                    == subscriber@ && feed.subscriptions@[k as int].is_active,
                forall|j: int|
                    0 <= j < k ==> !((#[trigger] feed.subscriptions@[j]).subscriber@ == subscriber@
                        && feed.subscriptions@[j].is_active),
            decreases feed.subscriptions@.len() - k,
        {
            if feed.subscriptions[k].subscriber == *subscriber && feed.subscriptions[k].is_active {
                break;
            }
            k = k + 1;
        }
        if k == feed.subscriptions.len() {
            return Err(Error::NotFound);
        }
        let ghost before = feed.subscriptions@;
        let mut i: usize = 0;
        while i < feed.subscriptions.len()
            invariant
                i <= feed.subscriptions@.len(),
                feed.subscriptions@.len() == before.len(),
                before == old(feed).subscriptions@,
                feed.history == old(feed).history,
                forall|j: int|
                    0 <= j < i ==> #[trigger] feed.subscriptions@[j] == (if before[j].subscriber@
                        == subscriber@ && before[j].is_active {
                        Subscription { is_active: false, ..before[j] }
                    } else {
                        before[j]
                    }),
                forall|j: int| i <= j < before.len() ==> #[trigger] feed.subscriptions@[j] == before[j],
            decreases before.len() - i,
        {
            if feed.subscriptions[i].subscriber == *subscriber && feed.subscriptions[i].is_active {
                feed.subscriptions[i].is_active = false;
            }
            i = i + 1;
        }
        Ok(())
    }

    /// Same as [`EventsContract::unsubscribe`].
    pub fn unsubscribe_all(feed: &mut PortfolioFeed, subscriber: &String) -> (r: Result<(), Error>)
        ensures
            !actively_subscribed(final(feed).subscriptions@, subscriber@),
            !actively_subscribed(old(feed).subscriptions@, subscriber@) ==> r == Err::<(), Error>(
                Error::NotFound,
            ) && *final(feed) == *old(feed),
            actively_subscribed(old(feed).subscriptions@, subscriber@) ==> {
                &&& r is Ok
                &&& final(feed).subscriptions@.len() == old(feed).subscriptions@.len()
                &&& forall|j: int|
                    0 <= j < old(feed).subscriptions@.len() ==> #[trigger] final(feed).subscriptions@[j]
                        == (if old(feed).subscriptions@[j].subscriber@ == subscriber@ && old(
                        feed,
                    ).subscriptions@[j].is_active {
                        Subscription { is_active: false, ..old(feed).subscriptions@[j] }
                    } else {
                        old(feed).subscriptions@[j]
                    })
                &&& final(feed).history == old(feed).history
            },
    {
        Self::unsubscribe(feed, subscriber)
    }

    /// Emit a portfolio event with the next identifier and append it to the
    /// portfolio's history. The subscribers to notify are given by
    /// [`EventsContract::notification_targets`].
    pub fn emit_event(
        state: &mut EventsState,
        feed: &mut PortfolioFeed,
        portfolio_id: &String,
        event_type: PortfolioEventType,
        details: Vec<(String, Vec<u8>)>,
        metadata: Vec<u8>,
        now: u64,
    ) -> (r: Result<Event, Error>)
        requires
            old(state).last_id < u64::MAX,
        ensures
            r == Ok::<Event, Error>(
                Event {
                    event_id: (old(state).last_id + 1) as u64,
                    portfolio_id: *portfolio_id,
                    event_type,
                    timestamp: now,
                    details,
                    metadata,
                },
            ),
            *final(state) == (EventsState { last_id: (old(state).last_id + 1) as u64, ..*old(state) }),
            final(feed).subscriptions == old(feed).subscriptions,
            final(feed).history@.len() == old(feed).history@.len() + 1,
            final(feed).history@.drop_last() == old(feed).history@,
            r matches Ok(e) && final(feed).history@.last().same_as(e),
            history_ordered(old(feed).history@, old(state).last_id) ==> history_ordered(
                final(feed).history@,
                final(state).last_id,
            ),
    {
        let event_id = next_id(state);
        let event = Event {
            event_id,
            portfolio_id: portfolio_id.clone(),
            event_type,
            timestamp: now,
            details,
            metadata,
        };
        feed.history.push(event.duplicate());
        proof {
            assert(feed.history@.drop_last() =~= old(feed).history@);
        }
        Ok(event)
    }

    /// Emit a portfolio event without metadata.
    pub fn emit_event_simple(
        state: &mut EventsState,
        feed: &mut PortfolioFeed,
        portfolio_id: &String,
        event_type: PortfolioEventType,
        details: Vec<(String, Vec<u8>)>,
        now: u64,
    ) -> (r: Result<Event, Error>)
        requires
            old(state).last_id < u64::MAX,
        ensures
            r matches Ok(e) && e.event_id == old(state).last_id + 1 && e.portfolio_id
                == *portfolio_id && e.event_type == event_type && e.timestamp == now && e.details
                == details && e.metadata@.len() == 0,
            *final(state) == (EventsState { last_id: (old(state).last_id + 1) as u64, ..*old(state) }),
            final(feed).subscriptions == old(feed).subscriptions,
            final(feed).history@.len() == old(feed).history@.len() + 1,
            final(feed).history@.drop_last() == old(feed).history@,
            r matches Ok(e) && final(feed).history@.last().same_as(e),
            history_ordered(old(feed).history@, old(state).last_id) ==> history_ordered(
                final(feed).history@,
                final(state).last_id,
            ),
    {
        Self::emit_event(state, feed, portfolio_id, event_type, details, Vec::new(), now)
    }

    /// The subscribers to notify of an event of `event_type`: those of
    /// active subscriptions that want it, in registration order.
    pub fn notification_targets(feed: &PortfolioFeed, event_type: PortfolioEventType) -> (r: Vec<
        String,
    >)
        ensures
            r@ == feed.subscriptions@.filter(
                |s: Subscription| s.is_active && wants(s, event_type),
            ).map_values(|s: Subscription| s.subscriber),
    {
        let ghost subs = feed.subscriptions@;
        let ghost pred = |s: Subscription| s.is_active && wants(s, event_type);
        let mut r: Vec<String> = Vec::new();
        let mut i: usize = 0;
        while i < feed.subscriptions.len()
            invariant
                subs == feed.subscriptions@,
                pred == (|s: Subscription| s.is_active && wants(s, event_type)),
                i <= subs.len(),
                r@ == subs.take(i as int).filter(pred).map_values(|s: Subscription| s.subscriber),
            decreases subs.len() - i,
        {
            proof {
                reveal(Seq::filter);
                assert(subs.take(i + 1).drop_last() =~= subs.take(i as int));
                assert(subs.take(i + 1).last() == subs[i as int]);
            }
            if feed.subscriptions[i].is_active && matches_filter(&feed.subscriptions[i], &event_type) {
                let ghost before = r@;
                r.push(feed.subscriptions[i].subscriber.clone());
                proof {
                    assert(subs.take(i + 1).filter(pred) == subs.take(i as int).filter(pred).push(subs[i as int]));
                    assert(r@ =~= subs.take(i + 1).filter(pred).map_values(|s: Subscription| s.subscriber));
                }
            }
            i = i + 1;
        }
        assert(subs.take(subs.len() as int) =~= subs);
        r
    }

    /// All subscriptions of the portfolio, in registration order.
    pub fn get_subscriptions(feed: &PortfolioFeed) -> (r: Vec<Subscription>)
        ensures
            r@.len() == feed.subscriptions@.len(),
            forall|j: int| 0 <= j < r@.len() ==> (#[trigger] r@[j]).same_as(feed.subscriptions@[j]),
    {
        let mut r: Vec<Subscription> = Vec::new();
        let mut i: usize = 0;
        while i < feed.subscriptions.len()
            invariant
                i <= feed.subscriptions@.len(),
                r@.len() == i,
                forall|j: int| 0 <= j < i ==> (#[trigger] r@[j]).same_as(feed.subscriptions@[j]),
            decreases feed.subscriptions@.len() - i,
        {
            r.push(feed.subscriptions[i].duplicate());
            i = i + 1;
        }
        r
    }

    /// The active subscriptions of the portfolio, in registration order.
    pub fn get_active_subscriptions(feed: &PortfolioFeed) -> (r: Vec<Subscription>)
        ensures
            ({
                let sel = feed.subscriptions@.filter(|s: Subscription| s.is_active);
                &&& r@.len() == sel.len()
                &&& forall|j: int| 0 <= j < sel.len() ==> (#[trigger] r@[j]).same_as(sel[j])
            }),
    {
        let ghost subs = feed.subscriptions@;
        let ghost pred = |s: Subscription| s.is_active;
        let mut r: Vec<Subscription> = Vec::new();
        let mut i: usize = 0;
        while i < feed.subscriptions.len()
            invariant
                subs == feed.subscriptions@,
                pred == (|s: Subscription| s.is_active),
                i <= subs.len(),
                r@.len() == subs.take(i as int).filter(pred).len(),
                forall|j: int|
                    0 <= j < r@.len() ==> (#[trigger] r@[j]).same_as(subs.take(i as int).filter(pred)[j]),
            decreases subs.len() - i,
        {
            proof {
                reveal(Seq::filter);
                assert(subs.take(i + 1).drop_last() =~= subs.take(i as int));
                assert(subs.take(i + 1).last() == subs[i as int]);
            }
            if feed.subscriptions[i].is_active {
                r.push(feed.subscriptions[i].duplicate());
            }
            i = i + 1;
        }
        assert(subs.take(subs.len() as int) =~= subs);
        r
    }

    /// The events of the history selected by an optional type and an
    /// optional inclusive time range, oldest first.
    fn select_events(
        feed: &PortfolioFeed,
        event_type: Option<PortfolioEventType>,
        range: Option<(u64, u64)>,
    ) -> (r: Vec<Event>)
        ensures
            ({
                let sel = feed.history@.filter(|e: Event| event_selected(e, event_type, range));
                &&& r@.len() == sel.len()
                &&& forall|j: int| 0 <= j < sel.len() ==> (#[trigger] r@[j]).same_as(sel[j])
            }),
    {
        let ghost h = feed.history@;
        let ghost pred = |e: Event| event_selected(e, event_type, range);
        let mut r: Vec<Event> = Vec::new();
        let mut i: usize = 0;
        while i < feed.history.len()
            invariant
                h == feed.history@,
                pred == (|e: Event| event_selected(e, event_type, range)),
                i <= h.len(),
                r@.len() == h.take(i as int).filter(pred).len(),
                forall|j: int|
                    0 <= j < r@.len() ==> (#[trigger] r@[j]).same_as(h.take(i as int).filter(pred)[j]),
            decreases h.len() - i,
        {
            proof {
                reveal(Seq::filter);
                assert(h.take(i + 1).drop_last() =~= h.take(i as int));
                assert(h.take(i + 1).last() == h[i as int]);
            }
            let e = &feed.history[i];
            let type_ok = match event_type {
                Some(t) => e.event_type == t,
                None => true,
            };
            let range_ok = match range {
                Some((from, to)) => e.timestamp >= from && e.timestamp <= to,
                None => true,
            };
            if type_ok && range_ok {
                r.push(e.duplicate());
            }
            i = i + 1;
        }
        assert(h.take(h.len() as int) =~= h);
        r
    }

    /// The portfolio's events, oldest first.
    pub fn get_event_history(feed: &PortfolioFeed) -> (r: Vec<Event>)
        ensures
            r@.len() == feed.history@.len(),
            forall|j: int| 0 <= j < r@.len() ==> (#[trigger] r@[j]).same_as(feed.history@[j]),
    {
        let r = Self::select_events(feed, None, None);
        proof {
            lemma_filter_all(feed.history@, |e: Event| event_selected(e, None, None));
        }
        r
    }

    /// The portfolio's events of one type, oldest first.
    pub fn get_events_by_type(feed: &PortfolioFeed, event_type: PortfolioEventType) -> (r: Vec<
        Event,
    >)
        ensures
            ({
                let sel = feed.history@.filter(|e: Event| e.event_type == event_type);
                &&& r@.len() == sel.len()
                &&& forall|j: int| 0 <= j < sel.len() ==> (#[trigger] r@[j]).same_as(sel[j])
            }),
    {
        let r = Self::select_events(feed, Some(event_type), None);
        proof {
            assert((|e: Event| event_selected(e, Some(event_type), None)) =~= (|e: Event| e.event_type
                == event_type));
        }
        r
    }

    /// The portfolio's events with a timestamp in `[from_timestamp,
    /// to_timestamp]`, oldest first.
    pub fn get_events_by_time_range(
        feed: &PortfolioFeed,
        from_timestamp: u64,
        to_timestamp: u64,
    ) -> (r: Vec<Event>)
        ensures
            ({
                let sel = feed.history@.filter(
                    |e: Event| from_timestamp <= e.timestamp <= to_timestamp,
                );
                &&& r@.len() == sel.len()
                &&& forall|j: int| 0 <= j < sel.len() ==> (#[trigger] r@[j]).same_as(sel[j])
            }),
    {
        let r = Self::select_events(feed, None, Some((from_timestamp, to_timestamp)));
        proof {
            assert((|e: Event| event_selected(e, None, Some((from_timestamp, to_timestamp))))
                =~= (|e: Event| from_timestamp <= e.timestamp <= to_timestamp));
        }
        r
    }

    /// The portfolio's events of one type with a timestamp in
    /// `[from_timestamp, to_timestamp]`, oldest first.
    pub fn get_events_filtered(
        feed: &PortfolioFeed,
        event_type: PortfolioEventType,
        from_timestamp: u64,
        to_timestamp: u64,
    ) -> (r: Vec<Event>)
        ensures
            ({
                let sel = feed.history@.filter(
                    |e: Event|
                        e.event_type == event_type && from_timestamp <= e.timestamp
                            <= to_timestamp,
                );
                &&& r@.len() == sel.len()
                &&& forall|j: int| 0 <= j < sel.len() ==> (#[trigger] r@[j]).same_as(sel[j])
            }),
    {
        let r = Self::select_events(feed, Some(event_type), Some((from_timestamp, to_timestamp)));
        proof {
            assert((|e: Event| event_selected(e, Some(event_type), Some((from_timestamp, to_timestamp))))
                =~= (|e: Event|
                e.event_type == event_type && from_timestamp <= e.timestamp <= to_timestamp));
        }
        r
    }

    /// The number of events in the portfolio's history.
    pub fn get_event_count(feed: &PortfolioFeed) -> (n: u32)
        requires
            feed.history@.len() <= u32::MAX,
        ensures
            n == feed.history@.len(),
    {
        feed.history.len() as u32
    }
}

/// Filtering with a predicate that holds everywhere keeps the sequence.
proof fn lemma_filter_all<A>(s: Seq<A>, pred: spec_fn(A) -> bool)
    requires
        forall|x: A| #[trigger] pred(x),
    ensures
        s.filter(pred) == s,
    decreases s.len(),
{
    reveal(Seq::filter);
    if s.len() > 0 {
        lemma_filter_all(s.drop_last(), pred);
        assert(s.drop_last().push(s.last()) =~= s);
    }
}

} // verus!
