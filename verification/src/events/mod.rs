//! Portfolio events: AI-analysis triggers, analysis tracking and
//! recommendations, and the portfolio event feed with subscriptions.

pub mod subscriptions;
pub mod contract;

use vstd::prelude::*;

verus! {

/// Errors returned by the events contract.
#[derive(Debug, Clone, Copy, PartialEq, Eq, Structural)]
pub enum Error {
    AlreadyExists,
    NotFound,
    Unauthorized,
    InvalidState,
}

/// Portfolio-specific event types emitted when portfolio state changes.
///
/// Subscribers can filter on these types when subscribing.
#[derive(Debug, Clone, Copy, PartialEq, Eq, Structural)]
pub enum PortfolioEventType {
    /// Portfolio was rebalanced.
    Rebalanced,
    /// A balance changed (stake, unstake, deposit, withdrawal).
    BalanceChanged,
    /// The target allocation was updated.
    AllocationUpdated,
    /// A configured threshold was breached.
    ThresholdBreached,
    /// A trade was executed.
    TradeExecuted,
    /// A price alert was triggered.
    PriceAlertTriggered,
    /// Free-form custom event.
    Custom,
}

/// Event types that can trigger AI analysis, each with a numeric code
/// (see [`EventType::code`]).
#[derive(Debug, Clone, Copy, PartialEq, Eq, Structural)]
pub enum EventType {
    PortfolioRebalance,
    TradeExecuted,
    PriceThresholdCrossed,
    VolatilitySpike,
    LiquidityChange,
    CustomEvent,
}

/// The numeric code of an event type.
pub open spec fn event_type_code(t: EventType) -> u32 {
    match t {
        EventType::PortfolioRebalance => 0,
        EventType::TradeExecuted => 1,
        EventType::PriceThresholdCrossed => 2,
        EventType::VolatilitySpike => 3,
        EventType::LiquidityChange => 4,
        EventType::CustomEvent => 99,
    }
}

/// The event type a numeric code stands for; unknown codes are custom events.
pub open spec fn event_type_of(value: u32) -> EventType {
    if value == 0 {
        EventType::PortfolioRebalance
    } else if value == 1 {
        EventType::TradeExecuted
    } else if value == 2 {
        EventType::PriceThresholdCrossed
    } else if value == 3 {
        EventType::VolatilitySpike
    } else if value == 4 {
        EventType::LiquidityChange
    } else {
        EventType::CustomEvent
    }
}

impl EventType {
    /// The numeric code of this event type.
    pub fn code(self) -> (c: u32)
        ensures
            c == event_type_code(self),
    {
        match self {
            EventType::PortfolioRebalance => 0,
            EventType::TradeExecuted => 1,
            EventType::PriceThresholdCrossed => 2,
            EventType::VolatilitySpike => 3,
            EventType::LiquidityChange => 4,
            EventType::CustomEvent => 99,
        }
    }
}

impl From<u32> for EventType {
    fn from(value: u32) -> (r: Self) {
        match value {
            0 => EventType::PortfolioRebalance,
            1 => EventType::TradeExecuted,
            2 => EventType::PriceThresholdCrossed,
            3 => EventType::VolatilitySpike,
            4 => EventType::LiquidityChange,
            _ => EventType::CustomEvent,
        }
    }
}

impl vstd::std_specs::convert::FromSpecImpl<u32> for EventType {
    open spec fn obeys_from_spec() -> bool {
        true
    }

    open spec fn from_spec(value: u32) -> EventType {
        event_type_of(value)
    }
}

/// Comparison operators for threshold conditions.
#[derive(Debug, Clone, Copy, PartialEq, Eq, Structural)]
pub enum ComparisonOperator {
    GreaterThan,
    LessThan,
    EqualTo,
    GreaterOrEqual,
    LessOrEqual,
}

/// The operator a numeric code stands for; unknown codes mean "greater than".
pub open spec fn operator_of(value: u32) -> ComparisonOperator {
    if value == 1 {
        ComparisonOperator::LessThan
    } else if value == 2 {
        ComparisonOperator::EqualTo
    } else if value == 3 {
        ComparisonOperator::GreaterOrEqual
    } else if value == 4 {
        ComparisonOperator::LessOrEqual
    } else {
        ComparisonOperator::GreaterThan
    }
}

/// Whether `actual op threshold` holds.
pub open spec fn compare_holds(op: ComparisonOperator, actual: int, threshold: int) -> bool {
    match op {
        ComparisonOperator::GreaterThan => actual > threshold,
        ComparisonOperator::LessThan => actual < threshold,
        ComparisonOperator::EqualTo => actual == threshold,
        ComparisonOperator::GreaterOrEqual => actual >= threshold,
        ComparisonOperator::LessOrEqual => actual <= threshold,
    }
}

impl From<u32> for ComparisonOperator {
    fn from(value: u32) -> (r: Self) {
        match value {
            0 => ComparisonOperator::GreaterThan,
            1 => ComparisonOperator::LessThan,
            2 => ComparisonOperator::EqualTo,
            3 => ComparisonOperator::GreaterOrEqual,
            4 => ComparisonOperator::LessOrEqual,
            _ => ComparisonOperator::GreaterThan,
        }
    }
}

impl vstd::std_specs::convert::FromSpecImpl<u32> for ComparisonOperator {
    open spec fn obeys_from_spec() -> bool {
        true
    }

    open spec fn from_spec(value: u32) -> ComparisonOperator {
        operator_of(value)
    }
}

/// Status of an analysis request, each with a numeric code
/// (see [`AnalysisStatus::code`]).
#[derive(Debug, Clone, Copy, PartialEq, Eq, Structural)]
pub enum AnalysisStatus {
    Pending,
    InProgress,
    Completed,
    Failed,
    TimedOut,
}

/// The numeric code of an analysis status.
pub open spec fn status_code(s: AnalysisStatus) -> u32 {
    match s {
        AnalysisStatus::Pending => 0,
        AnalysisStatus::InProgress => 1,
        AnalysisStatus::Completed => 2,
        AnalysisStatus::Failed => 3,
        AnalysisStatus::TimedOut => 4,
    }
}

/// The status a numeric code stands for; unknown codes mean pending.
pub open spec fn status_of(value: u32) -> AnalysisStatus {
    if value == 1 {
        AnalysisStatus::InProgress
    } else if value == 2 {
        AnalysisStatus::Completed
    } else if value == 3 {
        AnalysisStatus::Failed
    } else if value == 4 {
        AnalysisStatus::TimedOut
    } else {
        AnalysisStatus::Pending
    }
}

impl AnalysisStatus {
    /// The numeric code of this status.
    pub fn code(self) -> (c: u32)
        ensures
            c == status_code(self),
    {
        match self {
            AnalysisStatus::Pending => 0,
            AnalysisStatus::InProgress => 1,
            AnalysisStatus::Completed => 2,
            AnalysisStatus::Failed => 3,
            AnalysisStatus::TimedOut => 4,
        }
    }
}

impl From<u32> for AnalysisStatus {
    fn from(value: u32) -> (r: Self) {
        match value {
            0 => AnalysisStatus::Pending,
            1 => AnalysisStatus::InProgress,
            2 => AnalysisStatus::Completed,
            3 => AnalysisStatus::Failed,
            4 => AnalysisStatus::TimedOut,
            _ => AnalysisStatus::Pending,
        }
    }
}

impl vstd::std_specs::convert::FromSpecImpl<u32> for AnalysisStatus {
    open spec fn obeys_from_spec() -> bool {
        true
    }

    open spec fn from_spec(value: u32) -> AnalysisStatus {
        status_of(value)
    }
}

/// Recommendation action types from AI analysis, each with a numeric code
/// (see [`RecommendationType::code`]).
#[derive(Debug, Clone, Copy, PartialEq, Eq, Structural)]
pub enum RecommendationType {
    Hold,
    Buy,
    Sell,
    Rebalance,
    Monitor,
    NoAction,
}

/// The numeric code of a recommendation type.
pub open spec fn recommendation_code(t: RecommendationType) -> u32 {
    match t {
        RecommendationType::Hold => 0,
        RecommendationType::Buy => 1,
        RecommendationType::Sell => 2,
        RecommendationType::Rebalance => 3,
        RecommendationType::Monitor => 4,
        RecommendationType::NoAction => 5,
    }
}

/// The recommendation type a numeric code stands for; unknown codes mean no
/// action.
pub open spec fn recommendation_of(value: u32) -> RecommendationType {
    if value == 0 {
        RecommendationType::Hold
    } else if value == 1 {
        RecommendationType::Buy
    } else if value == 2 {
        RecommendationType::Sell
    } else if value == 3 {
        RecommendationType::Rebalance
    } else if value == 4 {
        RecommendationType::Monitor
    } else {
        RecommendationType::NoAction
    }
}

impl RecommendationType {
    /// The numeric code of this recommendation type.
    pub fn code(self) -> (c: u32)
        ensures
            c == recommendation_code(self),
    {
        match self {
            RecommendationType::Hold => 0,
            RecommendationType::Buy => 1,
            RecommendationType::Sell => 2,
            RecommendationType::Rebalance => 3,
            RecommendationType::Monitor => 4,
            RecommendationType::NoAction => 5,
        }
    }
}

impl From<u32> for RecommendationType {
    fn from(value: u32) -> (r: Self) {
        match value {
            0 => RecommendationType::Hold,
            1 => RecommendationType::Buy,
            2 => RecommendationType::Sell,
            3 => RecommendationType::Rebalance,
            4 => RecommendationType::Monitor,
            _ => RecommendationType::NoAction,
        }
    }
}

impl vstd::std_specs::convert::FromSpecImpl<u32> for RecommendationType {
    open spec fn obeys_from_spec() -> bool {
        true
    }

    open spec fn from_spec(value: u32) -> RecommendationType {
        recommendation_of(value)
    }
}

/// Decoding a code and encoding it again gives the code back, for every
/// defined code; and every type's code decodes to the type.
pub proof fn lemma_codes_roundtrip(t: EventType, s: AnalysisStatus, r: RecommendationType)
    ensures
        event_type_of(event_type_code(t)) == t,
        status_of(status_code(s)) == s,
        recommendation_of(recommendation_code(r)) == r,
{
}

} // verus!
