use astraport::events::contract::{
    matches_filter, AIServiceClient, AITrigger, AnalysisResult, EventsContract, EventsState, PortfolioFeed,
    RecommendationEngine, SorobanAIServiceClient, Subscription, TriggerCondition, TriggerEvaluator,
};
use astraport::events::subscriptions::{
    backoff_delay, numeric_detail, DeliveryMetrics, DeliveryMode, EventFilter, FilterCondition,
    SubscriptionPreferences, SubscriptionStatus, RETRY_INITIAL_SECS, RETRY_MAX_SECS,
};
use astraport::events::{
    AnalysisStatus, ComparisonOperator, Error, EventType, PortfolioEventType, RecommendationType,
};

fn trigger(id: &str, owner: &str, types: Vec<u32>) -> AITrigger {
    AITrigger {
        trigger_id: id.to_string(),
        name: format!("{}-name", id),
        event_types: types,
        has_threshold: false,
        threshold: 0,
        has_operator: false,
        operator: 0,
        ai_service_endpoint: "GSERVICE".to_string(),
        timeout: 60,
        is_active: true,
        owner: owner.to_string(),
    }
}

fn empty_feed() -> PortfolioFeed {
    PortfolioFeed { subscriptions: Vec::new(), history: Vec::new() }
}

// ---------------------------------------------------------------------------
// Subscriptions: backoff, filters, preferences, metrics
// ---------------------------------------------------------------------------

#[test]
fn backoff_delay_saturates_at_max() {
    assert_eq!(backoff_delay(0), RETRY_INITIAL_SECS);
    assert_eq!(backoff_delay(1), 2);
    assert_eq!(backoff_delay(2), 4);
    assert_eq!(backoff_delay(12), RETRY_MAX_SECS);
    assert_eq!(backoff_delay(u32::MAX), RETRY_MAX_SECS);
}

#[test]
fn backoff_delay_doubles_until_the_cap() {
    assert_eq!(backoff_delay(11), 2048);
    assert_eq!(backoff_delay(31), RETRY_MAX_SECS);
    let mut prev = 0;
    for a in 0..40u32 {
        let d = backoff_delay(a);
        assert!(d >= prev);
        prev = d;
    }
}

#[test]
fn numeric_detail_is_big_endian_twos_complement() {
    assert_eq!(numeric_detail(1), vec![0, 0, 0, 0, 0, 0, 0, 0, 0, 0, 0, 0, 0, 0, 0, 1]);
    assert_eq!(numeric_detail(-1), vec![0xff; 16]);
    assert_eq!(numeric_detail(258)[14..], [1, 2]);
    assert_eq!(numeric_detail(i128::MIN)[0], 0x80);
}

#[test]
fn filter_conditions_read_numeric_details() {
    let details = vec![
        ("price".to_string(), numeric_detail(-500)),
        ("note".to_string(), vec![1, 2, 3]),
    ];
    let filter = EventFilter {
        event_types: vec![PortfolioEventType::PriceAlertTriggered],
        min_severity: 2,
        conditions: vec![FilterCondition {
            key: "price".to_string(),
            op: ComparisonOperator::LessThan,
            value: 0,
        }],
    };
    assert!(filter.matches(&PortfolioEventType::PriceAlertTriggered, 2, &details));
    assert!(!filter.matches(&PortfolioEventType::PriceAlertTriggered, 1, &details));
    assert!(!filter.matches(&PortfolioEventType::Rebalanced, 5, &details));

    let non_numeric = EventFilter {
        event_types: vec![],
        min_severity: 0,
        conditions: vec![FilterCondition {
            key: "note".to_string(),
            op: ComparisonOperator::GreaterOrEqual,
            value: i128::MIN,
        }],
    };
    assert!(!non_numeric.matches(&PortfolioEventType::Custom, 0, &details));

    let missing = EventFilter {
        event_types: vec![],
        min_severity: 0,
        conditions: vec![FilterCondition {
            key: "absent".to_string(),
            op: ComparisonOperator::EqualTo,
            value: 0,
        }],
    };
    assert!(!missing.matches(&PortfolioEventType::Custom, 0, &details));

    let open = EventFilter { event_types: vec![], min_severity: 0, conditions: vec![] };
    assert!(open.matches(&PortfolioEventType::Custom, 0, &details));
}

#[test]
fn preferences_and_status() {
    let p = SubscriptionPreferences::immediate();
    assert_eq!(p.mode, DeliveryMode::Immediate);
    assert_eq!(p.batch_size, 1);
    assert_eq!(p.batch_window_secs, 0);
    let b = SubscriptionPreferences::batch(0, 30);
    assert_eq!(b.mode, DeliveryMode::Batch);
    assert_eq!(b.batch_size, 1);
    assert_eq!(b.batch_window_secs, 30);
    assert_eq!(SubscriptionPreferences::batch(5, 0).batch_size, 5);
    assert!(SubscriptionStatus::Active.is_receives_events());
    assert!(!SubscriptionStatus::Paused.is_receives_events());
    assert!(!SubscriptionStatus::Cancelled.is_receives_events());
}

#[test]
fn success_rate_in_basis_points() {
    let mut m = DeliveryMetrics::new();
    assert_eq!(m.success_rate_bps(), 10_000);
    m.total_delivered = 3;
    m.total_failed = 1;
    assert_eq!(m.success_rate_bps(), 7_500);
    m.total_delivered = 0;
    assert_eq!(m.success_rate_bps(), 0);
}

// ---------------------------------------------------------------------------
// Codes and trigger evaluation
// ---------------------------------------------------------------------------

#[test]
fn numeric_codes_convert_both_ways() {
    assert_eq!(EventType::from(3u32), EventType::VolatilitySpike);
    assert_eq!(EventType::from(42u32), EventType::CustomEvent);
    assert_eq!(EventType::CustomEvent.code(), 99);
    assert_eq!(ComparisonOperator::from(7u32), ComparisonOperator::GreaterThan);
    assert_eq!(AnalysisStatus::from(4u32), AnalysisStatus::TimedOut);
    assert_eq!(AnalysisStatus::from(9u32), AnalysisStatus::Pending);
    assert_eq!(RecommendationType::from(2u32), RecommendationType::Sell);
    assert_eq!(RecommendationType::from(8u32), RecommendationType::NoAction);
    assert_eq!(RecommendationType::NoAction.code(), 5);
}

#[test]
fn trigger_evaluation() {
    let mut t = trigger("t1", "GOWNER", vec![1, 2]);
    assert!(TriggerEvaluator::evaluate(&t, EventType::TradeExecuted, None));
    assert!(!TriggerEvaluator::evaluate(&t, EventType::VolatilitySpike, Some(5)));
    t.has_threshold = true;
    t.has_operator = true;
    t.threshold = 100;
    t.operator = 3; // >=
    assert!(!TriggerEvaluator::evaluate(&t, EventType::TradeExecuted, None));
    assert!(TriggerEvaluator::evaluate(&t, EventType::TradeExecuted, Some(100)));
    assert!(!TriggerEvaluator::evaluate(&t, EventType::TradeExecuted, Some(99)));
    let c = TriggerCondition { current_value: 1, threshold: 2, operator: ComparisonOperator::LessOrEqual };
    assert!(TriggerEvaluator::evaluate_condition(&c));
}

// ---------------------------------------------------------------------------
// Analyses, recommendations and metrics
// ---------------------------------------------------------------------------

#[test]
fn triggers_add_and_remove() {
    let mut s = EventsState::new();
    assert_eq!(EventsContract::add_trigger(&mut s, trigger("t1", "GOWNER", vec![0])), Ok(()));
    assert_eq!(
        EventsContract::add_trigger(&mut s, trigger("t1", "GOTHER", vec![0])),
        Err(Error::AlreadyExists)
    );
    assert_eq!(
        EventsContract::remove_trigger(&mut s, &"t1".to_string(), &"GOTHER".to_string()),
        Err(Error::Unauthorized)
    );
    assert_eq!(
        EventsContract::remove_trigger(&mut s, &"nope".to_string(), &"GOWNER".to_string()),
        Err(Error::NotFound)
    );
    assert_eq!(EventsContract::remove_trigger(&mut s, &"t1".to_string(), &"GOWNER".to_string()), Ok(()));
    assert_eq!(EventsContract::get_all_triggers(&s).len(), 0);
}

#[test]
fn process_event_starts_pending_analyses() {
    let mut s = EventsState::new();
    EventsContract::add_trigger(&mut s, trigger("a", "GOWNER", vec![0, 1])).unwrap();
    EventsContract::add_trigger(&mut s, trigger("b", "GOWNER", vec![4])).unwrap();
    let mut inactive = trigger("c", "GOWNER", vec![0]);
    inactive.is_active = false;
    EventsContract::add_trigger(&mut s, inactive).unwrap();
    let pf = "pf1".to_string();
    let ids = EventsContract::process_event(&mut s, &pf, 0, &vec![], None, 77).unwrap();
    assert_eq!(ids, vec![1]);
    let ids = EventsContract::process_event(&mut s, &pf, 4, &vec![], None, 78).unwrap();
    assert_eq!(ids, vec![2]);
    let analyses = EventsContract::get_portfolio_analyses(&s, &pf);
    assert_eq!(analyses.len(), 2);
    assert_eq!(analyses[0].trigger_id, "a");
    assert_eq!(analyses[0].status, 0);
    assert_eq!(analyses[0].timestamp, 77);
    assert_eq!(analyses[1].trigger_id, "b");
    assert_eq!(EventsContract::get_metrics(&s).total_analyses, 2);
    assert_eq!(SorobanAIServiceClient::check_analysis_status(&s, 2), Ok(AnalysisStatus::Pending));
    assert_eq!(SorobanAIServiceClient::check_analysis_status(&s, 9), Err(Error::NotFound));
}

#[test]
fn completion_updates_metrics_and_recommends() {
    let mut s = EventsState::new();
    EventsContract::add_trigger(&mut s, trigger("a", "GOWNER", vec![0])).unwrap();
    let pf = "pf1".to_string();
    EventsContract::process_event(&mut s, &pf, 0, &vec![], None, 10).unwrap();
    EventsContract::process_event(&mut s, &pf, 0, &vec![], None, 11).unwrap();
    assert_eq!(
        EventsContract::update_analysis_status(&mut s, 1, 2, Some(100), Some(vec![2, 9]), None, 20),
        Ok(())
    );
    assert_eq!(
        EventsContract::update_analysis_status(&mut s, 2, 2, Some(300), None, Some("late".to_string()), 21),
        Ok(())
    );
    let m = EventsContract::get_metrics(&s);
    assert_eq!(m.successful_analyses, 2);
    assert_eq!(m.average_latency_ms, 200);
    let recs = EventsContract::get_portfolio_recommendations(&s, &pf);
    assert_eq!(recs.len(), 2);
    assert_eq!(recs[0].recommendation_id, 3);
    assert_eq!(recs[0].analysis_id, 1);
    assert_eq!(recs[0].action_type, RecommendationType::Sell.code());
    assert_eq!(recs[0].confidence_score, 85);
    assert_eq!(recs[0].timestamp, 20);
    assert_eq!(recs[1].action_type, RecommendationType::NoAction.code());
    assert_eq!(recs[1].confidence_score, 0);
    let analyses = EventsContract::get_portfolio_analyses(&s, &pf);
    assert_eq!(analyses[1].error_message, "late");
    assert_eq!(
        EventsContract::update_analysis_status(&mut s, 42, 3, None, None, None, 22),
        Err(Error::NotFound)
    );
    assert_eq!(EventsContract::update_analysis_status(&mut s, 1, 3, None, None, None, 22), Ok(()));
    assert_eq!(EventsContract::get_metrics(&s).failed_analyses, 1);
}

#[test]
fn timeouts_and_feedback() {
    let mut s = EventsState::new();
    EventsContract::add_trigger(&mut s, trigger("a", "GOWNER", vec![0])).unwrap();
    let pf = "pf1".to_string();
    EventsContract::process_event(&mut s, &pf, 0, &vec![], None, 10).unwrap();
    assert_eq!(EventsContract::process_timeout(&mut s, 1), Ok(()));
    assert_eq!(EventsContract::process_timeout(&mut s, 1), Err(Error::InvalidState));
    assert_eq!(EventsContract::process_timeout(&mut s, 5), Err(Error::NotFound));
    let a = &EventsContract::get_portfolio_analyses(&s, &pf)[0];
    assert_eq!(a.status, AnalysisStatus::TimedOut.code());
    assert_eq!(a.error_message, "TIMEOUT");
    assert_eq!(EventsContract::get_metrics(&s).timed_out_analyses, 1);

    EventsContract::process_event(&mut s, &pf, 0, &vec![], None, 11).unwrap();
    EventsContract::update_analysis_status(&mut s, 2, 2, None, Some(vec![0]), None, 12).unwrap();
    assert_eq!(EventsContract::process_recommendation_feedback(&mut s, 3, true), Ok(()));
    assert_eq!(EventsContract::process_recommendation_feedback(&mut s, 4, true), Err(Error::NotFound));
    let recs = EventsContract::get_portfolio_recommendations(&s, &pf);
    assert_eq!(recs[0].accepted, Some(true));
    assert_eq!(EventsContract::get_metrics(&s).recommendations_accepted, 1);
}

#[test]
fn recommendation_requires_completed_analysis() {
    let mut s = EventsState::new();
    let analysis = AnalysisResult {
        analysis_id: 1,
        trigger_id: "t".to_string(),
        portfolio_id: "pf".to_string(),
        timestamp: 0,
        latency_ms: 0,
        status: 1,
        raw_output: vec![],
        error_message: String::new(),
    };
    let out = vec![("action".to_string(), 1u32)];
    assert!(matches!(
        RecommendationEngine::generate_recommendation(&mut s, &analysis, &out, 5),
        Err(Error::InvalidState)
    ));
    assert_eq!(s.last_id, 0);
    let done = AnalysisResult { status: 2, ..analysis };
    let rec = RecommendationEngine::generate_recommendation(&mut s, &done, &out, 5).unwrap();
    assert_eq!(rec.action_type, 1);
    assert_eq!(rec.confidence_score, 0);
    assert_eq!(rec.recommendation_id, 1);
    assert_eq!(rec.asset, "");
    assert!(!rec.has_amount);
}

// ---------------------------------------------------------------------------
// Portfolio event feed
// ---------------------------------------------------------------------------

#[test]
fn subscribe_emit_and_notify() {
    let mut s = EventsState::new();
    let mut feed = empty_feed();
    let pf = "pf1".to_string();
    let alice = "GALICE".to_string();
    let bob = "GBOB".to_string();
    EventsContract::subscribe(&mut feed, &pf, &alice, vec![PortfolioEventType::Rebalanced], 1).unwrap();
    EventsContract::subscribe_all(&mut feed, &pf, &bob, 2).unwrap();
    EventsContract::subscribe(&mut feed, &pf, &alice, vec![], 3).unwrap();
    assert_eq!(EventsContract::get_subscriptions(&feed).len(), 2);
    assert_eq!(feed.subscriptions[1].order_index, 1);

    let e = EventsContract::emit_event(
        &mut s,
        &mut feed,
        &pf,
        PortfolioEventType::Rebalanced,
        vec![("k".to_string(), vec![1])],
        vec![9],
        50,
    )
    .unwrap();
    assert_eq!(e.event_id, 1);
    assert_eq!(e.timestamp, 50);
    assert_eq!(
        EventsContract::notification_targets(&feed, PortfolioEventType::Rebalanced),
        vec![alice.clone(), bob.clone()]
    );
    assert_eq!(EventsContract::notification_targets(&feed, PortfolioEventType::TradeExecuted), vec![bob.clone()]);

    EventsContract::emit_event_simple(&mut s, &mut feed, &pf, PortfolioEventType::TradeExecuted, vec![], 60).unwrap();
    assert_eq!(EventsContract::get_event_count(&feed), 2);
    assert_eq!(EventsContract::get_events_by_type(&feed, PortfolioEventType::TradeExecuted).len(), 1);
    assert_eq!(EventsContract::get_events_by_time_range(&feed, 55, 70).len(), 1);
    assert_eq!(EventsContract::get_events_filtered(&feed, PortfolioEventType::Rebalanced, 0, 49).len(), 0);
    assert_eq!(EventsContract::get_event_history(&feed)[1].event_id, 2);

    assert_eq!(EventsContract::unsubscribe(&mut feed, &alice), Ok(()));
    assert_eq!(EventsContract::unsubscribe_all(&mut feed, &alice), Err(Error::NotFound));
    assert_eq!(EventsContract::get_active_subscriptions(&feed).len(), 1);
    assert_eq!(EventsContract::notification_targets(&feed, PortfolioEventType::Rebalanced), vec![bob]);
}

#[test]
fn subscription_type_filter() {
    let sub = Subscription {
        subscriber: "GX".to_string(),
        portfolio_id: "pf".to_string(),
        event_types: vec![PortfolioEventType::Custom],
        order_index: 0,
        subscribed_at: 0,
        is_active: true,
    };
    assert!(matches_filter(&sub, &PortfolioEventType::Custom));
    assert!(!matches_filter(&sub, &PortfolioEventType::Rebalanced));
}

#[test]
fn submitting_an_analysis_issues_the_next_id() {
    let mut s = EventsState::new();
    let t = trigger("a", "GOWNER", vec![0]);
    let pf = "pf1".to_string();
    assert_eq!(SorobanAIServiceClient::submit_analysis(&mut s, &t, &pf, &vec![1, 2]), Ok(1));
    assert_eq!(SorobanAIServiceClient::submit_analysis(&mut s, &t, &pf, &vec![]), Ok(2));
    assert_eq!(s.last_id, 2);
    assert!(s.analyses.is_empty());
}
