use wealthcast::events::{ImpactLevel, Severity, UpdateMessage};
use wealthcast::registry::{ClientMessage, RealtimeState};
use wealthcast::subscription::{should_send_update, Subscription};

fn all_events_subscription() -> Subscription {
    Subscription {
        billionaires: vec![],
        industries: vec![],
        symbols: vec![],
        all_updates: true,
    }
}

fn subjects_subscription(names: Vec<&str>) -> Subscription {
    Subscription {
        billionaires: names.into_iter().map(|s| s.to_string()).collect(),
        industries: vec![],
        symbols: vec![],
        all_updates: false,
    }
}

fn wealth_event(name: &str) -> UpdateMessage {
    UpdateMessage::WealthUpdate {
        name: name.to_string(),
        previous_net_worth: 0,
        new_net_worth: 1,
        change_percentage: 0,
        reason: "test".to_string(),
    }
}

#[test]
fn all_events_subscription_receives_every_kind() {
    let mut state = RealtimeState::new();
    let (tx, mut rx) = tokio::sync::mpsc::channel::<UpdateMessage>(16);
    state.register("c1".to_string(), tx);
    state.set_subscription("c1".to_string(), all_events_subscription());

    let events = vec![
        wealth_event("A"),
        UpdateMessage::StockUpdate {
            symbol: "X".to_string(),
            price: 1,
            change: 1,
            affected_billionaires: vec![],
        },
        UpdateMessage::NewsUpdate {
            headline: "h".to_string(),
            summary: "s".to_string(),
            affected_billionaires: vec![],
            impact: ImpactLevel::High,
        },
        UpdateMessage::SystemUpdate { message: "m".to_string(), severity: Severity::Info },
    ];
    for e in &events {
        let attempts = state.broadcast_update(e);
        assert_eq!(attempts.len(), 1);
        assert!(attempts[0].1);
    }
    let mut got_wealth = false;
    let mut got_stock = false;
    let mut got_news = false;
    let mut got_system = false;
    while let Ok(msg) = rx.try_recv() {
        match msg {
            UpdateMessage::WealthUpdate { .. } => got_wealth = true,
            UpdateMessage::StockUpdate { .. } => got_stock = true,
            UpdateMessage::NewsUpdate { .. } => got_news = true,
            UpdateMessage::SystemUpdate { .. } => got_system = true,
        }
    }
    assert!(got_wealth && got_stock && got_news && got_system);
}

#[test]
fn unsubscribed_connection_gets_only_system_notices() {
    let mut state = RealtimeState::new();
    let (tx, mut rx) = tokio::sync::mpsc::channel::<UpdateMessage>(16);
    state.register("c1".to_string(), tx);
    state.set_subscription("c1".to_string(), all_events_subscription());
    let reply = state.apply_client_message(&"c1".to_string(), ClientMessage::Unsubscribe);
    assert!(reply.is_none());

    let attempts = state.broadcast_update(&wealth_event("A"));
    assert!(attempts.is_empty());
    assert!(rx.try_recv().is_err());

    let system = UpdateMessage::SystemUpdate { message: "notice".to_string(), severity: Severity::Warning };
    let attempts = state.broadcast_update(&system);
    assert_eq!(attempts.len(), 1);
    assert!(matches!(rx.try_recv().unwrap(), UpdateMessage::SystemUpdate { .. }));
}

#[test]
fn subject_filter_does_not_match_other_subject() {
    // Subscription {subjects: ["A"], all_events: false} must not receive a
    // WealthChanged event for subject "B".
    let sub = subjects_subscription(vec!["A"]);
    assert!(!should_send_update(&sub, &wealth_event("B")));
    assert!(should_send_update(&sub, &wealth_event("A")));

    let mut state = RealtimeState::new();
    let (tx, mut rx) = tokio::sync::mpsc::channel::<UpdateMessage>(16);
    state.register("c1".to_string(), tx);
    state.set_subscription("c1".to_string(), subjects_subscription(vec!["A"]));
    let attempts = state.broadcast_update(&wealth_event("B"));
    assert!(attempts.is_empty());
    assert!(rx.try_recv().is_err());
}

#[test]
fn symbol_filter_matches_stock_updates() {
    let sub = Subscription {
        billionaires: vec![],
        industries: vec![],
        symbols: vec!["TSLA".to_string()],
        all_updates: false,
    };
    let hit = UpdateMessage::StockUpdate {
        symbol: "TSLA".to_string(),
        price: 1,
        change: 1,
        affected_billionaires: vec![],
    };
    let miss = UpdateMessage::StockUpdate {
        symbol: "AMZN".to_string(),
        price: 1,
        change: 1,
        affected_billionaires: vec![],
    };
    assert!(should_send_update(&sub, &hit));
    assert!(!should_send_update(&sub, &miss));
}

#[test]
fn fifo_round_trip_preserves_order() {
    // Publishing N events to one connection with a queue that always
    // accepts yields the same N events in the same order.
    let n: usize = 50;
    let mut state = RealtimeState::new();
    let (tx, mut rx) = tokio::sync::mpsc::channel::<UpdateMessage>(n);
    state.register("c1".to_string(), tx);
    state.set_subscription("c1".to_string(), all_events_subscription());
    for i in 0..n {
        let e = UpdateMessage::SystemUpdate {
            message: format!("event {}", i),
            severity: Severity::Info,
        };
        let attempts = state.broadcast_update(&e);
        assert!(attempts[0].1);
    }
    for i in 0..n {
        match rx.try_recv().unwrap() {
            UpdateMessage::SystemUpdate { message, .. } => {
                assert_eq!(message, format!("event {}", i));
            },
            _ => panic!("unexpected event kind"),
        }
    }
    assert!(rx.try_recv().is_err());
}

#[test]
fn subscribe_acknowledges_and_ping_pongs() {
    let mut state = RealtimeState::new();
    let (tx, mut rx) = tokio::sync::mpsc::channel::<UpdateMessage>(16);
    state.register("c1".to_string(), tx);
    let reply = state
        .apply_client_message(
            &"c1".to_string(),
            ClientMessage::Subscribe { subscription: all_events_subscription() },
        )
        .expect("subscribe is acknowledged");
    assert!(reply.1);
    match reply.0 {
        UpdateMessage::SystemUpdate { message, .. } => {
            assert_eq!(message, "Subscription successful");
        },
        _ => panic!("expected a system notice"),
    }
    match rx.try_recv().unwrap() {
        UpdateMessage::SystemUpdate { message, .. } => {
            assert_eq!(message, "Subscription successful");
        },
        _ => panic!("expected a system notice"),
    }
    assert!(state.get_subscription(&"c1".to_string()).is_some());

    let reply = state
        .apply_client_message(&"c1".to_string(), ClientMessage::Ping)
        .expect("ping is answered");
    assert!(reply.1);
    match reply.0 {
        UpdateMessage::SystemUpdate { message, .. } => assert_eq!(message, "pong"),
        _ => panic!("expected a system notice"),
    }
    match rx.try_recv().unwrap() {
        UpdateMessage::SystemUpdate { message, .. } => assert_eq!(message, "pong"),
        _ => panic!("expected a system notice"),
    }
}

#[test]
fn disconnect_clears_both_stores() {
    let mut state = RealtimeState::new();
    let (tx, _rx) = tokio::sync::mpsc::channel::<UpdateMessage>(4);
    state.register("c1".to_string(), tx);
    state.set_subscription("c1".to_string(), all_events_subscription());
    assert_eq!(state.active_connections(), 1);
    assert_eq!(state.active_subscriptions(), 1);
    state.disconnect_client(&"c1".to_string());
    assert_eq!(state.active_connections(), 0);
    assert_eq!(state.active_subscriptions(), 0);
    // Deregistration is idempotent.
    state.disconnect_client(&"c1".to_string());
    assert_eq!(state.active_connections(), 0);
}

#[test]
fn send_to_client_reports_unknown_connection() {
    let state = RealtimeState::new();
    let ok = state.send_to_client(
        &"ghostly".to_string(),
        &UpdateMessage::SystemUpdate { message: "m".to_string(), severity: Severity::Info },
    );
    assert!(!ok);
}

#[test]
fn subscription_stats_tally_filters() {
    let mut state = RealtimeState::new();
    state.set_subscription("c1".to_string(), all_events_subscription());
    state.set_subscription(
        "c2".to_string(),
        Subscription {
            billionaires: vec!["A".to_string(), "B".to_string()],
            industries: vec!["Tech".to_string()],
            symbols: vec!["X".to_string(), "Y".to_string(), "Z".to_string()],
            all_updates: false,
        },
    );
    let stats = state.get_subscription_stats();
    assert_eq!(stats.total_subscriptions, 2);
    assert_eq!(stats.all_updates_count, 1);
    assert_eq!(stats.billionaire_subscriptions, 2);
    assert_eq!(stats.industry_subscriptions, 1);
    assert_eq!(stats.symbol_subscriptions, 3);
    let summary = stats.print_summary();
    assert!(summary.contains("Total subscriptions: 2"));
    assert!(summary.contains("Symbol subscriptions: 3"));
}
