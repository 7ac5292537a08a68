use wealthcast::events::{Severity, UpdateMessage};
use wealthcast::health::monitor_client_health;
use wealthcast::registry::RealtimeState;
use wealthcast::subscription::Subscription;

#[test]
fn dead_connection_is_pruned_after_one_cycle() {
    let mut state = RealtimeState::new();
    let (alive_tx, mut alive_rx) = tokio::sync::mpsc::channel::<UpdateMessage>(8);
    let (dead_tx, dead_rx) = tokio::sync::mpsc::channel::<UpdateMessage>(8);
    drop(dead_rx);
    state.register("alive".to_string(), alive_tx);
    state.register("dead".to_string(), dead_tx);
    state.set_subscription(
        "dead".to_string(),
        Subscription { billionaires: vec![], industries: vec![], symbols: vec![], all_updates: true },
    );

    let removed = monitor_client_health(&mut state);
    assert_eq!(removed, vec!["dead".to_string()]);
    assert_eq!(state.active_connections(), 1);
    assert_eq!(state.active_subscriptions(), 0);
    // The healthy connection received the probe.
    match alive_rx.try_recv().unwrap() {
        UpdateMessage::SystemUpdate { message, .. } => assert_eq!(message, "ping"),
        _ => panic!("expected the probe notice"),
    }
    // The pruned connection no longer receives anything.
    let sent = state.send_to_client(
        &"dead".to_string(),
        &UpdateMessage::SystemUpdate { message: "m".to_string(), severity: Severity::Info },
    );
    assert!(!sent);
}

#[test]
fn full_queue_counts_as_stale() {
    let mut state = RealtimeState::new();
    let (tx, _rx) = tokio::sync::mpsc::channel::<UpdateMessage>(1);
    // Fill the queue so the probe cannot be accepted.
    tx.try_send(UpdateMessage::SystemUpdate { message: "fill".to_string(), severity: Severity::Info })
        .unwrap();
    state.register("stuffed".to_string(), tx);
    let removed = monitor_client_health(&mut state);
    assert_eq!(removed, vec!["stuffed".to_string()]);
    assert_eq!(state.active_connections(), 0);
}

#[test]
fn healthy_connections_survive_the_sweep() {
    let mut state = RealtimeState::new();
    let (tx, mut rx) = tokio::sync::mpsc::channel::<UpdateMessage>(8);
    state.register("c1".to_string(), tx);
    let removed = monitor_client_health(&mut state);
    assert!(removed.is_empty());
    assert_eq!(state.active_connections(), 1);
    assert!(rx.try_recv().is_ok());
}
