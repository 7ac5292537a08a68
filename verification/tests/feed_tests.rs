use wealthcast::events::UpdateMessage;
use wealthcast::feed::{load_sample_holdings, make_stock_price, plan_batches, PriceFeedManager};
use wealthcast::money::MONEY_SCALE;
use wealthcast::registry::{RealtimeState, StockPosition};
use wealthcast::subscription::Subscription;

fn usd(units: i64) -> i64 {
    units * MONEY_SCALE
}

#[test]
fn fallback_takes_first_successful_source() {
    // Two sources for symbol "Y": the primary errors, the secondary
    // returns 42.0. The cache ends up with 42.0 and one market update is
    // emitted.
    let mut state = RealtimeState::new();
    let (tx, mut rx) = tokio::sync::mpsc::channel::<UpdateMessage>(8);
    state.register("c1".to_string(), tx);
    state.set_subscription(
        "c1".to_string(),
        Subscription { billionaires: vec![], industries: vec![], symbols: vec![], all_updates: true },
    );
    let mut feed = PriceFeedManager::new();
    let outcomes = vec![None, Some(make_stock_price("Y".to_string(), usd(42), usd(40), 7))];
    let got = feed.update_stock_price(&state, &"Y".to_string(), &outcomes);
    let (quote, update, attempts) = got.expect("the secondary source answered");
    assert_eq!(quote.price, usd(42));
    // The one emitted market update carries the fresh quote.
    match &update {
        UpdateMessage::StockUpdate { symbol, price, change, .. } => {
            assert_eq!(symbol, "Y");
            assert_eq!(*price, usd(42));
            assert_eq!(*change, usd(2));
        },
        _ => panic!("expected a market update"),
    }
    assert_eq!(attempts.len(), 1);
    assert!(attempts[0].1);
    let cached = feed.price_cache.get_quote(&"Y".to_string()).expect("cached");
    assert_eq!(cached.price, usd(42));
    assert_eq!(cached.change, usd(2));
    // Exactly one market update was emitted.
    match rx.try_recv().unwrap() {
        UpdateMessage::StockUpdate { symbol, price, .. } => {
            assert_eq!(symbol, "Y");
            assert_eq!(price, usd(42));
        },
        _ => panic!("expected a market update"),
    }
    assert!(rx.try_recv().is_err());
}

#[test]
fn all_sources_failing_keeps_stale_quote() {
    let state = RealtimeState::new();
    let mut feed = PriceFeedManager::new();
    feed.price_cache.insert_quote(make_stock_price("Y".to_string(), usd(40), usd(40), 1));
    let outcomes: Vec<Option<wealthcast::price_cache::StockPrice>> = vec![None, None];
    let got = feed.update_stock_price(&state, &"Y".to_string(), &outcomes);
    match got {
        Err(e) => assert_eq!(e.message(), "All price feeds failed for Y"),
        Ok(_) => panic!("every source failed"),
    }
    // Stale data is preferred over no data.
    let cached = feed.price_cache.get_quote(&"Y".to_string()).expect("stale quote kept");
    assert_eq!(cached.price, usd(40));
}

#[test]
fn affected_subjects_follow_holdings() {
    let mut state = RealtimeState::new();
    state.set_holdings(
        "Ada".to_string(),
        vec![StockPosition {
            symbol: "TSLA".to_string(),
            shares: 10,
            last_price: usd(100),
            value: usd(1_000),
        }],
    );
    state.set_holdings(
        "Grace".to_string(),
        vec![StockPosition {
            symbol: "AMZN".to_string(),
            shares: 10,
            last_price: usd(100),
            value: usd(1_000),
        }],
    );
    let affected = wealthcast::feed::affected_subjects_of_symbol(&state, &"TSLA".to_string());
    assert_eq!(affected, vec!["Ada".to_string()]);
}

#[test]
fn tracked_symbols_union_holdings_and_subscriptions() {
    let mut state = RealtimeState::new();
    state.set_holdings(
        "Ada".to_string(),
        vec![
            StockPosition {
                symbol: "TSLA".to_string(),
                shares: 1,
                last_price: 0,
                value: 0,
            },
            StockPosition {
                symbol: "AMZN".to_string(),
                shares: 1,
                last_price: 0,
                value: 0,
            },
        ],
    );
    state.set_subscription(
        "c1".to_string(),
        Subscription {
            billionaires: vec![],
            industries: vec![],
            symbols: vec!["TSLA".to_string(), "NVDA".to_string()],
            all_updates: false,
        },
    );
    let feed = PriceFeedManager::new();
    let mut symbols = feed.get_tracked_symbols(&state);
    symbols.sort();
    assert_eq!(symbols, vec!["AMZN".to_string(), "NVDA".to_string(), "TSLA".to_string()]);
}

#[test]
fn batches_respect_pacing_size() {
    let symbols: Vec<String> = (0..12).map(|i| format!("S{}", i)).collect();
    let batches = plan_batches(&symbols, 5);
    assert_eq!(batches.len(), 3);
    assert_eq!(batches[0].len(), 5);
    assert_eq!(batches[1].len(), 5);
    assert_eq!(batches[2].len(), 2);
    assert_eq!(batches[0][0], "S0");
    assert_eq!(batches[2][1], "S11");
    assert!(plan_batches(&vec![], 5).is_empty());
}

#[test]
fn material_portfolio_moves_are_broadcast() {
    let mut state = RealtimeState::new();
    // 1,000 shares recorded at 100.0; the fresh quote is 5,000.0: a
    // relative move far beyond one percent, so the change is material.
    state.set_holdings(
        "Ada".to_string(),
        vec![StockPosition {
            symbol: "TSLA".to_string(),
            shares: 1_000,
            last_price: usd(100),
            value: usd(100_000),
        }],
    );
    let mut feed = PriceFeedManager::new();
    feed.price_cache.insert_quote(make_stock_price("TSLA".to_string(), usd(5_000), usd(100), 3));
    let events = feed.calculate_wealth_updates(&state);
    assert_eq!(events.len(), 1);
    match &events[0] {
        UpdateMessage::WealthUpdate { name, previous_net_worth, new_net_worth, reason, .. } => {
            assert_eq!(name, "Ada");
            assert_eq!(*previous_net_worth, usd(100_000));
            assert_eq!(*new_net_worth, usd(5_000_000));
            assert_eq!(reason, "Stock portfolio value change");
        },
        _ => panic!("expected a wealth update"),
    }
}

#[test]
fn small_portfolio_moves_stay_quiet() {
    let mut state = RealtimeState::new();
    state.set_holdings(
        "Ada".to_string(),
        vec![StockPosition {
            symbol: "TSLA".to_string(),
            shares: 1_000,
            last_price: usd(100),
            value: usd(100_000),
        }],
    );
    let mut feed = PriceFeedManager::new();
    // A move of exactly one percent: not beyond the materiality
    // threshold, so the cycle stays quiet.
    feed.price_cache.insert_quote(make_stock_price("TSLA".to_string(), usd(101), usd(100), 3));
    let events = feed.calculate_wealth_updates(&state);
    assert!(events.is_empty());
}

#[test]
fn sample_holdings_cover_known_subjects() {
    let mut state = RealtimeState::new();
    load_sample_holdings(&mut state);
    let affected = wealthcast::feed::affected_subjects_of_symbol(&state, &"BRK-A".to_string());
    assert_eq!(affected, vec!["Warren Buffett".to_string()]);
}

#[test]
fn quote_carries_change_and_percent() {
    let q = make_stock_price("X".to_string(), usd(110), usd(100), 42);
    assert_eq!(q.symbol, "X");
    assert_eq!(q.change, usd(10));
    // 10% at a scale of one hundred per percent.
    assert_eq!(q.change_percent, 1_000);
    assert_eq!(q.timestamp, 42);
}
