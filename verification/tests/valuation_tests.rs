use wealthcast::money::{BILLION, MAX_MONEY, MONEY_SCALE};
use wealthcast::monitor::parse_net_worth;
use wealthcast::price_cache::PriceCache;
use wealthcast::rates::ExchangeRateTable;
use wealthcast::valuation::{calculate_net_worth, AssetType, CryptoHolding, Property};

fn usd(units: i64) -> i64 {
    units * MONEY_SCALE
}

#[test]
fn missing_quote_contributes_zero() {
    // Subject "A" holds 1,000,000 shares of symbol "X"; no quote cached.
    let assets = vec![AssetType::PublicStock { symbol: "X".to_string(), shares: 1_000_000 }];
    let prices = PriceCache::new();
    let rates = ExchangeRateTable::with_defaults();
    assert_eq!(calculate_net_worth(&assets, &prices, &rates), Some(0));
}

#[test]
fn cached_quote_values_position() {
    // A MarketMoved event set X's price to 100.0: the holding contributes
    // 100,000,000 reference-currency units.
    let assets = vec![AssetType::PublicStock { symbol: "X".to_string(), shares: 1_000_000 }];
    let mut prices = PriceCache::new();
    prices.insert_quote(wealthcast::feed::make_stock_price("X".to_string(), usd(100), 0, 0));
    let rates = ExchangeRateTable::with_defaults();
    assert_eq!(calculate_net_worth(&assets, &prices, &rates), Some(usd(100_000_000)));
}

#[test]
fn valuation_without_market_symbols_is_non_market_sum() {
    // No holding references a symbol with a cached price, so the total is
    // the sum of the non-market contributions alone.
    let assets = vec![
        AssetType::PublicStock { symbol: "X".to_string(), shares: 500 },
        AssetType::PrivateEquity { company: "Acme".to_string(), stake: 5_000, valuation: usd(10) },
        AssetType::Other { description: "misc".to_string(), value: usd(7) },
    ];
    let mut prices = PriceCache::new();
    // A quote for an unrelated symbol must not change anything.
    prices.insert_quote(wealthcast::feed::make_stock_price("Y".to_string(), usd(3), 0, 0));
    let rates = ExchangeRateTable::with_defaults();
    // 0.5 * 10 + 7 = 12 units.
    assert_eq!(calculate_net_worth(&assets, &prices, &rates), Some(usd(12)));
}

#[test]
fn private_equity_is_fraction_of_valuation() {
    let assets = vec![AssetType::PrivateEquity {
        company: "Acme".to_string(),
        stake: 4_200,
        valuation: usd(150_000_000_000),
    }];
    let prices = PriceCache::new();
    let rates = ExchangeRateTable::with_defaults();
    // 42% of 150 billion.
    assert_eq!(calculate_net_worth(&assets, &prices, &rates), Some(usd(63_000_000_000)));
}

#[test]
fn real_estate_converts_through_rate_table() {
    let assets = vec![AssetType::RealEstate {
        properties: vec![
            Property {
                name: "Flat".to_string(),
                location: "Paris".to_string(),
                value: usd(1_000),
                currency: "EUR".to_string(),
            },
            Property {
                name: "House".to_string(),
                location: "Austin".to_string(),
                value: usd(500),
                currency: "USD".to_string(),
            },
            Property {
                name: "Cabin".to_string(),
                location: "Elsewhere".to_string(),
                value: usd(100),
                currency: "QQQ".to_string(),
            },
        ],
    }];
    let prices = PriceCache::new();
    let rates = ExchangeRateTable::with_defaults();
    // EUR at 1.08, USD as-is, unknown currency as-is: 1080 + 500 + 100.
    assert_eq!(calculate_net_worth(&assets, &prices, &rates), Some(usd(1_680)));
}

#[test]
fn crypto_is_amount_times_unit_price() {
    let assets = vec![AssetType::Cryptocurrency {
        holdings: vec![CryptoHolding {
            symbol: "BTC".to_string(),
            amount: 25_000, // 2.5 coins in ticks
            price_usd: usd(40_000),
        }],
    }];
    let prices = PriceCache::new();
    let rates = ExchangeRateTable::with_defaults();
    assert_eq!(calculate_net_worth(&assets, &prices, &rates), Some(usd(100_000)));
}

#[test]
fn parse_net_worth_reads_billions() {
    assert_eq!(parse_net_worth("$234.5B"), 2345 * (BILLION / 10));
    assert_eq!(parse_net_worth("100"), 100 * BILLION);
    assert_eq!(parse_net_worth(".5"), BILLION / 2);
    assert_eq!(parse_net_worth("7."), 7 * BILLION);
}

#[test]
fn parse_net_worth_rejects_garbage() {
    assert_eq!(parse_net_worth(""), 0);
    assert_eq!(parse_net_worth("unknown"), 0);
    assert_eq!(parse_net_worth("$B"), 0);
    assert_eq!(parse_net_worth("1.2.3"), 0);
    assert_eq!(parse_net_worth("123456"), 0);
}

#[test]
fn valuation_beyond_the_engine_range_is_reported() {
    let assets = vec![
        AssetType::Other { description: "a".to_string(), value: MAX_MONEY },
        AssetType::Other { description: "b".to_string(), value: MAX_MONEY },
    ];
    let prices = PriceCache::new();
    let rates = ExchangeRateTable::with_defaults();
    assert_eq!(calculate_net_worth(&assets, &prices, &rates), None);
}

#[test]
fn exchange_rate_refresh_stays_within_half_percent() {
    let mut rates = ExchangeRateTable::with_defaults();
    let before_eur = rates.get_rate(&"EUR".to_string()).unwrap();
    let before_usd = rates.get_rate(&"USD".to_string()).unwrap();
    rates.update_exchange_rates();
    let after_eur = rates.get_rate(&"EUR".to_string()).unwrap();
    let after_usd = rates.get_rate(&"USD".to_string()).unwrap();
    assert_eq!(before_usd, after_usd);
    let lo = before_eur * 9_950 / 10_000;
    let hi = before_eur * 10_050 / 10_000;
    assert!(after_eur >= lo && after_eur <= hi);
    assert!(rates.get_rate(&"JPY".to_string()).is_some());
}

#[test]
fn convert_to_usd_handles_unknown_currency() {
    let rates = ExchangeRateTable::with_defaults();
    assert_eq!(rates.convert_to_usd(usd(10), &"USD".to_string()), Some(usd(10)));
    assert_eq!(rates.convert_to_usd(usd(10), &"ZZZ".to_string()), Some(usd(10)));
    assert_eq!(rates.convert_to_usd(usd(100), &"GBP".to_string()), Some(usd(127)));
}
