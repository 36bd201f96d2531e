use arb_strategy::balance_recorder::{
    bybit_row, bybit_row_amounts, coin_value_is_computable, find_currency, holdings_are_computable,
    upbit_total_is_computable, position_entry_message, position_exit_message,
    snapshot_record, upbit_coin_value, upbit_holdings, upbit_row_amounts, Balance,
    BalanceSnapshotSender, SnapshotMsg, TickerCache,
};
use arb_strategy::decimal::Dec;
use arb_strategy::keyed::StrMap;
use tokio::sync::mpsc;

fn make_krw_balance(available: i64, locked: i64) -> Balance {
    Balance {
        currency: "KRW".to_string(),
        balance: Dec::new(available, 0),
        locked: Dec::new(locked, 0),
        avg_buy_price: Dec::zero(),
        unit_currency: "KRW".to_string(),
        equity: None,
        unrealised_pnl: None,
    }
}

fn make_coin_balance(currency: &str, balance: Dec, locked: Dec, avg_buy_price: Dec) -> Balance {
    Balance {
        currency: currency.to_string(),
        balance,
        locked,
        avg_buy_price,
        unit_currency: "KRW".to_string(),
        equity: None,
        unrealised_pnl: None,
    }
}

fn make_usdt_balance(
    available: Dec,
    locked: Dec,
    equity: Option<Dec>,
    unrealised_pnl: Option<Dec>,
) -> Balance {
    Balance {
        currency: "USDT".to_string(),
        balance: available,
        locked,
        avg_buy_price: Dec::zero(),
        unit_currency: "USDT".to_string(),
        equity,
        unrealised_pnl,
    }
}

#[test]
fn test_snapshot_msg_variants() {
    let periodic = SnapshotMsg::Periodic;
    let entry = SnapshotMsg::PositionEntry { position_id: 42 };
    let exit = SnapshotMsg::PositionExit { position_id: 99 };
    let shutdown = SnapshotMsg::Shutdown;

    assert!(matches!(periodic, SnapshotMsg::Periodic));
    assert!(matches!(entry, SnapshotMsg::PositionEntry { position_id: 42 }));
    assert!(matches!(exit, SnapshotMsg::PositionExit { position_id: 99 }));
    assert!(matches!(shutdown, SnapshotMsg::Shutdown));
}

#[test]
fn test_balance_snapshot_sender_skip_invalid_position_id() {
    let (tx, mut rx) = mpsc::channel(32);
    let sender = BalanceSnapshotSender::new(tx);

    sender.on_position_entry(0);
    sender.on_position_exit(0);

    sender.on_position_entry(-1);
    sender.on_position_exit(-1);

    assert!(rx.try_recv().is_err());

    sender.on_position_entry(1);
    sender.on_position_exit(2);

    let msg1 = rx.try_recv().unwrap();
    assert!(matches!(msg1, SnapshotMsg::PositionEntry { position_id: 1 }));

    let msg2 = rx.try_recv().unwrap();
    assert!(matches!(msg2, SnapshotMsg::PositionExit { position_id: 2 }));
}

#[test]
fn test_build_upbit_row_dust_filter() {
    // KRW + BTC (passes the filter) + DOGE (5 * 100 = 500 < 1000, filtered)
    let balances = vec![
        make_krw_balance(1_000_000, 50_000),
        make_coin_balance("BTC", Dec::new(1, 3), Dec::zero(), Dec::new(95_000_000, 0)),
        make_coin_balance("DOGE", Dec::new(5, 0), Dec::zero(), Dec::new(100, 0)),
    ];

    let coin_holdings = upbit_holdings(&balances);

    assert_eq!(coin_holdings.len(), 1);
    assert_eq!(coin_holdings[0].0, "BTC");
    assert_eq!(coin_holdings[0].1, Dec::new(1, 3));
}

#[test]
fn test_build_bybit_row_equity_direct() {
    let balances = vec![make_usdt_balance(
        Dec::new(3000, 0),
        Dec::new(500, 0),
        Some(Dec::new(5050, 0)),
        Some(Dec::new(-50, 0)),
    )];

    let row = bybit_row(&balances).unwrap();
    assert_eq!(row.cex, "BYBIT");
    assert_eq!(row.currency, "USDT");
    // total is the equity itself (3000 + 500 - 50 = 3450 != 5050)
    assert_eq!(row.amounts.total, Dec::new(5050, 0));
    assert_eq!(row.amounts.available, Dec::new(3000, 0));
    assert_eq!(row.amounts.locked, Dec::new(500, 0));
    assert_eq!(row.amounts.coin_value, Dec::new(-50, 0));
    // USDT counted as USD
    assert_eq!(row.total_usd, Dec::new(5050, 0).round_dp(8));
    assert_eq!(row.total_usdt, Dec::new(5050, 0).round_dp(8));
}

#[test]
fn test_bybit_row_equity_none_fallback() {
    let balances = vec![make_usdt_balance(Dec::new(3000, 0), Dec::new(500, 0), None, None)];

    let (row, _) = bybit_row_amounts(&balances).unwrap();
    // total = balance + coin_value = 3000 + 0
    assert_eq!(row.total, Dec::new(3000, 0));
    assert_eq!(row.coin_value, Dec::zero());
}

#[test]
fn test_partial_snapshot_bybit_no_usdt() {
    let balances = vec![Balance {
        currency: "BTC".to_string(),
        balance: Dec::new(1, 2),
        locked: Dec::zero(),
        avg_buy_price: Dec::zero(),
        unit_currency: "USDT".to_string(),
        equity: None,
        unrealised_pnl: None,
    }];

    assert!(bybit_row_amounts(&balances).is_none());
}

#[test]
fn test_bybit_row_position_id() {
    let (record_type, position_id) = snapshot_record(&SnapshotMsg::PositionEntry { position_id: 42 });
    assert_eq!(record_type, "POS_ENT");
    assert_eq!(position_id, Some(42));
}

#[test]
fn test_balance_snapshot_sender_clone() {
    let (tx, _rx) = mpsc::channel(32);
    let sender = BalanceSnapshotSender::new(tx);
    let _cloned = sender.clone();
}

#[test]
fn test_snapshot_msg_debug() {
    let msg = SnapshotMsg::PositionEntry { position_id: 42 };
    let debug_str = format!("{:?}", msg);
    assert!(debug_str.contains("PositionEntry"));
    assert!(debug_str.contains("42"));
}

#[test]
fn test_dust_filter_avg_buy_price_zero() {
    // airdropped coin with zero average buy price is always dust
    let balances = vec![
        make_krw_balance(1_000_000, 0),
        make_coin_balance("AIRDROP", Dec::new(100, 0), Dec::zero(), Dec::zero()),
    ];

    let coin_holdings = upbit_holdings(&balances);

    assert!(coin_holdings.is_empty());
}

#[test]
fn test_on_position_entry_returns_false_on_success() {
    let (tx, _rx) = mpsc::channel(32);
    let sender = BalanceSnapshotSender::new(tx);
    assert!(!sender.on_position_entry(1).0);
}

#[test]
fn test_on_position_entry_returns_true_on_full_channel() {
    let (tx, _rx) = mpsc::channel(1);
    let sender = BalanceSnapshotSender::new(tx);

    assert!(!sender.on_position_entry(1).0);
    assert!(sender.on_position_entry(2).0);
}

#[test]
fn test_on_position_exit_returns_false_on_success() {
    let (tx, _rx) = mpsc::channel(32);
    let sender = BalanceSnapshotSender::new(tx);
    assert!(!sender.on_position_exit(1).0);
}

#[test]
fn test_on_position_exit_returns_true_on_full_channel() {
    let (tx, _rx) = mpsc::channel(1);
    let sender = BalanceSnapshotSender::new(tx);

    assert!(!sender.on_position_exit(1).0);
    assert!(sender.on_position_exit(2).0);
}

#[test]
fn test_on_position_entry_skip_returns_false() {
    let (tx, _rx) = mpsc::channel(1);
    let sender = BalanceSnapshotSender::new(tx);
    assert!(!sender.on_position_entry(0).0);
    assert!(!sender.on_position_entry(-1).0);
}

#[test]
fn record_types_of_messages() {
    assert_eq!(snapshot_record(&SnapshotMsg::Periodic), ("PERIODIC".to_string(), None));
    assert_eq!(snapshot_record(&SnapshotMsg::Shutdown), ("PERIODIC".to_string(), None));
    assert_eq!(
        snapshot_record(&SnapshotMsg::PositionExit { position_id: 7 }),
        ("POS_EXT".to_string(), Some(7))
    );
}

#[test]
fn messages_only_for_stored_positions() {
    assert!(position_entry_message(0).is_none());
    assert!(matches!(position_entry_message(3), Some(SnapshotMsg::PositionEntry { position_id: 3 })));
    assert!(position_exit_message(-5).is_none());
    assert!(matches!(position_exit_message(8), Some(SnapshotMsg::PositionExit { position_id: 8 })));
}

#[test]
fn holdings_count_locked_coins() {
    // 0.0005 free + 0.0005 locked at 95,000,000 = 95,000 KRW
    let balances = vec![make_coin_balance(
        "BTC",
        Dec::new(5, 4),
        Dec::new(5, 4),
        Dec::new(95_000_000, 0),
    )];
    let h = upbit_holdings(&balances);
    assert_eq!(h.len(), 1);
    assert_eq!(h[0].1, Dec::new(1, 3));
}

#[test]
fn dust_threshold_is_inclusive() {
    // exactly 1000 KRW is kept
    let balances = vec![make_coin_balance("XRP", Dec::new(10, 0), Dec::zero(), Dec::new(100, 0))];
    assert_eq!(upbit_holdings(&balances).len(), 1);
}

#[test]
fn upbit_amounts_sum_krw_and_coins() {
    let balances = vec![
        make_krw_balance(1_000_000, 50_000),
        make_coin_balance("BTC", Dec::new(1, 3), Dec::zero(), Dec::new(95_000_000, 0)),
        make_coin_balance("ETH", Dec::new(2, 0), Dec::zero(), Dec::new(4_000_000, 0)),
    ];
    let holdings = upbit_holdings(&balances);
    let mut prices = StrMap::new();
    prices.insert("BTC".to_string(), Dec::new(96_000_000, 0));
    // ETH has no price: left out of the coin value
    let coin_value = upbit_coin_value(&holdings, &prices);
    assert_eq!(coin_value, Dec::new(96_000, 0));
    let row = upbit_row_amounts(&balances, coin_value).unwrap();
    assert_eq!(row.available, Dec::new(1_000_000, 0));
    assert_eq!(row.locked, Dec::new(50_000, 0));
    assert_eq!(row.total, Dec::new(1_146_000, 0));
}

#[test]
fn upbit_amounts_need_krw() {
    let balances = vec![make_coin_balance("BTC", Dec::new(1, 0), Dec::zero(), Dec::new(1, 0))];
    assert!(upbit_row_amounts(&balances, Dec::zero()).is_none());
}

#[test]
fn bybit_total_rounded_to_eight_places() {
    let balances = vec![make_usdt_balance(
        Dec::zero(),
        Dec::zero(),
        Some(Dec::new(1234567890123, 10)), // 123.4567890123
        None,
    )];
    let (row, total_usd) = bybit_row_amounts(&balances).unwrap();
    assert_eq!(row.total, Dec::new(1234567890123, 10));
    assert_eq!(total_usd, Dec::new(12345678901, 8));
    assert_eq!(total_usd.scale(), 8);
}

#[test]
fn first_matching_currency_is_used() {
    let balances = vec![
        make_usdt_balance(Dec::new(1, 0), Dec::zero(), Some(Dec::new(1, 0)), None),
        make_usdt_balance(Dec::new(2, 0), Dec::zero(), Some(Dec::new(2, 0)), None),
    ];
    assert_eq!(find_currency(&balances, "USDT"), Some(0));
    assert_eq!(bybit_row_amounts(&balances).unwrap().0.total, Dec::new(1, 0));
}

fn coins(names: &[&str]) -> Vec<String> {
    names.iter().map(|n| n.to_string()).collect()
}

#[test]
fn ticker_cache_empty_needs_every_coin() {
    let cache = TickerCache::new();
    let (found, need) = cache.lookup(&coins(&["BTC", "ETH"]), 5_000);
    assert!(found.is_empty());
    assert_eq!(need, coins(&["BTC", "ETH"]));
}

#[test]
fn ticker_cache_fresh_price_is_found() {
    let mut cache = TickerCache::new();
    let mut prices: StrMap<Dec> = StrMap::new();
    cache.record_fetched(
        &mut prices,
        &[("KRW-BTC".to_string(), Dec::new(100_000_000, 0))],
        10_000,
    );
    assert_eq!(prices.get("BTC"), Some(&Dec::new(100_000_000, 0)));
    let (found, need) = cache.lookup(&coins(&["BTC", "ETH"]), 10_999);
    assert_eq!(found.get("BTC"), Some(&Dec::new(100_000_000, 0)));
    assert_eq!(found.len(), 1);
    assert_eq!(need, coins(&["ETH"]));
}

#[test]
fn ticker_cache_price_goes_stale_after_ttl() {
    let mut cache = TickerCache::new();
    let mut prices: StrMap<Dec> = StrMap::new();
    cache.record_fetched(&mut prices, &[("KRW-BTC".to_string(), Dec::new(5, 0))], 10_000);
    let (found, need) = cache.lookup(&coins(&["BTC"]), 11_000);
    assert!(found.is_empty());
    assert_eq!(need, coins(&["BTC"]));
}

#[test]
fn ticker_cache_custom_ttl() {
    let mut cache = TickerCache::with_ttl(5_000);
    let mut prices: StrMap<Dec> = StrMap::new();
    cache.record_fetched(&mut prices, &[("KRW-XRP".to_string(), Dec::new(800, 0))], 0);
    let (found, need) = cache.lookup(&coins(&["XRP"]), 4_999);
    assert_eq!(found.get("XRP"), Some(&Dec::new(800, 0)));
    assert!(need.is_empty());
    let (found, _) = cache.lookup(&coins(&["XRP"]), 5_000);
    assert!(found.is_empty());
}

#[test]
fn ticker_cache_ignores_other_markets() {
    let mut cache = TickerCache::new();
    let mut prices: StrMap<Dec> = StrMap::new();
    cache.record_fetched(
        &mut prices,
        &[
            ("BTC-ETH".to_string(), Dec::new(3, 2)),
            ("KRW-ETH".to_string(), Dec::new(4_000_000, 0)),
        ],
        0,
    );
    assert_eq!(prices.len(), 1);
    assert_eq!(prices.get("ETH"), Some(&Dec::new(4_000_000, 0)));
    assert_eq!(prices.get("BTC-ETH"), None);
}

#[test]
fn ticker_cache_stale_prices_fill_in_after_failed_fetch() {
    let mut cache = TickerCache::new();
    let mut prices: StrMap<Dec> = StrMap::new();
    cache.record_fetched(&mut prices, &[("KRW-SOL".to_string(), Dec::new(200_000, 0))], 0);
    let (mut found, need) = cache.lookup(&coins(&["SOL", "ADA"]), 60_000);
    assert!(found.is_empty());
    cache.add_stale(&mut found, &need);
    assert_eq!(found.get("SOL"), Some(&Dec::new(200_000, 0)));
    assert_eq!(found.get("ADA"), None);
}

#[test]
fn upbit_exactness_tests() {
    let balances = vec![
        make_krw_balance(1_000_000, 50_000),
        make_coin_balance("BTC", Dec::new(1, 3), Dec::zero(), Dec::new(95_000_000, 0)),
    ];
    assert!(holdings_are_computable(&balances));
    let holdings = upbit_holdings(&balances);
    let mut prices: StrMap<Dec> = StrMap::new();
    prices.insert("BTC".to_string(), Dec::new(100_000_000, 0));
    assert!(coin_value_is_computable(&holdings, &prices));
    let cv = upbit_coin_value(&holdings, &prices);
    assert_eq!(cv, Dec::new(100_000, 0));
    assert!(upbit_total_is_computable(&balances, &cv));
    let huge = Dec::from_i128_with_scale(79_228_162_514_264_337_593_543_950_335, 0);
    let big = vec![make_coin_balance("X", huge, huge, Dec::new(1, 0))];
    assert!(!holdings_are_computable(&big));
}

#[test]
fn position_requests_report_what_was_sent() {
    let (tx, mut rx) = mpsc::channel(32);
    let sender = BalanceSnapshotSender::new(tx);
    let (dropped, sent) = sender.on_position_entry(7);
    assert!(!dropped);
    assert!(matches!(sent, Some(SnapshotMsg::PositionEntry { position_id: 7 })));
    let (dropped, sent) = sender.on_position_exit(8);
    assert!(!dropped);
    assert!(matches!(sent, Some(SnapshotMsg::PositionExit { position_id: 8 })));
    assert!(sender.on_position_exit(0).1.is_none());
    assert!(matches!(rx.try_recv().unwrap(), SnapshotMsg::PositionEntry { position_id: 7 }));
    assert!(matches!(rx.try_recv().unwrap(), SnapshotMsg::PositionExit { position_id: 8 }));
}
