use arb_strategy::decimal::Dec;
use arb_strategy::instrument::InstrumentInfo;
use arb_strategy::keyed::StrMap;
use arb_strategy::monitor_core::{
    below_min_position, diff_coins, drop_time_updates, split_by_position, entry_order_quantity, entry_raw_quantity,
    meets_order_limits, select_by_stddev, truncate_to_minute, ttl_action, MinuteCandleBuilder,
    TtlAction,
};

/// 2026-02-06 10:00:12.345 UTC.
const TS: i64 = 1_770_372_012_345;

fn names(v: &[&str]) -> Vec<String> {
    v.iter().map(|s| s.to_string()).collect()
}

#[test]
fn test_candle_builder_new_minute() {
    let builder = MinuteCandleBuilder::new();
    assert!(builder.is_new_minute(TS));
}

#[test]
fn test_candle_builder_same_minute() {
    let mut builder = MinuteCandleBuilder::new();
    builder.start_new_minute(TS);

    let same_minute = truncate_to_minute(TS);
    assert!(!builder.is_new_minute(same_minute));
}

#[test]
fn test_candle_builder_on_upbit_trade() {
    let mut builder = MinuteCandleBuilder::new();
    builder.on_upbit_trade("KRW-BTC", Dec::new(138_000_000, 0));
    // KRW-USDT is left to the forex cache
    builder.on_upbit_trade("KRW-USDT", Dec::new(1380, 0));

    assert_eq!(builder.upbit_last_trade.get("BTC"), Some(&Dec::new(138_000_000, 0)));
    assert!(!builder.upbit_last_trade.contains_key("USDT"));
}

#[test]
fn test_candle_builder_on_bybit_quote() {
    let mut builder = MinuteCandleBuilder::new();
    builder.on_bybit_best_quote("BTCUSDT", Dec::new(100_050, 0));

    assert_eq!(builder.bybit_last_bid.get("BTC"), Some(&Dec::new(100_050, 0)));
}

#[test]
fn test_candle_builder_finalize() {
    let mut builder = MinuteCandleBuilder::new();
    builder.on_upbit_trade("KRW-BTC", Dec::new(138_000_000, 0));
    builder.on_bybit_best_quote("BTCUSDT", Dec::new(100_050, 0));

    let coins = vec!["BTC".to_string()];
    let (upbit, bybit) = builder.finalize_minute(&coins);

    assert_eq!(upbit.get("BTC"), Some(&Some(Dec::new(138_000_000, 0))));
    assert_eq!(bybit.get("BTC"), Some(&Some(Dec::new(100_050, 0))));

    assert!(builder.upbit_last_trade.is_empty());
    assert!(builder.bybit_last_bid.is_empty());
}

#[test]
fn test_candle_builder_start_new_minute() {
    let mut builder = MinuteCandleBuilder::new();

    builder.on_upbit_trade("KRW-BTC", Dec::new(138_000_000, 0));
    builder.on_bybit_best_quote("BTCUSDT", Dec::new(100_050, 0));

    builder.start_new_minute(TS);

    assert!(builder.upbit_last_trade.is_empty());
    assert!(builder.bybit_last_bid.is_empty());
    assert!(builder.current_minute.is_some());
}

#[test]
fn test_candle_builder_krw_usdt_ignored() {
    let mut builder = MinuteCandleBuilder::new();
    builder.on_upbit_trade("KRW-USDT", Dec::new(1380, 0));
    assert!(builder.upbit_last_trade.is_empty());
}

#[test]
fn test_diff_coins_with_position() {
    // XRP has an open position
    let held = names(&["XRP"]);
    let current = names(&["BTC", "ETH", "XRP", "DOGE"]);
    let new_candidates = names(&["BTC", "ETH", "AVAX"]);

    let diff = diff_coins(&current, &new_candidates, &held);

    assert!(diff.to_add.contains(&"AVAX".to_string()));
    assert!(diff.to_remove.contains(&"DOGE".to_string()));
    assert!(diff.to_keep_with_position.contains(&"XRP".to_string()));

    assert!(!diff.to_add.contains(&"BTC".to_string()));
    assert!(!diff.to_add.contains(&"ETH".to_string()));
    assert!(!diff.to_remove.contains(&"BTC".to_string()));
    assert!(!diff.to_remove.contains(&"ETH".to_string()));
}

#[test]
fn test_diff_coins_without_position() {
    let current = names(&["BTC", "ETH"]);
    let new_candidates = names(&["SOL"]);

    let diff = diff_coins(&current, &new_candidates, &[]);

    assert!(diff.to_add.contains(&"SOL".to_string()));
    assert!(diff.to_remove.contains(&"BTC".to_string()));
    assert!(diff.to_remove.contains(&"ETH".to_string()));
    assert!(diff.to_keep_with_position.is_empty());
}

#[test]
fn test_diff_coins_no_change() {
    let current = names(&["BTC", "ETH"]);
    let new_candidates = names(&["BTC", "ETH"]);

    let diff = diff_coins(&current, &new_candidates, &[]);

    assert!(diff.to_add.is_empty());
    assert!(diff.to_remove.is_empty());
    assert!(diff.to_keep_with_position.is_empty());
}

#[test]
fn test_diff_coins_empty_new_candidates() {
    let current = names(&["BTC", "ETH"]);
    let new_candidates: Vec<String> = vec![];

    let diff = diff_coins(&current, &new_candidates, &[]);

    assert!(diff.to_add.is_empty());
    assert_eq!(diff.to_remove.len(), 2);
    assert!(diff.to_keep_with_position.is_empty());
}

#[test]
fn test_diff_coins_empty_current() {
    let current: Vec<String> = vec![];
    let new_candidates = names(&["BTC", "ETH"]);

    let diff = diff_coins(&current, &new_candidates, &[]);

    assert_eq!(diff.to_add.len(), 2);
    assert!(diff.to_remove.is_empty());
    assert!(diff.to_keep_with_position.is_empty());
}

#[test]
fn diff_lists_each_coin_once() {
    let current = names(&["BTC", "BTC", "DOGE", "DOGE"]);
    let new_candidates = names(&["SOL", "SOL"]);
    let diff = diff_coins(&current, &new_candidates, &[]);
    assert_eq!(diff.to_add, names(&["SOL"]));
    assert_eq!(diff.to_remove, names(&["BTC", "DOGE"]));
}

#[test]
fn truncate_floors_to_the_minute() {
    assert_eq!(truncate_to_minute(TS), 1_770_372_000_000);
    assert_eq!(truncate_to_minute(60_000), 60_000);
    // before the epoch the minute starts earlier, not later
    assert_eq!(truncate_to_minute(-1), -60_000);
}

#[test]
fn later_minute_is_new() {
    let mut builder = MinuteCandleBuilder::new();
    builder.start_new_minute(TS);
    assert!(!builder.is_new_minute(TS + 10_000));
    assert!(builder.is_new_minute(TS + 60_000));
    assert!(!builder.is_new_minute(TS - 60_000));
}

#[test]
fn finalize_without_price_gives_none_and_keeps_others() {
    let mut builder = MinuteCandleBuilder::new();
    builder.on_upbit_trade("KRW-ETH", Dec::new(5_000_000, 0));
    builder.on_bybit_best_quote("ETHUSDT", Dec::new(3_500, 0));
    let (upbit, bybit) = builder.finalize_minute(&names(&["BTC"]));
    assert_eq!(upbit.get("BTC"), Some(&None));
    assert_eq!(bybit.get("BTC"), Some(&None));
    // ETH was not finalized and stays
    assert_eq!(builder.upbit_last_trade.get("ETH"), Some(&Dec::new(5_000_000, 0)));
}

#[test]
fn market_codes_outside_the_pairs_are_ignored() {
    let mut builder = MinuteCandleBuilder::new();
    builder.on_upbit_trade("BTC-ETH", Dec::new(1, 0));
    builder.on_bybit_best_quote("BTCUSDC", Dec::new(1, 0));
    assert!(builder.upbit_last_trade.is_empty());
    assert!(builder.bybit_last_bid.is_empty());
}

fn ranked(v: &[(&str, bool)]) -> Vec<(String, bool)> {
    v.iter().map(|(c, b)| (c.to_string(), *b)).collect()
}

#[test]
fn stddev_selection_filters_and_limits() {
    // ascending deviation; C and D beyond the limit
    let r = ranked(&[("A", true), ("B", true), ("C", false), ("D", false)]);
    let (kept, removed) = select_by_stddev(&r, &names(&["X"]), true, 1);
    assert_eq!(kept, names(&["A"]));
    assert_eq!(removed, names(&["X", "B", "C", "D"]));
}

#[test]
fn stddev_selection_fallback_when_none_passes() {
    let r = ranked(&[("A", false), ("B", false), ("C", false)]);
    let (kept, removed) = select_by_stddev(&r, &[], true, 2);
    assert_eq!(kept, names(&["A", "B"]));
    assert_eq!(removed, names(&["C"]));
}

#[test]
fn stddev_selection_disabled_keeps_lowest() {
    let r = ranked(&[("A", false), ("B", true), ("C", true)]);
    let (kept, removed) = select_by_stddev(&r, &names(&["Z"]), false, 5);
    assert_eq!(kept, names(&["A", "B", "C"]));
    assert_eq!(removed, names(&["Z"]));
}

const HOUR: i64 = 3_600_000;

#[test]
fn ttl_keeps_selected_coins() {
    assert_eq!(ttl_action(None, 1_000 * HOUR, 24, 4), TtlAction::Keep);
}

#[test]
fn ttl_stages_after_drop() {
    let dropped = 100 * HOUR;
    assert_eq!(ttl_action(Some(dropped), dropped + 24 * HOUR, 24, 4), TtlAction::Keep);
    assert_eq!(ttl_action(Some(dropped), dropped + 24 * HOUR + 1, 24, 4), TtlAction::Close);
    assert_eq!(ttl_action(Some(dropped), dropped + 28 * HOUR, 24, 4), TtlAction::Close);
    assert_eq!(ttl_action(Some(dropped), dropped + 28 * HOUR + 1, 24, 4), TtlAction::ForceClose);
}

#[test]
fn ttl_drop_in_the_future_keeps() {
    assert_eq!(ttl_action(Some(10 * HOUR), 0, 0, 1), TtlAction::Keep);
}

fn btc_info() -> InstrumentInfo {
    InstrumentInfo {
        tick_size: Dec::new(1, 1),
        qty_step: Dec::new(1, 3),
        min_order_qty: Dec::new(1, 3),
        min_notional: Dec::new(5, 0),
        max_order_qty: Dec::new(100, 0),
    }
}

#[test]
fn entry_quantity_rounds_down_to_step() {
    // 1000 USDT at 30000 -> 0.0333... -> 0.033
    let (qty, ok) =
        entry_order_quantity(Dec::new(1000, 0), Dec::new(30_000, 0), Dec::new(41_000_000, 0), &btc_info())
            .unwrap();
    assert_eq!(qty, Dec::new(33, 3));
    assert!(ok);
}

#[test]
fn entry_quantity_zero_price_gives_zero() {
    assert_eq!(entry_raw_quantity(Dec::new(1000, 0), Dec::zero()), Some(Dec::zero()));
    let (qty, ok) =
        entry_order_quantity(Dec::new(1000, 0), Dec::zero(), Dec::new(100, 0), &btc_info()).unwrap();
    assert!(qty.is_zero());
    assert!(!ok);
}

#[test]
fn entry_quantity_below_step_is_rejected() {
    // 10 USDT at 30000 -> 0.000333 -> 0
    let (qty, ok) =
        entry_order_quantity(Dec::new(10, 0), Dec::new(30_000, 0), Dec::new(41_000_000, 0), &btc_info())
            .unwrap();
    assert!(qty.is_zero());
    assert!(!ok);
}

#[test]
fn entry_quantity_out_of_range_is_none() {
    let huge = Dec::from_i128_with_scale(79_228_162_514_264_337_593_543_950_335, 0);
    assert_eq!(entry_order_quantity(huge, Dec::new(1, 10), Dec::new(1, 0), &btc_info()), None);
}

#[test]
fn order_limits_each_bound() {
    let info = btc_info();
    let price = Dec::new(30_000, 0);
    let krw = Dec::new(41_000_000, 0);
    assert!(meets_order_limits(Dec::new(1, 3), price, krw, &info));
    // below the minimum quantity
    assert!(!meets_order_limits(Dec::new(5, 4), price, krw, &info));
    // above the maximum quantity
    assert!(!meets_order_limits(Dec::new(101, 0), price, krw, &info));
    // notional 0.001 * 1000 = 1 USDT < 5 USDT
    assert!(!meets_order_limits(Dec::new(1, 3), Dec::new(1000, 0), krw, &info));
    // Upbit value 0.001 * 5_000_000 = 5000 KRW < 5100 KRW
    assert!(!meets_order_limits(Dec::new(1, 3), price, Dec::new(5_000_000, 0), &info));
    // exactly 5100 KRW passes
    assert!(meets_order_limits(Dec::new(1, 3), price, Dec::new(5_100_000, 0), &info));
}

#[test]
fn min_position_check() {
    let qty = Dec::new(1, 2);
    let price = Dec::new(1000, 0);
    // 0.01 * 1000 = 10 USDT
    assert!(below_min_position(qty, price, Dec::new(11, 0)));
    assert!(!below_min_position(qty, price, Dec::new(10, 0)));
    assert!(!below_min_position(qty, price, Dec::zero()));
}

#[test]
fn reject_flagged_sorts_coins_by_position() {
    let current = names(&["BTC", "ETH", "XRP", "SOL"]);
    let new = names(&["BTC", "DOGE", "ADA"]);
    let held = names(&["SOL", "ETH"]);
    let mut diff = diff_coins(&current, &new, &held);
    assert_eq!(diff.to_add, names(&["DOGE", "ADA"]));
    assert_eq!(diff.to_remove, names(&["XRP"]));
    assert_eq!(diff.to_keep_with_position, names(&["ETH", "SOL"]));
    // BTC is over the limit without a position, SOL with one (already kept),
    // XRP already removed
    let added = diff.reject_flagged(&names(&["BTC", "SOL", "XRP"]), &held);
    assert_eq!(added, 1);
    assert_eq!(diff.to_remove, names(&["XRP", "BTC"]));
    assert_eq!(diff.to_keep_with_position, names(&["ETH", "SOL"]));
    assert_eq!(diff.to_add, names(&["DOGE", "ADA"]));
}

#[test]
fn reject_flagged_drops_removed_coins_from_additions() {
    let mut diff = diff_coins(&names(&["BTC"]), &names(&["BTC", "ETH"]), &[]);
    assert_eq!(diff.to_add, names(&["ETH"]));
    let added = diff.reject_flagged(&names(&["ETH", "ETH"]), &[]);
    assert_eq!(added, 1);
    assert_eq!(diff.to_remove, names(&["ETH"]));
    assert!(diff.to_add.is_empty());
}

#[test]
fn drop_times_keep_the_first_drop() {
    let mut dropped_at: StrMap<i64> = StrMap::new();
    dropped_at.insert("ETH".to_string(), 1_000);
    let updates = drop_time_updates(&names(&["ETH", "SOL"]), &dropped_at, 5_000);
    assert_eq!(updates.len(), 1);
    assert_eq!(updates.get("SOL"), Some(&5_000));
    assert_eq!(updates.get("ETH"), None);
}

#[test]
fn regime_change_split_by_position() {
    let (now, later) = split_by_position(&names(&["A", "B", "C", "D"]), &names(&["B", "D"]));
    assert_eq!(now, names(&["A", "C"]));
    assert_eq!(later, names(&["B", "D"]));
}

/// The warm-up filter: orders the coins with statistics by their `f64`
/// deviation, flags those within the limit, and lets the library choose.
fn filter_coins_by_stddev(
    coin_stats: &[(String, Option<(f64, f64)>)],
    max_spread_stddev: f64,
    max_coins: usize,
) -> (Vec<String>, Vec<String>) {
    let mut valid: Vec<(String, f64)> = coin_stats
        .iter()
        .filter_map(|(coin, stats)| stats.map(|(_, stddev)| (coin.clone(), stddev)))
        .collect();
    let missing: Vec<String> =
        coin_stats.iter().filter(|(_, s)| s.is_none()).map(|(c, _)| c.clone()).collect();
    valid.sort_by(|a, b| a.1.partial_cmp(&b.1).unwrap_or(std::cmp::Ordering::Equal));
    let ranked: Vec<(String, bool)> =
        valid.into_iter().map(|(c, s)| (c, s <= max_spread_stddev)).collect();
    select_by_stddev(&ranked, &missing, max_spread_stddev != 0.0, max_coins)
}

#[test]
fn test_filter_coins_by_stddev_basic() {
    let coin_stats = vec![
        ("BTC".to_string(), Some((0.0, 0.1))),
        ("ETH".to_string(), Some((0.0, 0.3))),
        ("XRP".to_string(), Some((0.0, 0.6))),
    ];
    let (kept, removed) = filter_coins_by_stddev(&coin_stats, 0.5, 5);
    assert_eq!(kept, vec!["BTC", "ETH"]);
    assert_eq!(removed, vec!["XRP"]);
}

#[test]
fn test_filter_coins_by_stddev_max_coins_limit() {
    let coin_stats = vec![
        ("BTC".to_string(), Some((0.0, 0.1))),
        ("ETH".to_string(), Some((0.0, 0.2))),
        ("XRP".to_string(), Some((0.0, 0.3))),
    ];
    let (kept, removed) = filter_coins_by_stddev(&coin_stats, 0.5, 2);
    assert_eq!(kept, vec!["BTC", "ETH"]);
    assert_eq!(removed, vec!["XRP"]);
}

#[test]
fn test_filter_coins_by_stddev_none_stats_removed() {
    let coin_stats = vec![
        ("BTC".to_string(), Some((0.0, 0.1))),
        ("ETH".to_string(), None),
        ("XRP".to_string(), Some((0.0, 0.2))),
    ];
    let (kept, removed) = filter_coins_by_stddev(&coin_stats, 0.5, 5);
    assert_eq!(kept, vec!["BTC", "XRP"]);
    assert!(removed.contains(&"ETH".to_string()));
}

#[test]
fn test_filter_coins_by_stddev_fallback_all_exceed() {
    let coin_stats = vec![
        ("BTC".to_string(), Some((0.0, 1.0))),
        ("ETH".to_string(), Some((0.0, 2.0))),
        ("XRP".to_string(), Some((0.0, 3.0))),
    ];
    let (kept, removed) = filter_coins_by_stddev(&coin_stats, 0.5, 2);
    assert_eq!(kept, vec!["BTC", "ETH"]);
    assert_eq!(removed, vec!["XRP"]);
}

#[test]
fn test_filter_coins_by_stddev_zero_disables_filter() {
    let coin_stats = vec![
        ("BTC".to_string(), Some((0.0, 5.0))),
        ("ETH".to_string(), Some((0.0, 0.1))),
        ("XRP".to_string(), Some((0.0, 2.0))),
    ];
    let (kept, removed) = filter_coins_by_stddev(&coin_stats, 0.0, 2);
    assert_eq!(kept, vec!["ETH", "XRP"]);
    assert_eq!(removed, vec!["BTC"]);
}

#[test]
fn test_filter_coins_by_stddev_all_none() {
    let coin_stats = vec![("BTC".to_string(), None), ("ETH".to_string(), None)];
    let (kept, removed) = filter_coins_by_stddev(&coin_stats, 0.5, 5);
    assert!(kept.is_empty());
    assert_eq!(removed.len(), 2);
}

#[test]
fn test_filter_coins_by_stddev_sorted_by_stddev() {
    let coin_stats = vec![
        ("C".to_string(), Some((0.0, 0.4))),
        ("A".to_string(), Some((0.0, 0.1))),
        ("B".to_string(), Some((0.0, 0.2))),
    ];
    let (kept, _removed) = filter_coins_by_stddev(&coin_stats, 0.5, 5);
    assert_eq!(kept, vec!["A", "B", "C"]);
}

#[test]
fn test_filter_coins_by_stddev_exact_threshold() {
    let coin_stats = vec![
        ("BTC".to_string(), Some((0.0, 0.5))),
        ("ETH".to_string(), Some((0.0, 0.50001))),
    ];
    let (kept, removed) = filter_coins_by_stddev(&coin_stats, 0.5, 5);
    assert_eq!(kept, vec!["BTC"]);
    assert_eq!(removed, vec!["ETH"]);
}

#[test]
fn entry_quantity_of_a_long_quotient() {
    // 1000 / 300 = 3.3333333333333333333333333333 (scale 28) -> 3.333
    let (qty, ok) =
        entry_order_quantity(Dec::new(1000, 0), Dec::new(300, 0), Dec::new(400_000, 0), &btc_info())
            .unwrap();
    assert_eq!(qty, Dec::new(3333, 3));
    assert!(ok);
}
