use arb_strategy::decimal::Dec;
use arb_strategy::orderbook::{
    usable_book_levels, BookLevel, ComputingFlags, Exchange, ObCacheData, OrderBook,
    OrderBookCache,
};

/// An order book with integer prices and sizes.
fn make_orderbook(asks: Vec<(i64, i64)>, bids: Vec<(i64, i64)>) -> OrderBook {
    OrderBook {
        market: "TEST".to_string(),
        asks: asks
            .into_iter()
            .map(|(p, s)| BookLevel { price: Dec::new(p, 0), size: Dec::new(s, 0) })
            .collect(),
        bids: bids
            .into_iter()
            .map(|(p, s)| BookLevel { price: Dec::new(p, 0), size: Dec::new(s, 0) })
            .collect(),
        total_ask_size: Dec::zero(),
        total_bid_size: Dec::zero(),
        timestamp_ms: 0,
    }
}

const NOW: u64 = 50_000;

#[test]
fn test_cache_basic_operations() {
    let mut cache = OrderBookCache::new();
    let ob = make_orderbook(vec![(100, 10)], vec![(99, 10)]);

    assert!(cache.get(Exchange::Upbit, "BTC").is_none());
    assert!(!cache.is_fresh(Exchange::Upbit, "BTC", 5, NOW));

    cache.update(Exchange::Upbit, "BTC", ob, NOW);
    assert!(cache.get(Exchange::Upbit, "BTC").is_some());
    assert!(cache.is_fresh(Exchange::Upbit, "BTC", 5, NOW));

    assert!(cache.get(Exchange::Bybit, "BTC").is_none());
}

#[test]
fn test_computing_flag() {
    let mut cache = OrderBookCache::new();

    assert!(!cache.is_computing(Exchange::Upbit, "BTC"));

    cache.set_computing(Exchange::Upbit, "BTC", true);
    assert!(cache.is_computing(Exchange::Upbit, "BTC"));

    assert!(!cache.is_computing(Exchange::Bybit, "BTC"));
    assert!(!cache.is_computing(Exchange::Upbit, "ETH"));

    cache.set_computing(Exchange::Upbit, "BTC", false);
    assert!(!cache.is_computing(Exchange::Upbit, "BTC"));
}

#[test]
fn test_cache_default() {
    let cache = OrderBookCache::default();
    assert!(cache.get(Exchange::Upbit, "BTC").is_none());
    assert!(!cache.is_computing(Exchange::Upbit, "BTC"));
}

#[test]
fn test_ob_cache_data_basic_operations() {
    let mut data = ObCacheData::new();
    let ob = make_orderbook(vec![(100, 10)], vec![(99, 10)]);

    assert!(data.get(Exchange::Upbit, "BTC").is_none());
    assert!(!data.is_fresh(Exchange::Upbit, "BTC", 5, NOW));

    data.update(Exchange::Upbit, "BTC", ob, NOW);
    assert!(data.get(Exchange::Upbit, "BTC").is_some());
    assert!(data.is_fresh(Exchange::Upbit, "BTC", 5, NOW));

    assert!(data.get(Exchange::Bybit, "BTC").is_none());
}

#[test]
fn test_ob_cache_data_default() {
    let data = ObCacheData::default();
    assert!(data.get(Exchange::Upbit, "BTC").is_none());
    assert!(data.get(Exchange::Bybit, "ETH").is_none());
}

#[test]
fn test_ob_cache_data_multiple_coins() {
    let mut data = ObCacheData::new();
    let ob1 = make_orderbook(vec![(100, 10)], vec![(99, 10)]);
    let ob2 = make_orderbook(vec![(200, 20)], vec![(199, 20)]);

    data.update(Exchange::Upbit, "BTC", ob1, NOW);
    data.update(Exchange::Bybit, "ETH", ob2, NOW);

    assert!(data.get(Exchange::Upbit, "BTC").is_some());
    assert!(data.get(Exchange::Bybit, "ETH").is_some());
    assert!(data.get(Exchange::Upbit, "ETH").is_none());
    assert!(data.get(Exchange::Bybit, "BTC").is_none());
}

#[test]
fn test_computing_flag_try_set_atomic() {
    let mut flags = ComputingFlags::new();

    assert!(!flags.is_computing(Exchange::Upbit, "BTC"));

    // first check-and-set succeeds (returns false)
    assert!(!flags.try_set_computing(Exchange::Upbit, "BTC"));
    assert!(flags.is_computing(Exchange::Upbit, "BTC"));

    // second one is refused (returns true)
    assert!(flags.try_set_computing(Exchange::Upbit, "BTC"));

    assert!(!flags.try_set_computing(Exchange::Bybit, "BTC"));
    assert!(!flags.try_set_computing(Exchange::Upbit, "ETH"));
}

#[test]
fn test_computing_flag_clear() {
    let mut flags = ComputingFlags::new();

    assert!(!flags.try_set_computing(Exchange::Upbit, "BTC"));
    assert!(flags.is_computing(Exchange::Upbit, "BTC"));

    flags.clear_computing(Exchange::Upbit, "BTC");
    assert!(!flags.is_computing(Exchange::Upbit, "BTC"));

    assert!(!flags.try_set_computing(Exchange::Upbit, "BTC"));
    assert!(flags.is_computing(Exchange::Upbit, "BTC"));
}

#[test]
fn test_computing_flag_clear_without_set() {
    let mut flags = ComputingFlags::new();
    flags.clear_computing(Exchange::Upbit, "BTC");
    assert!(!flags.is_computing(Exchange::Upbit, "BTC"));
}

#[test]
fn test_computing_flags_default() {
    let flags = ComputingFlags::default();
    assert!(!flags.is_computing(Exchange::Upbit, "BTC"));
}

#[test]
fn freshness_counts_whole_seconds() {
    let mut data = ObCacheData::new();
    data.update(Exchange::Bybit, "SOL", make_orderbook(vec![], vec![]), 10_000);
    // 4.999 s later: 4 whole seconds
    assert!(data.is_fresh(Exchange::Bybit, "SOL", 5, 14_999));
    // 5 s later: not younger than 5 s
    assert!(!data.is_fresh(Exchange::Bybit, "SOL", 5, 15_000));
    // a clock reading before the fetch counts as no time elapsed
    assert!(data.is_fresh(Exchange::Bybit, "SOL", 1, 9_000));
}

#[test]
fn remove_coin_clears_both_exchanges() {
    let mut data = ObCacheData::new();
    data.update(Exchange::Upbit, "XRP", make_orderbook(vec![(1, 1)], vec![]), NOW);
    data.update(Exchange::Bybit, "XRP", make_orderbook(vec![(1, 1)], vec![]), NOW);
    data.update(Exchange::Bybit, "BTC", make_orderbook(vec![(1, 1)], vec![]), NOW);
    data.remove_coin("XRP");
    assert!(data.get(Exchange::Upbit, "XRP").is_none());
    assert!(data.get(Exchange::Bybit, "XRP").is_none());
    assert!(data.get(Exchange::Bybit, "BTC").is_some());

    let mut flags = ComputingFlags::new();
    flags.try_set_computing(Exchange::Upbit, "XRP");
    flags.try_set_computing(Exchange::Bybit, "XRP");
    flags.remove_coin("XRP");
    assert!(!flags.is_computing(Exchange::Upbit, "XRP"));
    assert!(!flags.is_computing(Exchange::Bybit, "XRP"));
}

#[test]
fn update_replaces_snapshot() {
    let mut data = ObCacheData::new();
    data.update(Exchange::Upbit, "BTC", make_orderbook(vec![(100, 1)], vec![]), NOW);
    data.update(Exchange::Upbit, "BTC", make_orderbook(vec![(101, 2)], vec![]), NOW + 1);
    let cached = data.get(Exchange::Upbit, "BTC").unwrap();
    assert_eq!(cached.orderbook.asks[0].price, Dec::new(101, 0));
    assert_eq!(cached.fetched_at_ms, NOW + 1);
}

#[test]
fn usable_levels_drop_non_positive() {
    let ob = make_orderbook(vec![(100, 10), (0, 5), (101, 20), (102, -1)], vec![(99, 15), (98, 25)]);
    let asks = usable_book_levels(&ob, true);
    assert_eq!(asks.len(), 2);
    assert_eq!(asks[0].price, Dec::new(100, 0));
    assert_eq!(asks[1].size, Dec::new(20, 0));
    let bids = usable_book_levels(&ob, false);
    assert_eq!(bids.len(), 2);
    assert_eq!(bids[1].price, Dec::new(98, 0));
}

#[test]
fn claim_refuses_while_either_side_computes() {
    let mut flags = ComputingFlags::new();
    assert!(flags.try_claim(Exchange::Upbit, "BTC"));
    assert!(flags.is_computing(Exchange::Upbit, "BTC"));
    // the same coin from either exchange is refused
    assert!(!flags.try_claim(Exchange::Upbit, "BTC"));
    assert!(!flags.try_claim(Exchange::Bybit, "BTC"));
    // the refused claim from Bybit left no flag behind
    assert!(!flags.is_computing(Exchange::Bybit, "BTC"));
    // another coin is free
    assert!(flags.try_claim(Exchange::Bybit, "ETH"));
    flags.clear_computing(Exchange::Upbit, "BTC");
    assert!(flags.try_claim(Exchange::Bybit, "BTC"));
}
