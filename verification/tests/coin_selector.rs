use arb_strategy::coin_selector::{is_stablecoin_name, volume_prefilter, TickerVolume};
use arb_strategy::decimal::Dec;

fn t(market: &str, volume: i64) -> TickerVolume {
    TickerVolume { market: market.to_string(), acc_trade_price_24h: Dec::new(volume, 0) }
}

#[test]
fn stablecoins() {
    for c in ["USDT", "USDC", "DAI", "TUSD", "BUSD", "FDUSD", "PYUSD", "UST"] {
        assert!(is_stablecoin_name(&c.to_string()));
    }
    assert!(!is_stablecoin_name(&"BTC".to_string()));
}

#[test]
fn prefilter_keeps_upper_half_by_smaller_volume() {
    let upbit = vec![t("KRW-BTC", 400), t("KRW-ETH", 300), t("KRW-XRP", 200), t("KRW-SOL", 100)];
    let bybit = vec![t("BTCUSDT", 1000), t("ETHUSDT", 50), t("XRPUSDT", 500), t("SOLUSDT", 900)];
    // smaller volumes: BTC 400, ETH 50, XRP 200, SOL 100 -> upper half,
    // ascending: XRP, BTC
    let kept = volume_prefilter(&upbit, &bybit, &[]);
    assert_eq!(kept, vec!["XRP".to_string(), "BTC".to_string()]);
}

#[test]
fn prefilter_excludes_stablecoins_blacklist_and_single_listings() {
    let upbit = vec![
        t("KRW-BTC", 400),
        t("KRW-USDT", 900),
        t("KRW-DOGE", 800),
        t("KRW-ONLY", 700),
        t("BTC-ETH", 600),
    ];
    let bybit = vec![t("BTCUSDT", 400), t("USDTUSDT", 900), t("DOGEUSDT", 800), t("ETHUSDT", 600)];
    // DOGE blacklisted in lower case; ONLY is not on Bybit; BTC-ETH is no KRW market
    let kept = volume_prefilter(&upbit, &bybit, &["doge".to_string()]);
    assert_eq!(kept, vec!["BTC".to_string()]);
}

#[test]
fn prefilter_odd_count_keeps_larger_half() {
    let upbit = vec![t("KRW-A", 1), t("KRW-B", 2), t("KRW-C", 3)];
    let bybit = vec![t("AUSDT", 1), t("BUSDT", 2), t("CUSDT", 3)];
    // cutoff 3 / 2 = 1: B and C kept
    assert_eq!(volume_prefilter(&upbit, &bybit, &[]), vec!["B".to_string(), "C".to_string()]);
}

#[test]
fn prefilter_ties_keep_later_candidates() {
    let upbit = vec![t("KRW-A", 5), t("KRW-B", 5)];
    let bybit = vec![t("AUSDT", 5), t("BUSDT", 5)];
    // a stable sort keeps A before B, so B is in the upper half
    assert_eq!(volume_prefilter(&upbit, &bybit, &[]), vec!["B".to_string()]);
}

#[test]
fn prefilter_empty() {
    assert!(volume_prefilter(&[], &[], &[]).is_empty());
}

#[test]
fn prefilter_keeps_n_minus_half_with_all_ties() {
    let names = ["A", "B", "C", "D", "E", "F", "G"];
    let upbit: Vec<TickerVolume> = names.iter().map(|n| t(&format!("KRW-{n}"), 7)).collect();
    let bybit: Vec<TickerVolume> = names.iter().map(|n| t(&format!("{n}USDT"), 7)).collect();
    // 7 candidates, 7 / 2 = 3 dropped, 4 kept: the last four by the stable order
    let kept = volume_prefilter(&upbit, &bybit, &[]);
    assert_eq!(kept.len(), 4);
    assert_eq!(kept, vec!["D".to_string(), "E".to_string(), "F".to_string(), "G".to_string()]);
}
