use arb_strategy::decimal::Dec;
use arb_strategy::instrument::{
    ceil_to_step, floor_to_step, round_price_conservative, round_qty_floor, upbit_tick_size,
    InstrumentCache, InstrumentInfo,
};

#[test]
fn test_floor_to_step_normal() {
    // 123.456을 0.01 단위로 내림 → 123.45
    let result = floor_to_step(Dec::new(123456, 3), Dec::new(1, 2));
    assert_eq!(result, Dec::new(12345, 2));
}

#[test]
fn test_floor_to_step_exact_multiple() {
    // 0.3은 0.1의 정확한 배수 → 0.3 그대로
    let result = floor_to_step(Dec::new(3, 1), Dec::new(1, 1));
    assert_eq!(result, Dec::new(3, 1));
}

#[test]
fn test_floor_to_step_zero_step() {
    // step=0이면 원본 반환
    let value = Dec::new(42, 0);
    let result = floor_to_step(value, Dec::zero());
    assert_eq!(result, value);
}

#[test]
fn test_floor_to_step_negative_value() {
    // 음수 → ZERO
    let result = floor_to_step(Dec::new(-5, 0), Dec::new(1, 0));
    assert_eq!(result, Dec::zero());
}

#[test]
fn test_floor_to_step_large_value() {
    // 100,000,000을 1000 단위로 → 100,000,000 (정확한 배수)
    let result = floor_to_step(Dec::new(100_000_000, 0), Dec::new(1000, 0));
    assert_eq!(result, Dec::new(100_000_000, 0));
}

#[test]
fn test_floor_to_step_very_small_step() {
    // 0.123456789를 0.00000001 단위로 → 0.12345678
    let result = floor_to_step(Dec::new(123456789, 9), Dec::new(1, 8));
    assert_eq!(result, Dec::new(12345678, 8));
}

#[test]
fn test_floor_to_step_value_less_than_step() {
    // 0.005를 0.01 단위로 → 0.0
    let result = floor_to_step(Dec::new(5, 3), Dec::new(1, 2));
    assert_eq!(result, Dec::zero());
}

#[test]
fn test_floor_to_step_zero_value() {
    // 0을 임의 step으로 → 0
    let result = floor_to_step(Dec::zero(), Dec::new(1, 2));
    assert_eq!(result, Dec::zero());
}

#[test]
fn test_floor_to_step_integer_step() {
    // 12345를 1000 단위로 → 12000
    let result = floor_to_step(Dec::new(12345, 0), Dec::new(1000, 0));
    assert_eq!(result, Dec::new(12000, 0));
}

#[test]
fn test_ceil_to_step_normal() {
    // 123.451을 0.01 단위로 올림 → 123.46
    let result = ceil_to_step(Dec::new(123451, 3), Dec::new(1, 2));
    assert_eq!(result, Dec::new(12346, 2));
}

#[test]
fn test_ceil_to_step_exact_multiple() {
    // 1.0은 0.5의 정확한 배수 → 1.0 그대로
    let result = ceil_to_step(Dec::new(10, 1), Dec::new(5, 1));
    assert_eq!(result, Dec::new(10, 1));
}

#[test]
fn test_ceil_to_step_zero_step() {
    // step=0이면 원본 반환
    let value = Dec::new(42, 0);
    let result = ceil_to_step(value, Dec::zero());
    assert_eq!(result, value);
}

#[test]
fn test_ceil_to_step_negative_value() {
    // 음수 → ZERO
    let result = ceil_to_step(Dec::new(-5, 0), Dec::new(1, 0));
    assert_eq!(result, Dec::zero());
}

#[test]
fn test_ceil_to_step_small_remainder() {
    // 100.001을 0.01 단위로 올림 → 100.01
    let result = ceil_to_step(Dec::new(100001, 3), Dec::new(1, 2));
    assert_eq!(result, Dec::new(10001, 2));
}

#[test]
fn test_ceil_to_step_integer_step() {
    // 12001을 1000 단위로 올림 → 13000
    let result = ceil_to_step(Dec::new(12001, 0), Dec::new(1000, 0));
    assert_eq!(result, Dec::new(13000, 0));
}

#[test]
fn test_ceil_to_step_zero_value() {
    // 0을 임의 step으로 → 0
    let result = ceil_to_step(Dec::zero(), Dec::new(1, 2));
    assert_eq!(result, Dec::zero());
}

#[test]
fn test_upbit_tick_size_2m() {
    // >= 1,000,000 구간 (2M은 이 구간 내)
    assert_eq!(
        upbit_tick_size(Dec::new(2_000_000, 0)),
        Dec::new(1000, 0)
    );
}

#[test]
fn test_upbit_tick_size_1_5m() {
    assert_eq!(
        upbit_tick_size(Dec::new(1_500_000, 0)),
        Dec::new(1000, 0)
    );
}

#[test]
fn test_upbit_tick_size_1m_boundary() {
    // 경계: 정확히 1,000,000 → 1,000
    assert_eq!(
        upbit_tick_size(Dec::new(1_000_000, 0)),
        Dec::new(1000, 0)
    );
}

#[test]
fn test_upbit_tick_size_999999() {
    // 경계 직전: 999,999 → 500
    assert_eq!(
        upbit_tick_size(Dec::new(999_999, 0)),
        Dec::new(500, 0)
    );
}

#[test]
fn test_upbit_tick_size_500k_boundary() {
    assert_eq!(
        upbit_tick_size(Dec::new(500_000, 0)),
        Dec::new(500, 0)
    );
}

#[test]
fn test_upbit_tick_size_499999() {
    assert_eq!(
        upbit_tick_size(Dec::new(499_999, 0)),
        Dec::new(100, 0)
    );
}

#[test]
fn test_upbit_tick_size_100k_boundary() {
    assert_eq!(
        upbit_tick_size(Dec::new(100_000, 0)),
        Dec::new(100, 0)
    );
}

#[test]
fn test_upbit_tick_size_99999() {
    assert_eq!(
        upbit_tick_size(Dec::new(99_999, 0)),
        Dec::new(50, 0)
    );
}

#[test]
fn test_upbit_tick_size_50k_boundary() {
    assert_eq!(
        upbit_tick_size(Dec::new(50_000, 0)),
        Dec::new(50, 0)
    );
}

#[test]
fn test_upbit_tick_size_49999() {
    assert_eq!(
        upbit_tick_size(Dec::new(49_999, 0)),
        Dec::new(10, 0)
    );
}

#[test]
fn test_upbit_tick_size_10k_boundary() {
    assert_eq!(
        upbit_tick_size(Dec::new(10_000, 0)),
        Dec::new(10, 0)
    );
}

#[test]
fn test_upbit_tick_size_9999() {
    assert_eq!(upbit_tick_size(Dec::new(9_999, 0)), Dec::new(5, 0));
}

#[test]
fn test_upbit_tick_size_5k_boundary() {
    assert_eq!(upbit_tick_size(Dec::new(5_000, 0)), Dec::new(5, 0));
}

#[test]
fn test_upbit_tick_size_4999() {
    assert_eq!(upbit_tick_size(Dec::new(4_999, 0)), Dec::new(1, 0));
}

#[test]
fn test_upbit_tick_size_1000_boundary() {
    assert_eq!(upbit_tick_size(Dec::new(1_000, 0)), Dec::new(1, 0));
}

#[test]
fn test_upbit_tick_size_100_boundary() {
    // >= 100 → 호가 단위 1 (1000 구간과 병합)
    assert_eq!(upbit_tick_size(Dec::new(100, 0)), Dec::new(1, 0));
}

#[test]
fn test_upbit_tick_size_99() {
    // < 100 → 0.1
    assert_eq!(upbit_tick_size(Dec::new(99, 0)), Dec::new(1, 1));
}

#[test]
fn test_upbit_tick_size_10_boundary() {
    assert_eq!(upbit_tick_size(Dec::new(10, 0)), Dec::new(1, 1));
}

#[test]
fn test_upbit_tick_size_9() {
    assert_eq!(upbit_tick_size(Dec::new(9, 0)), Dec::new(1, 2));
}

#[test]
fn test_upbit_tick_size_1_boundary() {
    assert_eq!(upbit_tick_size(Dec::new(1, 0)), Dec::new(1, 2));
}

#[test]
fn test_upbit_tick_size_0_9() {
    // 0.9 → 0.001
    assert_eq!(upbit_tick_size(Dec::new(9, 1)), Dec::new(1, 3));
}

#[test]
fn test_upbit_tick_size_0_1_boundary() {
    assert_eq!(upbit_tick_size(Dec::new(1, 1)), Dec::new(1, 3));
}

#[test]
fn test_upbit_tick_size_0_09() {
    // 0.09 → 0.0001
    assert_eq!(upbit_tick_size(Dec::new(9, 2)), Dec::new(1, 4));
}

#[test]
fn test_upbit_tick_size_0_009() {
    // 0.009 → 0.00001
    assert_eq!(upbit_tick_size(Dec::new(9, 3)), Dec::new(1, 5));
}

#[test]
fn test_upbit_tick_size_0_0009() {
    // 0.0009 → 0.000001
    assert_eq!(upbit_tick_size(Dec::new(9, 4)), Dec::new(1, 6));
}

#[test]
fn test_upbit_tick_size_0_00009() {
    // 0.00009 → 0.0000001
    assert_eq!(upbit_tick_size(Dec::new(9, 5)), Dec::new(1, 7));
}

#[test]
fn test_upbit_tick_size_0_000009() {
    // 0.000009 → 0.00000001 (최소 단위)
    assert_eq!(upbit_tick_size(Dec::new(9, 6)), Dec::new(1, 8));
}

#[test]
fn test_upbit_tick_size_very_small() {
    // 0.0000001 → 0.00000001
    assert_eq!(upbit_tick_size(Dec::new(1, 7)), Dec::new(1, 8));
}

#[test]
fn test_round_price_conservative_buy_ceil() {
    // 매수 → 올림 (불리한 방향)
    let price = Dec::new(50123, 1); // 5012.3
    let tick = Dec::new(10, 0); // 10
    let result = round_price_conservative(price, tick, true);
    assert_eq!(result, Dec::new(5020, 0));
}

#[test]
fn test_round_price_conservative_sell_floor() {
    // 매도 → 내림 (불리한 방향)
    let price = Dec::new(50123, 1); // 5012.3
    let tick = Dec::new(10, 0); // 10
    let result = round_price_conservative(price, tick, false);
    assert_eq!(result, Dec::new(5010, 0));
}

#[test]
fn test_round_price_conservative_exact_multiple() {
    // 정확한 배수 → 변경 없음
    let price = Dec::new(5010, 0);
    let tick = Dec::new(10, 0);
    assert_eq!(round_price_conservative(price, tick, true), price);
    assert_eq!(round_price_conservative(price, tick, false), price);
}

#[test]
fn test_round_qty_floor_basic() {
    // floor_to_step과 동일 결과 확인
    let qty = Dec::new(12345, 4); // 1.2345
    let step = Dec::new(1, 2); // 0.01
    assert_eq!(round_qty_floor(qty, step), floor_to_step(qty, step));
}

#[test]
fn test_round_qty_floor_exact() {
    let qty = Dec::new(10, 1); // 1.0
    let step = Dec::new(1, 1); // 0.1
    assert_eq!(round_qty_floor(qty, step), Dec::new(10, 1));
}

#[test]
fn test_round_qty_floor_bybit_style() {
    // Bybit qtyStep=0.001 스타일
    let qty = Dec::new(12345678, 7); // 1.2345678
    let step = Dec::new(1, 3); // 0.001
    assert_eq!(round_qty_floor(qty, step), Dec::new(1234, 3)); // 1.234
}

#[test]
fn test_instrument_cache_insert_and_get() {
    let mut cache = InstrumentCache::new();
    let info = InstrumentInfo {
        tick_size: Dec::new(1, 2),     // 0.01
        qty_step: Dec::new(1, 3),      // 0.001
        min_order_qty: Dec::new(1, 3), // 0.001
        min_notional: Dec::new(5, 0),  // 5
        max_order_qty: Dec::new(1000, 0),
    };

    cache.insert("BTC".to_string(), info.clone());
    let got = cache.get("BTC");
    assert!(got.is_some());
    let got = got.unwrap();
    assert_eq!(got.tick_size, Dec::new(1, 2));
    assert_eq!(got.qty_step, Dec::new(1, 3));
    assert_eq!(got.min_order_qty, Dec::new(1, 3));
    assert_eq!(got.min_notional, Dec::new(5, 0));
    assert_eq!(got.max_order_qty, Dec::new(1000, 0));
}

#[test]
fn test_instrument_cache_get_missing() {
    let cache = InstrumentCache::new();
    assert!(cache.get("ETH").is_none());
}

#[test]
fn test_instrument_cache_overwrite() {
    let mut cache = InstrumentCache::new();
    let info1 = InstrumentInfo {
        tick_size: Dec::new(1, 2),
        qty_step: Dec::new(1, 3),
        min_order_qty: Dec::new(1, 3),
        min_notional: Dec::new(5, 0),
        max_order_qty: Dec::new(1000, 0),
    };
    let info2 = InstrumentInfo {
        tick_size: Dec::new(1, 1), // 변경: 0.1
        qty_step: Dec::new(1, 2),  // 변경: 0.01
        min_order_qty: Dec::new(1, 2),
        min_notional: Dec::new(10, 0),
        max_order_qty: Dec::new(500, 0),
    };

    cache.insert("BTC".to_string(), info1);
    cache.insert("BTC".to_string(), info2);

    let got = cache.get("BTC").unwrap();
    assert_eq!(got.tick_size, Dec::new(1, 1));
    assert_eq!(got.qty_step, Dec::new(1, 2));
}

#[test]
fn test_instrument_cache_multiple_coins() {
    let mut cache = InstrumentCache::new();
    let btc_info = InstrumentInfo {
        tick_size: Dec::new(1, 2),
        qty_step: Dec::new(1, 5),
        min_order_qty: Dec::new(1, 5),
        min_notional: Dec::new(5, 0),
        max_order_qty: Dec::new(100, 0),
    };
    let eth_info = InstrumentInfo {
        tick_size: Dec::new(1, 1),
        qty_step: Dec::new(1, 3),
        min_order_qty: Dec::new(1, 3),
        min_notional: Dec::new(1, 0),
        max_order_qty: Dec::new(10000, 0),
    };

    cache.insert("BTC".to_string(), btc_info);
    cache.insert("ETH".to_string(), eth_info);

    assert!(cache.get("BTC").is_some());
    assert!(cache.get("ETH").is_some());
    assert!(cache.get("SOL").is_none());

    assert_eq!(cache.get("BTC").unwrap().qty_step, Dec::new(1, 5));
    assert_eq!(cache.get("ETH").unwrap().qty_step, Dec::new(1, 3));
}

#[test]
fn test_instrument_cache_default() {
    // Default trait 구현 확인
    let cache = InstrumentCache::default();
    assert!(cache.get("ANY").is_none());
}

#[test]
fn insert_fetched_keeps_successful_fetches() {
    let mut cache = InstrumentCache::new();
    let old = InstrumentInfo { tick_size: Dec::new(1, 2), ..InstrumentInfo::default() };
    cache.insert("ETH".to_string(), old);
    let btc = InstrumentInfo { tick_size: Dec::new(1, 1), ..InstrumentInfo::default() };
    cache.insert_fetched(vec![
        ("BTC".to_string(), Some(btc)),
        ("ETH".to_string(), None),
        ("XRP".to_string(), None),
    ]);
    assert_eq!(cache.get("BTC").unwrap().tick_size, Dec::new(1, 1));
    // a failed fetch leaves the earlier specification
    assert_eq!(cache.get("ETH").unwrap().tick_size, Dec::new(1, 2));
    assert!(cache.get("XRP").is_none());
}
