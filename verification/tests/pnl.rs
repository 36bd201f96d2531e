use arb_strategy::decimal::Dec;
use arb_strategy::pnl::{calculate_max_drawdown, daily_pnl, ClosedPosition};

fn make_closed(net_pnl: i64, scale: u32) -> ClosedPosition {
    ClosedPosition {
        coin: "BTC".to_string(),
        entry_time_ms: 1_770_370_200_000,
        exit_time_ms: 1_770_372_000_000,
        holding_minutes: 30,
        size_usdt: Dec::new(1000, 0),
        upbit_pnl: Dec::zero(),
        bybit_pnl: Dec::zero(),
        upbit_fees: Dec::zero(),
        bybit_fees: Dec::zero(),
        total_fees: Dec::zero(),
        net_pnl: Dec::new(net_pnl, scale),
        entry_usdt_krw: Dec::new(1380, 0),
        exit_usdt_krw: Dec::new(1381, 0),
        is_liquidated: false,
    }
}

#[test]
fn test_max_drawdown_empty() {
    assert_eq!(calculate_max_drawdown(&[]), Dec::zero());
}

#[test]
fn test_max_drawdown_all_profit() {
    // +10, +20, +5 -> equity: 10, 30, 35 -> peak always rising, dd=0
    let trades = vec![make_closed(10, 0), make_closed(20, 0), make_closed(5, 0)];
    assert_eq!(calculate_max_drawdown(&trades), Dec::zero());
}

#[test]
fn test_max_drawdown_with_loss() {
    // +10, -5, +3 -> equity: 10, 5, 8; dd: 0, 5, 2 -> max = 5
    let trades = vec![make_closed(10, 0), make_closed(-5, 0), make_closed(3, 0)];
    assert_eq!(calculate_max_drawdown(&trades), Dec::new(5, 0));
}

#[test]
fn test_max_drawdown_deep_drawdown() {
    // +10, -15, +2 -> equity: 10, -5, -3; dd: 0, 15, 13 -> max = 15
    let trades = vec![make_closed(10, 0), make_closed(-15, 0), make_closed(2, 0)];
    assert_eq!(calculate_max_drawdown(&trades), Dec::new(15, 0));
}

#[test]
fn test_daily_pnl_empty() {
    assert!(daily_pnl(&[]).is_empty());
}

#[test]
fn test_daily_pnl_aggregation() {
    // 2026-02-06 10:00, 2026-02-06 15:00 and 2026-02-07 10:00 UTC
    let day1 = 1_770_372_000_000i64;
    let day1_later = 1_770_390_000_000i64;
    let day2 = 1_770_458_400_000i64;

    let trades = vec![
        ClosedPosition {
            exit_time_ms: day1,
            net_pnl: Dec::new(10, 0),
            ..make_closed(10, 0)
        },
        ClosedPosition {
            exit_time_ms: day1_later,
            net_pnl: Dec::new(-3, 0),
            ..make_closed(-3, 0)
        },
        ClosedPosition {
            exit_time_ms: day2,
            net_pnl: Dec::new(5, 0),
            ..make_closed(5, 0)
        },
    ];

    let daily = daily_pnl(&trades);
    assert_eq!(daily.len(), 2);
    assert_eq!(daily[0].1, Dec::new(7, 0)); // day1: 10 + (-3) = 7
    assert_eq!(daily[1].1, Dec::new(5, 0)); // day2: 5
}

#[test]
fn daily_pnl_keys_are_days_from_common_era() {
    let trades = vec![
        ClosedPosition { exit_time_ms: 1_770_458_400_000, ..make_closed(5, 0) },
        ClosedPosition { exit_time_ms: 1_770_372_000_000, ..make_closed(10, 0) },
    ];
    let daily = daily_pnl(&trades);
    // sorted by date even though the later day came first
    assert_eq!(daily[0].0, 739_653);
    assert_eq!(daily[1].0, 739_654);
    assert_eq!(daily[0].1, Dec::new(10, 0));
}

#[test]
fn daily_pnl_before_epoch_uses_floor_day() {
    // one millisecond before 1970-01-01 is 1969-12-31
    let trades = vec![ClosedPosition { exit_time_ms: -1, ..make_closed(1, 0) }];
    let daily = daily_pnl(&trades);
    assert_eq!(daily[0].0, 719_162);
}

#[test]
fn max_drawdown_fractional_values() {
    // +1.5, -0.25 -> drawdown 0.25
    let trades = vec![make_closed(15, 1), make_closed(-25, 2)];
    assert_eq!(calculate_max_drawdown(&trades), Dec::new(25, 2));
}

#[test]
fn daily_totals_add_up_to_total_pnl() {
    let trades = vec![
        ClosedPosition { exit_time_ms: 1_770_372_000_000, ..make_closed(10, 0) },
        ClosedPosition { exit_time_ms: 1_770_458_400_000, ..make_closed(-4, 1) },
        ClosedPosition { exit_time_ms: 1_770_390_000_000, ..make_closed(-3, 0) },
        ClosedPosition { exit_time_ms: 0, ..make_closed(125, 2) },
    ];
    let daily = daily_pnl(&trades);
    assert_eq!(daily.len(), 3);
    let mut total = Dec::zero();
    for (_, pnl) in &daily {
        total = total.add(pnl);
    }
    // 10 - 0.4 - 3 + 1.25
    assert!(total.value_eq(&Dec::new(785, 2)));
}
