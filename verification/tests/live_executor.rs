use arb_strategy::decimal::Dec;
use arb_strategy::instrument::InstrumentInfo;
use arb_strategy::live_executor::{
    bybit_symbol, entry_limit_prices, entry_result, entry_step, exit_result, settle_filled_entry, upbit_market,
    AttemptOutcome, EmergencyAction, EmergencyClose, EntryStep, ExecutedEntry, ExecutedExit,
    ExitRequest, Leg, OrderExecutionError, OrderFill,
};

fn make_exit_request() -> ExitRequest {
    ExitRequest {
        coin: "BTC".to_string(),
        qty: Dec::new(1, 2), // 0.01 BTC
        instrument_info: InstrumentInfo {
            tick_size: Dec::new(1, 2),
            qty_step: Dec::new(1, 5),
            min_order_qty: Dec::new(1, 5),
            min_notional: Dec::new(5, 0),
            max_order_qty: Dec::new(100, 0),
        },
        exit_client_order_id: "test-uuid-exit-001".to_string(),
    }
}

fn fill(id: &str, qty: Dec, price: Dec, fee: Dec) -> OrderFill {
    OrderFill { id: id.to_string(), filled_qty: qty, avg_price: price, paid_fee: fee }
}

#[test]
fn test_leg_display() {
    assert_eq!(Leg::Upbit.to_string(), "upbit");
    assert_eq!(Leg::Bybit.to_string(), "bybit");
}

#[test]
fn test_leg_equality() {
    assert_eq!(Leg::Upbit, Leg::Upbit);
    assert_eq!(Leg::Bybit, Leg::Bybit);
    assert_ne!(Leg::Upbit, Leg::Bybit);
}

#[test]
fn test_order_execution_error_display() {
    let err = OrderExecutionError::BothUnfilled;
    assert!(err.to_string().contains("both legs unfilled"));

    let err = OrderExecutionError::SingleLegFilled { leg: Leg::Upbit, emergency_closed: true };
    assert!(err.to_string().contains("upbit"));
    assert!(err.to_string().contains("true"));

    let err = OrderExecutionError::EmergencyCloseFailed {
        leg: Leg::Bybit,
        order_id: "ord-123".to_string(),
    };
    assert!(err.to_string().contains("bybit"));
    assert!(err.to_string().contains("ord-123"));

    let err = OrderExecutionError::Timeout { leg: Some(Leg::Upbit) };
    assert!(err.to_string().contains("timeout"));
}

#[test]
fn test_order_execution_error_from_exchange_error() {
    let err = OrderExecutionError::ExchangeError("test".to_string());
    assert!(err.to_string().contains("exchange error"));
}

#[test]
fn test_exit_request_clone() {
    let req = make_exit_request();
    let cloned = req.clone();
    assert_eq!(cloned.coin, "BTC");
    assert_eq!(cloned.qty, Dec::new(1, 2));
}

#[test]
fn test_executed_entry_fields() {
    let entry = ExecutedEntry {
        upbit_order_id: "u-001".to_string(),
        bybit_order_id: "b-001".to_string(),
        upbit_filled_qty: Dec::new(1, 2),
        bybit_filled_qty: Dec::new(1, 2),
        upbit_avg_price_krw: Dec::new(60_000_000, 0),
        bybit_avg_price: Dec::new(42000, 0),
        upbit_fee: Dec::new(30_000, 0),
        bybit_fee: Dec::new(231, 3),
        effective_qty: Dec::new(9995, 6),
        adjustment_cost: Dec::zero(),
    };
    assert_eq!(entry.upbit_order_id, "u-001");
    assert_eq!(entry.bybit_order_id, "b-001");
}

#[test]
fn test_executed_exit_fields() {
    let exit = ExecutedExit {
        upbit_order_id: "u-exit".to_string(),
        bybit_order_id: "b-exit".to_string(),
        upbit_filled_qty: Dec::new(1, 2),
        bybit_filled_qty: Dec::new(1, 2),
        upbit_avg_price_krw: Dec::new(61_000_000, 0),
        bybit_avg_price: Dec::new(41500, 0),
        upbit_fee: Dec::new(30_500, 0),
        bybit_fee: Dec::new(228, 3),
    };
    assert_eq!(exit.upbit_order_id, "u-exit");
}

#[test]
fn error_messages_in_full() {
    assert_eq!(
        OrderExecutionError::SingleLegFilled { leg: Leg::Bybit, emergency_closed: false }.to_string(),
        "single leg filled: bybit, emergency_closed=false"
    );
    assert_eq!(
        OrderExecutionError::Timeout { leg: Some(Leg::Upbit) }.to_string(),
        "timeout: leg=Some(Upbit)"
    );
    assert_eq!(OrderExecutionError::Timeout { leg: None }.to_string(), "timeout: leg=None");
}

#[test]
fn market_codes() {
    assert_eq!(upbit_market("BTC"), "KRW-BTC");
    assert_eq!(bybit_symbol("BTC"), "BTCUSDT");
}

#[test]
fn limit_prices_move_against_the_trader() {
    // 0.1% slippage
    let (up, down) = entry_limit_prices(Dec::new(60_000_000, 0), Dec::new(42000, 0), Dec::new(1, 3));
    assert_eq!(up, Dec::new(60_060_000, 0));
    assert_eq!(down, Dec::new(41958, 0));
}

#[test]
fn settle_both_filled() {
    let upbit = fill("upbit-001", Dec::new(1, 2), Dec::new(60_000_000, 0), Dec::new(30_000, 0));
    let bybit = fill("bybit-001", Dec::new(1, 2), Dec::new(42000, 0), Dec::new(231, 3));
    let entry = settle_filled_entry(Dec::new(42000, 0), upbit, bybit, Dec::new(5, 4), Dec::new(5, 0));
    assert_eq!(entry.upbit_order_id, "upbit-001");
    assert_eq!(entry.bybit_order_id, "bybit-001");
    // 0.01 * (1 - 0.0005)
    let expected_net = Dec::new(1, 2).mul(&Dec::one().sub(&Dec::new(5, 4)));
    assert_eq!(entry.effective_qty, expected_net);
    assert_eq!(entry.effective_qty, Dec::new(9995, 6));
    // Bybit exceeds by 0.000005 BTC = 0.21 USDT, under the 5 USDT dust limit
    assert_eq!(entry.adjustment_cost, Dec::new(21, 2));
}

#[test]
fn settle_dust_adjustment_cost() {
    let upbit = fill("upbit-005", Dec::new(1, 2), Dec::new(60_000_000, 0), Dec::new(30_000, 0));
    let bybit = fill("bybit-005", Dec::new(99, 4), Dec::new(42000, 0), Dec::new(229, 3));
    let entry = settle_filled_entry(Dec::new(42000, 0), upbit, bybit, Dec::new(5, 4), Dec::new(5, 0));
    assert_eq!(entry.bybit_filled_qty, Dec::new(99, 4));
    assert_eq!(entry.effective_qty, Dec::new(99, 4));
    assert!(entry.adjustment_cost.gt(&Dec::zero()));
}

#[test]
fn settle_excess_above_dust_costs_nothing() {
    let upbit = fill("u", Dec::new(2, 0), Dec::new(1, 0), Dec::zero());
    let bybit = fill("b", Dec::new(1, 0), Dec::new(1, 0), Dec::zero());
    let entry = settle_filled_entry(Dec::new(42000, 0), upbit, bybit, Dec::zero(), Dec::new(5, 0));
    assert_eq!(entry.effective_qty, Dec::new(1, 0));
    assert_eq!(entry.adjustment_cost, Dec::zero());
}

#[test]
fn entry_steps() {
    let f = fill("x", Dec::new(3, 0), Dec::new(1, 0), Dec::zero());
    assert!(matches!(entry_step(&Some(f.clone()), &Some(f.clone())), EntryStep::Settle));
    match entry_step(&Some(f.clone()), &None) {
        EntryStep::EmergencyClose { leg, qty } => {
            assert_eq!(leg, Leg::Upbit);
            assert_eq!(qty, Dec::new(3, 0));
        }
        other => panic!("unexpected {other:?}"),
    }
    assert!(matches!(
        entry_step(&None, &Some(f.clone())),
        EntryStep::EmergencyClose { leg: Leg::Bybit, .. }
    ));
    assert!(matches!(entry_step(&None, &None), EntryStep::Abandon));
}

#[test]
fn exit_results() {
    let u = fill("u-exit", Dec::new(1, 2), Dec::new(61_000_000, 0), Dec::new(30_500, 0));
    let b = fill("b-exit", Dec::new(1, 2), Dec::new(41500, 0), Dec::new(228, 3));
    let ok = exit_result(Some(u.clone()), Some(b.clone())).unwrap();
    assert_eq!(ok.upbit_order_id, "u-exit");
    assert_eq!(ok.bybit_fee, Dec::new(228, 3));
    assert_eq!(
        exit_result(Some(u), None).unwrap_err(),
        OrderExecutionError::SingleLegFilled { leg: Leg::Upbit, emergency_closed: false }
    );
    assert_eq!(
        exit_result(None, Some(b)).unwrap_err(),
        OrderExecutionError::SingleLegFilled { leg: Leg::Bybit, emergency_closed: false }
    );
    assert_eq!(exit_result(None, None).unwrap_err(), OrderExecutionError::BothUnfilled);
}

#[test]
fn emergency_close_first_stage_success() {
    let mut st = EmergencyClose::start(Dec::new(1, 2));
    assert_eq!(st.next_action(0, 3), EmergencyAction::Attempt { wide: false });
    // 95% of 0.01 is 0.0095
    assert_eq!(st.after_attempt(Some(Dec::new(95, 4))), AttemptOutcome::Closed);
}

#[test]
fn emergency_close_backoff_and_escalation() {
    let mut st = EmergencyClose::start(Dec::new(1, 2));
    let mut pauses = Vec::new();
    for _ in 0..5 {
        assert_eq!(st.next_action(1_000, 2), EmergencyAction::Attempt { wide: false });
        match st.after_attempt(Some(Dec::new(5, 3))) {
            AttemptOutcome::Pause { secs } => pauses.push(secs),
            AttemptOutcome::Closed => panic!("half a fill is not enough"),
        }
    }
    assert_eq!(pauses, vec![1, 2, 4, 8, 8]);
    // after two minutes: wide attempts, one per level
    assert_eq!(st.next_action(120_000, 2), EmergencyAction::Attempt { wide: true });
    assert_eq!(st.after_attempt(None), AttemptOutcome::Pause { secs: 5 });
    assert_eq!(st.next_action(130_000, 2), EmergencyAction::Attempt { wide: true });
    assert_eq!(st.after_attempt(Some(Dec::zero())), AttemptOutcome::Pause { secs: 5 });
    assert_eq!(st.next_action(140_000, 2), EmergencyAction::GiveUp);
}

#[test]
fn emergency_close_wide_stage_any_fill_closes() {
    let mut st = EmergencyClose::start(Dec::new(1, 0));
    assert_eq!(st.next_action(200_000, 3), EmergencyAction::Attempt { wide: true });
    assert_eq!(st.after_attempt(Some(Dec::new(1, 8))), AttemptOutcome::Closed);
}

#[test]
fn emergency_close_gives_up_after_five_minutes() {
    let mut st = EmergencyClose::start(Dec::new(1, 0));
    assert_eq!(st.next_action(300_000, 3), EmergencyAction::GiveUp);
}

#[test]
fn entry_results_by_fills() {
    let u = fill("u-entry", Dec::new(1, 2), Dec::new(138_000_000, 0), Dec::zero());
    let b = fill("b-entry", Dec::new(1, 2), Dec::new(42000, 0), Dec::new(231, 3));
    let price = Dec::new(42000, 0);
    let fee = Dec::new(5, 4);
    let dust = Dec::new(5, 0);
    let ok = entry_result(price, Some(u.clone()), Some(b.clone()), fee, dust, false).unwrap();
    assert_eq!(ok.upbit_order_id, "u-entry");
    assert_eq!(ok.effective_qty, Dec::new(9995, 6));
    assert_eq!(
        entry_result(price, Some(u.clone()), None, fee, dust, true).unwrap_err(),
        OrderExecutionError::SingleLegFilled { leg: Leg::Upbit, emergency_closed: true }
    );
    assert_eq!(
        entry_result(price, None, Some(b), fee, dust, false).unwrap_err(),
        OrderExecutionError::SingleLegFilled { leg: Leg::Bybit, emergency_closed: false }
    );
    assert_eq!(
        entry_result(price, None, None, fee, dust, false).unwrap_err(),
        OrderExecutionError::BothUnfilled
    );
}
