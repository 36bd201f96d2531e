use arb_strategy::config::{ConfigError, ValidationInput};
use arb_strategy::decimal::Dec;
use arb_strategy::keyed::StrMap;
use arb_strategy::monitor_core::{excess_coins, regime_change, reselection_plan};
use arb_strategy::monitor_loop::{monitor_start, monitor_step, MonitorAction, MonitorEvent, MonitorState};

const MIN: i64 = 60_000;
const T0: i64 = 1_770_372_000_000;

fn names(v: &[&str]) -> Vec<String> {
    v.iter().map(|s| s.to_string()).collect()
}

fn input(auto_select: bool, max_coins: usize, coin_count: usize) -> ValidationInput {
    ValidationInput {
        coin_count,
        auto_select,
        max_coins,
        window_size: 1440,
        entry_z_le_zero: false,
        exit_z_lt_zero: false,
        entry_z_le_exit_z: false,
        max_position_ratio: Dec::new(2, 1),
        min_stddev_le_zero: false,
        max_spread_stddev_lt_zero: false,
        min_expected_roi_lt_zero: false,
        min_position_usdt: Dec::new(100, 0),
        grace_period_hours: 4,
        order_timeout_sec: 5,
        order_type: "limit_ioc".to_string(),
        max_slippage_lt_zero: false,
        post_exec_gate_lt_zero: false,
        emergency_slippage_steps: 3,
        emergency_fallback_le_zero: false,
        max_dust_lt_zero: false,
        max_daily_loss_pct_le_zero: false,
        max_drawdown_pct_le_zero: false,
        max_single_loss_pct_le_zero: false,
        max_daily_loss_usdt_le_zero: false,
        max_drawdown_usdt_le_zero: false,
        max_single_loss_usdt_le_zero: false,
        max_order_size_le_zero: false,
        max_rolling_24h_loss_le_zero: false,
        hwm_window_days: 7,
        max_unrealized_loss_le_zero: false,
        max_forex_age_min: 10,
        forex_change_alert_le_zero: false,
        funding_block_before_min: 60,
        funding_exclude_le_alert: false,
        shutdown_policy: "keep".to_string(),
    }
}

fn started(coins: &[&str]) -> MonitorState {
    monitor_start(&input(true, 3, 0), 10, names(coins)).ok().unwrap()
}

fn regime(s: MonitorState, remove: &[&str], dropped: &[&str], now_ms: i64) -> (MonitorState, MonitorAction) {
    monitor_step(
        s,
        MonitorEvent::RegimeChange { immediate_remove: names(remove), dropped: names(dropped), now_ms },
    )
}

fn done(s: MonitorState, coins: &[&str]) -> MonitorState {
    monitor_step(
        s,
        MonitorEvent::ReselectDone { new_coins: names(coins), dropped: vec![], dropped_ms: 0, removed: vec![] },
    )
    .0
}

#[test]
fn start_refuses_invalid_settings() {
    let r = monitor_start(&input(true, 0, 0), 10, vec![]);
    assert_eq!(r.err(), Some(ConfigError::MaxCoinsZero));
    let r = monitor_start(&input(false, 5, 0), 10, vec![]);
    assert_eq!(r.err(), Some(ConfigError::CoinsEmpty));
}

#[test]
fn start_gives_a_fresh_loop() {
    let s = started(&["BTC", "ETH", "XRP"]);
    assert_eq!(s.coins, names(&["BTC", "ETH", "XRP"]));
    assert!(!s.reselecting);
    assert_eq!(s.cooldown_until_ms, None);
    assert_eq!(s.consecutive_regime_changes, 0);
    assert!(!s.stopped);
    assert!(s.dropped_at.is_empty());
}

#[test]
fn regime_change_removes_marks_and_reselects() {
    let s = started(&["BTC", "ETH", "XRP"]);
    let (s, a) = regime(s, &["ETH"], &["XRP"], T0);
    assert_eq!(a, MonitorAction::RegimeApplied { reselect_cooldown_min: Some(10) });
    assert_eq!(s.coins, names(&["BTC", "XRP"]));
    assert_eq!(s.dropped_at.get("XRP"), Some(&T0));
    assert!(s.reselecting);
    assert_eq!(s.consecutive_regime_changes, 1);
    assert_eq!(s.cooldown_until_ms, Some(T0 + 10 * MIN));
}

#[test]
fn regime_change_in_cooldown_is_suppressed() {
    let s = started(&["BTC", "ETH", "XRP"]);
    let (s, _) = regime(s, &["ETH"], &[], T0);
    let s = done(s, &["BTC", "XRP", "SOL"]);
    let (s, a) = regime(s, &["SOL"], &["BTC"], T0 + 5 * MIN);
    assert_eq!(a, MonitorAction::RegimeSuppressed);
    assert_eq!(s.coins, names(&["BTC", "XRP", "SOL"]));
    assert!(!s.dropped_at.contains_key("BTC"));
}

#[test]
fn backoff_doubles_up_to_sixty_minutes() {
    let mut s = started(&["BTC", "ETH", "XRP"]);
    let mut now = T0;
    let expected = [10u64, 20, 40, 60, 60];
    for b in expected {
        let (s2, a) = regime(s, &["ETH"], &[], now);
        assert_eq!(a, MonitorAction::RegimeApplied { reselect_cooldown_min: Some(b) });
        assert_eq!(s2.cooldown_until_ms, Some(now + (b as i64) * MIN));
        s = done(s2, &["BTC", "ETH", "XRP"]);
        now += (b as i64) * MIN;
    }
    assert_eq!(s.consecutive_regime_changes, 5);
}

#[test]
fn calm_minute_resets_count_after_cooldown() {
    let s = started(&["BTC", "ETH", "XRP"]);
    let (s, _) = regime(s, &["ETH"], &[], T0);
    let s = done(s, &["BTC", "ETH", "XRP"]);
    let (s, a) = monitor_step(s, MonitorEvent::NoRegime { now_ms: T0 + 5 * MIN });
    assert_eq!(a, MonitorAction::Idle);
    assert_eq!(s.consecutive_regime_changes, 1);
    let (s, _) = monitor_step(s, MonitorEvent::NoRegime { now_ms: T0 + 10 * MIN });
    assert_eq!(s.consecutive_regime_changes, 0);
    assert_eq!(s.cooldown_until_ms, None);
}

#[test]
fn no_reselection_with_enough_coins() {
    let s = started(&["BTC", "ETH", "XRP", "SOL"]);
    let (s, a) = regime(s, &["SOL"], &[], T0);
    assert_eq!(a, MonitorAction::RegimeApplied { reselect_cooldown_min: None });
    assert!(!s.reselecting);
    assert_eq!(s.consecutive_regime_changes, 0);
}

#[test]
fn dropped_coin_keeps_first_mark() {
    let s = monitor_start(&input(false, 3, 3), 10, names(&["BTC", "ETH", "XRP"])).ok().unwrap();
    let (s, _) = regime(s, &[], &["XRP"], T0);
    let (s, _) = regime(s, &[], &["XRP"], T0 + MIN);
    assert_eq!(s.dropped_at.get("XRP"), Some(&T0));
}

#[test]
fn reselect_tick_is_gated() {
    let s = started(&["BTC"]);
    let (s, a) = monitor_step(s, MonitorEvent::ReselectTick);
    assert_eq!(a, MonitorAction::StartReselection);
    let (s, a) = monitor_step(s, MonitorEvent::ReselectTick);
    assert_eq!(a, MonitorAction::Idle);
    let s = done(s, &["BTC", "ETH"]);
    assert!(!s.reselecting);
    let fixed = monitor_start(&input(false, 3, 1), 10, names(&["BTC"])).ok().unwrap();
    let (_, a) = monitor_step(fixed, MonitorEvent::ReselectTick);
    assert_eq!(a, MonitorAction::Idle);
    let _ = s;
}

#[test]
fn reselect_done_updates_marks() {
    let s = started(&["BTC", "ETH", "XRP"]);
    let (s, _) = regime(s, &[], &["XRP", "ETH"], T0);
    let (s, a) = monitor_step(
        s,
        MonitorEvent::ReselectDone {
            new_coins: names(&["BTC", "SOL"]),
            dropped: names(&["XRP", "ADA"]),
            dropped_ms: T0 + MIN,
            removed: names(&["ETH"]),
        },
    );
    assert_eq!(a, MonitorAction::CoinsUpdated);
    assert_eq!(s.coins, names(&["BTC", "SOL"]));
    assert_eq!(s.dropped_at.get("XRP"), Some(&T0));
    assert_eq!(s.dropped_at.get("ADA"), Some(&(T0 + MIN)));
    assert!(!s.dropped_at.contains_key("ETH"));
}

#[test]
fn cancel_stops_the_loop() {
    let s = started(&["BTC"]);
    let (s, a) = monitor_step(s, MonitorEvent::Cancel);
    assert_eq!(a, MonitorAction::Stop);
    let (s, a) = monitor_step(s, MonitorEvent::ReselectTick);
    assert_eq!(a, MonitorAction::Idle);
    assert!(s.stopped && !s.reselecting);
}

#[test]
fn reselection_plan_joins_diff_rejections_and_marks() {
    let current = names(&["BTC", "ETH", "XRP", "SOL"]);
    let selected = names(&["BTC", "ADA", "DOGE"]);
    let flagged = names(&["BTC"]);
    let held = names(&["XRP", "BTC"]);
    let mut marks: StrMap<i64> = StrMap::new();
    marks.insert("XRP".to_string(), T0 - MIN);
    let p = reselection_plan(&current, &selected, &flagged, &held, &marks, T0);
    assert_eq!(p.to_add, names(&["ADA", "DOGE"]));
    assert_eq!(p.to_remove, names(&["ETH", "SOL"]));
    assert_eq!(p.to_keep_with_position, names(&["XRP", "BTC"]));
    assert_eq!(p.rejected_count, 1);
    assert_eq!(p.newly_dropped, names(&["BTC"]));
    assert_eq!(p.dropped_ms, T0);
}

#[test]
fn reselection_plan_drops_rejected_from_additions() {
    let current = names(&["BTC"]);
    let selected = names(&["ETH"]);
    let flagged = names(&["ETH"]);
    let p = reselection_plan(&current, &selected, &flagged, &[], &StrMap::new(), T0);
    assert_eq!(p.to_remove, names(&["BTC", "ETH"]));
    assert!(p.to_add.is_empty());
    assert_eq!(p.rejected_count, 1);
    assert!(p.newly_dropped.is_empty());
}

#[test]
fn excess_coins_beyond_the_limit_are_pruned() {
    let ranked = names(&["BTC", "ETH", "XRP", "SOL"]);
    assert_eq!(excess_coins(&ranked, 2), names(&["XRP", "SOL"]));
    assert!(excess_coins(&ranked, 4).is_empty());
    assert!(excess_coins(&ranked, 9).is_empty());
}

#[test]
fn regime_change_needs_limit_auto_select_and_coins() {
    let over = names(&["ETH", "XRP"]);
    let held = names(&["XRP"]);
    let (now, kept) = regime_change(true, true, &over, &held).unwrap();
    assert_eq!(now, names(&["ETH"]));
    assert_eq!(kept, names(&["XRP"]));
    assert!(regime_change(false, true, &over, &held).is_none());
    assert!(regime_change(true, false, &over, &held).is_none());
    assert!(regime_change(true, true, &[], &held).is_none());
}
