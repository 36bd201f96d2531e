use arb_strategy::live_executor::Leg;
use arb_strategy::decimal::Dec;
use arb_strategy::live_policy::{
    close_transition, entry_amounts, entry_transition, filled_amounts, CloseAction, CloseEvent, CloseFlow, CloseState,
    EntryAction, EntryEvent, EntryOutcome, EntryRefusal, EntryState, LegFailure, PositionFate,
    ReservationFate,
};

fn checks(killed: bool, cooldown_active: bool, order_size_ok: bool) -> EntryEvent {
    EntryEvent::Checked { killed, cooldown_active, order_size_ok }
}

/// Runs an entry that passes every check up to the orders.
fn up_to_execution() -> EntryState {
    let (s, a) = entry_transition(&EntryState::AwaitChecks, checks(false, false, true));
    assert_eq!(a, EntryAction::Reserve);
    let (s, a) = entry_transition(&s, EntryEvent::Reserved { ok: true });
    assert_eq!(a, EntryAction::CheckSlots);
    let (s, a) = entry_transition(
        &s,
        EntryEvent::SlotsChecked { killed: false, open_count: 1, max_positions: 3 },
    );
    assert_eq!(a, EntryAction::OpenAndExecute);
    assert_eq!(s, EntryState::AwaitExecution);
    s
}

fn conclusion(outcome: EntryOutcome) -> arb_strategy::live_policy::EntryConclusion {
    let (s, a) = entry_transition(&up_to_execution(), EntryEvent::Executed(outcome));
    assert_eq!(s, EntryState::Done);
    match a {
        EntryAction::Conclude(c) => c,
        other => panic!("unexpected action {:?}", other),
    }
}

#[test]
fn entry_refused_by_kill_switch_is_not_counted() {
    let (s, a) = entry_transition(&EntryState::AwaitChecks, checks(true, true, false));
    assert_eq!(s, EntryState::Done);
    assert_eq!(
        a,
        EntryAction::Refuse { reason: EntryRefusal::KillSwitch, release: false, counted: false }
    );
}

#[test]
fn entry_refused_by_cooldown_and_size_cap() {
    let (_, a) = entry_transition(&EntryState::AwaitChecks, checks(false, true, true));
    assert_eq!(
        a,
        EntryAction::Refuse { reason: EntryRefusal::IocCooldown, release: false, counted: true }
    );
    let (_, a) = entry_transition(&EntryState::AwaitChecks, checks(false, false, false));
    assert_eq!(
        a,
        EntryAction::Refuse { reason: EntryRefusal::OrderSizeCap, release: false, counted: true }
    );
}

#[test]
fn entry_refused_for_balance() {
    let (s, a) = entry_transition(&EntryState::AwaitReservation, EntryEvent::Reserved { ok: false });
    assert_eq!(s, EntryState::Done);
    assert_eq!(
        a,
        EntryAction::Refuse {
            reason: EntryRefusal::InsufficientBalance,
            release: false,
            counted: true
        }
    );
}

#[test]
fn entry_refusals_under_the_lock_release_the_reservation() {
    let (_, a) = entry_transition(
        &EntryState::AwaitSlots,
        EntryEvent::SlotsChecked { killed: true, open_count: 0, max_positions: 3 },
    );
    assert_eq!(
        a,
        EntryAction::Refuse {
            reason: EntryRefusal::KillSwitchRecheck,
            release: true,
            counted: false
        }
    );
    let (_, a) = entry_transition(
        &EntryState::AwaitSlots,
        EntryEvent::SlotsChecked { killed: false, open_count: 3, max_positions: 3 },
    );
    assert_eq!(
        a,
        EntryAction::Refuse { reason: EntryRefusal::MaxPositions, release: true, counted: true }
    );
}

#[test]
fn entry_both_filled_commits() {
    let c = conclusion(EntryOutcome::BothFilled);
    assert_eq!(c.position, PositionFate::Open);
    assert_eq!(c.reservation, ReservationFate::Commit);
    assert!(c.clear_ioc_reject && c.snapshot && !c.kill_switch);
}

#[test]
fn entry_both_unfilled_records_ioc_rejection() {
    let c = conclusion(EntryOutcome::BothUnfilled {
        upbit_error: Some("invalid_parameter: IOC not supported".to_string()),
    });
    assert_eq!(c.position, PositionFate::Deleted);
    assert_eq!(c.reservation, ReservationFate::Release);
    assert!(c.record_ioc_reject);
    let c = conclusion(EntryOutcome::BothUnfilled { upbit_error: None });
    assert!(!c.record_ioc_reject);
}

#[test]
fn entry_single_leg_closed_again_releases() {
    let c = conclusion(EntryOutcome::SingleLegFilled {
        leg: Leg::Bybit,
        emergency_closed: true,
        failed_leg_error: Some("time_in_force rejected".to_string()),
    });
    assert_eq!(c.position, PositionFate::ClosedAfterEmergency);
    assert_eq!(c.reservation, ReservationFate::Release);
    assert!(c.record_ioc_reject);
    assert!(!c.kill_switch);
    assert_eq!(c.leg_failure, Some(LegFailure { leg: Leg::Bybit, emergency_closed: true }));
}

#[test]
fn entry_single_leg_left_open_triggers_kill_switch() {
    let c = conclusion(EntryOutcome::SingleLegFilled {
        leg: Leg::Upbit,
        emergency_closed: false,
        failed_leg_error: Some("ioc".to_string()),
    });
    assert_eq!(c.position, PositionFate::PartiallyClosedOneLeg);
    assert_eq!(c.reservation, ReservationFate::Release);
    // only a failed Upbit leg (Bybit filled) is an Upbit IOC rejection
    assert!(!c.record_ioc_reject);
    assert!(c.kill_switch);
}

#[test]
fn entry_errors_and_failed_emergency_close() {
    let c = conclusion(EntryOutcome::ExchangeErrorOrTimeout);
    assert_eq!(c.position, PositionFate::Deleted);
    assert_eq!(c.reservation, ReservationFate::Release);
    let c = conclusion(EntryOutcome::EmergencyCloseFailed);
    assert_eq!(c.position, PositionFate::KeptOpening);
    assert_eq!(c.reservation, ReservationFate::Release);
    assert!(c.kill_switch);
}

#[test]
fn entry_ignores_events_of_other_states() {
    let (s, a) = entry_transition(&EntryState::AwaitChecks, EntryEvent::Reserved { ok: true });
    assert_eq!(s, EntryState::AwaitChecks);
    assert_eq!(a, EntryAction::Ignore);
    let (s, a) = entry_transition(&EntryState::Done, checks(false, false, true));
    assert_eq!(s, EntryState::Done);
    assert_eq!(a, EntryAction::Ignore);
}

#[test]
fn close_skips_positions_not_open_and_idle() {
    let (f, a) = close_transition(
        &CloseFlow::start(false),
        CloseEvent::Claimed { found: true, open_and_idle: false },
    );
    assert_eq!(a, CloseAction::Skip);
    assert_eq!(f.state, CloseState::Done);
}

#[test]
fn close_settles_a_forced_close() {
    let (f, a) = close_transition(
        &CloseFlow::start(true),
        CloseEvent::Claimed { found: true, open_and_idle: true },
    );
    assert_eq!(a, CloseAction::SendExit { mark_closing: true });
    let (f, a) = close_transition(&f, CloseEvent::Executed { ok: true });
    assert_eq!(a, CloseAction::CloseInMemory);
    let (f, a) = close_transition(&f, CloseEvent::Recorded { ok: true });
    assert_eq!(a, CloseAction::Settle { count_forced: true });
    assert_eq!(f.state, CloseState::Done);
}

#[test]
fn close_of_unknown_position_still_sends_exit() {
    let (_, a) = close_transition(
        &CloseFlow::start(false),
        CloseEvent::Claimed { found: false, open_and_idle: false },
    );
    assert_eq!(a, CloseAction::SendExit { mark_closing: false });
}

#[test]
fn failed_exit_recovers_and_kills_only_when_forced() {
    let claimed = CloseEvent::Claimed { found: true, open_and_idle: true };
    let (f, _) = close_transition(&CloseFlow::start(false), claimed);
    let (_, a) = close_transition(&f, CloseEvent::Executed { ok: false });
    assert_eq!(a, CloseAction::Recover { kill_switch: false });
    let (f, _) = close_transition(&CloseFlow::start(true), claimed);
    let (_, a) = close_transition(&f, CloseEvent::Executed { ok: false });
    assert_eq!(a, CloseAction::Recover { kill_switch: true });
}

#[test]
fn failed_memory_close_abandons() {
    let claimed = CloseEvent::Claimed { found: true, open_and_idle: true };
    let (f, _) = close_transition(&CloseFlow::start(false), claimed);
    let (f, _) = close_transition(&f, CloseEvent::Executed { ok: true });
    let (_, a) = close_transition(&f, CloseEvent::Recorded { ok: false });
    assert_eq!(a, CloseAction::Abandon);
}

#[test]
fn entry_and_filled_amounts() {
    // 0.01 BTC at 138,000,000 KRW and 42,000 USDT
    let (krw, usdt) = entry_amounts(Dec::new(138_000_000, 0), Dec::new(1, 2), Dec::new(42000, 0));
    assert!(krw.value_eq(&Dec::new(1_380_000, 0)));
    assert!(usdt.value_eq(&Dec::new(420, 0)));
    let (krw, usdt) =
        filled_amounts(Dec::new(138_100_000, 0), Dec::new(9995, 6), Dec::new(41990, 0), Dec::new(1, 2));
    assert!(krw.value_eq(&Dec::new(1_380_309_500, 3)));
    assert!(usdt.value_eq(&Dec::new(4199, 1)));
}

#[test]
fn product_range_test() {
    assert!(Dec::new(138_000_000, 0).product_surely_in_range(&Dec::new(1, 2)));
    assert!(!Dec::from_i128_with_scale(10i128.pow(27), 0).product_surely_in_range(&Dec::new(2, 0)));
}
