use arb_strategy::decimal::Dec;
use arb_strategy::tick_flow::{entry_check, tick_signal_step, EntryCheck, TickAction, TickEvent, TickSkip, TickState};

fn run(events: &[TickEvent]) -> (TickState, Vec<TickAction>) {
    let mut state = TickState::FetchOrderbook;
    let mut actions = Vec::new();
    for e in events {
        let (next, action) = tick_signal_step(state, *e);
        state = next;
        actions.push(action);
    }
    (state, actions)
}

const FETCHED: TickEvent = TickEvent::OrderbookFetched { ok: true };
const FRESH: TickEvent = TickEvent::OtherSideFresh { fresh: true };
const NO_EXIT: TickEvent = TickEvent::ExitSignal { signal: false, has_instrument: true, books: true };
const ALLOWED: TickEvent = TickEvent::EntryAllowed { allowed: true };
const ENTRY: TickEvent =
    TickEvent::EntrySignal { signal: true, has_instrument: true, books: true, safe_volume: true };

#[test]
fn accepted_entry_calls_the_entry_policy() {
    let (state, actions) =
        run(&[FETCHED, FRESH, NO_EXIT, ALLOWED, ENTRY, TickEvent::EntryValidated { check: EntryCheck::Accepted }]);
    assert_eq!(state, TickState::Finished);
    assert_eq!(actions[0], TickAction::CountFetch);
    assert_eq!(actions[5], TickAction::CallEntryPolicy);
}

#[test]
fn failed_fetch_and_stale_cache_skip() {
    let (state, actions) = run(&[TickEvent::OrderbookFetched { ok: false }]);
    assert_eq!(state, TickState::Finished);
    assert_eq!(actions[0], TickAction::Skip { reason: TickSkip::OrderbookFetchFailed });
    let (_, actions) = run(&[FETCHED, TickEvent::OtherSideFresh { fresh: false }]);
    assert_eq!(actions[1], TickAction::Skip { reason: TickSkip::StaleCache });
}

#[test]
fn exit_signal_comes_first() {
    let exit = TickEvent::ExitSignal { signal: true, has_instrument: false, books: true };
    let (state, actions) = run(&[FETCHED, FRESH, exit]);
    assert_eq!(state, TickState::CheckEntryAllowed);
    assert_eq!(actions[2], TickAction::CallExitPolicy { unrounded: true });
    let no_books = TickEvent::ExitSignal { signal: true, has_instrument: false, books: false };
    let (_, actions) = run(&[FETCHED, FRESH, no_books]);
    assert_eq!(actions[2], TickAction::CountUnrounded);
}

#[test]
fn entry_not_allowed_ends_the_tick() {
    let (state, actions) = run(&[FETCHED, FRESH, NO_EXIT, TickEvent::EntryAllowed { allowed: false }]);
    assert_eq!(state, TickState::Finished);
    assert_eq!(actions[3], TickAction::Done);
}

#[test]
fn entry_refusals_are_counted_by_reason() {
    let no_inst = TickEvent::EntrySignal { signal: true, has_instrument: false, books: true, safe_volume: true };
    let (_, a) = run(&[FETCHED, FRESH, NO_EXIT, ALLOWED, no_inst]);
    assert_eq!(a[4], TickAction::Skip { reason: TickSkip::NoInstrument });
    let no_safe = TickEvent::EntrySignal { signal: true, has_instrument: true, books: true, safe_volume: false };
    let (_, a) = run(&[FETCHED, FRESH, NO_EXIT, ALLOWED, no_safe]);
    assert_eq!(a[4], TickAction::Skip { reason: TickSkip::NoSafeVolume });
    let no_books = TickEvent::EntrySignal { signal: true, has_instrument: true, books: false, safe_volume: true };
    let (_, a) = run(&[FETCHED, FRESH, NO_EXIT, ALLOWED, no_books]);
    assert_eq!(a[4], TickAction::Done);
    let (_, a) = run(&[FETCHED, FRESH, NO_EXIT, ALLOWED, ENTRY, TickEvent::EntryValidated { check: EntryCheck::MinRoi }]);
    assert_eq!(a[5], TickAction::Skip { reason: TickSkip::Rejected(EntryCheck::MinRoi) });
}

#[test]
fn out_of_order_events_are_ignored() {
    let (state, actions) = run(&[ALLOWED]);
    assert_eq!(state, TickState::FetchOrderbook);
    assert_eq!(actions[0], TickAction::Ignore);
    let (state, a) = run(&[TickEvent::OrderbookFetched { ok: false }, FETCHED]);
    assert_eq!(state, TickState::Finished);
    assert_eq!(a[1], TickAction::Ignore);
}

#[test]
fn entry_checks_in_order() {
    let qty = Dec::new(1, 2);
    let price = Dec::new(42000, 0);
    let min = Dec::new(100, 0);
    assert_eq!(entry_check(false, false, qty, price, min, true), EntryCheck::OrderConstraint);
    assert_eq!(entry_check(true, false, qty, price, min, true), EntryCheck::RoundingPnl);
    // 0.01 * 42000 = 420 USDT, over 100; 1000 is not reached
    assert_eq!(entry_check(true, true, qty, price, Dec::new(1000, 0), true), EntryCheck::MinPosition);
    assert_eq!(entry_check(true, true, qty, price, min, true), EntryCheck::MinRoi);
    assert_eq!(entry_check(true, true, qty, price, min, false), EntryCheck::Accepted);
    assert_eq!(entry_check(true, true, qty, price, Dec::zero(), false), EntryCheck::Accepted);
}
