//! The per-tick signal flow of the monitor, as a step function: after a
//! trade or quote event the caller fetches the source exchange's order
//! book, checks that the other exchange's cached book is fresh, evaluates
//! the exit signal first, then (when entries are allowed) the entry signal,
//! sizes the entry from the order books and validates it.  The caller does
//! that work (I/O, floating point statistics) and hands each result back as
//! an event; the step function decides what follows and which policy is
//! called, and why a tick was skipped.

use crate::decimal::Dec;
use crate::monitor_core::{below_min_position, product_ok};
use vstd::prelude::*;

verus! {

/// Where a tick's evaluation stands.
#[derive(Clone, Copy, Debug, PartialEq, Eq, Structural)]
pub enum TickState {
    /// Waiting for the source exchange's order book.
    FetchOrderbook,
    /// Waiting for the freshness of the other exchange's cached book.
    CheckFreshness,
    /// Waiting for the exit signal.
    EvaluateExit,
    /// Waiting for whether the policy allows entries.
    CheckEntryAllowed,
    /// Waiting for the entry signal.
    EvaluateEntry,
    /// Waiting for the validation of the sized entry.
    ValidateEntry,
    /// The tick is done.
    Finished,
}

/// What the validation of a sized entry found.
#[derive(Clone, Copy, Debug, PartialEq, Eq, Structural)]
pub enum EntryCheck {
    Accepted,
    /// Quantity zero after rounding, or an exchange's order limits missed.
    OrderConstraint,
    /// No profit left after rounding the prices.
    RoundingPnl,
    /// Position smaller than the configured minimum.
    MinPosition,
    /// Expected return below the configured minimum.
    MinRoi,
}

/// The verdict on a sized entry, in the order of the checks: the order
/// limits of the rounded quantity (`limits_ok`, see
/// `entry_order_quantity`), the profit left after rounding the prices
/// (`profit_after_rounding`), the minimum position size on the rounded
/// futures price (a minimum of zero or less disables it), and the minimum
/// expected return (`below_min_roi`).
pub open spec fn entry_check_spec(
    limits_ok: bool,
    profit_after_rounding: bool,
    qty: Dec,
    bybit_entry: Dec,
    min_position_usdt: Dec,
    below_min_roi: bool,
) -> EntryCheck {
    if !limits_ok {
        EntryCheck::OrderConstraint
    } else if !profit_after_rounding {
        EntryCheck::RoundingPnl
    } else if min_position_usdt.val() > 0 && Dec::product_of(qty, bybit_entry).val()
        < min_position_usdt.val() {
        EntryCheck::MinPosition
    } else if below_min_roi {
        EntryCheck::MinRoi
    } else {
        EntryCheck::Accepted
    }
}

/// See `entry_check_spec`.
pub fn entry_check(
    limits_ok: bool,
    profit_after_rounding: bool,
    qty: Dec,
    bybit_entry: Dec,
    min_position_usdt: Dec,
    below_min_roi: bool,
) -> (r: EntryCheck)
    requires
        limits_ok && profit_after_rounding && min_position_usdt.val() > 0 ==> product_ok(qty, bybit_entry),
    ensures
        r == entry_check_spec(limits_ok, profit_after_rounding, qty, bybit_entry, min_position_usdt, below_min_roi),
{
    if !limits_ok {
        EntryCheck::OrderConstraint
    } else if !profit_after_rounding {
        EntryCheck::RoundingPnl
    } else if below_min_position(qty, bybit_entry, min_position_usdt) {
        EntryCheck::MinPosition
    } else if below_min_roi {
        EntryCheck::MinRoi
    } else {
        EntryCheck::Accepted
    }
}

/// Why a tick stopped early.  Each reason has its own counter.
#[derive(Clone, Copy, Debug, PartialEq, Eq, Structural)]
pub enum TickSkip {
    /// The order book could not be fetched.
    OrderbookFetchFailed,
    /// The other exchange's cached book is too old.
    StaleCache,
    /// An entry signal for a coin without instrument data (counted as an
    /// order constraint rejection).
    NoInstrument,
    /// The order books leave no volume within the slippage limit.
    NoSafeVolume,
    /// The validation refused the entry.
    Rejected(EntryCheck),
}

/// What the caller found since the last step.
#[derive(Clone, Copy, Debug, PartialEq, Eq, Structural)]
pub enum TickEvent {
    /// The source order book was fetched (`ok`) and stored, or not.
    OrderbookFetched { ok: bool },
    /// The other exchange's cached book is fresh.
    OtherSideFresh { fresh: bool },
    /// The exit signal: whether it fired, whether the coin has instrument
    /// data (to round the exit prices), and whether both books are cached.
    ExitSignal { signal: bool, has_instrument: bool, books: bool },
    /// Whether the policy allows entries.
    EntryAllowed { allowed: bool },
    /// The entry signal: whether it fired, whether the coin has instrument
    /// data, whether both books are cached, and whether they leave volume
    /// within the slippage limit.
    EntrySignal { signal: bool, has_instrument: bool, books: bool, safe_volume: bool },
    /// The sized entry was validated.
    EntryValidated { check: EntryCheck },
}

/// What the caller does after a step.
#[derive(Clone, Copy, Debug, PartialEq, Eq, Structural)]
pub enum TickAction {
    /// Count the fetched order book and go on.
    CountFetch,
    /// Nothing to do; go on with the next state.
    Continue,
    /// Call the exit policy; with `unrounded`, the exit prices are the raw
    /// ones and the fallback is counted.
    CallExitPolicy { unrounded: bool },
    /// An exit signal without both books: count the unrounded fallback.
    CountUnrounded,
    /// Call the entry policy with the validated entry.
    CallEntryPolicy,
    /// Stop the tick and count the reason.
    Skip { reason: TickSkip },
    /// Stop the tick.
    Done,
    /// The event does not belong to this state: nothing changes.
    Ignore,
}

/// One step of a tick's evaluation.
pub open spec fn tick_step_spec(s: TickState, e: TickEvent) -> (TickState, TickAction) {
    match (s, e) {
        (TickState::FetchOrderbook, TickEvent::OrderbookFetched { ok }) => if ok {
            (TickState::CheckFreshness, TickAction::CountFetch)
        } else {
            (TickState::Finished, TickAction::Skip { reason: TickSkip::OrderbookFetchFailed })
        },
        (TickState::CheckFreshness, TickEvent::OtherSideFresh { fresh }) => if fresh {
            (TickState::EvaluateExit, TickAction::Continue)
        } else {
            (TickState::Finished, TickAction::Skip { reason: TickSkip::StaleCache })
        },
        (TickState::EvaluateExit, TickEvent::ExitSignal { signal, has_instrument, books }) => if !signal {
            (TickState::CheckEntryAllowed, TickAction::Continue)
        } else if books {
            (TickState::CheckEntryAllowed, TickAction::CallExitPolicy { unrounded: !has_instrument })
        } else if !has_instrument {
            (TickState::CheckEntryAllowed, TickAction::CountUnrounded)
        } else {
            (TickState::CheckEntryAllowed, TickAction::Continue)
        },
        (TickState::CheckEntryAllowed, TickEvent::EntryAllowed { allowed }) => if allowed {
            (TickState::EvaluateEntry, TickAction::Continue)
        } else {
            (TickState::Finished, TickAction::Done)
        },
        (
            TickState::EvaluateEntry,
            TickEvent::EntrySignal { signal, has_instrument, books, safe_volume },
        ) => if !signal {
            (TickState::Finished, TickAction::Done)
        } else if !has_instrument {
            (TickState::Finished, TickAction::Skip { reason: TickSkip::NoInstrument })
        } else if !books {
            (TickState::Finished, TickAction::Done)
        } else if !safe_volume {
            (TickState::Finished, TickAction::Skip { reason: TickSkip::NoSafeVolume })
        } else {
            (TickState::ValidateEntry, TickAction::Continue)
        },
        (TickState::ValidateEntry, TickEvent::EntryValidated { check }) => match check {
            EntryCheck::Accepted => (TickState::Finished, TickAction::CallEntryPolicy),
            _ => (TickState::Finished, TickAction::Skip { reason: TickSkip::Rejected(check) }),
        },
        _ => (s, TickAction::Ignore),
    }
}

/// One step of a tick's evaluation (see `tick_step_spec`).
pub fn tick_signal_step(state: TickState, event: TickEvent) -> (r: (TickState, TickAction))
    ensures
        r == tick_step_spec(state, event),
{
    match (state, event) {
        (TickState::FetchOrderbook, TickEvent::OrderbookFetched { ok }) => if ok {
            (TickState::CheckFreshness, TickAction::CountFetch)
        } else {
            (TickState::Finished, TickAction::Skip { reason: TickSkip::OrderbookFetchFailed })
        },
        (TickState::CheckFreshness, TickEvent::OtherSideFresh { fresh }) => if fresh {
            (TickState::EvaluateExit, TickAction::Continue)
        } else {
            (TickState::Finished, TickAction::Skip { reason: TickSkip::StaleCache })
        },
        (TickState::EvaluateExit, TickEvent::ExitSignal { signal, has_instrument, books }) => if !signal {
            (TickState::CheckEntryAllowed, TickAction::Continue)
        } else if books {
            (TickState::CheckEntryAllowed, TickAction::CallExitPolicy { unrounded: !has_instrument })
        } else if !has_instrument {
            (TickState::CheckEntryAllowed, TickAction::CountUnrounded)
        } else {
            (TickState::CheckEntryAllowed, TickAction::Continue)
        },
        (TickState::CheckEntryAllowed, TickEvent::EntryAllowed { allowed }) => if allowed {
            (TickState::EvaluateEntry, TickAction::Continue)
        } else {
            (TickState::Finished, TickAction::Done)
        },
        (
            TickState::EvaluateEntry,
            TickEvent::EntrySignal { signal, has_instrument, books, safe_volume },
        ) => if !signal {
            (TickState::Finished, TickAction::Done)
        } else if !has_instrument {
            (TickState::Finished, TickAction::Skip { reason: TickSkip::NoInstrument })
        } else if !books {
            (TickState::Finished, TickAction::Done)
        } else if !safe_volume {
            (TickState::Finished, TickAction::Skip { reason: TickSkip::NoSafeVolume })
        } else {
            (TickState::ValidateEntry, TickAction::Continue)
        },
        (TickState::ValidateEntry, TickEvent::EntryValidated { check }) => match check {
            EntryCheck::Accepted => (TickState::Finished, TickAction::CallEntryPolicy),
            _ => (TickState::Finished, TickAction::Skip { reason: TickSkip::Rejected(check) }),
        },
        _ => (state, TickAction::Ignore),
    }
}

/// The position of a state along the flow.
pub open spec fn tick_rank(s: TickState) -> nat {
    match s {
        TickState::FetchOrderbook => 0,
        TickState::CheckFreshness => 1,
        TickState::EvaluateExit => 2,
        TickState::CheckEntryAllowed => 3,
        TickState::EvaluateEntry => 4,
        TickState::ValidateEntry => 5,
        TickState::Finished => 6,
    }
}

/// The event that lets a state go on to the next one along the flow.
pub open spec fn passes(s: TickState, e: TickEvent) -> bool {
    match (s, e) {
        (TickState::FetchOrderbook, TickEvent::OrderbookFetched { ok }) => ok,
        (TickState::CheckFreshness, TickEvent::OtherSideFresh { fresh }) => fresh,
        (TickState::EvaluateExit, TickEvent::ExitSignal { .. }) => true,
        (TickState::CheckEntryAllowed, TickEvent::EntryAllowed { allowed }) => allowed,
        (
            TickState::EvaluateEntry,
            TickEvent::EntrySignal { signal, has_instrument, books, safe_volume },
        ) => signal && has_instrument && books && safe_volume,
        (TickState::ValidateEntry, TickEvent::EntryValidated { check }) => check == EntryCheck::Accepted,
        _ => false,
    }
}

/// A tick only moves forward along the flow: one state at a time on the
/// event that passes, or straight to the end; an event of another state
/// changes nothing, and a finished tick does nothing more.  So the exit
/// signal is always evaluated before the entry signal, and the entry
/// policy is called only after the book was fetched, the other side was
/// fresh, entries were allowed, the entry signal fired with instrument
/// data, both books and safe volume, and the validation accepted it.
pub proof fn law_tick_moves_forward(s: TickState, e: TickEvent)
    ensures
        ({
            let (n, a) = tick_step_spec(s, e);
            &&& a == TickAction::Ignore <==> n == s
            &&& n != s ==> tick_rank(n) > tick_rank(s)
            &&& tick_rank(n) == tick_rank(s) + 1 && n != TickState::Finished ==> passes(s, e)
            &&& (a matches TickAction::CallExitPolicy { .. }) ==> s == TickState::EvaluateExit
            &&& a == TickAction::CallEntryPolicy <==> s == TickState::ValidateEntry && passes(s, e)
            &&& s == TickState::Finished ==> a == TickAction::Ignore
        }),
{
}

/// An exit signal is acted on whenever it fires: with both order books
/// cached the exit policy is called (with raw prices exactly when the coin
/// has no instrument data), without them only the missing rounding is
/// counted; either way the tick goes on to the entry check.
pub proof fn law_exit_signal_calls_policy(signal: bool, has_instrument: bool, books: bool)
    ensures
        ({
            let (n, a) = tick_step_spec(
                TickState::EvaluateExit,
                TickEvent::ExitSignal { signal, has_instrument, books },
            );
            &&& n == TickState::CheckEntryAllowed
            &&& (a matches TickAction::CallExitPolicy { .. }) <==> signal && books
            &&& signal && books ==> a == (TickAction::CallExitPolicy { unrounded: !has_instrument })
            &&& signal && !books && !has_instrument ==> a == TickAction::CountUnrounded
            &&& !signal ==> a == TickAction::Continue
        }),
{
}

/// The gates of a tick: a failed fetch or a stale other side stops it with
/// its reason; entries not allowed end it; an entry signal goes on to the
/// validation only when it fired with instrument data, both books and safe
/// volume, and otherwise ends the tick (counting a missing instrument as an
/// order constraint and missing safe volume as slippage); the validation
/// calls the entry policy exactly when it accepted, and is counted under
/// its reason otherwise.
pub proof fn law_tick_gates(
    ok: bool,
    fresh: bool,
    allowed: bool,
    signal: bool,
    has_instrument: bool,
    books: bool,
    safe_volume: bool,
    check: EntryCheck,
)
    ensures
        tick_step_spec(TickState::FetchOrderbook, TickEvent::OrderbookFetched { ok }) == if ok {
            (TickState::CheckFreshness, TickAction::CountFetch)
        } else {
            (TickState::Finished, TickAction::Skip { reason: TickSkip::OrderbookFetchFailed })
        },
        tick_step_spec(TickState::CheckFreshness, TickEvent::OtherSideFresh { fresh }) == if fresh {
            (TickState::EvaluateExit, TickAction::Continue)
        } else {
            (TickState::Finished, TickAction::Skip { reason: TickSkip::StaleCache })
        },
        tick_step_spec(TickState::CheckEntryAllowed, TickEvent::EntryAllowed { allowed }) == if allowed {
            (TickState::EvaluateEntry, TickAction::Continue)
        } else {
            (TickState::Finished, TickAction::Done)
        },
        ({
            let (n, a) = tick_step_spec(
                TickState::EvaluateEntry,
                TickEvent::EntrySignal { signal, has_instrument, books, safe_volume },
            );
            &&& n == TickState::ValidateEntry <==> signal && has_instrument && books && safe_volume
            &&& n != TickState::ValidateEntry ==> n == TickState::Finished
            &&& n == TickState::ValidateEntry ==> a == TickAction::Continue
            &&& !signal ==> a == TickAction::Done
            &&& signal && !has_instrument ==> a == (TickAction::Skip { reason: TickSkip::NoInstrument })
            &&& signal && has_instrument && !books ==> a == TickAction::Done
            &&& signal && has_instrument && books && !safe_volume ==> a == (TickAction::Skip {
                reason: TickSkip::NoSafeVolume,
            })
        }),
        ({
            let (n, a) = tick_step_spec(TickState::ValidateEntry, TickEvent::EntryValidated { check });
            &&& n == TickState::Finished
            &&& check == EntryCheck::Accepted ==> a == TickAction::CallEntryPolicy
            &&& check != EntryCheck::Accepted ==> a == (TickAction::Skip { reason: TickSkip::Rejected(check) })
        }),
{
}

/// The verdict on a sized entry names the first check it fails: the order
/// limits, then the profit after rounding, then the minimum position
/// (`qty * bybit_entry` below a positive minimum), then the minimum return;
/// it accepts exactly when every check passes.
pub proof fn law_entry_check_order(
    limits_ok: bool,
    profit_after_rounding: bool,
    qty: Dec,
    bybit_entry: Dec,
    min_position_usdt: Dec,
    below_min_roi: bool,
)
    ensures
        ({
            let small = min_position_usdt.val() > 0 && Dec::product_of(qty, bybit_entry).val()
                < min_position_usdt.val();
            let r = entry_check_spec(limits_ok, profit_after_rounding, qty, bybit_entry, min_position_usdt, below_min_roi);
            &&& (r == EntryCheck::Accepted) <==> limits_ok && profit_after_rounding && !small && !below_min_roi
            &&& !limits_ok ==> r == EntryCheck::OrderConstraint
            &&& limits_ok && !profit_after_rounding ==> r == EntryCheck::RoundingPnl
            &&& limits_ok && profit_after_rounding && small ==> r == EntryCheck::MinPosition
            &&& limits_ok && profit_after_rounding && !small && below_min_roi ==> r == EntryCheck::MinRoi
        }),
{
}

} // verus!
