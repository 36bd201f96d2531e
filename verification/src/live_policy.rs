//! The decisions of the live execution policy, as step functions: the
//! caller performs each action (reserving balances, locking the position
//! manager, placing orders, writing to the database) and hands back what
//! came of it as the next event.
//!
//! An entry runs through the kill switch, the Upbit IOC cooldown, the
//! order-size cap, the balance reservation and the position-slot check
//! before its orders; the outcome of the orders then decides what happens
//! to the position record, the reservation, the IOC cooldown and the kill
//! switch.  A close (on an exit signal, or when a position's TTL ran out)
//! claims the position, sends the exit orders, and settles or parks the
//! position for recovery.

use crate::decimal::Dec;
use crate::live_executor::Leg;
use crate::monitor_core::product_ok;
use crate::monitor_live::{is_ioc_rejection, is_upbit_ioc_rejection_message};
use vstd::prelude::*;

verus! {

/// Why an entry was refused before its orders.
#[derive(Clone, Copy, Debug, PartialEq, Eq, Structural)]
pub enum EntryRefusal {
    /// The kill switch is on.
    KillSwitch,
    /// The coin is in its Upbit IOC rejection cooldown.
    IocCooldown,
    /// The order exceeds the risk manager's order-size cap.
    OrderSizeCap,
    /// The balances do not cover the reservation.
    InsufficientBalance,
    /// The kill switch went on while the balances were being reserved.
    KillSwitchRecheck,
    /// The maximum number of concurrent positions is reached.
    MaxPositions,
}

/// How the orders of an entry ended.
#[derive(Clone, Debug)]
pub enum EntryOutcome {
    /// Both legs filled.
    BothFilled,
    /// Neither leg filled; the Upbit order's error message, if any.
    BothUnfilled { upbit_error: Option<String> },
    /// One leg filled and was closed again (or not); the other leg's error.
    SingleLegFilled { leg: Leg, emergency_closed: bool, failed_leg_error: Option<String> },
    /// An exchange error or a timeout.
    ExchangeErrorOrTimeout,
    /// The emergency close of a filled leg failed.
    EmergencyCloseFailed,
}

/// Where an entry stands.
#[derive(Clone, Copy, Debug, PartialEq, Eq, Structural)]
pub enum EntryState {
    /// Waiting for the kill switch, cooldown and order-size checks.
    AwaitChecks,
    /// Waiting for the balance reservation.
    AwaitReservation,
    /// Waiting for the position-slot check under the position lock.
    AwaitSlots,
    /// The position is registered (opening, in flight); waiting for the orders.
    AwaitExecution,
    /// Finished.
    Done,
}

/// What the caller found out since the last action.
#[derive(Clone, Debug)]
pub enum EntryEvent {
    /// The checks before any reservation.
    Checked { killed: bool, cooldown_active: bool, order_size_ok: bool },
    /// Whether the reservation was made.
    Reserved { ok: bool },
    /// The checks under the position lock.
    SlotsChecked { killed: bool, open_count: u64, max_positions: u64 },
    /// How the orders ended.
    Executed(EntryOutcome),
}

/// What becomes of the position record of an entry after its orders.
#[derive(Clone, Copy, Debug, PartialEq, Eq, Structural)]
pub enum PositionFate {
    /// Open, with the filled quantities and prices.
    Open,
    /// Removed from memory and deleted from the database.
    Deleted,
    /// Removed from memory and marked closed in the database.
    ClosedAfterEmergency,
    /// One leg open: marked partially closed, no longer in flight.
    PartiallyClosedOneLeg,
    /// Left as it is (opening).
    KeptOpening,
}

/// What becomes of the balance reservation of an entry after its orders.
#[derive(Clone, Copy, Debug, PartialEq, Eq, Structural)]
pub enum ReservationFate {
    /// Committed at the filled amounts.
    Commit,
    /// Released (also what dropping the unsettled reservation does).
    Release,
}

/// A leg failure to alert: the leg that filled and whether its emergency
/// close succeeded.
#[derive(Clone, Copy, Debug, PartialEq, Eq, Structural)]
pub struct LegFailure {
    pub leg: Leg,
    pub emergency_closed: bool,
}

/// Everything the outcome of an entry's orders decides.
#[derive(Clone, Copy, Debug, PartialEq, Eq, Structural)]
pub struct EntryConclusion {
    pub position: PositionFate,
    pub reservation: ReservationFate,
    /// Record an Upbit IOC rejection for the coin.
    pub record_ioc_reject: bool,
    /// Clear the coin's IOC rejection record.
    pub clear_ioc_reject: bool,
    /// Trigger the kill switch and send a critical alert.
    pub kill_switch: bool,
    /// Alert a leg failure.
    pub leg_failure: Option<LegFailure>,
    /// Request a balance snapshot after the entry.
    pub snapshot: bool,
}

/// The next thing to do for an entry.
#[derive(Clone, Copy, Debug, PartialEq, Eq, Structural)]
pub enum EntryAction {
    /// Stop; release the reservation first when `release`, and count the
    /// refusal as an order-constraint rejection when `counted`.
    Refuse { reason: EntryRefusal, release: bool, counted: bool },
    /// Reserve the Upbit KRW and Bybit USDT amounts of the entry.
    Reserve,
    /// Lock the positions and check the kill switch and the free slots.
    CheckSlots,
    /// Register the position as opening and in flight, then place the orders.
    OpenAndExecute,
    /// Apply what the outcome of the orders decided; the entry is over.
    Conclude(EntryConclusion),
    /// The event does not belong to this state; nothing changes.
    Ignore,
}

/// The error message is an Upbit rejection of IOC orders.
pub open spec fn ioc_error(e: Option<String>) -> bool {
    match e {
        Some(m) => is_ioc_rejection(m@),
        None => false,
    }
}

/// What the outcome of an entry's orders decides.
pub open spec fn conclusion_of(o: EntryOutcome) -> EntryConclusion {
    match o {
        EntryOutcome::BothFilled => EntryConclusion {
            position: PositionFate::Open,
            reservation: ReservationFate::Commit,
            record_ioc_reject: false,
            clear_ioc_reject: true,
            kill_switch: false,
            leg_failure: None,
            snapshot: true,
        },
        EntryOutcome::BothUnfilled { upbit_error } => EntryConclusion {
            position: PositionFate::Deleted,
            reservation: ReservationFate::Release,
            record_ioc_reject: ioc_error(upbit_error),
            clear_ioc_reject: false,
            kill_switch: false,
            leg_failure: None,
            snapshot: false,
        },
        EntryOutcome::SingleLegFilled { leg, emergency_closed, failed_leg_error } => EntryConclusion {
            position: if emergency_closed {
                PositionFate::ClosedAfterEmergency
            } else {
                PositionFate::PartiallyClosedOneLeg
            },
            reservation: ReservationFate::Release,
            record_ioc_reject: leg == Leg::Bybit && ioc_error(failed_leg_error),
            clear_ioc_reject: false,
            kill_switch: !emergency_closed,
            leg_failure: Some(LegFailure { leg, emergency_closed }),
            snapshot: false,
        },
        EntryOutcome::ExchangeErrorOrTimeout => EntryConclusion {
            position: PositionFate::Deleted,
            reservation: ReservationFate::Release,
            record_ioc_reject: false,
            clear_ioc_reject: false,
            kill_switch: false,
            leg_failure: None,
            snapshot: false,
        },
        EntryOutcome::EmergencyCloseFailed => EntryConclusion {
            position: PositionFate::KeptOpening,
            reservation: ReservationFate::Release,
            record_ioc_reject: false,
            clear_ioc_reject: false,
            kill_switch: true,
            leg_failure: None,
            snapshot: false,
        },
    }
}

/// One step of an entry: the state it leaves and the action to take.
pub open spec fn entry_step_spec(state: EntryState, event: EntryEvent) -> (EntryState, EntryAction) {
    match (state, event) {
        (EntryState::AwaitChecks, EntryEvent::Checked { killed, cooldown_active, order_size_ok }) => {
            if killed {
                (
                    EntryState::Done,
                    EntryAction::Refuse { reason: EntryRefusal::KillSwitch, release: false, counted: false },
                )
            } else if cooldown_active {
                (
                    EntryState::Done,
                    EntryAction::Refuse { reason: EntryRefusal::IocCooldown, release: false, counted: true },
                )
            } else if !order_size_ok {
                (
                    EntryState::Done,
                    EntryAction::Refuse { reason: EntryRefusal::OrderSizeCap, release: false, counted: true },
                )
            } else {
                (EntryState::AwaitReservation, EntryAction::Reserve)
            }
        },
        (EntryState::AwaitReservation, EntryEvent::Reserved { ok }) => {
            if ok {
                (EntryState::AwaitSlots, EntryAction::CheckSlots)
            } else {
                (
                    EntryState::Done,
                    EntryAction::Refuse {
                        reason: EntryRefusal::InsufficientBalance,
                        release: false,
                        counted: true,
                    },
                )
            }
        },
        (EntryState::AwaitSlots, EntryEvent::SlotsChecked { killed, open_count, max_positions }) => {
            if killed {
                (
                    EntryState::Done,
                    EntryAction::Refuse {
                        reason: EntryRefusal::KillSwitchRecheck,
                        release: true,
                        counted: false,
                    },
                )
            } else if open_count >= max_positions {
                (
                    EntryState::Done,
                    EntryAction::Refuse { reason: EntryRefusal::MaxPositions, release: true, counted: true },
                )
            } else {
                (EntryState::AwaitExecution, EntryAction::OpenAndExecute)
            }
        },
        (EntryState::AwaitExecution, EntryEvent::Executed(o)) => (
            EntryState::Done,
            EntryAction::Conclude(conclusion_of(o)),
        ),
        _ => (state, EntryAction::Ignore),
    }
}

fn is_ioc_error(e: &Option<String>) -> (r: bool)
    ensures
        r == ioc_error(*e),
{
    match e {
        Some(m) => is_upbit_ioc_rejection_message(m.as_str()),
        None => false,
    }
}

fn conclude(o: &EntryOutcome) -> (r: EntryConclusion)
    ensures
        r == conclusion_of(*o),
{
    match o {
        EntryOutcome::BothFilled => EntryConclusion {
            position: PositionFate::Open,
            reservation: ReservationFate::Commit,
            record_ioc_reject: false,
            clear_ioc_reject: true,
            kill_switch: false,
            leg_failure: None,
            snapshot: true,
        },
        EntryOutcome::BothUnfilled { upbit_error } => EntryConclusion {
            position: PositionFate::Deleted,
            reservation: ReservationFate::Release,
            record_ioc_reject: is_ioc_error(upbit_error),
            clear_ioc_reject: false,
            kill_switch: false,
            leg_failure: None,
            snapshot: false,
        },
        EntryOutcome::SingleLegFilled { leg, emergency_closed, failed_leg_error } => {
            let bybit_filled = match leg {
                Leg::Bybit => true,
                Leg::Upbit => false,
            };
            let record = bybit_filled && is_ioc_error(failed_leg_error);
            EntryConclusion {
                position: if *emergency_closed {
                    PositionFate::ClosedAfterEmergency
                } else {
                    PositionFate::PartiallyClosedOneLeg
                },
                reservation: ReservationFate::Release,
                record_ioc_reject: record,
                clear_ioc_reject: false,
                kill_switch: !*emergency_closed,
                leg_failure: Some(LegFailure { leg: *leg, emergency_closed: *emergency_closed }),
                snapshot: false,
            }
        },
        EntryOutcome::ExchangeErrorOrTimeout => EntryConclusion {
            position: PositionFate::Deleted,
            reservation: ReservationFate::Release,
            record_ioc_reject: false,
            clear_ioc_reject: false,
            kill_switch: false,
            leg_failure: None,
            snapshot: false,
        },
        EntryOutcome::EmergencyCloseFailed => EntryConclusion {
            position: PositionFate::KeptOpening,
            reservation: ReservationFate::Release,
            record_ioc_reject: false,
            clear_ioc_reject: false,
            kill_switch: true,
            leg_failure: None,
            snapshot: false,
        },
    }
}

/// One step of an entry (see `entry_step_spec`).
pub fn entry_transition(state: &EntryState, event: EntryEvent) -> (r: (EntryState, EntryAction))
    ensures
        r == entry_step_spec(*state, event),
{
    match (*state, event) {
        (EntryState::AwaitChecks, EntryEvent::Checked { killed, cooldown_active, order_size_ok }) => {
            if killed {
                (
                    EntryState::Done,
                    EntryAction::Refuse { reason: EntryRefusal::KillSwitch, release: false, counted: false },
                )
            } else if cooldown_active {
                (
                    EntryState::Done,
                    EntryAction::Refuse { reason: EntryRefusal::IocCooldown, release: false, counted: true },
                )
            } else if !order_size_ok {
                (
                    EntryState::Done,
                    EntryAction::Refuse { reason: EntryRefusal::OrderSizeCap, release: false, counted: true },
                )
            } else {
                (EntryState::AwaitReservation, EntryAction::Reserve)
            }
        },
        (EntryState::AwaitReservation, EntryEvent::Reserved { ok }) => {
            if ok {
                (EntryState::AwaitSlots, EntryAction::CheckSlots)
            } else {
                (
                    EntryState::Done,
                    EntryAction::Refuse {
                        reason: EntryRefusal::InsufficientBalance,
                        release: false,
                        counted: true,
                    },
                )
            }
        },
        (EntryState::AwaitSlots, EntryEvent::SlotsChecked { killed, open_count, max_positions }) => {
            if killed {
                (
                    EntryState::Done,
                    EntryAction::Refuse {
                        reason: EntryRefusal::KillSwitchRecheck,
                        release: true,
                        counted: false,
                    },
                )
            } else if open_count >= max_positions {
                (
                    EntryState::Done,
                    EntryAction::Refuse { reason: EntryRefusal::MaxPositions, release: true, counted: true },
                )
            } else {
                (EntryState::AwaitExecution, EntryAction::OpenAndExecute)
            }
        },
        (EntryState::AwaitExecution, EntryEvent::Executed(o)) => (
            EntryState::Done,
            EntryAction::Conclude(conclude(&o)),
        ),
        _ => (*state, EntryAction::Ignore),
    }
}

/// Orders are placed only after every check passed and the balances were
/// reserved; every refusal after the reservation releases it; and once the
/// orders ended the reservation is committed exactly when both legs filled
/// and released otherwise (a reservation left unsettled is released when
/// its token is dropped at the end of the entry).
pub proof fn law_entry_reservation_settled(state: EntryState, event: EntryEvent, o: EntryOutcome)
    ensures
        entry_step_spec(state, event).1 == EntryAction::OpenAndExecute ==> state
            == EntryState::AwaitSlots && (event matches EntryEvent::SlotsChecked {
            killed,
            open_count,
            max_positions,
        } && !killed && open_count < max_positions),
        entry_step_spec(state, event).1 == EntryAction::Reserve ==> state == EntryState::AwaitChecks
            && (event matches EntryEvent::Checked { killed, cooldown_active, order_size_ok }
            && !killed && !cooldown_active && order_size_ok),
        state == EntryState::AwaitSlots ==> (entry_step_spec(state, event).1 matches EntryAction::Refuse {
            release,
            ..
        } ==> release),
        (conclusion_of(o).reservation == ReservationFate::Commit) == (o is BothFilled),
        (conclusion_of(o).reservation == ReservationFate::Release) == !(o is BothFilled),
        state == EntryState::Done ==> entry_step_spec(state, event) == (state, EntryAction::Ignore),
{
}

/// Where the close of one position stands.
#[derive(Clone, Copy, Debug, PartialEq, Eq, Structural)]
pub enum CloseState {
    /// Waiting for the claim of the position under the position lock.
    AwaitClaim,
    /// The exit orders are out.
    AwaitExecution,
    /// Both exit legs filled; waiting for the close of the position in memory.
    AwaitRecord,
    /// Finished.
    Done,
}

/// A close of one position; `force` for a forced close after the TTL's
/// grace period.
#[derive(Clone, Copy, Debug, PartialEq, Eq, Structural)]
pub struct CloseFlow {
    pub state: CloseState,
    pub force: bool,
}

/// What the caller found out since the last action of a close.
#[derive(Clone, Copy, Debug, PartialEq, Eq, Structural)]
pub enum CloseEvent {
    /// The position was looked up: whether it exists, and whether it is open
    /// and not in flight.
    Claimed { found: bool, open_and_idle: bool },
    /// Whether both exit legs filled.
    Executed { ok: bool },
    /// Whether the position was closed in memory.
    Recorded { ok: bool },
}

/// The next thing to do for a close.
#[derive(Clone, Copy, Debug, PartialEq, Eq, Structural)]
pub enum CloseAction {
    /// Leave the position alone: it is not open or already in flight.
    Skip,
    /// Mark the position closing and in flight (when it was found, also in
    /// the database) and send the exit orders.
    SendExit { mark_closing: bool },
    /// Close the position in memory.
    CloseInMemory,
    /// Mark it closed in the database, hand the received amounts back to the
    /// balances, record the trade and request a snapshot; count a forced
    /// close when `count_forced`.
    Settle { count_forced: bool },
    /// The close in memory failed: nothing more is done.
    Abandon,
    /// Park the position for exchange recovery (not in flight); trigger the
    /// kill switch with a critical alert when `kill_switch`.
    Recover { kill_switch: bool },
    /// The event does not belong to this state; nothing changes.
    Ignore,
}

/// One step of a close: the flow it leaves and the action to take.
pub open spec fn close_step_spec(flow: CloseFlow, event: CloseEvent) -> (CloseFlow, CloseAction) {
    let done = CloseFlow { state: CloseState::Done, ..flow };
    match (flow.state, event) {
        (CloseState::AwaitClaim, CloseEvent::Claimed { found, open_and_idle }) => {
            if found && !open_and_idle {
                (done, CloseAction::Skip)
            } else {
                (
                    CloseFlow { state: CloseState::AwaitExecution, ..flow },
                    CloseAction::SendExit { mark_closing: found },
                )
            }
        },
        (CloseState::AwaitExecution, CloseEvent::Executed { ok }) => {
            if ok {
                (CloseFlow { state: CloseState::AwaitRecord, ..flow }, CloseAction::CloseInMemory)
            } else {
                (done, CloseAction::Recover { kill_switch: flow.force })
            }
        },
        (CloseState::AwaitRecord, CloseEvent::Recorded { ok }) => {
            if ok {
                (done, CloseAction::Settle { count_forced: flow.force })
            } else {
                (done, CloseAction::Abandon)
            }
        },
        _ => (flow, CloseAction::Ignore),
    }
}

impl CloseFlow {
    /// The start of a close; `force` after the TTL's grace period.
    pub fn start(force: bool) -> (r: CloseFlow)
        ensures
            r == (CloseFlow { state: CloseState::AwaitClaim, force }),
    {
        CloseFlow { state: CloseState::AwaitClaim, force }
    }
}

/// One step of a close (see `close_step_spec`).
pub fn close_transition(flow: &CloseFlow, event: CloseEvent) -> (r: (CloseFlow, CloseAction))
    ensures
        r == close_step_spec(*flow, event),
{
    let done = CloseFlow { state: CloseState::Done, force: flow.force };
    match (flow.state, event) {
        (CloseState::AwaitClaim, CloseEvent::Claimed { found, open_and_idle }) => {
            if found && !open_and_idle {
                (done, CloseAction::Skip)
            } else {
                (
                    CloseFlow { state: CloseState::AwaitExecution, force: flow.force },
                    CloseAction::SendExit { mark_closing: found },
                )
            }
        },
        (CloseState::AwaitExecution, CloseEvent::Executed { ok }) => {
            if ok {
                (CloseFlow { state: CloseState::AwaitRecord, force: flow.force }, CloseAction::CloseInMemory)
            } else {
                (done, CloseAction::Recover { kill_switch: flow.force })
            }
        },
        (CloseState::AwaitRecord, CloseEvent::Recorded { ok }) => {
            if ok {
                (done, CloseAction::Settle { count_forced: flow.force })
            } else {
                (done, CloseAction::Abandon)
            }
        },
        _ => (*flow, CloseAction::Ignore),
    }
}

/// A position that is found but not open and idle is never sent an exit
/// order; a failed exit triggers the kill switch exactly in a forced close;
/// a settled close counts as forced exactly in a forced close; the flow
/// never changes whether it is forced.
pub proof fn law_close_flow(flow: CloseFlow, event: CloseEvent)
    ensures
        flow.state == CloseState::AwaitClaim && event == (CloseEvent::Claimed {
            found: true,
            open_and_idle: false,
        }) ==> close_step_spec(flow, event).1 == CloseAction::Skip,
        close_step_spec(flow, event).1 matches CloseAction::SendExit { .. } ==> flow.state
            == CloseState::AwaitClaim,
        close_step_spec(flow, event).1 matches CloseAction::Recover { kill_switch } ==> kill_switch
            == flow.force,
        close_step_spec(flow, event).1 matches CloseAction::Settle { count_forced } ==> count_forced
            == flow.force && flow.state == CloseState::AwaitRecord,
        close_step_spec(flow, event).0.force == flow.force,
{
}

/// What an entry of `qty` reserves and sends: the Upbit KRW amount
/// `upbit_price_krw * qty`, and the order size `qty * bybit_entry` USDT
/// (checked against the order-size cap, and reserved on Bybit).
pub fn entry_amounts(upbit_price_krw: Dec, qty: Dec, bybit_entry: Dec) -> (r: (Dec, Dec))
    requires
        product_ok(upbit_price_krw, qty),
        product_ok(qty, bybit_entry),
    ensures
        r.0 == Dec::product_of(upbit_price_krw, qty),
        r.1 == Dec::product_of(qty, bybit_entry),
{
    (upbit_price_krw.mul(&qty), qty.mul(&bybit_entry))
}

/// The amounts actually traded on each exchange: the average price times
/// the filled quantity, in KRW on Upbit and USDT on Bybit.  An entry
/// commits its reservation at these amounts; an exit hands them back to
/// the available balances.
pub fn filled_amounts(
    upbit_avg_price_krw: Dec,
    upbit_filled_qty: Dec,
    bybit_avg_price: Dec,
    bybit_filled_qty: Dec,
) -> (r: (Dec, Dec))
    requires
        product_ok(upbit_avg_price_krw, upbit_filled_qty),
        product_ok(bybit_avg_price, bybit_filled_qty),
    ensures
        r.0 == Dec::product_of(upbit_avg_price_krw, upbit_filled_qty),
        r.1 == Dec::product_of(bybit_avg_price, bybit_filled_qty),
{
    (upbit_avg_price_krw.mul(&upbit_filled_qty), bybit_avg_price.mul(&bybit_filled_qty))
}

/// Once the kill switch is found off under the position lock, an entry is
/// refused for the position limit exactly when the open positions already
/// reach it (releasing its reservation and counting the refusal); while a
/// slot is free, the position is opened and its orders placed.
pub proof fn law_entry_slots(open_count: u64, max_positions: u64)
    ensures
        ({
            let (n, a) = entry_step_spec(
                EntryState::AwaitSlots,
                EntryEvent::SlotsChecked { killed: false, open_count, max_positions },
            );
            &&& (a matches EntryAction::Refuse { reason: EntryRefusal::MaxPositions, .. }) <==> open_count
                >= max_positions
            &&& open_count >= max_positions ==> n == EntryState::Done && a == (EntryAction::Refuse {
                reason: EntryRefusal::MaxPositions,
                release: true,
                counted: true,
            })
            &&& open_count < max_positions ==> n == EntryState::AwaitExecution && a
                == EntryAction::OpenAndExecute
        }),
{
}

/// The checks before an entry refuse it, in order, for the kill switch
/// (neither counted nor releasing anything), the IOC cooldown and the order
/// size cap (counted); only when all pass are the balances reserved.  A
/// short balance refuses the entry (counted, nothing to release); a
/// reservation goes on to the slot check; the kill switch found on under
/// the position lock refuses the entry and releases the reservation.
pub proof fn law_entry_checks(killed: bool, cooldown_active: bool, order_size_ok: bool, ok: bool, open_count: u64, max_positions: u64)
    ensures
        ({
            let (n, a) = entry_step_spec(
                EntryState::AwaitChecks,
                EntryEvent::Checked { killed, cooldown_active, order_size_ok },
            );
            &&& killed ==> n == EntryState::Done && a == (EntryAction::Refuse {
                reason: EntryRefusal::KillSwitch,
                release: false,
                counted: false,
            })
            &&& !killed && cooldown_active ==> n == EntryState::Done && a == (EntryAction::Refuse {
                reason: EntryRefusal::IocCooldown,
                release: false,
                counted: true,
            })
            &&& !killed && !cooldown_active && !order_size_ok ==> n == EntryState::Done && a
                == (EntryAction::Refuse { reason: EntryRefusal::OrderSizeCap, release: false, counted: true })
            &&& (a == EntryAction::Reserve) <==> !killed && !cooldown_active && order_size_ok
            &&& a == EntryAction::Reserve ==> n == EntryState::AwaitReservation
        }),
        ({
            let (n, a) = entry_step_spec(EntryState::AwaitReservation, EntryEvent::Reserved { ok });
            &&& ok ==> n == EntryState::AwaitSlots && a == EntryAction::CheckSlots
            &&& !ok ==> n == EntryState::Done && a == (EntryAction::Refuse {
                reason: EntryRefusal::InsufficientBalance,
                release: false,
                counted: true,
            })
        }),
        entry_step_spec(
            EntryState::AwaitSlots,
            EntryEvent::SlotsChecked { killed: true, open_count, max_positions },
        ) == (EntryState::Done, EntryAction::Refuse {
            reason: EntryRefusal::KillSwitchRecheck,
            release: true,
            counted: false,
        }),
{
}

/// What the outcome of an entry's orders decides: both legs filled keep
/// the position open, commit the reservation, clear the coin's IOC record
/// and request a snapshot (nothing else does); the kill switch is triggered
/// exactly when a filled leg could not be closed again; a position with no
/// fill is deleted; an IOC rejection is recorded only from the Upbit
/// error of an entry with no fill, or from the error of the failed leg of
/// a single fill whose filled leg was Bybit; a single fill alerts its leg
/// failure.
pub proof fn law_entry_conclusion(o: EntryOutcome)
    ensures
        ({
            let c = conclusion_of(o);
            &&& (c.position == PositionFate::Open) <==> o is BothFilled
            &&& c.snapshot <==> o is BothFilled
            &&& c.clear_ioc_reject <==> o is BothFilled
            &&& c.kill_switch <==> (o matches EntryOutcome::SingleLegFilled { emergency_closed, .. }
                && !emergency_closed) || o is EmergencyCloseFailed
            &&& (c.position == PositionFate::Deleted) <==> o is BothUnfilled || o is ExchangeErrorOrTimeout
            &&& o is EmergencyCloseFailed ==> c.position == PositionFate::KeptOpening
            &&& (o matches EntryOutcome::SingleLegFilled { leg, emergency_closed, failed_leg_error } ==> {
                &&& c.position == (if emergency_closed {
                    PositionFate::ClosedAfterEmergency
                } else {
                    PositionFate::PartiallyClosedOneLeg
                })
                &&& c.leg_failure == Some(LegFailure { leg, emergency_closed })
                &&& c.record_ioc_reject == (leg == Leg::Bybit && ioc_error(failed_leg_error))
            })
            &&& (o matches EntryOutcome::BothUnfilled { upbit_error } ==> c.record_ioc_reject == ioc_error(
                upbit_error,
            ))
            &&& !(o is SingleLegFilled) ==> c.leg_failure is None
            &&& (o is BothFilled || o is ExchangeErrorOrTimeout || o is EmergencyCloseFailed) ==> !c.record_ioc_reject
        }),
        entry_step_spec(EntryState::AwaitExecution, EntryEvent::Executed(o)) == (
            EntryState::Done,
            EntryAction::Conclude(conclusion_of(o)),
        ),
{
}

/// A close sends its exit orders unless the position was found not open
/// or already in flight, marking it closing exactly when it was found;
/// filled exit orders lead to the close in memory, failed ones to the
/// recovery; a close recorded in memory is settled, one that failed is
/// abandoned.
pub proof fn law_close_steps(force: bool, found: bool, open_and_idle: bool, ok: bool)
    ensures
        ({
            let f = CloseFlow { state: CloseState::AwaitClaim, force };
            let (n, a) = close_step_spec(f, CloseEvent::Claimed { found, open_and_idle });
            &&& found && !open_and_idle ==> a == CloseAction::Skip && n.state == CloseState::Done
            &&& !(found && !open_and_idle) ==> a == (CloseAction::SendExit { mark_closing: found })
                && n.state == CloseState::AwaitExecution
        }),
        ({
            let f = CloseFlow { state: CloseState::AwaitExecution, force };
            let (n, a) = close_step_spec(f, CloseEvent::Executed { ok });
            &&& ok ==> a == CloseAction::CloseInMemory && n.state == CloseState::AwaitRecord
            &&& !ok ==> a == (CloseAction::Recover { kill_switch: force }) && n.state == CloseState::Done
        }),
        ({
            let f = CloseFlow { state: CloseState::AwaitRecord, force };
            let (n, a) = close_step_spec(f, CloseEvent::Recorded { ok });
            &&& ok ==> a == (CloseAction::Settle { count_forced: force })
            &&& !ok ==> a == CloseAction::Abandon
            &&& n.state == CloseState::Done
        }),
{
}

} // verus!
