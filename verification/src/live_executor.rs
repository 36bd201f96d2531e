//! The decisions of the live order executor: limit prices with slippage,
//! what to do with the outcome of the two legs of an entry or an exit, the
//! settlement of a filled entry, and the escalation of an emergency close.
//! Placing orders, waiting and sleeping are left to the caller.

use crate::decimal::{abs_int, pow10, unit, Dec};
use crate::instrument::InstrumentInfo;
use vstd::prelude::*;

verus! {

/// Order leg.
#[derive(Debug, Clone, Copy, PartialEq, Eq, Structural)]
pub enum Leg {
    /// Upbit spot.
    Upbit,
    /// Bybit futures.
    Bybit,
}

/// The displayed name of a leg.
pub open spec fn leg_name(l: Leg) -> Seq<char> {
    match l {
        Leg::Upbit => "upbit"@,
        Leg::Bybit => "bybit"@,
    }
}

/// The debug name of a leg.
pub open spec fn leg_debug_name(l: Leg) -> Seq<char> {
    match l {
        Leg::Upbit => "Upbit"@,
        Leg::Bybit => "Bybit"@,
    }
}

impl Leg {
    /// The displayed name: `upbit` or `bybit`.
    pub fn to_string(&self) -> (r: String)
        ensures
            r@ == leg_name(*self),
    {
        match self {
            Leg::Upbit => "upbit".to_string(),
            Leg::Bybit => "bybit".to_string(),
        }
    }

    fn debug_name(&self) -> (r: String)
        ensures
            r@ == leg_debug_name(*self),
    {
        match self {
            Leg::Upbit => "Upbit".to_string(),
            Leg::Bybit => "Bybit".to_string(),
        }
    }
}

/// Why an order execution failed.
#[derive(Debug, Clone, PartialEq, Eq)]
pub enum OrderExecutionError {
    /// Neither leg filled (entry abandoned).
    BothUnfilled,
    /// Only one leg filled (an emergency close was attempted).
    SingleLegFilled {
        leg: Leg,
        emergency_closed: bool,
    },
    /// The emergency close failed (naked exposure).
    EmergencyCloseFailed {
        leg: Leg,
        order_id: String,
    },
    /// An exchange error, by its message.
    ExchangeError(String),
    /// A timeout.
    Timeout {
        leg: Option<Leg>,
    },
}

/// `true` or `false`.
pub open spec fn bool_name(b: bool) -> Seq<char> {
    if b {
        "true"@
    } else {
        "false"@
    }
}

/// The message of an execution error.
pub open spec fn execution_error_message(e: OrderExecutionError) -> Seq<char> {
    match e {
        OrderExecutionError::BothUnfilled => "both legs unfilled, entry abandoned"@,
        OrderExecutionError::SingleLegFilled { leg, emergency_closed } => "single leg filled: "@
            + leg_name(leg) + ", emergency_closed="@ + bool_name(emergency_closed),
        OrderExecutionError::EmergencyCloseFailed { leg, order_id } => "emergency close failed: "@
            + leg_name(leg) + " order_id="@ + order_id@,
        OrderExecutionError::ExchangeError(m) => "exchange error: "@ + m@,
        OrderExecutionError::Timeout { leg } => "timeout: leg="@ + match leg {
            Some(l) => "Some("@ + leg_debug_name(l) + ")"@,
            None => "None"@,
        },
    }
}

fn bool_string(b: bool) -> (r: String)
    ensures
        r@ == bool_name(b),
{
    if b {
        "true".to_string()
    } else {
        "false".to_string()
    }
}

impl OrderExecutionError {
    /// The message of the error.
    pub fn to_string(&self) -> (r: String)
        ensures
            r@ == execution_error_message(*self),
    {
        match self {
            OrderExecutionError::BothUnfilled => "both legs unfilled, entry abandoned".to_string(),
            OrderExecutionError::SingleLegFilled { leg, emergency_closed } => {
                let mut m = "single leg filled: ".to_string();
                m.append(leg.to_string().as_str());
                m.append(", emergency_closed=");
                m.append(bool_string(*emergency_closed).as_str());
                m
            },
            OrderExecutionError::EmergencyCloseFailed { leg, order_id } => {
                let mut m = "emergency close failed: ".to_string();
                m.append(leg.to_string().as_str());
                m.append(" order_id=");
                m.append(order_id.as_str());
                m
            },
            OrderExecutionError::ExchangeError(e) => {
                let mut m = "exchange error: ".to_string();
                m.append(e.as_str());
                m
            },
            OrderExecutionError::Timeout { leg } => {
                let mut m = "timeout: leg=".to_string();
                match leg {
                    Some(l) => {
                        m.append("Some(");
                        m.append(l.debug_name().as_str());
                        m.append(")");
                    },
                    None => {
                        m.append("None");
                    },
                }
                m
            },
        }
    }
}

/// A request to close a position.
#[derive(Debug, Clone)]
pub struct ExitRequest {
    pub coin: String,
    /// Quantity to close.
    pub qty: Dec,
    pub instrument_info: InstrumentInfo,
    /// Client order id of the exit.
    pub exit_client_order_id: String,
}

/// The fill of one order.
#[derive(Debug, Clone)]
pub struct OrderFill {
    /// Exchange order id.
    pub id: String,
    pub filled_qty: Dec,
    pub avg_price: Dec,
    pub paid_fee: Dec,
}

/// A filled entry.
#[derive(Debug, Clone)]
pub struct ExecutedEntry {
    pub upbit_order_id: String,
    pub bybit_order_id: String,
    pub upbit_filled_qty: Dec,
    pub bybit_filled_qty: Dec,
    pub upbit_avg_price_krw: Dec,
    pub bybit_avg_price: Dec,
    pub upbit_fee: Dec,
    pub bybit_fee: Dec,
    /// The smaller of the two legs, the Upbit leg net of its coin fee.
    pub effective_qty: Dec,
    /// Value in USDT of the excess of one leg, when it is dust.
    pub adjustment_cost: Dec,
}

/// A filled exit.
#[derive(Debug, Clone)]
pub struct ExecutedExit {
    pub upbit_order_id: String,
    pub bybit_order_id: String,
    pub upbit_filled_qty: Dec,
    pub bybit_filled_qty: Dec,
    pub upbit_avg_price_krw: Dec,
    pub bybit_avg_price: Dec,
    pub upbit_fee: Dec,
    pub bybit_fee: Dec,
}

/// The Upbit market code of `coin`: `KRW-<coin>`.
pub fn upbit_market(coin: &str) -> (r: String)
    ensures
        r@ == "KRW-"@ + coin@,
{
    let mut m = "KRW-".to_string();
    m.append(coin);
    m
}

/// The Bybit symbol of `coin`: `<coin>USDT`.
pub fn bybit_symbol(coin: &str) -> (r: String)
    ensures
        r@ == coin@ + "USDT"@,
{
    let mut m = coin.to_owned();
    m.append("USDT");
    m
}

/// `|a * b| <= |a| * bound` when `|b| <= bound`.
proof fn lemma_abs_mul_le(a: int, b: int, bound: int)
    requires
        abs_int(b) <= bound,
    ensures
        abs_int(a * b) <= abs_int(a) * bound,
{
    assert(abs_int(a * b) == abs_int(a) * abs_int(b)) by (nonlinear_arith);
    assert(abs_int(a) * abs_int(b) <= abs_int(a) * bound) by (nonlinear_arith)
        requires
            abs_int(b) <= bound,
            abs_int(a) >= 0,
    ;
}

/// The limit prices of an entry: the Upbit buy price raised and the Bybit
/// sell price lowered by the slippage margin (a fraction).
pub open spec fn entry_limit_prices_spec(upbit_krw_price: Dec, bybit_usdt_price: Dec, slippage: Dec) -> (
    Dec,
    Dec,
) {
    (
        Dec::product_of(upbit_krw_price, Dec::sum_of(Dec::one_value(), slippage)),
        Dec::product_of(bybit_usdt_price, Dec::difference_of(Dec::one_value(), slippage)),
    )
}

/// The magnitudes stay far below the 96-bit limit of `Decimal`.
pub open spec fn limit_prices_in_range(upbit_krw_price: Dec, bybit_usdt_price: Dec, slippage: Dec) -> bool {
    &&& abs_int(slippage.val()) < pow10(54)
    &&& abs_int(upbit_krw_price.val()) * (abs_int(slippage.val()) + 2 * unit(0)) < pow10(82)
    &&& abs_int(bybit_usdt_price.val()) * (abs_int(slippage.val()) + 2 * unit(0)) < pow10(82)
}

/// See `entry_limit_prices_spec`.
pub fn entry_limit_prices(upbit_krw_price: Dec, bybit_usdt_price: Dec, slippage: Dec) -> (r: (
    Dec,
    Dec,
))
    requires
        limit_prices_in_range(upbit_krw_price, bybit_usdt_price, slippage),
    ensures
        r == entry_limit_prices_spec(upbit_krw_price, bybit_usdt_price, slippage),
{
    let one = Dec::one();
    proof {
        crate::decimal::lemma_pow10_pos(54);
        assert(pow10(55) == 10 * pow10(54));
        assert(unit(0) == pow10(28));
        crate::decimal::lemma_pow10_mono(28, 54);
    }
    proof {
        crate::decimal::lemma_pow10_pos(28);
        assert(one.val() == pow10(28));
    }
    let up = one.add(&slippage);
    let down = one.sub(&slippage);
    proof {
        lemma_abs_mul_le(upbit_krw_price.val(), up.val(), abs_int(slippage.val()) + 2 * unit(0));
        lemma_abs_mul_le(bybit_usdt_price.val(), down.val(), abs_int(slippage.val()) + 2 * unit(0));
        assert(pow10(83) == 10 * pow10(82));
        crate::decimal::lemma_pow10_pos(82);
    }
    (upbit_krw_price.mul(&up), bybit_usdt_price.mul(&down))
}

/// What to do after the two entry orders returned (`None`: the order
/// failed or timed out).
#[derive(Debug, Clone, Copy)]
pub enum EntryStep {
    /// Both legs filled: settle them.
    Settle,
    /// Only `leg` filled: close its filled quantity in an emergency.
    EmergencyClose { leg: Leg, qty: Dec },
    /// Neither filled: give the entry up.
    Abandon,
}

/// The step after an entry: settle both fills, close the only filled leg,
/// or abandon.
pub open spec fn entry_step_spec(upbit: Option<OrderFill>, bybit: Option<OrderFill>) -> EntryStep {
    match (upbit, bybit) {
        (Some(_), Some(_)) => EntryStep::Settle,
        (Some(u), None) => EntryStep::EmergencyClose { leg: Leg::Upbit, qty: u.filled_qty },
        (None, Some(b)) => EntryStep::EmergencyClose { leg: Leg::Bybit, qty: b.filled_qty },
        (None, None) => EntryStep::Abandon,
    }
}

/// See `entry_step_spec`.
pub fn entry_step(upbit: &Option<OrderFill>, bybit: &Option<OrderFill>) -> (r: EntryStep)
    ensures
        r == entry_step_spec(*upbit, *bybit),
{
    match (upbit, bybit) {
        (Some(_), Some(_)) => EntryStep::Settle,
        (Some(u), None) => EntryStep::EmergencyClose { leg: Leg::Upbit, qty: u.filled_qty },
        (None, Some(b)) => EntryStep::EmergencyClose { leg: Leg::Bybit, qty: b.filled_qty },
        (None, None) => EntryStep::Abandon,
    }
}

/// The Upbit quantity net of its coin fee: `filled * (1 - fee_rate)`.
pub open spec fn net_of_fee(filled: Dec, fee_rate: Dec) -> Dec {
    Dec::product_of(filled, Dec::difference_of(Dec::one_value(), fee_rate))
}

/// The settlement of an entry whose two legs filled.
pub open spec fn settlement(
    bybit_usdt_price: Dec,
    upbit: OrderFill,
    bybit: OrderFill,
    upbit_fee_rate: Dec,
    dust_threshold: Dec,
) -> ExecutedEntry {
    let net = net_of_fee(upbit.filled_qty, upbit_fee_rate);
    let effective = Dec::min_of(net, bybit.filled_qty);
    let upbit_excess = Dec::difference_of(net, effective);
    let bybit_excess = Dec::difference_of(bybit.filled_qty, effective);
    let excess_usdt = Dec::product_of(Dec::max_of(upbit_excess, bybit_excess), bybit_usdt_price);
    let cost = if (upbit_excess.val() > 0 || bybit_excess.val() > 0) && excess_usdt.val()
        <= dust_threshold.val() {
        excess_usdt
    } else {
        Dec::zero_value()
    };
    ExecutedEntry {
        upbit_order_id: upbit.id,
        bybit_order_id: bybit.id,
        upbit_filled_qty: upbit.filled_qty,
        bybit_filled_qty: bybit.filled_qty,
        upbit_avg_price_krw: upbit.avg_price,
        bybit_avg_price: bybit.avg_price,
        upbit_fee: upbit.paid_fee,
        bybit_fee: bybit.paid_fee,
        effective_qty: effective,
        adjustment_cost: cost,
    }
}

/// The magnitudes of a settlement stay far below the 96-bit limit of
/// `Decimal`.
pub open spec fn settlement_in_range(
    bybit_usdt_price: Dec,
    upbit_filled: Dec,
    bybit_filled: Dec,
    upbit_fee_rate: Dec,
) -> bool {
    let fu = abs_int(upbit_filled.val());
    let fee = abs_int(upbit_fee_rate.val()) + 2 * unit(0);
    &&& abs_int(upbit_fee_rate.val()) < pow10(54)
    &&& fu * fee < pow10(82)
    &&& abs_int(bybit_filled.val()) < pow10(54)
    &&& abs_int(bybit_usdt_price.val()) * (fu * fee / pow10(28) + abs_int(bybit_filled.val()) + 4
        * unit(0)) < pow10(82)
}

/// Settles an entry whose two legs filled: the effective quantity is the
/// smaller of the Bybit fill and the Upbit fill net of its coin fee; when
/// one leg exceeds it and the excess is worth at most `dust_threshold`
/// USDT, that value is the adjustment cost.
pub fn settle_filled_entry(
    bybit_usdt_price: Dec,
    upbit: OrderFill,
    bybit: OrderFill,
    upbit_fee_rate: Dec,
    dust_threshold: Dec,
) -> (r: ExecutedEntry)
    requires
        settlement_in_range(bybit_usdt_price, upbit.filled_qty, bybit.filled_qty, upbit_fee_rate),
    ensures
        r == settlement(bybit_usdt_price, upbit, bybit, upbit_fee_rate, dust_threshold),
{
    let ghost u = unit(0);
    proof {
        assert(u == pow10(28));
        crate::decimal::lemma_pow10_pos(28);
        crate::decimal::lemma_pow10_mono(28, 54);
        assert(pow10(55) == 10 * pow10(54));
        assert(pow10(83) == 10 * pow10(82));
        crate::decimal::lemma_pow10_pos(82);
        crate::decimal::lemma_pow10_add(28, 54);
        crate::decimal::lemma_pow10_add(28, 26);
        assert(pow10(82) == pow10(28) * pow10(54));
    }
    let one = Dec::one();
    let omf = one.sub(&upbit_fee_rate);
    let ghost fu = abs_int(upbit.filled_qty.val());
    let ghost fb = abs_int(bybit.filled_qty.val());
    let ghost fee = abs_int(upbit_fee_rate.val()) + 2 * u;
    proof {
        assert(abs_int(omf.val()) <= fee);
        lemma_abs_mul_le(upbit.filled_qty.val(), omf.val(), fee);
    }
    let net = upbit.filled_qty.mul(&omf);
    let ghost n = fu * fee / pow10(28) + u;
    proof {
        crate::decimal::lemma_pow10_add(28, 28);
        let p = upbit.filled_qty.val() * omf.val();
        assert(abs_int(p) <= fu * fee);
        assert(abs_int(net.val()) <= n) by (nonlinear_arith)
            requires
                -pow10(56) <= net.val() * pow10(28) - p <= pow10(56),
                abs_int(p) <= fu * fee,
                pow10(56) == pow10(28) * pow10(28),
                pow10(28) > 0,
                n == fu * fee / pow10(28) + pow10(28),
        ;
        assert(fu * fee / pow10(28) < pow10(54)) by (nonlinear_arith)
            requires
                fu * fee < pow10(82),
                pow10(82) == pow10(28) * pow10(54),
                pow10(28) > 0,
        ;
    }
    let effective = net.min(&bybit.filled_qty);
    let upbit_excess = net.sub(&effective);
    let bybit_excess = bybit.filled_qty.sub(&effective);
    let zero = Dec::zero();
    let mut cost = Dec::zero();
    if upbit_excess.gt(&zero) || bybit_excess.gt(&zero) {
        let worst = upbit_excess.max(&bybit_excess);
        proof {
            assert(abs_int(worst.val()) <= n + fb + u);
            lemma_abs_mul_le(bybit_usdt_price.val(), worst.val(), n + fb + u);
            assert(n + fb + u == fu * fee / pow10(28) + fb + 2 * u);
            assert(abs_int(bybit_usdt_price.val()) * (n + fb + u) <= abs_int(bybit_usdt_price.val())
                * (fu * fee / pow10(28) + fb + 4 * u)) by (nonlinear_arith)
                requires
                    n + fb + u <= fu * fee / pow10(28) + fb + 4 * u,
            ;
        }
        let excess_usdt = worst.mul(&bybit_usdt_price);
        if excess_usdt.le(&dust_threshold) {
            cost = excess_usdt;
        }
    }
    ExecutedEntry {
        upbit_order_id: upbit.id,
        bybit_order_id: bybit.id,
        upbit_filled_qty: upbit.filled_qty,
        bybit_filled_qty: bybit.filled_qty,
        upbit_avg_price_krw: upbit.avg_price,
        bybit_avg_price: bybit.avg_price,
        upbit_fee: upbit.paid_fee,
        bybit_fee: bybit.paid_fee,
        effective_qty: effective,
        adjustment_cost: cost,
    }
}

/// The result of an entry from the outcome of its two orders: both legs
/// filled are settled; a single filled leg is reported with whether its
/// emergency close (see `entry_step`) succeeded; no fill gives up.
pub open spec fn entry_result_spec(
    bybit_usdt_price: Dec,
    upbit: Option<OrderFill>,
    bybit: Option<OrderFill>,
    upbit_fee_rate: Dec,
    dust_threshold: Dec,
    emergency_closed: bool,
) -> Result<ExecutedEntry, OrderExecutionError> {
    match (upbit, bybit) {
        (Some(u), Some(b)) => Ok(settlement(bybit_usdt_price, u, b, upbit_fee_rate, dust_threshold)),
        (Some(_), None) => Err(OrderExecutionError::SingleLegFilled { leg: Leg::Upbit, emergency_closed }),
        (None, Some(_)) => Err(OrderExecutionError::SingleLegFilled { leg: Leg::Bybit, emergency_closed }),
        (None, None) => Err(OrderExecutionError::BothUnfilled),
    }
}

/// See `entry_result_spec`.
pub fn entry_result(
    bybit_usdt_price: Dec,
    upbit: Option<OrderFill>,
    bybit: Option<OrderFill>,
    upbit_fee_rate: Dec,
    dust_threshold: Dec,
    emergency_closed: bool,
) -> (r: Result<ExecutedEntry, OrderExecutionError>)
    requires
        upbit is Some && bybit is Some ==> settlement_in_range(
            bybit_usdt_price,
            upbit->0.filled_qty,
            bybit->0.filled_qty,
            upbit_fee_rate,
        ),
    ensures
        r == entry_result_spec(bybit_usdt_price, upbit, bybit, upbit_fee_rate, dust_threshold, emergency_closed),
{
    match (upbit, bybit) {
        (Some(u), Some(b)) => Ok(settle_filled_entry(bybit_usdt_price, u, b, upbit_fee_rate, dust_threshold)),
        (Some(_), None) => Err(OrderExecutionError::SingleLegFilled { leg: Leg::Upbit, emergency_closed }),
        (None, Some(_)) => Err(OrderExecutionError::SingleLegFilled { leg: Leg::Bybit, emergency_closed }),
        (None, None) => Err(OrderExecutionError::BothUnfilled),
    }
}

/// The result of an exit from the outcome of its two orders.
pub open spec fn exit_result_spec(upbit: Option<OrderFill>, bybit: Option<OrderFill>) -> Result<
    ExecutedExit,
    OrderExecutionError,
> {
    match (upbit, bybit) {
        (Some(u), Some(b)) => Ok(
            ExecutedExit {
                upbit_order_id: u.id,
                bybit_order_id: b.id,
                upbit_filled_qty: u.filled_qty,
                bybit_filled_qty: b.filled_qty,
                upbit_avg_price_krw: u.avg_price,
                bybit_avg_price: b.avg_price,
                upbit_fee: u.paid_fee,
                bybit_fee: b.paid_fee,
            },
        ),
        (Some(_), None) => Err(
            OrderExecutionError::SingleLegFilled { leg: Leg::Upbit, emergency_closed: false },
        ),
        (None, Some(_)) => Err(
            OrderExecutionError::SingleLegFilled { leg: Leg::Bybit, emergency_closed: false },
        ),
        (None, None) => Err(OrderExecutionError::BothUnfilled),
    }
}

/// See `exit_result_spec`.
pub fn exit_result(upbit: Option<OrderFill>, bybit: Option<OrderFill>) -> (r: Result<
    ExecutedExit,
    OrderExecutionError,
>)
    ensures
        r == exit_result_spec(upbit, bybit),
{
    match (upbit, bybit) {
        (Some(u), Some(b)) => Ok(
            ExecutedExit {
                upbit_order_id: u.id,
                bybit_order_id: b.id,
                upbit_filled_qty: u.filled_qty,
                bybit_filled_qty: b.filled_qty,
                upbit_avg_price_krw: u.avg_price,
                bybit_avg_price: b.avg_price,
                upbit_fee: u.paid_fee,
                bybit_fee: b.paid_fee,
            },
        ),
        (Some(_), None) => Err(
            OrderExecutionError::SingleLegFilled { leg: Leg::Upbit, emergency_closed: false },
        ),
        (None, Some(_)) => Err(
            OrderExecutionError::SingleLegFilled { leg: Leg::Bybit, emergency_closed: false },
        ),
        (None, None) => Err(OrderExecutionError::BothUnfilled),
    }
}

/// The two orders of an entry or an exit decide its course by which of
/// them filled: both filled are settled (an exit reports each leg's order
/// id, quantity, price and fee as filled; an entry reports the settlement
/// of the two fills, which also keeps each leg's order id, quantity, price
/// and fee); exactly one filled is closed again in an emergency for its
/// filled quantity and reported as a single-leg fill of that leg; none
/// filled gives the entry or exit up.
pub proof fn law_order_outcomes(
    upbit: Option<OrderFill>,
    bybit: Option<OrderFill>,
    bybit_usdt_price: Dec,
    upbit_fee_rate: Dec,
    dust_threshold: Dec,
    emergency_closed: bool,
)
    ensures
        (entry_step_spec(upbit, bybit) is Settle) <==> upbit is Some && bybit is Some,
        (entry_step_spec(upbit, bybit) is Abandon) <==> upbit is None && bybit is None,
        upbit is Some && bybit is None ==> entry_step_spec(upbit, bybit) == (EntryStep::EmergencyClose {
            leg: Leg::Upbit,
            qty: upbit->0.filled_qty,
        }),
        bybit is Some && upbit is None ==> entry_step_spec(upbit, bybit) == (EntryStep::EmergencyClose {
            leg: Leg::Bybit,
            qty: bybit->0.filled_qty,
        }),
        (exit_result_spec(upbit, bybit) is Ok) <==> upbit is Some && bybit is Some,
        (entry_result_spec(bybit_usdt_price, upbit, bybit, upbit_fee_rate, dust_threshold, emergency_closed) is Ok)
            <==> upbit is Some && bybit is Some,
        upbit is Some && bybit is Some ==> ({
            let u = upbit->0;
            let b = bybit->0;
            let x = exit_result_spec(upbit, bybit)->Ok_0;
            let e = entry_result_spec(bybit_usdt_price, upbit, bybit, upbit_fee_rate, dust_threshold, emergency_closed)->Ok_0;
            &&& x.upbit_order_id == u.id && x.bybit_order_id == b.id
            &&& x.upbit_filled_qty == u.filled_qty && x.bybit_filled_qty == b.filled_qty
            &&& x.upbit_avg_price_krw == u.avg_price && x.bybit_avg_price == b.avg_price
            &&& x.upbit_fee == u.paid_fee && x.bybit_fee == b.paid_fee
            &&& e == settlement(bybit_usdt_price, u, b, upbit_fee_rate, dust_threshold)
            &&& e.upbit_order_id == u.id && e.bybit_order_id == b.id
            &&& e.upbit_filled_qty == u.filled_qty && e.bybit_filled_qty == b.filled_qty
            &&& e.upbit_avg_price_krw == u.avg_price && e.bybit_avg_price == b.avg_price
            &&& e.upbit_fee == u.paid_fee && e.bybit_fee == b.paid_fee
        }),
        upbit is Some && bybit is None ==> exit_result_spec(upbit, bybit) == Err::<ExecutedExit, _>(
            OrderExecutionError::SingleLegFilled { leg: Leg::Upbit, emergency_closed: false },
        ) && entry_result_spec(bybit_usdt_price, upbit, bybit, upbit_fee_rate, dust_threshold, emergency_closed)
            == Err::<ExecutedEntry, _>(OrderExecutionError::SingleLegFilled { leg: Leg::Upbit, emergency_closed }),
        upbit is None && bybit is Some ==> exit_result_spec(upbit, bybit) == Err::<ExecutedExit, _>(
            OrderExecutionError::SingleLegFilled { leg: Leg::Bybit, emergency_closed: false },
        ) && entry_result_spec(bybit_usdt_price, upbit, bybit, upbit_fee_rate, dust_threshold, emergency_closed)
            == Err::<ExecutedEntry, _>(OrderExecutionError::SingleLegFilled { leg: Leg::Bybit, emergency_closed }),
        upbit is None && bybit is None ==> exit_result_spec(upbit, bybit) == Err::<ExecutedExit, _>(
            OrderExecutionError::BothUnfilled,
        ) && entry_result_spec(bybit_usdt_price, upbit, bybit, upbit_fee_rate, dust_threshold, emergency_closed)
            == Err::<ExecutedEntry, _>(OrderExecutionError::BothUnfilled),
{
}

/// Progress of an emergency close: first repeated IOC attempts for two
/// minutes with a doubling pause (at most 8 s), then one wide attempt per
/// configured slippage level until five minutes have passed.
#[derive(Debug, Clone, Copy)]
pub struct EmergencyClose {
    /// Quantity to close.
    pub qty: Dec,
    /// Still in the first stage.
    pub in_first_stage: bool,
    /// Pause after the next failed first-stage attempt, in seconds.
    pub backoff_secs: u64,
    /// Wide attempts made so far.
    pub wide_attempts: u64,
}

/// What to do next in an emergency close.
#[derive(Debug, Clone, Copy, PartialEq, Eq, Structural)]
pub enum EmergencyAction {
    /// Place another closing order; `wide` in the second stage.
    Attempt { wide: bool },
    /// Report failure (the caller triggers the kill switch).
    GiveUp,
}

/// How an attempt ended.
#[derive(Debug, Clone, Copy, PartialEq, Eq, Structural)]
pub enum AttemptOutcome {
    /// Closed: report success.
    Closed,
    /// Not closed: pause this many seconds, then ask again.
    Pause { secs: u64 },
}

/// Length of the first stage, in milliseconds.
pub const FIRST_STAGE_MS: u64 = 120000u64;

/// Time after which no wide attempt is started, in milliseconds.
pub const SECOND_STAGE_MS: u64 = 300000u64;

/// The next action at `elapsed_ms` since the close started, with
/// `wide_levels` configured slippage levels, and the state it leaves.
pub open spec fn emergency_next_spec(st: EmergencyClose, elapsed_ms: u64, wide_levels: u64) -> (
    EmergencyAction,
    EmergencyClose,
) {
    if st.in_first_stage && elapsed_ms < FIRST_STAGE_MS {
        (EmergencyAction::Attempt { wide: false }, st)
    } else {
        let st2 = EmergencyClose { in_first_stage: false, ..st };
        if st2.wide_attempts < wide_levels && elapsed_ms < SECOND_STAGE_MS {
            (EmergencyAction::Attempt { wide: true }, st2)
        } else {
            (EmergencyAction::GiveUp, st2)
        }
    }
}

/// The outcome of an attempt that filled `filled`, and the state it leaves:
/// a first-stage attempt closes at 95% of the quantity, a wide one at any
/// positive fill.
pub open spec fn emergency_after_spec(st: EmergencyClose, filled: Option<Dec>) -> (
    AttemptOutcome,
    EmergencyClose,
) {
    if st.in_first_stage {
        let threshold = Dec::product_of(st.qty, Dec::of_parts(95, 2));
        match filled {
            Some(f) if f.val() >= threshold.val() => (AttemptOutcome::Closed, st),
            _ => (
                AttemptOutcome::Pause { secs: st.backoff_secs },
                EmergencyClose {
                    backoff_secs: if 2 * st.backoff_secs < 8 {
                        (2 * st.backoff_secs) as u64
                    } else {
                        8
                    },
                    ..st
                },
            ),
        }
    } else {
        match filled {
            Some(f) if f.val() > 0 => (AttemptOutcome::Closed, st),
            _ => (
                AttemptOutcome::Pause { secs: 5 },
                EmergencyClose { wide_attempts: (st.wide_attempts + 1) as u64, ..st },
            ),
        }
    }
}

/// The effective quantity of a settled entry never exceeds either leg,
/// and the adjustment cost is either zero or dust (at most the threshold).
pub proof fn law_settlement_bounds(
    bybit_usdt_price: Dec,
    upbit: OrderFill,
    bybit: OrderFill,
    upbit_fee_rate: Dec,
    dust_threshold: Dec,
)
    ensures
        ({
            let e = settlement(bybit_usdt_price, upbit, bybit, upbit_fee_rate, dust_threshold);
            &&& e.effective_qty.val() <= bybit.filled_qty.val()
            &&& e.effective_qty.val() <= net_of_fee(upbit.filled_qty, upbit_fee_rate).val()
            &&& e.adjustment_cost == Dec::zero_value() || e.adjustment_cost.val()
                <= dust_threshold.val()
        }),
{
}

/// An emergency close starts no attempt once five minutes have passed, and
/// within the first two minutes of the first stage it retries the plain
/// closing order.
pub proof fn law_emergency_deadlines(st: EmergencyClose, elapsed_ms: u64, wide_levels: u64)
    ensures
        elapsed_ms >= SECOND_STAGE_MS ==> emergency_next_spec(st, elapsed_ms, wide_levels).0
            == EmergencyAction::GiveUp,
        st.in_first_stage && elapsed_ms < FIRST_STAGE_MS ==> emergency_next_spec(
            st,
            elapsed_ms,
            wide_levels,
        ).0 == (EmergencyAction::Attempt { wide: false }),
        st.wide_attempts >= wide_levels && !(st.in_first_stage && elapsed_ms < FIRST_STAGE_MS)
            ==> emergency_next_spec(st, elapsed_ms, wide_levels).0 == EmergencyAction::GiveUp,
{
}

/// Within the first two minutes of the first stage an emergency close
/// retries the plain closing order and stays in the first stage; after
/// them it leaves the first stage for good and makes a wide attempt exactly
/// while wide levels remain and five minutes have not passed, and gives up
/// otherwise; the quantity, backoff and count of wide attempts are kept.
pub proof fn law_emergency_next(st: EmergencyClose, elapsed_ms: u64, wide_levels: u64)
    ensures
        ({
            let (a, n) = emergency_next_spec(st, elapsed_ms, wide_levels);
            let first = st.in_first_stage && elapsed_ms < FIRST_STAGE_MS;
            &&& first ==> a == (EmergencyAction::Attempt { wide: false }) && n == st
            &&& !first ==> !n.in_first_stage
            &&& !first ==> (a == (EmergencyAction::Attempt { wide: true }) <==> st.wide_attempts
                < wide_levels && elapsed_ms < SECOND_STAGE_MS)
            &&& !first && !(st.wide_attempts < wide_levels && elapsed_ms < SECOND_STAGE_MS) ==> a
                == EmergencyAction::GiveUp
            &&& n.qty == st.qty && n.backoff_secs == st.backoff_secs && n.wide_attempts == st.wide_attempts
        }),
{
}

/// A closing attempt is reported as closing the leg only when it filled:
/// in the first stage at least 95% of the quantity (as `Decimal` computes
/// `qty * 0.95`), in the wide stage any positive quantity.  A failed
/// order (`None`) never closes: it pauses for the current backoff in the
/// first stage (which then doubles, up to 8 s) and 5 s in the wide stage,
/// and it keeps the quantity to close.
pub proof fn law_only_fills_close(st: EmergencyClose, filled: Option<Dec>)
    ensures
        ({
            let (a, n) = emergency_after_spec(st, filled);
            &&& a == AttemptOutcome::Closed && st.in_first_stage ==> filled is Some && filled->0.val()
                >= Dec::product_of(st.qty, Dec::of_parts(95, 2)).val()
            &&& a == AttemptOutcome::Closed && !st.in_first_stage ==> filled is Some && filled->0.val() > 0
            &&& filled is None && st.in_first_stage ==> a == (AttemptOutcome::Pause { secs: st.backoff_secs })
                && n.backoff_secs == (if st.backoff_secs * 2 < 8 {
                st.backoff_secs * 2
            } else {
                8
            })
            &&& filled is None && !st.in_first_stage ==> a == (AttemptOutcome::Pause { secs: 5 })
            &&& !st.in_first_stage && a != AttemptOutcome::Closed && st.wide_attempts < u64::MAX ==> n.wide_attempts
                == st.wide_attempts + 1
            &&& !st.in_first_stage && (filled matches Some(f) && f.val() > 0) ==> a == AttemptOutcome::Closed
            &&& a == AttemptOutcome::Closed ==> n == st
            &&& n.qty == st.qty
            &&& st.in_first_stage && (filled matches Some(f) && f.val() >= Dec::product_of(
                st.qty,
                Dec::of_parts(95, 2),
            ).val()) ==> a == AttemptOutcome::Closed
        }),
{
}

impl EmergencyClose {
    /// The start of an emergency close of `qty`.
    pub fn start(qty: Dec) -> (r: EmergencyClose)
        ensures
            r == (EmergencyClose { qty, in_first_stage: true, backoff_secs: 1, wide_attempts: 0 }),
    {
        EmergencyClose { qty, in_first_stage: true, backoff_secs: 1, wide_attempts: 0 }
    }

    /// The next action at `elapsed_ms` (see `emergency_next_spec`).
    pub fn next_action(&mut self, elapsed_ms: u64, wide_levels: u64) -> (r: EmergencyAction)
        ensures
            (r, *final(self)) == emergency_next_spec(*old(self), elapsed_ms, wide_levels),
    {
        if self.in_first_stage && elapsed_ms < FIRST_STAGE_MS {
            return EmergencyAction::Attempt { wide: false };
        }
        self.in_first_stage = false;
        if self.wide_attempts < wide_levels && elapsed_ms < SECOND_STAGE_MS {
            EmergencyAction::Attempt { wide: true }
        } else {
            EmergencyAction::GiveUp
        }
    }

    /// Records an attempt that filled `filled` (`None`: the order failed).
    pub fn after_attempt(&mut self, filled: Option<Dec>) -> (r: AttemptOutcome)
        requires
            old(self).backoff_secs <= 8,
            old(self).wide_attempts < u64::MAX,
            -pow10(83) < old(self).qty.val() * (95 * unit(2)) < pow10(83),
        ensures
            (r, *final(self)) == emergency_after_spec(*old(self), filled),
            final(self).backoff_secs <= 8,
    {
        if self.in_first_stage {
            let threshold = self.qty.mul(&Dec::new(95, 2));
            let closed = match filled {
                Some(f) => f.ge(&threshold),
                None => false,
            };
            if closed {
                AttemptOutcome::Closed
            } else {
                let secs = self.backoff_secs;
                self.backoff_secs = if 2 * self.backoff_secs < 8 {
                    2 * self.backoff_secs
                } else {
                    8
                };
                AttemptOutcome::Pause { secs }
            }
        } else {
            let closed = match filled {
                Some(f) => f.gt(&Dec::zero()),
                None => false,
            };
            if closed {
                AttemptOutcome::Closed
            } else {
                self.wide_attempts = self.wide_attempts + 1;
                AttemptOutcome::Pause { secs: 5 }
            }
        }
    }
}

} // verus!
