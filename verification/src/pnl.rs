//! Profit and loss of closed positions: maximum drawdown of the equity
//! curve and the profit per UTC day.

use chrono::Datelike;
use vstd::prelude::*;

use crate::decimal::{
    fits_at, lemma_fits_at_smaller_scale, lemma_max_sc_take, lemma_sum_push, max_nat, max_sc,
    running_totals_fit, sum_vals, Dec,
};

verus! {

/// A closed position (the values that the profit computations read and
/// report; times are milliseconds since the Unix epoch, UTC).
#[derive(Clone, Debug)]
pub struct ClosedPosition {
    /// Coin symbol.
    pub coin: String,
    /// Entry time.
    pub entry_time_ms: i64,
    /// Exit time.
    pub exit_time_ms: i64,
    /// Holding time in minutes.
    pub holding_minutes: u64,
    /// Position size in USDT (one leg).
    pub size_usdt: Dec,
    /// Profit of the Upbit leg.
    pub upbit_pnl: Dec,
    /// Profit of the Bybit leg.
    pub bybit_pnl: Dec,
    /// Upbit fees.
    pub upbit_fees: Dec,
    /// Bybit fees.
    pub bybit_fees: Dec,
    /// Fees of both legs.
    pub total_fees: Dec,
    /// Net profit: both legs minus all fees.
    pub net_pnl: Dec,
    /// USDT/KRW rate at entry.
    pub entry_usdt_krw: Dec,
    /// USDT/KRW rate at exit.
    pub exit_usdt_krw: Dec,
    /// Whether it was liquidated.
    pub is_liquidated: bool,
}

/// The net profits of the trades, in order.
pub open spec fn net_pnls(trades: Seq<ClosedPosition>) -> Seq<Dec> {
    Seq::new(trades.len(), |i: int| trades[i].net_pnl)
}

/// Equity, running peak (starting at zero) and largest drawdown so far, after
/// each profit of `pnls` has been added to the equity.
pub open spec fn drawdown_state(pnls: Seq<Dec>) -> (int, int, int)
    decreases pnls.len(),
{
    if pnls.len() == 0 {
        (0, 0, 0)
    } else {
        let (equity, peak, max_dd) = drawdown_state(pnls.drop_last());
        let e = equity + pnls.last().val();
        let p = if e > peak {
            e
        } else {
            peak
        };
        let d = p - e;
        (e, p, if d > max_dd {
            d
        } else {
            max_dd
        })
    }
}

/// The largest fall of the equity curve below its running peak.
pub open spec fn max_drawdown(pnls: Seq<Dec>) -> int {
    drawdown_state(pnls).2
}

/// Every equity value and every drawdown along the curve fits at the
/// largest scale of the profits, so each step is computed exactly.
pub open spec fn drawdown_exact(pnls: Seq<Dec>) -> bool {
    forall|k: int|
        0 <= k <= pnls.len() ==> {
            &&& #[trigger] fits_at(drawdown_state(pnls.take(k)).0, max_sc(pnls))
            &&& fits_at(drawdown_state(pnls.take(k)).1 - drawdown_state(pnls.take(k)).0, max_sc(pnls))
        }
}

/// The maximum drawdown (in USDT) of the equity curve that starts at zero
/// and adds each trade's net profit in turn.
pub fn calculate_max_drawdown(trades: &[ClosedPosition]) -> (r: Dec)
    requires
        drawdown_exact(net_pnls(trades@)),
    ensures
        r.val() == max_drawdown(net_pnls(trades@)),
{
    let ghost pnls = net_pnls(trades@);
    let ghost m = max_sc(pnls);
    if trades.len() == 0 {
        return Dec::zero();
    }
    let zero = Dec::zero();
    let mut equity = Dec::zero();
    let mut peak = Dec::zero();
    let mut max_dd = Dec::zero();
    let mut i: usize = 0;
    while i < trades.len()
        invariant
            i <= trades.len(),
            pnls == net_pnls(trades@),
            m == max_sc(pnls),
            drawdown_exact(pnls),
            equity.val() == drawdown_state(pnls.take(i as int)).0,
            peak.val() == drawdown_state(pnls.take(i as int)).1,
            max_dd.val() == drawdown_state(pnls.take(i as int)).2,
            equity.sc() <= m,
            peak.sc() <= m,
        decreases trades.len() - i,
    {
        let net = trades[i].net_pnl;
        proof {
            assert(pnls.take(i as int + 1).drop_last() =~= pnls.take(i as int));
            assert(pnls.take(i as int + 1).last() == net);
            lemma_max_sc_take(pnls, i as int);
            assert(fits_at(drawdown_state(pnls.take(i as int + 1)).0, m));
            lemma_fits_at_smaller_scale(
                equity.val() + net.val(),
                max_nat(equity.sc(), net.sc()),
                m,
            );
        }
        equity = equity.add(&net);
        if equity.gt(&peak) {
            peak = equity;
        }
        proof {
            lemma_fits_at_smaller_scale(
                peak.val() - equity.val(),
                max_nat(peak.sc(), equity.sc()),
                m,
            );
        }
        let dd = peak.sub(&equity);
        if dd.gt(&max_dd) {
            max_dd = dd;
        }
        i = i + 1;
    }
    proof {
        assert(pnls.take(trades.len() as int) =~= pnls);
    }
    max_dd
}

/// The running peak never falls below the equity and the maximum drawdown
/// is never negative; when no trade lost money the drawdown is zero.
pub proof fn law_drawdown_bounds(pnls: Seq<Dec>)
    ensures
        drawdown_state(pnls).1 >= drawdown_state(pnls).0,
        drawdown_state(pnls).1 >= 0,
        max_drawdown(pnls) >= 0,
        (forall|i: int| 0 <= i < pnls.len() ==> #[trigger] pnls[i].val() >= 0) ==> max_drawdown(
            pnls,
        ) == 0 && drawdown_state(pnls).1 == drawdown_state(pnls).0,
    decreases pnls.len(),
{
    if pnls.len() > 0 {
        let prev = pnls.drop_last();
        law_drawdown_bounds(prev);
        if forall|i: int| 0 <= i < pnls.len() ==> #[trigger] pnls[i].val() >= 0 {
            assert forall|i: int| 0 <= i < prev.len() implies #[trigger] prev[i].val() >= 0 by {
                assert(prev[i] == pnls[i]);
            }
            assert(pnls.last().val() >= 0);
        }
    }
}

/// The equity after the first `k` profits.
pub open spec fn equity_after(pnls: Seq<Dec>, k: int) -> int {
    sum_vals(pnls.take(k))
}

/// The equity curve starts at zero and adds each profit: the final equity
/// is the sum of the profits, the peak is the highest equity reached
/// (zero included), and the maximum drawdown is the largest fall from an
/// equity to a later one.
pub proof fn law_drawdown_is_largest_fall(pnls: Seq<Dec>)
    ensures
        drawdown_state(pnls).0 == equity_after(pnls, pnls.len() as int),
        forall|j: int| 0 <= j <= pnls.len() ==> drawdown_state(pnls).1 >= #[trigger] equity_after(pnls, j),
        exists|j: int| 0 <= j <= pnls.len() && drawdown_state(pnls).1 == #[trigger] equity_after(pnls, j),
        forall|j: int, k: int|
            0 <= j <= k <= pnls.len() ==> max_drawdown(pnls) >= #[trigger] equity_after(pnls, j)
                - #[trigger] equity_after(pnls, k),
        exists|j: int, k: int|
            0 <= j <= k <= pnls.len() && max_drawdown(pnls) == #[trigger] equity_after(pnls, j)
                - #[trigger] equity_after(pnls, k),
    decreases pnls.len(),
{
    assert(pnls.take(0) =~= Seq::<Dec>::empty());
    assert(pnls.take(pnls.len() as int) =~= pnls);
    if pnls.len() == 0 {
        assert(equity_after(pnls, 0) == 0);
    } else {
        let n = pnls.len() as int;
        let prev = pnls.drop_last();
        law_drawdown_is_largest_fall(prev);
        assert forall|j: int| 0 <= j <= n - 1 implies #[trigger] equity_after(prev, j) == equity_after(pnls, j) by {
            assert(prev.take(j) =~= pnls.take(j));
        }
        assert(pnls.take(n).drop_last() =~= pnls.take(n - 1));
        assert(equity_after(pnls, n) == equity_after(pnls, n - 1) + pnls.last().val());
        let (e0, p0, d0) = drawdown_state(prev);
        let e = e0 + pnls.last().val();
        assert(e == equity_after(pnls, n));
        let jp = choose|j: int| 0 <= j <= n - 1 && p0 == #[trigger] equity_after(prev, j);
        assert(equity_after(pnls, jp) == p0);
        let (jd, kd) = choose|j: int, k: int|
            0 <= j <= k <= n - 1 && d0 == #[trigger] equity_after(prev, j) - #[trigger] equity_after(prev, k);
        assert(equity_after(pnls, jd) == equity_after(prev, jd));
        assert(equity_after(pnls, kd) == equity_after(prev, kd));
        let p = if e > p0 {
            e
        } else {
            p0
        };
        assert forall|j: int| 0 <= j <= n implies p >= #[trigger] equity_after(pnls, j) by {
            if j < n {
                assert(equity_after(prev, j) == equity_after(pnls, j));
            }
        }
        assert forall|j: int, k: int| 0 <= j <= k <= n implies max_drawdown(pnls) >= #[trigger] equity_after(
            pnls,
            j,
        ) - #[trigger] equity_after(pnls, k) by {
            if k < n {
                assert(equity_after(prev, j) == equity_after(pnls, j));
                assert(equity_after(prev, k) == equity_after(pnls, k));
            } else if j < n {
                assert(equity_after(prev, j) == equity_after(pnls, j));
            }
        }
        if e > p0 {
            assert(p == equity_after(pnls, n));
        } else {
            assert(p == equity_after(pnls, jp));
        }
        if p - e > d0 {
            if e > p0 {
                assert(p - e == equity_after(pnls, n) - equity_after(pnls, n));
            } else {
                assert(p - e == equity_after(pnls, jp) - equity_after(pnls, n));
            }
        } else {
            assert(d0 == equity_after(pnls, jd) - equity_after(pnls, kd));
        }
    }
}

/// Sum of the values of the per-day profits.
pub open spec fn daily_total(daily: Seq<(i32, Dec)>) -> int
    decreases daily.len(),
{
    if daily.len() == 0 {
        0
    } else {
        daily_total(daily.drop_last()) + daily.last().1.val()
    }
}

/// Sum over the days `ds` of the profits of the trades closed on each.
pub open spec fn days_total(trades: Seq<ClosedPosition>, ds: Seq<int>) -> int
    decreases ds.len(),
{
    if ds.len() == 0 {
        0
    } else {
        days_total(trades, ds.drop_last()) + sum_vals(day_pnls(trades, ds.last()))
    }
}

proof fn lemma_day_pnls_push(trades: Seq<ClosedPosition>, t: ClosedPosition, d: int)
    ensures
        sum_vals(day_pnls(trades.push(t), d)) == sum_vals(day_pnls(trades, d)) + if exit_day(t)
            == d {
            t.net_pnl.val()
        } else {
            0
        },
{
    assert(trades.push(t).drop_last() =~= trades);
    if exit_day(t) == d {
        lemma_sum_push(day_pnls(trades, d), t.net_pnl);
    }
}

proof fn lemma_days_total_push(trades: Seq<ClosedPosition>, t: ClosedPosition, ds: Seq<int>)
    requires
        forall|a: int, b: int| 0 <= a < b < ds.len() ==> ds[a] != ds[b],
    ensures
        days_total(trades.push(t), ds) == days_total(trades, ds) + if ds.contains(exit_day(t)) {
            t.net_pnl.val()
        } else {
            0
        },
    decreases ds.len(),
{
    if ds.len() > 0 {
        let prev = ds.drop_last();
        lemma_days_total_push(trades, t, prev);
        lemma_day_pnls_push(trades, t, ds.last());
        if ds.contains(exit_day(t)) {
            let a = choose|a: int| 0 <= a < ds.len() && ds[a] == exit_day(t);
            if a < ds.len() - 1 {
                assert(prev[a] == exit_day(t));
                assert(ds.last() != exit_day(t));
            } else {
                if prev.contains(exit_day(t)) {
                    let b = choose|b: int| 0 <= b < prev.len() && prev[b] == exit_day(t);
                    assert(ds[b] == ds[ds.len() - 1]);
                }
            }
        } else {
            assert(!prev.contains(exit_day(t))) by {
                if prev.contains(exit_day(t)) {
                    let b = choose|b: int| 0 <= b < prev.len() && prev[b] == exit_day(t);
                    assert(ds[b] == exit_day(t));
                }
            }
            assert(ds.last() != exit_day(t)) by {
                assert(ds[ds.len() - 1] == ds.last());
            }
        }
    }
}

proof fn lemma_days_total_all(trades: Seq<ClosedPosition>, ds: Seq<int>)
    requires
        forall|a: int, b: int| 0 <= a < b < ds.len() ==> ds[a] != ds[b],
        forall|i: int| 0 <= i < trades.len() ==> ds.contains(#[trigger] exit_day(trades[i])),
    ensures
        days_total(trades, ds) == sum_vals(net_pnls(trades)),
    decreases trades.len(),
{
    if trades.len() == 0 {
        assert(net_pnls(trades) =~= Seq::<Dec>::empty());
        lemma_days_total_empty(trades, ds);
    } else {
        let prev = trades.drop_last();
        let t = trades.last();
        assert forall|i: int| 0 <= i < prev.len() implies ds.contains(#[trigger] exit_day(prev[i])) by {
            assert(prev[i] == trades[i]);
        }
        lemma_days_total_all(prev, ds);
        assert(prev.push(t) =~= trades);
        lemma_days_total_push(prev, t, ds);
        assert(ds.contains(exit_day(trades[trades.len() - 1])));
        assert(net_pnls(trades) =~= net_pnls(prev).push(t.net_pnl));
        lemma_sum_push(net_pnls(prev), t.net_pnl);
    }
}

proof fn lemma_days_total_empty(trades: Seq<ClosedPosition>, ds: Seq<int>)
    requires
        trades.len() == 0,
    ensures
        days_total(trades, ds) == 0,
    decreases ds.len(),
{
    if ds.len() > 0 {
        lemma_days_total_empty(trades, ds.drop_last());
        assert(day_pnls(trades, ds.last()) =~= Seq::<Dec>::empty());
    }
}

proof fn lemma_day_present(trades: Seq<ClosedPosition>, i: int)
    requires
        0 <= i < trades.len(),
    ensures
        day_pnls(trades, exit_day(trades[i])).len() > 0,
    decreases trades.len(),
{
    let d = exit_day(trades[i]);
    if i < trades.len() - 1 {
        lemma_day_present(trades.drop_last(), i);
        assert(trades.drop_last()[i] == trades[i]);
    }
}

proof fn lemma_daily_total_days(trades: Seq<ClosedPosition>, daily: Seq<(i32, Dec)>)
    requires
        forall|a: int|
            0 <= a < daily.len() ==> #[trigger] daily[a].1.val() == sum_vals(
                day_pnls(trades, daily[a].0 as int),
            ),
    ensures
        daily_total(daily) == days_total(trades, daily.map_values(|p: (i32, Dec)| p.0 as int)),
    decreases daily.len(),
{
    if daily.len() > 0 {
        let prev = daily.drop_last();
        assert forall|a: int| 0 <= a < prev.len() implies #[trigger] prev[a].1.val() == sum_vals(
            day_pnls(trades, prev[a].0 as int),
        ) by {
            assert(prev[a] == daily[a]);
        }
        lemma_daily_total_days(trades, prev);
        assert(daily.map_values(|p: (i32, Dec)| p.0 as int).drop_last() =~= prev.map_values(
            |p: (i32, Dec)| p.0 as int,
        ));
        assert(daily[daily.len() - 1] == daily.last());
    }
}

/// The per-day profits add up to the net profit of all trades: every
/// trade is counted on exactly one day.
pub proof fn law_daily_totals_add_up(trades: Seq<ClosedPosition>, daily: Seq<(i32, Dec)>)
    requires
        is_daily_pnl(trades, daily),
    ensures
        daily_total(daily) == sum_vals(net_pnls(trades)),
{
    let ds = daily.map_values(|p: (i32, Dec)| p.0 as int);
    lemma_daily_total_days(trades, daily);
    assert forall|a: int, b: int| 0 <= a < b < ds.len() implies ds[a] != ds[b] by {
        assert(daily[a].0 < daily[b].0);
    }
    assert forall|i: int| 0 <= i < trades.len() implies ds.contains(#[trigger] exit_day(trades[i])) by {
        let d = exit_day(trades[i]);
        lemma_day_present(trades, i);
        if !(exists|a: int| 0 <= a < daily.len() && daily[a].0 as int == d) {
            assert(day_pnls(trades, d).len() == 0);
        }
        let a = choose|a: int| 0 <= a < daily.len() && daily[a].0 as int == d;
        assert(ds[a] == d);
    }
    lemma_days_total_all(trades, ds);
}

/// `floor(ms / 86_400_000) + 719_163`: the number of days from the common
/// era of the UTC date of a Unix time in milliseconds.
#[verifier::opaque]
pub open spec fn utc_day_of_ms(ms: i64) -> int {
    ms as int / 86_400_000 + 719_163
}

/// Milliseconds that `chrono` can turn into a date.
pub open spec fn in_date_range(ms: i64) -> bool {
    -8_000_000_000_000_000 <= ms <= 8_000_000_000_000_000
}

/// Calls `DateTime::<Utc>::from_timestamp_millis(ms)`, `date_naive()` and
/// `num_days_from_ce()`: the date is the Euclidean quotient of the
/// timestamp by one day, counted from 0001-01-01 (day 1), where the Unix
/// epoch is day 719,163.  Within the range admitted here (about 253,000
/// years) the conversion succeeds.
#[verifier::external_body]
fn utc_day(ms: i64) -> (r: i32)
    requires
        in_date_range(ms),
    ensures
        r == utc_day_of_ms(ms),
{
    chrono::DateTime::from_timestamp_millis(ms).unwrap().date_naive().num_days_from_ce()
}

/// The UTC date (days from the common era) on which a trade was closed.
pub open spec fn exit_day(t: ClosedPosition) -> int {
    utc_day_of_ms(t.exit_time_ms)
}

/// The net profits of the trades closed on `day`, in order.
pub open spec fn day_pnls(trades: Seq<ClosedPosition>, day: int) -> Seq<Dec>
    decreases trades.len(),
{
    if trades.len() == 0 {
        Seq::empty()
    } else if exit_day(trades.last()) == day {
        day_pnls(trades.drop_last(), day).push(trades.last().net_pnl)
    } else {
        day_pnls(trades.drop_last(), day)
    }
}

/// `daily` lists, by ascending date, each date on which some trade closed
/// (and only those) with the sum of the net profits of that date.
pub open spec fn is_daily_pnl(trades: Seq<ClosedPosition>, daily: Seq<(i32, Dec)>) -> bool {
    &&& forall|a: int, b: int| 0 <= a < b < daily.len() ==> daily[a].0 < daily[b].0
    &&& forall|a: int|
        0 <= a < daily.len() ==> #[trigger] day_pnls(trades, daily[a].0 as int).len() > 0
    &&& forall|d: int|
        (forall|a: int| 0 <= a < daily.len() ==> daily[a].0 as int != d) ==> #[trigger] day_pnls(
            trades,
            d,
        ).len() == 0
    &&& forall|a: int|
        0 <= a < daily.len() ==> #[trigger] daily[a].1.val() == sum_vals(
            day_pnls(trades, daily[a].0 as int),
        )
}

/// The trades can be dated and every date's running total is exact.
pub open spec fn daily_exact(trades: Seq<ClosedPosition>) -> bool {
    &&& forall|t: int| 0 <= t < trades.len() ==> in_date_range(#[trigger] trades[t].exit_time_ms)
    &&& forall|d: int| #[trigger] running_totals_fit(day_pnls(trades, d))
}

proof fn lemma_day_pnls_take(trades: Seq<ClosedPosition>, i: int, d: int)
    requires
        0 <= i < trades.len(),
    ensures
        day_pnls(trades.take(i + 1), d) == (if exit_day(trades[i]) == d {
            day_pnls(trades.take(i), d).push(trades[i].net_pnl)
        } else {
            day_pnls(trades.take(i), d)
        }),
{
    assert(trades.take(i + 1).drop_last() =~= trades.take(i));
    assert(trades.take(i + 1).last() == trades[i]);
}

/// The profits of a date among the first `i` trades are a prefix of the
/// profits of that date among all trades.
proof fn lemma_day_pnls_prefix(trades: Seq<ClosedPosition>, i: int, d: int)
    requires
        0 <= i <= trades.len(),
    ensures
        day_pnls(trades.take(i), d) == day_pnls(trades, d).take(
            day_pnls(trades.take(i), d).len() as int,
        ),
        day_pnls(trades.take(i), d).len() <= day_pnls(trades, d).len(),
    decreases trades.len(),
{
    if i == trades.len() {
        assert(trades.take(i) =~= trades);
        assert(day_pnls(trades, d).take(day_pnls(trades, d).len() as int) =~= day_pnls(trades, d));
    } else {
        let rest = trades.drop_last();
        lemma_day_pnls_prefix(rest, i, d);
        assert(rest.take(i) =~= trades.take(i));
        let small = day_pnls(trades.take(i), d);
        let mid = day_pnls(rest, d);
        assert(small =~= mid.take(small.len() as int));
        if exit_day(trades.last()) == d {
            assert(day_pnls(trades, d) == mid.push(trades.last().net_pnl));
            assert(mid.push(trades.last().net_pnl).take(small.len() as int) =~= mid.take(
                small.len() as int,
            ));
        }
    }
}

/// Dates strictly increase along the list.
pub open spec fn days_sorted(daily: Seq<(i32, Dec)>) -> bool {
    forall|a: int, b: int| 0 <= a < b < daily.len() ==> daily[a].0 < daily[b].0
}

/// Every listed date is the date of one of the first `i` trades.
pub open spec fn days_occur(trades: Seq<ClosedPosition>, i: int, daily: Seq<(i32, Dec)>) -> bool {
    forall|a: int|
        0 <= a < daily.len() ==> #[trigger] day_pnls(trades.take(i), daily[a].0 as int).len() > 0
}

/// Each listed value is the sum of its date's profits among the first `i` trades.
pub open spec fn days_summed(trades: Seq<ClosedPosition>, i: int, daily: Seq<(i32, Dec)>) -> bool {
    forall|a: int|
        0 <= a < daily.len() ==> #[trigger] daily[a].1.val() == sum_vals(
            day_pnls(trades.take(i), daily[a].0 as int),
        ) && daily[a].1.sc() <= max_sc(day_pnls(trades, daily[a].0 as int))
}

/// A date not listed has no profit among the first `i` trades.
pub open spec fn days_absent(trades: Seq<ClosedPosition>, i: int, daily: Seq<(i32, Dec)>) -> bool {
    forall|d: int|
        (forall|a: int| 0 <= a < daily.len() ==> daily[a].0 as int != d) ==> #[trigger] day_pnls(
            trades.take(i),
            d,
        ).len() == 0
}

/// What holds of the dates listed after the first `i` trades.
pub open spec fn daily_inv(trades: Seq<ClosedPosition>, i: int, daily: Seq<(i32, Dec)>) -> bool {
    &&& 0 <= i <= trades.len()
    &&& days_sorted(daily)
    &&& days_occur(trades, i, daily)
    &&& days_summed(trades, i, daily)
    &&& days_absent(trades, i, daily)
}

proof fn lemma_other_days(trades: Seq<ClosedPosition>, i: int, d: int)
    requires
        0 <= i < trades.len(),
        exit_day(trades[i]) == d,
    ensures
        forall|dd: int|
            dd != d ==> #[trigger] day_pnls(trades.take(i + 1), dd) == day_pnls(trades.take(i), dd),
        day_pnls(trades.take(i + 1), d) == day_pnls(trades.take(i), d).push(trades[i].net_pnl),
{
    assert forall|dd: int| dd != d implies #[trigger] day_pnls(trades.take(i + 1), dd) == day_pnls(
        trades.take(i),
        dd,
    ) by {
        lemma_day_pnls_take(trades, i, dd);
    }
    lemma_day_pnls_take(trades, i, d);
}

proof fn lemma_update_cover(
    trades: Seq<ClosedPosition>,
    i: int,
    before: Seq<(i32, Dec)>,
    p: int,
    updated: Dec,
)
    requires
        0 <= i < trades.len(),
        days_occur(trades, i, before),
        0 <= p < before.len(),
        before[p].0 as int == exit_day(trades[i]),
    ensures
        days_occur(trades, i + 1, before.update(p, (before[p].0, updated))),
{
    let d = exit_day(trades[i]);
    let after = before.update(p, (before[p].0, updated));
    lemma_other_days(trades, i, d);
    assert forall|a: int| 0 <= a < after.len() implies #[trigger] day_pnls(
        trades.take(i + 1),
        after[a].0 as int,
    ).len() > 0 by {
        assert(after[a].0 == before[a].0);
        assert(day_pnls(trades.take(i), before[a].0 as int).len() > 0);
    }
}

proof fn lemma_update_sums(
    trades: Seq<ClosedPosition>,
    i: int,
    before: Seq<(i32, Dec)>,
    p: int,
    updated: Dec,
)
    requires
        0 <= i < trades.len(),
        days_sorted(before),
        days_summed(trades, i, before),
        days_absent(trades, i, before),
        0 <= p < before.len(),
        before[p].0 as int == exit_day(trades[i]),
        updated.val() == before[p].1.val() + trades[i].net_pnl.val(),
        updated.sc() <= max_sc(day_pnls(trades, exit_day(trades[i]))),
    ensures
        days_summed(trades, i + 1, before.update(p, (before[p].0, updated))),
        days_absent(trades, i + 1, before.update(p, (before[p].0, updated))),
{
    let d = exit_day(trades[i]);
    let after = before.update(p, (before[p].0, updated));
    lemma_other_days(trades, i, d);
    lemma_sum_push(day_pnls(trades.take(i), d), trades[i].net_pnl);
    assert forall|a: int| 0 <= a < after.len() implies #[trigger] after[a].1.val() == sum_vals(
        day_pnls(trades.take(i + 1), after[a].0 as int),
    ) && after[a].1.sc() <= max_sc(day_pnls(trades, after[a].0 as int)) by {
        if a != p {
            assert(after[a] == before[a]);
            if a < p {
                assert(before[a].0 < before[p].0);
            } else {
                assert(before[p].0 < before[a].0);
            }
        }
    }
    assert forall|dd: int|
        (forall|a: int| 0 <= a < after.len() ==> after[a].0 as int != dd) implies #[trigger] day_pnls(
        trades.take(i + 1),
        dd,
    ).len() == 0 by {
        assert(after[p].0 as int == d);
        assert forall|a: int| 0 <= a < before.len() implies before[a].0 as int != dd by {
            assert(after[a].0 == before[a].0);
        }
    }
}

proof fn lemma_step_update(
    trades: Seq<ClosedPosition>,
    i: int,
    before: Seq<(i32, Dec)>,
    p: int,
    updated: Dec,
)
    requires
        daily_inv(trades, i, before),
        i < trades.len(),
        0 <= p < before.len(),
        before[p].0 as int == exit_day(trades[i]),
        updated.val() == before[p].1.val() + trades[i].net_pnl.val(),
        updated.sc() <= max_sc(day_pnls(trades, exit_day(trades[i]))),
    ensures
        daily_inv(trades, i + 1, before.update(p, (before[p].0, updated))),
{
    lemma_update_cover(trades, i, before, p, updated);
    lemma_update_sums(trades, i, before, p, updated);
}

proof fn lemma_insert_shape(before: Seq<(i32, Dec)>, p: int, day: i32, fresh: Dec)
    requires
        days_sorted(before),
        0 <= p <= before.len(),
        forall|a: int| 0 <= a < p ==> before[a].0 < day,
        p < before.len() ==> before[p].0 > day,
    ensures
        days_sorted(before.insert(p, (day, fresh))),
        forall|a: int| 0 <= a < before.len() ==> before[a].0 != day,
        forall|a: int|
            0 <= a < before.len() + 1 ==> #[trigger] before.insert(p, (day, fresh))[a] == (if a < p {
                before[a]
            } else if a == p {
                (day, fresh)
            } else {
                before[a - 1]
            }),
{
    let after = before.insert(p, (day, fresh));
    assert forall|a: int| 0 <= a < after.len() implies #[trigger] after[a] == (if a < p {
        before[a]
    } else if a == p {
        (day, fresh)
    } else {
        before[a - 1]
    }) by {}
    assert forall|a: int| 0 <= a < before.len() implies before[a].0 != day by {
        if a > p {
            assert(before[p].0 < before[a].0);
        }
    }
    assert forall|x: int, y: int| 0 <= x < y < after.len() implies after[x].0 < after[y].0 by {
        if y < p {
        } else if y == p {
        } else if x < p {
            if y - 1 > p {
                assert(before[p].0 < before[y - 1].0);
            }
        } else if x == p {
            if y - 1 > p {
                assert(before[p].0 < before[y - 1].0);
            }
        } else {
            assert(before[x - 1].0 < before[y - 1].0);
        }
    }
}

proof fn lemma_insert_cover(
    trades: Seq<ClosedPosition>,
    i: int,
    before: Seq<(i32, Dec)>,
    after: Seq<(i32, Dec)>,
    p: int,
    day: i32,
    fresh: Dec,
)
    requires
        0 <= i < trades.len(),
        days_occur(trades, i, before),
        0 <= p <= before.len(),
        day as int == exit_day(trades[i]),
        after.len() == before.len() + 1,
        forall|a: int|
            0 <= a < before.len() + 1 ==> #[trigger] after[a] == (if a < p {
                before[a]
            } else if a == p {
                (day, fresh)
            } else {
                before[a - 1]
            }),
    ensures
        days_occur(trades, i + 1, after),
{
    let d = day as int;
    lemma_other_days(trades, i, d);
    assert forall|a: int| 0 <= a < after.len() implies #[trigger] day_pnls(
        trades.take(i + 1),
        after[a].0 as int,
    ).len() > 0 by {
        if a != p {
            let b = if a < p {
                a
            } else {
                a - 1
            };
            assert(after[a] == before[b]);
            assert(day_pnls(trades.take(i), before[b].0 as int).len() > 0);
        }
    }
}

proof fn lemma_insert_sums(
    trades: Seq<ClosedPosition>,
    i: int,
    before: Seq<(i32, Dec)>,
    after: Seq<(i32, Dec)>,
    p: int,
    day: i32,
    fresh: Dec,
)
    requires
        0 <= i < trades.len(),
        days_summed(trades, i, before),
        days_absent(trades, i, before),
        0 <= p <= before.len(),
        day as int == exit_day(trades[i]),
        forall|a: int| 0 <= a < before.len() ==> before[a].0 != day,
        fresh.val() == trades[i].net_pnl.val(),
        fresh.sc() <= max_sc(day_pnls(trades, exit_day(trades[i]))),
        after.len() == before.len() + 1,
        forall|a: int|
            0 <= a < before.len() + 1 ==> #[trigger] after[a] == (if a < p {
                before[a]
            } else if a == p {
                (day, fresh)
            } else {
                before[a - 1]
            }),
    ensures
        days_summed(trades, i + 1, after),
        days_absent(trades, i + 1, after),
{
    let d = day as int;
    lemma_other_days(trades, i, d);
    assert(day_pnls(trades.take(i), d).len() == 0);
    assert(day_pnls(trades.take(i), d) =~= Seq::<Dec>::empty());
    lemma_sum_push(day_pnls(trades.take(i), d), trades[i].net_pnl);
    assert forall|a: int| 0 <= a < after.len() implies #[trigger] after[a].1.val() == sum_vals(
        day_pnls(trades.take(i + 1), after[a].0 as int),
    ) && after[a].1.sc() <= max_sc(day_pnls(trades, after[a].0 as int)) by {
        if a != p {
            let b = if a < p {
                a
            } else {
                a - 1
            };
            assert(after[a] == before[b]);
            assert(before[b].0 != day);
            let db = before[b].0 as int;
            assert(db != d);
            assert(day_pnls(trades.take(i + 1), db) == day_pnls(trades.take(i), db));
            assert(before[b].1.val() == sum_vals(day_pnls(trades.take(i), db)));
        } else {
            assert(after[a] == (day, fresh));
            assert(day_pnls(trades.take(i + 1), d) == day_pnls(trades.take(i), d).push(
                trades[i].net_pnl,
            ));
        }
    }
    assert forall|dd: int|
        (forall|a: int| 0 <= a < after.len() ==> after[a].0 as int != dd) implies #[trigger] day_pnls(
        trades.take(i + 1),
        dd,
    ).len() == 0 by {
        assert(after[p].0 as int == d);
        assert forall|a: int| 0 <= a < before.len() implies before[a].0 as int != dd by {
            if a < p {
                assert(after[a] == before[a]);
            } else {
                assert(after[a + 1] == before[a]);
            }
        }
    }
}

proof fn lemma_step_insert(
    trades: Seq<ClosedPosition>,
    i: int,
    before: Seq<(i32, Dec)>,
    p: int,
    day: i32,
    fresh: Dec,
)
    requires
        daily_inv(trades, i, before),
        i < trades.len(),
        0 <= p <= before.len(),
        day as int == exit_day(trades[i]),
        forall|a: int| 0 <= a < p ==> before[a].0 < day,
        p < before.len() ==> before[p].0 > day,
        fresh.val() == trades[i].net_pnl.val(),
        fresh.sc() <= max_sc(day_pnls(trades, exit_day(trades[i]))),
    ensures
        daily_inv(trades, i + 1, before.insert(p, (day, fresh))),
{
    let after = before.insert(p, (day, fresh));
    lemma_insert_shape(before, p, day, fresh);
    lemma_insert_cover(trades, i, before, after, p, day, fresh);
    lemma_insert_sums(trades, i, before, after, p, day, fresh);
}

proof fn lemma_inv_done(trades: Seq<ClosedPosition>, daily: Seq<(i32, Dec)>)
    requires
        daily_inv(trades, trades.len() as int, daily),
    ensures
        is_daily_pnl(trades, daily),
{
    let n = trades.len() as int;
    assert(trades.take(n) =~= trades);
}

/// The net profit of each UTC date on which a trade was closed, by
/// ascending date (dates as days from the common era).
pub fn daily_pnl(trades: &[ClosedPosition]) -> (r: Vec<(i32, Dec)>)
    requires
        daily_exact(trades@),
    ensures
        is_daily_pnl(trades@, r@),
{
    let mut daily: Vec<(i32, Dec)> = Vec::new();
    let mut i: usize = 0;
    while i < trades.len()
        invariant
            daily_exact(trades@),
            daily_inv(trades@, i as int, daily@),
        decreases trades.len() - i,
    {
        let t = &trades[i];
        proof {
            assert(in_date_range(trades@[i as int].exit_time_ms));
        }
        let day = utc_day(t.exit_time_ms);
        let net = t.net_pnl;
        let ghost d = day as int;
        let ghost before = daily@;
        let ghost dp = day_pnls(trades@.take(i as int), d);
        let ghost full = day_pnls(trades@, d);
        let ghost k = dp.len() as int;
        proof {
            assert(running_totals_fit(full));
            lemma_other_days(trades@, i as int, d);
            lemma_day_pnls_prefix(trades@, i as int + 1, d);
            assert(full.take(k + 1) == dp.push(net));
            assert(full[k] == dp.push(net)[k]);
            lemma_max_sc_take(full, k);
            lemma_max_sc_take(full, k + 1);
            assert(fits_at(sum_vals(full.take(k + 1)), max_sc(full)));
            lemma_sum_push(dp, net);
        }
        // the first position whose date is not before `day`
        let mut p: usize = 0;
        while p < daily.len() && daily[p].0 < day
            invariant
                p <= daily.len(),
                daily@ == before,
                forall|a: int| 0 <= a < p ==> daily@[a].0 < day,
            decreases daily.len() - p,
        {
            p = p + 1;
        }
        if p < daily.len() && daily[p].0 == day {
            let cur = daily[p].1;
            proof {
                lemma_fits_at_smaller_scale(
                    cur.val() + net.val(),
                    max_nat(cur.sc(), net.sc()),
                    max_sc(full),
                );
            }
            let updated = cur.add(&net);
            daily.set(p, (day, updated));
            proof {
                lemma_step_update(trades@, i as int, before, p as int, updated);
            }
        } else {
            proof {
                if p < before.len() {
                    assert(before[p as int].0 > day);
                }
                if k > 0 {
                    assert(exists|a: int| 0 <= a < before.len() && before[a].0 as int == d);
                    let a = choose|a: int| 0 <= a < before.len() && before[a].0 as int == d;
                    if a >= p {
                        if a > p {
                            assert(before[p as int].0 < before[a].0);
                        }
                    }
                }
                assert(k == 0);
                assert(dp =~= Seq::<Dec>::empty());
                lemma_fits_at_smaller_scale(net.val(), max_nat(0, net.sc()), max_sc(full));
            }
            let fresh = Dec::zero().add(&net);
            daily.insert(p, (day, fresh));
            proof {
                lemma_step_insert(trades@, i as int, before, p as int, day, fresh);
            }
        }
        i = i + 1;
    }
    proof {
        lemma_inv_done(trades@, daily@);
    }
    daily
}

} // verus!
