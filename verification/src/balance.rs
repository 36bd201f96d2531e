//! Balance tracking on both exchanges with capital reservation.
//!
//! Before an entry the capital of both legs is reserved in one step; an
//! order that fills commits the reservation at the filled amounts, one that
//! fails releases it.  A reservation that is neither committed nor released
//! within the time to live is handed back by the sweeper.
//!
//! Times are monotonic milliseconds supplied by the caller.

use vstd::prelude::*;

use crate::decimal::{
    abs_int, fits_at, lemma_fits_at_smaller_scale, lemma_headroom_fits, pow10, lemma_sum_push, max_nat, max_sc, running_sums_fit, running_totals_fit, sum_all, sum_onto,
    sum_vals, Dec,
};

verus! {

/// Default time to live of an unconfirmed reservation: 6 minutes.
pub const DEFAULT_RESERVATION_TTL_MS: u64 = 360_000u64;

/// How long a committed record is kept before it is dropped: 10 minutes.
pub const COMMITTED_RECORD_RETENTION_MS: u64 = 600_000u64;

/// One reservation.
#[derive(Clone, Copy, Debug)]
pub struct ReservationRecord {
    /// Reservation id.
    pub id: u64,
    /// KRW reserved on Upbit.
    pub upbit_krw: Dec,
    /// USDT reserved on Bybit.
    pub bybit_usdt: Dec,
    /// When it was made.
    pub created_at_ms: u64,
    /// Whether it was committed.
    pub committed: bool,
}

/// The amount a record reserves on one leg (Upbit when `upbit`, else Bybit).
pub open spec fn leg_amount(r: ReservationRecord, upbit: bool) -> Dec {
    if upbit {
        r.upbit_krw
    } else {
        r.bybit_usdt
    }
}

/// The amounts of one leg still pending (not committed), in order.
pub open spec fn pending(recs: Seq<ReservationRecord>, upbit: bool) -> Seq<Dec>
    decreases recs.len(),
{
    if recs.len() == 0 {
        Seq::empty()
    } else if recs.last().committed {
        pending(recs.drop_last(), upbit)
    } else {
        pending(recs.drop_last(), upbit).push(leg_amount(recs.last(), upbit))
    }
}

/// What a record contributes to the pending total of one leg.
pub open spec fn pending_part(r: ReservationRecord, upbit: bool) -> int {
    if r.committed {
        0
    } else {
        leg_amount(r, upbit).val()
    }
}

/// Ids strictly increase along the records and stay below `next`.
pub open spec fn ids_ordered(recs: Seq<ReservationRecord>, next: u64) -> bool {
    &&& forall|i: int, j: int| 0 <= i < j < recs.len() ==> recs[i].id < recs[j].id
    &&& forall|i: int| 0 <= i < recs.len() ==> recs[i].id < next
}

/// The position of the record with id `id`, or -1.
pub open spec fn index_of_id(recs: Seq<ReservationRecord>, id: u64) -> int
    decreases recs.len(),
{
    if recs.len() == 0 {
        -1
    } else if recs.last().id == id {
        recs.len() - 1
    } else {
        index_of_id(recs.drop_last(), id)
    }
}

/// Age of a record at `now` (zero when `now` is earlier).
pub open spec fn age_ms(r: ReservationRecord, now: u64) -> int {
    if now >= r.created_at_ms {
        now - r.created_at_ms
    } else {
        0
    }
}

/// A pending reservation older than the time to live.
pub open spec fn is_expired(r: ReservationRecord, now: u64, ttl: u64) -> bool {
    !r.committed && age_ms(r, now) > ttl
}

/// A record that survives a sweep.
pub open spec fn survives_sweep(r: ReservationRecord, now: u64, ttl: u64) -> bool {
    !is_expired(r, now, ttl) && !(r.committed && age_ms(r, now) > COMMITTED_RECORD_RETENTION_MS)
}

/// The records that survive a sweep, in order.
pub open spec fn swept(recs: Seq<ReservationRecord>, now: u64, ttl: u64) -> Seq<ReservationRecord>
    decreases recs.len(),
{
    if recs.len() == 0 {
        Seq::empty()
    } else if survives_sweep(recs.last(), now, ttl) {
        swept(recs.drop_last(), now, ttl).push(recs.last())
    } else {
        swept(recs.drop_last(), now, ttl)
    }
}

/// The records that a sweep hands back, in order.
pub open spec fn expired_records(recs: Seq<ReservationRecord>, now: u64, ttl: u64) -> Seq<
    ReservationRecord,
>
    decreases recs.len(),
{
    if recs.len() == 0 {
        Seq::empty()
    } else if is_expired(recs.last(), now, ttl) {
        expired_records(recs.drop_last(), now, ttl).push(recs.last())
    } else {
        expired_records(recs.drop_last(), now, ttl)
    }
}

/// The amounts of one leg that a sweep hands back, in order.
pub open spec fn expired_amounts(recs: Seq<ReservationRecord>, now: u64, ttl: u64, upbit: bool) -> Seq<
    Dec,
>
    decreases recs.len(),
{
    if recs.len() == 0 {
        Seq::empty()
    } else if is_expired(recs.last(), now, ttl) {
        expired_amounts(recs.drop_last(), now, ttl, upbit).push(leg_amount(recs.last(), upbit))
    } else {
        expired_amounts(recs.drop_last(), now, ttl, upbit)
    }
}

proof fn lemma_pending_push(recs: Seq<ReservationRecord>, r: ReservationRecord, upbit: bool)
    ensures
        sum_vals(pending(recs.push(r), upbit)) == sum_vals(pending(recs, upbit)) + pending_part(
            r,
            upbit,
        ),
{
    assert(recs.push(r).drop_last() =~= recs);
    if !r.committed {
        lemma_sum_push(pending(recs, upbit), leg_amount(r, upbit));
    }
}

proof fn lemma_pending_remove(recs: Seq<ReservationRecord>, i: int, upbit: bool)
    requires
        0 <= i < recs.len(),
    ensures
        sum_vals(pending(recs.remove(i), upbit)) == sum_vals(pending(recs, upbit)) - pending_part(
            recs[i],
            upbit,
        ),
    decreases recs.len(),
{
    if i == recs.len() - 1 {
        assert(recs.remove(i) =~= recs.drop_last());
        assert(recs =~= recs.drop_last().push(recs.last()));
        lemma_pending_push(recs.drop_last(), recs.last(), upbit);
    } else {
        let rest = recs.drop_last();
        lemma_pending_remove(rest, i, upbit);
        assert(recs.remove(i).drop_last() =~= rest.remove(i));
        assert(recs.remove(i).last() == recs.last());
        assert(rest[i] == recs[i]);
        assert(recs.remove(i) =~= rest.remove(i).push(recs.last()));
        assert(recs =~= rest.push(recs.last()));
        lemma_pending_push(rest.remove(i), recs.last(), upbit);
        lemma_pending_push(rest, recs.last(), upbit);
    }
}

proof fn lemma_pending_update(
    recs: Seq<ReservationRecord>,
    i: int,
    r: ReservationRecord,
    upbit: bool,
)
    requires
        0 <= i < recs.len(),
    ensures
        sum_vals(pending(recs.update(i, r), upbit)) == sum_vals(pending(recs, upbit)) - pending_part(
            recs[i],
            upbit,
        ) + pending_part(r, upbit),
    decreases recs.len(),
{
    if i == recs.len() - 1 {
        assert(recs.update(i, r) =~= recs.drop_last().push(r));
        assert(recs =~= recs.drop_last().push(recs.last()));
        lemma_pending_push(recs.drop_last(), r, upbit);
        lemma_pending_push(recs.drop_last(), recs.last(), upbit);
    } else {
        let rest = recs.drop_last();
        lemma_pending_update(rest, i, r, upbit);
        assert(recs.update(i, r) =~= rest.update(i, r).push(recs.last()));
        assert(recs =~= rest.push(recs.last()));
        assert(rest[i] == recs[i]);
        lemma_pending_push(rest.update(i, r), recs.last(), upbit);
        lemma_pending_push(rest, recs.last(), upbit);
    }
}

proof fn lemma_sweep_split(recs: Seq<ReservationRecord>, now: u64, ttl: u64, upbit: bool)
    ensures
        sum_vals(pending(recs, upbit)) == sum_vals(expired_amounts(recs, now, ttl, upbit))
            + sum_vals(pending(swept(recs, now, ttl), upbit)),
    decreases recs.len(),
{
    if recs.len() > 0 {
        let rest = recs.drop_last();
        lemma_sweep_split(rest, now, ttl, upbit);
        let r = recs.last();
        assert(recs =~= rest.push(r));
        lemma_pending_push(rest, r, upbit);
        if survives_sweep(r, now, ttl) {
            lemma_pending_push(swept(rest, now, ttl), r, upbit);
        }
        if is_expired(r, now, ttl) {
            lemma_sum_push(expired_amounts(rest, now, ttl, upbit), leg_amount(r, upbit));
        }
    }
}

proof fn lemma_swept_members(recs: Seq<ReservationRecord>, now: u64, ttl: u64, k: int)
    requires
        0 <= k < swept(recs, now, ttl).len(),
    ensures
        exists|j: int| 0 <= j < recs.len() && recs[j] == swept(recs, now, ttl)[k],
    decreases recs.len(),
{
    let rest = recs.drop_last();
    if survives_sweep(recs.last(), now, ttl) && k == swept(recs, now, ttl).len() - 1 {
        assert(recs[recs.len() - 1] == swept(recs, now, ttl)[k]);
    } else {
        if survives_sweep(recs.last(), now, ttl) {
            assert(swept(recs, now, ttl)[k] == swept(rest, now, ttl)[k]);
        }
        lemma_swept_members(rest, now, ttl, k);
        let j = choose|j: int| 0 <= j < rest.len() && rest[j] == swept(rest, now, ttl)[k];
        assert(recs[j] == rest[j]);
    }
}

proof fn lemma_swept_ordered(recs: Seq<ReservationRecord>, now: u64, ttl: u64, next: u64)
    requires
        ids_ordered(recs, next),
    ensures
        ids_ordered(swept(recs, now, ttl), next),
        swept(recs, now, ttl).len() <= recs.len(),
    decreases recs.len(),
{
    let sw = swept(recs, now, ttl);
    if recs.len() > 0 {
        let rest = recs.drop_last();
        assert(ids_ordered(rest, next));
        lemma_swept_ordered(rest, now, ttl, next);
        let swr = swept(rest, now, ttl);
        assert forall|k: int| 0 <= k < sw.len() implies #[trigger] sw[k].id < next by {
            lemma_swept_members(recs, now, ttl, k);
        }
        if survives_sweep(recs.last(), now, ttl) {
            assert forall|a: int, b: int| 0 <= a < b < sw.len() implies sw[a].id < sw[b].id by {
                if b == sw.len() - 1 {
                    lemma_swept_members(rest, now, ttl, a);
                    let j = choose|j: int| 0 <= j < rest.len() && rest[j] == swr[a];
                    assert(recs[j] == rest[j]);
                } else {
                    assert(sw[a] == swr[a] && sw[b] == swr[b]);
                }
            }
        }
    }
}

proof fn lemma_index_of_present(recs: Seq<ReservationRecord>, next: u64, j: int)
    requires
        ids_ordered(recs, next),
        0 <= j < recs.len(),
    ensures
        index_of_id(recs, recs[j].id) == j,
    decreases recs.len(),
{
    if j < recs.len() - 1 {
        let rest = recs.drop_last();
        assert(ids_ordered(rest, next));
        lemma_index_of_present(rest, next, j);
        assert(rest[j] == recs[j]);
    }
}

proof fn lemma_index_of_absent(recs: Seq<ReservationRecord>, id: u64)
    requires
        forall|j: int| 0 <= j < recs.len() ==> recs[j].id != id,
    ensures
        index_of_id(recs, id) == -1,
    decreases recs.len(),
{
    if recs.len() > 0 {
        let rest = recs.drop_last();
        assert forall|j: int| 0 <= j < rest.len() implies rest[j].id != id by {
            assert(rest[j] == recs[j]);
        }
        lemma_index_of_absent(rest, id);
    }
}

/// The adjusted available amount of one leg after a commit: the difference
/// `reserved - actual` is handed back when positive and taken when negative,
/// never below zero.
pub open spec fn commit_leg(avail: int, reserved: int, actual: int) -> int {
    let d = reserved - actual;
    if d > 0 {
        avail + d
    } else if d < 0 {
        if avail >= -d {
            avail + d
        } else {
            0
        }
    } else {
        avail
    }
}

/// Every step of `commit_leg` is computed exactly.
pub open spec fn commit_leg_exact(avail: Dec, reserved: Dec, actual: Dec) -> bool {
    let d = reserved.val() - actual.val();
    let m = max_nat(avail.sc(), max_nat(reserved.sc(), actual.sc()));
    &&& fits_at(d, max_nat(reserved.sc(), actual.sc()))
    &&& (d > 0 ==> fits_at(avail.val() + d, m))
    &&& (d < 0 && avail.val() >= -d ==> fits_at(avail.val() + d, m))
}

/// Every amount computed by a commit of reservation `id` is exact.
pub open spec fn commit_exact(t: BalanceTracker, id: u64, actual_upbit: Dec, actual_bybit: Dec) -> bool {
    let i = index_of_id(t.records(), id);
    i >= 0 ==> commit_leg_exact(t.upbit(), t.records()[i].upbit_krw, actual_upbit)
        && commit_leg_exact(t.bybit(), t.records()[i].bybit_usdt, actual_bybit)
}

/// Handing back reservation `id` is exact.
pub open spec fn release_exact(t: BalanceTracker, id: u64) -> bool {
    let i = index_of_id(t.records(), id);
    i >= 0 && !t.records()[i].committed ==> Dec::add_exact(t.upbit(), t.records()[i].upbit_krw)
        && Dec::add_exact(t.bybit(), t.records()[i].bybit_usdt)
}

/// The three amounts of a commit leg are below the headroom of their
/// largest scale, so every step of the leg is exact.
fn commit_leg_surely_exact(avail: &Dec, reserved: &Dec, actual: &Dec) -> (r: bool)
    ensures
        r ==> commit_leg_exact(*avail, *reserved, *actual),
{
    let s1 = avail.scale();
    let s2 = reserved.scale();
    let s3 = actual.scale();
    let m12: u32 = if s1 >= s2 {
        s1
    } else {
        s2
    };
    let m: u32 = if m12 >= s3 {
        m12
    } else {
        s3
    };
    if m > 27 {
        return false;
    }
    let ok = avail.within_headroom(m) && reserved.within_headroom(m) && actual.within_headroom(m);
    proof {
        if ok {
            let d = reserved.val() - actual.val();
            assert(m as nat == max_nat(avail.sc(), max_nat(reserved.sc(), actual.sc())));
            lemma_headroom_fits(d, m as nat, 2);
            lemma_fits_at_smaller_scale(d, max_nat(reserved.sc(), actual.sc()), m as nat);
            lemma_headroom_fits(avail.val() + d, m as nat, 3);
        }
    }
    ok
}

/// One leg of a commit: `avail` adjusted by `reserved - actual`.
fn adjust_leg(avail: Dec, reserved: Dec, actual: Dec) -> (r: Dec)
    requires
        commit_leg_exact(avail, reserved, actual),
    ensures
        r.val() == commit_leg(avail.val(), reserved.val(), actual.val()),
        r.sc() <= max_nat(avail.sc(), max_nat(reserved.sc(), actual.sc())),
{
    let diff = reserved.sub(&actual);
    let zero = Dec::zero();
    let ghost m = max_nat(avail.sc(), max_nat(reserved.sc(), actual.sc()));
    if diff.gt(&zero) {
        proof {
            lemma_fits_at_smaller_scale(avail.val() + diff.val(), max_nat(avail.sc(), diff.sc()), m);
        }
        avail.add(&diff)
    } else if diff.lt(&zero) {
        let abs_diff = diff.abs();
        if avail.ge(&abs_diff) {
            proof {
                lemma_fits_at_smaller_scale(
                    avail.val() - abs_diff.val(),
                    max_nat(avail.sc(), abs_diff.sc()),
                    m,
                );
            }
            avail.sub(&abs_diff)
        } else {
            zero
        }
    } else {
        avail
    }
}

/// `n` is `o` after a successful reservation of `up` and `by` at `now`:
/// both balances reduced, a pending record appended under the next id.
pub open spec fn reserve_made(o: BalanceTracker, n: BalanceTracker, up: Dec, by: Dec, now: u64) -> bool {
    &&& n.upbit().val() == o.upbit().val() - up.val()
    &&& n.bybit().val() == o.bybit().val() - by.val()
    &&& n.upbit().sc() <= max_nat(o.upbit().sc(), up.sc())
    &&& n.bybit().sc() <= max_nat(o.bybit().sc(), by.sc())
    &&& n.records() == o.records().push(
        ReservationRecord {
            id: o.next_id(),
            upbit_krw: up,
            bybit_usdt: by,
            created_at_ms: now,
            committed: false,
        },
    )
    &&& n.next_id() == o.next_id() + 1
}

/// `n` is `o` after releasing reservation `id`: the record is removed and,
/// when it was pending, its amounts are back in the balances; an unknown id
/// changes nothing.
pub open spec fn release_done(o: BalanceTracker, n: BalanceTracker, id: u64) -> bool {
    let i = index_of_id(o.records(), id);
    &&& i == -1 ==> n.upbit() == o.upbit() && n.bybit() == o.bybit() && n.records() == o.records()
    &&& i >= 0 ==> {
        &&& n.upbit().val() == o.upbit().val() + pending_part(o.records()[i], true)
        &&& n.bybit().val() == o.bybit().val() + pending_part(o.records()[i], false)
        &&& n.upbit().sc() <= max_nat(o.upbit().sc(), o.records()[i].upbit_krw.sc())
        &&& n.bybit().sc() <= max_nat(o.bybit().sc(), o.records()[i].bybit_usdt.sc())
        &&& n.records() == o.records().remove(i)
    }
}

/// `n` is `o` after committing reservation `id` at the filled amounts: each
/// balance adjusted by `commit_leg`, the record marked committed; an
/// unknown id changes nothing.
pub open spec fn commit_done(o: BalanceTracker, n: BalanceTracker, id: u64, au: Dec, ab: Dec) -> bool {
    let i = index_of_id(o.records(), id);
    let rec = o.records()[i];
    &&& i == -1 ==> n.upbit() == o.upbit() && n.bybit() == o.bybit() && n.records() == o.records()
    &&& i >= 0 ==> {
        &&& n.upbit().val() == commit_leg(o.upbit().val(), rec.upbit_krw.val(), au.val())
        &&& n.bybit().val() == commit_leg(o.bybit().val(), rec.bybit_usdt.val(), ab.val())
        &&& n.upbit().sc() <= max_nat(o.upbit().sc(), max_nat(rec.upbit_krw.sc(), au.sc()))
        &&& n.bybit().sc() <= max_nat(o.bybit().sc(), max_nat(rec.bybit_usdt.sc(), ab.sc()))
        &&& n.records() == o.records().update(i, ReservationRecord { committed: true, ..rec })
    }
}

/// `n` is `o` after a token of reservation `id` was dropped: a settled
/// token changes nothing, an unsettled one releases its reservation.
pub open spec fn drop_done(o: BalanceTracker, n: BalanceTracker, id: u64, settled: bool) -> bool {
    &&& settled ==> n.upbit() == o.upbit() && n.bybit() == o.bybit() && n.records() == o.records()
    &&& !settled ==> release_done(o, n, id)
}

/// Every item of `s` has a scale of at most `m` and a magnitude below `b`.
pub open spec fn items_bounded(s: Seq<Dec>, m: nat, b: int) -> bool {
    forall|i: int| 0 <= i < s.len() ==> #[trigger] s[i].sc() <= m && abs_int(s[i].val()) < b
}

/// Every amount of the records has a scale of at most `m` and a magnitude
/// below `b`, on both legs.
pub open spec fn records_bounded(recs: Seq<ReservationRecord>, m: nat, b: int) -> bool {
    forall|i: int|
        0 <= i < recs.len() ==> {
            &&& #[trigger] recs[i].upbit_krw.sc() <= m
            &&& abs_int(recs[i].upbit_krw.val()) < b
            &&& recs[i].bybit_usdt.sc() <= m
            &&& abs_int(recs[i].bybit_usdt.val()) < b
        }
}

proof fn lemma_expired_bounded(recs: Seq<ReservationRecord>, now: u64, ttl: u64, upbit: bool, m: nat, b: int)
    requires
        records_bounded(recs, m, b),
    ensures
        items_bounded(expired_amounts(recs, now, ttl, upbit), m, b),
        expired_amounts(recs, now, ttl, upbit).len() <= recs.len(),
    decreases recs.len(),
{
    if recs.len() > 0 {
        let rest = recs.drop_last();
        assert forall|i: int| 0 <= i < rest.len() implies #[trigger] rest[i].upbit_krw.sc() <= m
            && abs_int(rest[i].upbit_krw.val()) < b && rest[i].bybit_usdt.sc() <= m && abs_int(
            rest[i].bybit_usdt.val(),
        ) < b by {
            assert(rest[i] == recs[i]);
        }
        lemma_expired_bounded(rest, now, ttl, upbit, m, b);
        assert(recs.last() == recs[recs.len() - 1]);
        let e = expired_amounts(rest, now, ttl, upbit);
        let x = leg_amount(recs.last(), upbit);
        assert(recs[recs.len() - 1].upbit_krw.sc() <= m);
        assert(x.sc() <= m && abs_int(x.val()) < b);
        if is_expired(recs.last(), now, ttl) {
            assert forall|i: int| 0 <= i < e.push(x).len() implies #[trigger] e.push(x)[i].sc() <= m
                && abs_int(e.push(x)[i].val()) < b by {
                if i < e.len() {
                    assert(e.push(x)[i] == e[i]);
                }
            }
        }
    }
}

proof fn lemma_pending_bounded(recs: Seq<ReservationRecord>, upbit: bool, m: nat, b: int)
    requires
        records_bounded(recs, m, b),
    ensures
        items_bounded(pending(recs, upbit), m, b),
        pending(recs, upbit).len() <= recs.len(),
    decreases recs.len(),
{
    if recs.len() > 0 {
        let rest = recs.drop_last();
        assert forall|i: int| 0 <= i < rest.len() implies #[trigger] rest[i].upbit_krw.sc() <= m
            && abs_int(rest[i].upbit_krw.val()) < b && rest[i].bybit_usdt.sc() <= m && abs_int(
            rest[i].bybit_usdt.val(),
        ) < b by {
            assert(rest[i] == recs[i]);
        }
        lemma_pending_bounded(rest, upbit, m, b);
        assert(recs.last() == recs[recs.len() - 1]);
        let e = pending(rest, upbit);
        let x = leg_amount(recs.last(), upbit);
        assert(recs[recs.len() - 1].upbit_krw.sc() <= m);
        assert(x.sc() <= m && abs_int(x.val()) < b);
        if !recs.last().committed {
            assert forall|i: int| 0 <= i < e.push(x).len() implies #[trigger] e.push(x)[i].sc() <= m
                && abs_int(e.push(x)[i].val()) < b by {
                if i < e.len() {
                    assert(e.push(x)[i] == e[i]);
                }
            }
        }
    }
}

/// A prefix of `k` items each below `b` adds up to at most `k * b`.
proof fn lemma_bounded_prefix_sum(s: Seq<Dec>, m: nat, b: int, k: int)
    requires
        items_bounded(s, m, b),
        0 <= k <= s.len(),
    ensures
        abs_int(sum_vals(s.take(k))) <= k * b,
    decreases k,
{
    if k == 0 {
        assert(s.take(0) =~= Seq::<Dec>::empty());
    } else {
        lemma_bounded_prefix_sum(s, m, b, k - 1);
        assert(s.take(k).drop_last() =~= s.take(k - 1));
        assert(s.take(k).last() == s[k - 1]);
        assert(s[k - 1].sc() <= m && abs_int(s[k - 1].val()) < b);
        assert((k - 1) * b + b == k * b) by (nonlinear_arith);
    }
}

proof fn lemma_bounded_max_sc(s: Seq<Dec>, m: nat, b: int)
    requires
        items_bounded(s, m, b),
    ensures
        max_sc(s) <= m,
    decreases s.len(),
{
    if s.len() > 0 {
        let rest = s.drop_last();
        assert forall|i: int| 0 <= i < rest.len() implies #[trigger] rest[i].sc() <= m && abs_int(
            rest[i].val(),
        ) < b by {
            assert(rest[i] == s[i]);
        }
        lemma_bounded_max_sc(rest, m, b);
        assert(s.last() == s[s.len() - 1]);
    }
}

/// A running sum of fewer than `10^9` bounded items and a bounded base
/// fits at scale `m` and so at every smaller one.
proof fn lemma_bounded_sum_fits(base: Dec, s: Seq<Dec>, m: nat, k: int, at: nat)
    requires
        m <= 17,
        at <= m,
        0 <= k <= s.len() < 1000000000,
        items_bounded(s, m, pow10((45 - m) as nat)),
        abs_int(base.val()) < pow10((45 - m) as nat),
    ensures
        fits_at(base.val() + sum_vals(s.take(k)), at),
        fits_at(sum_vals(s.take(k)), at),
{
    let b = pow10((45 - m) as nat);
    crate::decimal::lemma_pow10_add(10, (45 - m) as nat);
    assert(10 + (45 - m) as nat == (55 - m) as nat);
    assert(pow10(10) == 10000000000) by {
        reveal_with_fuel(pow10, 11);
    }
    crate::decimal::lemma_pow10_pos((45 - m) as nat);
    lemma_bounded_prefix_sum(s, m, b, k);
    assert(k * b + b <= 10000000000 * b) by (nonlinear_arith)
        requires
            0 <= k < 1000000000,
            b > 0,
    ;
    let v = base.val() + sum_vals(s.take(k));
    assert(abs_int(v) < 1 * pow10((55 - m) as nat));
    assert(abs_int(sum_vals(s.take(k))) < 1 * pow10((55 - m) as nat));
    lemma_headroom_fits(v, m, 1);
    lemma_headroom_fits(sum_vals(s.take(k)), m, 1);
    lemma_fits_at_smaller_scale(v, at, m);
    lemma_fits_at_smaller_scale(sum_vals(s.take(k)), at, m);
}

/// Fewer than `10^9` items, each and the base of scale at most `m <= 17` and
/// below `10^(17 - m)`, have running sums that all fit.
proof fn lemma_bounded_sums_fit(base: Dec, s: Seq<Dec>, m: nat)
    requires
        m <= 17,
        s.len() < 1000000000,
        items_bounded(s, m, pow10((45 - m) as nat)),
        base.sc() <= m,
        abs_int(base.val()) < pow10((45 - m) as nat),
    ensures
        running_sums_fit(base, s),
        running_totals_fit(s),
{
    lemma_bounded_max_sc(s, m, pow10((45 - m) as nat));
    assert forall|k: int| 0 <= k <= s.len() implies #[trigger] fits_at(
        base.val() + sum_vals(s.take(k)),
        max_nat(base.sc(), max_sc(s)),
    ) by {
        lemma_bounded_sum_fits(base, s, m, k, max_nat(base.sc(), max_sc(s)));
    }
    assert forall|k: int| 0 <= k <= s.len() implies #[trigger] fits_at(
        sum_vals(s.take(k)),
        max_sc(s),
    ) by {
        lemma_bounded_sum_fits(base, s, m, k, max_sc(s));
    }
}

/// The balances and every reservation amount have a scale of at most
/// `m <= 17` and a magnitude below `10^(17 - m)`, and there are fewer than
/// `10^9` records: then every sum the tracker forms is exact.
pub open spec fn tracker_bounded(t: BalanceTracker, m: nat) -> bool {
    &&& m <= 17
    &&& t.records().len() < 1000000000
    &&& records_bounded(t.records(), m, pow10((45 - m) as nat))
    &&& t.upbit().sc() <= m
    &&& abs_int(t.upbit().val()) < pow10((45 - m) as nat)
    &&& t.bybit().sc() <= m
    &&& abs_int(t.bybit().val()) < pow10((45 - m) as nat)
}

/// Reservation handle given to the caller of `reserve`.
#[derive(Debug)]
pub struct ReservationToken {
    id: u64,
    committed: bool,
}

impl ReservationToken {
    pub closed spec fn spec_id(&self) -> u64 {
        self.id
    }

    /// Whether the reservation is settled for this token (committed or released).
    pub closed spec fn settled(&self) -> bool {
        self.committed
    }

    /// The reservation id.
    pub fn id(&self) -> (r: u64)
        ensures
            r == self.spec_id(),
    {
        self.id
    }

    /// Whether the reservation is settled for this token.
    pub fn is_settled(&self) -> (r: bool)
        ensures
            r == self.settled(),
    {
        self.committed
    }
}

/// Available balances of both exchanges and the reservations on them.
pub struct BalanceTracker {
    upbit_available_krw: Dec,
    bybit_available_usdt: Dec,
    reservations: Vec<ReservationRecord>,
    next_reservation_id: u64,
    reservation_ttl_ms: u64,
}

impl BalanceTracker {
    #[verifier::type_invariant]
    spec fn ordered(self) -> bool {
        ids_ordered(self.reservations@, self.next_reservation_id)
    }

    /// Available KRW on Upbit.
    pub closed spec fn upbit(&self) -> Dec {
        self.upbit_available_krw
    }

    /// Available USDT on Bybit.
    pub closed spec fn bybit(&self) -> Dec {
        self.bybit_available_usdt
    }

    /// The reservation records, oldest first.
    pub closed spec fn records(&self) -> Seq<ReservationRecord> {
        self.reservations@
    }

    /// The id the next reservation gets.
    pub closed spec fn next_id(&self) -> u64 {
        self.next_reservation_id
    }

    /// Time to live of a pending reservation.
    pub closed spec fn ttl(&self) -> u64 {
        self.reservation_ttl_ms
    }

    /// The tracker's invariant: the reservation ids strictly increase
    /// along the records and stay below the next id.  Every constructor
    /// establishes it and every operation keeps it.
    pub open spec fn well_formed(&self) -> bool {
        ids_ordered(self.records(), self.next_id())
    }

    /// Available plus pending KRW on Upbit.
    pub open spec fn upbit_total(&self) -> int {
        self.upbit().val() + sum_vals(pending(self.records(), true))
    }

    /// Available plus pending USDT on Bybit.
    pub open spec fn bybit_total(&self) -> int {
        self.bybit().val() + sum_vals(pending(self.records(), false))
    }

    /// A tracker with the given balances, no reservation and the default
    /// time to live (6 minutes).
    pub fn new(upbit_krw: Dec, bybit_usdt: Dec) -> (r: BalanceTracker)
        ensures
            r.well_formed(),
            r.upbit_total() == upbit_krw.val(),
            r.bybit_total() == bybit_usdt.val(),
            r.upbit() == upbit_krw,
            r.bybit() == bybit_usdt,
            r.records() == Seq::<ReservationRecord>::empty(),
            r.next_id() == 0,
            r.ttl() == DEFAULT_RESERVATION_TTL_MS,
    {
        BalanceTracker {
            upbit_available_krw: upbit_krw,
            bybit_available_usdt: bybit_usdt,
            reservations: Vec::new(),
            next_reservation_id: 0,
            reservation_ttl_ms: DEFAULT_RESERVATION_TTL_MS,
        }
    }

    /// A tracker with the given balances and time to live.
    pub fn with_ttl(upbit_krw: Dec, bybit_usdt: Dec, ttl_ms: u64) -> (r: BalanceTracker)
        ensures
            r.well_formed(),
            r.upbit_total() == upbit_krw.val(),
            r.bybit_total() == bybit_usdt.val(),
            r.upbit() == upbit_krw,
            r.bybit() == bybit_usdt,
            r.records() == Seq::<ReservationRecord>::empty(),
            r.next_id() == 0,
            r.ttl() == ttl_ms,
    {
        BalanceTracker {
            upbit_available_krw: upbit_krw,
            bybit_available_usdt: bybit_usdt,
            reservations: Vec::new(),
            next_reservation_id: 0,
            reservation_ttl_ms: ttl_ms,
        }
    }

    /// The available balances (Upbit KRW, Bybit USDT).
    pub fn available(&self) -> (r: (Dec, Dec))
        ensures
            r.0 == self.upbit(),
            r.1 == self.bybit(),
    {
        (self.upbit_available_krw, self.bybit_available_usdt)
    }

    /// Reserves capital on both exchanges at once.
    ///
    /// Succeeds exactly when both available balances cover the request; then
    /// both are reduced and a pending record is added.  Otherwise nothing
    /// changes and `None` is returned.
    pub fn reserve(&mut self, upbit_krw: Dec, bybit_usdt: Dec, now_ms: u64) -> (r: Option<
        ReservationToken,
    >)
        requires
            old(self).next_id() < u64::MAX,
            old(self).upbit().val() >= upbit_krw.val() ==> Dec::sub_exact(
                old(self).upbit(),
                upbit_krw,
            ),
            old(self).bybit().val() >= bybit_usdt.val() ==> Dec::sub_exact(
                old(self).bybit(),
                bybit_usdt,
            ),
        ensures
            r is Some <==> (old(self).upbit().val() >= upbit_krw.val() && old(self).bybit().val()
                >= bybit_usdt.val()),
            r is None ==> final(self).upbit() == old(self).upbit() && final(self).bybit() == old(
                self,
            ).bybit() && final(self).records() == old(self).records() && final(self).next_id()
                == old(self).next_id(),
            r is Some ==> {
                &&& reserve_made(*old(self), *final(self), upbit_krw, bybit_usdt, now_ms)
                &&& r->0.spec_id() == old(self).next_id()
                &&& !r->0.settled()
            },
            final(self).ttl() == old(self).ttl(),
            final(self).well_formed(),
            final(self).upbit_total() == old(self).upbit_total(),
            final(self).bybit_total() == old(self).bybit_total(),
    {
        proof {
            use_type_invariant(&*self);
        }
        if self.upbit_available_krw.lt(&upbit_krw) {
            return None;
        }
        if self.bybit_available_usdt.lt(&bybit_usdt) {
            return None;
        }
        let id = self.next_reservation_id;
        let record = ReservationRecord {
            id,
            upbit_krw,
            bybit_usdt,
            created_at_ms: now_ms,
            committed: false,
        };
        let mut recs: Vec<ReservationRecord> = Vec::new();
        std::mem::swap(&mut recs, &mut self.reservations);
        recs.push(record);
        self.upbit_available_krw = self.upbit_available_krw.sub(&upbit_krw);
        self.bybit_available_usdt = self.bybit_available_usdt.sub(&bybit_usdt);
        self.next_reservation_id = id + 1;
        self.reservations = recs;
        proof {
            lemma_pending_push(old(self).records(), record, true);
            lemma_pending_push(old(self).records(), record, false);
        }
        Some(ReservationToken { id, committed: false })
    }

    /// A sufficient test for the precondition of `reserve`: another id is
    /// left, and the balances and the amounts are below the headroom of
    /// their scales (always so but within a few digits of the 96-bit limit).
    pub fn reserve_is_exact(&self, upbit_krw: &Dec, bybit_usdt: &Dec) -> (r: bool)
        ensures
            r ==> self.next_id() < u64::MAX,
            r ==> (self.upbit().val() >= upbit_krw.val() ==> Dec::sub_exact(self.upbit(), *upbit_krw))
                && (self.bybit().val() >= bybit_usdt.val() ==> Dec::sub_exact(
                self.bybit(),
                *bybit_usdt,
            )),
    {
        self.next_reservation_id < u64::MAX && self.upbit_available_krw.sum_surely_exact(upbit_krw)
            && self.bybit_available_usdt.sum_surely_exact(bybit_usdt)
    }

    /// A sufficient test for the precondition of `commit` with `token`.
    pub fn commit_is_exact(&self, token: &ReservationToken, actual_upbit_krw: &Dec, actual_bybit_usdt: &Dec) -> (r:
        bool)
        ensures
            r ==> commit_exact(*self, token.spec_id(), *actual_upbit_krw, *actual_bybit_usdt),
    {
        match self.find_index(token.id) {
            None => true,
            Some(i) => {
                let rec = &self.reservations[i];
                commit_leg_surely_exact(&self.upbit_available_krw, &rec.upbit_krw, actual_upbit_krw)
                    && commit_leg_surely_exact(
                    &self.bybit_available_usdt,
                    &rec.bybit_usdt,
                    actual_bybit_usdt,
                )
            },
        }
    }

    /// A sufficient test for the precondition of `release` (and of
    /// `release_on_drop`) with `token`.
    pub fn release_is_exact(&self, token: &ReservationToken) -> (r: bool)
        ensures
            r ==> release_exact(*self, token.spec_id()),
    {
        match self.find_index(token.id) {
            None => true,
            Some(i) => {
                let rec = &self.reservations[i];
                rec.committed || (self.upbit_available_krw.sum_surely_exact(&rec.upbit_krw)
                    && self.bybit_available_usdt.sum_surely_exact(&rec.bybit_usdt))
            },
        }
    }

    /// A scale `m` for which `tracker_bounded` holds, if the amounts allow one.
    fn bounded_scale(&self) -> (r: Option<u32>)
        ensures
            r matches Some(m) ==> tracker_bounded(*self, m as nat),
    {
        let n = self.reservations.len();
        if n >= 1000000000 {
            return None;
        }
        let mut m: u32 = if self.upbit_available_krw.scale() >= self.bybit_available_usdt.scale() {
            self.upbit_available_krw.scale()
        } else {
            self.bybit_available_usdt.scale()
        };
        let mut i: usize = 0;
        while i < n
            invariant
                n == self.reservations.len(),
                i <= n,
                m <= 28,
                self.upbit().sc() <= m,
                self.bybit().sc() <= m,
                forall|j: int|
                    0 <= j < i ==> #[trigger] self.records()[j].upbit_krw.sc() <= m
                        && self.records()[j].bybit_usdt.sc() <= m,
            decreases n - i,
        {
            let r = &self.reservations[i];
            let su = r.upbit_krw.scale();
            let sb = r.bybit_usdt.scale();
            if su > m {
                m = su;
            }
            if sb > m {
                m = sb;
            }
            i = i + 1;
        }
        if m > 17 {
            return None;
        }
        if !(self.upbit_available_krw.magnitude_below(17 - m) && self.bybit_available_usdt.magnitude_below(
            17 - m,
        )) {
            return None;
        }
        let mut k: usize = 0;
        while k < n
            invariant
                n == self.reservations.len(),
                k <= n,
                m <= 17,
                forall|j: int|
                    0 <= j < n ==> #[trigger] self.records()[j].upbit_krw.sc() <= m
                        && self.records()[j].bybit_usdt.sc() <= m,
                forall|j: int|
                    0 <= j < k ==> abs_int(#[trigger] self.records()[j].upbit_krw.val()) < pow10(
                        (45 - m) as nat,
                    ) && abs_int(self.records()[j].bybit_usdt.val()) < pow10((45 - m) as nat),
            decreases n - k,
        {
            let r = &self.reservations[k];
            if !(r.upbit_krw.magnitude_below(17 - m) && r.bybit_usdt.magnitude_below(17 - m)) {
                return None;
            }
            k = k + 1;
        }
        Some(m)
    }

    /// A sufficient test for the precondition of `sweep_expired_reservations`
    /// at `now_ms`: the amounts are of moderate size (`tracker_bounded`).
    pub fn sweep_is_exact(&self, now_ms: u64) -> (r: bool)
        ensures
            r ==> running_sums_fit(self.upbit(), expired_amounts(self.records(), now_ms, self.ttl(), true))
                && running_sums_fit(
                self.bybit(),
                expired_amounts(self.records(), now_ms, self.ttl(), false),
            ),
    {
        match self.bounded_scale() {
            None => false,
            Some(m) => {
                proof {
                    let b = pow10((45 - m) as nat);
                    lemma_expired_bounded(self.records(), now_ms, self.ttl(), true, m as nat, b);
                    lemma_expired_bounded(self.records(), now_ms, self.ttl(), false, m as nat, b);
                    lemma_bounded_sums_fit(
                        self.upbit(),
                        expired_amounts(self.records(), now_ms, self.ttl(), true),
                        m as nat,
                    );
                    lemma_bounded_sums_fit(
                        self.bybit(),
                        expired_amounts(self.records(), now_ms, self.ttl(), false),
                        m as nat,
                    );
                }
                true
            },
        }
    }

    /// A sufficient test for the precondition of `reserved_total`: the
    /// amounts are of moderate size (`tracker_bounded`).
    pub fn reserved_total_is_exact(&self) -> (r: bool)
        ensures
            r ==> running_totals_fit(pending(self.records(), true)) && running_totals_fit(
                pending(self.records(), false),
            ),
    {
        match self.bounded_scale() {
            None => false,
            Some(m) => {
                proof {
                    let b = pow10((45 - m) as nat);
                    lemma_pending_bounded(self.records(), true, m as nat, b);
                    lemma_pending_bounded(self.records(), false, m as nat, b);
                    lemma_bounded_sums_fit(self.upbit(), pending(self.records(), true), m as nat);
                    lemma_bounded_sums_fit(self.bybit(), pending(self.records(), false), m as nat);
                }
                true
            },
        }
    }

    /// The position of the record with `id`.
    fn find_index(&self, id: u64) -> (r: Option<usize>)
        ensures
            r is Some ==> r->0 < self.records().len() && index_of_id(self.records(), id)
                == r->0 as int && self.records()[r->0 as int].id == id,
            r is None ==> index_of_id(self.records(), id) == -1,
    {
        proof {
            use_type_invariant(self);
        }
        let mut i: usize = 0;
        while i < self.reservations.len()
            invariant
                i <= self.reservations.len(),
                forall|j: int| 0 <= j < i ==> self.reservations@[j].id != id,
                ids_ordered(self.reservations@, self.next_reservation_id),
            decreases self.reservations.len() - i,
        {
            if self.reservations[i].id == id {
                proof {
                    lemma_index_of_present(self.reservations@, self.next_reservation_id, i as int);
                }
                return Some(i);
            }
            i = i + 1;
        }
        proof {
            lemma_index_of_absent(self.reservations@, id);
        }
        None
    }

    /// Confirms a reservation at the amounts actually filled.
    ///
    /// On each leg the difference `reserved - actual` goes back to the
    /// available balance when positive and is taken from it when negative
    /// (never below zero); the record is marked committed and the token
    /// settled.  An unknown reservation changes nothing.
    pub fn commit(&mut self, token: &mut ReservationToken, actual_upbit_krw: Dec, actual_bybit_usdt: Dec)
        requires
            commit_exact(*old(self), old(token).spec_id(), actual_upbit_krw, actual_bybit_usdt),
        ensures
            commit_done(
                *old(self),
                *final(self),
                old(token).spec_id(),
                actual_upbit_krw,
                actual_bybit_usdt,
            ),
            index_of_id(old(self).records(), old(token).spec_id()) >= 0 ==> final(token).settled(),
            index_of_id(old(self).records(), old(token).spec_id()) == -1 ==> final(token).settled()
                == old(token).settled(),
            final(token).spec_id() == old(token).spec_id(),
            final(self).next_id() == old(self).next_id(),
            final(self).ttl() == old(self).ttl(),
            final(self).well_formed(),
    {
        proof {
            use_type_invariant(&*self);
        }
        match self.find_index(token.id) {
            None => {},
            Some(idx) => {
                let rec = self.reservations[idx];
                let new_upbit = adjust_leg(self.upbit_available_krw, rec.upbit_krw, actual_upbit_krw);
                let new_bybit = adjust_leg(self.bybit_available_usdt, rec.bybit_usdt, actual_bybit_usdt);
                let mut recs: Vec<ReservationRecord> = Vec::new();
                std::mem::swap(&mut recs, &mut self.reservations);
                recs.set(idx, ReservationRecord { committed: true, ..rec });
                self.reservations = recs;
                self.upbit_available_krw = new_upbit;
                self.bybit_available_usdt = new_bybit;
                token.committed = true;
            },
        }
    }

    /// Releases a reservation after a failed or cancelled order.
    ///
    /// The record is removed; when it was still pending its amounts go back
    /// to the available balances.  The token is settled.  An unknown
    /// reservation changes nothing.
    pub fn release(&mut self, token: &mut ReservationToken)
        requires
            release_exact(*old(self), old(token).spec_id()),
        ensures
            release_done(*old(self), *final(self), old(token).spec_id()),
            index_of_id(old(self).records(), old(token).spec_id()) >= 0 ==> final(token).settled(),
            index_of_id(old(self).records(), old(token).spec_id()) == -1 ==> final(token).settled()
                == old(token).settled(),
            final(token).spec_id() == old(token).spec_id(),
            final(self).next_id() == old(self).next_id(),
            final(self).ttl() == old(self).ttl(),
            final(self).well_formed(),
            final(self).upbit_total() == old(self).upbit_total(),
            final(self).bybit_total() == old(self).bybit_total(),
    {
        if self.release_id(token.id) {
            token.committed = true;
        }
    }

    /// What dropping an unsettled token does: the reservation is released
    /// as by `release`.  A settled token changes nothing.
    pub fn release_on_drop(&mut self, token: ReservationToken)
        requires
            !token.settled() ==> release_exact(*old(self), token.spec_id()),
        ensures
            drop_done(*old(self), *final(self), token.spec_id(), token.settled()),
            final(self).next_id() == old(self).next_id(),
            final(self).ttl() == old(self).ttl(),
            final(self).well_formed(),
            final(self).upbit_total() == old(self).upbit_total(),
            final(self).bybit_total() == old(self).bybit_total(),
    {
        proof {
            use_type_invariant(&*self);
        }
        if token.committed {
            return;
        }
        self.release_id(token.id);
    }

    /// Removes the record with `id`, handing back its amounts when pending.
    fn release_id(&mut self, id: u64) -> (found: bool)
        requires
            release_exact(*old(self), id),
        ensures
            found == (index_of_id(old(self).records(), id) >= 0),
            release_done(*old(self), *final(self), id),
            final(self).next_id() == old(self).next_id(),
            final(self).ttl() == old(self).ttl(),
            final(self).well_formed(),
            final(self).upbit_total() == old(self).upbit_total(),
            final(self).bybit_total() == old(self).bybit_total(),
    {
        proof {
            use_type_invariant(&*self);
        }
        match self.find_index(id) {
            None => false,
            Some(idx) => {
                let mut recs: Vec<ReservationRecord> = Vec::new();
                std::mem::swap(&mut recs, &mut self.reservations);
                let rec = recs.remove(idx);
                proof {
                    let o = old(self).records();
                    assert forall|a: int, b: int| 0 <= a < b < recs@.len() implies recs@[a].id
                        < recs@[b].id by {
                        let oa = if a < idx {
                            a
                        } else {
                            a + 1
                        };
                        let ob = if b < idx {
                            b
                        } else {
                            b + 1
                        };
                        assert(recs@[a] == o[oa]);
                        assert(recs@[b] == o[ob]);
                    }
                    assert forall|a: int| 0 <= a < recs@.len() implies recs@[a].id
                        < self.next_reservation_id by {
                        let oa = if a < idx {
                            a
                        } else {
                            a + 1
                        };
                        assert(recs@[a] == o[oa]);
                    }
                    lemma_pending_remove(o, idx as int, true);
                    lemma_pending_remove(o, idx as int, false);
                }
                self.reservations = recs;
                if !rec.committed {
                    self.upbit_available_krw = self.upbit_available_krw.add(&rec.upbit_krw);
                    self.bybit_available_usdt = self.bybit_available_usdt.add(&rec.bybit_usdt);
                }
                true
            },
        }
    }

    /// Restores balances after a position is closed.
    ///
    /// Each leg adds what was received with `checked_add`; when that
    /// overflows the balance is left as it was.
    pub fn on_exit(&mut self, received_upbit_krw: Dec, received_bybit_usdt: Dec)
        ensures
            final(self).upbit() == match Dec::checked_sum_of(old(self).upbit(), received_upbit_krw) {
                Some(v) => v,
                None => old(self).upbit(),
            },
            final(self).bybit() == match Dec::checked_sum_of(old(self).bybit(), received_bybit_usdt) {
                Some(v) => v,
                None => old(self).bybit(),
            },
            Dec::add_exact(old(self).upbit(), received_upbit_krw) ==> final(self).upbit().val()
                == old(self).upbit().val() + received_upbit_krw.val(),
            Dec::add_exact(old(self).bybit(), received_bybit_usdt) ==> final(self).bybit().val()
                == old(self).bybit().val() + received_bybit_usdt.val(),
            final(self).records() == old(self).records(),
            final(self).next_id() == old(self).next_id(),
            final(self).ttl() == old(self).ttl(),
            final(self).well_formed(),
    {
        proof {
            use_type_invariant(&*self);
        }
        match self.upbit_available_krw.checked_add(&received_upbit_krw) {
            Some(v) => {
                self.upbit_available_krw = v;
            },
            None => {},
        }
        match self.bybit_available_usdt.checked_add(&received_bybit_usdt) {
            Some(v) => {
                self.bybit_available_usdt = v;
            },
            None => {},
        }
    }

    /// Hands back every pending reservation older than the time to live and
    /// drops committed records older than ten minutes; returns how many
    /// reservations were handed back.
    pub fn sweep_expired_reservations(&mut self, now_ms: u64) -> (r: usize)
        requires
            running_sums_fit(
                old(self).upbit(),
                expired_amounts(old(self).records(), now_ms, old(self).ttl(), true),
            ),
            running_sums_fit(
                old(self).bybit(),
                expired_amounts(old(self).records(), now_ms, old(self).ttl(), false),
            ),
        ensures
            final(self).records() == swept(old(self).records(), now_ms, old(self).ttl()),
            final(self).upbit().val() == old(self).upbit().val() + sum_vals(
                expired_amounts(old(self).records(), now_ms, old(self).ttl(), true),
            ),
            final(self).bybit().val() == old(self).bybit().val() + sum_vals(
                expired_amounts(old(self).records(), now_ms, old(self).ttl(), false),
            ),
            r == expired_amounts(old(self).records(), now_ms, old(self).ttl(), true).len(),
            final(self).upbit().sc() <= max_nat(
                old(self).upbit().sc(),
                max_sc(expired_amounts(old(self).records(), now_ms, old(self).ttl(), true)),
            ),
            final(self).bybit().sc() <= max_nat(
                old(self).bybit().sc(),
                max_sc(expired_amounts(old(self).records(), now_ms, old(self).ttl(), false)),
            ),
            final(self).next_id() == old(self).next_id(),
            final(self).ttl() == old(self).ttl(),
            final(self).well_formed(),
            final(self).upbit_total() == old(self).upbit_total(),
            final(self).bybit_total() == old(self).bybit_total(),
    {
        proof {
            use_type_invariant(&*self);
        }
        let ttl = self.reservation_ttl_ms;
        let ghost recs0 = self.reservations@;
        let mut kept: Vec<ReservationRecord> = Vec::new();
        let mut back_upbit: Vec<Dec> = Vec::new();
        let mut back_bybit: Vec<Dec> = Vec::new();
        let mut i: usize = 0;
        let n = self.reservations.len();
        while i < n
            invariant
                n == self.reservations.len(),
                self.reservations@ == recs0,
                i <= n,
                kept@ == swept(recs0.take(i as int), now_ms, ttl),
                back_upbit@ == expired_amounts(recs0.take(i as int), now_ms, ttl, true),
                back_bybit@ == expired_amounts(recs0.take(i as int), now_ms, ttl, false),
                back_upbit@.len() <= i,
            decreases n - i,
        {
            let r = self.reservations[i];
            let age: u64 = if now_ms >= r.created_at_ms {
                now_ms - r.created_at_ms
            } else {
                0
            };
            proof {
                assert(recs0.take(i as int + 1).drop_last() =~= recs0.take(i as int));
                assert(recs0.take(i as int + 1).last() == r);
            }
            if !r.committed && age > ttl {
                back_upbit.push(r.upbit_krw);
                back_bybit.push(r.bybit_usdt);
            } else if !(r.committed && age > COMMITTED_RECORD_RETENTION_MS) {
                kept.push(r);
            }
            i = i + 1;
        }
        proof {
            assert(recs0.take(n as int) =~= recs0);
            lemma_swept_ordered(recs0, now_ms, ttl, self.next_reservation_id);
            lemma_sweep_split(recs0, now_ms, ttl, true);
            lemma_sweep_split(recs0, now_ms, ttl, false);
        }
        let released = back_upbit.len();
        let new_upbit = sum_onto(self.upbit_available_krw, &back_upbit);
        let new_bybit = sum_onto(self.bybit_available_usdt, &back_bybit);
        self.reservations = kept;
        self.upbit_available_krw = new_upbit;
        self.bybit_available_usdt = new_bybit;
        released
    }

    /// Totals of the pending reservations (Upbit KRW, Bybit USDT).
    pub fn reserved_total(&self) -> (r: (Dec, Dec))
        requires
            running_totals_fit(pending(self.records(), true)),
            running_totals_fit(pending(self.records(), false)),
        ensures
            r.0.val() == sum_vals(pending(self.records(), true)),
            r.1.val() == sum_vals(pending(self.records(), false)),
    {
        let mut ups: Vec<Dec> = Vec::new();
        let mut bys: Vec<Dec> = Vec::new();
        let mut i: usize = 0;
        while i < self.reservations.len()
            invariant
                i <= self.reservations.len(),
                ups@ == pending(self.reservations@.take(i as int), true),
                bys@ == pending(self.reservations@.take(i as int), false),
            decreases self.reservations.len() - i,
        {
            let r = self.reservations[i];
            proof {
                assert(self.reservations@.take(i as int + 1).drop_last() =~= self.reservations@.take(
                    i as int,
                ));
            }
            if !r.committed {
                ups.push(r.upbit_krw);
                bys.push(r.bybit_usdt);
            }
            i = i + 1;
        }
        proof {
            assert(self.reservations@.take(i as int) =~= self.reservations@);
        }
        (sum_all(&ups), sum_all(&bys))
    }

    /// Whether some reservation is still pending.
    pub fn has_in_flight_reservations(&self) -> (r: bool)
        ensures
            r == (exists|i: int| 0 <= i < self.records().len() && !self.records()[i].committed),
    {
        let mut i: usize = 0;
        while i < self.reservations.len()
            invariant
                i <= self.reservations.len(),
                forall|j: int| 0 <= j < i ==> self.reservations@[j].committed,
            decreases self.reservations.len() - i,
        {
            if !self.reservations[i].committed {
                assert(!self.records()[i as int].committed);
                return true;
            }
            i = i + 1;
        }
        false
    }

    /// Replaces both available balances (after a sync with the exchanges).
    pub fn set_available(&mut self, upbit_krw: Dec, bybit_usdt: Dec)
        ensures
            final(self).upbit() == upbit_krw,
            final(self).bybit() == bybit_usdt,
            final(self).records() == old(self).records(),
            final(self).next_id() == old(self).next_id(),
            final(self).ttl() == old(self).ttl(),
            final(self).well_formed(),
    {
        proof {
            use_type_invariant(&*self);
        }
        self.upbit_available_krw = upbit_krw;
        self.bybit_available_usdt = bybit_usdt;
    }

    /// Number of pending reservations.
    pub fn active_reservation_count(&self) -> (r: usize)
        ensures
            r == pending(self.records(), true).len(),
    {
        let mut count: usize = 0;
        let mut i: usize = 0;
        while i < self.reservations.len()
            invariant
                i <= self.reservations.len(),
                count == pending(self.reservations@.take(i as int), true).len(),
                count <= i,
            decreases self.reservations.len() - i,
        {
            proof {
                assert(self.reservations@.take(i as int + 1).drop_last() =~= self.reservations@.take(
                    i as int,
                ));
            }
            if !self.reservations[i].committed {
                count = count + 1;
            }
            i = i + 1;
        }
        proof {
            assert(self.reservations@.take(i as int) =~= self.reservations@);
        }
        count
    }
}

/// Releasing a reservation right after making it gives back exactly the
/// balances and records from before the reservation.
pub proof fn law_release_undoes_reserve(
    t0: BalanceTracker,
    t1: BalanceTracker,
    t2: BalanceTracker,
    up: Dec,
    by: Dec,
    now: u64,
)
    requires
        t0.well_formed(),
        reserve_made(t0, t1, up, by, now),
        release_done(t1, t2, t0.next_id()),
    ensures
        t2.upbit().val() == t0.upbit().val(),
        t2.bybit().val() == t0.bybit().val(),
        t2.records() == t0.records(),
{
    let n = t0.records().len() as int;
    assert(ids_ordered(t1.records(), t1.next_id()));
    lemma_index_of_present(t1.records(), t1.next_id(), n);
    assert(t1.records().remove(n) =~= t0.records());
}

/// Committing a fresh reservation at exactly the reserved amounts keeps
/// the balances that the reservation left, and the reservation no longer
/// counts as pending.
pub proof fn law_commit_at_reserved_amounts(
    t0: BalanceTracker,
    t1: BalanceTracker,
    t2: BalanceTracker,
    up: Dec,
    by: Dec,
    now: u64,
)
    requires
        t0.well_formed(),
        reserve_made(t0, t1, up, by, now),
        commit_done(t1, t2, t0.next_id(), up, by),
    ensures
        t2.upbit().val() == t0.upbit().val() - up.val(),
        t2.bybit().val() == t0.bybit().val() - by.val(),
        sum_vals(pending(t2.records(), true)) == sum_vals(pending(t0.records(), true)),
        sum_vals(pending(t2.records(), false)) == sum_vals(pending(t0.records(), false)),
{
    let n = t0.records().len() as int;
    assert(ids_ordered(t1.records(), t1.next_id()));
    lemma_index_of_present(t1.records(), t1.next_id(), n);
    let rec = t1.records()[n];
    lemma_pending_update(t1.records(), n, ReservationRecord { committed: true, ..rec }, true);
    lemma_pending_update(t1.records(), n, ReservationRecord { committed: true, ..rec }, false);
    lemma_pending_push(t0.records(), rec, true);
    lemma_pending_push(t0.records(), rec, false);
}

/// A commit never drives a non-negative balance below zero.
pub proof fn law_commit_keeps_balance_non_negative(avail: int, reserved: int, actual: int)
    requires
        avail >= 0,
    ensures
        commit_leg(avail, reserved, actual) >= 0,
{
}

/// A successful reservation never drives a non-negative balance below zero,
/// so the pending amounts never exceed what was available before them.
pub proof fn law_reserve_keeps_balance_non_negative(
    t0: BalanceTracker,
    t1: BalanceTracker,
    up: Dec,
    by: Dec,
    now: u64,
)
    requires
        t0.upbit().val() >= up.val(),
        t0.bybit().val() >= by.val(),
        t0.upbit().val() >= 0,
        t0.bybit().val() >= 0,
        reserve_made(t0, t1, up, by, now),
    ensures
        t1.upbit().val() >= 0,
        t1.bybit().val() >= 0,
{
}

/// A found index is in range and holds the id.
proof fn lemma_index_of_in_range(recs: Seq<ReservationRecord>, id: u64)
    ensures
        -1 <= index_of_id(recs, id) < recs.len(),
        index_of_id(recs, id) >= 0 ==> recs[index_of_id(recs, id)].id == id,
    decreases recs.len(),
{
    if recs.len() > 0 && recs.last().id != id {
        lemma_index_of_in_range(recs.drop_last(), id);
        let k = index_of_id(recs.drop_last(), id);
        if k >= 0 {
            assert(recs.drop_last()[k] == recs[k]);
        }
    }
}

/// A reservation moves its amounts from the available balances to the
/// pending ones and adds one pending reservation; the totals stay.
pub proof fn law_reserve_moves_to_pending(
    t0: BalanceTracker,
    t1: BalanceTracker,
    up: Dec,
    by: Dec,
    now: u64,
)
    requires
        reserve_made(t0, t1, up, by, now),
    ensures
        sum_vals(pending(t1.records(), true)) == sum_vals(pending(t0.records(), true)) + up.val(),
        sum_vals(pending(t1.records(), false)) == sum_vals(pending(t0.records(), false)) + by.val(),
        pending(t1.records(), true).len() == pending(t0.records(), true).len() + 1,
        t1.upbit_total() == t0.upbit_total(),
        t1.bybit_total() == t0.bybit_total(),
{
    let rec = ReservationRecord {
        id: t0.next_id(),
        upbit_krw: up,
        bybit_usdt: by,
        created_at_ms: now,
        committed: false,
    };
    lemma_pending_push(t0.records(), rec, true);
    lemma_pending_push(t0.records(), rec, false);
    assert(t1.records().drop_last() =~= t0.records());
}

/// Releasing the same reservation a second time changes nothing: the
/// first release removed its record.
pub proof fn law_second_release_changes_nothing(
    t1: BalanceTracker,
    t2: BalanceTracker,
    t3: BalanceTracker,
    id: u64,
)
    requires
        t1.well_formed(),
        release_done(t1, t2, id),
        release_done(t2, t3, id),
    ensures
        t3.upbit() == t2.upbit(),
        t3.bybit() == t2.bybit(),
        t3.records() == t2.records(),
{
    let i = index_of_id(t1.records(), id);
    if i >= 0 {
        lemma_index_of_in_range(t1.records(), id);
        lemma_index_of_present(t1.records(), t1.next_id(), i);
        assert forall|j: int| 0 <= j < t2.records().len() implies t2.records()[j].id != id by {
            let oj = if j < i {
                j
            } else {
                j + 1
            };
            assert(t2.records()[j] == t1.records()[oj]);
        }
    } else {
        lemma_index_of_in_range(t1.records(), id);
        assert(t2.records() == t1.records());
        assert forall|j: int| 0 <= j < t2.records().len() implies t2.records()[j].id != id by {
            if t1.records()[j].id == id {
                lemma_index_of_present(t1.records(), t1.next_id(), j);
            }
        }
    }
    lemma_index_of_absent(t2.records(), id);
}

/// A release keeps available plus pending on each exchange: what leaves the
/// pending amounts comes back to the available balance.  With `new`, which
/// starts both totals at the given balances, and `reserve`, which keeps
/// them, the available and reserved amounts always add up to the starting
/// balances while no commit, exit, sweep or sync intervenes.
pub proof fn law_release_keeps_totals(t1: BalanceTracker, t2: BalanceTracker, id: u64)
    requires
        release_done(t1, t2, id),
    ensures
        t2.upbit_total() == t1.upbit_total(),
        t2.bybit_total() == t1.bybit_total(),
{
    let i = index_of_id(t1.records(), id);
    lemma_index_of_in_range(t1.records(), id);
    if i >= 0 {
        lemma_pending_remove(t1.records(), i, true);
        lemma_pending_remove(t1.records(), i, false);
    }
}

/// A commit after a reservation charges the filled amounts against the
/// balances from before the reservation (never below zero, when the
/// reservation was covered), and the reservation no longer counts as
/// pending: the pending totals and count are those from before it.
pub proof fn law_reserve_then_commit(
    t0: BalanceTracker,
    t1: BalanceTracker,
    t2: BalanceTracker,
    up: Dec,
    by: Dec,
    now: u64,
    au: Dec,
    ab: Dec,
)
    requires
        t0.well_formed(),
        reserve_made(t0, t1, up, by, now),
        commit_done(t1, t2, t0.next_id(), au, ab),
    ensures
        t2.upbit().val() == commit_leg(t0.upbit().val() - up.val(), up.val(), au.val()),
        t2.bybit().val() == commit_leg(t0.bybit().val() - by.val(), by.val(), ab.val()),
        t0.upbit().val() >= up.val() ==> t2.upbit().val() == if t0.upbit().val() >= au.val() {
            t0.upbit().val() - au.val()
        } else {
            0
        },
        t0.bybit().val() >= by.val() ==> t2.bybit().val() == if t0.bybit().val() >= ab.val() {
            t0.bybit().val() - ab.val()
        } else {
            0
        },
        sum_vals(pending(t2.records(), true)) == sum_vals(pending(t0.records(), true)),
        sum_vals(pending(t2.records(), false)) == sum_vals(pending(t0.records(), false)),
        pending(t2.records(), true).len() == pending(t0.records(), true).len(),
{
    let n = t0.records().len() as int;
    assert(ids_ordered(t1.records(), t1.next_id()));
    lemma_index_of_present(t1.records(), t1.next_id(), n);
    let rec = t1.records()[n];
    let done = ReservationRecord { committed: true, ..rec };
    assert(t1.records().update(n, done) =~= t0.records().push(done));
    lemma_pending_push(t0.records(), done, true);
    lemma_pending_push(t0.records(), done, false);
    assert(t0.records().push(done).drop_last() =~= t0.records());
}

/// Dropping the token of a reservation that was neither committed nor
/// released hands the reservation back: the balances and records are
/// those from before the reservation.
pub proof fn law_drop_releases_uncommitted(
    t0: BalanceTracker,
    t1: BalanceTracker,
    t2: BalanceTracker,
    up: Dec,
    by: Dec,
    now: u64,
)
    requires
        t0.well_formed(),
        reserve_made(t0, t1, up, by, now),
        drop_done(t1, t2, t0.next_id(), false),
    ensures
        t2.upbit().val() == t0.upbit().val(),
        t2.bybit().val() == t0.bybit().val(),
        t2.records() == t0.records(),
{
    law_release_undoes_reserve(t0, t1, t2, up, by, now);
}

/// Dropping the token of a committed reservation hands nothing back: after
/// a commit at the reserved amounts the balances stay reduced by them.
pub proof fn law_drop_keeps_committed(
    t0: BalanceTracker,
    t1: BalanceTracker,
    t2: BalanceTracker,
    t3: BalanceTracker,
    up: Dec,
    by: Dec,
    now: u64,
)
    requires
        t0.well_formed(),
        reserve_made(t0, t1, up, by, now),
        commit_done(t1, t2, t0.next_id(), up, by),
        drop_done(t2, t3, t0.next_id(), true),
    ensures
        t3.upbit().val() == t0.upbit().val() - up.val(),
        t3.bybit().val() == t0.bybit().val() - by.val(),
{
    law_commit_at_reserved_amounts(t0, t1, t2, up, by, now);
}

/// A reservation released twice and then dropped is handed back once: the
/// balances and records are those from before the reservation, whatever
/// state the token is in when dropped.
pub proof fn law_release_twice_then_drop(
    t0: BalanceTracker,
    t1: BalanceTracker,
    t2: BalanceTracker,
    t3: BalanceTracker,
    t4: BalanceTracker,
    up: Dec,
    by: Dec,
    now: u64,
    settled: bool,
)
    requires
        t0.well_formed(),
        reserve_made(t0, t1, up, by, now),
        release_done(t1, t2, t0.next_id()),
        release_done(t2, t3, t0.next_id()),
        drop_done(t3, t4, t0.next_id(), settled),
    ensures
        t4.upbit().val() == t0.upbit().val(),
        t4.bybit().val() == t0.bybit().val(),
        t4.records() == t0.records(),
{
    let id = t0.next_id();
    law_release_undoes_reserve(t0, t1, t2, up, by, now);
    assert(ids_ordered(t1.records(), t1.next_id()));
    law_second_release_changes_nothing(t1, t2, t3, id);
    if !settled {
        assert(release_done(t2, t4, id));
        law_second_release_changes_nothing(t1, t2, t4, id);
    }
}

/// A sweep at `later` hands back a reservation made at `now` exactly when
/// it has outlived the time to live: then its amounts join those handed
/// back and its record leaves; else its record stays.
pub proof fn law_sweep_after_expiry(
    t0: BalanceTracker,
    t1: BalanceTracker,
    up: Dec,
    by: Dec,
    now: u64,
    later: u64,
)
    requires
        reserve_made(t0, t1, up, by, now),
        now <= later,
    ensures
        later - now > t0.ttl() ==> {
            &&& expired_amounts(t1.records(), later, t0.ttl(), true) == expired_amounts(
                t0.records(),
                later,
                t0.ttl(),
                true,
            ).push(up)
            &&& expired_amounts(t1.records(), later, t0.ttl(), false) == expired_amounts(
                t0.records(),
                later,
                t0.ttl(),
                false,
            ).push(by)
            &&& swept(t1.records(), later, t0.ttl()) == swept(t0.records(), later, t0.ttl())
        },
        later - now <= t0.ttl() ==> {
            &&& expired_amounts(t1.records(), later, t0.ttl(), true) == expired_amounts(
                t0.records(),
                later,
                t0.ttl(),
                true,
            )
            &&& expired_amounts(t1.records(), later, t0.ttl(), false) == expired_amounts(
                t0.records(),
                later,
                t0.ttl(),
                false,
            )
            &&& swept(t1.records(), later, t0.ttl()) == swept(t0.records(), later, t0.ttl()).push(
                t1.records().last(),
            )
        },
{
    assert(t1.records().drop_last() =~= t0.records());
}

/// A sweep splits the pending reservations: what it hands back and what
/// stays pending add up to what was pending, in amount and in number;
/// committed records never hand anything back.
pub proof fn law_sweep_splits_pending(recs: Seq<ReservationRecord>, now: u64, ttl: u64, upbit: bool)
    ensures
        sum_vals(pending(recs, upbit)) == sum_vals(expired_amounts(recs, now, ttl, upbit)) + sum_vals(
            pending(swept(recs, now, ttl), upbit),
        ),
        pending(recs, upbit).len() == expired_amounts(recs, now, ttl, upbit).len() + pending(
            swept(recs, now, ttl),
            upbit,
        ).len(),
        forall|j: int|
            0 <= j < expired_records(recs, now, ttl).len() ==> !(#[trigger] expired_records(
                recs,
                now,
                ttl,
            )[j]).committed,
    decreases recs.len(),
{
    lemma_sweep_split(recs, now, ttl, upbit);
    if recs.len() > 0 {
        let rest = recs.drop_last();
        law_sweep_splits_pending(rest, now, ttl, upbit);
        let r = recs.last();
        assert(recs =~= rest.push(r));
        if survives_sweep(r, now, ttl) {
            assert(swept(rest, now, ttl).push(r).drop_last() =~= swept(rest, now, ttl));
        }
        let e = expired_records(recs, now, ttl);
        assert forall|j: int| 0 <= j < e.len() implies !(#[trigger] e[j]).committed by {
            if is_expired(r, now, ttl) && j == e.len() - 1 {
            } else {
                assert(e[j] == expired_records(rest, now, ttl)[j]);
            }
        }
    }
}

/// Every pending amount of one leg is non-negative.
pub open spec fn amounts_non_negative(recs: Seq<ReservationRecord>) -> bool {
    forall|j: int| 0 <= j < recs.len() ==> (#[trigger] recs[j]).upbit_krw.val() >= 0 && recs[j].bybit_usdt.val() >= 0
}

/// One step that moves money only between the available and the pending
/// amounts: a refused reservation or a drop of a settled token (nothing
/// changes), a covered reservation of non-negative amounts, or a release
/// (also a drop of an unsettled token).
pub open spec fn ledger_step(o: BalanceTracker, n: BalanceTracker) -> bool {
    ||| n.upbit() == o.upbit() && n.bybit() == o.bybit() && n.records() == o.records()
    ||| exists|up: Dec, by: Dec, now: u64|
        up.val() >= 0 && by.val() >= 0 && o.upbit().val() >= up.val() && o.bybit().val() >= by.val()
            && #[trigger] reserve_made(o, n, up, by, now)
    ||| exists|id: u64| #[trigger] release_done(o, n, id)
}

proof fn lemma_pending_non_negative(recs: Seq<ReservationRecord>, upbit: bool)
    requires
        amounts_non_negative(recs),
    ensures
        sum_vals(pending(recs, upbit)) >= 0,
    decreases recs.len(),
{
    if recs.len() > 0 {
        let rest = recs.drop_last();
        assert(amounts_non_negative(rest)) by {
            assert forall|j: int| 0 <= j < rest.len() implies (#[trigger] rest[j]).upbit_krw.val() >= 0
                && rest[j].bybit_usdt.val() >= 0 by {
                assert(rest[j] == recs[j]);
            }
        }
        lemma_pending_non_negative(rest, upbit);
        assert(recs =~= rest.push(recs.last()));
        lemma_pending_push(rest, recs.last(), upbit);
        assert(recs[recs.len() - 1] == recs.last());
    }
}

/// The step from `o` to `n` keeps available plus pending on each exchange.
proof fn lemma_ledger_step_totals(o: BalanceTracker, n: BalanceTracker)
    requires
        ledger_step(o, n),
    ensures
        n.upbit_total() == o.upbit_total(),
        n.bybit_total() == o.bybit_total(),
        o.upbit().val() >= 0 && o.bybit().val() >= 0 && amounts_non_negative(o.records()) ==> n.upbit().val()
            >= 0 && n.bybit().val() >= 0 && amounts_non_negative(n.records()),
{
    if n.upbit() == o.upbit() && n.bybit() == o.bybit() && n.records() == o.records() {
    } else if exists|up: Dec, by: Dec, now: u64|
        up.val() >= 0 && by.val() >= 0 && o.upbit().val() >= up.val() && o.bybit().val() >= by.val()
            && #[trigger] reserve_made(o, n, up, by, now) {
        let (up, by, now) = choose|up: Dec, by: Dec, now: u64|
            up.val() >= 0 && by.val() >= 0 && o.upbit().val() >= up.val() && o.bybit().val() >= by.val()
                && #[trigger] reserve_made(o, n, up, by, now);
        law_reserve_moves_to_pending(o, n, up, by, now);
        if amounts_non_negative(o.records()) {
            assert forall|j: int| 0 <= j < n.records().len() implies (#[trigger] n.records()[j]).upbit_krw.val()
                >= 0 && n.records()[j].bybit_usdt.val() >= 0 by {
                if j < o.records().len() {
                    assert(n.records()[j] == o.records()[j]);
                }
            }
        }
    } else {
        let id = choose|id: u64| #[trigger] release_done(o, n, id);
        law_release_keeps_totals(o, n, id);
        let i = index_of_id(o.records(), id);
        lemma_index_of_in_range(o.records(), id);
        if amounts_non_negative(o.records()) && i >= 0 {
            assert(o.records()[i].upbit_krw.val() >= 0);
            assert forall|j: int| 0 <= j < n.records().len() implies (#[trigger] n.records()[j]).upbit_krw.val()
                >= 0 && n.records()[j].bybit_usdt.val() >= 0 by {
                if j < i {
                    assert(n.records()[j] == o.records()[j]);
                } else {
                    assert(n.records()[j] == o.records()[j + 1]);
                }
            }
        }
    }
}

/// Each state of the run keeps the totals of the first and, from a
/// non-negative start, non-negative balances and amounts.
proof fn lemma_ledger_run(trace: Seq<BalanceTracker>)
    requires
        trace.len() >= 1,
        forall|i: int| 0 <= i < trace.len() - 1 ==> ledger_step(#[trigger] trace[i], trace[i + 1]),
    ensures
        forall|i: int|
            0 <= i < trace.len() ==> (#[trigger] trace[i]).upbit_total() == trace[0].upbit_total()
                && trace[i].bybit_total() == trace[0].bybit_total(),
        trace[0].upbit().val() >= 0 && trace[0].bybit().val() >= 0 && amounts_non_negative(
            trace[0].records(),
        ) ==> forall|i: int|
            0 <= i < trace.len() ==> (#[trigger] trace[i]).upbit().val() >= 0 && trace[i].bybit().val() >= 0
                && amounts_non_negative(trace[i].records()),
    decreases trace.len(),
{
    if trace.len() > 1 {
        let front = trace.drop_last();
        assert forall|i: int| 0 <= i < front.len() - 1 implies ledger_step(#[trigger] front[i], front[i + 1]) by {
            assert(front[i] == trace[i] && front[i + 1] == trace[i + 1]);
        }
        lemma_ledger_run(front);
        let k = trace.len() - 2;
        assert(trace[k] == front[k]);
        lemma_ledger_step_totals(trace[k], trace[k + 1]);
        assert forall|i: int| 0 <= i < trace.len() - 1 implies #[trigger] trace[i] == front[i] by {}
    }
}

/// Over any run of reservations, releases and drops (no commit, exit,
/// sweep or sync), available plus pending stays what it was on each
/// exchange; starting from non-negative balances and amounts (as `new`
/// does from non-negative balances), the available and pending amounts
/// stay non-negative.
pub proof fn law_ledger_conserves(trace: Seq<BalanceTracker>)
    requires
        trace.len() >= 1,
        forall|i: int| 0 <= i < trace.len() - 1 ==> ledger_step(#[trigger] trace[i], trace[i + 1]),
    ensures
        forall|i: int|
            0 <= i < trace.len() ==> (#[trigger] trace[i]).upbit_total() == trace[0].upbit_total()
                && trace[i].bybit_total() == trace[0].bybit_total(),
        trace[0].upbit().val() >= 0 && trace[0].bybit().val() >= 0 && amounts_non_negative(
            trace[0].records(),
        ) ==> forall|i: int|
            0 <= i < trace.len() ==> {
                &&& (#[trigger] trace[i]).upbit().val() >= 0
                &&& trace[i].bybit().val() >= 0
                &&& sum_vals(pending(trace[i].records(), true)) >= 0
                &&& sum_vals(pending(trace[i].records(), false)) >= 0
            },
{
    lemma_ledger_run(trace);
    assert forall|i: int| 0 <= i < trace.len() && trace[0].upbit().val() >= 0 && trace[0].bybit().val() >= 0
        && amounts_non_negative(trace[0].records()) implies {
        &&& (#[trigger] trace[i]).upbit().val() >= 0
        &&& trace[i].bybit().val() >= 0
        &&& sum_vals(pending(trace[i].records(), true)) >= 0
        &&& sum_vals(pending(trace[i].records(), false)) >= 0
    } by {
        lemma_pending_non_negative(trace[i].records(), true);
        lemma_pending_non_negative(trace[i].records(), false);
    }
}

proof fn lemma_pending_update_len(recs: Seq<ReservationRecord>, i: int, r: ReservationRecord, upbit: bool)
    requires
        0 <= i < recs.len(),
    ensures
        pending(recs.update(i, r), upbit).len() + (if recs[i].committed {
            0int
        } else {
            1int
        }) == pending(recs, upbit).len() + (if r.committed {
            0int
        } else {
            1int
        }),
    decreases recs.len(),
{
    if i == recs.len() - 1 {
        assert(recs.update(i, r) =~= recs.drop_last().push(r));
        assert(recs.drop_last().push(r).drop_last() =~= recs.drop_last());
    } else {
        let rest = recs.drop_last();
        lemma_pending_update_len(rest, i, r, upbit);
        assert(recs.update(i, r) =~= rest.update(i, r).push(recs.last()));
        assert(rest.update(i, r).push(recs.last()).drop_last() =~= rest.update(i, r));
        assert(rest[i] == recs[i]);
    }
}

/// Committing a pending reservation takes its amounts out of the pending
/// totals and the reservation out of the pending count; from a
/// non-negative balance, each leg ends at `max(0, available + reserved -
/// filled)`.
pub proof fn law_commit_moves_pending(t1: BalanceTracker, t2: BalanceTracker, id: u64, au: Dec, ab: Dec)
    requires
        commit_done(t1, t2, id, au, ab),
        index_of_id(t1.records(), id) >= 0,
        !t1.records()[index_of_id(t1.records(), id)].committed,
    ensures
        sum_vals(pending(t2.records(), true)) == sum_vals(pending(t1.records(), true))
            - t1.records()[index_of_id(t1.records(), id)].upbit_krw.val(),
        sum_vals(pending(t2.records(), false)) == sum_vals(pending(t1.records(), false))
            - t1.records()[index_of_id(t1.records(), id)].bybit_usdt.val(),
        pending(t2.records(), true).len() + 1 == pending(t1.records(), true).len(),
        t1.upbit().val() >= 0 ==> t2.upbit().val() == if t1.upbit().val() + t1.records()[index_of_id(
            t1.records(),
            id,
        )].upbit_krw.val() - au.val() >= 0 {
            t1.upbit().val() + t1.records()[index_of_id(t1.records(), id)].upbit_krw.val() - au.val()
        } else {
            0
        },
        t1.bybit().val() >= 0 ==> t2.bybit().val() == if t1.bybit().val() + t1.records()[index_of_id(
            t1.records(),
            id,
        )].bybit_usdt.val() - ab.val() >= 0 {
            t1.bybit().val() + t1.records()[index_of_id(t1.records(), id)].bybit_usdt.val() - ab.val()
        } else {
            0
        },
{
    let i = index_of_id(t1.records(), id);
    lemma_index_of_in_range(t1.records(), id);
    let rec = t1.records()[i];
    let done = ReservationRecord { committed: true, ..rec };
    lemma_pending_update(t1.records(), i, done, true);
    lemma_pending_update(t1.records(), i, done, false);
    lemma_pending_update_len(t1.records(), i, done, true);
}

/// A sweep takes what it hands back out of the pending totals and the
/// handed-back reservations out of the pending count, and hands back
/// nothing of a committed record.
pub proof fn law_sweep_moves_pending(t1: BalanceTracker, t2: BalanceTracker, now: u64)
    requires
        t2.records() == swept(t1.records(), now, t1.ttl()),
    ensures
        sum_vals(pending(t2.records(), true)) == sum_vals(pending(t1.records(), true)) - sum_vals(
            expired_amounts(t1.records(), now, t1.ttl(), true),
        ),
        sum_vals(pending(t2.records(), false)) == sum_vals(pending(t1.records(), false)) - sum_vals(
            expired_amounts(t1.records(), now, t1.ttl(), false),
        ),
        pending(t2.records(), true).len() == pending(t1.records(), true).len() - expired_amounts(
            t1.records(),
            now,
            t1.ttl(),
            true,
        ).len(),
        forall|j: int|
            0 <= j < expired_records(t1.records(), now, t1.ttl()).len() ==> !(#[trigger] expired_records(
                t1.records(),
                now,
                t1.ttl(),
            )[j]).committed,
{
    law_sweep_splits_pending(t1.records(), now, t1.ttl(), true);
    law_sweep_splits_pending(t1.records(), now, t1.ttl(), false);
}

} // verus!
