//! Rounding of prices and quantities to exchange steps, the Upbit KRW tick
//! table, and the per-coin instrument cache.

use vstd::prelude::*;

use crate::decimal::{abs_int, fits_at, lemma_fits_at_smaller_scale, max_nat, pow10, unit, Dec};
use crate::keyed::StrMap;

verus! {

/// `v` rounded down to a multiple of `|st|` (values counted in `10^-28`):
/// a zero step leaves `v`, a negative `v` gives zero.
pub open spec fn step_floor(v: int, st: int) -> int {
    if st == 0 {
        v
    } else if v < 0 {
        0
    } else {
        v - v % abs_int(st)
    }
}

/// `v` rounded up by `st`: a zero step leaves `v`, a negative `v` gives
/// zero, an exact multiple stays, otherwise `v + (st - v mod |st|)`.
pub open spec fn step_ceil(v: int, st: int) -> int {
    if st == 0 {
        v
    } else if v < 0 {
        0
    } else if v % abs_int(st) == 0 {
        v
    } else {
        v + (st - v % abs_int(st))
    }
}

/// The rounding down of `value` is representable at the larger scale of
/// `value` and `step` (always so but within a few digits of the 96-bit limit).
pub open spec fn floor_exact(value: Dec, step: Dec) -> bool {
    value.val() >= 0 && step.val() != 0 ==> fits_at(
        step_floor(value.val(), step.val()),
        max_nat(value.sc(), step.sc()),
    )
}

/// The intermediate `step - remainder` and the rounding up of `value` are
/// representable at the larger scale of `value` and `step`.
pub open spec fn ceil_exact(value: Dec, step: Dec) -> bool {
    value.val() >= 0 && step.val() != 0 && value.val() % abs_int(step.val()) != 0 ==> {
        &&& fits_at(
            step.val() - value.val() % abs_int(step.val()),
            max_nat(value.sc(), step.sc()),
        )
        &&& fits_at(step_ceil(value.val(), step.val()), max_nat(value.sc(), step.sc()))
    }
}

/// Rounds `value` down to a multiple of `step`.
///
/// A zero step returns `value` unchanged; a negative value returns zero; an
/// exact multiple is returned as it is.
pub fn floor_to_step(value: Dec, step: Dec) -> (r: Dec)
    requires
        floor_exact(value, step),
    ensures
        r.val() == step_floor(value.val(), step.val()),
{
    if step.is_zero() {
        return value;
    }
    if value.is_negative() {
        return Dec::zero();
    }
    let remainder = value.rem(&step);
    if remainder.is_zero() {
        value
    } else {
        proof {
            lemma_fits_at_smaller_scale(
                value.val() - remainder.val(),
                max_nat(value.sc(), remainder.sc()),
                max_nat(value.sc(), step.sc()),
            );
        }
        value.sub(&remainder)
    }
}

/// Rounds `value` up to a multiple of `step`.
///
/// A zero step returns `value` unchanged; a negative value returns zero; an
/// exact multiple is returned as it is.
pub fn ceil_to_step(value: Dec, step: Dec) -> (r: Dec)
    requires
        ceil_exact(value, step),
    ensures
        r.val() == step_ceil(value.val(), step.val()),
{
    if step.is_zero() {
        return value;
    }
    if value.is_negative() {
        return Dec::zero();
    }
    let remainder = value.rem(&step);
    if remainder.is_zero() {
        value
    } else {
        let m = Ghost(max_nat(value.sc(), step.sc()));
        proof {
            lemma_fits_at_smaller_scale(
                step.val() - remainder.val(),
                max_nat(step.sc(), remainder.sc()),
                m@,
            );
        }
        let gap = step.sub(&remainder);
        proof {
            lemma_fits_at_smaller_scale(
                value.val() + gap.val(),
                max_nat(value.sc(), gap.sc()),
                m@,
            );
        }
        value.add(&gap)
    }
}

/// The Upbit KRW tick size for a price (values counted in `10^-28`): the
/// first band, from the top, whose lower bound the price reaches.
pub open spec fn upbit_tick_val(p: int) -> int {
    if p >= 1_000_000 * unit(0) {
        1000 * unit(0)
    } else if p >= 500_000 * unit(0) {
        500 * unit(0)
    } else if p >= 100_000 * unit(0) {
        100 * unit(0)
    } else if p >= 50_000 * unit(0) {
        50 * unit(0)
    } else if p >= 10_000 * unit(0) {
        10 * unit(0)
    } else if p >= 5_000 * unit(0) {
        5 * unit(0)
    } else if p >= 100 * unit(0) {
        unit(0)
    } else if p >= 10 * unit(0) {
        unit(1)
    } else if p >= unit(0) {
        unit(2)
    } else if p >= unit(1) {
        unit(3)
    } else if p >= unit(2) {
        unit(4)
    } else if p >= unit(3) {
        unit(5)
    } else if p >= unit(4) {
        unit(6)
    } else if p >= unit(5) {
        unit(7)
    } else {
        unit(8)
    }
}

/// The Upbit KRW tick size for `krw_price`: bands are closed below and open
/// above, searched from the highest; below 0.00001 the tick is 0.00000001.
pub fn upbit_tick_size(krw_price: Dec) -> (r: Dec)
    ensures
        r.val() == upbit_tick_val(krw_price.val()),
{
    if krw_price.ge(&Dec::new(1_000_000, 0)) {
        return Dec::new(1_000, 0);
    }
    if krw_price.ge(&Dec::new(500_000, 0)) {
        return Dec::new(500, 0);
    }
    if krw_price.ge(&Dec::new(100_000, 0)) {
        return Dec::new(100, 0);
    }
    if krw_price.ge(&Dec::new(50_000, 0)) {
        return Dec::new(50, 0);
    }
    if krw_price.ge(&Dec::new(10_000, 0)) {
        return Dec::new(10, 0);
    }
    if krw_price.ge(&Dec::new(5_000, 0)) {
        return Dec::new(5, 0);
    }
    if krw_price.ge(&Dec::new(1_000, 0)) {
        return Dec::new(1, 0);
    }
    if krw_price.ge(&Dec::new(100, 0)) {
        return Dec::new(1, 0);
    }
    if krw_price.ge(&Dec::new(10, 0)) {
        return Dec::new(1, 1);
    }
    if krw_price.ge(&Dec::new(1, 0)) {
        return Dec::new(1, 2);
    }
    if krw_price.ge(&Dec::new(1, 1)) {
        return Dec::new(1, 3);
    }
    if krw_price.ge(&Dec::new(1, 2)) {
        return Dec::new(1, 4);
    }
    if krw_price.ge(&Dec::new(1, 3)) {
        return Dec::new(1, 5);
    }
    if krw_price.ge(&Dec::new(1, 4)) {
        return Dec::new(1, 6);
    }
    if krw_price.ge(&Dec::new(1, 5)) {
        return Dec::new(1, 7);
    }
    Dec::new(1, 8)
}

/// The Upbit tick size is positive, never shrinks as the price rises, and
/// from 0.00001 KRW up is at most a hundredth of the price.
pub proof fn law_upbit_tick_bands(p: int, q: int)
    ensures
        upbit_tick_val(p) > 0,
        p <= q ==> upbit_tick_val(p) <= upbit_tick_val(q),
        p >= unit(5) ==> upbit_tick_val(p) * 100 <= p,
{
    reveal_with_fuel(pow10, 29);
    assert(unit(0) == pow10(28));
    assert(unit(1) == pow10(27));
    assert(unit(2) == pow10(26));
    assert(unit(3) == pow10(25));
    assert(unit(4) == pow10(24));
    assert(unit(5) == pow10(23));
    assert(unit(6) == pow10(22));
    assert(unit(7) == pow10(21));
    assert(unit(8) == pow10(20));
}

/// Rounds a price against the trader: up when buying, down when selling.
pub fn round_price_conservative(price: Dec, tick_size: Dec, is_buy: bool) -> (r: Dec)
    requires
        is_buy ==> ceil_exact(price, tick_size),
        !is_buy ==> floor_exact(price, tick_size),
    ensures
        is_buy ==> r.val() == step_ceil(price.val(), tick_size.val()),
        !is_buy ==> r.val() == step_floor(price.val(), tick_size.val()),
        price.val() >= 0 && tick_size.val() > 0 && is_buy ==> r.val() >= price.val(),
        price.val() >= 0 && tick_size.val() > 0 && !is_buy ==> r.val() <= price.val(),
{
    proof {
        if price.val() >= 0 && tick_size.val() > 0 {
            law_step_rounding_brackets(price.val(), tick_size.val());
        }
    }
    if is_buy {
        ceil_to_step(price, tick_size)
    } else {
        floor_to_step(price, tick_size)
    }
}

/// Rounds a quantity down to the quantity step.
pub fn round_qty_floor(qty: Dec, qty_step: Dec) -> (r: Dec)
    requires
        floor_exact(qty, qty_step),
    ensures
        r.val() == step_floor(qty.val(), qty_step.val()),
{
    floor_to_step(qty, qty_step)
}

/// Rounding to a positive step brackets the value: the rounding down is at
/// most the value and less than one step below it, the rounding up at least
/// the value and less than one step above it; both are multiples of the
/// step, and rounding again changes nothing.
pub proof fn law_step_rounding_brackets(v: int, st: int)
    requires
        v >= 0,
        st > 0,
    ensures
        step_floor(v, st) <= v <= step_ceil(v, st),
        v - step_floor(v, st) < st,
        step_ceil(v, st) - v < st,
        step_floor(v, st) % st == 0,
        step_ceil(v, st) % st == 0,
        step_floor(step_floor(v, st), st) == step_floor(v, st),
        step_ceil(step_ceil(v, st), st) == step_ceil(v, st),
{
    let q = v / st;
    let r = v % st;
    vstd::arithmetic::div_mod::lemma_fundamental_div_mod(v, st);
    assert(0 <= r < st);
    assert(v - r == st * q);
    vstd::arithmetic::div_mod::lemma_mod_multiples_vanish(q, 0, st);
    assert((st * q) % st == 0);
    assert(st * q >= 0) by (nonlinear_arith)
        requires
            st * q == v - r,
            v >= r,
    ;
    if r != 0 {
        vstd::arithmetic::div_mod::lemma_mod_multiples_vanish(q + 1, 0, st);
        assert(st * (q + 1) == st * q + st) by (nonlinear_arith);
        assert(v + (st - r) == st * (q + 1));
        assert((v + (st - r)) % st == 0);
    }
}

/// Conservative price rounding never favours the trader: a buy price is
/// rounded to at least, a sell price to at most, the given price.
pub proof fn law_conservative_rounding(price: int, tick: int)
    requires
        price >= 0,
        tick > 0,
    ensures
        step_ceil(price, tick) >= price,
        step_floor(price, tick) <= price,
{
    law_step_rounding_brackets(price, tick);
}

/// Trading specification of one coin on the futures exchange.
#[derive(Clone, Copy, Debug)]
pub struct InstrumentInfo {
    /// Price step.
    pub tick_size: Dec,
    /// Quantity step.
    pub qty_step: Dec,
    /// Smallest order quantity.
    pub min_order_qty: Dec,
    /// Smallest order value in USDT.
    pub min_notional: Dec,
    /// Largest order quantity.
    pub max_order_qty: Dec,
}

impl Default for InstrumentInfo {
    fn default() -> (r: InstrumentInfo)
        ensures
            r.tick_size.val() == 0,
            r.qty_step.val() == 0,
            r.min_order_qty.val() == 0,
            r.min_notional.val() == 0,
            r.max_order_qty.val() == 0,
    {
        InstrumentInfo {
            tick_size: Dec::zero(),
            qty_step: Dec::zero(),
            min_order_qty: Dec::zero(),
            min_notional: Dec::zero(),
            max_order_qty: Dec::zero(),
        }
    }
}

/// Instrument specifications by coin symbol.
pub struct InstrumentCache {
    cache: StrMap<InstrumentInfo>,
}

impl InstrumentCache {
    /// The specifications held, by coin.
    pub closed spec fn view(&self) -> Map<Seq<char>, InstrumentInfo> {
        self.cache.view()
    }

    /// An empty cache.
    pub fn new() -> (r: InstrumentCache)
        ensures
            r.view() == Map::<Seq<char>, InstrumentInfo>::empty(),
    {
        InstrumentCache { cache: StrMap::new() }
    }

    /// The specification of `coin`; `None` when it was never loaded.
    pub fn get(&self, coin: &str) -> (r: Option<&InstrumentInfo>)
        ensures
            r is None <==> !self.view().dom().contains(coin@),
            r is Some ==> *r->0 == self.view()[coin@],
    {
        self.cache.get(coin)
    }

    /// Stores the specification of `coin`, replacing an earlier one.
    pub fn insert(&mut self, coin: String, info: InstrumentInfo)
        ensures
            final(self).view() == old(self).view().insert(coin@, info),
    {
        self.cache.insert(coin, info);
    }

    /// Stores every specification that was fetched successfully, in order;
    /// coins whose fetch failed (`None`) are left out.
    pub fn insert_fetched(&mut self, fetched: Vec<(String, Option<InstrumentInfo>)>)
        ensures
            final(self).view() == apply_fetched(old(self).view(), fetched@),
    {
        let ghost start = self.view();
        let ghost all = fetched@;
        let n = fetched.len();
        let mut i: usize = 0;
        while i < n
            invariant
                n == fetched.len(),
                fetched@ == all,
                i <= n,
                self.view() == apply_fetched(start, all.take(i as int)),
            decreases n - i,
        {
            let coin = fetched[i].0.clone();
            let info = fetched[i].1;
            proof {
                assert(all.take(i as int + 1).drop_last() =~= all.take(i as int));
            }
            match info {
                Some(inf) => {
                    self.cache.insert(coin, inf);
                },
                None => {},
            }
            i = i + 1;
        }
        assert(all.take(n as int) =~= all);
    }
}

/// The cache after storing, in order, every fetched specification.
pub open spec fn apply_fetched(
    m: Map<Seq<char>, InstrumentInfo>,
    fetched: Seq<(String, Option<InstrumentInfo>)>,
) -> Map<Seq<char>, InstrumentInfo>
    decreases fetched.len(),
{
    if fetched.len() == 0 {
        m
    } else {
        let prev = apply_fetched(m, fetched.drop_last());
        match fetched.last().1 {
            Some(info) => prev.insert(fetched.last().0@, info),
            None => prev,
        }
    }
}

impl Default for InstrumentCache {
    fn default() -> (r: InstrumentCache)
        ensures
            r.view() == Map::<Seq<char>, InstrumentInfo>::empty(),
    {
        InstrumentCache::new()
    }
}

/// Storing fetched specifications keeps every coin that got none, stores
/// a coin exactly when it was cached before or some specification of it
/// was fetched, and the last fetched specification of a coin wins.
pub proof fn law_fetched_specs_stored(
    m: Map<Seq<char>, InstrumentInfo>,
    fetched: Seq<(String, Option<InstrumentInfo>)>,
    k: Seq<char>,
)
    ensures
        apply_fetched(m, fetched).dom().contains(k) <==> m.dom().contains(k) || exists|i: int|
            0 <= i < fetched.len() && (#[trigger] fetched[i]).0@ == k && fetched[i].1 is Some,
        (forall|i: int| 0 <= i < fetched.len() ==> !((#[trigger] fetched[i]).0@ == k && fetched[i].1 is Some))
            && m.dom().contains(k) ==> apply_fetched(m, fetched)[k] == m[k],
        fetched.len() > 0 && fetched.last().0@ == k && fetched.last().1 is Some ==> apply_fetched(
            m,
            fetched,
        )[k] == fetched.last().1->0,
    decreases fetched.len(),
{
    if fetched.len() > 0 {
        let rest = fetched.drop_last();
        law_fetched_specs_stored(m, rest, k);
        let last = fetched.last();
        assert((exists|i: int| 0 <= i < fetched.len() && (#[trigger] fetched[i]).0@ == k && fetched[i].1 is Some)
            <==> (exists|i: int| 0 <= i < rest.len() && (#[trigger] rest[i]).0@ == k && rest[i].1 is Some)
            || (last.0@ == k && last.1 is Some)) by {
            if exists|i: int| 0 <= i < fetched.len() && (#[trigger] fetched[i]).0@ == k && fetched[i].1 is Some {
                let i = choose|i: int| 0 <= i < fetched.len() && (#[trigger] fetched[i]).0@ == k && fetched[i].1 is Some;
                if i < rest.len() {
                    assert(rest[i] == fetched[i]);
                }
            }
            if exists|i: int| 0 <= i < rest.len() && (#[trigger] rest[i]).0@ == k && rest[i].1 is Some {
                let i = choose|i: int| 0 <= i < rest.len() && (#[trigger] rest[i]).0@ == k && rest[i].1 is Some;
                assert(fetched[i] == rest[i]);
            }
            assert(fetched[fetched.len() - 1] == last);
        }
        if forall|i: int| 0 <= i < fetched.len() ==> !((#[trigger] fetched[i]).0@ == k && fetched[i].1 is Some) {
            assert forall|i: int| 0 <= i < rest.len() implies !((#[trigger] rest[i]).0@ == k && rest[i].1 is Some) by {
                assert(fetched[i] == rest[i]);
            }
            assert(fetched[fetched.len() - 1] == last);
        }
    }
}

} // verus!
