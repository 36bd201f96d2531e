//! The pure parts of the real-time monitor: the one-minute candle builder
//! fed by trade and quote events, the coin-list diff of a reselection and
//! the rejections by spread deviation, the choice of coins after warm-up,
//! the position TTL stages, and the quantity and order-limit checks that an
//! entry passes before its orders are placed.

use crate::decimal::{abs_int, fits_at, lemma_pow10_add, max_nat, pow10, unit, Dec};
use crate::instrument::{floor_exact, round_qty_floor, step_floor, InstrumentInfo};
use crate::keyed::StrMap;
use crate::text::{is_prefix, is_suffix, starts_with, strip_prefix, strip_suffix};
use vstd::prelude::*;

verus! {

/// Start of the minute holding `ts_ms` (milliseconds since the epoch).
pub open spec fn minute_start(ts_ms: int) -> int {
    ts_ms - ts_ms % 60000
}

/// The start of the minute of `ts_ms`, where it is representable.
pub fn truncate_to_minute(ts_ms: i64) -> (r: i64)
    requires
        i64::MIN <= minute_start(ts_ms as int),
    ensures
        r == minute_start(ts_ms as int),
{
    let rem: i64 = match ts_ms.checked_rem_euclid(60000) {
        Some(v) => v,
        None => 0,
    };
    ts_ms - rem
}

/// The coin of an Upbit market code: `KRW-<coin>`, except the `KRW-USDT`
/// market, which the forex cache follows.
pub open spec fn upbit_coin(market: Seq<char>) -> Option<Seq<char>> {
    if is_prefix("KRW-USDT"@, market) {
        None
    } else if is_prefix("KRW-"@, market) {
        Some(market.subrange("KRW-"@.len() as int, market.len() as int))
    } else {
        None
    }
}

/// The coin of a Bybit market code `<coin>USDT`.
pub open spec fn bybit_coin(market: Seq<char>) -> Option<Seq<char>> {
    if is_suffix("USDT"@, market) {
        Some(market.subrange(0, market.len() - "USDT"@.len()))
    } else {
        None
    }
}

/// The start of a minute is a whole minute, at most the time itself and
/// less than a minute before it.
pub proof fn law_minute_start(ts_ms: int)
    ensures
        minute_start(ts_ms) % 60000 == 0,
        minute_start(ts_ms) <= ts_ms < minute_start(ts_ms) + 60000,
{
}

/// A market code names a coin exactly as `KRW-<coin>` on Upbit (the
/// `KRW-USDT` market excepted) and `<coin>USDT` on Bybit.
pub proof fn law_market_codes(market: Seq<char>, coin: Seq<char>)
    ensures
        upbit_coin(market) == Some(coin) <==> market == "KRW-"@ + coin && !is_prefix("KRW-USDT"@, market),
        bybit_coin(market) == Some(coin) <==> market == coin + "USDT"@,
{
    reveal_strlit("KRW-");
    reveal_strlit("USDT");
    reveal_strlit("KRW-USDT");
    if market == "KRW-"@ + coin {
        assert(market.subrange(0, 4) =~= "KRW-"@);
        assert(market.subrange(4, market.len() as int) =~= coin);
    }
    if is_prefix("KRW-"@, market) {
        assert(market =~= "KRW-"@ + market.subrange(4, market.len() as int));
    }
    if market == coin + "USDT"@ {
        assert(market.subrange(market.len() - 4, market.len() as int) =~= "USDT"@);
        assert(market.subrange(0, market.len() - 4) =~= coin);
    }
    if is_suffix("USDT"@, market) {
        assert(market =~= market.subrange(0, market.len() - 4) + "USDT"@);
    }
}

/// The closes handed out by finalizing `coins` one after another, and what
/// is left of the last prices `m`: each coin takes its price out of `m`
/// (`None` when there is none left), and a later entry of a coin overwrites
/// an earlier one.
pub open spec fn take_closes(m: Map<Seq<char>, Dec>, coins: Seq<String>) -> (
    Map<Seq<char>, Option<Dec>>,
    Map<Seq<char>, Dec>,
)
    decreases coins.len(),
{
    if coins.len() == 0 {
        (Map::empty(), m)
    } else {
        let prev = take_closes(m, coins.drop_last());
        let k = coins.last()@;
        let close = if prev.1.dom().contains(k) {
            Some(prev.1[k])
        } else {
            None
        };
        (prev.0.insert(k, close), prev.1.remove(k))
    }
}

/// Last prices of the current minute, by coin.
pub struct MinuteCandleBuilder {
    /// Start of the current minute, milliseconds since the epoch.
    pub current_minute: Option<i64>,
    /// Last Upbit trade price by coin.
    pub upbit_last_trade: StrMap<Dec>,
    /// Last Bybit best bid by coin.
    pub bybit_last_bid: StrMap<Dec>,
}

impl MinuteCandleBuilder {
    /// A builder with no minute and no price.
    pub fn new() -> (r: MinuteCandleBuilder)
        ensures
            r.current_minute is None,
            r.upbit_last_trade@ == Map::<Seq<char>, Dec>::empty(),
            r.bybit_last_bid@ == Map::<Seq<char>, Dec>::empty(),
    {
        MinuteCandleBuilder {
            current_minute: None,
            upbit_last_trade: StrMap::new(),
            bybit_last_bid: StrMap::new(),
        }
    }

    /// Whether `ts_ms` falls in a later minute than the current one (always
    /// so before the first minute).
    pub fn is_new_minute(&self, ts_ms: i64) -> (r: bool)
        requires
            i64::MIN <= minute_start(ts_ms as int),
        ensures
            r == match self.current_minute {
                Some(cur) => minute_start(ts_ms as int) > cur,
                None => true,
            },
    {
        let minute = truncate_to_minute(ts_ms);
        match self.current_minute {
            Some(cur) => minute > cur,
            None => true,
        }
    }

    /// Ends the current minute: hands out, for each of `coins`, its last
    /// Upbit trade and last Bybit bid (or `None`), taking them out.
    pub fn finalize_minute(&mut self, coins: &[String]) -> (r: (
        StrMap<Option<Dec>>,
        StrMap<Option<Dec>>,
    ))
        ensures
            r.0@ == take_closes(old(self).upbit_last_trade@, coins@).0,
            r.1@ == take_closes(old(self).bybit_last_bid@, coins@).0,
            final(self).upbit_last_trade@ == take_closes(old(self).upbit_last_trade@, coins@).1,
            final(self).bybit_last_bid@ == take_closes(old(self).bybit_last_bid@, coins@).1,
            final(self).current_minute == old(self).current_minute,
    {
        let ghost up0 = self.upbit_last_trade@;
        let ghost by0 = self.bybit_last_bid@;
        let mut upbit_closes: StrMap<Option<Dec>> = StrMap::new();
        let mut bybit_closes: StrMap<Option<Dec>> = StrMap::new();
        let mut i: usize = 0;
        while i < coins.len()
            invariant
                i <= coins.len(),
                self.current_minute == old(self).current_minute,
                up0 == old(self).upbit_last_trade@,
                by0 == old(self).bybit_last_bid@,
                upbit_closes@ == take_closes(up0, coins@.take(i as int)).0,
                self.upbit_last_trade@ == take_closes(up0, coins@.take(i as int)).1,
                bybit_closes@ == take_closes(by0, coins@.take(i as int)).0,
                self.bybit_last_bid@ == take_closes(by0, coins@.take(i as int)).1,
            decreases coins.len() - i,
        {
            proof {
                assert(coins@.take(i as int + 1).drop_last() =~= coins@.take(i as int));
                assert(coins@.take(i as int + 1).last() == coins@[i as int]);
            }
            let coin = &coins[i];
            let up = self.upbit_last_trade.remove(coin.as_str());
            upbit_closes.insert(coin.clone(), up);
            let by = self.bybit_last_bid.remove(coin.as_str());
            bybit_closes.insert(coin.clone(), by);
            i = i + 1;
        }
        proof {
            assert(coins@.take(coins.len() as int) =~= coins@);
        }
        (upbit_closes, bybit_closes)
    }

    /// Starts the minute of `ts_ms`, forgetting every price.
    pub fn start_new_minute(&mut self, ts_ms: i64)
        requires
            i64::MIN <= minute_start(ts_ms as int),
        ensures
            final(self).current_minute == Some(minute_start(ts_ms as int) as i64),
            final(self).upbit_last_trade@ == Map::<Seq<char>, Dec>::empty(),
            final(self).bybit_last_bid@ == Map::<Seq<char>, Dec>::empty(),
    {
        self.current_minute = Some(truncate_to_minute(ts_ms));
        self.upbit_last_trade.clear();
        self.bybit_last_bid.clear();
    }

    /// Records an Upbit trade on `market` as the last price of its coin;
    /// `KRW-USDT` and codes outside the KRW market are ignored.
    pub fn on_upbit_trade(&mut self, market: &str, price: Dec)
        ensures
            final(self).upbit_last_trade@ == match upbit_coin(market@) {
                Some(c) => old(self).upbit_last_trade@.insert(c, price),
                None => old(self).upbit_last_trade@,
            },
            final(self).bybit_last_bid@ == old(self).bybit_last_bid@,
            final(self).current_minute == old(self).current_minute,
    {
        proof {
            reveal_strlit("KRW-");
            reveal_strlit("KRW-USDT");
        }
        if starts_with(market, "KRW-USDT") {
            return ;
        }
        match strip_prefix(market, "KRW-") {
            Some(coin) => self.upbit_last_trade.insert(coin, price),
            None => {},
        }
    }

    /// Records a Bybit best bid on `market` as the last bid of its coin;
    /// codes that do not end in `USDT` are ignored.
    pub fn on_bybit_best_quote(&mut self, market: &str, bid: Dec)
        ensures
            final(self).bybit_last_bid@ == match bybit_coin(market@) {
                Some(c) => old(self).bybit_last_bid@.insert(c, bid),
                None => old(self).bybit_last_bid@,
            },
            final(self).upbit_last_trade@ == old(self).upbit_last_trade@,
            final(self).current_minute == old(self).current_minute,
    {
        proof {
            reveal_strlit("USDT");
        }
        match strip_suffix(market, "USDT") {
            Some(coin) => self.bybit_last_bid.insert(coin, bid),
            None => {},
        }
    }
}

/// `k` is the name of one of `v`.
pub open spec fn has_name(v: Seq<String>, k: Seq<char>) -> bool {
    exists|i: int| 0 <= i < v.len() && #[trigger] v[i]@ == k
}

/// No name occurs twice in `v`.
pub open spec fn names_distinct(v: Seq<String>) -> bool {
    forall|i: int, j: int| 0 <= i < v.len() && 0 <= j < v.len() && i != j ==> v[i]@ != v[j]@
}

/// The names of `v`.
pub open spec fn names(v: Seq<String>) -> Seq<Seq<char>> {
    v.map_values(|s: String| s@)
}

proof fn lemma_has_name_push(v: Seq<String>, x: String, k: Seq<char>)
    ensures
        has_name(v.push(x), k) <==> has_name(v, k) || x@ == k,
{
    if has_name(v, k) {
        let i = choose|i: int| 0 <= i < v.len() && #[trigger] v[i]@ == k;
        assert(v.push(x)[i]@ == k);
    }
    if x@ == k {
        assert(v.push(x)[v.len() as int]@ == k);
    }
    if has_name(v.push(x), k) {
        let i = choose|i: int| 0 <= i < v.push(x).len() && #[trigger] v.push(x)[i]@ == k;
        if i < v.len() {
            assert(v[i]@ == k);
        }
    }
}

/// Whether `k` is the name of one of `v`.
pub fn contains_name(v: &[String], k: &String) -> (r: bool)
    ensures
        r == has_name(v@, k@),
{
    let mut i: usize = 0;
    while i < v.len()
        invariant
            i <= v.len(),
            forall|j: int| 0 <= j < i ==> v@[j]@ != k@,
        decreases v.len() - i,
    {
        if v[i] == *k {
            return true;
        }
        i = i + 1;
    }
    false
}

/// The outcome of comparing the watched coins with a new selection.
pub struct CoinDiff {
    /// Coins only in the new selection.
    pub to_add: Vec<String>,
    /// Coins only in the watched list, without an open position.
    pub to_remove: Vec<String>,
    /// Coins only in the watched list, with an open position.
    pub to_keep_with_position: Vec<String>,
}

/// `d` is the diff of `current` against `new` when the coins of `held` have
/// open positions: each list holds each of its coins once.
pub open spec fn is_coin_diff(
    current: Seq<String>,
    new: Seq<String>,
    held: Seq<String>,
    d: CoinDiff,
) -> bool {
    &&& names_distinct(d.to_add@)
    &&& names_distinct(d.to_remove@)
    &&& names_distinct(d.to_keep_with_position@)
    &&& forall|k: Seq<char>| #[trigger]
        has_name(d.to_add@, k) <==> has_name(new, k) && !has_name(current, k)
    &&& forall|k: Seq<char>| #[trigger]
        has_name(d.to_remove@, k) <==> has_name(current, k) && !has_name(new, k) && !has_name(
            held,
            k,
        )
    &&& forall|k: Seq<char>| #[trigger]
        has_name(d.to_keep_with_position@, k) <==> has_name(current, k) && !has_name(new, k)
            && has_name(held, k)
}

/// The names of `s` that `p` selects, each at its first place.
pub open spec fn first_selected(s: Seq<Seq<char>>, p: spec_fn(Seq<char>) -> bool) -> Seq<Seq<char>>
    decreases s.len(),
{
    if s.len() == 0 {
        Seq::empty()
    } else {
        let q = first_selected(s.drop_last(), p);
        if p(s.last()) && !q.contains(s.last()) {
            q.push(s.last())
        } else {
            q
        }
    }
}

/// The coins that a diff list takes: not in `exclude`, and with `mode` 1
/// only those not in `held`, with `mode` 2 only those in `held`.
pub open spec fn diff_pick(exclude: Seq<String>, held: Seq<String>, mode: u8) -> spec_fn(Seq<char>) -> bool {
    |k: Seq<char>| !has_name(exclude, k) && (mode == 0 || (mode == 1 && !has_name(held, k)) || (
    mode == 2 && has_name(held, k)))
}

/// Appends to `out` each coin of `src` that `keep` selects and that `out`
/// does not hold yet.
fn collect_new_names(
    out: &mut Vec<String>,
    src: &[String],
    exclude: &[String],
    held: &[String],
    mode: u8,
)
    requires
        names_distinct(old(out)@),
        old(out)@.len() == 0,
    ensures
        names(final(out)@) == first_selected(names(src@), diff_pick(exclude@, held@, mode)),
        names_distinct(final(out)@),
        forall|k: Seq<char>| #[trigger]
            has_name(final(out)@, k) <==> has_name(src@, k) && !has_name(exclude@, k) && (mode == 0
                || (mode == 1 && !has_name(held@, k)) || (mode == 2 && has_name(held@, k))),
{
    let ghost pick = diff_pick(exclude@, held@, mode);
    let ghost sn = names(src@);
    let mut i: usize = 0;
    while i < src.len()
        invariant
            i <= src.len(),
            pick == diff_pick(exclude@, held@, mode),
            sn == names(src@),
            names(out@) == first_selected(sn.take(i as int), pick),
            names_distinct(out@),
            forall|k: Seq<char>| #[trigger]
                has_name(out@, k) <==> has_name(src@.take(i as int), k) && !has_name(exclude@, k)
                    && (mode == 0 || (mode == 1 && !has_name(held@, k)) || (mode == 2 && has_name(
                    held@,
                    k,
                ))),
        decreases src.len() - i,
    {
        let c = &src[i];
        proof {
            assert(src@.take(i as int + 1) =~= src@.take(i as int).push(src@[i as int]));
            assert forall|k: Seq<char>|
                has_name(src@.take(i as int + 1), k) <==> has_name(src@.take(i as int), k) || c@
                    == k by {
                lemma_has_name_push(src@.take(i as int), src@[i as int], k);
            }
        }
        let in_exclude = contains_name(exclude, c);
        let in_held = contains_name(held, c);
        let selected = !in_exclude && (mode == 0 || (mode == 1 && !in_held) || (mode == 2
            && in_held));
        let ghost before = out@;
        proof {
            assert(sn.take(i as int + 1).drop_last() =~= sn.take(i as int));
            assert(sn.take(i as int + 1).last() == c@);
            lemma_has_name_names(out@, c@);
            assert(pick(c@) == selected);
        }
        if selected && !contains_name(out.as_slice(), c) {
            out.push(c.clone());
            proof {
                assert(names(out@) =~= names(before).push(c@));
                assert forall|k: Seq<char>| has_name(out@, k) <==> has_name(before, k) || c@ == k by {
                    lemma_has_name_push(before, *c, k);
                }
                assert forall|a: int, b: int|
                    0 <= a < out@.len() && 0 <= b < out@.len() && a != b implies out@[a]@
                    != out@[b]@ by {
                    if a == before.len() as int {
                        assert(!has_name(before, c@));
                        if out@[b]@ == c@ {
                            assert(before[b]@ == c@);
                        }
                    } else if b == before.len() as int {
                        assert(!has_name(before, c@));
                        if out@[a]@ == c@ {
                            assert(before[a]@ == c@);
                        }
                    } else {
                        assert(out@[a] == before[a] && out@[b] == before[b]);
                    }
                }
            }
        }
        proof {
            assert forall|k: Seq<char>| #[trigger]
                has_name(out@, k) <==> has_name(src@.take(i as int + 1), k) && !has_name(exclude@, k)
                    && (mode == 0 || (mode == 1 && !has_name(held@, k)) || (mode == 2 && has_name(
                    held@,
                    k,
                ))) by {
                assert(has_name(before, k) <==> has_name(src@.take(i as int), k) && !has_name(exclude@, k)
                    && (mode == 0 || (mode == 1 && !has_name(held@, k)) || (mode == 2 && has_name(
                    held@,
                    k,
                ))));
                assert(has_name(src@.take(i as int + 1), k) <==> has_name(src@.take(i as int), k) || c@ == k);
                if k == c@ {
                    assert(has_name(src@.take(i as int + 1), k));
                    assert(in_exclude == has_name(exclude@, k));
                    assert(in_held == has_name(held@, k));
                } else {
                    assert(has_name(src@.take(i as int + 1), k) == has_name(src@.take(i as int), k));
                }
            }
        }
        i = i + 1;
    }
    proof {
        assert(src@.take(src.len() as int) =~= src@);
        assert(sn.take(src.len() as int) =~= sn);
    }
}

/// Compares the watched coins `current` with a new selection `new_coins`;
/// `held` are the coins with an open position.
pub fn diff_coins(current: &[String], new_coins: &[String], held: &[String]) -> (r: CoinDiff)
    ensures
        is_coin_diff(current@, new_coins@, held@, r),
        names(r.to_add@) == first_selected(names(new_coins@), diff_pick(current@, held@, 0)),
        names(r.to_remove@) == first_selected(names(current@), diff_pick(new_coins@, held@, 1)),
        names(r.to_keep_with_position@) == first_selected(names(current@), diff_pick(new_coins@, held@, 2)),
{
    let mut to_add: Vec<String> = Vec::new();
    collect_new_names(&mut to_add, new_coins, current, held, 0);
    let mut to_remove: Vec<String> = Vec::new();
    collect_new_names(&mut to_remove, current, new_coins, held, 1);
    let mut to_keep: Vec<String> = Vec::new();
    collect_new_names(&mut to_keep, current, new_coins, held, 2);
    CoinDiff { to_add, to_remove, to_keep_with_position: to_keep }
}

/// `has_name` is membership among the names.
pub(crate) proof fn lemma_has_name_names(v: Seq<String>, k: Seq<char>)
    ensures
        has_name(v, k) == names(v).contains(k),
{
    if has_name(v, k) {
        let i = choose|i: int| 0 <= i < v.len() && #[trigger] v[i]@ == k;
        assert(names(v)[i] == k);
    }
    if names(v).contains(k) {
        let i = choose|i: int| 0 <= i < names(v).len() && names(v)[i] == k;
        assert(v[i]@ == k);
    }
}

/// The names not in `s`.
pub open spec fn absent_from(s: Seq<Seq<char>>) -> spec_fn(Seq<char>) -> bool {
    |k: Seq<char>| !s.contains(k)
}

/// The kept and removed lists after the coins of `flagged` (over the
/// spread deviation limit) were added: a coin with a position to the kept
/// list, another to the removed list, each only when not there yet; with
/// the number of coins added.
pub open spec fn with_flagged(
    keep: Seq<Seq<char>>,
    remove: Seq<Seq<char>>,
    flagged: Seq<String>,
    held: Seq<String>,
) -> (Seq<Seq<char>>, Seq<Seq<char>>, nat)
    decreases flagged.len(),
{
    if flagged.len() == 0 {
        (keep, remove, 0)
    } else {
        let p = with_flagged(keep, remove, flagged.drop_last(), held);
        let c = flagged.last()@;
        if has_name(held, c) {
            if p.0.contains(c) {
                p
            } else {
                (p.0.push(c), p.1, p.2 + 1)
            }
        } else if p.1.contains(c) {
            p
        } else {
            (p.0, p.1.push(c), p.2 + 1)
        }
    }
}

impl CoinDiff {
    /// Adds the watched coins `flagged` whose spread deviation is over the
    /// limit: those with a position (`held`) to the kept list, the others
    /// to the removed list, skipping coins already there; then drops from
    /// the added list every coin that is to be removed.  Returns how many
    /// coins were added to the two lists.
    pub fn reject_flagged(&mut self, flagged: &[String], held: &[String]) -> (added: u64)
        ensures
            ({
                let w = with_flagged(
                    names(old(self).to_keep_with_position@),
                    names(old(self).to_remove@),
                    flagged@,
                    held@,
                );
                &&& names(final(self).to_keep_with_position@) == w.0
                &&& names(final(self).to_remove@) == w.1
                &&& added == w.2
                &&& names(final(self).to_add@) == names(old(self).to_add@).filter(absent_from(w.1))
            }),
    {
        let ghost keep0 = names(self.to_keep_with_position@);
        let ghost remove0 = names(self.to_remove@);
        let mut added: u64 = 0;
        let mut i: usize = 0;
        while i < flagged.len()
            invariant
                i <= flagged.len(),
                added <= i,
                ({
                    let w = with_flagged(keep0, remove0, flagged@.take(i as int), held@);
                    &&& names(self.to_keep_with_position@) == w.0
                    &&& names(self.to_remove@) == w.1
                    &&& added == w.2
                }),
                names(self.to_add@) == names(old(self).to_add@),
            decreases flagged.len() - i,
        {
            proof {
                assert(flagged@.take(i as int + 1).drop_last() =~= flagged@.take(i as int));
                assert(flagged@.take(i as int + 1).last() == flagged@[i as int]);
            }
            let c = &flagged[i];
            proof {
                lemma_has_name_names(self.to_keep_with_position@, c@);
                lemma_has_name_names(self.to_remove@, c@);
            }
            if contains_name(held, c) {
                if !contains_name(self.to_keep_with_position.as_slice(), c) {
                    let ghost before = self.to_keep_with_position@;
                    self.to_keep_with_position.push(c.clone());
                    proof {
                        assert(names(self.to_keep_with_position@) =~= names(before).push(c@));
                    }
                    added = added + 1;
                }
            } else if !contains_name(self.to_remove.as_slice(), c) {
                let ghost before = self.to_remove@;
                self.to_remove.push(c.clone());
                proof {
                    assert(names(self.to_remove@) =~= names(before).push(c@));
                }
                added = added + 1;
            }
            i = i + 1;
        }
        proof {
            assert(flagged@.take(flagged.len() as int) =~= flagged@);
        }
        let ghost removed = names(self.to_remove@);
        let ghost pred = absent_from(removed);
        let ghost src = names(self.to_add@);
        let mut kept: Vec<String> = Vec::new();
        let mut j: usize = 0;
        while j < self.to_add.len()
            invariant
                j <= self.to_add.len(),
                removed == names(self.to_remove@),
                pred == absent_from(removed),
                src == names(self.to_add@),
                names(kept@) == src.take(j as int).filter(pred),
            decreases self.to_add.len() - j,
        {
            let c = &self.to_add[j];
            proof {
                assert(src.take(j as int + 1) =~= src.take(j as int).push(src[j as int]));
                src.take(j as int).lemma_filter_push(src[j as int], pred);
                lemma_has_name_names(self.to_remove@, c@);
                assert(src[j as int] == c@);
                assert(pred(c@) == !removed.contains(c@));
            }
            if !contains_name(self.to_remove.as_slice(), c) {
                let ghost before = kept@;
                kept.push(c.clone());
                proof {
                    assert(names(kept@) =~= names(before).push(c@));
                }
            }
            j = j + 1;
        }
        proof {
            assert(src.take(src.len() as int) =~= src);
        }
        self.to_add = kept;
        added
    }
}

/// The drop times to record after a reselection: `now_ms` for each coin
/// kept for its position that has no drop time yet (an earlier drop time
/// stays, so the position TTL counts from the first drop).
pub fn drop_time_updates(keep: &[String], dropped_at: &StrMap<i64>, now_ms: i64) -> (r: StrMap<i64>)
    ensures
        forall|k: Seq<char>| #[trigger]
            r@.dom().contains(k) <==> has_name(keep@, k) && !dropped_at@.dom().contains(k),
        forall|k: Seq<char>| #[trigger] r@.dom().contains(k) ==> r@[k] == now_ms,
{
    let mut out: StrMap<i64> = StrMap::new();
    let mut i: usize = 0;
    while i < keep.len()
        invariant
            i <= keep.len(),
            forall|k: Seq<char>| #[trigger]
                out@.dom().contains(k) <==> has_name(keep@.take(i as int), k)
                    && !dropped_at@.dom().contains(k),
            forall|k: Seq<char>| #[trigger] out@.dom().contains(k) ==> out@[k] == now_ms,
        decreases keep.len() - i,
    {
        let c = &keep[i];
        proof {
            assert(keep@.take(i as int + 1) =~= keep@.take(i as int).push(keep@[i as int]));
            assert forall|k: Seq<char>|
                has_name(keep@.take(i as int + 1), k) <==> has_name(keep@.take(i as int), k) || c@
                    == k by {
                lemma_has_name_push(keep@.take(i as int), keep@[i as int], k);
            }
        }
        let ghost before = out@;
        if !dropped_at.contains_key(c.as_str()) {
            out.insert(c.clone(), now_ms);
        }
        proof {
            assert forall|k: Seq<char>| #[trigger]
                out@.dom().contains(k) <==> has_name(keep@.take(i as int + 1), k)
                    && !dropped_at@.dom().contains(k) by {
                assert(before.dom().contains(k) <==> has_name(keep@.take(i as int), k)
                    && !dropped_at@.dom().contains(k));
            }
        }
        i = i + 1;
    }
    proof {
        assert(keep@.take(keep.len() as int) =~= keep@);
    }
    out
}

/// The names without a mark in `m`.
pub open spec fn unmarked_in(m: Map<Seq<char>, i64>) -> spec_fn(Seq<char>) -> bool {
    |k: Seq<char>| !m.dom().contains(k)
}

/// The coins of `keep` that have no drop time in `dropped_at`, in order.
fn unmarked_names(keep: &Vec<String>, dropped_at: &StrMap<i64>) -> (r: Vec<String>)
    ensures
        names(r@) == names(keep@).filter(unmarked_in(dropped_at@)),
{
    let ghost src = names(keep@);
    let ghost pred = unmarked_in(dropped_at@);
    let mut out: Vec<String> = Vec::new();
    let mut i: usize = 0;
    while i < keep.len()
        invariant
            i <= keep.len(),
            src == names(keep@),
            pred == unmarked_in(dropped_at@),
            names(out@) == src.take(i as int).filter(pred),
        decreases keep.len() - i,
    {
        let c = &keep[i];
        proof {
            assert(src.take(i as int + 1) =~= src.take(i as int).push(src[i as int]));
            src.take(i as int).lemma_filter_push(src[i as int], pred);
            assert(src[i as int] == c@);
        }
        if !dropped_at.contains_key(c.as_str()) {
            let ghost before = out@;
            out.push(c.clone());
            proof {
                assert(names(out@) =~= names(before).push(c@));
            }
        }
        i = i + 1;
    }
    proof {
        assert(src.take(keep.len() as int) =~= src);
    }
    out
}

/// What a reselection does with the coin lists.
pub struct ReselectionPlan {
    /// Coins to warm up and subscribe.
    pub to_add: Vec<String>,
    /// Coins without a position to unsubscribe and forget.
    pub to_remove: Vec<String>,
    /// Coins dropped from the selection but kept for their positions.
    pub to_keep_with_position: Vec<String>,
    /// How many watched coins were rejected for their spread deviation.
    pub rejected_count: u64,
    /// Kept coins that get their first drop time, `dropped_ms`.
    pub newly_dropped: Vec<String>,
    pub dropped_ms: i64,
}

/// A reselection plan as plain values.
pub struct ReselectionPlanModel {
    pub to_add: Seq<Seq<char>>,
    pub to_remove: Seq<Seq<char>>,
    pub to_keep_with_position: Seq<Seq<char>>,
    pub rejected_count: nat,
    pub newly_dropped: Seq<Seq<char>>,
    pub dropped_ms: i64,
}

impl ReselectionPlan {
    /// The plan as plain values.
    pub open spec fn model(&self) -> ReselectionPlanModel {
        ReselectionPlanModel {
            to_add: names(self.to_add@),
            to_remove: names(self.to_remove@),
            to_keep_with_position: names(self.to_keep_with_position@),
            rejected_count: self.rejected_count as nat,
            newly_dropped: names(self.newly_dropped@),
            dropped_ms: self.dropped_ms,
        }
    }
}

/// The plan of a reselection: the diff of the watched coins `current`
/// against the new selection `selected` (the coins of `held` have open
/// positions), with the watched coins `flagged` for their spread deviation
/// rejected, and the drop time `now_ms` for each kept coin not yet marked
/// in `dropped_at`.
pub open spec fn reselection_plan_spec(
    current: Seq<String>,
    selected: Seq<String>,
    flagged: Seq<String>,
    held: Seq<String>,
    dropped_at: Map<Seq<char>, i64>,
    now_ms: i64,
) -> ReselectionPlanModel {
    let add0 = first_selected(names(selected), diff_pick(current, held, 0));
    let remove0 = first_selected(names(current), diff_pick(selected, held, 1));
    let keep0 = first_selected(names(current), diff_pick(selected, held, 2));
    let w = with_flagged(keep0, remove0, flagged, held);
    ReselectionPlanModel {
        to_add: add0.filter(absent_from(w.1)),
        to_remove: w.1,
        to_keep_with_position: w.0,
        rejected_count: w.2,
        newly_dropped: w.0.filter(unmarked_in(dropped_at)),
        dropped_ms: now_ms,
    }
}

/// Plans a reselection (see `reselection_plan_spec`).  Pass no `flagged`
/// coins where no spread deviation limit is set.
pub fn reselection_plan(
    current: &[String],
    selected: &[String],
    flagged: &[String],
    held: &[String],
    dropped_at: &StrMap<i64>,
    now_ms: i64,
) -> (r: ReselectionPlan)
    ensures
        r.model() == reselection_plan_spec(current@, selected@, flagged@, held@, dropped_at@, now_ms),
{
    let mut d = diff_coins(current, selected, held);
    let rejected_count = d.reject_flagged(flagged, held);
    let newly_dropped = unmarked_names(&d.to_keep_with_position, dropped_at);
    ReselectionPlan {
        to_add: d.to_add,
        to_remove: d.to_remove,
        to_keep_with_position: d.to_keep_with_position,
        rejected_count,
        newly_dropped,
        dropped_ms: now_ms,
    }
}

/// The coins beyond the first `max_coins` of `ranked` (ranked by spread
/// deviation, lowest first): those a reselection prunes.
pub fn excess_coins(ranked: &[String], max_coins: usize) -> (r: Vec<String>)
    ensures
        ranked@.len() > max_coins ==> names(r@) == names(ranked@).subrange(
            max_coins as int,
            ranked@.len() as int,
        ),
        ranked@.len() <= max_coins ==> r@.len() == 0,
{
    let mut out: Vec<String> = Vec::new();
    if ranked.len() > max_coins {
        push_names(&mut out, ranked, max_coins, ranked.len());
        proof {
            assert(names(Seq::<String>::empty()) =~= Seq::<Seq<char>>::empty());
            assert(Seq::<Seq<char>>::empty() + names(ranked@).subrange(max_coins as int, ranked@.len() as int)
                =~= names(ranked@).subrange(max_coins as int, ranked@.len() as int));
        }
    }
    out
}

/// The names of `held`, as a predicate on names.
pub open spec fn held_by(held: Seq<String>) -> spec_fn(Seq<char>) -> bool {
    |k: Seq<char>| has_name(held, k)
}

/// The names of `held`'s complement, as a predicate on names.
pub open spec fn not_held_by(held: Seq<String>) -> spec_fn(Seq<char>) -> bool {
    |k: Seq<char>| !has_name(held, k)
}

/// Splits the coins of a regime change (spread deviation far over the
/// limit) into those removed at once (no open position) and those dropped
/// from the selection but kept for their positions, both in order.
pub fn split_by_position(flagged: &[String], held: &[String]) -> (r: (Vec<String>, Vec<String>))
    ensures
        names(r.0@) == names(flagged@).filter(not_held_by(held@)),
        names(r.1@) == names(flagged@).filter(held_by(held@)),
{
    let ghost src = names(flagged@);
    let mut immediate_remove: Vec<String> = Vec::new();
    let mut dropped: Vec<String> = Vec::new();
    let mut i: usize = 0;
    while i < flagged.len()
        invariant
            i <= flagged.len(),
            src == names(flagged@),
            names(immediate_remove@) == src.take(i as int).filter(not_held_by(held@)),
            names(dropped@) == src.take(i as int).filter(held_by(held@)),
        decreases flagged.len() - i,
    {
        let c = &flagged[i];
        proof {
            assert(src.take(i as int + 1) =~= src.take(i as int).push(src[i as int]));
            src.take(i as int).lemma_filter_push(src[i as int], not_held_by(held@));
            src.take(i as int).lemma_filter_push(src[i as int], held_by(held@));
            assert(src[i as int] == c@);
        }
        if contains_name(held, c) {
            let ghost before = dropped@;
            dropped.push(c.clone());
            proof {
                assert(names(dropped@) =~= names(before).push(c@));
            }
        } else {
            let ghost before = immediate_remove@;
            immediate_remove.push(c.clone());
            proof {
                assert(names(immediate_remove@) =~= names(before).push(c@));
            }
        }
        i = i + 1;
    }
    proof {
        assert(src.take(src.len() as int) =~= src);
    }
    (immediate_remove, dropped)
}

/// The regime change of a finished minute: only with a spread deviation
/// limit set (`limit_set`) and automatic selection on, and only when some
/// watched coins (`over_threshold`) have a deviation far over the limit;
/// they are then split by `split_by_position`.
pub fn regime_change(limit_set: bool, auto_select: bool, over_threshold: &[String], held: &[String]) -> (r:
    Option<(Vec<String>, Vec<String>)>)
    ensures
        r is Some <==> limit_set && auto_select && over_threshold@.len() > 0,
        r matches Some(p) ==> names(p.0@) == names(over_threshold@).filter(not_held_by(held@))
            && names(p.1@) == names(over_threshold@).filter(held_by(held@)),
{
    if limit_set && auto_select && over_threshold.len() > 0 {
        Some(split_by_position(over_threshold, held))
    } else {
        None
    }
}

/// Appends clones of `src[from..to]` to `out`.
fn push_names(out: &mut Vec<String>, src: &[String], from: usize, to: usize)
    requires
        from <= to <= src@.len(),
    ensures
        names(final(out)@) == names(old(out)@) + names(src@).subrange(from as int, to as int),
{
    let ghost start = names(out@);
    let mut i: usize = from;
    while i < to
        invariant
            from <= i <= to <= src@.len(),
            names(out@) == start + names(src@).subrange(from as int, i as int),
        decreases to - i,
    {
        let ghost before = out@;
        out.push(src[i].clone());
        proof {
            assert(names(out@) =~= names(before).push(src@[i as int]@));
            assert(names(src@).subrange(from as int, i as int + 1) =~= names(src@).subrange(
                from as int,
                i as int,
            ).push(src@[i as int]@));
            assert(names(out@) =~= start + names(src@).subrange(from as int, i as int + 1));
        }
        i = i + 1;
    }
}

/// The names of the coins of `s` whose flag is `b`, in their order.
pub open spec fn flagged_names(s: Seq<(String, bool)>, b: bool) -> Seq<Seq<char>>
    decreases s.len(),
{
    if s.len() == 0 {
        Seq::empty()
    } else if s.last().1 == b {
        flagged_names(s.drop_last(), b).push(s.last().0@)
    } else {
        flagged_names(s.drop_last(), b)
    }
}

/// The names of the coins of `s`, in their order.
pub open spec fn ranked_names(s: Seq<(String, bool)>) -> Seq<Seq<char>> {
    s.map_values(|p: (String, bool)| p.0@)
}

/// The coins kept and the coins removed after warm-up.  `ranked` holds the
/// coins with statistics in ascending order of spread standard deviation,
/// each flagged when its deviation is within the limit; `missing` the coins
/// without statistics.  With the limit in force and at least one coin
/// within it, the first `max_coins` coins within the limit are kept;
/// otherwise the first `max_coins` of all ranked coins.  Removed are the
/// coins without statistics, then the ranked coins beyond `max_coins`, then
/// (with the limit in force) those beyond the limit.
pub open spec fn stddev_selection(
    ranked: Seq<(String, bool)>,
    missing: Seq<String>,
    filter_enabled: bool,
    max_coins: nat,
) -> (Seq<Seq<char>>, Seq<Seq<char>>) {
    let passed = flagged_names(ranked, true);
    let use_passed = filter_enabled && passed.len() > 0;
    let pool = if use_passed {
        passed
    } else {
        ranked_names(ranked)
    };
    let n = if max_coins < pool.len() {
        max_coins as int
    } else {
        pool.len() as int
    };
    let beyond = if use_passed {
        flagged_names(ranked, false)
    } else {
        Seq::empty()
    };
    (pool.take(n), names(missing) + pool.skip(n) + beyond)
}

/// Chooses the coins to keep after warm-up (see `stddev_selection`).
pub fn select_by_stddev(
    ranked: &[(String, bool)],
    missing: &[String],
    filter_enabled: bool,
    max_coins: usize,
) -> (r: (Vec<String>, Vec<String>))
    ensures
        names(r.0@) == stddev_selection(ranked@, missing@, filter_enabled, max_coins as nat).0,
        names(r.1@) == stddev_selection(ranked@, missing@, filter_enabled, max_coins as nat).1,
{
    let mut passed: Vec<String> = Vec::new();
    let mut failed: Vec<String> = Vec::new();
    let mut all: Vec<String> = Vec::new();
    let mut i: usize = 0;
    while i < ranked.len()
        invariant
            i <= ranked.len(),
            names(passed@) == flagged_names(ranked@.take(i as int), true),
            names(failed@) == flagged_names(ranked@.take(i as int), false),
            names(all@) == ranked_names(ranked@.take(i as int)),
        decreases ranked.len() - i,
    {
        let ghost t = ranked@.take(i as int + 1);
        proof {
            assert(t.drop_last() =~= ranked@.take(i as int));
            assert(t.last() == ranked@[i as int]);
        }
        let coin = ranked[i].0.clone();
        let ghost p0 = passed@;
        let ghost f0 = failed@;
        let ghost a0 = all@;
        if ranked[i].1 {
            passed.push(coin.clone());
            proof {
                assert(names(passed@) =~= names(p0).push(coin@));
            }
        } else {
            failed.push(coin.clone());
            proof {
                assert(names(failed@) =~= names(f0).push(coin@));
            }
        }
        all.push(coin);
        proof {
            assert(names(all@) =~= names(a0).push(coin@));
            assert(ranked_names(t) =~= ranked_names(ranked@.take(i as int)).push(coin@));
        }
        i = i + 1;
    }
    proof {
        assert(ranked@.take(ranked.len() as int) =~= ranked@);
    }
    let use_passed = filter_enabled && passed.len() > 0;
    let pool = if use_passed {
        passed
    } else {
        all
    };
    let n = if max_coins < pool.len() {
        max_coins
    } else {
        pool.len()
    };
    let mut kept: Vec<String> = Vec::new();
    push_names(&mut kept, pool.as_slice(), 0, n);
    let mut removed: Vec<String> = Vec::new();
    push_names(&mut removed, missing, 0, missing.len());
    push_names(&mut removed, pool.as_slice(), n, pool.len());
    if use_passed {
        push_names(&mut removed, failed.as_slice(), 0, failed.len());
    }
    proof {
        let sel = stddev_selection(ranked@, missing@, filter_enabled, max_coins as nat);
        assert(names(Seq::<String>::empty()) =~= Seq::<Seq<char>>::empty());
        assert(names(kept@) =~= sel.0);
        assert(names(missing@).subrange(0, missing@.len() as int) =~= names(missing@));
        assert(names(failed@).subrange(0, failed@.len() as int) =~= names(failed@));
        assert(names(removed@) =~= sel.1);
    }
    (kept, removed)
}

proof fn lemma_flagged_split(s: Seq<(String, bool)>)
    ensures
        flagged_names(s, true).len() + flagged_names(s, false).len() == s.len(),
    decreases s.len(),
{
    if s.len() > 0 {
        lemma_flagged_split(s.drop_last());
    }
}

/// After warm-up every coin is either kept or removed, and at most
/// `max_coins` are kept.
pub proof fn law_stddev_selection_partitions(
    ranked: Seq<(String, bool)>,
    missing: Seq<String>,
    filter_enabled: bool,
    max_coins: nat,
)
    ensures
        ({
            let sel = stddev_selection(ranked, missing, filter_enabled, max_coins);
            &&& sel.0.len() + sel.1.len() == ranked.len() + missing.len()
            &&& sel.0.len() <= max_coins
        }),
{
    lemma_flagged_split(ranked);
}

/// `x` is the name of a coin of `s` flagged `b`.
pub open spec fn named_with_flag(s: Seq<(String, bool)>, b: bool, x: Seq<char>) -> bool {
    exists|i: int| 0 <= i < s.len() && (#[trigger] s[i]).1 == b && s[i].0@ == x
}

proof fn lemma_flagged_from(s: Seq<(String, bool)>, b: bool)
    ensures
        forall|j: int|
            0 <= j < flagged_names(s, b).len() ==> named_with_flag(s, b, #[trigger] flagged_names(s, b)[j]),
    decreases s.len(),
{
    if s.len() > 0 {
        let rest = s.drop_last();
        lemma_flagged_from(rest, b);
        let f = flagged_names(s, b);
        let fr = flagged_names(rest, b);
        assert forall|j: int| 0 <= j < f.len() implies named_with_flag(s, b, #[trigger] f[j]) by {
            if j < fr.len() {
                assert(f[j] == fr[j]);
                assert(named_with_flag(rest, b, fr[j]));
                let i = choose|i: int| 0 <= i < rest.len() && (#[trigger] rest[i]).1 == b && rest[i].0@ == fr[j];
                assert(s[i] == rest[i]);
            } else {
                assert(s[s.len() - 1] == s.last());
                assert(f[j] == s.last().0@);
            }
        }
    }
}

/// After warm-up, with the deviation limit in force and some coin within
/// it, only coins within the limit are kept; otherwise the coins with the
/// lowest deviations are kept, in order.  Either way as many as possible up
/// to `max_coins` are kept, and the coins without statistics are removed
/// first.
pub proof fn law_stddev_selection_keeps(
    ranked: Seq<(String, bool)>,
    missing: Seq<String>,
    filter_enabled: bool,
    max_coins: nat,
)
    ensures
        ({
            let sel = stddev_selection(ranked, missing, filter_enabled, max_coins);
            let any_within = exists|i: int| 0 <= i < ranked.len() && ranked[i].1;
            &&& filter_enabled && any_within ==> forall|j: int|
                0 <= j < sel.0.len() ==> named_with_flag(ranked, true, #[trigger] sel.0[j])
            &&& !(filter_enabled && any_within) ==> sel.0.len() == (if max_coins < ranked.len() {
                max_coins as int
            } else {
                ranked.len() as int
            }) && forall|j: int| 0 <= j < sel.0.len() ==> #[trigger] sel.0[j] == ranked[j].0@
            &&& sel.1.take(missing.len() as int) == names(missing)
        }),
{
    lemma_flagged_from(ranked, true);
    let passed = flagged_names(ranked, true);
    if exists|i: int| 0 <= i < ranked.len() && ranked[i].1 {
        lemma_flagged_nonempty(ranked);
    }
    let sel = stddev_selection(ranked, missing, filter_enabled, max_coins);
    assert(sel.1.take(missing.len() as int) =~= names(missing));
    if passed.len() > 0 {
        assert(named_with_flag(ranked, true, passed[0]));
    }
    if filter_enabled && passed.len() > 0 {
        assert forall|j: int| 0 <= j < sel.0.len() implies named_with_flag(ranked, true, #[trigger] sel.0[j]) by {
            assert(sel.0[j] == passed[j]);
        }
    } else {
        let pool = ranked_names(ranked);
        assert(pool.len() == ranked.len());
        assert forall|j: int| 0 <= j < sel.0.len() implies #[trigger] sel.0[j] == ranked[j].0@ by {
            assert(sel.0[j] == pool[j]);
        }
    }
}

proof fn lemma_flagged_nonempty(s: Seq<(String, bool)>)
    requires
        exists|i: int| 0 <= i < s.len() && s[i].1,
    ensures
        flagged_names(s, true).len() > 0,
    decreases s.len(),
{
    if !s.last().1 {
        let i = choose|i: int| 0 <= i < s.len() && s[i].1;
        assert(i < s.len() - 1);
        assert(s.drop_last()[i] == s[i]);
        lemma_flagged_nonempty(s.drop_last());
    }
}

/// Finalizing hands out a close for every listed coin and leaves none of
/// them behind; the prices of the other coins stay as they were.
pub proof fn law_finalize_takes_listed_coins(m: Map<Seq<char>, Dec>, coins: Seq<String>, k: Seq<char>)
    ensures
        has_name(coins, k) ==> take_closes(m, coins).0.dom().contains(k),
        has_name(coins, k) ==> !take_closes(m, coins).1.dom().contains(k),
        !has_name(coins, k) ==> !take_closes(m, coins).0.dom().contains(k),
        !has_name(coins, k) ==> (take_closes(m, coins).1.dom().contains(k) == m.dom().contains(k)
            && (m.dom().contains(k) ==> take_closes(m, coins).1[k] == m[k])),
    decreases coins.len(),
{
    if coins.len() > 0 {
        let prev = coins.drop_last();
        law_finalize_takes_listed_coins(m, prev, k);
        assert(coins =~= prev.push(coins.last()));
        lemma_has_name_push(prev, coins.last(), k);
    }
}

/// A reselection never drops a watched coin that has an open position, and
/// sorts each coin into at most one of the three lists: after it, the
/// watched coins are those of the new selection and those kept for their
/// positions.
pub proof fn law_diff_keeps_held_coins(
    current: Seq<String>,
    new: Seq<String>,
    held: Seq<String>,
    d: CoinDiff,
    k: Seq<char>,
)
    requires
        is_coin_diff(current, new, held, d),
    ensures
        has_name(current, k) && has_name(held, k) ==> !has_name(d.to_remove@, k),
        !(has_name(d.to_add@, k) && has_name(d.to_remove@, k)),
        !(has_name(d.to_add@, k) && has_name(d.to_keep_with_position@, k)),
        !(has_name(d.to_remove@, k) && has_name(d.to_keep_with_position@, k)),
        has_name(current, k) ==> (has_name(new, k) || has_name(d.to_remove@, k) || has_name(
            d.to_keep_with_position@,
            k,
        )),
        (has_name(current, k) && !has_name(d.to_remove@, k)) || has_name(d.to_add@, k) <==> has_name(
            new,
            k,
        ) || has_name(d.to_keep_with_position@, k),
{
}

proof fn lemma_first_selected_contains(s: Seq<Seq<char>>, p: spec_fn(Seq<char>) -> bool, k: Seq<char>)
    ensures
        first_selected(s, p).contains(k) <==> s.contains(k) && p(k),
    decreases s.len(),
{
    if s.len() > 0 {
        let rest = s.drop_last();
        lemma_first_selected_contains(rest, p, k);
        assert(s =~= rest.push(s.last()));
        lemma_push_contains(rest, s.last(), k);
        lemma_push_contains(first_selected(rest, p), s.last(), k);
    }
}

proof fn lemma_push_contains(q: Seq<Seq<char>>, x: Seq<char>, k: Seq<char>)
    ensures
        q.push(x).contains(k) <==> q.contains(k) || x == k,
{
    if q.push(x).contains(k) {
        let i = choose|i: int| 0 <= i < q.len() + 1 && q.push(x)[i] == k;
        if i < q.len() {
            assert(q[i] == k);
        }
    }
    if q.contains(k) {
        let i = choose|i: int| 0 <= i < q.len() && q[i] == k;
        assert(q.push(x)[i] == k);
    }
    assert(q.push(x)[q.len() as int] == x);
}

proof fn lemma_with_flagged_contains(
    keep: Seq<Seq<char>>,
    remove: Seq<Seq<char>>,
    flagged: Seq<String>,
    held: Seq<String>,
    k: Seq<char>,
)
    ensures
        with_flagged(keep, remove, flagged, held).0.contains(k) <==> keep.contains(k) || (has_name(
            flagged,
            k,
        ) && has_name(held, k)),
        with_flagged(keep, remove, flagged, held).1.contains(k) <==> remove.contains(k) || (has_name(
            flagged,
            k,
        ) && !has_name(held, k)),
    decreases flagged.len(),
{
    if flagged.len() > 0 {
        let rest = flagged.drop_last();
        lemma_with_flagged_contains(keep, remove, rest, held, k);
        assert(flagged =~= rest.push(flagged.last()));
        lemma_has_name_push(rest, flagged.last(), k);
        let p = with_flagged(keep, remove, rest, held);
        lemma_push_contains(p.0, flagged.last()@, k);
        lemma_push_contains(p.1, flagged.last()@, k);
    }
}

/// Rejecting coins for their spread deviation puts each one with a
/// position on the kept list and each other one on the removed list, and
/// leaves every coin already on a list there.
pub proof fn law_flagged_rejections(
    keep: Seq<Seq<char>>,
    remove: Seq<Seq<char>>,
    flagged: Seq<String>,
    held: Seq<String>,
    k: Seq<char>,
)
    ensures
        with_flagged(keep, remove, flagged, held).0.contains(k) <==> keep.contains(k) || (has_name(flagged, k)
            && has_name(held, k)),
        with_flagged(keep, remove, flagged, held).1.contains(k) <==> remove.contains(k) || (has_name(flagged, k)
            && !has_name(held, k)),
{
    lemma_with_flagged_contains(keep, remove, flagged, held, k);
}

/// The names picked from a list are exactly its names that the predicate
/// selects.
pub proof fn law_first_selected(s: Seq<Seq<char>>, p: spec_fn(Seq<char>) -> bool, k: Seq<char>)
    ensures
        first_selected(s, p).contains(k) <==> s.contains(k) && p(k),
{
    lemma_first_selected_contains(s, p, k);
}

/// A reselection never removes a coin with an open position: a watched coin
/// that left the selection, or was rejected for its spread deviation, stays
/// watched while it has one; and no coin is both added and removed.
pub proof fn law_plan_keeps_held_coins(
    current: Seq<String>,
    selected: Seq<String>,
    flagged: Seq<String>,
    held: Seq<String>,
    dropped_at: Map<Seq<char>, i64>,
    now_ms: i64,
    k: Seq<char>,
)
    ensures
        has_name(held, k) ==> !reselection_plan_spec(current, selected, flagged, held, dropped_at, now_ms).to_remove.contains(k),
        has_name(held, k) && (has_name(current, k) && !has_name(selected, k) || has_name(flagged, k))
            ==> reselection_plan_spec(current, selected, flagged, held, dropped_at, now_ms).to_keep_with_position.contains(k),
        !(reselection_plan_spec(current, selected, flagged, held, dropped_at, now_ms).to_add.contains(k)
            && reselection_plan_spec(current, selected, flagged, held, dropped_at, now_ms).to_remove.contains(k)),
{
    let add0 = first_selected(names(selected), diff_pick(current, held, 0));
    let remove0 = first_selected(names(current), diff_pick(selected, held, 1));
    let keep0 = first_selected(names(current), diff_pick(selected, held, 2));
    let w = with_flagged(keep0, remove0, flagged, held);
    lemma_first_selected_contains(names(current), diff_pick(selected, held, 1), k);
    lemma_first_selected_contains(names(current), diff_pick(selected, held, 2), k);
    lemma_has_name_names(current, k);
    lemma_with_flagged_contains(keep0, remove0, flagged, held, k);
    let a = add0.filter(absent_from(w.1));
    if a.contains(k) {
        let i = choose|i: int| 0 <= i < a.len() && a[i] == k;
        add0.lemma_filter_pred(absent_from(w.1), i);
    }
}

/// Milliseconds in an hour.
pub const HOUR_MS: i64 = 3_600_000i64;

/// What the position TTL check does with the open positions of a coin.
#[derive(Clone, Copy, Debug, PartialEq, Eq, Structural)]
pub enum TtlAction {
    /// The coin is still selected, or its TTL has not run out.
    Keep,
    /// The TTL has run out: close the positions.
    Close,
    /// The grace period after the TTL has run out too: close them whatever
    /// the slippage.
    ForceClose,
}

/// The TTL decision for a coin dropped from the selection at `dropped_at`
/// (`None`: still selected), at `now`, all in milliseconds.
pub open spec fn ttl_action_of(dropped_at: Option<i64>, now: int, ttl: int, grace: int) -> TtlAction {
    match dropped_at {
        None => TtlAction::Keep,
        Some(d) => {
            let elapsed = now - d;
            if elapsed <= ttl {
                TtlAction::Keep
            } else if elapsed > ttl + grace {
                TtlAction::ForceClose
            } else {
                TtlAction::Close
            }
        },
    }
}

/// The TTL decision for the positions of a coin: kept while the coin is
/// selected or for `ttl_hours` after it was dropped, then closed, and
/// force-closed once `grace_hours` more have passed.
pub fn ttl_action(dropped_at_ms: Option<i64>, now_ms: i64, ttl_hours: u64, grace_hours: u64) -> (r:
    TtlAction)
    requires
        (ttl_hours + grace_hours) * HOUR_MS <= i64::MAX,
    ensures
        r == ttl_action_of(dropped_at_ms, now_ms as int, ttl_hours * HOUR_MS, grace_hours * HOUR_MS),
{
    match dropped_at_ms {
        None => TtlAction::Keep,
        Some(d) => {
            assert(ttl_hours * HOUR_MS <= (ttl_hours + grace_hours) * HOUR_MS) by (nonlinear_arith)
                requires
                    grace_hours >= 0,
            ;
            assert(grace_hours * HOUR_MS <= (ttl_hours + grace_hours) * HOUR_MS) by (nonlinear_arith)
                requires
                    ttl_hours >= 0,
            ;
            let elapsed: i128 = now_ms as i128 - d as i128;
            let ttl: i128 = ttl_hours as i128 * HOUR_MS as i128;
            let grace: i128 = grace_hours as i128 * HOUR_MS as i128;
            if elapsed <= ttl {
                TtlAction::Keep
            } else if elapsed > ttl + grace {
                TtlAction::ForceClose
            } else {
                TtlAction::Close
            }
        },
    }
}

/// The TTL stages come in order: a coin that is forced out at some time was
/// already being closed at every earlier time past its TTL, and stays
/// forced out at every later time.
pub proof fn law_ttl_stages_in_order(d: i64, t1: int, t2: int, ttl: int, grace: int)
    requires
        ttl >= 0,
        grace >= 0,
        t1 <= t2,
    ensures
        ttl_action_of(Some(d), t1, ttl, grace) != TtlAction::Keep ==> ttl_action_of(
            Some(d),
            t2,
            ttl,
            grace,
        ) != TtlAction::Keep,
        ttl_action_of(Some(d), t1, ttl, grace) == TtlAction::ForceClose ==> ttl_action_of(
            Some(d),
            t2,
            ttl,
            grace,
        ) == TtlAction::ForceClose,
        ttl_action_of(None, t1, ttl, grace) == TtlAction::Keep,
        (ttl_action_of(Some(d), t1, ttl, grace) == TtlAction::Keep) <==> t1 - d <= ttl,
        (ttl_action_of(Some(d), t1, ttl, grace) == TtlAction::ForceClose) <==> t1 - d > ttl + grace,
{
}

/// Upbit's smallest KRW value of an order, which an entry must reach.
pub const UPBIT_MIN_ORDER_KRW: i64 = 5100i64;

/// `a * b` is one that `*` of the crate computes without panicking.
pub open spec fn product_ok(a: Dec, b: Dec) -> bool {
    Dec::mul_fits(a, b) || Dec::mul_in_range(a, b)
}

/// The rounded quantity `qty` passes the exchanges' order limits: it is not
/// zero, lies within the futures quantity limits, its futures notional
/// `qty * bybit_price` reaches the minimum notional, and its Upbit value
/// `qty * upbit_price` reaches 5100 KRW (products as the crate computes them).
pub open spec fn order_limits_met(qty: Dec, bybit_price: Dec, upbit_price: Dec, inst: InstrumentInfo) -> bool {
    &&& qty.val() != 0
    &&& inst.min_order_qty.val() <= qty.val() <= inst.max_order_qty.val()
    &&& Dec::product_of(qty, bybit_price).val() >= inst.min_notional.val()
    &&& Dec::product_of(qty, upbit_price).val() >= UPBIT_MIN_ORDER_KRW * unit(0)
}

/// Checks a rounded entry quantity against the order limits, in the order
/// the exchanges would refuse it: zero, then the futures quantity and
/// notional limits, then the Upbit minimum order value.
pub fn meets_order_limits(qty: Dec, bybit_price: Dec, upbit_price: Dec, inst: &InstrumentInfo) -> (r:
    bool)
    requires
        qty.val() != 0 ==> product_ok(qty, bybit_price),
        qty.val() != 0 && inst.min_order_qty.val() <= qty.val() <= inst.max_order_qty.val()
            && Dec::product_of(qty, bybit_price).val() >= inst.min_notional.val() ==> product_ok(
            qty,
            upbit_price,
        ),
    ensures
        r == order_limits_met(qty, bybit_price, upbit_price, *inst),
{
    if qty.is_zero() {
        return false;
    }
    let actual_size_usdt = qty.mul(&bybit_price);
    if qty.lt(&inst.min_order_qty) || qty.gt(&inst.max_order_qty) || actual_size_usdt.lt(
        &inst.min_notional,
    ) {
        return false;
    }
    let upbit_krw_notional = qty.mul(&upbit_price);
    !upbit_krw_notional.lt(&Dec::new(UPBIT_MIN_ORDER_KRW, 0))
}

/// An entry of `qty` at the rounded futures price is below the configured
/// minimum position size (a minimum of zero or less disables the check).
pub fn below_min_position(qty: Dec, bybit_entry: Dec, min_position_usdt: Dec) -> (r: bool)
    requires
        min_position_usdt.val() > 0 ==> product_ok(qty, bybit_entry),
    ensures
        r == (min_position_usdt.val() > 0 && Dec::product_of(qty, bybit_entry).val()
            < min_position_usdt.val()),
{
    if min_position_usdt.gt(&Dec::zero()) {
        qty.mul(&bybit_entry).lt(&min_position_usdt)
    } else {
        false
    }
}

/// The unrounded quantity of an entry of `size_usdt` at `bybit_price`: the
/// crate's quotient for a positive price, zero otherwise.
pub open spec fn raw_quantity_of(size_usdt: Dec, bybit_price: Dec) -> Option<Dec> {
    if bybit_price.val() > 0 {
        Dec::quotient_of(size_usdt, bybit_price)
    } else {
        Some(Dec::zero_value())
    }
}

/// The unrounded quantity of an entry of `size_usdt` at `bybit_price`;
/// `None` where the crate's division overflows.
pub fn entry_raw_quantity(size_usdt: Dec, bybit_price: Dec) -> (r: Option<Dec>)
    ensures
        r == raw_quantity_of(size_usdt, bybit_price),
{
    if bybit_price.gt(&Dec::zero()) {
        size_usdt.checked_div(&bybit_price)
    } else {
        Some(Dec::zero())
    }
}

/// For some `k`, `|a| < 10^k` and `|b| < 10^(27 - k)`: anything no larger
/// than `a` times anything no larger than `b` stays below `10^27`.
pub open spec fn magnitudes_split(a: Dec, b: Dec) -> bool {
    exists|k: nat| k <= 27 && #[trigger] split_at(a, b, k)
}

/// `|a| < 10^k` and `|b| < 10^(27 - k)`.
pub open spec fn split_at(a: Dec, b: Dec, k: nat) -> bool {
    abs_int(a.val()) < pow10(28 + k) && abs_int(b.val()) < pow10((55 - k) as nat)
}

/// A raw quantity that can be rounded at the step's scale and priced at
/// both prices: representable at the larger scale of the two, and of a
/// size whose products with the prices stay below `10^27`.
pub open spec fn quantity_in_range(raw: Dec, step: Dec, bybit_price: Dec, upbit_price: Dec) -> bool {
    &&& fits_at(raw.val(), max_nat(raw.sc(), step.sc()))
    &&& magnitudes_split(raw, bybit_price)
    &&& magnitudes_split(raw, upbit_price)
}

fn split_magnitudes(a: &Dec, b: &Dec) -> (r: bool)
    ensures
        r == magnitudes_split(*a, *b),
{
    let mut k: u32 = 0;
    while k <= 27
        invariant
            k <= 28,
            forall|j: nat| j < k ==> !#[trigger] split_at(*a, *b, j),
        decreases 28 - k,
    {
        if a.magnitude_below(k) && b.magnitude_below(27 - k) {
            assert(split_at(*a, *b, k as nat));
            return true;
        }
        k = k + 1;
    }
    false
}

/// `|x * y| < a * b` when `|x| < a` and `|y| < b`.
proof fn lemma_product_below(x: int, y: int, a: int, b: int)
    requires
        abs_int(x) < a,
        abs_int(y) < b,
    ensures
        -(a * b) < x * y < a * b,
{
    let ax = abs_int(x);
    let ay = abs_int(y);
    assert(ax * ay < a * b) by (nonlinear_arith)
        requires
            0 <= ax < a,
            0 <= ay < b,
    ;
    assert(abs_int(x * y) == ax * ay) by (nonlinear_arith)
        requires
            ax == abs_int(x),
            ay == abs_int(y),
    ;
}

/// A quantity no larger than `raw`, where `raw` splits with `p`, makes a
/// product with `p` that `*` computes.
proof fn lemma_split_product_ok(raw: Dec, q: Dec, p: Dec)
    requires
        magnitudes_split(raw, p),
        abs_int(q.val()) <= abs_int(raw.val()),
    ensures
        product_ok(q, p),
{
    let k = choose|k: nat| k <= 27 && #[trigger] split_at(raw, p, k);
    lemma_pow10_add(28 + k, (55 - k) as nat);
    assert(28 + k + (55 - k) == 83);
    lemma_product_below(q.val(), p.val(), pow10(28 + k), pow10((55 - k) as nat));
}

/// A raw quantity in range can be rounded down at the step's scale.
proof fn lemma_in_range_floor_exact(raw: Dec, step: Dec)
    requires
        fits_at(raw.val(), max_nat(raw.sc(), step.sc())),
    ensures
        floor_exact(raw, step),
        raw.val() >= 0 && step.val() != 0 ==> 0 <= step_floor(raw.val(), step.val()) <= raw.val(),
{
    let v = raw.val();
    let st = step.val();
    if v >= 0 && st != 0 {
        let d = abs_int(st);
        vstd::arithmetic::div_mod::lemma_mod_pos_bound(v, d);
        vstd::arithmetic::div_mod::lemma_mod_decreases(v as nat, d as nat);
        assert(fits_at(step_floor(v, st), max_nat(raw.sc(), step.sc())));
    }
}

/// The quantity of an entry of `size_usdt`: the size divided by the futures
/// price (zero when the price is not positive), rounded down to the
/// quantity step, with whether it passes the order limits.  `None` where it
/// cannot be computed: the division overflows, or the quotient is too large
/// to be rounded and priced (`quantity_in_range`).
pub fn entry_order_quantity(size_usdt: Dec, bybit_price: Dec, upbit_price: Dec, inst: &InstrumentInfo) -> (r:
    Option<(Dec, bool)>)
    ensures
        r is None <==> match raw_quantity_of(size_usdt, bybit_price) {
            None => true,
            Some(raw) => !quantity_in_range(raw, inst.qty_step, bybit_price, upbit_price),
        },
        r matches Some((qty, ok)) ==> raw_quantity_of(size_usdt, bybit_price) is Some && qty.val()
            == step_floor(raw_quantity_of(size_usdt, bybit_price)->0.val(), inst.qty_step.val())
            && ok == order_limits_met(qty, bybit_price, upbit_price, *inst),
{
    let raw = match entry_raw_quantity(size_usdt, bybit_price) {
        Some(q) => q,
        None => return None,
    };
    let m: u32 = if raw.scale() >= inst.qty_step.scale() {
        raw.scale()
    } else {
        inst.qty_step.scale()
    };
    if !(raw.fits_at_scale(m) && split_magnitudes(&raw, &bybit_price) && split_magnitudes(
        &raw,
        &upbit_price,
    )) {
        return None;
    }
    proof {
        lemma_in_range_floor_exact(raw, inst.qty_step);
    }
    let qty = round_qty_floor(raw, inst.qty_step);
    proof {
        let v = raw.val();
        let st = inst.qty_step.val();
        if v < 0 {
            assert(qty.val() == 0 || st == 0);
        }
        assert(abs_int(qty.val()) <= abs_int(raw.val()));
        lemma_split_product_ok(raw, qty, bybit_price);
        lemma_split_product_ok(raw, qty, upbit_price);
    }
    let ok = meets_order_limits(qty, bybit_price, upbit_price, inst);
    Some((qty, ok))
}

} // verus!
