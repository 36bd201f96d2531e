//! Balance snapshots: the messages that request them, the non-blocking
//! sender the strategy loop uses, and the amounts of the snapshot rows of
//! each exchange.

use crate::decimal::{
    abs_int, fits_at, lemma_headroom_fits, max_nat, pow10, round_half_even_val, unit, Dec,
};
use crate::keyed::StrMap;
use crate::text::strip_prefix;
use tokio::sync::mpsc;
use vstd::prelude::*;

verus! {

/// A request for a balance snapshot.
#[derive(Debug, Clone, Copy)]
pub enum SnapshotMsg {
    /// Periodic record (timer).
    Periodic,
    /// Right after a position was entered.
    PositionEntry {
        /// Position id in the database.
        position_id: i64,
    },
    /// Right after a position was closed.
    PositionExit {
        /// Position id in the database.
        position_id: i64,
    },
    /// Stop request.
    Shutdown,
}

/// The record type written for `msg` (a stop request records a final
/// periodic snapshot).
pub open spec fn record_type_name(msg: SnapshotMsg) -> Seq<char> {
    match msg {
        SnapshotMsg::PositionEntry { .. } => "POS_ENT"@,
        SnapshotMsg::PositionExit { .. } => "POS_EXT"@,
        _ => "PERIODIC"@,
    }
}

/// The position id written for `msg`.
pub open spec fn record_position(msg: SnapshotMsg) -> Option<i64> {
    match msg {
        SnapshotMsg::PositionEntry { position_id } => Some(position_id),
        SnapshotMsg::PositionExit { position_id } => Some(position_id),
        _ => None,
    }
}

/// The record type and position id of the snapshot that `msg` asks for.
pub fn snapshot_record(msg: &SnapshotMsg) -> (r: (String, Option<i64>))
    ensures
        r.0@ == record_type_name(*msg),
        r.1 == record_position(*msg),
{
    match msg {
        SnapshotMsg::Periodic => ("PERIODIC".to_string(), None),
        SnapshotMsg::PositionEntry { position_id } => ("POS_ENT".to_string(), Some(*position_id)),
        SnapshotMsg::PositionExit { position_id } => ("POS_EXT".to_string(), Some(*position_id)),
        SnapshotMsg::Shutdown => ("PERIODIC".to_string(), None),
    }
}

/// The message sent after entering position `position_id`: none for an id
/// that was not stored (not positive).
pub open spec fn entry_message(position_id: i64) -> Option<SnapshotMsg> {
    if position_id > 0 {
        Some(SnapshotMsg::PositionEntry { position_id })
    } else {
        None
    }
}

/// The message sent after closing position `position_id`.
pub open spec fn exit_message(position_id: i64) -> Option<SnapshotMsg> {
    if position_id > 0 {
        Some(SnapshotMsg::PositionExit { position_id })
    } else {
        None
    }
}

/// See `entry_message`.
pub fn position_entry_message(position_id: i64) -> (r: Option<SnapshotMsg>)
    ensures
        r == entry_message(position_id),
{
    if position_id > 0 {
        Some(SnapshotMsg::PositionEntry { position_id })
    } else {
        None
    }
}

/// See `exit_message`.
pub fn position_exit_message(position_id: i64) -> (r: Option<SnapshotMsg>)
    ensures
        r == exit_message(position_id),
{
    if position_id > 0 {
        Some(SnapshotMsg::PositionExit { position_id })
    } else {
        None
    }
}

#[verifier::external_type_specification]
#[verifier::external_body]
#[verifier::reject_recursive_types(T)]
pub struct ExSnapshotChannel<T>(mpsc::Sender<T>);

/// Calls `tokio::sync::mpsc::Sender::try_send` with `msg` and gives back
/// whether the message was queued, with the message that was handed to the
/// channel (`msg` itself: the type is `Copy`).  Whether it is queued (room
/// in the channel, a live receiver) depends on the channel's state at the
/// call, so nothing is said of the flag.
#[verifier::external_body]
fn try_send_snapshot(tx: &mpsc::Sender<SnapshotMsg>, msg: SnapshotMsg) -> (r: (bool, SnapshotMsg))
    ensures
        r.1 == msg,
{
    (tx.try_send(msg).is_ok(), msg)
}

/// Calls `Clone::clone` of `tokio::sync::mpsc::Sender`: another handle to
/// the same channel.
#[verifier::external_body]
fn clone_snapshot_channel(tx: &mpsc::Sender<SnapshotMsg>) -> (r: mpsc::Sender<SnapshotMsg>) {
    tx.clone()
}

/// The handle the strategy loop uses to request snapshots without waiting.
pub struct BalanceSnapshotSender {
    tx: mpsc::Sender<SnapshotMsg>,
}

impl BalanceSnapshotSender {
    /// The channel handle the requests go to.
    pub closed spec fn sender(&self) -> mpsc::Sender<SnapshotMsg> {
        self.tx
    }

    /// A sender on the channel `tx`.
    pub fn new(tx: mpsc::Sender<SnapshotMsg>) -> (r: BalanceSnapshotSender)
        ensures
            r.sender() == tx,
    {
        BalanceSnapshotSender { tx }
    }

    /// The channel the requests go to.
    pub fn channel(&self) -> (r: &mpsc::Sender<SnapshotMsg>)
        ensures
            *r == self.sender(),
    {
        &self.tx
    }

    /// Requests a snapshot after entering position `position_id`, without
    /// waiting.  Nothing is sent for an id that is not positive.  Returns
    /// whether the request was dropped (channel full or closed), and the
    /// request handed to the channel: `PositionEntry { position_id }`.
    pub fn on_position_entry(&self, position_id: i64) -> (r: (bool, Option<SnapshotMsg>))
        ensures
            r.1 == entry_message(position_id),
            r.1 is None ==> !r.0,
    {
        self.send_request(position_entry_message(position_id))
    }

    /// Requests a snapshot after closing position `position_id`, without
    /// waiting: `PositionExit { position_id }`; see `on_position_entry`.
    pub fn on_position_exit(&self, position_id: i64) -> (r: (bool, Option<SnapshotMsg>))
        ensures
            r.1 == exit_message(position_id),
            r.1 is None ==> !r.0,
    {
        self.send_request(position_exit_message(position_id))
    }

    /// Hands `request` to the channel, if there is one; returns whether it
    /// was dropped, and what was handed over.
    fn send_request(&self, request: Option<SnapshotMsg>) -> (r: (bool, Option<SnapshotMsg>))
        ensures
            r.1 == request,
            request is None ==> !r.0,
    {
        match request {
            Some(msg) => {
                let (queued, sent) = try_send_snapshot(&self.tx, msg);
                (!queued, Some(sent))
            },
            None => (false, None),
        }
    }
}

impl Clone for BalanceSnapshotSender {
    fn clone(&self) -> (r: BalanceSnapshotSender) {
        BalanceSnapshotSender { tx: clone_snapshot_channel(&self.tx) }
    }
}

/// One currency of an exchange account.
#[derive(Clone, Debug)]
pub struct Balance {
    pub currency: String,
    /// Free amount (Bybit: wallet balance).
    pub balance: Dec,
    pub locked: Dec,
    /// Average buy price in the unit currency (Upbit).
    pub avg_buy_price: Dec,
    pub unit_currency: String,
    /// Account equity (Bybit).
    pub equity: Option<Dec>,
    /// Unrealised profit and loss (Bybit).
    pub unrealised_pnl: Option<Dec>,
}

/// The first balance of `bs` in currency `cur`.
pub open spec fn first_in(bs: Seq<Balance>, cur: Seq<char>) -> Option<Balance>
    decreases bs.len(),
{
    if bs.len() == 0 {
        None
    } else if bs[0].currency@ == cur {
        Some(bs[0])
    } else {
        first_in(bs.subrange(1, bs.len() as int), cur)
    }
}

proof fn lemma_first_in_skip(bs: Seq<Balance>, cur: Seq<char>, i: int)
    requires
        0 <= i <= bs.len(),
        forall|j: int| 0 <= j < i ==> bs[j].currency@ != cur,
    ensures
        first_in(bs, cur) == first_in(bs.subrange(i, bs.len() as int), cur),
    decreases i,
{
    if i > 0 {
        assert(bs.subrange(1, bs.len() as int).subrange(i - 1, bs.len() - 1) =~= bs.subrange(
            i,
            bs.len() as int,
        ));
        lemma_first_in_skip(bs.subrange(1, bs.len() as int), cur, i - 1);
    } else {
        assert(bs.subrange(0, bs.len() as int) =~= bs);
    }
}

/// The position of the first balance in currency `cur`.
pub fn find_currency(balances: &[Balance], cur: &str) -> (r: Option<usize>)
    ensures
        r is None <==> first_in(balances@, cur@) is None,
        r is Some ==> r->0 < balances@.len() && first_in(balances@, cur@) == Some(
            balances@[r->0 as int],
        ),
{
    let c = cur.to_owned();
    let mut i: usize = 0;
    while i < balances.len()
        invariant
            i <= balances.len(),
            c@ == cur@,
            forall|j: int| 0 <= j < i ==> balances@[j].currency@ != cur@,
        decreases balances.len() - i,
    {
        if balances[i].currency == c {
            proof {
                lemma_first_in_skip(balances@, cur@, i as int);
            }
            return Some(i);
        }
        i = i + 1;
    }
    proof {
        lemma_first_in_skip(balances@, cur@, i as int);
    }
    None
}

/// Held quantity of a coin balance: free plus locked.
pub open spec fn holding_qty(b: Balance) -> Dec {
    Dec::sum_of(b.balance, b.locked)
}

/// A coin balance worth at least 1000 KRW at its average buy price; KRW
/// itself is not a coin.
pub open spec fn is_held_coin(b: Balance) -> bool {
    b.currency@ != "KRW"@ && Dec::product_of(b.avg_buy_price, holding_qty(b)).val() >= 1000 * unit(
        0,
    )
}

/// The quantity and the estimated value of a coin balance are computed
/// without overflow (and the quantity exactly).
pub open spec fn holding_computable(b: Balance) -> bool {
    b.currency@ == "KRW"@ || (Dec::add_exact(b.balance, b.locked) && -pow10(83)
        < b.avg_buy_price.val() * (b.balance.val() + b.locked.val()) < pow10(83))
}

/// The coins held (dust left out), with their quantities, in order.
pub open spec fn held_coins(bs: Seq<Balance>) -> Seq<(Seq<char>, Dec)>
    decreases bs.len(),
{
    if bs.len() == 0 {
        Seq::empty()
    } else if is_held_coin(bs.last()) {
        held_coins(bs.drop_last()).push((bs.last().currency@, holding_qty(bs.last())))
    } else {
        held_coins(bs.drop_last())
    }
}

/// The coins and quantities of `v`.
pub open spec fn holding_view(v: Seq<(String, Dec)>) -> Seq<(Seq<char>, Dec)> {
    v.map_values(|p: (String, Dec)| (p.0@, p.1))
}

/// The Upbit coins held, with their quantities (free plus locked); a coin
/// worth less than 1000 KRW at its average buy price is dust and left out.
pub fn upbit_holdings(balances: &[Balance]) -> (r: Vec<(String, Dec)>)
    requires
        forall|i: int| 0 <= i < balances@.len() ==> holding_computable(#[trigger] balances@[i]),
    ensures
        holding_view(r@) == held_coins(balances@),
        forall|k: int|
            #![trigger r@[k]]
            0 <= k < r@.len() ==> exists|i: int|
                0 <= i < balances@.len() && #[trigger] balances@[i].currency@ == r@[k].0@
                    && balances@[i].avg_buy_price.val() != 0,
{
    let krw = "KRW".to_string();
    let threshold = Dec::new(1000, 0);
    let mut out: Vec<(String, Dec)> = Vec::new();
    let mut i: usize = 0;
    while i < balances.len()
        invariant
            i <= balances.len(),
            krw@ == "KRW"@,
            threshold.val() == 1000 * unit(0),
            forall|j: int| 0 <= j < balances@.len() ==> holding_computable(#[trigger] balances@[j]),
            holding_view(out@) == held_coins(balances@.take(i as int)),
            forall|k: int|
                #![trigger out@[k]]
                0 <= k < out@.len() ==> exists|j: int|
                    0 <= j < balances@.len() && #[trigger] balances@[j].currency@ == out@[k].0@
                        && balances@[j].avg_buy_price.val() != 0,
        decreases balances.len() - i,
    {
        let ghost t = balances@.take(i as int + 1);
        proof {
            assert(t.drop_last() =~= balances@.take(i as int));
            assert(t.last() == balances@[i as int]);
        }
        let b = &balances[i];
        if b.currency != krw {
            proof {
                assert(holding_computable(balances@[i as int]));
            }
            let qty = b.balance.add(&b.locked);
            let est = b.avg_buy_price.mul(&qty);
            if est.ge(&threshold) {
                let ghost before = out@;
                out.push((b.currency.clone(), qty));
                proof {
                    assert(holding_view(out@) =~= holding_view(before).push((b.currency@, qty)));
                    crate::decimal::lemma_unit_pos(0);
                    assert(b.avg_buy_price.val() != 0);
                    assert forall|k: int| #![trigger out@[k]] 0 <= k < out@.len() implies exists|j: int|
                        0 <= j < balances@.len() && #[trigger] balances@[j].currency@ == out@[k].0@
                            && balances@[j].avg_buy_price.val() != 0 by {
                        if k == before.len() {
                            assert(balances@[i as int].currency@ == out@[k].0@);
                        } else {
                            assert(out@[k] == before[k]);
                        }
                    }
                }
            }
        }
        i = i + 1;
    }
    proof {
        assert(balances@.take(balances.len() as int) =~= balances@);
    }
    out
}

/// The exact value of `q * p`, counted in `10^-28`.
pub open spec fn term_val(q: Dec, p: Dec) -> int {
    q.val() * p.val() / pow10(28)
}

/// Value of the held coins at the given prices: the sum of quantity times
/// price over the coins that have a price.
pub open spec fn coin_value_total(hv: Seq<(Seq<char>, Dec)>, prices: Map<Seq<char>, Dec>) -> int
    decreases hv.len(),
{
    if hv.len() == 0 {
        0
    } else {
        let last = hv.last();
        coin_value_total(hv.drop_last(), prices) + if prices.dom().contains(last.0) {
            term_val(last.1, prices[last.0])
        } else {
            0
        }
    }
}

/// The largest scale among the products of quantity and price.
pub open spec fn coin_value_scale(hv: Seq<(Seq<char>, Dec)>, prices: Map<Seq<char>, Dec>) -> nat
    decreases hv.len(),
{
    if hv.len() == 0 {
        0
    } else {
        let last = hv.last();
        max_nat(
            coin_value_scale(hv.drop_last(), prices),
            if prices.dom().contains(last.0) {
                last.1.sc() + prices[last.0].sc()
            } else {
                0
            },
        )
    }
}

proof fn lemma_coin_value_scale_prefix(
    hv: Seq<(Seq<char>, Dec)>,
    prices: Map<Seq<char>, Dec>,
    k: int,
)
    requires
        0 <= k < hv.len(),
    ensures
        coin_value_scale(hv.take(k), prices) <= coin_value_scale(hv, prices),
        prices.dom().contains(hv[k].0) ==> hv[k].1.sc() + prices[hv[k].0].sc() <= coin_value_scale(
            hv,
            prices,
        ),
    decreases hv.len(),
{
    if k == hv.len() - 1 {
        assert(hv.take(k) =~= hv.drop_last());
    } else {
        lemma_coin_value_scale_prefix(hv.drop_last(), prices, k);
        assert(hv.drop_last().take(k) =~= hv.take(k));
        assert(hv.drop_last()[k] == hv[k]);
    }
}

/// Every product is exact and every running sum fits at the largest
/// product scale, so the coin value is computed exactly.
pub open spec fn coin_value_computable(
    hv: Seq<(Seq<char>, Dec)>,
    prices: Map<Seq<char>, Dec>,
) -> bool {
    &&& forall|i: int|
        0 <= i < hv.len() && prices.dom().contains(#[trigger] hv[i].0) ==> Dec::mul_fits(
            hv[i].1,
            prices[hv[i].0],
        )
    &&& forall|k: int|
        0 <= k <= hv.len() ==> fits_at(
            #[trigger] coin_value_total(hv.take(k), prices),
            coin_value_scale(hv, prices),
        )
}

/// The KRW value of the held coins at `prices` (coins without a price are
/// left out).
pub fn upbit_coin_value(holdings: &[(String, Dec)], prices: &StrMap<Dec>) -> (r: Dec)
    requires
        coin_value_computable(holding_view(holdings@), prices@),
    ensures
        r.val() == coin_value_total(holding_view(holdings@), prices@),
        r.sc() <= coin_value_scale(holding_view(holdings@), prices@),
{
    let ghost hv = holding_view(holdings@);
    let ghost pm = prices@;
    let ghost s = coin_value_scale(hv, pm);
    let mut acc = Dec::zero();
    let mut i: usize = 0;
    while i < holdings.len()
        invariant
            i <= holdings.len(),
            hv == holding_view(holdings@),
            pm == prices@,
            s == coin_value_scale(hv, pm),
            coin_value_computable(hv, pm),
            acc.val() == coin_value_total(hv.take(i as int), pm),
            acc.sc() <= s,
        decreases holdings.len() - i,
    {
        let ghost t = hv.take(i as int + 1);
        proof {
            assert(t.drop_last() =~= hv.take(i as int));
            assert(t.last() == hv[i as int]);
            assert(hv[i as int] == (holdings@[i as int].0@, holdings@[i as int].1));
            lemma_coin_value_scale_prefix(hv, pm, i as int);
            assert(fits_at(coin_value_total(hv.take(i as int + 1), pm), s));
        }
        let coin = &holdings[i].0;
        let qty = holdings[i].1;
        match prices.get(coin.as_str()) {
            Some(price) => {
                let term = qty.mul(price);
                proof {
                    assert(Dec::mul_fits(hv[i as int].1, pm[hv[i as int].0]));
                    let x = qty.val() * price.val();
                    let c = pow10(28);
                    crate::decimal::lemma_pow10_pos(28);
                    assert(term.val() * c == x);
                    assert(x / c == term.val()) by (nonlinear_arith)
                        requires
                            term.val() * c == x,
                            c > 0,
                    ;
                    crate::decimal::lemma_fits_at_smaller_scale(
                        acc.val() + term.val(),
                        max_nat(acc.sc(), term.sc()),
                        s,
                    );
                }
                acc = acc.add(&term);
            },
            None => {},
        }
        i = i + 1;
    }
    proof {
        assert(hv.take(holdings.len() as int) =~= hv);
    }
    acc
}

/// Whether a price stored at `stored_ms` is still fresh at `now_ms`: its
/// age (zero when the clock reads earlier) is below `ttl_ms`.
pub open spec fn price_fresh(stored_ms: u64, now_ms: u64, ttl_ms: u64) -> bool {
    (if now_ms >= stored_ms {
        now_ms - stored_ms
    } else {
        0
    }) < ttl_ms
}

/// The cached prices of `coins` that are fresh at `now`, and the coins
/// (in order, repeats kept) whose price is missing or stale.
pub open spec fn cache_lookup(
    cache: Map<Seq<char>, (Dec, u64)>,
    coins: Seq<String>,
    now: u64,
    ttl: u64,
) -> (Map<Seq<char>, Dec>, Seq<Seq<char>>)
    decreases coins.len(),
{
    if coins.len() == 0 {
        (Map::empty(), Seq::empty())
    } else {
        let prev = cache_lookup(cache, coins.drop_last(), now, ttl);
        let c = coins.last()@;
        if cache.dom().contains(c) && price_fresh(cache[c].1, now, ttl) {
            (prev.0.insert(c, cache[c].0), prev.1)
        } else {
            (prev.0, prev.1.push(c))
        }
    }
}

/// The prices after storing the fetched tickers `(market, price)` of the
/// KRW market at `now`.
pub open spec fn store_fetched(
    m: Map<Seq<char>, (Dec, u64)>,
    tickers: Seq<(String, Dec)>,
    now: u64,
) -> Map<Seq<char>, (Dec, u64)>
    decreases tickers.len(),
{
    if tickers.len() == 0 {
        m
    } else {
        let prev = store_fetched(m, tickers.drop_last(), now);
        match crate::coin_selector::market_coin(tickers.last().0@, true) {
            Some(c) => prev.insert(c, (tickers.last().1, now)),
            None => prev,
        }
    }
}

/// The prices handed out after a fetch: the ones found before, then each
/// fetched ticker of the KRW market.
pub open spec fn merge_fetched(
    m: Map<Seq<char>, Dec>,
    tickers: Seq<(String, Dec)>,
) -> Map<Seq<char>, Dec>
    decreases tickers.len(),
{
    if tickers.len() == 0 {
        m
    } else {
        let prev = merge_fetched(m, tickers.drop_last());
        match crate::coin_selector::market_coin(tickers.last().0@, true) {
            Some(c) => prev.insert(c, tickers.last().1),
            None => prev,
        }
    }
}

/// The prices handed out when the fetch failed: the ones found before, and
/// the stale cached price of each coin that needed a fetch.
pub open spec fn merge_stale(
    m: Map<Seq<char>, Dec>,
    cache: Map<Seq<char>, (Dec, u64)>,
    need: Seq<Seq<char>>,
) -> Map<Seq<char>, Dec>
    decreases need.len(),
{
    if need.len() == 0 {
        m
    } else {
        let prev = merge_stale(m, cache, need.drop_last());
        let c = need.last();
        if cache.dom().contains(c) {
            prev.insert(c, cache[c].0)
        } else {
            prev
        }
    }
}

/// Coin prices (KRW) with the time they were stored, kept for a short
/// time so that snapshots do not spend the exchange's rate limit.
pub struct TickerCache {
    prices: StrMap<(Dec, u64)>,
    ttl_ms: u64,
}

impl TickerCache {
    /// The stored prices with their times, by coin.
    pub closed spec fn view(&self) -> Map<Seq<char>, (Dec, u64)> {
        self.prices@
    }

    /// How long a price stays fresh, in milliseconds.
    pub closed spec fn ttl(&self) -> u64 {
        self.ttl_ms
    }

    /// An empty cache whose prices stay fresh for one second.
    pub fn new() -> (r: TickerCache)
        ensures
            r@ == Map::<Seq<char>, (Dec, u64)>::empty(),
            r.ttl() == 1000,
    {
        TickerCache { prices: StrMap::new(), ttl_ms: 1000 }
    }

    /// An empty cache whose prices stay fresh for `ttl_ms`.
    pub fn with_ttl(ttl_ms: u64) -> (r: TickerCache)
        ensures
            r@ == Map::<Seq<char>, (Dec, u64)>::empty(),
            r.ttl() == ttl_ms,
    {
        TickerCache { prices: StrMap::new(), ttl_ms }
    }

    /// The fresh prices of `coins` at `now_ms`, and the coins to fetch.
    pub fn lookup(&self, coins: &[String], now_ms: u64) -> (r: (StrMap<Dec>, Vec<String>))
        ensures
            r.0@ == cache_lookup(self@, coins@, now_ms, self.ttl()).0,
            r.1@.map_values(|s: String| s@) == cache_lookup(self@, coins@, now_ms, self.ttl()).1,
    {
        let mut found: StrMap<Dec> = StrMap::new();
        let mut need: Vec<String> = Vec::new();
        let mut i: usize = 0;
        while i < coins.len()
            invariant
                i <= coins.len(),
                found@ == cache_lookup(self@, coins@.take(i as int), now_ms, self.ttl()).0,
                need@.map_values(|s: String| s@) == cache_lookup(
                    self@,
                    coins@.take(i as int),
                    now_ms,
                    self.ttl(),
                ).1,
            decreases coins.len() - i,
        {
            proof {
                assert(coins@.take(i as int + 1).drop_last() =~= coins@.take(i as int));
                assert(coins@.take(i as int + 1).last() == coins@[i as int]);
            }
            let coin = &coins[i];
            let fresh = match self.prices.get(coin.as_str()) {
                Some(entry) => {
                    let age = if now_ms >= entry.1 {
                        now_ms - entry.1
                    } else {
                        0
                    };
                    if age < self.ttl_ms {
                        Some(entry.0)
                    } else {
                        None
                    }
                },
                None => None,
            };
            match fresh {
                Some(p) => found.insert(coin.clone(), p),
                None => {
                    let ghost before = need@;
                    need.push(coin.clone());
                    proof {
                        assert(need@.map_values(|s: String| s@) =~= before.map_values(
                            |s: String| s@,
                        ).push(coin@));
                    }
                },
            }
            i = i + 1;
        }
        proof {
            assert(coins@.take(coins.len() as int) =~= coins@);
        }
        (found, need)
    }

    /// Stores the fetched tickers `(market, price)` at `now_ms` and adds
    /// them to `prices`; markets outside KRW are ignored.
    pub fn record_fetched(&mut self, prices: &mut StrMap<Dec>, tickers: &[(String, Dec)], now_ms: u64)
        ensures
            final(self)@ == store_fetched(old(self)@, tickers@, now_ms),
            final(self).ttl() == old(self).ttl(),
            final(prices)@ == merge_fetched(old(prices)@, tickers@),
    {
        let mut i: usize = 0;
        while i < tickers.len()
            invariant
                i <= tickers.len(),
                self.ttl() == old(self).ttl(),
                self@ == store_fetched(old(self)@, tickers@.take(i as int), now_ms),
                prices@ == merge_fetched(old(prices)@, tickers@.take(i as int)),
            decreases tickers.len() - i,
        {
            proof {
                assert(tickers@.take(i as int + 1).drop_last() =~= tickers@.take(i as int));
                assert(tickers@.take(i as int + 1).last() == tickers@[i as int]);
                reveal_strlit("KRW-");
            }
            match strip_prefix(tickers[i].0.as_str(), "KRW-") {
                Some(coin) => {
                    let price = tickers[i].1;
                    self.prices.insert(coin.clone(), (price, now_ms));
                    prices.insert(coin, price);
                },
                None => {},
            }
            i = i + 1;
        }
        proof {
            assert(tickers@.take(tickers.len() as int) =~= tickers@);
        }
    }

    /// After a failed fetch, adds to `prices` the stale price of each coin
    /// of `need` that has one.
    pub fn add_stale(&self, prices: &mut StrMap<Dec>, need: &[String])
        ensures
            final(prices)@ == merge_stale(old(prices)@, self@, need@.map_values(|s: String| s@)),
    {
        let ghost nv = need@.map_values(|s: String| s@);
        let mut i: usize = 0;
        while i < need.len()
            invariant
                i <= need.len(),
                nv == need@.map_values(|s: String| s@),
                prices@ == merge_stale(old(prices)@, self@, nv.take(i as int)),
            decreases need.len() - i,
        {
            proof {
                assert(nv.take(i as int + 1).drop_last() =~= nv.take(i as int));
                assert(nv.take(i as int + 1).last() == nv[i as int]);
            }
            match self.prices.get(need[i].as_str()) {
                Some(entry) => prices.insert(need[i].clone(), entry.0),
                None => {},
            }
            i = i + 1;
        }
        proof {
            assert(nv.take(need.len() as int) =~= nv);
        }
    }
}

/// The amounts of a snapshot row.
#[derive(Clone, Copy, Debug)]
pub struct SnapshotAmounts {
    pub available: Dec,
    pub locked: Dec,
    pub coin_value: Dec,
    pub total: Dec,
}

/// The Upbit row's total is computed exactly.
pub open spec fn upbit_total_computable(k: Balance, coin_value: Dec) -> bool {
    &&& Dec::add_exact(k.balance, k.locked)
    &&& fits_at(
        k.balance.val() + k.locked.val() + coin_value.val(),
        max_nat(max_nat(k.balance.sc(), k.locked.sc()), coin_value.sc()),
    )
}

/// The amounts of the Upbit row: free and locked KRW of the first KRW
/// balance, the coin value, and their total; `None` without a KRW balance.
pub fn upbit_row_amounts(balances: &[Balance], coin_value: Dec) -> (r: Option<SnapshotAmounts>)
    requires
        first_in(balances@, "KRW"@) matches Some(k) ==> upbit_total_computable(k, coin_value),
    ensures
        r is None <==> first_in(balances@, "KRW"@) is None,
        r matches Some(a) ==> ({
            let k = first_in(balances@, "KRW"@)->0;
            &&& a.available == k.balance
            &&& a.locked == k.locked
            &&& a.coin_value == coin_value
            &&& a.total.val() == k.balance.val() + k.locked.val() + coin_value.val()
        }),
{
    match find_currency(balances, "KRW") {
        None => None,
        Some(idx) => {
            let k = &balances[idx];
            let base = k.balance.add(&k.locked);
            proof {
                crate::decimal::lemma_fits_at_smaller_scale(
                    base.val() + coin_value.val(),
                    max_nat(base.sc(), coin_value.sc()),
                    max_nat(max_nat(k.balance.sc(), k.locked.sc()), coin_value.sc()),
                );
            }
            let total = base.add(&coin_value);
            Some(SnapshotAmounts { available: k.balance, locked: k.locked, coin_value, total })
        },
    }
}

/// The coin value of a Bybit USDT balance: its unrealised profit and loss,
/// zero when absent.
pub open spec fn bybit_coin_value(u: Balance) -> Dec {
    match u.unrealised_pnl {
        Some(p) => p,
        None => Dec::zero_value(),
    }
}

/// The total of a Bybit USDT balance: its equity, or else its wallet
/// balance plus its coin value.
pub open spec fn bybit_total_val(u: Balance) -> int {
    match u.equity {
        Some(e) => e.val(),
        None => u.balance.val() + bybit_coin_value(u).val(),
    }
}

/// The amounts of the Bybit row from the first USDT balance, and the total
/// rounded to 8 decimals (USDT counted as USD); `None` without one.
pub fn bybit_row_amounts(balances: &[Balance]) -> (r: Option<(SnapshotAmounts, Dec)>)
    requires
        first_in(balances@, "USDT"@) matches Some(u) ==> (u.equity is None ==> Dec::add_exact(
            u.balance,
            bybit_coin_value(u),
        )),
    ensures
        r is None <==> first_in(balances@, "USDT"@) is None,
        r matches Some(p) ==> ({
            let u = first_in(balances@, "USDT"@)->0;
            &&& p.0.available == u.balance
            &&& p.0.locked == u.locked
            &&& p.0.coin_value == bybit_coin_value(u)
            &&& p.0.total.val() == bybit_total_val(u)
            &&& (u.equity matches Some(e) ==> p.0.total == e)
            &&& (p.0.total.sc() <= 8 ==> p.1 == p.0.total)
            &&& (p.0.total.sc() > 8 ==> p.1.sc() == 8 && p.1.val() == round_half_even_val(
                p.0.total.val(),
                8,
            ))
        }),
{
    match find_currency(balances, "USDT") {
        None => None,
        Some(idx) => {
            let u = &balances[idx];
            let coin_value = match u.unrealised_pnl {
                Some(p) => p,
                None => Dec::zero(),
            };
            let total = match u.equity {
                Some(e) => e,
                None => u.balance.add(&coin_value),
            };
            let rounded = total.round_dp(8);
            Some(
                (
                    SnapshotAmounts { available: u.balance, locked: u.locked, coin_value, total },
                    rounded,
                ),
            )
        },
    }
}

/// The Bybit row of a snapshot: exchange and currency labels, the amounts,
/// and the total in USD and in USDT (both the total rounded to 8 decimals,
/// USDT being counted as USD).
#[derive(Clone, Debug)]
pub struct BybitRow {
    pub cex: String,
    pub currency: String,
    pub amounts: SnapshotAmounts,
    pub total_usd: Dec,
    pub total_usdt: Dec,
}

/// The Bybit row from the first USDT balance; `None` without one.
pub fn bybit_row(balances: &[Balance]) -> (r: Option<BybitRow>)
    requires
        first_in(balances@, "USDT"@) matches Some(u) ==> (u.equity is None ==> Dec::add_exact(
            u.balance,
            bybit_coin_value(u),
        )),
    ensures
        r is None <==> first_in(balances@, "USDT"@) is None,
        r matches Some(row) ==> ({
            let u = first_in(balances@, "USDT"@)->0;
            &&& row.cex@ == "BYBIT"@
            &&& row.currency@ == "USDT"@
            &&& row.amounts.available == u.balance
            &&& row.amounts.locked == u.locked
            &&& row.amounts.coin_value == bybit_coin_value(u)
            &&& row.amounts.total.val() == bybit_total_val(u)
            &&& (u.equity matches Some(e) ==> row.amounts.total == e)
            &&& row.total_usdt == row.total_usd
            &&& (row.amounts.total.sc() <= 8 ==> row.total_usd == row.amounts.total)
            &&& (row.amounts.total.sc() > 8 ==> row.total_usd.sc() == 8 && row.total_usd.val()
                == round_half_even_val(row.amounts.total.val(), 8))
        }),
{
    match bybit_row_amounts(balances) {
        Some((amounts, total_usd)) => Some(
            BybitRow {
                cex: "BYBIT".to_string(),
                currency: "USDT".to_string(),
                amounts,
                total_usd,
                total_usdt: total_usd,
            },
        ),
        None => None,
    }
}

/// `|x * (y + z)| < 10^83` (in units of `10^-28` squared) when, for some
/// `j`, `|x| < 10^j` and `|y|, |z| < 10^(26 - j)`.
proof fn lemma_split_product(x: int, y: int, z: int, j: nat)
    requires
        j <= 26,
        abs_int(x) < pow10(28 + j),
        abs_int(y) < pow10((54 - j) as nat),
        abs_int(z) < pow10((54 - j) as nat),
    ensures
        -pow10(83) < x * (y + z) < pow10(83),
{
    let a = pow10(28 + j);
    let b = pow10((54 - j) as nat);
    crate::decimal::lemma_pow10_add(28 + j, (55 - j) as nat);
    assert(28 + j + (55 - j) as nat == 83);
    assert(pow10((55 - j) as nat) == 10 * b);
    crate::decimal::lemma_pow10_pos((54 - j) as nat);
    let w = y + z;
    assert(abs_int(w) < 10 * b);
    assert(abs_int(x * w) == abs_int(x) * abs_int(w)) by (nonlinear_arith);
    assert(abs_int(x) * abs_int(w) < a * (10 * b)) by (nonlinear_arith)
        requires
            0 <= abs_int(x) < a,
            0 <= abs_int(w) < 10 * b,
    ;
}

/// Whether the quantity and estimated value of `b` are computed without
/// overflow, by a sufficient test (fails only within a few digits of the
/// 96-bit limit).
fn holding_is_computable(b: &Balance) -> (r: bool)
    ensures
        r ==> holding_computable(*b),
{
    let krw = "KRW".to_string();
    proof {
        reveal_strlit("KRW");
    }
    if b.currency == krw {
        return true;
    }
    if !b.balance.sum_surely_exact(&b.locked) {
        return false;
    }
    let mut j: u32 = 0;
    while j <= 26
        invariant
            j <= 27,
            Dec::add_exact(b.balance, b.locked),
        decreases 27 - j,
    {
        if b.avg_buy_price.magnitude_below(j) && b.balance.magnitude_below(26 - j)
            && b.locked.magnitude_below(26 - j) {
            proof {
                assert(28 + (26 - j) as nat == (54 - j) as nat);
                lemma_split_product(
                    b.avg_buy_price.val(),
                    b.balance.val(),
                    b.locked.val(),
                    j as nat,
                );
            }
            return true;
        }
        j = j + 1;
    }
    false
}

/// A sufficient test for the precondition of `upbit_holdings`.
pub fn holdings_are_computable(balances: &[Balance]) -> (r: bool)
    ensures
        r ==> forall|i: int| 0 <= i < balances@.len() ==> holding_computable(#[trigger] balances@[i]),
{
    let mut i: usize = 0;
    while i < balances.len()
        invariant
            i <= balances.len(),
            forall|j: int| 0 <= j < i ==> holding_computable(#[trigger] balances@[j]),
        decreases balances.len() - i,
    {
        if !holding_is_computable(&balances[i]) {
            return false;
        }
        i = i + 1;
    }
    true
}

/// A sufficient test for the precondition of `upbit_row_amounts`: the
/// first KRW balance, its locked amount and the coin value are below the
/// headroom of their largest scale.
pub fn upbit_total_is_computable(balances: &[Balance], coin_value: &Dec) -> (r: bool)
    ensures
        r ==> (first_in(balances@, "KRW"@) matches Some(k) ==> upbit_total_computable(k, *coin_value)),
{
    match find_currency(balances, "KRW") {
        None => {
            proof {
                reveal_strlit("KRW");
            }
            true
        },
        Some(i) => {
            let k = &balances[i];
            let s1 = k.balance.scale();
            let s2 = k.locked.scale();
            let s3 = coin_value.scale();
            let m12: u32 = if s1 >= s2 {
                s1
            } else {
                s2
            };
            let m: u32 = if m12 >= s3 {
                m12
            } else {
                s3
            };
            if m > 27 {
                return false;
            }
            let ok = k.balance.within_headroom(m) && k.locked.within_headroom(m)
                && coin_value.within_headroom(m);
            proof {
                reveal_strlit("KRW");
                if ok {
                    lemma_headroom_fits(k.balance.val() + k.locked.val(), m as nat, 2);
                    crate::decimal::lemma_fits_at_smaller_scale(
                        k.balance.val() + k.locked.val(),
                        max_nat(k.balance.sc(), k.locked.sc()),
                        m as nat,
                    );
                    lemma_headroom_fits(
                        k.balance.val() + k.locked.val() + coin_value.val(),
                        m as nat,
                        3,
                    );
                }
            }
            ok
        },
    }
}

/// Every priced term of `hv` is below `b` in magnitude.
pub open spec fn terms_bounded(hv: Seq<(Seq<char>, Dec)>, prices: Map<Seq<char>, Dec>, b: int) -> bool {
    forall|j: int|
        0 <= j < hv.len() && prices.dom().contains(#[trigger] hv[j].0) ==> abs_int(
            term_val(hv[j].1, prices[hv[j].0]),
        ) < b
}

proof fn lemma_coin_value_prefix_bound(
    hv: Seq<(Seq<char>, Dec)>,
    prices: Map<Seq<char>, Dec>,
    b: int,
    k: int,
)
    requires
        terms_bounded(hv, prices, b),
        0 <= k <= hv.len(),
        b >= 0,
    ensures
        abs_int(coin_value_total(hv.take(k), prices)) <= k * b,
    decreases k,
{
    if k == 0 {
        assert(hv.take(0) =~= Seq::<(Seq<char>, Dec)>::empty());
    } else {
        lemma_coin_value_prefix_bound(hv, prices, b, k - 1);
        assert(hv.take(k).drop_last() =~= hv.take(k - 1));
        assert(hv.take(k).last() == hv[k - 1]);
        if prices.dom().contains(hv[k - 1].0) {
            assert(abs_int(term_val(hv[k - 1].1, prices[hv[k - 1].0])) < b);
        }
        assert((k - 1) * b + b == k * b) by (nonlinear_arith);
    }
}

/// A sufficient test for the precondition of `upbit_coin_value`: every
/// priced product is exact, their largest scale `s` is at most 17, each
/// product is below `10^(17 - s)`, and there are fewer than `10^9` coins.
pub fn coin_value_is_computable(holdings: &[(String, Dec)], prices: &StrMap<Dec>) -> (r: bool)
    ensures
        r ==> coin_value_computable(holding_view(holdings@), prices@),
{
    let ghost hv = holding_view(holdings@);
    let ghost pm = prices@;
    let n = holdings.len();
    if n >= 1000000000 {
        return false;
    }
    let mut sc: u32 = 0;
    let mut i: usize = 0;
    while i < n
        invariant
            n == holdings.len(),
            i <= n,
            hv == holding_view(holdings@),
            pm == prices@,
            sc <= 56,
            sc == coin_value_scale(hv.take(i as int), pm),
            forall|j: int|
                0 <= j < i && pm.dom().contains(#[trigger] hv[j].0) ==> Dec::mul_fits(
                    hv[j].1,
                    pm[hv[j].0],
                ),
        decreases n - i,
    {
        proof {
            assert(hv.take(i as int + 1).drop_last() =~= hv.take(i as int));
            assert(hv.take(i as int + 1).last() == hv[i as int]);
            assert(hv[i as int] == (holdings@[i as int].0@, holdings@[i as int].1));
        }
        let qty = holdings[i].1;
        match prices.get(holdings[i].0.as_str()) {
            Some(price) => {
                let qs = qty.scale();
                let ps = price.scale();
                if qs + ps > 28 {
                    return false;
                }
                match qty.mantissa().checked_mul(price.mantissa()) {
                    Some(x) => {
                        if x < -crate::decimal::MAX_MANTISSA || x > crate::decimal::MAX_MANTISSA {
                            return false;
                        }
                    },
                    None => {
                        return false;
                    },
                }
                if qs + ps > sc {
                    sc = qs + ps;
                }
            },
            None => {},
        }
        i = i + 1;
    }
    proof {
        assert(hv.take(n as int) =~= hv);
    }
    if sc > 17 {
        return false;
    }
    let mut k: usize = 0;
    while k < n
        invariant
            n == holdings.len(),
            k <= n,
            hv == holding_view(holdings@),
            pm == prices@,
            sc <= 17,
            forall|j: int|
                0 <= j < n && pm.dom().contains(#[trigger] hv[j].0) ==> Dec::mul_fits(
                    hv[j].1,
                    pm[hv[j].0],
                ),
            forall|j: int|
                0 <= j < k && pm.dom().contains(#[trigger] hv[j].0) ==> abs_int(
                    term_val(hv[j].1, pm[hv[j].0]),
                ) < pow10((45 - sc) as nat),
        decreases n - k,
    {
        proof {
            assert(hv[k as int] == (holdings@[k as int].0@, holdings@[k as int].1));
        }
        let qty = holdings[k].1;
        match prices.get(holdings[k].0.as_str()) {
            Some(price) => {
                proof {
                    assert(pm.dom().contains(hv[k as int].0));
                    assert(Dec::mul_fits(hv[k as int].1, pm[hv[k as int].0]));
                }
                let term = qty.mul(price);
                proof {
                    let x = qty.val() * price.val();
                    let c = pow10(28);
                    crate::decimal::lemma_pow10_pos(28);
                    assert(term.val() * c == x);
                    assert(x / c == term.val()) by (nonlinear_arith)
                        requires
                            term.val() * c == x,
                            c > 0,
                    ;
                }
                if !term.magnitude_below(17 - sc) {
                    return false;
                }
            },
            None => {},
        }
        k = k + 1;
    }
    proof {
        let b = pow10((45 - sc) as nat);
        crate::decimal::lemma_pow10_pos((45 - sc) as nat);
        crate::decimal::lemma_pow10_add(10, (45 - sc) as nat);
        assert(10 + (45 - sc) as nat == (55 - sc) as nat);
        assert(pow10(10) == 10000000000) by {
            reveal_with_fuel(pow10, 11);
        }
        assert(sc == coin_value_scale(hv, pm));
        assert forall|kk: int| 0 <= kk <= hv.len() implies fits_at(
            #[trigger] coin_value_total(hv.take(kk), pm),
            coin_value_scale(hv, pm),
        ) by {
            lemma_coin_value_prefix_bound(hv, pm, b, kk);
            assert(kk * b < 10000000000 * b) by (nonlinear_arith)
                requires
                    0 <= kk < 1000000000,
                    b > 0,
            ;
            assert(abs_int(coin_value_total(hv.take(kk), pm)) < 1 * pow10((55 - sc) as nat));
            lemma_headroom_fits(coin_value_total(hv.take(kk), pm), sc as nat, 1);
        }
    }
    true
}

/// A position request is made only for a stored position (a positive id),
/// and its snapshot is recorded under that id with the entry or exit type;
/// periodic and shutdown snapshots are recorded as periodic, without a
/// position.
pub proof fn law_snapshot_requests(position_id: i64, msg: SnapshotMsg)
    ensures
        entry_message(position_id) is Some <==> position_id > 0,
        exit_message(position_id) is Some <==> position_id > 0,
        position_id > 0 ==> record_type_name(entry_message(position_id)->0) == "POS_ENT"@ && record_position(
            entry_message(position_id)->0,
        ) == Some(position_id),
        position_id > 0 ==> record_type_name(exit_message(position_id)->0) == "POS_EXT"@ && record_position(
            exit_message(position_id)->0,
        ) == Some(position_id),
        (msg is Periodic || msg is Shutdown) ==> record_type_name(msg) == "PERIODIC"@ && record_position(msg)
            is None,
{
}

/// The balance found for a currency is in that currency, is one of the
/// balances, and no earlier balance is in it; none is found exactly when
/// no balance is in it.
pub proof fn law_first_balance(bs: Seq<Balance>, cur: Seq<char>)
    ensures
        first_in(bs, cur) is None <==> forall|j: int| 0 <= j < bs.len() ==> (#[trigger] bs[j]).currency@ != cur,
        first_in(bs, cur) is Some ==> exists|i: int|
            0 <= i < bs.len() && bs[i] == first_in(bs, cur)->0 && bs[i].currency@ == cur && forall|j: int|
                0 <= j < i ==> (#[trigger] bs[j]).currency@ != cur,
    decreases bs.len(),
{
    if bs.len() > 0 {
        let rest = bs.subrange(1, bs.len() as int);
        law_first_balance(rest, cur);
        if bs[0].currency@ != cur {
            assert forall|j: int| 1 <= j < bs.len() implies bs[j] == rest[j - 1] by {}
            if first_in(rest, cur) is Some {
                let i = choose|i: int|
                    0 <= i < rest.len() && rest[i] == first_in(rest, cur)->0 && rest[i].currency@ == cur
                        && forall|j: int| 0 <= j < i ==> (#[trigger] rest[j]).currency@ != cur;
                assert(bs[i + 1] == rest[i]);
                assert forall|j: int| 0 <= j < i + 1 implies (#[trigger] bs[j]).currency@ != cur by {
                    if j > 0 {
                        assert(bs[j] == rest[j - 1]);
                    }
                }
            } else {
                assert forall|j: int| 0 <= j < bs.len() implies (#[trigger] bs[j]).currency@ != cur by {
                    if j > 0 {
                        assert(bs[j] == rest[j - 1]);
                    }
                }
            }
        }
    }
}

/// A looked-up price is handed out exactly for an asked coin whose cached
/// price is still fresh, and it is the cached price; a coin is to be
/// fetched exactly when it was asked and its price is missing or stale.
pub proof fn law_cache_lookup(
    cache: Map<Seq<char>, (Dec, u64)>,
    coins: Seq<String>,
    now: u64,
    ttl: u64,
    k: Seq<char>,
)
    ensures
        ({
            let (found, need) = cache_lookup(cache, coins, now, ttl);
            let asked = exists|i: int| 0 <= i < coins.len() && (#[trigger] coins[i])@ == k;
            let fresh = cache.dom().contains(k) && price_fresh(cache[k].1, now, ttl);
            &&& found.dom().contains(k) <==> asked && fresh
            &&& found.dom().contains(k) ==> found[k] == cache[k].0
            &&& need.contains(k) <==> asked && !fresh
        }),
    decreases coins.len(),
{
    if coins.len() > 0 {
        let rest = coins.drop_last();
        law_cache_lookup(cache, rest, now, ttl, k);
        let prev = cache_lookup(cache, rest, now, ttl);
        let c = coins.last()@;
        assert((exists|i: int| 0 <= i < coins.len() && (#[trigger] coins[i])@ == k) <==> (exists|i: int|
            0 <= i < rest.len() && (#[trigger] rest[i])@ == k) || c == k) by {
            if exists|i: int| 0 <= i < coins.len() && (#[trigger] coins[i])@ == k {
                let i = choose|i: int| 0 <= i < coins.len() && (#[trigger] coins[i])@ == k;
                if i < rest.len() {
                    assert(rest[i] == coins[i]);
                }
            }
            if exists|i: int| 0 <= i < rest.len() && (#[trigger] rest[i])@ == k {
                let i = choose|i: int| 0 <= i < rest.len() && (#[trigger] rest[i])@ == k;
                assert(coins[i] == rest[i]);
            }
            if c == k {
                assert(coins[coins.len() - 1]@ == k);
            }
        }
        assert(prev.1.push(c).contains(k) <==> prev.1.contains(k) || c == k) by {
            if prev.1.push(c).contains(k) {
                let j = choose|j: int| 0 <= j < prev.1.len() + 1 && prev.1.push(c)[j] == k;
                if j < prev.1.len() {
                    assert(prev.1[j] == k);
                }
            }
            if prev.1.contains(k) {
                let j = choose|j: int| 0 <= j < prev.1.len() && prev.1[j] == k;
                assert(prev.1.push(c)[j] == k);
            }
            assert(prev.1.push(c)[prev.1.len() as int] == c);
        }
    }
}

/// `x` is the coin and quantity of a held coin balance of `bs`.
pub open spec fn from_held_balance(bs: Seq<Balance>, x: (Seq<char>, Dec)) -> bool {
    exists|i: int| 0 <= i < bs.len() && is_held_coin(#[trigger] bs[i]) && x == (bs[i].currency@, holding_qty(bs[i]))
}

/// The holdings list exactly the coin balances that are not dust (not
/// KRW, worth at least 1000 KRW at the average buy price), each with its
/// free plus locked quantity.
pub proof fn law_holdings_are_the_held_coins(bs: Seq<Balance>)
    ensures
        forall|j: int| 0 <= j < held_coins(bs).len() ==> from_held_balance(bs, #[trigger] held_coins(bs)[j]),
        forall|i: int|
            0 <= i < bs.len() && is_held_coin(#[trigger] bs[i]) ==> held_coins(bs).contains(
                (bs[i].currency@, holding_qty(bs[i])),
            ),
        forall|j: int| 0 <= j < held_coins(bs).len() ==> (#[trigger] held_coins(bs)[j]).0 != "KRW"@,
    decreases bs.len(),
{
    if bs.len() > 0 {
        let rest = bs.drop_last();
        law_holdings_are_the_held_coins(rest);
        let h = held_coins(bs);
        let hr = held_coins(rest);
        let last = bs.last();
        let pair = (last.currency@, holding_qty(last));
        assert forall|j: int| 0 <= j < h.len() implies from_held_balance(bs, #[trigger] h[j]) by {
            if j < hr.len() {
                assert(h[j] == hr[j]);
                assert(from_held_balance(rest, hr[j]));
                let i = choose|i: int|
                    0 <= i < rest.len() && is_held_coin(#[trigger] rest[i]) && hr[j] == (
                        rest[i].currency@,
                        holding_qty(rest[i]),
                    );
                assert(bs[i] == rest[i]);
            } else {
                assert(bs[bs.len() - 1] == last);
            }
        }
        assert forall|i: int| 0 <= i < bs.len() && is_held_coin(#[trigger] bs[i]) implies h.contains(
            (bs[i].currency@, holding_qty(bs[i])),
        ) by {
            if i < rest.len() {
                assert(bs[i] == rest[i]);
                let x = (rest[i].currency@, holding_qty(rest[i]));
                assert(hr.contains(x));
                let j = choose|j: int| 0 <= j < hr.len() && hr[j] == x;
                if is_held_coin(last) {
                    assert(h[j] == x);
                } else {
                    assert(h == hr);
                }
            } else {
                assert(bs[i] == last);
                assert(h == hr.push(pair));
                assert(h[hr.len() as int] == pair);
            }
        }
        assert forall|j: int| 0 <= j < h.len() implies (#[trigger] h[j]).0 != "KRW"@ by {
            if j < hr.len() {
                assert(h[j] == hr[j]);
            }
        }
    }
}

} // verus!
