//! Order book snapshots by exchange and coin, and the per-coin "computing"
//! flags that let at most one task fetch a coin's book at a time.
//!
//! Time is handed in by the caller as milliseconds of a monotonic clock.

use crate::decimal::Dec;
use crate::keyed::StrMap;
use vstd::prelude::*;

verus! {

/// Exchange identifier.
#[derive(Clone, Copy, Debug, PartialEq, Eq, Hash, Structural)]
pub enum Exchange {
    /// Upbit (KRW spot).
    Upbit,
    /// Bybit (USDT linear futures).
    Bybit,
}

/// One price level of a book.
#[derive(Clone, Copy, Debug)]
pub struct BookLevel {
    pub price: Dec,
    pub size: Dec,
}

/// An order book snapshot.
#[derive(Clone, Debug)]
pub struct OrderBook {
    pub market: String,
    /// Asks, best (lowest) first.
    pub asks: Vec<BookLevel>,
    /// Bids, best (highest) first.
    pub bids: Vec<BookLevel>,
    pub total_ask_size: Dec,
    pub total_bid_size: Dec,
    /// Exchange timestamp, milliseconds since the Unix epoch.
    pub timestamp_ms: i64,
}

/// A level is usable when both its price and its size are positive.
pub open spec fn level_usable(l: BookLevel) -> bool {
    l.price.val() > 0 && l.size.val() > 0
}

/// The usable levels of `s`, in their order.
pub open spec fn usable_levels(s: Seq<BookLevel>) -> Seq<BookLevel>
    decreases s.len(),
{
    if s.len() == 0 {
        Seq::empty()
    } else if level_usable(s.last()) {
        usable_levels(s.drop_last()).push(s.last())
    } else {
        usable_levels(s.drop_last())
    }
}

/// The usable levels are levels of the book with a positive price and
/// size, and every such level of the book is kept.
pub proof fn law_usable_levels(s: Seq<BookLevel>)
    ensures
        forall|j: int| 0 <= j < usable_levels(s).len() ==> level_usable(#[trigger] usable_levels(s)[j]) && s.contains(
            usable_levels(s)[j],
        ),
        forall|i: int| 0 <= i < s.len() && level_usable(#[trigger] s[i]) ==> usable_levels(s).contains(s[i]),
        usable_levels(s).len() <= s.len(),
    decreases s.len(),
{
    if s.len() > 0 {
        let rest = s.drop_last();
        law_usable_levels(rest);
        let u = usable_levels(s);
        let ur = usable_levels(rest);
        assert forall|j: int| 0 <= j < u.len() implies level_usable(#[trigger] u[j]) && s.contains(u[j]) by {
            if j < ur.len() {
                assert(u[j] == ur[j]);
                let i = choose|i: int| 0 <= i < rest.len() && rest[i] == ur[j];
                assert(s[i] == rest[i]);
            } else {
                assert(s[s.len() - 1] == s.last());
            }
        }
        assert forall|i: int| 0 <= i < s.len() && level_usable(#[trigger] s[i]) implies u.contains(s[i]) by {
            if i < rest.len() {
                assert(s[i] == rest[i]);
                let j = choose|j: int| 0 <= j < ur.len() && ur[j] == rest[i];
                if level_usable(s.last()) {
                    assert(u[j] == ur[j]);
                }
            } else {
                assert(s[i] == s.last());
                assert(u[ur.len() as int] == s.last());
            }
        }
    }
}

/// The asks (`is_asks`) or the bids of `ob` without the levels whose price
/// or size is not positive.
pub fn usable_book_levels(ob: &OrderBook, is_asks: bool) -> (r: Vec<BookLevel>)
    ensures
        r@ == usable_levels(if is_asks { ob.asks@ } else { ob.bids@ }),
{
    let levels = if is_asks {
        &ob.asks
    } else {
        &ob.bids
    };
    let ghost s = levels@;
    let zero = Dec::zero();
    let mut out: Vec<BookLevel> = Vec::new();
    let mut i: usize = 0;
    while i < levels.len()
        invariant
            s == levels@,
            i <= levels.len(),
            zero.val() == 0,
            out@ == usable_levels(s.take(i as int)),
        decreases levels.len() - i,
    {
        let l = levels[i];
        proof {
            assert(s.take(i as int + 1).drop_last() =~= s.take(i as int));
            assert(s.take(i as int + 1).last() == l);
        }
        if l.price.gt(&zero) && l.size.gt(&zero) {
            out.push(l);
        }
        i = i + 1;
    }
    proof {
        assert(s.take(levels.len() as int) =~= s);
    }
    out
}

/// A cached snapshot with the time it was fetched.
#[derive(Clone, Debug)]
pub struct CachedOrderBook {
    pub orderbook: OrderBook,
    /// Monotonic clock reading at the fetch, in milliseconds.
    pub fetched_at_ms: u64,
}

/// Whole seconds elapsed from `fetched` to `now` (zero when the clock reads
/// earlier than the fetch).
pub open spec fn age_secs(fetched: u64, now: u64) -> int {
    if now >= fetched {
        (now - fetched) / 1000
    } else {
        0
    }
}

/// Whole seconds elapsed since the fetch.
fn elapsed_secs(fetched: u64, now: u64) -> (r: u64)
    ensures
        r == age_secs(fetched, now),
{
    if now >= fetched {
        (now - fetched) / 1000
    } else {
        0
    }
}

/// Snapshots by exchange and coin.
pub struct ObCacheData {
    upbit: StrMap<CachedOrderBook>,
    bybit: StrMap<CachedOrderBook>,
}

impl ObCacheData {
    /// The snapshots held for `ex`, by coin.
    pub closed spec fn books(&self, ex: Exchange) -> Map<Seq<char>, CachedOrderBook> {
        match ex {
            Exchange::Upbit => self.upbit.view(),
            Exchange::Bybit => self.bybit.view(),
        }
    }

    /// Whether a snapshot of `coin` on `ex` is held and younger than
    /// `max_age_sec` whole seconds at `now`.
    pub open spec fn fresh(&self, ex: Exchange, coin: Seq<char>, max_age_sec: u64, now: u64) -> bool {
        self.books(ex).dom().contains(coin) && age_secs(
            self.books(ex)[coin].fetched_at_ms,
            now,
        ) < max_age_sec
    }

    /// An empty cache.
    pub fn new() -> (r: ObCacheData)
        ensures
            r.books(Exchange::Upbit) == Map::<Seq<char>, CachedOrderBook>::empty(),
            r.books(Exchange::Bybit) == Map::<Seq<char>, CachedOrderBook>::empty(),
    {
        ObCacheData { upbit: StrMap::new(), bybit: StrMap::new() }
    }

    /// Stores `ob` as the snapshot of `coin` on `ex`, fetched at `now_ms`.
    pub fn update(&mut self, ex: Exchange, coin: &str, ob: OrderBook, now_ms: u64)
        ensures
            final(self).books(ex) == old(self).books(ex).insert(
                coin@,
                CachedOrderBook { orderbook: ob, fetched_at_ms: now_ms },
            ),
            forall|other: Exchange| other != ex ==> final(self).books(other) == old(self).books(other),
    {
        let cached = CachedOrderBook { orderbook: ob, fetched_at_ms: now_ms };
        match ex {
            Exchange::Upbit => self.upbit.insert(coin.to_string(), cached),
            Exchange::Bybit => self.bybit.insert(coin.to_string(), cached),
        }
    }

    /// The snapshot of `coin` on `ex`.
    pub fn get(&self, ex: Exchange, coin: &str) -> (r: Option<&CachedOrderBook>)
        ensures
            r is None <==> !self.books(ex).dom().contains(coin@),
            r is Some ==> *r->0 == self.books(ex)[coin@],
    {
        match ex {
            Exchange::Upbit => self.upbit.get(coin),
            Exchange::Bybit => self.bybit.get(coin),
        }
    }

    /// Whether the snapshot of `coin` on `ex` is younger than `max_age_sec`
    /// whole seconds at `now_ms`; `false` when none is held.
    pub fn is_fresh(&self, ex: Exchange, coin: &str, max_age_sec: u64, now_ms: u64) -> (r: bool)
        ensures
            r == self.fresh(ex, coin@, max_age_sec, now_ms),
    {
        match self.get(ex, coin) {
            Some(cached) => elapsed_secs(cached.fetched_at_ms, now_ms) < max_age_sec,
            None => false,
        }
    }

    /// Drops the snapshots of `coin` on both exchanges.
    pub fn remove_coin(&mut self, coin: &str)
        ensures
            forall|ex: Exchange| final(self).books(ex) == old(self).books(ex).remove(coin@),
    {
        self.upbit.remove(coin);
        self.bybit.remove(coin);
    }
}

impl Default for ObCacheData {
    fn default() -> (r: ObCacheData)
        ensures
            r.books(Exchange::Upbit) == Map::<Seq<char>, CachedOrderBook>::empty(),
            r.books(Exchange::Bybit) == Map::<Seq<char>, CachedOrderBook>::empty(),
    {
        ObCacheData::new()
    }
}

/// The exchange on the other side of the spread from `ex`.
pub open spec fn opposite_of(ex: Exchange) -> Exchange {
    match ex {
        Exchange::Upbit => Exchange::Bybit,
        Exchange::Bybit => Exchange::Upbit,
    }
}

/// The exchange on the other side of the spread from `ex`.
pub fn opposite(ex: Exchange) -> (r: Exchange)
    ensures
        r == opposite_of(ex),
        r != ex,
{
    match ex {
        Exchange::Upbit => Exchange::Bybit,
        Exchange::Bybit => Exchange::Upbit,
    }
}

/// A tick of `coin` may be evaluated: no evaluation of the coin is in
/// progress, neither for this exchange (`own`) nor for the other one.
pub open spec fn claim_ok(own: Map<Seq<char>, bool>, other: Map<Seq<char>, bool>, coin: Seq<char>) -> bool {
    !flag_in(own, coin) && !flag_in(other, coin)
}

/// Whether `m` marks `coin` as being computed.
pub open spec fn flag_in(m: Map<Seq<char>, bool>, coin: Seq<char>) -> bool {
    m.dom().contains(coin) && m[coin]
}

/// The flags after a check-and-set of `coin`: unchanged when it was already
/// set, otherwise set.
pub open spec fn try_set_map(m: Map<Seq<char>, bool>, coin: Seq<char>) -> Map<Seq<char>, bool> {
    if flag_in(m, coin) {
        m
    } else {
        m.insert(coin, true)
    }
}

/// Per-exchange, per-coin flags marking a book fetch in progress.
pub struct ComputingFlags {
    upbit: StrMap<bool>,
    bybit: StrMap<bool>,
}

impl ComputingFlags {
    /// The flags of `ex`, by coin.
    pub closed spec fn flags(&self, ex: Exchange) -> Map<Seq<char>, bool> {
        match ex {
            Exchange::Upbit => self.upbit.view(),
            Exchange::Bybit => self.bybit.view(),
        }
    }

    /// No flag is held.
    pub fn new() -> (r: ComputingFlags)
        ensures
            r.flags(Exchange::Upbit) == Map::<Seq<char>, bool>::empty(),
            r.flags(Exchange::Bybit) == Map::<Seq<char>, bool>::empty(),
    {
        ComputingFlags { upbit: StrMap::new(), bybit: StrMap::new() }
    }

    fn map_get(m: &StrMap<bool>, coin: &str) -> (r: bool)
        ensures
            r == flag_in(m.view(), coin@),
    {
        match m.get(coin) {
            Some(v) => *v,
            None => false,
        }
    }

    /// Check-and-set: `true` when a fetch of `coin` on `ex` is already in
    /// progress (the caller skips); otherwise marks it and returns `false`.
    pub fn try_set_computing(&mut self, ex: Exchange, coin: &str) -> (r: bool)
        ensures
            r == flag_in(old(self).flags(ex), coin@),
            final(self).flags(ex) == try_set_map(old(self).flags(ex), coin@),
            forall|other: Exchange| other != ex ==> final(self).flags(other) == old(self).flags(other),
    {
        match ex {
            Exchange::Upbit => {
                if Self::map_get(&self.upbit, coin) {
                    true
                } else {
                    self.upbit.insert(coin.to_string(), true);
                    false
                }
            },
            Exchange::Bybit => {
                if Self::map_get(&self.bybit, coin) {
                    true
                } else {
                    self.bybit.insert(coin.to_string(), true);
                    false
                }
            },
        }
    }

    /// Stores `value` as the flag of `coin` on `ex`.
    fn set(&mut self, ex: Exchange, coin: &str, value: bool)
        ensures
            final(self).flags(ex) == old(self).flags(ex).insert(coin@, value),
            forall|other: Exchange| other != ex ==> final(self).flags(other) == old(self).flags(other),
    {
        match ex {
            Exchange::Upbit => self.upbit.insert(coin.to_string(), value),
            Exchange::Bybit => self.bybit.insert(coin.to_string(), value),
        }
    }

    /// Marks the fetch of `coin` on `ex` as finished.
    pub fn clear_computing(&mut self, ex: Exchange, coin: &str)
        ensures
            final(self).flags(ex) == old(self).flags(ex).insert(coin@, false),
            forall|other: Exchange| other != ex ==> final(self).flags(other) == old(self).flags(other),
    {
        self.set(ex, coin, false);
    }

    /// Drops the flags of `coin` on both exchanges.
    pub fn remove_coin(&mut self, coin: &str)
        ensures
            forall|ex: Exchange| final(self).flags(ex) == old(self).flags(ex).remove(coin@),
    {
        self.upbit.remove(coin);
        self.bybit.remove(coin);
    }

    /// Claims the evaluation of a tick of `coin` that came from `ex`: the
    /// check-and-set of the flag on `ex`, then the check of the other
    /// exchange, whose flag being set undoes the claim.  `true` when the
    /// caller may go on; a refused claim leaves every flag value as it was.
    pub fn try_claim(&mut self, ex: Exchange, coin: &str) -> (claimed: bool)
        ensures
            claimed == claim_ok(old(self).flags(ex), old(self).flags(opposite_of(ex)), coin@),
            claimed ==> final(self).flags(ex) == old(self).flags(ex).insert(coin@, true),
            !claimed ==> forall|c: Seq<char>|
                flag_in(#[trigger] final(self).flags(ex), c) == flag_in(old(self).flags(ex), c),
            forall|other: Exchange| other != ex ==> final(self).flags(other) == old(self).flags(other),
    {
        if self.try_set_computing(ex, coin) {
            return false;
        }
        if self.is_computing(opposite(ex), coin) {
            self.clear_computing(ex, coin);
            return false;
        }
        true
    }

    /// Whether a fetch of `coin` on `ex` is in progress.
    pub fn is_computing(&self, ex: Exchange, coin: &str) -> (r: bool)
        ensures
            r == flag_in(self.flags(ex), coin@),
    {
        match ex {
            Exchange::Upbit => Self::map_get(&self.upbit, coin),
            Exchange::Bybit => Self::map_get(&self.bybit, coin),
        }
    }
}

impl Default for ComputingFlags {
    fn default() -> (r: ComputingFlags)
        ensures
            r.flags(Exchange::Upbit) == Map::<Seq<char>, bool>::empty(),
            r.flags(Exchange::Bybit) == Map::<Seq<char>, bool>::empty(),
    {
        ComputingFlags::new()
    }
}

/// Snapshots together with their computing flags.
pub struct OrderBookCache {
    data: ObCacheData,
    computing: ComputingFlags,
}

impl OrderBookCache {
    /// The snapshots held for `ex`, by coin.
    pub closed spec fn books(&self, ex: Exchange) -> Map<Seq<char>, CachedOrderBook> {
        self.data.books(ex)
    }

    /// The computing flags of `ex`, by coin.
    pub closed spec fn flags(&self, ex: Exchange) -> Map<Seq<char>, bool> {
        self.computing.flags(ex)
    }

    /// An empty cache with no flag set.
    pub fn new() -> (r: OrderBookCache)
        ensures
            forall|ex: Exchange| r.books(ex) == Map::<Seq<char>, CachedOrderBook>::empty(),
            forall|ex: Exchange| r.flags(ex) == Map::<Seq<char>, bool>::empty(),
    {
        let r = OrderBookCache { data: ObCacheData::new(), computing: ComputingFlags::new() };
        r
    }

    /// Stores `ob` as the snapshot of `coin` on `ex`, fetched at `now_ms`.
    pub fn update(&mut self, ex: Exchange, coin: &str, ob: OrderBook, now_ms: u64)
        ensures
            final(self).books(ex) == old(self).books(ex).insert(
                coin@,
                CachedOrderBook { orderbook: ob, fetched_at_ms: now_ms },
            ),
            forall|other: Exchange| other != ex ==> final(self).books(other) == old(self).books(other),
            forall|e: Exchange| final(self).flags(e) == old(self).flags(e),
    {
        self.data.update(ex, coin, ob, now_ms);
    }

    /// The snapshot of `coin` on `ex`.
    pub fn get(&self, ex: Exchange, coin: &str) -> (r: Option<&CachedOrderBook>)
        ensures
            r is None <==> !self.books(ex).dom().contains(coin@),
            r is Some ==> *r->0 == self.books(ex)[coin@],
    {
        self.data.get(ex, coin)
    }

    /// Whether the snapshot of `coin` on `ex` is younger than `max_age_sec`
    /// whole seconds at `now_ms`; `false` when none is held.
    pub fn is_fresh(&self, ex: Exchange, coin: &str, max_age_sec: u64, now_ms: u64) -> (r: bool)
        ensures
            r == (self.books(ex).dom().contains(coin@) && age_secs(
                self.books(ex)[coin@].fetched_at_ms,
                now_ms,
            ) < max_age_sec),
    {
        self.data.is_fresh(ex, coin, max_age_sec, now_ms)
    }

    /// Whether a fetch of `coin` on `ex` is marked in progress.
    pub fn is_computing(&self, ex: Exchange, coin: &str) -> (r: bool)
        ensures
            r == flag_in(self.flags(ex), coin@),
    {
        self.computing.is_computing(ex, coin)
    }

    /// Stores `value` as the computing flag of `coin` on `ex`.
    pub fn set_computing(&mut self, ex: Exchange, coin: &str, value: bool)
        ensures
            final(self).flags(ex) == old(self).flags(ex).insert(coin@, value),
            forall|other: Exchange| other != ex ==> final(self).flags(other) == old(self).flags(other),
            forall|e: Exchange| final(self).books(e) == old(self).books(e),
    {
        self.computing.set(ex, coin, value);
    }
}

impl Default for OrderBookCache {
    fn default() -> (r: OrderBookCache)
        ensures
            forall|ex: Exchange| r.books(ex) == Map::<Seq<char>, CachedOrderBook>::empty(),
            forall|ex: Exchange| r.flags(ex) == Map::<Seq<char>, bool>::empty(),
    {
        OrderBookCache::new()
    }
}

/// A check-and-set that succeeds (returns `false`) leaves the flag set, so
/// the next check-and-set of the same coin is refused: at most one task
/// fetches a coin's book at a time.
pub proof fn law_try_set_is_exclusive(m: Map<Seq<char>, bool>, coin: Seq<char>)
    ensures
        !flag_in(m, coin) ==> flag_in(try_set_map(m, coin), coin),
        try_set_map(try_set_map(m, coin), coin) == try_set_map(m, coin),
{
}

/// Clearing a flag lets the next check-and-set of that coin succeed, and
/// touches no other coin.
pub proof fn law_clear_reopens(m: Map<Seq<char>, bool>, coin: Seq<char>, other: Seq<char>)
    ensures
        !flag_in(m.insert(coin, false), coin),
        other != coin ==> flag_in(m.insert(coin, false), other) == flag_in(m, other),
        other != coin ==> flag_in(try_set_map(m, coin), other) == flag_in(m, other),
{
}

/// A successful claim shuts out every other claim of the same coin, from
/// either exchange, until its flag is cleared.
pub proof fn law_claim_is_exclusive(
    own: Map<Seq<char>, bool>,
    other: Map<Seq<char>, bool>,
    coin: Seq<char>,
)
    requires
        claim_ok(own, other, coin),
    ensures
        !claim_ok(own.insert(coin, true), other, coin),
        !claim_ok(other, own.insert(coin, true), coin),
        claim_ok(own.insert(coin, true).insert(coin, false), other, coin),
{
}

} // verus!
