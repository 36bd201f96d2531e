//! The first stage of automatic coin selection: the coins listed on both
//! exchanges, without stablecoins and blacklisted coins, of which the half
//! with the larger 24h traded value is kept for the candle checks.

use crate::decimal::Dec;
use crate::keyed::StrMap;
use crate::monitor_core::{contains_name, has_name, names_distinct};
use crate::text::{strip_prefix, strip_suffix};
use vstd::prelude::*;

verus! {

/// The stablecoins, never selected.
pub open spec fn is_stablecoin(c: Seq<char>) -> bool {
    c == "USDT"@ || c == "USDC"@ || c == "DAI"@ || c == "TUSD"@ || c == "BUSD"@ || c == "FDUSD"@
        || c == "PYUSD"@ || c == "UST"@
}

/// Whether `c` is a stablecoin.
pub fn is_stablecoin_name(c: &String) -> (r: bool)
    ensures
        r == is_stablecoin(c@),
{
    *c == "USDT".to_string() || *c == "USDC".to_string() || *c == "DAI".to_string() || *c
        == "TUSD".to_string() || *c == "BUSD".to_string() || *c == "FDUSD".to_string() || *c
        == "PYUSD".to_string() || *c == "UST".to_string()
}

/// What `str::to_uppercase` returns for `s`.
pub uninterp spec fn uppercase_of(s: Seq<char>) -> Seq<char>;

/// Calls `str::to_uppercase` (Unicode upper case mapping).
#[verifier::external_body]
fn to_uppercase(s: &String) -> (r: String)
    ensures
        r@ == uppercase_of(s@),
{
    s.to_uppercase()
}

/// A ticker reduced to what the first stage reads.
#[derive(Clone, Debug)]
pub struct TickerVolume {
    /// Market code (`KRW-BTC` on Upbit, `BTCUSDT` on Bybit).
    pub market: String,
    /// Traded value over 24 hours.
    pub acc_trade_price_24h: Dec,
}

/// The coin of a market code: `KRW-<coin>` on Upbit, `<coin>USDT` on Bybit.
pub open spec fn market_coin(market: Seq<char>, upbit: bool) -> Option<Seq<char>> {
    if upbit {
        if crate::text::is_prefix("KRW-"@, market) {
            Some(market.subrange("KRW-"@.len() as int, market.len() as int))
        } else {
            None
        }
    } else if crate::text::is_suffix("USDT"@, market) {
        Some(market.subrange(0, market.len() - "USDT"@.len()))
    } else {
        None
    }
}

/// Traded value by coin; a later ticker of a coin replaces an earlier one.
pub open spec fn volume_map(tickers: Seq<TickerVolume>, upbit: bool) -> Map<Seq<char>, Dec>
    decreases tickers.len(),
{
    if tickers.len() == 0 {
        Map::empty()
    } else {
        let prev = volume_map(tickers.drop_last(), upbit);
        match market_coin(tickers.last().market@, upbit) {
            Some(c) => prev.insert(c, tickers.last().acc_trade_price_24h),
            None => prev,
        }
    }
}

fn coin_of(market: &String, upbit: bool) -> (r: Option<String>)
    ensures
        r is Some <==> market_coin(market@, upbit) is Some,
        r is Some ==> r->0@ == market_coin(market@, upbit)->0,
{
    proof {
        reveal_strlit("KRW-");
        reveal_strlit("USDT");
    }
    if upbit {
        strip_prefix(market.as_str(), "KRW-")
    } else {
        strip_suffix(market.as_str(), "USDT")
    }
}

fn build_volume_map(tickers: &[TickerVolume], upbit: bool) -> (r: StrMap<Dec>)
    ensures
        r@ == volume_map(tickers@, upbit),
{
    let mut m: StrMap<Dec> = StrMap::new();
    let mut i: usize = 0;
    while i < tickers.len()
        invariant
            i <= tickers.len(),
            m@ == volume_map(tickers@.take(i as int), upbit),
        decreases tickers.len() - i,
    {
        proof {
            assert(tickers@.take(i as int + 1).drop_last() =~= tickers@.take(i as int));
        }
        match coin_of(&tickers[i].market, upbit) {
            Some(c) => m.insert(c, tickers[i].acc_trade_price_24h),
            None => {},
        }
        i = i + 1;
    }
    proof {
        assert(tickers@.take(tickers.len() as int) =~= tickers@);
    }
    m
}

/// The blacklist in upper case.
pub open spec fn upper_names(v: Seq<String>) -> Seq<Seq<char>> {
    v.map_values(|s: String| uppercase_of(s@))
}

/// A coin that may be selected: listed on both exchanges, no stablecoin,
/// not blacklisted (compared in upper case).
pub open spec fn eligible(
    c: Seq<char>,
    up: Map<Seq<char>, Dec>,
    by: Map<Seq<char>, Dec>,
    blacklist: Seq<String>,
) -> bool {
    up.dom().contains(c) && by.dom().contains(c) && !is_stablecoin(c) && !upper_names(
        blacklist,
    ).contains(c)
}

/// The smaller of the two traded values of a coin.
pub open spec fn coin_volume(c: Seq<char>, up: Map<Seq<char>, Dec>, by: Map<Seq<char>, Dec>) -> Dec {
    Dec::min_of(up[c], by[c])
}

/// The eligible coins, each once, in the order of their first Upbit ticker,
/// with their traded values.
pub open spec fn candidates(
    upbit: Seq<TickerVolume>,
    up: Map<Seq<char>, Dec>,
    by: Map<Seq<char>, Dec>,
    blacklist: Seq<String>,
) -> Seq<(Seq<char>, Dec)>
    decreases upbit.len(),
{
    if upbit.len() == 0 {
        Seq::empty()
    } else {
        let prev = candidates(upbit.drop_last(), up, by, blacklist);
        match market_coin(upbit.last().market@, true) {
            Some(c) => if eligible(c, up, by, blacklist) && !prev.map_values(
                |p: (Seq<char>, Dec)| p.0,
            ).contains(c) {
                prev.push((c, coin_volume(c, up, by)))
            } else {
                prev
            },
            None => prev,
        }
    }
}

/// The candidates are eligible coins (on both exchanges, no stablecoin,
/// not blacklisted), each with the smaller of its two traded values, each
/// once; every eligible coin of an Upbit ticker is a candidate.
pub proof fn law_candidates(
    upbit: Seq<TickerVolume>,
    up: Map<Seq<char>, Dec>,
    by: Map<Seq<char>, Dec>,
    blacklist: Seq<String>,
)
    ensures
        ({
            let cs = candidates(upbit, up, by, blacklist);
            &&& forall|j: int| 0 <= j < cs.len() ==> eligible((#[trigger] cs[j]).0, up, by, blacklist) && cs[j].1
                == coin_volume(cs[j].0, up, by)
            &&& forall|a: int, b: int| 0 <= a < b < cs.len() ==> (#[trigger] cs[a]).0 != (#[trigger] cs[b]).0
            &&& forall|i: int|
                0 <= i < upbit.len() && (market_coin((#[trigger] upbit[i]).market@, true) matches Some(c)
                    && eligible(c, up, by, blacklist)) ==> exists|j: int|
                    0 <= j < cs.len() && cs[j].0 == market_coin(upbit[i].market@, true)->0
        }),
    decreases upbit.len(),
{
    if upbit.len() > 0 {
        let rest = upbit.drop_last();
        law_candidates(rest, up, by, blacklist);
        let prev = candidates(rest, up, by, blacklist);
        let cs = candidates(upbit, up, by, blacklist);
        let last = upbit.last();
        let names = prev.map_values(|p: (Seq<char>, Dec)| p.0);
        assert forall|c: Seq<char>| names.contains(c) <==> exists|j: int| 0 <= j < prev.len() && prev[j].0 == c by {
            if names.contains(c) {
                let j = choose|j: int| 0 <= j < names.len() && names[j] == c;
                assert(prev[j].0 == c);
            }
            if exists|j: int| 0 <= j < prev.len() && prev[j].0 == c {
                let j = choose|j: int| 0 <= j < prev.len() && prev[j].0 == c;
                assert(names[j] == c);
            }
        }
        assert forall|j: int| 0 <= j < prev.len() implies cs.len() > j && cs[j] == prev[j] by {
        }
        assert forall|i: int|
            0 <= i < upbit.len() && (market_coin((#[trigger] upbit[i]).market@, true) matches Some(c) && eligible(
                c,
                up,
                by,
                blacklist,
            )) implies exists|j: int| 0 <= j < cs.len() && cs[j].0 == market_coin(upbit[i].market@, true)->0 by {
            if i < rest.len() {
                assert(upbit[i] == rest[i]);
                let j = choose|j: int| 0 <= j < prev.len() && prev[j].0 == market_coin(rest[i].market@, true)->0;
                assert(cs[j] == prev[j]);
            } else {
                assert(upbit[i] == last);
                let c = market_coin(last.market@, true)->0;
                if names.contains(c) {
                    let j = choose|j: int| 0 <= j < prev.len() && prev[j].0 == c;
                    assert(cs[j] == prev[j]);
                } else {
                    assert(cs[prev.len() as int].0 == c);
                }
            }
        }
    }
}

/// Position of candidate `i` in a stable ascending sort by traded value:
/// the candidates with a smaller value, and the earlier ones with an equal
/// value, come before it.
pub open spec fn stable_rank(cs: Seq<(Seq<char>, Dec)>, i: int) -> int {
    (cs.filter(|p: (Seq<char>, Dec)| p.1.val() < cs[i].1.val()).len() + cs.take(i).filter(
        |p: (Seq<char>, Dec)| p.1.val() == cs[i].1.val(),
    ).len()) as int
}

/// The candidate whose stable rank is `r`.
pub open spec fn with_rank(cs: Seq<(Seq<char>, Dec)>, r: int) -> int {
    choose|i: int| 0 <= i < cs.len() && stable_rank(cs, i) == r
}

/// The candidates kept: the upper half of the stable ascending order by
/// traded value, that is the candidates of rank `n / 2` to `n - 1`, in that
/// order.
pub open spec fn upper_half(cs: Seq<(Seq<char>, Dec)>) -> Seq<Seq<char>> {
    let h = cs.len() / 2;
    Seq::new((cs.len() - h) as nat, |t: int| cs[with_rank(cs, h + t)].0)
}

/// The stable rank of candidate `i`.
fn rank_of(cs: &Vec<(String, Dec)>, i: usize) -> (r: usize)
    requires
        i < cs@.len(),
    ensures
        r == stable_rank(cand_view(cs@), i as int),
{
    let ghost cv = cand_view(cs@);
    let v = cs[i].1;
    let mut rank: usize = 0;
    let ghost mut below: nat = 0;
    let ghost mut equal_before: nat = 0;
    let mut j: usize = 0;
    while j < cs.len()
        invariant
            i < cs@.len(),
            cv == cand_view(cs@),
            v == cv[i as int].1,
            j <= cs.len(),
            below == cv.take(j as int).filter(|p: (Seq<char>, Dec)| p.1.val() < v.val()).len(),
            equal_before == cv.take(if j < i {
                j as int
            } else {
                i as int
            }).filter(|p: (Seq<char>, Dec)| p.1.val() == v.val()).len(),
            rank == below + equal_before,
            rank <= j,
        decreases cs.len() - j,
    {
        let w = cs[j].1;
        proof {
            let f1 = |p: (Seq<char>, Dec)| p.1.val() < v.val();
            let f2 = |p: (Seq<char>, Dec)| p.1.val() == v.val();
            assert(cv.take(j as int + 1) =~= cv.take(j as int).push(cv[j as int]));
            cv.take(j as int).lemma_filter_push(cv[j as int], f1);
            cv.take(j as int).lemma_filter_push(cv[j as int], f2);
            assert(cv[j as int].1 == w);
        }
        if w.lt(&v) {
            rank = rank + 1;
            proof {
                below = below + 1;
            }
        } else if j < i && w.value_eq(&v) {
            rank = rank + 1;
            proof {
                equal_before = equal_before + 1;
            }
        }
        j = j + 1;
    }
    proof {
        assert(cv.take(cs.len() as int) =~= cv);
    }
    rank
}

/// The coins and values of the candidate list.
pub open spec fn cand_view(v: Seq<(String, Dec)>) -> Seq<(Seq<char>, Dec)> {
    v.map_values(|p: (String, Dec)| (p.0@, p.1))
}

/// Whether `names` holds the name `c`.
fn has_coin(cs: &Vec<(String, Dec)>, c: &String) -> (r: bool)
    ensures
        r == cand_view(cs@).map_values(|p: (Seq<char>, Dec)| p.0).contains(c@),
{
    let ghost keys = cand_view(cs@).map_values(|p: (Seq<char>, Dec)| p.0);
    let mut i: usize = 0;
    while i < cs.len()
        invariant
            i <= cs.len(),
            keys == cand_view(cs@).map_values(|p: (Seq<char>, Dec)| p.0),
            forall|j: int| 0 <= j < i ==> keys[j] != c@,
        decreases cs.len() - i,
    {
        if cs[i].0 == *c {
            proof {
                assert(keys[i as int] == c@);
            }
            return true;
        }
        i = i + 1;
    }
    false
}

/// The candidate of stable rank `r`, which exists.
fn find_rank(cs: &Vec<(String, Dec)>, r: usize) -> (i: usize)
    requires
        exists|j: int| 0 <= j < cs@.len() && stable_rank(cand_view(cs@), j) == r,
    ensures
        i < cs@.len(),
        stable_rank(cand_view(cs@), i as int) == r,
{
    let mut i: usize = 0;
    while i < cs.len()
        invariant
            i <= cs.len(),
            forall|j: int| 0 <= j < i ==> stable_rank(cand_view(cs@), j) != r,
        decreases cs.len() - i,
    {
        if rank_of(cs, i) == r {
            return i;
        }
        i = i + 1;
    }
    proof {
        let j = choose|j: int| 0 <= j < cs@.len() && stable_rank(cand_view(cs@), j) == r;
        assert(stable_rank(cand_view(cs@), j) != r);
    }
    0
}

/// First stage of the coin selection: the eligible coins (listed on both
/// exchanges, no stablecoin, not blacklisted) in the upper half by the
/// smaller of their two 24h traded values, in ascending order of that value
/// (equal values in the order of the Upbit tickers).
pub fn volume_prefilter(
    upbit: &[TickerVolume],
    bybit: &[TickerVolume],
    blacklist: &[String],
) -> (r: Vec<String>)
    ensures
        ({
            let up = volume_map(upbit@, true);
            let by = volume_map(bybit@, false);
            r@.map_values(|s: String| s@) == upper_half(candidates(upbit@, up, by, blacklist@))
        }),
{
    let up = build_volume_map(upbit, true);
    let by = build_volume_map(bybit, false);
    let ghost upm = up@;
    let ghost bym = by@;
    let mut black: Vec<String> = Vec::new();
    let mut b: usize = 0;
    while b < blacklist.len()
        invariant
            b <= blacklist.len(),
            black@.map_values(|s: String| s@) == upper_names(blacklist@.take(b as int)),
        decreases blacklist.len() - b,
    {
        let ghost before = black@;
        black.push(to_uppercase(&blacklist[b]));
        proof {
            assert(black@.map_values(|s: String| s@) =~= before.map_values(|s: String| s@).push(
                uppercase_of(blacklist@[b as int]@),
            ));
            assert(upper_names(blacklist@.take(b as int + 1)) =~= upper_names(
                blacklist@.take(b as int),
            ).push(uppercase_of(blacklist@[b as int]@)));
        }
        b = b + 1;
    }
    proof {
        assert(blacklist@.take(blacklist.len() as int) =~= blacklist@);
    }
    let ghost bl = black@.map_values(|s: String| s@);
    let mut cands: Vec<(String, Dec)> = Vec::new();
    let mut i: usize = 0;
    while i < upbit.len()
        invariant
            i <= upbit.len(),
            upm == up@,
            bym == by@,
            upm == volume_map(upbit@, true),
            bym == volume_map(bybit@, false),
            bl == black@.map_values(|s: String| s@),
            bl == upper_names(blacklist@),
            cand_view(cands@) == candidates(upbit@.take(i as int), upm, bym, blacklist@),
        decreases upbit.len() - i,
    {
        proof {
            assert(upbit@.take(i as int + 1).drop_last() =~= upbit@.take(i as int));
        }
        match coin_of(&upbit[i].market, true) {
            Some(c) => {
                let listed = up.contains_key(c.as_str()) && by.contains_key(c.as_str());
                if listed && !is_stablecoin_name(&c) && !contains_name(black.as_slice(), &c)
                    && !has_coin(&cands, &c) {
                    let uv = *up.get(c.as_str()).unwrap();
                    let bv = *by.get(c.as_str()).unwrap();
                    let vol = uv.min(&bv);
                    let ghost before = cands@;
                    proof {
                        assert(has_name(black@, c@) == bl.contains(c@)) by {
                            if has_name(black@, c@) {
                                let k = choose|k: int| 0 <= k < black@.len() && #[trigger] black@[k]@ == c@;
                                assert(bl[k] == c@);
                            }
                            if bl.contains(c@) {
                                let k = choose|k: int| 0 <= k < bl.len() && bl[k] == c@;
                                assert(black@[k]@ == c@);
                            }
                        }
                    }
                    cands.push((c, vol));
                    proof {
                        assert(cand_view(cands@) =~= cand_view(before).push((c@, vol)));
                    }
                } else {
                    proof {
                        assert(has_name(black@, c@) == bl.contains(c@)) by {
                            if has_name(black@, c@) {
                                let k = choose|k: int| 0 <= k < black@.len() && #[trigger] black@[k]@ == c@;
                                assert(bl[k] == c@);
                            }
                            if bl.contains(c@) {
                                let k = choose|k: int| 0 <= k < bl.len() && bl[k] == c@;
                                assert(black@[k]@ == c@);
                            }
                        }
                    }
                }
            },
            None => {},
        }
        i = i + 1;
    }
    proof {
        assert(upbit@.take(upbit.len() as int) =~= upbit@);
    }
    let ghost cv = cand_view(cands@);
    let n = cands.len();
    let h = n / 2;
    let mut out: Vec<String> = Vec::new();
    let mut r: usize = h;
    while r < n
        invariant
            n == cands.len(),
            cv == cand_view(cands@),
            h == n / 2,
            h <= r <= n,
            out@.map_values(|s: String| s@) =~= Seq::new(
                (r - h) as nat,
                |t: int| cv[with_rank(cv, h + t)].0,
            ),
        decreases n - r,
    {
        proof {
            lemma_rank_onto(cv, r as int);
        }
        let i = find_rank(&cands, r);
        proof {
            let w = with_rank(cv, r as int);
            assert(0 <= w < n && stable_rank(cv, w) == r);
            if w != i as int {
                lemma_rank_injective(cv, w, i as int);
            }
        }
        let ghost before = out@;
        out.push(cands[i].0.clone());
        proof {
            assert(out@.map_values(|s: String| s@) =~= before.map_values(|s: String| s@).push(
                cv[i as int].0,
            ));
        }
        r = r + 1;
    }
    out
}

/// How many items of `s` satisfy `f`.
pub open spec fn count_where(s: Seq<(Seq<char>, Dec)>, f: spec_fn((Seq<char>, Dec)) -> bool) -> nat
    decreases s.len(),
{
    if s.len() == 0 {
        0
    } else {
        count_where(s.drop_last(), f) + if f(s.last()) {
            1nat
        } else {
            0nat
        }
    }
}

proof fn lemma_count_filter(s: Seq<(Seq<char>, Dec)>, f: spec_fn((Seq<char>, Dec)) -> bool)
    ensures
        s.filter(f).len() == count_where(s, f),
    decreases s.len(),
{
    if s.len() > 0 {
        lemma_count_filter(s.drop_last(), f);
        assert(s =~= s.drop_last().push(s.last()));
        s.drop_last().lemma_filter_push(s.last(), f);
    }
}

proof fn lemma_count_mono(
    s: Seq<(Seq<char>, Dec)>,
    f: spec_fn((Seq<char>, Dec)) -> bool,
    g: spec_fn((Seq<char>, Dec)) -> bool,
)
    requires
        forall|x: (Seq<char>, Dec)| #[trigger] f(x) ==> g(x),
    ensures
        count_where(s, f) <= count_where(s, g),
    decreases s.len(),
{
    if s.len() > 0 {
        lemma_count_mono(s.drop_last(), f, g);
    }
}

proof fn lemma_count_split(
    s: Seq<(Seq<char>, Dec)>,
    f: spec_fn((Seq<char>, Dec)) -> bool,
    g: spec_fn((Seq<char>, Dec)) -> bool,
    h: spec_fn((Seq<char>, Dec)) -> bool,
)
    requires
        forall|x: (Seq<char>, Dec)| #[trigger] f(x) == (g(x) || h(x)),
        forall|x: (Seq<char>, Dec)| !(#[trigger] g(x) && h(x)),
    ensures
        count_where(s, f) == count_where(s, g) + count_where(s, h),
    decreases s.len(),
{
    if s.len() > 0 {
        lemma_count_split(s.drop_last(), f, g, h);
        let x = s.last();
        assert(f(x) == (g(x) || h(x)));
        assert(!(g(x) && h(x)));
    }
}

proof fn lemma_count_bound(s: Seq<(Seq<char>, Dec)>, f: spec_fn((Seq<char>, Dec)) -> bool)
    ensures
        count_where(s, f) <= s.len(),
    decreases s.len(),
{
    if s.len() > 0 {
        lemma_count_bound(s.drop_last(), f);
    }
}

/// A prefix that misses an item satisfying `f` counts at least one less.
proof fn lemma_count_prefix(
    s: Seq<(Seq<char>, Dec)>,
    f: spec_fn((Seq<char>, Dec)) -> bool,
    i: int,
    j: int,
)
    requires
        0 <= i < j <= s.len(),
        f(s[i]),
    ensures
        count_where(s.take(i), f) + 1 <= count_where(s.take(j), f),
    decreases j - i,
{
    assert(s.take(j).drop_last() =~= s.take(j - 1));
    assert(s.take(j).last() == s[j - 1]);
    if j > i + 1 {
        lemma_count_prefix(s, f, i, j - 1);
    }
}

/// Every stable rank lies in `[0, n)`.
proof fn lemma_rank_bound(cs: Seq<(Seq<char>, Dec)>, i: int)
    requires
        0 <= i < cs.len(),
    ensures
        0 <= stable_rank(cs, i) < cs.len(),
{
    let v = cs[i].1.val();
    let lt = |p: (Seq<char>, Dec)| p.1.val() < v;
    let eq = |p: (Seq<char>, Dec)| p.1.val() == v;
    let le = |p: (Seq<char>, Dec)| p.1.val() <= v;
    lemma_count_filter(cs, lt);
    lemma_count_filter(cs.take(i), eq);
    lemma_count_split(cs, le, lt, eq);
    lemma_count_bound(cs, le);
    lemma_count_prefix(cs, eq, i, cs.len() as int);
    assert(cs.take(cs.len() as int) =~= cs);
}

/// A candidate with a smaller value, or an equal value and an earlier
/// place, has a smaller stable rank.
proof fn lemma_rank_lt(cs: Seq<(Seq<char>, Dec)>, i: int, j: int)
    requires
        0 <= i < cs.len(),
        0 <= j < cs.len(),
        cs[i].1.val() < cs[j].1.val() || (cs[i].1.val() == cs[j].1.val() && i < j),
    ensures
        stable_rank(cs, i) < stable_rank(cs, j),
{
    let vi = cs[i].1.val();
    let vj = cs[j].1.val();
    let lti = |p: (Seq<char>, Dec)| p.1.val() < vi;
    let eqi = |p: (Seq<char>, Dec)| p.1.val() == vi;
    let lei = |p: (Seq<char>, Dec)| p.1.val() <= vi;
    let ltj = |p: (Seq<char>, Dec)| p.1.val() < vj;
    let eqj = |p: (Seq<char>, Dec)| p.1.val() == vj;
    lemma_count_filter(cs, lti);
    lemma_count_filter(cs, ltj);
    lemma_count_filter(cs.take(i), eqi);
    lemma_count_filter(cs.take(j), eqj);
    if vi < vj {
        lemma_count_split(cs, lei, lti, eqi);
        lemma_count_mono(cs, lei, ltj);
        lemma_count_prefix(cs, eqi, i, cs.len() as int);
        assert(cs.take(cs.len() as int) =~= cs);
    } else {
        lemma_count_mono(cs, lti, ltj);
        lemma_count_mono(cs, ltj, lti);
        assert(eqi =~= eqj);
        lemma_count_prefix(cs, eqi, i, j);
    }
}

/// Two different candidates have different stable ranks.
proof fn lemma_rank_injective(cs: Seq<(Seq<char>, Dec)>, a: int, b: int)
    requires
        0 <= a < cs.len(),
        0 <= b < cs.len(),
        a != b,
    ensures
        stable_rank(cs, a) != stable_rank(cs, b),
{
    if cs[a].1.val() < cs[b].1.val() || (cs[a].1.val() == cs[b].1.val() && a < b) {
        lemma_rank_lt(cs, a, b);
    } else {
        lemma_rank_lt(cs, b, a);
    }
}

/// Every rank in `[0, n)` is the rank of some candidate.
proof fn lemma_rank_onto(cs: Seq<(Seq<char>, Dec)>, r: int)
    requires
        0 <= r < cs.len(),
    ensures
        exists|i: int| 0 <= i < cs.len() && stable_rank(cs, i) == r,
{
    let n = cs.len() as int;
    let all = vstd::set_lib::set_int_range(0, n);
    let rk = |x: int| stable_rank(cs, x);
    vstd::set_lib::lemma_int_range(0, n);
    assert forall|a: int, b: int|
        all.contains(a) && all.contains(b) && #[trigger] rk(a) == #[trigger] rk(b) implies a == b by {
        if a != b {
            lemma_rank_injective(cs, a, b);
        }
    }
    vstd::set_lib::lemma_map_size(all, all.map(rk), rk);
    assert forall|y: int| #[trigger] all.map(rk).contains(y) implies all.contains(y) by {
        let x = choose|x: int| all.contains(x) && rk(x) == y;
        lemma_rank_bound(cs, x);
    }
    vstd::set_lib::lemma_subset_equality(all.map(rk), all);
    assert(all.contains(r));
    assert(all.map(rk).contains(r));
    let i = choose|x: int| all.contains(x) && rk(x) == r;
    assert(0 <= i < n && stable_rank(cs, i) == r);
}

/// The volume prefilter keeps the upper half of the candidates: of `n`
/// candidates it keeps `n - n / 2` (it drops the lower half, rounded down),
/// the `t`-th kept one is the candidate of rank `n / 2 + t`, they come in
/// ascending order of traded value, and no kept candidate has a smaller
/// traded value than a dropped one.
pub proof fn law_prefilter_keeps_upper_half(cs: Seq<(Seq<char>, Dec)>, t: int, u: int, j: int)
    ensures
        upper_half(cs).len() == cs.len() - cs.len() / 2,
        0 <= t < upper_half(cs).len() ==> ({
            let i = with_rank(cs, cs.len() / 2 + t);
            &&& 0 <= i < cs.len()
            &&& stable_rank(cs, i) == cs.len() / 2 + t
            &&& upper_half(cs)[t] == cs[i].0
            &&& (0 <= j < cs.len() && stable_rank(cs, j) < cs.len() / 2 ==> cs[i].1.val()
                >= cs[j].1.val())
        }),
        0 <= t < u < upper_half(cs).len() ==> cs[with_rank(cs, cs.len() / 2 + t)].1.val() <= cs[with_rank(
            cs,
            cs.len() / 2 + u,
        )].1.val(),
{
    let h = cs.len() / 2;
    if 0 <= t < upper_half(cs).len() {
        lemma_rank_onto(cs, h + t);
        let i = with_rank(cs, h + t);
        if 0 <= j < cs.len() && stable_rank(cs, j) < h && cs[i].1.val() < cs[j].1.val() {
            lemma_rank_lt(cs, i, j);
        }
    }
    if 0 <= t < u < upper_half(cs).len() {
        lemma_rank_onto(cs, h + t);
        lemma_rank_onto(cs, h + u);
        let a = with_rank(cs, h + t);
        let b = with_rank(cs, h + u);
        if cs[b].1.val() < cs[a].1.val() {
            lemma_rank_lt(cs, b, a);
        }
    }
}

} // verus!
