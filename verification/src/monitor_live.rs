//! Pieces of the live execution policy: recognising an Upbit rejection of
//! immediate-or-cancel orders, and the per-coin cooldown that follows
//! repeated rejections.

use crate::keyed::StrMap;
use crate::text::occurs_in;
use vstd::prelude::*;

verus! {

/// ASCII lower case of one character.
pub open spec fn ascii_lower(c: char) -> char {
    if 'A' <= c && c <= 'Z' {
        ((c as u32) + 32) as char
    } else {
        c
    }
}

/// ASCII lower case of a text (`str::to_ascii_lowercase`).
pub open spec fn ascii_lowercase(s: Seq<char>) -> Seq<char> {
    s.map_values(|c: char| ascii_lower(c))
}

fn lower_char(c: char) -> (r: char)
    ensures
        r == ascii_lower(c),
{
    if 'A' <= c && c <= 'Z' {
        let code: u8 = (c as u8) + 32;
        proof {
            assert((c as u32) + 32 == code as u32);
        }
        code as char
    } else {
        c
    }
}

/// `s.to_ascii_lowercase()`.
pub fn to_ascii_lowercase(s: &str) -> (r: String)
    ensures
        r@ == ascii_lowercase(s@),
{
    let n = s.unicode_len();
    let mut out = String::new();
    let mut i: usize = 0;
    while i < n
        invariant
            n == s@.len(),
            i <= n,
            out@ == ascii_lowercase(s@.take(i as int)),
        decreases n - i,
    {
        let c = lower_char(s.get_char(i));
        let piece = char_string(c);
        out.append(piece.as_str());
        proof {
            assert(ascii_lowercase(s@.take(i as int + 1)) =~= ascii_lowercase(s@.take(i as int))
                + seq![c]);
        }
        i = i + 1;
    }
    proof {
        assert(s@.take(n as int) =~= s@);
    }
    out
}

/// The text made of the one character `c`.
#[verifier::external_body]
fn char_string(c: char) -> (r: String)
    ensures
        r@ == seq![c],
{
    c.to_string()
}

/// Phrases by which Upbit rejects an immediate-or-cancel order.
pub open spec fn is_ioc_rejection(message: Seq<char>) -> bool {
    let lower = ascii_lowercase(message);
    occurs_in("time_in_force"@, lower) || occurs_in("ioc"@, lower) || occurs_in(
        "not supported"@,
        lower,
    ) || occurs_in("validation"@, lower) || occurs_in("ord_type"@, lower)
}

/// Whether `message` reads as an Upbit rejection of an immediate-or-cancel
/// order (compared in ASCII lower case).
pub fn is_upbit_ioc_rejection_message(message: &str) -> (r: bool)
    ensures
        r == is_ioc_rejection(message@),
{
    let lower = to_ascii_lowercase(message);
    let l = lower.as_str();
    crate::text::contains(l, "time_in_force") || crate::text::contains(l, "ioc")
        || crate::text::contains(l, "not supported") || crate::text::contains(l, "validation")
        || crate::text::contains(l, "ord_type")
}

/// Rejections of a coin's immediate-or-cancel orders in a row, and the end
/// of its cooldown (milliseconds since the epoch).
#[derive(Debug, Clone, Copy, PartialEq, Eq, Structural)]
pub struct IocRejectState {
    pub consecutive_rejects: u32,
    pub cooldown_until_ms: Option<i64>,
}

/// The state after one more rejection, and the cooldown it starts: the
/// count goes up by one (saturating); when it reaches `block_count`, entries
/// of the coin are blocked for `cooldown_minutes` from `now_ms`.
pub open spec fn after_reject(
    st: IocRejectState,
    block_count: u32,
    cooldown_minutes: u64,
    now_ms: i64,
) -> (IocRejectState, Option<i64>) {
    let count = if st.consecutive_rejects == u32::MAX {
        u32::MAX
    } else {
        (st.consecutive_rejects + 1) as u32
    };
    if count >= block_count {
        let until = (now_ms + cooldown_minutes * 60000) as i64;
        (IocRejectState { consecutive_rejects: count, cooldown_until_ms: Some(until) }, Some(until))
    } else {
        (IocRejectState { consecutive_rejects: count, ..st }, None)
    }
}

/// The cooldown of `coin` at `now`, and the states after looking it up: a
/// running cooldown is reported; an expired one is reset (count back to
/// zero, no cooldown).
pub open spec fn cooldown_check(m: Map<Seq<char>, IocRejectState>, coin: Seq<char>, now: i64) -> (
    Option<i64>,
    Map<Seq<char>, IocRejectState>,
) {
    if m.dom().contains(coin) {
        match m[coin].cooldown_until_ms {
            Some(until) => if until > now {
                (Some(until), m)
            } else {
                (None, m.insert(coin, IocRejectState { consecutive_rejects: 0, cooldown_until_ms: None }))
            },
            None => (None, m),
        }
    } else {
        (None, m)
    }
}

/// Per-coin rejection states.
pub struct IocRejectTracker {
    states: StrMap<IocRejectState>,
}

impl IocRejectTracker {
    /// The states by coin.
    pub closed spec fn view(&self) -> Map<Seq<char>, IocRejectState> {
        self.states@
    }

    /// No coin has a rejection.
    pub fn new() -> (r: IocRejectTracker)
        ensures
            r@ == Map::<Seq<char>, IocRejectState>::empty(),
    {
        IocRejectTracker { states: StrMap::new() }
    }

    /// Forgets the rejections of `coin` (after an accepted order).
    pub fn clear(&mut self, coin: &str)
        ensures
            final(self)@ == old(self)@.remove(coin@),
    {
        self.states.remove(coin);
    }

    /// The end of the cooldown of `coin` when it is still running at
    /// `now_ms`; an expired cooldown is reset (see `cooldown_check`).
    pub fn cooldown_until(&mut self, coin: &str, now_ms: i64) -> (r: Option<i64>)
        ensures
            (r, final(self)@) == cooldown_check(old(self)@, coin@, now_ms),
    {
        let current = match self.states.get(coin) {
            Some(st) => *st,
            None => {
                return None;
            },
        };
        match current.cooldown_until_ms {
            Some(until) => {
                if until > now_ms {
                    Some(until)
                } else {
                    self.states.insert(
                        coin.to_string(),
                        IocRejectState { consecutive_rejects: 0, cooldown_until_ms: None },
                    );
                    None
                }
            },
            None => None,
        }
    }

    /// Records a rejection of `coin` at `now_ms`; returns the end of the
    /// cooldown it starts, if any (see `after_reject`).
    pub fn record_reject(&mut self, coin: &str, block_count: u32, cooldown_minutes: u64, now_ms: i64) -> (r:
        Option<i64>)
        requires
            cooldown_minutes * 60000 <= i64::MAX,
            now_ms + cooldown_minutes * 60000 <= i64::MAX,
        ensures
            ({
                let st = if old(self)@.dom().contains(coin@) {
                    old(self)@[coin@]
                } else {
                    IocRejectState { consecutive_rejects: 0, cooldown_until_ms: None }
                };
                let next = after_reject(st, block_count, cooldown_minutes, now_ms);
                &&& r == next.1
                &&& final(self)@ == old(self)@.insert(coin@, next.0)
            }),
    {
        let st = match self.states.get(coin) {
            Some(s) => *s,
            None => IocRejectState { consecutive_rejects: 0, cooldown_until_ms: None },
        };
        let count: u32 = if st.consecutive_rejects == u32::MAX {
            u32::MAX
        } else {
            st.consecutive_rejects + 1
        };
        if count >= block_count {
            let span: u64 = cooldown_minutes * 60000;
            let until: i64 = now_ms + (span as i64);
            self.states.insert(
                coin.to_string(),
                IocRejectState { consecutive_rejects: count, cooldown_until_ms: Some(until) },
            );
            Some(until)
        } else {
            self.states.insert(
                coin.to_string(),
                IocRejectState { consecutive_rejects: count, cooldown_until_ms: st.cooldown_until_ms },
            );
            None
        }
    }
}

/// Each rejection counts one more in a row (until the count saturates); a
/// cooldown starts exactly when the count reaches `block_count`, and then
/// ends `cooldown_minutes` after the rejection; below that count an earlier
/// cooldown is left as it was.
pub proof fn law_reject_counts(st: IocRejectState, block_count: u32, cooldown_minutes: u64, now_ms: i64)
    requires
        now_ms + cooldown_minutes * 60000 <= i64::MAX,
    ensures
        ({
            let (n, started) = after_reject(st, block_count, cooldown_minutes, now_ms);
            &&& st.consecutive_rejects < u32::MAX ==> n.consecutive_rejects == st.consecutive_rejects + 1
            &&& st.consecutive_rejects == u32::MAX ==> n.consecutive_rejects == u32::MAX
            &&& started is Some <==> n.consecutive_rejects >= block_count
            &&& started is Some ==> started == Some((now_ms + cooldown_minutes * 60000) as i64)
                && n.cooldown_until_ms == started
            &&& started is None ==> n.cooldown_until_ms == st.cooldown_until_ms
        }),
{
}

/// Looking up a coin's cooldown reports its end exactly while it is still
/// running; an expired cooldown resets the coin (no rejection, no
/// cooldown); every other coin, and a coin without a cooldown, stays as it
/// was.
pub proof fn law_cooldown_lookup(m: Map<Seq<char>, IocRejectState>, coin: Seq<char>, now: i64, other: Seq<char>)
    ensures
        ({
            let (r, n) = cooldown_check(m, coin, now);
            let running = m.dom().contains(coin) && (m[coin].cooldown_until_ms matches Some(u) && u > now);
            &&& r is Some <==> running
            &&& running ==> r == m[coin].cooldown_until_ms && n == m
            &&& m.dom().contains(coin) && (m[coin].cooldown_until_ms matches Some(u) && u <= now) ==> n
                == m.insert(coin, IocRejectState { consecutive_rejects: 0, cooldown_until_ms: None })
            &&& !(m.dom().contains(coin) && m[coin].cooldown_until_ms is Some) ==> n == m
            &&& other != coin ==> (n.dom().contains(other) <==> m.dom().contains(other)) && (m.dom().contains(
                other,
            ) ==> n[other] == m[other])
        }),
{
}

} // verus!
