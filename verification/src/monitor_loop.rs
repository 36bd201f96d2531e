//! The decisions of the monitor's event loop, as a step function: the
//! caller runs the loop, performs each action (removing coins from the
//! spread statistics and subscriptions, spawning a reselection, fetching
//! instrument data) and hands back each minute's regime verdict, each
//! reselection tick and result, and the cancel request as events.
//!
//! A regime change (a spread deviation far over the limit) removes the
//! coins without positions at once and marks the others as dropped; when
//! too few coins remain it starts a reselection with a cooldown that grows
//! exponentially with the number of consecutive regime changes (from the
//! reselection interval, at most 60 minutes).  During the cooldown a regime
//! change is ignored; once it has expired a calm minute resets the count.

use crate::config::{first_config_error, ConfigError, ValidationInput};
use crate::keyed::StrMap;
use crate::monitor_core::{absent_from, contains_name, lemma_has_name_names, names};
use vstd::prelude::*;

verus! {

/// Longest regime-change cooldown, in minutes.
pub const MAX_COOLDOWN_MIN: u64 = 60u64;

/// Milliseconds in a minute.
pub const MINUTE_MS: i64 = 60000i64;

/// What the loop reads of the settings.
#[derive(Clone, Copy, Debug, PartialEq, Eq, Structural)]
pub struct MonitorSettings {
    pub max_coins: usize,
    pub auto_select: bool,
    pub reselect_interval_min: u64,
}

/// The loop's state between events.
pub struct MonitorState {
    pub settings: MonitorSettings,
    /// The coins watched.
    pub coins: Vec<String>,
    /// When each coin kept for its positions was dropped from the selection.
    pub dropped_at: StrMap<i64>,
    /// A reselection is running.
    pub reselecting: bool,
    /// End of the regime-change cooldown (milliseconds since the epoch).
    pub cooldown_until_ms: Option<i64>,
    /// Regime changes in a row that started a reselection.
    pub consecutive_regime_changes: u32,
    /// The loop was cancelled.
    pub stopped: bool,
}

/// The loop's state as plain values.
pub struct MonitorModel {
    pub settings: MonitorSettings,
    pub coins: Seq<Seq<char>>,
    pub dropped_at: Map<Seq<char>, i64>,
    pub reselecting: bool,
    pub cooldown_until_ms: Option<i64>,
    pub consecutive_regime_changes: u32,
    pub stopped: bool,
}

impl MonitorState {
    /// The state as plain values.
    pub open spec fn model(&self) -> MonitorModel {
        MonitorModel {
            settings: self.settings,
            coins: names(self.coins@),
            dropped_at: self.dropped_at@,
            reselecting: self.reselecting,
            cooldown_until_ms: self.cooldown_until_ms,
            consecutive_regime_changes: self.consecutive_regime_changes,
            stopped: self.stopped,
        }
    }
}

/// What happened since the last step.
pub enum MonitorEvent {
    /// A finished minute showed a regime change at `now_ms`: coins to remove
    /// at once, and coins to keep for their positions.
    RegimeChange { immediate_remove: Vec<String>, dropped: Vec<String>, now_ms: i64 },
    /// A finished minute showed no regime change.
    NoRegime { now_ms: i64 },
    /// The reselection timer fired.
    ReselectTick,
    /// A reselection finished: the new coin list, the coins dropped but kept
    /// for their positions (at `dropped_ms`), and the coins removed.
    ReselectDone { new_coins: Vec<String>, dropped: Vec<String>, dropped_ms: i64, removed: Vec<String> },
    /// Stop was requested.
    Cancel,
}

/// An event as plain values.
pub enum MonitorEventModel {
    RegimeChange { immediate_remove: Seq<Seq<char>>, dropped: Seq<Seq<char>>, now_ms: i64 },
    NoRegime { now_ms: i64 },
    ReselectTick,
    ReselectDone {
        new_coins: Seq<Seq<char>>,
        dropped: Seq<Seq<char>>,
        dropped_ms: i64,
        removed: Seq<Seq<char>>,
    },
    Cancel,
}

impl MonitorEvent {
    /// The event as plain values.
    pub open spec fn model(&self) -> MonitorEventModel {
        match self {
            MonitorEvent::RegimeChange { immediate_remove, dropped, now_ms } => MonitorEventModel::RegimeChange {
                immediate_remove: names(immediate_remove@),
                dropped: names(dropped@),
                now_ms: *now_ms,
            },
            MonitorEvent::NoRegime { now_ms } => MonitorEventModel::NoRegime { now_ms: *now_ms },
            MonitorEvent::ReselectTick => MonitorEventModel::ReselectTick,
            MonitorEvent::ReselectDone { new_coins, dropped, dropped_ms, removed } => MonitorEventModel::ReselectDone {
                new_coins: names(new_coins@),
                dropped: names(dropped@),
                dropped_ms: *dropped_ms,
                removed: names(removed@),
            },
            MonitorEvent::Cancel => MonitorEventModel::Cancel,
        }
    }
}

/// What the caller does after a step.
#[derive(Clone, Copy, Debug, PartialEq, Eq, Structural)]
pub enum MonitorAction {
    /// A regime change came during the cooldown: count it, nothing else.
    RegimeSuppressed,
    /// The coins of the regime change were removed (unsubscribe them and
    /// drop their statistics and books) and the dropped ones marked; count
    /// the regime change.  With `Some(minutes)`, also start a reselection;
    /// the cooldown is `minutes` long.
    RegimeApplied { reselect_cooldown_min: Option<u64> },
    /// Start a reselection.
    StartReselection,
    /// The coin list was replaced: fetch instrument data for the new coins.
    CoinsUpdated,
    /// Stop the loop.
    Stop,
    /// Nothing to do.
    Idle,
}

/// `2^k`.
pub open spec fn pow2(k: nat) -> nat
    decreases k,
{
    if k == 0 {
        1
    } else {
        2 * pow2((k - 1) as nat)
    }
}

/// The cooldown after the `n`-th regime change in a row (`n >= 1`):
/// `interval * 2^min(n - 1, 6)` minutes, at most 60.
pub open spec fn backoff_min(interval: u64, n: u32) -> u64 {
    let k: nat = if n - 1 < 6 {
        (n - 1) as nat
    } else {
        6
    };
    if interval * pow2(k) < MAX_COOLDOWN_MIN {
        (interval * pow2(k)) as u64
    } else {
        MAX_COOLDOWN_MIN
    }
}

/// `coins` without the names of `removed`, in order.
pub open spec fn without(coins: Seq<Seq<char>>, removed: Seq<Seq<char>>) -> Seq<Seq<char>> {
    coins.filter(absent_from(removed))
}

/// `m` with each name of `ks` marked at `t`, keeping an earlier mark.
pub open spec fn mark_all(m: Map<Seq<char>, i64>, ks: Seq<Seq<char>>, t: i64) -> Map<Seq<char>, i64>
    decreases ks.len(),
{
    if ks.len() == 0 {
        m
    } else {
        let p = mark_all(m, ks.drop_last(), t);
        if p.dom().contains(ks.last()) {
            p
        } else {
            p.insert(ks.last(), t)
        }
    }
}

/// `m` without the names of `ks`.
pub open spec fn unmark_all(m: Map<Seq<char>, i64>, ks: Seq<Seq<char>>) -> Map<Seq<char>, i64>
    decreases ks.len(),
{
    if ks.len() == 0 {
        m
    } else {
        unmark_all(m, ks.drop_last()).remove(ks.last())
    }
}

/// One step of the loop: the state it leaves and the action to take.
pub open spec fn monitor_step_spec(s: MonitorModel, e: MonitorEventModel) -> (MonitorModel, MonitorAction) {
    if s.stopped {
        (s, MonitorAction::Idle)
    } else {
        match e {
            MonitorEventModel::Cancel => (MonitorModel { stopped: true, ..s }, MonitorAction::Stop),
            MonitorEventModel::RegimeChange { immediate_remove, dropped, now_ms } => {
                let in_cooldown = match s.cooldown_until_ms {
                    Some(until) => now_ms < until,
                    None => false,
                };
                if in_cooldown {
                    (s, MonitorAction::RegimeSuppressed)
                } else {
                    let coins = without(s.coins, immediate_remove);
                    let marks = mark_all(s.dropped_at, dropped, now_ms);
                    let s2 = MonitorModel { coins, dropped_at: marks, ..s };
                    if coins.len() < s.settings.max_coins && s.settings.auto_select && !s.reselecting {
                        let n = (s.consecutive_regime_changes + 1) as u32;
                        let b = backoff_min(s.settings.reselect_interval_min, n);
                        (
                            MonitorModel {
                                reselecting: true,
                                consecutive_regime_changes: n,
                                cooldown_until_ms: Some((now_ms + b * MINUTE_MS) as i64),
                                ..s2
                            },
                            MonitorAction::RegimeApplied { reselect_cooldown_min: Some(b) },
                        )
                    } else {
                        (s2, MonitorAction::RegimeApplied { reselect_cooldown_min: None })
                    }
                }
            },
            MonitorEventModel::NoRegime { now_ms } => {
                let expired = match s.cooldown_until_ms {
                    Some(until) => now_ms >= until,
                    None => true,
                };
                if s.consecutive_regime_changes > 0 && expired {
                    (
                        MonitorModel { consecutive_regime_changes: 0, cooldown_until_ms: None, ..s },
                        MonitorAction::Idle,
                    )
                } else {
                    (s, MonitorAction::Idle)
                }
            },
            MonitorEventModel::ReselectTick => {
                if s.settings.auto_select && !s.reselecting {
                    (MonitorModel { reselecting: true, ..s }, MonitorAction::StartReselection)
                } else {
                    (s, MonitorAction::Idle)
                }
            },
            MonitorEventModel::ReselectDone { new_coins, dropped, dropped_ms, removed } => (
                MonitorModel {
                    coins: new_coins,
                    dropped_at: unmark_all(mark_all(s.dropped_at, dropped, dropped_ms), removed),
                    reselecting: false,
                    ..s
                },
                MonitorAction::CoinsUpdated,
            ),
        }
    }
}

/// What a step asks of the machine: a count that can grow and a cooldown
/// end that can be represented.
pub open spec fn step_in_range(s: MonitorModel, e: MonitorEventModel) -> bool {
    e matches MonitorEventModel::RegimeChange { now_ms, .. } ==> s.consecutive_regime_changes
        < u32::MAX && now_ms <= i64::MAX - MAX_COOLDOWN_MIN * MINUTE_MS
}

/// The starting state of the loop over `coins`.
pub open spec fn initial_model(settings: MonitorSettings, coins: Seq<Seq<char>>) -> MonitorModel {
    MonitorModel {
        settings,
        coins,
        dropped_at: Map::empty(),
        reselecting: false,
        cooldown_until_ms: None,
        consecutive_regime_changes: 0,
        stopped: false,
    }
}

/// Starts the loop over `coins`, refusing invalid settings before any I/O:
/// the first broken rule of `cfg` is returned.
pub fn monitor_start(cfg: &ValidationInput, reselect_interval_min: u64, coins: Vec<String>) -> (r:
    Result<MonitorState, ConfigError>)
    ensures
        r is Err <==> first_config_error(*cfg) is Some,
        r matches Err(e) ==> first_config_error(*cfg) == Some(e),
        r matches Ok(st) ==> st.model() == initial_model(
            MonitorSettings {
                max_coins: cfg.max_coins,
                auto_select: cfg.auto_select,
                reselect_interval_min,
            },
            names(coins@),
        ),
{
    match cfg.validate() {
        Err(e) => Err(e),
        Ok(()) => Ok(
            MonitorState {
                settings: MonitorSettings {
                    max_coins: cfg.max_coins,
                    auto_select: cfg.auto_select,
                    reselect_interval_min,
                },
                coins,
                dropped_at: StrMap::new(),
                reselecting: false,
                cooldown_until_ms: None,
                consecutive_regime_changes: 0,
                stopped: false,
            },
        ),
    }
}

fn backoff(interval: u64, n: u32) -> (r: u64)
    requires
        n >= 1,
    ensures
        r == backoff_min(interval, n),
{
    let k: u32 = if n - 1 < 6 {
        n - 1
    } else {
        6
    };
    let mut p: u64 = 1;
    let mut i: u32 = 0;
    while i < k
        invariant
            i <= k <= 6,
            p == pow2(i as nat),
            1 <= p <= 64,
        decreases k - i,
    {
        proof {
            reveal_with_fuel(pow2, 7);
            assert(pow2((i + 1) as nat) == 2 * pow2(i as nat));
            assert(pow2(i as nat) <= 32);
        }
        p = p * 2;
        i = i + 1;
    }
    if interval >= MAX_COOLDOWN_MIN {
        assert(interval * p >= interval) by (nonlinear_arith)
            requires
                p >= 1,
        ;
        return MAX_COOLDOWN_MIN;
    }
    assert(interval * p <= 59 * 64) by (nonlinear_arith)
        requires
            interval < 60,
            p <= 64,
    ;
    let v = interval * p;
    if v < MAX_COOLDOWN_MIN {
        v
    } else {
        MAX_COOLDOWN_MIN
    }
}

/// `coins` without the names of `removed`.
fn remove_names(coins: &Vec<String>, removed: &Vec<String>) -> (r: Vec<String>)
    ensures
        names(r@) == without(names(coins@), names(removed@)),
{
    let ghost src = names(coins@);
    let ghost rm = names(removed@);
    let ghost pred = absent_from(rm);
    let mut out: Vec<String> = Vec::new();
    let mut i: usize = 0;
    while i < coins.len()
        invariant
            i <= coins.len(),
            src == names(coins@),
            rm == names(removed@),
            pred == absent_from(rm),
            names(out@) == src.take(i as int).filter(pred),
        decreases coins.len() - i,
    {
        let c = &coins[i];
        proof {
            assert(src.take(i as int + 1) =~= src.take(i as int).push(src[i as int]));
            src.take(i as int).lemma_filter_push(src[i as int], pred);
            assert(src[i as int] == c@);
            lemma_has_name_names(removed@, c@);
        }
        if !contains_name(removed.as_slice(), c) {
            let ghost before = out@;
            out.push(c.clone());
            proof {
                assert(names(out@) =~= names(before).push(c@));
            }
        }
        i = i + 1;
    }
    proof {
        assert(src.take(coins.len() as int) =~= src);
    }
    out
}

/// Marks each name of `ks` at `t` in `m`, keeping earlier marks.
fn mark_names(m: &mut StrMap<i64>, ks: &Vec<String>, t: i64)
    ensures
        final(m)@ == mark_all(old(m)@, names(ks@), t),
{
    let ghost start = old(m)@;
    let ghost kv = names(ks@);
    let mut i: usize = 0;
    while i < ks.len()
        invariant
            i <= ks.len(),
            kv == names(ks@),
            m@ == mark_all(start, kv.take(i as int), t),
        decreases ks.len() - i,
    {
        proof {
            assert(kv.take(i as int + 1).drop_last() =~= kv.take(i as int));
            assert(kv.take(i as int + 1).last() == ks@[i as int]@);
        }
        if !m.contains_key(ks[i].as_str()) {
            m.insert(ks[i].clone(), t);
        }
        i = i + 1;
    }
    proof {
        assert(kv.take(ks.len() as int) =~= kv);
    }
}

/// Removes each name of `ks` from `m`.
fn unmark_names(m: &mut StrMap<i64>, ks: &Vec<String>)
    ensures
        final(m)@ == unmark_all(old(m)@, names(ks@)),
{
    let ghost start = old(m)@;
    let ghost kv = names(ks@);
    let mut i: usize = 0;
    while i < ks.len()
        invariant
            i <= ks.len(),
            kv == names(ks@),
            m@ == unmark_all(start, kv.take(i as int)),
        decreases ks.len() - i,
    {
        proof {
            assert(kv.take(i as int + 1).drop_last() =~= kv.take(i as int));
            assert(kv.take(i as int + 1).last() == ks@[i as int]@);
        }
        m.remove(ks[i].as_str());
        i = i + 1;
    }
    proof {
        assert(kv.take(ks.len() as int) =~= kv);
    }
}

/// One step of the loop (see `monitor_step_spec`).
pub fn monitor_step(state: MonitorState, event: MonitorEvent) -> (r: (MonitorState, MonitorAction))
    requires
        step_in_range(state.model(), event.model()),
    ensures
        (r.0.model(), r.1) == monitor_step_spec(state.model(), event.model()),
{
    let mut s = state;
    if s.stopped {
        return (s, MonitorAction::Idle);
    }
    match event {
        MonitorEvent::Cancel => {
            s.stopped = true;
            (s, MonitorAction::Stop)
        },
        MonitorEvent::RegimeChange { immediate_remove, dropped, now_ms } => {
            let in_cooldown = match s.cooldown_until_ms {
                Some(until) => now_ms < until,
                None => false,
            };
            if in_cooldown {
                return (s, MonitorAction::RegimeSuppressed);
            }
            s.coins = remove_names(&s.coins, &immediate_remove);
            mark_names(&mut s.dropped_at, &dropped, now_ms);
            if s.coins.len() < s.settings.max_coins && s.settings.auto_select && !s.reselecting {
                let n = s.consecutive_regime_changes + 1;
                let b = backoff(s.settings.reselect_interval_min, n);
                s.reselecting = true;
                s.consecutive_regime_changes = n;
                s.cooldown_until_ms = Some(now_ms + (b as i64) * MINUTE_MS);
                (s, MonitorAction::RegimeApplied { reselect_cooldown_min: Some(b) })
            } else {
                (s, MonitorAction::RegimeApplied { reselect_cooldown_min: None })
            }
        },
        MonitorEvent::NoRegime { now_ms } => {
            let expired = match s.cooldown_until_ms {
                Some(until) => now_ms >= until,
                None => true,
            };
            if s.consecutive_regime_changes > 0 && expired {
                s.consecutive_regime_changes = 0;
                s.cooldown_until_ms = None;
            }
            (s, MonitorAction::Idle)
        },
        MonitorEvent::ReselectTick => {
            if s.settings.auto_select && !s.reselecting {
                s.reselecting = true;
                (s, MonitorAction::StartReselection)
            } else {
                (s, MonitorAction::Idle)
            }
        },
        MonitorEvent::ReselectDone { new_coins, dropped, dropped_ms, removed } => {
            s.coins = new_coins;
            mark_names(&mut s.dropped_at, &dropped, dropped_ms);
            unmark_names(&mut s.dropped_at, &removed);
            s.reselecting = false;
            (s, MonitorAction::CoinsUpdated)
        },
    }
}

/// The regime-change cooldown grows exponentially: the `n`-th regime change
/// in a row waits the reselection interval times `2^(n-1)` (the factor
/// stops growing at 64), never more than 60 minutes; it never shrinks as
/// `n` grows.
pub proof fn law_backoff_grows(interval: u64, n: u32, m: u32)
    requires
        1 <= n <= m,
    ensures
        backoff_min(interval, n) <= backoff_min(interval, m),
        backoff_min(interval, n) <= MAX_COOLDOWN_MIN,
        interval * pow2((n - 1) as nat) < MAX_COOLDOWN_MIN && n <= 7 ==> backoff_min(interval, n)
            == interval * pow2((n - 1) as nat),
{
    let kn: nat = if n - 1 < 6 {
        (n - 1) as nat
    } else {
        6
    };
    let km: nat = if m - 1 < 6 {
        (m - 1) as nat
    } else {
        6
    };
    lemma_pow2_mono(kn, km);
    assert(interval * pow2(kn) <= interval * pow2(km)) by (nonlinear_arith)
        requires
            pow2(kn) <= pow2(km),
    ;
}

proof fn lemma_pow2_mono(a: nat, b: nat)
    requires
        a <= b,
    ensures
        1 <= pow2(a) <= pow2(b),
    decreases b,
{
    if b > 0 {
        if a < b {
            lemma_pow2_mono(a, (b - 1) as nat);
        } else {
            lemma_pow2_mono((a - 1) as nat, (b - 1) as nat);
        }
    }
}

/// A stopped loop stays stopped and ignores every event; a regime change
/// in the cooldown changes nothing, and a calm minute after it resets the
/// count of regime changes; a reselection is started only when
/// automatic selection is on and none is running, and a regime change
/// starts one only when fewer than `max_coins` coins remain; a coin already
/// marked as dropped keeps its first mark.
pub proof fn law_monitor_gating(s: MonitorModel, e: MonitorEventModel, k: Seq<char>)
    ensures
        s.stopped ==> monitor_step_spec(s, e) == (s, MonitorAction::Idle),
        monitor_step_spec(s, e).1 == MonitorAction::RegimeSuppressed ==> monitor_step_spec(s, e).0 == s,
        monitor_step_spec(s, e).1 == MonitorAction::StartReselection ==> s.settings.auto_select
            && !s.reselecting,
        monitor_step_spec(s, e).1 matches MonitorAction::RegimeApplied {
            reselect_cooldown_min: Some(b),
        } ==> s.settings.auto_select && !s.reselecting && monitor_step_spec(s, e).0.coins.len()
            < s.settings.max_coins && b <= MAX_COOLDOWN_MIN,
        !s.stopped && (e matches MonitorEventModel::RegimeChange { now_ms, .. } && (s.cooldown_until_ms
            matches Some(u) && now_ms < u)) ==> monitor_step_spec(s, e) == (s, MonitorAction::RegimeSuppressed),
        !s.stopped && (e matches MonitorEventModel::NoRegime { now_ms } && !(s.cooldown_until_ms matches Some(
            u) && now_ms < u)) ==> monitor_step_spec(s, e).0.consecutive_regime_changes == 0,
        e matches MonitorEventModel::RegimeChange { dropped, now_ms, .. } ==> (s.dropped_at.dom().contains(
            k,
        ) ==> mark_all(s.dropped_at, dropped, now_ms)[k] == s.dropped_at[k]),
{
    if let MonitorEventModel::RegimeChange { dropped, now_ms, .. } = e {
        if s.dropped_at.dom().contains(k) {
            lemma_mark_keeps(s.dropped_at, dropped, now_ms, k);
        }
    }
}

proof fn lemma_mark_keeps(m: Map<Seq<char>, i64>, ks: Seq<Seq<char>>, t: i64, k: Seq<char>)
    requires
        m.dom().contains(k),
    ensures
        mark_all(m, ks, t).dom().contains(k),
        mark_all(m, ks, t)[k] == m[k],
    decreases ks.len(),
{
    if ks.len() > 0 {
        lemma_mark_keeps(m, ks.drop_last(), t, k);
    }
}

proof fn lemma_mark_all_marks(m: Map<Seq<char>, i64>, ks: Seq<Seq<char>>, t: i64, k: Seq<char>)
    ensures
        mark_all(m, ks, t).dom().contains(k) <==> m.dom().contains(k) || ks.contains(k),
        m.dom().contains(k) ==> mark_all(m, ks, t)[k] == m[k],
        !m.dom().contains(k) && ks.contains(k) ==> mark_all(m, ks, t)[k] == t,
    decreases ks.len(),
{
    if ks.len() > 0 {
        let rest = ks.drop_last();
        lemma_mark_all_marks(m, rest, t, k);
        assert(ks.contains(k) <==> rest.contains(k) || ks.last() == k) by {
            if ks.contains(k) {
                let j = choose|j: int| 0 <= j < ks.len() && ks[j] == k;
                if j < rest.len() {
                    assert(rest[j] == k);
                }
            }
            if rest.contains(k) {
                let j = choose|j: int| 0 <= j < rest.len() && rest[j] == k;
                assert(ks[j] == k);
            }
            assert(ks[ks.len() - 1] == ks.last());
        }
    }
}

/// A regime change outside the cooldown removes the coins to remove at
/// once from the watched coins (keeping the others in order), whether or
/// not it starts a reselection; it marks each dropped coin at the event's
/// time unless it was marked before, and leaves the other marks.  It starts
/// a reselection exactly when fewer than `max_coins` coins remain,
/// automatic selection is on and none is running.
pub proof fn law_regime_change_applies(s: MonitorModel, immediate_remove: Seq<Seq<char>>, dropped: Seq<Seq<char>>, now_ms: i64, k: Seq<char>)
    requires
        !s.stopped,
        !(s.cooldown_until_ms matches Some(u) && now_ms < u),
    ensures
        ({
            let (n, a) = monitor_step_spec(
                s,
                MonitorEventModel::RegimeChange { immediate_remove, dropped, now_ms },
            );
            let kept = s.coins.filter(absent_from(immediate_remove));
            &&& n.coins == kept
            &&& n.coins.contains(k) <==> s.coins.contains(k) && !immediate_remove.contains(k)
            &&& n.dropped_at.dom().contains(k) <==> s.dropped_at.dom().contains(k) || dropped.contains(k)
            &&& s.dropped_at.dom().contains(k) ==> n.dropped_at[k] == s.dropped_at[k]
            &&& !s.dropped_at.dom().contains(k) && dropped.contains(k) ==> n.dropped_at[k] == now_ms
            &&& (a matches MonitorAction::RegimeApplied { reselect_cooldown_min: Some(_) }) <==> kept.len()
                < s.settings.max_coins && s.settings.auto_select && !s.reselecting
            &&& a is RegimeApplied
        }),
{
    let p = absent_from(immediate_remove);
    let kept = s.coins.filter(p);
    lemma_mark_all_marks(s.dropped_at, dropped, now_ms, k);
    if s.coins.contains(k) && !immediate_remove.contains(k) {
        let j = choose|j: int| 0 <= j < s.coins.len() && s.coins[j] == k;
        s.coins.lemma_filter_contains(p, j);
    }
    if kept.contains(k) {
        let j = choose|j: int| 0 <= j < kept.len() && kept[j] == k;
        s.coins.lemma_filter_pred(p, j);
        s.coins.lemma_filter_contains_rev(p, k);
    }
}

proof fn lemma_unmark_all(m: Map<Seq<char>, i64>, ks: Seq<Seq<char>>, k: Seq<char>)
    ensures
        unmark_all(m, ks).dom().contains(k) <==> m.dom().contains(k) && !ks.contains(k),
        unmark_all(m, ks).dom().contains(k) ==> unmark_all(m, ks)[k] == m[k],
    decreases ks.len(),
{
    if ks.len() > 0 {
        let rest = ks.drop_last();
        lemma_unmark_all(m, rest, k);
        assert(ks.contains(k) <==> rest.contains(k) || ks.last() == k) by {
            if ks.contains(k) {
                let j = choose|j: int| 0 <= j < ks.len() && ks[j] == k;
                if j < rest.len() {
                    assert(rest[j] == k);
                }
            }
            if rest.contains(k) {
                let j = choose|j: int| 0 <= j < rest.len() && rest[j] == k;
                assert(ks[j] == k);
            }
            assert(ks[ks.len() - 1] == ks.last());
        }
    }
}

/// On a running loop, cancel stops it and changes nothing else; the
/// reselection timer starts a reselection exactly when automatic selection
/// is on and none is running, and otherwise changes nothing.
pub proof fn law_cancel_and_timer(s: MonitorModel)
    requires
        !s.stopped,
    ensures
        monitor_step_spec(s, MonitorEventModel::Cancel) == (MonitorModel { stopped: true, ..s }, MonitorAction::Stop),
        ({
            let (n, a) = monitor_step_spec(s, MonitorEventModel::ReselectTick);
            &&& (a == MonitorAction::StartReselection) <==> s.settings.auto_select && !s.reselecting
            &&& a == MonitorAction::StartReselection ==> n == MonitorModel { reselecting: true, ..s }
            &&& a != MonitorAction::StartReselection ==> n == s && a == MonitorAction::Idle
        }),
{
}

/// A finished reselection replaces the coins by its result, ends the
/// reselection, forgets the marks of the removed coins and marks its
/// dropped coins at its time unless marked before; the regime-change count
/// and cooldown stay.
pub proof fn law_reselection_done(
    s: MonitorModel,
    new_coins: Seq<Seq<char>>,
    dropped: Seq<Seq<char>>,
    dropped_ms: i64,
    removed: Seq<Seq<char>>,
    k: Seq<char>,
)
    requires
        !s.stopped,
    ensures
        ({
            let (n, a) = monitor_step_spec(
                s,
                MonitorEventModel::ReselectDone { new_coins, dropped, dropped_ms, removed },
            );
            &&& a == MonitorAction::CoinsUpdated
            &&& n.coins == new_coins
            &&& !n.reselecting
            &&& n.consecutive_regime_changes == s.consecutive_regime_changes
            &&& n.cooldown_until_ms == s.cooldown_until_ms
            &&& removed.contains(k) ==> !n.dropped_at.dom().contains(k)
            &&& !removed.contains(k) ==> (n.dropped_at.dom().contains(k) <==> s.dropped_at.dom().contains(k)
                || dropped.contains(k))
            &&& !removed.contains(k) && s.dropped_at.dom().contains(k) ==> n.dropped_at[k] == s.dropped_at[k]
            &&& !removed.contains(k) && !s.dropped_at.dom().contains(k) && dropped.contains(k)
                ==> n.dropped_at[k] == dropped_ms
        }),
{
    lemma_mark_all_marks(s.dropped_at, dropped, dropped_ms, k);
    lemma_unmark_all(mark_all(s.dropped_at, dropped, dropped_ms), removed, k);
}

/// A calm minute resets the count of regime changes (and the cooldown) once
/// the cooldown is over, and changes nothing else.
pub proof fn law_calm_minute(s: MonitorModel, now_ms: i64)
    requires
        !s.stopped,
    ensures
        ({
            let (n, a) = monitor_step_spec(s, MonitorEventModel::NoRegime { now_ms });
            let over = match s.cooldown_until_ms {
                Some(u) => now_ms >= u,
                None => true,
            };
            &&& a == MonitorAction::Idle
            &&& s.consecutive_regime_changes > 0 && over ==> n == MonitorModel {
                consecutive_regime_changes: 0,
                cooldown_until_ms: None,
                ..s
            }
            &&& !(s.consecutive_regime_changes > 0 && over) ==> n == s
        }),
{
}

/// A regime change that starts a reselection counts one more regime change
/// in a row and sets the cooldown to end `b` minutes after the event, where
/// `b` is the reselection interval doubled once per earlier regime change
/// in the row (at most six times), capped at 60 minutes.
pub proof fn law_regime_cooldown(s: MonitorModel, immediate_remove: Seq<Seq<char>>, dropped: Seq<Seq<char>>, now_ms: i64)
    requires
        !s.stopped,
        s.consecutive_regime_changes < u32::MAX,
    ensures
        ({
            let (n, a) = monitor_step_spec(
                s,
                MonitorEventModel::RegimeChange { immediate_remove, dropped, now_ms },
            );
            let c = s.consecutive_regime_changes;
            let k: nat = if c < 6 {
                c as nat
            } else {
                6
            };
            let raw = s.settings.reselect_interval_min * pow2(k);
            let b: u64 = if raw < 60 {
                raw as u64
            } else {
                60
            };
            (a matches MonitorAction::RegimeApplied { reselect_cooldown_min: Some(_) }) ==> {
                &&& a == (MonitorAction::RegimeApplied { reselect_cooldown_min: Some(b) })
                &&& n.consecutive_regime_changes == c + 1
                &&& n.cooldown_until_ms == Some((now_ms + b * 60000) as i64)
                &&& n.reselecting
            }
        }),
{
}

} // verus!
