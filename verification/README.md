# arb_strategy

The decision logic of a z-score arbitrage strategy between Upbit (KRW spot)
and Bybit (USDT linear futures), written in Verus and verified.

## Layout

- `src/` — the verified library.
  - `decimal` — `Dec`, the carrier of `rust_decimal::Decimal` values; every
    arithmetic step is done by `rust_decimal` behind trusted wrappers whose
    contracts are stated in the file.
  - `balance` — the in-process balance tracker: reservations, commits,
    releases, expiry sweeps; conservation of the reserved totals.
  - `balance_recorder` — snapshot rows of exchange balances and the cache
    of coin prices used to value them.
  - `coin_selector` — the 24h traded-value prefilter of automatic coin
    selection (it keeps the upper half of the candidates).
  - `config` — the validation rules of the strategy configuration.
  - `instrument` — step rounding of prices and quantities, the Upbit tick
    table, the instrument cache.
  - `live_executor` — order-fill bookkeeping of entries and exits and the
    staged emergency close.
  - `live_policy` — the entry and close flows of the live policy as step
    functions (state and event in, next state and action out).
  - `monitor_core` — candle building, coin-list diffs and the reselection
    plan, selection by spread deviation, position TTL stages, pre-order
    entry checks.
  - `monitor_loop` — the decisions of the monitor's event loop as a step
    function: regime changes, their exponentially growing cooldown, the
    gating of reselections, cancellation.
  - `tick_flow` — the per-tick signal flow as a step function: order-book
    fetch, freshness of the other side, exit first, then entry sizing and
    validation, and the reason each skipped tick is counted under.
  - `monitor_live` — the Upbit IOC rejection cooldown.
  - `orderbook` — cached order books and the per-coin computing flags.
  - `pnl` — maximum drawdown and daily profit of closed positions.
  - `alert` — alert kinds and their levels.
  - `keyed`, `text` — a string-keyed map and string helpers with contracts.
- `tests/` — tests run against the compiled library.
- `app/` — the unverified parts around the library: the loops that drive
  the live-policy and monitor step functions, configuration files,
  shared state behind locks, async plumbing, floating-point volume
  estimates.
