//! Verified core of a z-score arbitrage strategy between a KRW spot
//! exchange (Upbit) and a USDT linear-futures exchange (Bybit).
//!
//! Money amounts are `decimal::Dec` values, a plain-integer carrier for
//! `rust_decimal::Decimal`; every arithmetic step on them is carried out
//! by `rust_decimal` itself behind the wrappers of `decimal`.

pub mod alert;
pub mod balance;
pub mod balance_recorder;
pub mod coin_selector;
pub mod config;
pub mod decimal;
pub mod instrument;
pub mod keyed;
pub mod live_executor;
pub mod live_policy;
pub mod monitor_core;
pub mod monitor_live;
pub mod monitor_loop;
pub mod orderbook;
pub mod pnl;
pub mod text;
pub mod tick_flow;

use vstd::prelude::*;

verus! {

} // verus!
