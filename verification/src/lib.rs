//! A verified backtesting library for trading strategies on OHLCV price
//! series.
//!
//! All money amounts, prices, quantities, rates and ratios are exact
//! fixed-point numbers: `i64` values scaled by [`fixed::FP`] units per 1.0,
//! saturating at [`fixed::CAP`].  Every computation is specified against a
//! mathematical model in `int` arithmetic, so a backtest run is a pure,
//! deterministic function of its configuration and input bars.

pub mod engine;
pub mod fixed;
pub mod json;
pub mod laws;
pub mod metrics;
pub mod position_sizing;
pub mod result;
pub mod risk;
pub mod stops;
pub mod strategies;
pub mod sweep;
pub mod trade;
pub mod types;
pub mod walkforward;
