//! End-to-end engine scenarios.

use backtester::engine::BacktestEngine;
use backtester::fixed::FP;
use backtester::risk::RiskLimits;
use backtester::stops::StopLossMethod;
use backtester::strategies::SMACrossover;
use backtester::types::{ExecutionModel, OHLCV};

fn flat_bar(i: i64, close: i64) -> OHLCV {
    OHLCV::new(i, close, close, close, close, 0)
}

#[test]
fn test_buy_and_hold_scenario() {
    // Buy-and-hold on closes [100, 110, 120, 90], zero commission and
    // slippage, 10,000 capital: final equity 9,000, total return -10%.
    let closes = [100i64, 110, 120, 90];
    let mut bars: Vec<OHLCV> = Vec::new();
    for (i, c) in closes.iter().enumerate() {
        bars.push(flat_bar(i as i64, c * FP));
    }
    let engine = BacktestEngine::new(bars, 10_000 * FP, ExecutionModel::new(0, 0));
    let result = engine.run_buy_and_hold();
    assert_eq!(result.final_equity, 9_000 * FP);
    assert_eq!(result.total_return, -FP / 10);
    assert_eq!(result.equity_curve.len(), 4);
    assert_eq!(result.equity_curve, vec![10_000 * FP, 11_000 * FP, 12_000 * FP, 9_000 * FP]);
    assert!(result.max_drawdown <= 0);
    assert_eq!(result.max_drawdown, -25 * FP / 100);
    // one entry, one forced close
    assert_eq!(result.total_trades, 2);
    let trades = result.trades.as_ref().unwrap();
    assert_eq!(trades.len(), 1);
    assert_eq!(trades[0].entry_price, 100 * FP);
    assert_eq!(trades[0].exit_price, 90 * FP);
    assert_eq!(trades[0].duration_bars, 3);
    assert!(!trades[0].is_win);
}

#[test]
fn test_time_limit_forces_exit_after_max_bars() {
    // A TimeLimit(10) stop on a constant price: held 9 bars, no trigger;
    // the bar on which the holding reaches 10 closes the position.
    let mut bars: Vec<OHLCV> = Vec::new();
    for i in 0..20i64 {
        bars.push(flat_bar(i, 100 * FP));
    }
    let engine = BacktestEngine::new(bars, 10_000 * FP, ExecutionModel::new(0, 0))
        .with_stop_loss(StopLossMethod::TimeLimit(10));
    let result = engine.run_buy_and_hold();
    let trades = result.trades.as_ref().unwrap();
    assert_eq!(trades.len(), 2);
    // entry at bar 0, stop exit exactly when the holding reaches 10 bars
    assert_eq!(trades[0].duration_bars, 10);
    // re-entry on the next bar, force-closed at the end of the data
    assert_eq!(trades[1].duration_bars, 8);
    // constant prices: equity is flat, drawdown zero, Sortino at its cap
    assert_eq!(result.final_equity, 10_000 * FP);
    assert_eq!(result.max_drawdown, 0);
    assert_eq!(result.sharpe_ratio, 0);
    assert_eq!(result.sortino_ratio, 999 * FP);
    assert_eq!(result.calmar_ratio, 0);
}

#[test]
fn test_fixed_stop_exits_at_threshold() {
    // 10% stop from entry at 100: 91 holds, 89 triggers.
    let closes = [100i64, 95, 91, 89, 120];
    let mut bars: Vec<OHLCV> = Vec::new();
    for (i, c) in closes.iter().enumerate() {
        bars.push(flat_bar(i as i64, c * FP));
    }
    let engine = BacktestEngine::new(bars, 10_000 * FP, ExecutionModel::new(0, 0))
        .with_stop_loss(StopLossMethod::FixedPercent(10 * FP));
    let result = engine.run_buy_and_hold();
    let trades = result.trades.as_ref().unwrap();
    // the stop fired at the 89 close, not before
    assert_eq!(trades[0].exit_price, 89 * FP);
    assert_eq!(trades[0].duration_bars, 3);
}

#[test]
fn test_commission_reduces_final_equity() {
    let closes = [100i64, 100, 100];
    let mut bars: Vec<OHLCV> = Vec::new();
    for (i, c) in closes.iter().enumerate() {
        bars.push(flat_bar(i as i64, c * FP));
    }
    // 100 bps commission each way
    let engine = BacktestEngine::new(bars, 10_000 * FP, ExecutionModel::new(100 * FP, 0));
    let result = engine.run_buy_and_hold();
    assert!(result.final_equity < 10_000 * FP);
    assert!(result.total_return < 0);
}

#[test]
fn test_equity_curve_one_value_per_bar() {
    let mut bars: Vec<OHLCV> = Vec::new();
    for i in 0..7i64 {
        bars.push(flat_bar(i, (100 + i) * FP));
    }
    let engine = BacktestEngine::new(bars, 10_000 * FP, ExecutionModel::new(0, 0));
    let result = engine.run_buy_and_hold();
    assert_eq!(result.equity_curve.len(), 7);
    // a non-decreasing curve has zero maximum drawdown
    assert_eq!(result.max_drawdown, 0);
    // equity stays non-negative with zero commission
    assert!(result.equity_curve.iter().all(|&e| e >= 0));
}

#[test]
fn test_sma_crossover_trades_on_crosses() {
    // a golden cross opens the position, the death cross closes it
    let closes = [100i64, 100, 100, 200, 200, 100, 100, 100];
    let mut bars: Vec<OHLCV> = Vec::new();
    for (i, c) in closes.iter().enumerate() {
        bars.push(flat_bar(i as i64, c * FP));
    }
    let engine = BacktestEngine::new(bars, 10_000 * FP, ExecutionModel::new(0, 0));
    let result = engine.run(&SMACrossover::new(2, 3));
    let trades = result.trades.as_ref().unwrap();
    assert_eq!(trades.len(), 1);
    assert_eq!(trades[0].entry_price, 200 * FP);
    assert_eq!(trades[0].exit_price, 100 * FP);
    assert_eq!(trades[0].duration_bars, 2);
    assert!(!trades[0].is_win);
    assert_eq!(result.final_equity, 5_000 * FP);
    assert_eq!(result.total_return, -FP / 2);
}

#[test]
fn test_size_limit_blocks_every_entry() {
    // default sizing commits all of equity, but the limit allows half:
    // the size check fails on every bar and nothing ever trades
    let mut bars: Vec<OHLCV> = Vec::new();
    for i in 0..10i64 {
        bars.push(flat_bar(i, 100 * FP));
    }
    let mut limits = RiskLimits::new();
    limits.max_position_pct = 50 * FP;
    let engine = BacktestEngine::new(bars, 10_000 * FP, ExecutionModel::new(0, 0))
        .with_risk_limits(limits);
    let result = engine.run_buy_and_hold();
    assert_eq!(result.total_trades, 0);
    assert!(result.trades.is_none());
    assert!(result.trade_stats.is_none());
    assert_eq!(result.final_equity, 10_000 * FP);
}

#[test]
fn test_violation_does_not_latch_future_entries() {
    // the first golden cross is blocked by the cadence limit (one
    // violation); the second one, once enough bars have passed, enters:
    // a counted violation never gates later entries
    let closes = [100i64, 100, 100, 200, 200, 100, 100, 200, 200, 100];
    let mut bars: Vec<OHLCV> = Vec::new();
    for (i, c) in closes.iter().enumerate() {
        bars.push(flat_bar(i as i64, c * FP));
    }
    let mut limits = RiskLimits::new();
    limits.min_bars_between_trades = 4;
    let engine = BacktestEngine::new(bars, 10_000 * FP, ExecutionModel::new(0, 0))
        .with_risk_limits(limits);
    let result = engine.run(&SMACrossover::new(2, 3));
    let trades = result.trades.as_ref().unwrap();
    assert_eq!(trades.len(), 1);
    assert_eq!(trades[0].entry_price, 200 * FP);
    assert_eq!(trades[0].exit_price, 100 * FP);
    assert_eq!(trades[0].duration_bars, 2);
    assert_eq!(result.final_equity, 5_000 * FP);
}
