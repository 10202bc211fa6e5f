//! Parameter sweeps and walk-forward validation.

use backtester::engine::BacktestEngine;
use backtester::fixed::FP;
use backtester::strategies::SMACrossover;
use backtester::sweep::ParameterSweep;
use backtester::types::{ExecutionModel, OHLCV};
use backtester::walkforward::WalkForward;

fn flat_bar(i: i64, close: i64) -> OHLCV {
    OHLCV::new(i, close, close, close, close, 0)
}

fn wavy_bars(n: i64) -> Vec<OHLCV> {
    let mut bars: Vec<OHLCV> = Vec::new();
    for i in 0..n {
        let close = (100 + (i % 7) - (i % 3)) * FP;
        bars.push(flat_bar(i, close));
    }
    bars
}

#[test]
fn test_sweep_produces_exactly_filtered_grid() {
    // fast in {20, 30}, slow in {50, 60}: all four pairs satisfy
    // fast < slow, so exactly 4 combinations run.
    let bars = wavy_bars(80);
    let sweep = ParameterSweep::new(bars, 10_000 * FP, ExecutionModel::new(0, 0));
    let results = sweep.sweep_sma_periods((20, 30), (50, 60), 10);
    assert_eq!(results.len(), 4);
    let combos: Vec<(usize, usize)> = results.iter().map(|r| (r.fast_period, r.slow_period)).collect();
    assert_eq!(combos, vec![(20, 50), (20, 60), (30, 50), (30, 60)]);
}

#[test]
fn test_sweep_results_reproducible_standalone() {
    // every grid point is one independent engine run: re-running the
    // same parameters standalone reproduces its figures exactly
    let bars = wavy_bars(80);
    let sweep = ParameterSweep::new(bars.clone(), 10_000 * FP, ExecutionModel::new(0, 0));
    let results = sweep.sweep_sma_periods((20, 30), (50, 60), 10);
    for r in &results {
        let engine = BacktestEngine::new(bars.clone(), 10_000 * FP, ExecutionModel::new(0, 0));
        let strategy = SMACrossover::new(r.fast_period, r.slow_period);
        let standalone = engine.run(&strategy);
        assert_eq!(standalone.total_return, r.total_return);
        assert_eq!(standalone.sharpe_ratio, r.sharpe_ratio);
        assert_eq!(standalone.max_drawdown, r.max_drawdown);
        assert_eq!(standalone.total_trades, r.total_trades);
    }
}

#[test]
fn test_find_best_prefers_first_of_equals() {
    let bars = wavy_bars(60);
    let sweep = ParameterSweep::new(bars, 10_000 * FP, ExecutionModel::new(0, 0));
    let results = sweep.sweep_sma_periods((20, 30), (50, 60), 10);
    let best = ParameterSweep::find_best_sharpe(&results).unwrap();
    // the maximum is attained, and the earliest maximiser wins ties
    for r in &results {
        assert!(r.sharpe_ratio <= best.sharpe_ratio);
    }
    let first_idx = results
        .iter()
        .position(|r| r.sharpe_ratio == best.sharpe_ratio)
        .unwrap();
    assert_eq!(
        (results[first_idx].fast_period, results[first_idx].slow_period),
        (best.fast_period, best.slow_period)
    );
    let best_ret = ParameterSweep::find_best_return(&results).unwrap();
    for r in &results {
        assert!(r.total_return <= best_ret.total_return);
    }
    let empty: Vec<backtester::sweep::OptimizationResult> = Vec::new();
    assert!(ParameterSweep::find_best_sharpe(&empty).is_none());
}

#[test]
fn test_walk_forward_split_sizes() {
    // train_ratio 0.7 on 1000 bars: 700 training bars, 300 test bars
    let bars = wavy_bars(1000);
    let wf = WalkForward::new(bars, 10_000 * FP, ExecutionModel::new(0, 0));
    let result = wf.run(7 * FP / 10);
    assert_eq!(result.train_size, 700);
    assert_eq!(result.test_size, 300);
    assert!(result.best_fast_period < result.best_slow_period);
    assert!(result.best_fast_period >= 20);
}
