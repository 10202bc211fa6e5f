//! The JSON encoding: round trips, determinism, rejection of bad input.

use backtester::engine::BacktestEngine;
use backtester::fixed::FP;
use backtester::json::{from_json, optimization_results_to_json};
use backtester::sweep::OptimizationResult;
use backtester::types::{ExecutionModel, OHLCV};
use backtester::walkforward::WalkForwardResult;

fn flat_bar(i: i64, close: i64) -> OHLCV {
    OHLCV::new(i, close, close, close, close, 0)
}

fn sample_result() -> backtester::result::BacktestResult {
    let closes = [100i64, 110, 120, 90];
    let mut bars: Vec<OHLCV> = Vec::new();
    for (i, c) in closes.iter().enumerate() {
        bars.push(flat_bar(i as i64, c * FP));
    }
    let engine = BacktestEngine::new(bars, 10_000 * FP, ExecutionModel::new(0, 0));
    engine.run_buy_and_hold()
}

#[test]
fn test_json_round_trip() {
    let result = sample_result();
    let json = result.to_json();
    let parsed = from_json(json.as_str()).unwrap();
    assert_eq!(parsed.initial_capital, result.initial_capital);
    assert_eq!(parsed.final_equity, result.final_equity);
    assert_eq!(parsed.total_return, result.total_return);
    assert_eq!(parsed.equity_curve, result.equity_curve);
    assert_eq!(parsed.total_trades, result.total_trades);
    assert_eq!(parsed.sharpe_ratio, result.sharpe_ratio);
    assert_eq!(parsed.sortino_ratio, result.sortino_ratio);
    assert_eq!(parsed.calmar_ratio, result.calmar_ratio);
    assert_eq!(parsed.max_drawdown, result.max_drawdown);
    let t0 = &result.trades.as_ref().unwrap()[0];
    let p0 = &parsed.trades.as_ref().unwrap()[0];
    assert_eq!(p0.entry_timestamp, t0.entry_timestamp);
    assert_eq!(p0.exit_timestamp, t0.exit_timestamp);
    assert_eq!(p0.entry_price, t0.entry_price);
    assert_eq!(p0.exit_price, t0.exit_price);
    assert_eq!(p0.position_size, t0.position_size);
    assert_eq!(p0.pnl, t0.pnl);
    assert_eq!(p0.pnl_pct, t0.pnl_pct);
    assert_eq!(p0.duration_bars, t0.duration_bars);
    assert_eq!(p0.is_win, t0.is_win);
    let s0 = result.trade_stats.as_ref().unwrap();
    let q0 = parsed.trade_stats.as_ref().unwrap();
    assert_eq!(q0.total_trades, s0.total_trades);
    assert_eq!(q0.winning_trades, s0.winning_trades);
    assert_eq!(q0.losing_trades, s0.losing_trades);
    assert_eq!(q0.win_rate, s0.win_rate);
    assert_eq!(q0.profit_factor, s0.profit_factor);
    assert_eq!(q0.avg_win, s0.avg_win);
    assert_eq!(q0.avg_loss, s0.avg_loss);
    assert_eq!(q0.largest_win, s0.largest_win);
    assert_eq!(q0.largest_loss, s0.largest_loss);
    assert_eq!(q0.avg_trade, s0.avg_trade);
    assert_eq!(q0.expectancy, s0.expectancy);
    assert_eq!(q0.longest_win_streak, s0.longest_win_streak);
    assert_eq!(q0.longest_loss_streak, s0.longest_loss_streak);
}

#[test]
fn test_identical_runs_byte_identical_output() {
    // same configuration and input, run twice: the serialised output is
    // byte for byte the same
    let r1 = sample_result();
    let r2 = sample_result();
    assert_eq!(r1.to_json(), r2.to_json());
}

#[test]
fn test_json_field_names_and_order_are_stable() {
    let json = sample_result().to_json();
    let expected_prefix = "{\"initial_capital\":1000000000000,\"final_equity\":900000000000,\"total_return\":-10000000,\"equity_curve\":[";
    assert!(json.starts_with(expected_prefix));
    assert!(json.ends_with("}"));
    assert!(json.contains("\"trades\":[{\"entry_timestamp\":0,"));
    assert!(json.contains("\"trade_stats\":{\"total_trades\":1,"));
}

#[test]
fn test_from_json_rejects_malformed_input() {
    assert!(from_json("").is_none());
    assert!(from_json("{}").is_none());
    assert!(from_json("{\"initial_capital\":abc").is_none());
    let good = sample_result().to_json();
    // trailing garbage is rejected
    let mut bad = good.clone();
    bad.push('x');
    assert!(from_json(bad.as_str()).is_none());
    // truncation is rejected
    let truncated = &good[..good.len() - 1];
    assert!(from_json(truncated).is_none());
}

#[test]
fn test_equity_csv_layout() {
    let result = sample_result();
    let csv = result.equity_csv();
    let expected = "bar,equity\n0,1000000000000\n1,1100000000000\n2,1200000000000\n3,900000000000\n";
    assert_eq!(csv, expected);
}

#[test]
fn test_trades_csv_layout() {
    let result = sample_result();
    let csv = result.trades_csv().unwrap();
    let expected = "trade_num,entry_timestamp,exit_timestamp,entry_price,exit_price,position_size,pnl,pnl_pct,duration_days,is_win\n1,0,3,10000000000,9000000000,10000000000,-100000000000,-10000000,3,false\n";
    assert_eq!(csv, expected);
}

#[test]
fn test_optimization_result_json_layout() {
    let a = OptimizationResult {
        fast_period: 20,
        slow_period: 50,
        total_return: -FP / 10,
        sharpe_ratio: 0,
        max_drawdown: -FP / 4,
        total_trades: 2,
    };
    let expected_a = "{\"fast_period\":20,\"slow_period\":50,\"total_return\":-10000000,\"sharpe_ratio\":0,\"max_drawdown\":-25000000,\"total_trades\":2}";
    assert_eq!(a.to_json(), expected_a);

    let b = OptimizationResult {
        fast_period: 30,
        slow_period: 60,
        total_return: FP,
        sharpe_ratio: FP / 2,
        max_drawdown: 0,
        total_trades: 4,
    };
    let list = optimization_results_to_json(&vec![a, b]);
    assert!(list.starts_with("["));
    assert!(list.ends_with("]"));
    let expected_list = format!(
        "[{}{}{}]",
        expected_a,
        ",",
        "{\"fast_period\":30,\"slow_period\":60,\"total_return\":100000000,\"sharpe_ratio\":50000000,\"max_drawdown\":0,\"total_trades\":4}"
    );
    assert_eq!(list, expected_list);
    assert_eq!(optimization_results_to_json(&Vec::new()), "[]");
}

#[test]
fn test_walk_forward_result_json_layout() {
    let w = WalkForwardResult {
        train_size: 700,
        test_size: 300,
        best_fast_period: 20,
        best_slow_period: 50,
        in_sample_return: FP / 10,
        in_sample_sharpe: FP,
        out_of_sample_return: -FP / 20,
        out_of_sample_sharpe: 0,
        degradation_return: 150 * FP,
        degradation_sharpe: 100 * FP,
    };
    let expected = "{\"train_size\":700,\"test_size\":300,\"best_fast_period\":20,\"best_slow_period\":50,\"in_sample_return\":10000000,\"in_sample_sharpe\":100000000,\"out_of_sample_return\":-5000000,\"out_of_sample_sharpe\":0,\"degradation_return\":15000000000,\"degradation_sharpe\":10000000000}";
    assert_eq!(w.to_json(), expected);
}
