//! The ledger, trades, running risk state and remaining policy surface.

use backtester::fixed::FP;
use backtester::risk::{RiskLimits, RiskMetrics};
use backtester::stops::StopLossMethod;
use backtester::sweep::ParameterSweep;
use backtester::trade::{Trade, TradeStats};
use backtester::types::{ExecutionModel, OHLCV, Portfolio};

#[test]
fn test_portfolio_buy_and_sell_with_commission() {
    let mut p = Portfolio::new(1_000 * FP);
    assert_eq!(p.equity(50 * FP), 1_000 * FP);

    // buy 10 units at 50 with a 1% commission: cost 500, commission 5
    p.buy(10 * FP, 50 * FP, 100 * FP);
    assert_eq!(p.cash, 495 * FP);
    assert_eq!(p.btc_position, 10 * FP);
    assert_eq!(p.total_trades, 1);
    assert_eq!(p.equity(50 * FP), 995 * FP);

    // sell all 10 at 60 with a 1% commission: proceeds 600, commission 6
    p.sell(10 * FP, 60 * FP, 100 * FP);
    assert_eq!(p.cash, 1_089 * FP);
    assert_eq!(p.btc_position, 0);
    assert_eq!(p.total_trades, 2);
}

#[test]
fn test_execution_model_fill_prices() {
    // 100 bps of slippage: buys fill 1% above, sells 1% below
    let em = ExecutionModel::new(0, 100 * FP);
    assert_eq!(em.execute_market_buy(100 * FP), 101 * FP);
    assert_eq!(em.execute_market_sell(100 * FP), 99 * FP);
    // no slippage: fills at the quoted price
    let flat = ExecutionModel::new(0, 0);
    assert_eq!(flat.execute_market_buy(100 * FP), 100 * FP);
    assert_eq!(flat.execute_market_sell(100 * FP), 100 * FP);
}

#[test]
fn test_trade_new_derives_pnl() {
    let t = Trade::new(0, 86_400_000, 100 * FP, 110 * FP, 2 * FP);
    assert_eq!(t.pnl, 20 * FP);
    assert_eq!(t.pnl_pct, FP / 10);
    assert!(t.is_win);
    // one day between the millisecond timestamps
    assert_eq!(t.duration_days(), FP);

    let loss = Trade::new(0, 0, 100 * FP, 95 * FP, 2 * FP);
    assert_eq!(loss.pnl, -10 * FP);
    assert!(!loss.is_win);
}

#[test]
fn test_trade_stats_from_trades() {
    let win = Trade::new(0, 1, 100 * FP, 110 * FP, 2 * FP);
    let loss = Trade::new(1, 2, 100 * FP, 95 * FP, 2 * FP);
    let stats = TradeStats::from_trades(&vec![win, loss]);
    assert_eq!(stats.total_trades, 2);
    assert_eq!(stats.winning_trades, 1);
    assert_eq!(stats.losing_trades, 1);
    assert_eq!(stats.win_rate, FP / 2);
    assert_eq!(stats.profit_factor, 2 * FP);
    assert_eq!(stats.avg_win, 20 * FP);
    assert_eq!(stats.avg_loss, 10 * FP);
    assert_eq!(stats.largest_win, 20 * FP);
    assert_eq!(stats.largest_loss, 10 * FP);
    assert_eq!(stats.avg_trade, 5 * FP);
    assert_eq!(stats.expectancy, 5 * FP);
    assert_eq!(stats.longest_win_streak, 1);
    assert_eq!(stats.longest_loss_streak, 1);

    let empty = TradeStats::from_trades(&Vec::new());
    assert_eq!(empty.total_trades, 0);
    assert_eq!(empty.profit_factor, 0);
}

#[test]
fn test_trade_stats_streaks_and_no_loss_sentinel() {
    let w = |i: i64| Trade::new(i, i + 1, 100 * FP, 110 * FP, FP);
    let stats = TradeStats::from_trades(&vec![w(0), w(1), w(2)]);
    assert_eq!(stats.longest_win_streak, 3);
    assert_eq!(stats.longest_loss_streak, 0);
    // no losses: the profit factor caps at the 999 sentinel
    assert_eq!(stats.profit_factor, 999 * FP);
}

#[test]
fn test_get_stop_price() {
    assert_eq!(
        StopLossMethod::FixedPercent(10 * FP).get_stop_price(100 * FP, 120 * FP, None),
        Some(90 * FP)
    );
    assert_eq!(
        StopLossMethod::Trailing(10 * FP).get_stop_price(100 * FP, 120 * FP, None),
        Some(108 * FP)
    );
    assert_eq!(
        StopLossMethod::ATR { multiplier: 2 * FP, period: 14 }.get_stop_price(
            100 * FP,
            120 * FP,
            Some(5 * FP)
        ),
        Some(90 * FP)
    );
    assert_eq!(StopLossMethod::NoStop.get_stop_price(100 * FP, 120 * FP, None), None);
    assert_eq!(StopLossMethod::TimeLimit(10).get_stop_price(100 * FP, 120 * FP, None), None);
}

#[test]
fn test_risk_limit_profiles() {
    let c = RiskLimits::conservative();
    assert_eq!(c.max_position_pct, 50 * FP);
    assert_eq!(c.max_trades_per_day, 2);
    assert_eq!(c.min_bars_between_trades, 5);
    let a = RiskLimits::aggressive();
    assert_eq!(a.max_position_pct, 100 * FP);
    assert_eq!(a.max_trades_per_day, 0);
}

#[test]
fn test_portfolio_heat_check() {
    let limits = RiskLimits::new();
    assert!(limits.check_portfolio_heat(5_000 * FP, 10_000 * FP));
    assert!(!limits.check_portfolio_heat(20_000 * FP, 10_000 * FP));
}

#[test]
fn test_risk_metrics_running_state() {
    let mut m = RiskMetrics::new(1_000 * FP);
    m.update(900 * FP, 0);
    assert_eq!(m.peak_equity, 1_000 * FP);
    assert_eq!(m.current_drawdown, -FP / 10);
    assert_eq!(m.max_drawdown_hit, -FP / 10);
    assert_eq!(m.bars_since_last_trade, 1);

    m.update(1_200 * FP, 0);
    assert_eq!(m.peak_equity, 1_200 * FP);
    assert_eq!(m.current_drawdown, 0);
    assert_eq!(m.max_drawdown_hit, -FP / 10);

    m.on_trade();
    assert_eq!(m.trades_today, 1);
    assert_eq!(m.bars_since_last_trade, 0);
    m.on_new_day();
    assert_eq!(m.trades_today, 0);
}

#[test]
fn test_sweep_with_stops_runs_same_grid() {
    let mut bars: Vec<OHLCV> = Vec::new();
    for i in 0..80i64 {
        let close = (100 + (i % 5)) * FP;
        bars.push(OHLCV::new(i, close, close, close, close, 0));
    }
    let sweep = ParameterSweep::new(bars, 10_000 * FP, ExecutionModel::new(0, 0));
    let results =
        sweep.sweep_sma_periods_with_stops((20, 30), (50, 60), 10, StopLossMethod::TimeLimit(5));
    assert_eq!(results.len(), 4);
}
