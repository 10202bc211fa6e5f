//! The terminal, immutable snapshot of one backtest run.

use vstd::prelude::*;
use crate::fixed::{in_range, seq_int};
use crate::metrics::seq_in_range;
use crate::trade::{trades_view, trades_wf, Trade, TradeStats, TradeStatsV, TradeV};

verus! {

/// A backtest result as mathematical values.
pub ghost struct BacktestResultV {
    pub initial_capital: int,
    pub final_equity: int,
    pub total_return: int,
    pub equity_curve: Seq<int>,
    pub total_trades: int,
    pub sharpe_ratio: int,
    pub sortino_ratio: int,
    pub calmar_ratio: int,
    pub max_drawdown: int,
    pub trades: Option<Seq<TradeV>>,
    pub trade_stats: Option<TradeStatsV>,
}

/// Everything a backtest run reports: capital figures, the equity curve
/// (one value per bar, in order), derived ratios, and, when any trade
/// closed, the trade list and its aggregate statistics.
#[derive(Clone, Debug)]
pub struct BacktestResult {
    pub initial_capital: i64,
    pub final_equity: i64,
    pub total_return: i64,
    pub equity_curve: Vec<i64>,
    pub total_trades: u64,
    pub sharpe_ratio: i64,
    pub sortino_ratio: i64,
    pub calmar_ratio: i64,
    pub max_drawdown: i64,
    pub trades: Option<Vec<Trade>>,
    pub trade_stats: Option<TradeStats>,
}

impl View for BacktestResult {
    type V = BacktestResultV;

    open spec fn view(&self) -> BacktestResultV {
        BacktestResultV {
            initial_capital: self.initial_capital as int,
            final_equity: self.final_equity as int,
            total_return: self.total_return as int,
            equity_curve: seq_int(self.equity_curve@),
            total_trades: self.total_trades as int,
            sharpe_ratio: self.sharpe_ratio as int,
            sortino_ratio: self.sortino_ratio as int,
            calmar_ratio: self.calmar_ratio as int,
            max_drawdown: self.max_drawdown as int,
            trades: match self.trades {
                Some(ts) => Some(trades_view(ts@)),
                None => None,
            },
            trade_stats: match self.trade_stats {
                Some(st) => Some(st@),
                None => None,
            },
        }
    }
}

impl BacktestResult {
    /// Every figure of the result is in the fixed-point domain.
    pub open spec fn wf(self) -> bool {
        &&& in_range(self.initial_capital as int)
        &&& in_range(self.final_equity as int)
        &&& in_range(self.total_return as int)
        &&& seq_in_range(seq_int(self.equity_curve@))
        &&& in_range(self.sharpe_ratio as int)
        &&& in_range(self.sortino_ratio as int)
        &&& in_range(self.calmar_ratio as int)
        &&& in_range(self.max_drawdown as int)
        &&& match self.trades {
            Some(ts) => trades_wf(ts@),
            None => true,
        }
    }
}

} // verus!
