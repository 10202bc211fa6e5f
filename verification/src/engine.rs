//! The core simulation: a per-bar state machine driving execution,
//! stop-loss evaluation, position sizing, risk gating and metrics.

use vstd::prelude::*;
use crate::fixed::{div_fx, fx_div, fx_mul, fx_sub, in_range, max_fx, max_i, mul_fx, seq_int,
    sub_fx, CAP, FP};
use crate::metrics::{
    calculate_calmar_ratio, calculate_max_drawdown, calculate_sharpe_ratio,
    calculate_sortino_ratio, calmar_spec, max_drawdown_spec, per_bar_returns, returns_spec,
    seq_in_range, sharpe_spec, sortino_spec,
};
use crate::position_sizing::{calculate_size_spec, PositionSizingMethod};
use crate::result::{BacktestResult, BacktestResultV};
use crate::risk::{
    can_trade_spec, check_drawdown_spec, check_position_size_spec, risk_on_trade_spec,
    risk_update_spec, RiskLimits, RiskMetrics, RiskMetricsV,
};
use crate::stops::{atr_spec, calculate_atr, is_hit_spec, opt_int, StopLossMethod};
use crate::strategies::{signals_wf, BuyAndHold, Strategy};
use crate::trade::{trade_new_spec, trade_stats_spec, trades_view, trades_wf, Trade, TradeStats,
    TradeV};
use crate::types::{
    bars_wf, buy_spec, equity_spec, fill_buy_spec, fill_sell_spec, sell_spec, ExecutionModel,
    Portfolio, PortfolioV, OHLCV,
};

verus! {

broadcast use crate::fixed::lemma_seq_int_index;

/// The engine's immutable configuration as the specification sees it.
pub ghost struct ConfigV {
    pub initial_capital: int,
    pub execution: ExecutionModel,
    pub sizing: PositionSizingMethod,
    pub stop: StopLossMethod,
    pub limits: RiskLimits,
}

/// An open position as mathematical values.
pub ghost struct PositionV {
    pub entry_bar: int,
    pub entry_price: int,
    pub quantity: int,
    pub highest_price: int,
}

/// The engine state after some number of bars.
pub ghost struct EngStateV {
    pub portfolio: PortfolioV,
    pub position: Option<PositionV>,
    pub prev_target: int,
    pub risk: RiskMetricsV,
    pub trades: Seq<TradeV>,
    pub equity_curve: Seq<int>,
}

/// The state before the first bar.
pub open spec fn engine_init_spec(cfg: ConfigV) -> EngStateV {
    EngStateV {
        portfolio: PortfolioV { cash: cfg.initial_capital, btc_position: 0, total_trades: 0 },
        position: None,
        prev_target: 0,
        risk: RiskMetricsV {
            peak_equity: cfg.initial_capital,
            current_drawdown: 0,
            max_drawdown_hit: 0,
            total_exposure: 0,
            trades_today: 0,
            bars_since_last_trade: 0,
            risk_limit_violations: 0,
        },
        trades: Seq::empty(),
        equity_curve: Seq::empty(),
    }
}

/// One more violation on the shared counter.
pub open spec fn bump_violation(m: RiskMetricsV) -> RiskMetricsV {
    RiskMetricsV { risk_limit_violations: m.risk_limit_violations + 1, ..m }
}

/// Close the open position at bar `i`'s close: sell through the execution
/// model, record the trade, count it against the cadence limits.
pub open spec fn exit_position_spec(cfg: ConfigV, bars: Seq<OHLCV>, i: int, s: EngStateV) -> EngStateV {
    match s.position {
        Some(pos) => {
            let close = bars[i].close as int;
            let sell_price = fill_sell_spec(cfg.execution.slippage_bps as int, close);
            let p2 = sell_spec(
                s.portfolio,
                pos.quantity,
                sell_price,
                cfg.execution.commission_bps as int,
            );
            let t0 = trade_new_spec(
                bars[pos.entry_bar].timestamp as int,
                bars[i].timestamp as int,
                pos.entry_price,
                sell_price,
                pos.quantity,
            );
            let tr = TradeV { duration_bars: i - pos.entry_bar, ..t0 };
            EngStateV {
                portfolio: p2,
                position: None,
                risk: risk_on_trade_spec(s.risk),
                trades: s.trades.push(tr),
                ..s
            }
        },
        None => s,
    }
}

/// Attempt an entry at bar `i`'s close: risk checks in order (drawdown,
/// cadence, then size), sizing, then execution; a failing check counts one
/// violation and skips only this entry; an entry without sufficient cash
/// is silently skipped.
pub open spec fn try_enter_spec(cfg: ConfigV, bars: Seq<OHLCV>, i: int, s: EngStateV) -> EngStateV {
    let close = bars[i].close as int;
    let equity = equity_spec(s.portfolio, close);
    if check_drawdown_spec(cfg.limits, equity, s.risk.peak_equity) && can_trade_spec(
        cfg.limits,
        s.risk.bars_since_last_trade,
        s.risk.trades_today,
    ) {
        let position_value = calculate_size_spec(cfg.sizing, equity, None);
        if check_position_size_spec(cfg.limits, position_value, equity) {
            let buy_price = fill_buy_spec(cfg.execution.slippage_bps as int, close);
            let quantity = fx_div(position_value, buy_price);
            if s.portfolio.cash >= fx_mul(quantity, buy_price) {
                EngStateV {
                    portfolio: buy_spec(
                        s.portfolio,
                        quantity,
                        buy_price,
                        cfg.execution.commission_bps as int,
                    ),
                    position: Some(
                        PositionV {
                            entry_bar: i,
                            entry_price: buy_price,
                            quantity,
                            highest_price: close,
                        },
                    ),
                    risk: risk_on_trade_spec(s.risk),
                    ..s
                }
            } else {
                s
            }
        } else {
            EngStateV { risk: bump_violation(s.risk), ..s }
        }
    } else {
        EngStateV { risk: bump_violation(s.risk), ..s }
    }
}

/// Whether the stop fires at bar `i`, after folding the bar's close into
/// the highest price since entry.
pub open spec fn stop_hit_at(
    cfg: ConfigV,
    bars: Seq<OHLCV>,
    atr: Option<int>,
    i: int,
    s: EngStateV,
) -> bool {
    match s.position {
        Some(pos) => is_hit_spec(
            cfg.stop,
            pos.entry_price,
            bars[i].close as int,
            max_i(pos.highest_price, bars[i].close as int),
            i - pos.entry_bar,
            atr,
        ),
        None => false,
    }
}

/// The fixed per-bar order: stop evaluation (which pre-empts the signal),
/// signal-driven entry or exit, equity mark, risk-metrics update.
pub open spec fn step_spec(
    cfg: ConfigV,
    bars: Seq<OHLCV>,
    atr: Option<int>,
    target: int,
    i: int,
    s: EngStateV,
) -> EngStateV {
    let close = bars[i].close as int;
    let hit = stop_hit_at(cfg, bars, atr, i, s);
    let s1 = if hit {
        EngStateV { prev_target: 0, ..exit_position_spec(cfg, bars, i, s) }
    } else {
        match s.position {
            Some(pos) => EngStateV {
                position: Some(
                    PositionV { highest_price: max_i(pos.highest_price, close), ..pos },
                ),
                ..s
            },
            None => s,
        }
    };
    let s2 = if !hit && target != s1.prev_target {
        if target > s1.prev_target {
            let entered = if s1.position is None {
                try_enter_spec(cfg, bars, i, s1)
            } else {
                s1
            };
            EngStateV { prev_target: target, ..entered }
        } else {
            EngStateV { prev_target: target, ..exit_position_spec(cfg, bars, i, s1) }
        }
    } else {
        s1
    };
    let equity = equity_spec(s2.portfolio, close);
    let exposure = match s2.position {
        Some(pos) => fx_mul(pos.quantity, close),
        None => 0,
    };
    EngStateV {
        risk: risk_update_spec(s2.risk, equity, exposure),
        equity_curve: s2.equity_curve.push(equity),
        ..s2
    }
}

/// The engine state after the first `n` bars.
pub open spec fn run_state_spec(
    cfg: ConfigV,
    bars: Seq<OHLCV>,
    sigs: Seq<int>,
    atrs: Seq<Option<int>>,
    n: int,
) -> EngStateV
    decreases n,
{
    if n <= 0 {
        engine_init_spec(cfg)
    } else {
        step_spec(
            cfg,
            bars,
            atrs[n - 1],
            sigs[n - 1],
            n - 1,
            run_state_spec(cfg, bars, sigs, atrs, n - 1),
        )
    }
}

/// Force-close any remaining position at the last bar's close; this final
/// close does not count against the cadence limits.
pub open spec fn final_close_spec(cfg: ConfigV, bars: Seq<OHLCV>, s: EngStateV) -> EngStateV {
    match s.position {
        Some(pos) => {
            let i = bars.len() as int - 1;
            let close = bars[i].close as int;
            let sell_price = fill_sell_spec(cfg.execution.slippage_bps as int, close);
            let p2 = sell_spec(
                s.portfolio,
                pos.quantity,
                sell_price,
                cfg.execution.commission_bps as int,
            );
            let t0 = trade_new_spec(
                bars[pos.entry_bar].timestamp as int,
                bars[i].timestamp as int,
                pos.entry_price,
                sell_price,
                pos.quantity,
            );
            let tr = TradeV { duration_bars: i - pos.entry_bar, ..t0 };
            EngStateV { portfolio: p2, position: None, trades: s.trades.push(tr), ..s }
        },
        None => s,
    }
}

/// The (high, low, close) triples of a bar sequence.
pub open spec fn hlc_of(bars: Seq<OHLCV>) -> Seq<(i64, i64, i64)> {
    bars.map_values(|b: OHLCV| (b.high, b.low, b.close))
}

/// The per-bar ATR input the engine uses: Wilder ATR under an ATR stop,
/// undefined everywhere otherwise.
pub open spec fn atrs_spec(cfg: ConfigV, bars: Seq<OHLCV>) -> Seq<Option<int>> {
    match cfg.stop {
        StopLossMethod::ATR { multiplier: _, period } => Seq::new(
            bars.len(),
            |i: int| atr_spec(hlc_of(bars), period as int, i),
        ),
        _ => Seq::new(bars.len(), |i: int| None),
    }
}

/// The complete result of a run: the state fold, a forced final close,
/// then the derived metrics over the equity curve and trade list, with
/// 252 trading periods to the year.
pub open spec fn backtest_result_spec(cfg: ConfigV, bars: Seq<OHLCV>, sigs: Seq<int>) -> BacktestResultV {
    let s = final_close_spec(
        cfg,
        bars,
        run_state_spec(cfg, bars, sigs, atrs_spec(cfg, bars), bars.len() as int),
    );
    let final_equity = s.equity_curve[s.equity_curve.len() - 1];
    let total_return = fx_div(fx_sub(final_equity, cfg.initial_capital), cfg.initial_capital);
    let rets = returns_spec(s.equity_curve);
    let mdd = max_drawdown_spec(s.equity_curve);
    BacktestResultV {
        initial_capital: cfg.initial_capital,
        final_equity,
        total_return,
        equity_curve: s.equity_curve,
        total_trades: s.portfolio.total_trades,
        sharpe_ratio: sharpe_spec(rets, 252),
        sortino_ratio: sortino_spec(rets, 252),
        calmar_ratio: calmar_spec(total_return, mdd, bars.len() as int),
        max_drawdown: mdd,
        trades: if s.trades.len() > 0 {
            Some(s.trades)
        } else {
            None
        },
        trade_stats: if s.trades.len() > 0 {
            Some(trade_stats_spec(s.trades))
        } else {
            None
        },
    }
}

/// The exec-side state matches the specification state after `i` bars,
/// with the bounds the arithmetic needs.
pub open spec fn state_inv(
    st: EngStateV,
    portfolio: Portfolio,
    position: Option<Position>,
    prev_target: i64,
    risk: RiskMetrics,
    trades: Seq<Trade>,
    equity_curve: Seq<i64>,
    i: int,
) -> bool {
    &&& portfolio@ == st.portfolio
    &&& portfolio.wf()
    &&& portfolio.total_trades as int <= i
    &&& pos_view(position) == st.position
    &&& (position matches Some(p) ==> p.entry_bar < i && in_range(p.entry_price as int)
        && in_range(p.quantity as int) && in_range(p.highest_price as int))
    &&& prev_target as int == st.prev_target
    &&& risk@ == st.risk
    &&& risk.wf()
    &&& risk.bars_since_last_trade as int <= i
    &&& risk.trades_today as int <= i
    &&& risk.risk_limit_violations as int <= i
    &&& trades_view(trades) == st.trades
    &&& trades_wf(trades)
    &&& trades.len() <= i
    &&& seq_int(equity_curve) == st.equity_curve
    &&& equity_curve.len() == i
    &&& seq_in_range(seq_int(equity_curve))
}

/// An open position tracked while the engine runs.
#[derive(Clone, Copy, Debug)]
pub struct Position {
    pub entry_bar: usize,
    pub entry_price: i64,
    pub quantity: i64,
    pub highest_price: i64,
}

impl View for Position {
    type V = PositionV;

    open spec fn view(&self) -> PositionV {
        PositionV {
            entry_bar: self.entry_bar as int,
            entry_price: self.entry_price as int,
            quantity: self.quantity as int,
            highest_price: self.highest_price as int,
        }
    }
}

/// The view of an optional position.
pub open spec fn pos_view(p: Option<Position>) -> Option<PositionV> {
    match p {
        Some(pos) => Some(pos@),
        None => None,
    }
}

/// The backtest engine: an immutable configuration plus the bar series,
/// driving one deterministic run per strategy.
pub struct BacktestEngine {
    pub data: Vec<OHLCV>,
    pub initial_capital: i64,
    pub execution_model: ExecutionModel,
    pub position_sizing: PositionSizingMethod,
    pub stop_loss: StopLossMethod,
    pub risk_limits: RiskLimits,
}

impl BacktestEngine {
    /// The configuration the specification-level run is folded over.
    pub open spec fn cfg(self) -> ConfigV {
        ConfigV {
            initial_capital: self.initial_capital as int,
            execution: self.execution_model,
            sizing: self.position_sizing,
            stop: self.stop_loss,
            limits: self.risk_limits,
        }
    }

    /// A configuration the engine accepts: well-formed bars and policies,
    /// the capital in range, and a bar count the arithmetic can carry.
    pub open spec fn wf(self) -> bool {
        &&& bars_wf(self.data@)
        &&& self.data@.len() < CAP as int
        &&& in_range(self.initial_capital as int)
        &&& self.execution_model.wf()
        &&& self.position_sizing.wf()
        &&& self.stop_loss.wf()
        &&& self.risk_limits.wf()
    }

    /// A new engine over the given bars with default sizing (all of
    /// equity), no stop loss and default risk limits.
    pub fn new(data: Vec<OHLCV>, initial_capital: i64, execution_model: ExecutionModel) -> (r:
        BacktestEngine)
        ensures
            r.data == data,
            r.initial_capital == initial_capital,
            r.execution_model == execution_model,
            r.position_sizing == PositionSizingMethod::FixedPercent(10_000_000_000i64),
            r.stop_loss == StopLossMethod::NoStop,
            r.risk_limits == (RiskLimits {
                max_position_pct: 10_000_000_000i64,
                max_portfolio_heat: 100_000_000i64,
                max_drawdown_threshold: 30_000_000i64,
                max_concurrent_positions: 1usize,
                max_trades_per_day: 0usize,
                min_bars_between_trades: 0usize,
            }),
    {
        BacktestEngine {
            data,
            initial_capital,
            execution_model,
            position_sizing: PositionSizingMethod::default(),
            stop_loss: StopLossMethod::default(),
            risk_limits: RiskLimits::default(),
        }
    }

    /// Replace the position sizing method.
    pub fn with_position_sizing(self, method: PositionSizingMethod) -> (r: BacktestEngine)
        ensures
            r == (BacktestEngine { position_sizing: method, ..self }),
    {
        BacktestEngine { position_sizing: method, ..self }
    }

    /// Replace the stop-loss method.
    pub fn with_stop_loss(self, method: StopLossMethod) -> (r: BacktestEngine)
        ensures
            r == (BacktestEngine { stop_loss: method, ..self }),
    {
        BacktestEngine { stop_loss: method, ..self }
    }

    /// Replace the risk limits.
    pub fn with_risk_limits(self, limits: RiskLimits) -> (r: BacktestEngine)
        ensures
            r == (BacktestEngine { risk_limits: limits, ..self }),
    {
        BacktestEngine { risk_limits: limits, ..self }
    }

    /// Run the full simulation for one strategy.  The result is the pure
    /// function `backtest_result_spec` of the configuration, the bars and
    /// the strategy's signals: same inputs, same result, always.
    #[verifier::rlimit(100)]
    pub fn run<S: Strategy>(&self, strategy: &S) -> (r: BacktestResult)
        requires
            self.wf(),
            strategy.wf(),
            self.data@.len() > 0,
        ensures
            r@ == backtest_result_spec(self.cfg(), self.data@, strategy.signals_spec(self.data@)),
            r.wf(),
    {
        let ghost cfg = self.cfg();
        let ghost bars = self.data@;
        let n = self.data.len();
        let signals = strategy.generate_signals(&self.data);
        let ghost sigs = seq_int(signals@);
        let atr_vec = self.precompute_atr();
        let ghost atrs = atrs_spec(cfg, bars);

        let mut portfolio = Portfolio::new(self.initial_capital);
        let mut position: Option<Position> = None;
        let mut prev_target: i64 = 0;
        let mut risk = RiskMetrics::new(self.initial_capital);
        let mut trades: Vec<Trade> = Vec::new();
        let mut equity_curve: Vec<i64> = Vec::new();
        proof {
            assert(trades_view(trades@) =~= run_state_spec(cfg, bars, sigs, atrs, 0).trades);
            assert(seq_int(equity_curve@) =~= run_state_spec(cfg, bars, sigs, atrs, 0).equity_curve);
        }

        let mut i: usize = 0;
        while i < n
            invariant
                self.wf(),
                cfg == self.cfg(),
                bars == self.data@,
                n == bars.len(),
                0 < n <= CAP as int,
                sigs == seq_int(signals@),
                signals_wf(sigs, n as int),
                signals@.len() == n,
                atr_vec@.len() == n,
                atrs == atrs_spec(cfg, bars),
                forall|j: int| 0 <= j < n ==> opt_int(#[trigger] atr_vec@[j]) == atrs[j],
                forall|j: int|
                    0 <= j < n ==> ((#[trigger] atr_vec@[j]) matches Some(a) ==> in_range(
                        a as int,
                    )),
                i <= n,
                state_inv(
                    run_state_spec(cfg, bars, sigs, atrs, i as int),
                    portfolio,
                    position,
                    prev_target,
                    risk,
                    trades@,
                    equity_curve@,
                    i as int,
                ),
            decreases n - i,
        {
            let ghost st = run_state_spec(cfg, bars, sigs, atrs, i as int);
            proof {
                assert(run_state_spec(cfg, bars, sigs, atrs, i as int + 1) == step_spec(
                    cfg,
                    bars,
                    atrs[i as int],
                    sigs[i as int],
                    i as int,
                    st,
                ));
                assert(sigs[i as int] == signals@[i as int] as int);
                assert(0 <= sigs[i as int] <= FP as int);
            }
            let atr_i = atr_vec[i];
            let target = signals[i];
            self.step_exec(
                i,
                target,
                atr_i,
                &mut portfolio,
                &mut position,
                &mut prev_target,
                &mut risk,
                &mut trades,
                &mut equity_curve,
                Ghost(st),
            );
            i = i + 1;
        }

        // force-close any remaining open position at the last close
        let ghost st_end = run_state_spec(cfg, bars, sigs, atrs, n as int);
        let ghost fin = final_close_spec(cfg, bars, st_end);
        match position {
            Some(pos) => {
                let last = n - 1;
                let close = self.data[last].close;
                proof {
                    assert(bars[last as int].wf());
                    assert(bars[pos.entry_bar as int].wf());
                }
                let sell_price = self.execution_model.execute_market_sell(close);
                portfolio.sell(pos.quantity, sell_price, self.execution_model.commission_bps);
                let mut trade = Trade::new(
                    self.data[pos.entry_bar].timestamp,
                    self.data[last].timestamp,
                    pos.entry_price,
                    sell_price,
                    pos.quantity,
                );
                trade.duration_bars = last - pos.entry_bar;
                trades.push(trade);
            },
            None => {},
        }
        proof {
            assert(portfolio@ == fin.portfolio);
            assert(trades_view(trades@) =~= fin.trades);
            assert(seq_int(equity_curve@) == fin.equity_curve);
            assert(fin.equity_curve.len() == n as int);
        }

        let final_equity = equity_curve[n - 1];
        let total_return = div_fx(
            sub_fx(final_equity, self.initial_capital),
            self.initial_capital,
        );
        let rets = per_bar_returns(&equity_curve);
        let sharpe_ratio = calculate_sharpe_ratio(&rets, 252);
        let sortino_ratio = calculate_sortino_ratio(&rets, 252);
        let max_drawdown = calculate_max_drawdown(&equity_curve);
        let calmar_ratio = calculate_calmar_ratio(total_return, max_drawdown, n);

        let total_trades = portfolio.total_trades;
        let trade_stats = if trades.len() > 0 {
            Some(TradeStats::from_trades(&trades))
        } else {
            None
        };
        let trades_opt = if trades.len() > 0 {
            Some(trades)
        } else {
            None
        };

        BacktestResult {
            initial_capital: self.initial_capital,
            final_equity,
            total_return,
            equity_curve,
            total_trades,
            sharpe_ratio,
            sortino_ratio,
            calmar_ratio,
            max_drawdown,
            trades: trades_opt,
            trade_stats,
        }
    }

    /// One bar of the state machine, exactly `step_spec` on the state.
    #[verifier::rlimit(100)]
    fn step_exec(
        &self,
        i: usize,
        target: i64,
        atr_i: Option<i64>,
        portfolio: &mut Portfolio,
        position: &mut Option<Position>,
        prev_target: &mut i64,
        risk: &mut RiskMetrics,
        trades: &mut Vec<Trade>,
        equity_curve: &mut Vec<i64>,
        Ghost(st): Ghost<EngStateV>,
    )
        requires
            self.wf(),
            i < self.data@.len(),
            i < usize::MAX,
            self.data@.len() <= CAP as int,
            0 <= target as int <= FP as int,
            atr_i matches Some(a) ==> in_range(a as int),
            state_inv(
                st,
                *old(portfolio),
                *old(position),
                *old(prev_target),
                *old(risk),
                old(trades)@,
                old(equity_curve)@,
                i as int,
            ),
        ensures
            state_inv(
                step_spec(self.cfg(), self.data@, opt_int(atr_i), target as int, i as int, st),
                *final(portfolio),
                *final(position),
                *final(prev_target),
                *final(risk),
                final(trades)@,
                final(equity_curve)@,
                i as int + 1,
            ),
    {
        let ghost cfg = self.cfg();
        let ghost bars = self.data@;
        let ghost stn = step_spec(cfg, bars, opt_int(atr_i), target as int, i as int, st);
        proof {
            assert(bars[i as int].wf());
        }
        let close = self.data[i].close;

        // (1) stop-loss evaluation, pre-empting the signal on a hit
        let mut stop_hit = false;
        match *position {
            Some(pos) => {
                proof {
                    assert(bars[pos.entry_bar as int].wf());
                }
                let highest = max_fx(pos.highest_price, close);
                if self.stop_loss.is_hit(
                    pos.entry_price,
                    close,
                    highest,
                    i - pos.entry_bar,
                    atr_i,
                ) {
                    stop_hit = true;
                    let sell_price = self.execution_model.execute_market_sell(close);
                    portfolio.sell(pos.quantity, sell_price, self.execution_model.commission_bps);
                    let mut trade = Trade::new(
                        self.data[pos.entry_bar].timestamp,
                        self.data[i].timestamp,
                        pos.entry_price,
                        sell_price,
                        pos.quantity,
                    );
                    trade.duration_bars = i - pos.entry_bar;
                    trades.push(trade);
                    risk.on_trade();
                    *position = None;
                    *prev_target = 0;
                } else {
                    *position = Some(Position { highest_price: highest, ..pos });
                }
            },
            None => {},
        }
        let ghost s1 = (if stop_hit_at(cfg, bars, opt_int(atr_i), i as int, st) {
            EngStateV { prev_target: 0, ..exit_position_spec(cfg, bars, i as int, st) }
        } else {
            match st.position {
                Some(pos) => EngStateV {
                    position: Some(
                        PositionV {
                            highest_price: max_i(pos.highest_price, bars[i as int].close as int),
                            ..pos
                        },
                    ),
                    ..st
                },
                None => st,
            }
        });
        proof {
            assert(stop_hit == stop_hit_at(cfg, bars, opt_int(atr_i), i as int, st));
            assert(portfolio@ == s1.portfolio);
            assert(pos_view(*position) == s1.position);
            assert(trades_view(trades@) =~= s1.trades);
            assert(*prev_target as int == s1.prev_target);
            assert(risk@ == s1.risk);
        }

        // (2) signal-driven entry or exit
        if !stop_hit && target != *prev_target {
            if target > *prev_target {
                match *position {
                    None => {
                        let equity = portfolio.equity(close);
                        if self.risk_limits.check_drawdown(
                            equity,
                            risk.peak_equity,
                        ) && self.risk_limits.can_trade(
                            risk.bars_since_last_trade,
                            risk.trades_today,
                        ) {
                            let position_value = self.position_sizing.calculate_size(equity, None);
                            if self.risk_limits.check_position_size(position_value, equity) {
                                let buy_price = self.execution_model.execute_market_buy(close);
                                let quantity = div_fx(position_value, buy_price);
                                if portfolio.cash >= mul_fx(quantity, buy_price) {
                                    portfolio.buy(
                                        quantity,
                                        buy_price,
                                        self.execution_model.commission_bps,
                                    );
                                    *position = Some(
                                        Position {
                                            entry_bar: i,
                                            entry_price: buy_price,
                                            quantity,
                                            highest_price: close,
                                        },
                                    );
                                    risk.on_trade();
                                }
                            } else {
                                risk.risk_limit_violations = risk.risk_limit_violations + 1;
                            }
                        } else {
                            risk.risk_limit_violations = risk.risk_limit_violations + 1;
                        }
                    },
                    Some(_) => {},
                }
            } else {
                match *position {
                    Some(pos) => {
                        proof {
                            assert(bars[pos.entry_bar as int].wf());
                        }
                        let sell_price = self.execution_model.execute_market_sell(close);
                        portfolio.sell(
                            pos.quantity,
                            sell_price,
                            self.execution_model.commission_bps,
                        );
                        let mut trade = Trade::new(
                            self.data[pos.entry_bar].timestamp,
                            self.data[i].timestamp,
                            pos.entry_price,
                            sell_price,
                            pos.quantity,
                        );
                        trade.duration_bars = i - pos.entry_bar;
                        trades.push(trade);
                        risk.on_trade();
                        *position = None;
                    },
                    None => {},
                }
            }
            *prev_target = target;
        }
        let ghost s2 = (if !stop_hit_at(cfg, bars, opt_int(atr_i), i as int, st) && target as int
            != s1.prev_target {
            if target as int > s1.prev_target {
                let entered = if s1.position is None {
                    try_enter_spec(cfg, bars, i as int, s1)
                } else {
                    s1
                };
                EngStateV { prev_target: target as int, ..entered }
            } else {
                EngStateV {
                    prev_target: target as int,
                    ..exit_position_spec(cfg, bars, i as int, s1)
                }
            }
        } else {
            s1
        });
        proof {
            assert(portfolio@ == s2.portfolio);
            assert(pos_view(*position) == s2.position);
            assert(trades_view(trades@) =~= s2.trades);
            assert(*prev_target as int == s2.prev_target);
            assert(risk@ == s2.risk);
        }

        // (3) mark equity, (4) update risk metrics
        let equity = portfolio.equity(close);
        equity_curve.push(equity);
        let exposure = match *position {
            Some(pos) => mul_fx(pos.quantity, close),
            None => 0,
        };
        risk.update(equity, exposure);

        proof {
            assert(portfolio@ == stn.portfolio);
            assert(pos_view(*position) == stn.position);
            assert(trades_view(trades@) =~= stn.trades);
            assert(*prev_target as int == stn.prev_target);
            assert(risk@ == stn.risk);
            assert(seq_int(equity_curve@) =~= stn.equity_curve);
        }
    }

    /// Run the buy-and-hold baseline.
    pub fn run_buy_and_hold(&self) -> (r: BacktestResult)
        requires
            self.wf(),
            self.data@.len() > 0,
        ensures
            r@ == backtest_result_spec(
                self.cfg(),
                self.data@,
                BuyAndHold.signals_spec(self.data@),
            ),
            r.wf(),
    {
        let strategy = BuyAndHold::new();
        self.run(&strategy)
    }

    /// The per-bar ATR values for an ATR stop; undefined otherwise.
    fn precompute_atr(&self) -> (r: Vec<Option<i64>>)
        requires
            self.wf(),
        ensures
            r@.len() == self.data@.len(),
            forall|j: int|
                0 <= j < self.data@.len() ==> opt_int(#[trigger] r@[j]) == atrs_spec(
                    self.cfg(),
                    self.data@,
                )[j],
            forall|j: int|
                0 <= j < self.data@.len() ==> ((#[trigger] r@[j]) matches Some(a) ==> in_range(
                    a as int,
                )),
    {
        let n = self.data.len();
        match self.stop_loss {
            StopLossMethod::ATR { multiplier: _, period } => {
                let mut hlc: Vec<(i64, i64, i64)> = Vec::new();
                let mut i: usize = 0;
                while i < n
                    invariant
                        self.wf(),
                        n == self.data@.len(),
                        i <= n,
                        hlc@.len() == i,
                        forall|j: int| 0 <= j < i ==> hlc@[j] == hlc_of(self.data@)[j],
                    decreases n - i,
                {
                    proof {
                        assert(self.data@[i as int].wf());
                    }
                    let b = self.data[i];
                    hlc.push((b.high, b.low, b.close));
                    i = i + 1;
                }
                proof {
                    assert(hlc@ =~= hlc_of(self.data@));
                    assert forall|j: int| 0 <= j < hlc@.len() implies in_range(
                        (#[trigger] hlc@[j]).0 as int,
                    ) && in_range(hlc@[j].1 as int) && in_range(hlc@[j].2 as int) by {
                        assert(self.data@[j].wf());
                        assert(hlc@[j] == hlc_of(self.data@)[j]);
                    }
                }
                let atr = calculate_atr(&hlc, period);
                proof {
                    assert forall|j: int| 0 <= j < n implies (#[trigger] atr@[j]) matches Some(a)
                        ==> in_range(a as int) by {
                        if atr@[j] is Some {
                            crate::stops::lemma_atr_in_range(
                                hlc@,
                                period as int,
                                j,
                            );
                        }
                    }
                }
                atr
            },
            _ => {
                let mut out: Vec<Option<i64>> = Vec::new();
                let mut i: usize = 0;
                while i < n
                    invariant
                        i <= n,
                        out@.len() == i,
                        forall|j: int| 0 <= j < i ==> (#[trigger] out@[j]) is None,
                    decreases n - i,
                {
                    out.push(None);
                    i = i + 1;
                }
                out
            },
        }
    }
}

} // verus!
