//! Risk limits (the gating policy) and running risk metrics.

use vstd::prelude::*;
use crate::fixed::{abs_fx, abs_i, div_fx, fx_div, fx_mul, fx_sub, in_range, max_fx, max_i, min_fx,
    min_i, mul_fx, sub_fx, FP};

verus! {

/// Risk management limits: percentages and fractions in fixed point.
#[derive(Clone, Copy, Debug, PartialEq, Eq, Structural)]
pub struct RiskLimits {
    /// Maximum position size as a percentage of equity.
    pub max_position_pct: i64,
    /// Maximum total exposure as a fraction of equity.
    pub max_portfolio_heat: i64,
    /// Maximum drawdown from peak before entries stop.
    pub max_drawdown_threshold: i64,
    /// Maximum number of concurrent positions.
    pub max_concurrent_positions: usize,
    /// Maximum trades per day; 0 means unlimited.
    pub max_trades_per_day: usize,
    /// Minimum bars between trades.
    pub min_bars_between_trades: usize,
}

impl RiskLimits {
    pub open spec fn wf(self) -> bool {
        &&& in_range(self.max_position_pct as int)
        &&& in_range(self.max_portfolio_heat as int)
        &&& in_range(self.max_drawdown_threshold as int)
    }

    /// Permissive defaults: all-in allowed, entries stop at a 30% drawdown.
    pub fn new() -> (r: RiskLimits)
        ensures
            r == (RiskLimits {
                max_position_pct: 10_000_000_000i64,
                max_portfolio_heat: 100_000_000i64,
                max_drawdown_threshold: 30_000_000i64,
                max_concurrent_positions: 1usize,
                max_trades_per_day: 0usize,
                min_bars_between_trades: 0usize,
            }),
            r.wf(),
    {
        RiskLimits {
            max_position_pct: 10_000_000_000i64,
            max_portfolio_heat: 100_000_000i64,
            max_drawdown_threshold: 30_000_000i64,
            max_concurrent_positions: 1usize,
            max_trades_per_day: 0usize,
            min_bars_between_trades: 0usize,
        }
    }

    /// Conservative limits: half-size positions, tighter cadence.
    pub fn conservative() -> (r: RiskLimits)
        ensures
            r == (RiskLimits {
                max_position_pct: 5_000_000_000i64,
                max_portfolio_heat: 50_000_000i64,
                max_drawdown_threshold: 20_000_000i64,
                max_concurrent_positions: 1usize,
                max_trades_per_day: 2usize,
                min_bars_between_trades: 5usize,
            }),
            r.wf(),
    {
        RiskLimits {
            max_position_pct: 5_000_000_000i64,
            max_portfolio_heat: 50_000_000i64,
            max_drawdown_threshold: 20_000_000i64,
            max_concurrent_positions: 1usize,
            max_trades_per_day: 2usize,
            min_bars_between_trades: 5usize,
        }
    }

    /// Aggressive limits: all-in allowed, entries stop only at a 50% drawdown.
    pub fn aggressive() -> (r: RiskLimits)
        ensures
            r == (RiskLimits {
                max_position_pct: 10_000_000_000i64,
                max_portfolio_heat: 100_000_000i64,
                max_drawdown_threshold: 50_000_000i64,
                max_concurrent_positions: 1usize,
                max_trades_per_day: 0usize,
                min_bars_between_trades: 0usize,
            }),
            r.wf(),
    {
        RiskLimits {
            max_position_pct: 10_000_000_000i64,
            max_portfolio_heat: 100_000_000i64,
            max_drawdown_threshold: 50_000_000i64,
            max_concurrent_positions: 1usize,
            max_trades_per_day: 0usize,
            min_bars_between_trades: 0usize,
        }
    }
}

impl Default for RiskLimits {
    fn default() -> (r: Self)
        ensures
            r == (RiskLimits {
                max_position_pct: 10_000_000_000i64,
                max_portfolio_heat: 100_000_000i64,
                max_drawdown_threshold: 30_000_000i64,
                max_concurrent_positions: 1usize,
                max_trades_per_day: 0usize,
                min_bars_between_trades: 0usize,
            }),
            r.wf(),
    {
        RiskLimits::new()
    }
}

/// The requested position is within `max_position_pct` of equity.
pub open spec fn check_position_size_spec(l: RiskLimits, position_value: int, equity: int) -> bool {
    fx_mul(fx_div(position_value, equity), 100 * (FP as int)) <= l.max_position_pct as int
}

/// Total exposure is within `max_portfolio_heat` of equity.
pub open spec fn check_portfolio_heat_spec(l: RiskLimits, total_exposure: int, equity: int) -> bool {
    fx_div(total_exposure, equity) <= l.max_portfolio_heat as int
}

/// The drawdown from peak is still below the threshold.
pub open spec fn check_drawdown_spec(l: RiskLimits, current_equity: int, peak_equity: int) -> bool {
    if peak_equity == 0 {
        true
    } else {
        abs_i(fx_div(fx_sub(current_equity, peak_equity), peak_equity))
            < l.max_drawdown_threshold as int
    }
}

/// Trade cadence limits allow another trade.
pub open spec fn can_trade_spec(l: RiskLimits, bars_since_last_trade: int, trades_today: int) -> bool {
    &&& bars_since_last_trade >= l.min_bars_between_trades as int
    &&& (l.max_trades_per_day as int == 0 || trades_today < l.max_trades_per_day as int)
}

impl RiskLimits {
    /// Whether the requested position value passes the size limit.
    pub fn check_position_size(&self, position_value: i64, equity: i64) -> (r: bool)
        requires
            self.wf(),
            in_range(position_value as int),
            in_range(equity as int),
        ensures
            r == check_position_size_spec(*self, position_value as int, equity as int),
    {
        let pct = mul_fx(div_fx(position_value, equity), 10_000_000_000i64);
        pct <= self.max_position_pct
    }

    /// Whether total exposure passes the heat limit.
    pub fn check_portfolio_heat(&self, total_exposure: i64, equity: i64) -> (r: bool)
        requires
            self.wf(),
            in_range(total_exposure as int),
            in_range(equity as int),
        ensures
            r == check_portfolio_heat_spec(*self, total_exposure as int, equity as int),
    {
        let heat = div_fx(total_exposure, equity);
        heat <= self.max_portfolio_heat
    }

    /// Whether the drawdown from peak is still below the threshold.
    pub fn check_drawdown(&self, current_equity: i64, peak_equity: i64) -> (r: bool)
        requires
            self.wf(),
            in_range(current_equity as int),
            in_range(peak_equity as int),
        ensures
            r == check_drawdown_spec(*self, current_equity as int, peak_equity as int),
    {
        if peak_equity == 0 {
            return true;
        }
        let drawdown = div_fx(sub_fx(current_equity, peak_equity), peak_equity);
        abs_fx(drawdown) < self.max_drawdown_threshold
    }

    /// Whether time-based limits allow another trade.
    pub fn can_trade(&self, bars_since_last_trade: usize, trades_today: usize) -> (r: bool)
        ensures
            r == can_trade_spec(*self, bars_since_last_trade as int, trades_today as int),
    {
        if bars_since_last_trade < self.min_bars_between_trades {
            return false;
        }
        if self.max_trades_per_day > 0 && trades_today >= self.max_trades_per_day {
            return false;
        }
        true
    }
}

/// Running risk state as mathematical values.
pub ghost struct RiskMetricsV {
    pub peak_equity: int,
    pub current_drawdown: int,
    pub max_drawdown_hit: int,
    pub total_exposure: int,
    pub trades_today: int,
    pub bars_since_last_trade: int,
    pub risk_limit_violations: int,
}

/// The running risk state after one bar at `equity` with `exposure`.
pub open spec fn risk_update_spec(m: RiskMetricsV, equity: int, exposure: int) -> RiskMetricsV {
    let peak = max_i(m.peak_equity, equity);
    let dd = fx_div(fx_sub(equity, peak), peak);
    RiskMetricsV {
        peak_equity: peak,
        current_drawdown: dd,
        max_drawdown_hit: min_i(m.max_drawdown_hit, dd),
        total_exposure: exposure,
        trades_today: m.trades_today,
        bars_since_last_trade: m.bars_since_last_trade + 1,
        risk_limit_violations: m.risk_limit_violations,
    }
}

/// The running risk state after a completed trade.
pub open spec fn risk_on_trade_spec(m: RiskMetricsV) -> RiskMetricsV {
    RiskMetricsV {
        trades_today: m.trades_today + 1,
        bars_since_last_trade: 0,
        ..m
    }
}

/// Risk state tracked while a backtest runs.
#[derive(Clone, Copy, Debug)]
pub struct RiskMetrics {
    pub peak_equity: i64,
    pub current_drawdown: i64,
    pub max_drawdown_hit: i64,
    pub total_exposure: i64,
    pub trades_today: usize,
    pub bars_since_last_trade: usize,
    pub risk_limit_violations: usize,
}

impl View for RiskMetrics {
    type V = RiskMetricsV;

    open spec fn view(&self) -> RiskMetricsV {
        RiskMetricsV {
            peak_equity: self.peak_equity as int,
            current_drawdown: self.current_drawdown as int,
            max_drawdown_hit: self.max_drawdown_hit as int,
            total_exposure: self.total_exposure as int,
            trades_today: self.trades_today as int,
            bars_since_last_trade: self.bars_since_last_trade as int,
            risk_limit_violations: self.risk_limit_violations as int,
        }
    }
}

impl RiskMetrics {
    pub open spec fn wf(self) -> bool {
        &&& in_range(self.peak_equity as int)
        &&& in_range(self.current_drawdown as int)
        &&& in_range(self.max_drawdown_hit as int)
        &&& in_range(self.total_exposure as int)
    }

    pub fn new(initial_equity: i64) -> (r: RiskMetrics)
        requires
            in_range(initial_equity as int),
        ensures
            r@ == (RiskMetricsV {
                peak_equity: initial_equity as int,
                current_drawdown: 0,
                max_drawdown_hit: 0,
                total_exposure: 0,
                trades_today: 0,
                bars_since_last_trade: 0,
                risk_limit_violations: 0,
            }),
            r.wf(),
    {
        RiskMetrics {
            peak_equity: initial_equity,
            current_drawdown: 0,
            max_drawdown_hit: 0,
            total_exposure: 0,
            trades_today: 0,
            bars_since_last_trade: 0,
            risk_limit_violations: 0,
        }
    }

    /// Fold one bar's equity and exposure into the running state.
    pub fn update(&mut self, equity: i64, exposure: i64)
        requires
            old(self).wf(),
            in_range(equity as int),
            in_range(exposure as int),
            old(self).bars_since_last_trade < usize::MAX,
        ensures
            final(self)@ == risk_update_spec(old(self)@, equity as int, exposure as int),
            final(self).wf(),
            final(self).trades_today == old(self).trades_today,
            final(self).risk_limit_violations == old(self).risk_limit_violations,
    {
        self.peak_equity = max_fx(self.peak_equity, equity);
        self.current_drawdown = div_fx(sub_fx(equity, self.peak_equity), self.peak_equity);
        self.max_drawdown_hit = min_fx(self.max_drawdown_hit, self.current_drawdown);
        self.total_exposure = exposure;
        self.bars_since_last_trade = self.bars_since_last_trade + 1;
    }

    /// Record a completed trade.
    pub fn on_trade(&mut self)
        requires
            old(self).wf(),
            old(self).trades_today < usize::MAX,
        ensures
            final(self)@ == risk_on_trade_spec(old(self)@),
            final(self).wf(),
            final(self).peak_equity == old(self).peak_equity,
            final(self).risk_limit_violations == old(self).risk_limit_violations,
    {
        self.trades_today = self.trades_today + 1;
        self.bars_since_last_trade = 0;
    }

    /// Reset the per-day trade counter.
    pub fn on_new_day(&mut self)
        requires
            old(self).wf(),
        ensures
            final(self)@ == (RiskMetricsV { trades_today: 0, ..old(self)@ }),
            final(self).wf(),
    {
        self.trades_today = 0;
    }
}

} // verus!
