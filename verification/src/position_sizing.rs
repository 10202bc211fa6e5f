//! Position sizing formulas: how much equity to commit to an entry.

use vstd::prelude::*;
use crate::fixed::{div_fx, fx_div, fx_mul, fx_sub, in_range, max_fx, max_i, min_fx, min_i, mul_fx,
    sub_fx, FP};
use crate::stops::{opt_int, pct_fraction, pct_fraction_exec};

verus! {

/// Position sizing methods; fractions and percentages in fixed point.
#[derive(Clone, Copy, Debug, PartialEq, Eq, Structural)]
pub enum PositionSizingMethod {
    /// A fixed amount per trade, capped at current equity.
    FixedDollar(i64),
    /// A fixed percentage of current equity per trade.
    FixedPercent(i64),
    /// Kelly-criterion fraction of equity, capped at a quarter.
    Kelly { win_rate: i64, avg_win: i64, avg_loss: i64 },
    /// Half the Kelly fraction.
    HalfKelly { win_rate: i64, avg_win: i64, avg_loss: i64 },
    /// Risk a fixed percentage of equity against a per-unit risk amount.
    FixedFractional { risk_per_trade: i64 },
}

impl PositionSizingMethod {
    /// Parameters the formulas accept: percentages between 0 and 100, a
    /// win rate between 0 and 1, non-negative average win and loss.
    pub open spec fn wf(self) -> bool {
        match self {
            PositionSizingMethod::FixedDollar(amount) => 0 <= amount as int && in_range(
                amount as int,
            ),
            PositionSizingMethod::FixedPercent(p) => 0 <= p as int <= 100 * (FP as int),
            PositionSizingMethod::Kelly { win_rate, avg_win, avg_loss } => 0 <= win_rate as int
                <= FP as int && 0 <= avg_win as int && in_range(avg_win as int) && 0
                <= avg_loss as int && in_range(avg_loss as int),
            PositionSizingMethod::HalfKelly { win_rate, avg_win, avg_loss } => 0 <= win_rate as int
                <= FP as int && 0 <= avg_win as int && in_range(avg_win as int) && 0
                <= avg_loss as int && in_range(avg_loss as int),
            PositionSizingMethod::FixedFractional { risk_per_trade } => 0 <= risk_per_trade as int
                <= 100 * (FP as int),
        }
    }
}

impl Default for PositionSizingMethod {
    /// All of equity per trade.
    fn default() -> (r: Self)
        ensures
            r == PositionSizingMethod::FixedPercent(10_000_000_000i64),
    {
        PositionSizingMethod::FixedPercent(10_000_000_000i64)
    }
}

/// The Kelly fraction `clamp((p * R - (1 - p)) / R, 0, 1/4)` with
/// `R = avg_win / avg_loss`; a quarter when there are no losses to
/// measure `R` by, zero when `R` rounds to nothing.
pub open spec fn kelly_spec(win_rate: int, avg_win: int, avg_loss: int) -> int {
    if avg_loss == 0 {
        (FP as int) / 4
    } else {
        let r = fx_div(avg_win, avg_loss);
        let kelly = fx_div(fx_sub(fx_mul(win_rate, r), fx_sub(FP as int, win_rate)), r);
        min_i(max_i(kelly, 0), (FP as int) / 4)
    }
}

/// The equity committed to one entry under method `m`, never more than
/// current equity.
pub open spec fn calculate_size_spec(
    m: PositionSizingMethod,
    equity: int,
    risk_amount: Option<int>,
) -> int {
    match m {
        PositionSizingMethod::FixedDollar(amount) => min_i(amount as int, equity),
        PositionSizingMethod::FixedPercent(p) => min_i(
            fx_mul(equity, pct_fraction(p as int)),
            equity,
        ),
        PositionSizingMethod::Kelly { win_rate, avg_win, avg_loss } => min_i(
            fx_mul(equity, kelly_spec(win_rate as int, avg_win as int, avg_loss as int)),
            equity,
        ),
        PositionSizingMethod::HalfKelly { win_rate, avg_win, avg_loss } => min_i(
            fx_mul(
                equity,
                fx_mul(kelly_spec(win_rate as int, avg_win as int, avg_loss as int), (FP as int) / 2),
            ),
            equity,
        ),
        PositionSizingMethod::FixedFractional { risk_per_trade } => {
            let fallback = fx_mul(equity, pct_fraction(risk_per_trade as int));
            match risk_amount {
                Some(risk) => if risk > 0 {
                    min_i(fx_div(fallback, risk), equity)
                } else {
                    min_i(fallback, equity)
                },
                None => min_i(fallback, equity),
            }
        },
    }
}

impl PositionSizingMethod {
    /// The equity committed to one entry given current equity and, for the
    /// risk-based method, the per-unit risk amount.
    pub fn calculate_size(&self, equity: i64, risk_amount: Option<i64>) -> (r: i64)
        requires
            self.wf(),
            in_range(equity as int),
            risk_amount matches Some(a) ==> in_range(a as int),
        ensures
            r as int == calculate_size_spec(*self, equity as int, opt_int(risk_amount)),
            in_range(r as int),
    {
        match self {
            PositionSizingMethod::FixedDollar(amount) => min_fx(*amount, equity),
            PositionSizingMethod::FixedPercent(p) => {
                min_fx(mul_fx(equity, pct_fraction_exec(*p)), equity)
            },
            PositionSizingMethod::Kelly { win_rate, avg_win, avg_loss } => {
                let kelly = Self::kelly_criterion(*win_rate, *avg_win, *avg_loss);
                min_fx(mul_fx(equity, kelly), equity)
            },
            PositionSizingMethod::HalfKelly { win_rate, avg_win, avg_loss } => {
                let kelly = Self::kelly_criterion(*win_rate, *avg_win, *avg_loss);
                min_fx(mul_fx(equity, mul_fx(kelly, FP / 2)), equity)
            },
            PositionSizingMethod::FixedFractional { risk_per_trade } => {
                let fallback = mul_fx(equity, pct_fraction_exec(*risk_per_trade));
                match risk_amount {
                    Some(risk) => {
                        if risk > 0 {
                            min_fx(div_fx(fallback, risk), equity)
                        } else {
                            min_fx(fallback, equity)
                        }
                    },
                    None => min_fx(fallback, equity),
                }
            },
        }
    }

    /// The Kelly fraction, capped at a quarter to prevent over-leveraging.
    fn kelly_criterion(win_rate: i64, avg_win: i64, avg_loss: i64) -> (r: i64)
        requires
            0 <= win_rate as int <= FP as int,
            0 <= avg_win as int,
            in_range(avg_win as int),
            0 <= avg_loss as int,
            in_range(avg_loss as int),
        ensures
            r as int == kelly_spec(win_rate as int, avg_win as int, avg_loss as int),
            0 <= r as int <= (FP as int) / 4,
    {
        if avg_loss == 0 {
            return FP / 4;
        }
        let win_loss_ratio = div_fx(avg_win, avg_loss);
        let loss_prob = sub_fx(FP, win_rate);
        let kelly = div_fx(sub_fx(mul_fx(win_rate, win_loss_ratio), loss_prob), win_loss_ratio);
        min_fx(max_fx(kelly, 0), FP / 4)
    }
}

} // verus!
