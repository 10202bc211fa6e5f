//! Stop-loss policies and the Average True Range.

use vstd::prelude::*;
use crate::fixed::{
    abs_fx, abs_i, div_floor_i128, fx_mul, fx_sub, in_range, lemma_div_bounds, max_fx, max_i,
    mul_fx, sub_fx, CAP, FP,
};

verus! {

/// Per-position stop evaluator, stateless between calls.
#[derive(Clone, Copy, Debug, PartialEq, Eq, Structural)]
pub enum StopLossMethod {
    /// No stop loss: never triggers.
    NoStop,
    /// Hit when price falls to `percent` below the entry price.
    FixedPercent(i64),
    /// Hit when price falls to `percent` below the highest price since entry.
    Trailing(i64),
    /// Hit when price falls `multiplier * ATR(period)` below the entry price.
    ATR { multiplier: i64, period: usize },
    /// Hit once the position has been held `max_bars` bars.
    TimeLimit(usize),
}

impl StopLossMethod {
    /// Parameters the evaluator accepts: percentages between 0 and 100,
    /// a non-negative multiplier, a positive averaging period.
    pub open spec fn wf(self) -> bool {
        match self {
            StopLossMethod::NoStop => true,
            StopLossMethod::FixedPercent(p) => 0 <= p as int <= 100 * (FP as int),
            StopLossMethod::Trailing(p) => 0 <= p as int <= 100 * (FP as int),
            StopLossMethod::ATR { multiplier, period } => 0 <= multiplier as int
                && in_range(multiplier as int) && 1 <= period,
            StopLossMethod::TimeLimit(_) => true,
        }
    }
}

impl Default for StopLossMethod {
    fn default() -> (r: Self)
        ensures
            r == StopLossMethod::NoStop,
    {
        StopLossMethod::NoStop
    }
}

/// A percentage turned into a fixed-point fraction of 1.
pub open spec fn pct_fraction(p: int) -> int {
    crate::fixed::floor_div(p, 100)
}

/// The stop threshold for a percentage stop anchored at `anchor`:
/// `anchor * (1 - percent / 100)`.
pub open spec fn pct_stop_price(anchor: int, p: int) -> int {
    fx_mul(anchor, fx_sub(FP as int, pct_fraction(p)))
}

/// Whether the stop is hit at the current bar.
pub open spec fn is_hit_spec(
    m: StopLossMethod,
    entry_price: int,
    current_price: int,
    highest_price: int,
    bars_held: int,
    atr: Option<int>,
) -> bool {
    match m {
        StopLossMethod::NoStop => false,
        StopLossMethod::FixedPercent(p) => current_price <= pct_stop_price(
            entry_price,
            p as int,
        ),
        StopLossMethod::Trailing(p) => current_price <= pct_stop_price(highest_price, p as int),
        StopLossMethod::ATR { multiplier, period: _ } => match atr {
            Some(a) => current_price <= fx_sub(entry_price, fx_mul(multiplier as int, a)),
            None => false,
        },
        StopLossMethod::TimeLimit(max_bars) => bars_held >= max_bars as int,
    }
}

/// The stop threshold, where one exists for the method.
pub open spec fn stop_price_spec(
    m: StopLossMethod,
    entry_price: int,
    highest_price: int,
    atr: Option<int>,
) -> Option<int> {
    match m {
        StopLossMethod::NoStop => None,
        StopLossMethod::FixedPercent(p) => Some(pct_stop_price(entry_price, p as int)),
        StopLossMethod::Trailing(p) => Some(pct_stop_price(highest_price, p as int)),
        StopLossMethod::ATR { multiplier, period: _ } => match atr {
            Some(a) => Some(fx_sub(entry_price, fx_mul(multiplier as int, a))),
            None => None,
        },
        StopLossMethod::TimeLimit(_) => None,
    }
}

/// A percentage turned into a fixed-point fraction of 1.
pub fn pct_fraction_exec(p: i64) -> (r: i64)
    requires
        0 <= p as int <= 100 * (FP as int),
    ensures
        r as int == pct_fraction(p as int),
        0 <= r as int <= FP as int,
{
    let q = div_floor_i128(p as i128, 100);
    proof {
        lemma_div_bounds(p as int, 100, FP as int);
        vstd::arithmetic::div_mod::lemma_div_pos_is_pos(p as int, 100);
    }
    q as i64
}

impl StopLossMethod {
    /// Whether the position should be closed at the current bar.
    pub fn is_hit(
        &self,
        entry_price: i64,
        current_price: i64,
        highest_price: i64,
        bars_held: usize,
        atr: Option<i64>,
    ) -> (r: bool)
        requires
            self.wf(),
            in_range(entry_price as int),
            in_range(current_price as int),
            in_range(highest_price as int),
            atr matches Some(a) ==> in_range(a as int),
        ensures
            r == is_hit_spec(
                *self,
                entry_price as int,
                current_price as int,
                highest_price as int,
                bars_held as int,
                opt_int(atr),
            ),
    {
        match self {
            StopLossMethod::NoStop => false,
            StopLossMethod::FixedPercent(p) => {
                let stop_price = mul_fx(entry_price, sub_fx(FP, pct_fraction_exec(*p)));
                current_price <= stop_price
            },
            StopLossMethod::Trailing(p) => {
                let stop_price = mul_fx(highest_price, sub_fx(FP, pct_fraction_exec(*p)));
                current_price <= stop_price
            },
            StopLossMethod::ATR { multiplier, period: _ } => {
                match atr {
                    Some(atr_value) => {
                        let stop_price = sub_fx(entry_price, mul_fx(*multiplier, atr_value));
                        current_price <= stop_price
                    },
                    None => false,
                }
            },
            StopLossMethod::TimeLimit(max_bars) => bars_held >= *max_bars,
        }
    }

    /// The stop threshold, where one exists for the method.
    pub fn get_stop_price(
        &self,
        entry_price: i64,
        highest_price: i64,
        atr: Option<i64>,
    ) -> (r: Option<i64>)
        requires
            self.wf(),
            in_range(entry_price as int),
            in_range(highest_price as int),
            atr matches Some(a) ==> in_range(a as int),
        ensures
            opt_int(r) == stop_price_spec(
                *self,
                entry_price as int,
                highest_price as int,
                opt_int(atr),
            ),
    {
        match self {
            StopLossMethod::NoStop => None,
            StopLossMethod::FixedPercent(p) => Some(
                mul_fx(entry_price, sub_fx(FP, pct_fraction_exec(*p))),
            ),
            StopLossMethod::Trailing(p) => Some(
                mul_fx(highest_price, sub_fx(FP, pct_fraction_exec(*p))),
            ),
            StopLossMethod::ATR { multiplier, period: _ } => {
                match atr {
                    Some(atr_value) => Some(sub_fx(entry_price, mul_fx(*multiplier, atr_value))),
                    None => None,
                }
            },
            StopLossMethod::TimeLimit(_) => None,
        }
    }
}

/// Widen an optional fixed-point value to its mathematical counterpart.
pub open spec fn opt_int(o: Option<i64>) -> Option<int> {
    match o {
        Some(v) => Some(v as int),
        None => None,
    }
}

/// Every (high, low, close) triple is in the fixed-point domain.
pub open spec fn hlc_wf(data: Seq<(i64, i64, i64)>) -> bool {
    forall|i: int|
        0 <= i < data.len() ==> in_range((#[trigger] data[i]).0 as int)
            && in_range(data[i].1 as int) && in_range(data[i].2 as int)
}

/// The true range at bar `i`:
/// `max(high - low, |high - prev_close|, |low - prev_close|)`.
pub open spec fn tr_spec(data: Seq<(i64, i64, i64)>, i: int) -> int {
    let h = data[i].0 as int;
    let l = data[i].1 as int;
    if i == 0 {
        fx_sub(h, l)
    } else {
        let pc = data[i - 1].2 as int;
        max_i(fx_sub(h, l), max_i(abs_i(fx_sub(h, pc)), abs_i(fx_sub(l, pc))))
    }
}

/// Sum of the first `n` true ranges.
pub open spec fn tr_sum(data: Seq<(i64, i64, i64)>, n: int) -> int
    decreases n,
{
    if n <= 0 {
        0
    } else {
        tr_sum(data, n - 1) + tr_spec(data, n - 1)
    }
}

/// Wilder-smoothed ATR at bar `i`: undefined for the first `period - 1`
/// bars, the plain mean of the first `period` true ranges at bar
/// `period - 1`, and `(prev * (period - 1) + tr) / period` afterwards.
pub open spec fn atr_spec(data: Seq<(i64, i64, i64)>, period: int, i: int) -> Option<int>
    decreases i,
{
    if i < period - 1 {
        None
    } else if i == period - 1 {
        Some(tr_sum(data, period) / period)
    } else if i <= 0 {
        None
    } else {
        match atr_spec(data, period, i - 1) {
            Some(prev) => Some((prev * (period - 1) + tr_spec(data, i)) / period),
            None => None,
        }
    }
}

/// The true range of an in-range triple is in range.
proof fn lemma_tr_in_range(data: Seq<(i64, i64, i64)>, i: int)
    requires
        hlc_wf(data),
        0 <= i < data.len(),
    ensures
        in_range(tr_spec(data, i)),
{
}

/// Smoothing keeps the ATR in range.
pub proof fn lemma_atr_in_range(data: Seq<(i64, i64, i64)>, period: int, i: int)
    requires
        hlc_wf(data),
        1 <= period,
        0 <= i < data.len(),
        i >= period - 1,
    ensures
        atr_spec(data, period, i) matches Some(a) && in_range(a),
    decreases i,
{
    if i == period - 1 {
        lemma_tr_sum_bound(data, period);
        lemma_div_bounds(tr_sum(data, period), period, CAP as int);
    } else {
        lemma_atr_in_range(data, period, i - 1);
        lemma_tr_in_range(data, i);
        let prev = atr_spec(data, period, i - 1)->Some_0;
        let s = prev * (period - 1) + tr_spec(data, i);
        assert(-((CAP as int) * period) <= s <= (CAP as int) * period) by (nonlinear_arith)
            requires
                in_range(prev),
                in_range(tr_spec(data, i)),
                1 <= period,
                s == prev * (period - 1) + tr_spec(data, i),
        ;
        lemma_div_bounds(s, period, CAP as int);
    }
}

/// The sum of `n` true ranges is bounded by `n * CAP` in magnitude.
proof fn lemma_tr_sum_bound(data: Seq<(i64, i64, i64)>, n: int)
    requires
        hlc_wf(data),
        0 <= n <= data.len(),
    ensures
        -((CAP as int) * n) <= tr_sum(data, n) <= (CAP as int) * n,
    decreases n,
{
    if n == 0 {
    } else {
        lemma_tr_sum_bound(data, n - 1);
        lemma_tr_in_range(data, n - 1);
        assert((CAP as int) * n == (CAP as int) * (n - 1) + CAP as int) by (nonlinear_arith);
    }
}

/// Average True Range over (high, low, close) triples, using Wilder
/// smoothing; `None` until `period` bars have been seen.
pub fn calculate_atr(data: &Vec<(i64, i64, i64)>, period: usize) -> (atr: Vec<Option<i64>>)
    requires
        hlc_wf(data@),
        1 <= period,
    ensures
        atr@.len() == data@.len(),
        forall|i: int|
            0 <= i < data@.len() ==> opt_int(#[trigger] atr@[i]) == atr_spec(
                data@,
                period as int,
                i,
            ),
{
    let n = data.len();
    let mut atr: Vec<Option<i64>> = Vec::new();
    let mut sum: i128 = 0;
    let mut i: usize = 0;
    while i < n
        invariant
            hlc_wf(data@),
            1 <= period,
            n == data@.len(),
            i <= n,
            atr@.len() == i,
            forall|j: int|
                0 <= j < i ==> opt_int(#[trigger] atr@[j]) == atr_spec(data@, period as int, j),
            i < period ==> sum == tr_sum(data@, i as int),
            -((CAP as int) * (i as int)) <= sum <= (CAP as int) * (i as int),
        decreases n - i,
    {
        let h = data[i].0;
        let l = data[i].1;
        let tr: i64 = if i == 0 {
            sub_fx(h, l)
        } else {
            let pc = data[i - 1].2;
            max_fx(sub_fx(h, l), max_fx(abs_fx(sub_fx(h, pc)), abs_fx(sub_fx(l, pc))))
        };
        proof {
            assert(tr as int == tr_spec(data@, i as int));
        }
        if i + 1 < period {
            sum = sum + tr as i128;
            atr.push(None);
            proof {
                assert(sum == tr_sum(data@, i as int + 1));
                assert((CAP as int) * (i as int + 1) == (CAP as int) * (i as int) + CAP as int)
                    by (nonlinear_arith);
            }
        } else if i + 1 == period {
            sum = sum + tr as i128;
            proof {
                assert(sum == tr_sum(data@, period as int));
                assert((CAP as int) * (i as int + 1) == (CAP as int) * (i as int) + CAP as int)
                    by (nonlinear_arith);
                lemma_div_bounds(sum as int, period as int, CAP as int);
            }
            let seed = div_floor_i128(sum, period as i128);
            atr.push(Some(seed as i64));
        } else {
            let prev: i64 = match atr[i - 1] {
                Some(p) => p,
                None => {
                    proof {
                        lemma_atr_in_range(data@, period as int, i as int - 1);
                    }
                    0
                },
            };
            proof {
                lemma_atr_in_range(data@, period as int, i as int - 1);
                assert(in_range(prev as int));
                assert(
                    -((CAP as int) * (period as int))
                        <= (prev as int) * (period as int - 1) + tr as int
                        <= (CAP as int) * (period as int)) by (nonlinear_arith)
                    requires
                        in_range(prev as int),
                        in_range(tr as int),
                        1 <= period as int,
                ;
                lemma_div_bounds(
                    (prev as int) * (period as int - 1) + tr as int,
                    period as int,
                    CAP as int,
                );
            }
            let smoothed = div_floor_i128(
                prev as i128 * (period as i128 - 1) + tr as i128,
                period as i128,
            );
            atr.push(Some(smoothed as i64));
        }
        i = i + 1;
    }
    atr
}

} // verus!
