//! Risk-adjusted performance metrics: Sharpe, Sortino, Calmar, drawdown.

use vstd::prelude::*;
use crate::fixed::{
    abs_fx, abs_i, clip_i128, div_floor_i128, div_fx, floor_div, fx_div, fx_mul, fx_sub, in_range,
    isqrt_spec, isqrt_u128, lemma_div_bounds, max_fx, max_i, min_fx, min_i, mul_fx, seq_int,
    sub_fx, CAP, FP,
};

verus! {

broadcast use crate::fixed::lemma_seq_int_index;

/// All values of a sequence are in the fixed-point domain.
pub open spec fn seq_in_range(s: Seq<int>) -> bool {
    forall|i: int| 0 <= i < s.len() ==> in_range(#[trigger] s[i])
}

/// The simple per-bar returns of an equity curve:
/// `(e[i+1] - e[i]) / e[i]`, one value per adjacent pair.
pub open spec fn returns_spec(e: Seq<int>) -> Seq<int> {
    if e.len() == 0 {
        Seq::empty()
    } else {
        Seq::new((e.len() - 1) as nat, |i: int| fx_div(fx_sub(e[i + 1], e[i]), e[i]))
    }
}

/// Exact sum of the first `n` values.
pub open spec fn sum_prefix(s: Seq<int>, n: int) -> int
    decreases n,
{
    if n <= 0 {
        0
    } else {
        sum_prefix(s, n - 1) + s[n - 1]
    }
}

/// The mean of a sequence of fixed-point values; 0 when empty.
pub open spec fn mean_spec(s: Seq<int>) -> int {
    if s.len() == 0 {
        0
    } else {
        floor_div(sum_prefix(s, s.len() as int), s.len() as int)
    }
}

/// Sum over the first `n` values of the fixed-point squared deviation
/// from `mean`.
pub open spec fn sumsq_dev_prefix(s: Seq<int>, mean: int, n: int) -> int
    decreases n,
{
    if n <= 0 {
        0
    } else {
        sumsq_dev_prefix(s, mean, n - 1) + fx_mul(fx_sub(s[n - 1], mean), fx_sub(s[n - 1], mean))
    }
}

/// Sum over the first `n` values of the fixed-point square of each
/// strictly negative value.
pub open spec fn sumsq_neg_prefix(s: Seq<int>, n: int) -> int
    decreases n,
{
    if n <= 0 {
        0
    } else {
        sumsq_neg_prefix(s, n - 1) + if s[n - 1] < 0 {
            fx_mul(s[n - 1], s[n - 1])
        } else {
            0
        }
    }
}

/// The annualisation factor: the integer square root of
/// `periods_per_year` in fixed point.
pub open spec fn annualize_spec(periods_per_year: int) -> int {
    isqrt_spec(periods_per_year * (FP as int) * (FP as int))
}

/// Sharpe ratio of per-period returns:
/// `mean / stdev * sqrt(periods_per_year)`, 0 for an empty sequence or
/// zero standard deviation.
pub open spec fn sharpe_spec(rets: Seq<int>, periods_per_year: int) -> int {
    if rets.len() == 0 {
        0
    } else {
        let n = rets.len() as int;
        let mean = mean_spec(rets);
        let variance = floor_div(sumsq_dev_prefix(rets, mean, n), n);
        let std_dev = isqrt_spec(variance * (FP as int));
        if std_dev == 0 {
            0
        } else {
            fx_mul(fx_div(mean, std_dev), annualize_spec(periods_per_year))
        }
    }
}

/// Sortino ratio of per-period returns:
/// `mean / downside_deviation * sqrt(periods_per_year)`, where the
/// downside variance divides the sum of squared negative returns by the
/// total return count; a 999 sentinel when no return is negative, 0 for
/// an empty sequence or zero downside deviation.
pub open spec fn sortino_spec(rets: Seq<int>, periods_per_year: int) -> int {
    if rets.len() == 0 {
        0
    } else if forall|i: int| 0 <= i < rets.len() ==> (#[trigger] rets[i]) >= 0 {
        999 * (FP as int)
    } else {
        let n = rets.len() as int;
        let mean = mean_spec(rets);
        let downside_variance = floor_div(sumsq_neg_prefix(rets, n), n);
        let downside_deviation = isqrt_spec(downside_variance * (FP as int));
        if downside_deviation == 0 {
            0
        } else {
            fx_mul(fx_div(mean, downside_deviation), annualize_spec(periods_per_year))
        }
    }
}

/// The running peak of an equity curve up to and including bar `i`.
pub open spec fn peak_prefix(e: Seq<int>, i: int) -> int
    decreases i,
{
    if i <= 0 {
        e[0]
    } else {
        max_i(peak_prefix(e, i - 1), e[i])
    }
}

/// The drawdown at bar `i`: `(equity - peak) / peak`.
pub open spec fn drawdown_at(e: Seq<int>, i: int) -> int {
    fx_div(fx_sub(e[i], peak_prefix(e, i)), peak_prefix(e, i))
}

/// The minimum of 0 and the drawdowns of the first `n` bars.
pub open spec fn mdd_prefix(e: Seq<int>, n: int) -> int
    decreases n,
{
    if n <= 0 {
        0
    } else {
        min_i(mdd_prefix(e, n - 1), drawdown_at(e, n - 1))
    }
}

/// The maximum drawdown of an equity curve: the minimum over the run of
/// `(equity - running peak) / running peak`; 0 when empty.
pub open spec fn max_drawdown_spec(e: Seq<int>) -> int {
    mdd_prefix(e, e.len() as int)
}

/// `total_days` in years, fixed point: `days / 365.25`.
pub open spec fn years_spec(total_days: int) -> int {
    floor_div(total_days * (FP as int) * 100, 36525)
}

/// Calmar ratio: `(total_return / years) / |max_drawdown|`, 0 when the
/// drawdown or the time span is zero.
pub open spec fn calmar_spec(total_return: int, max_drawdown: int, total_days: int) -> int {
    if max_drawdown == 0 {
        0
    } else {
        let years = years_spec(total_days);
        if years == 0 {
            0
        } else {
            let annualized = fx_div(total_return, years);
            fx_div(annualized, abs_i(max_drawdown))
        }
    }
}

/// The simple per-bar returns of an equity curve.
pub fn per_bar_returns(equity_curve: &Vec<i64>) -> (r: Vec<i64>)
    requires
        seq_in_range(seq_int(equity_curve@)),
    ensures
        seq_int(r@) == returns_spec(seq_int(equity_curve@)),
        seq_in_range(seq_int(r@)),
{
    let n = equity_curve.len();
    let mut rets: Vec<i64> = Vec::new();
    if n == 0 {
        proof {
            assert(seq_int(rets@) =~= returns_spec(seq_int(equity_curve@)));
        }
        return rets;
    }
    let mut i: usize = 0;
    while i + 1 < n
        invariant
            seq_in_range(seq_int(equity_curve@)),
            n == equity_curve@.len(),
            0 < n,
            i < n,
            rets@.len() == i,
            forall|j: int|
                0 <= j < i ==> seq_int(rets@)[j] == returns_spec(seq_int(equity_curve@))[j],
        decreases n - i,
    {
        proof {
            assert(seq_int(equity_curve@)[i as int] == equity_curve@[i as int] as int);
            assert(seq_int(equity_curve@)[i as int + 1] == equity_curve@[i as int + 1] as int);
        }
        let v = div_fx(sub_fx(equity_curve[i + 1], equity_curve[i]), equity_curve[i]);
        let ghost prev = rets@;
        rets.push(v);
        proof {
            let e = seq_int(equity_curve@);
            assert forall|j: int| 0 <= j < i + 1 implies seq_int(rets@)[j] == returns_spec(e)[j] by {
                assert(seq_int(rets@)[j] == rets@[j] as int);
                assert(returns_spec(e)[j] == fx_div(fx_sub(e[j + 1], e[j]), e[j]));
                if j < i as int {
                    assert(rets@[j] == prev[j]);
                    assert(seq_int(prev)[j] == prev[j] as int);
                } else {
                    assert(rets@[j] == v);
                }
            }
        }
        i = i + 1;
    }
    proof {
        assert(seq_int(rets@) =~= returns_spec(seq_int(equity_curve@)));
    }
    rets
}

/// Sharpe ratio over per-period fixed-point returns.
pub fn calculate_sharpe_ratio(rets: &Vec<i64>, periods_per_year: i64) -> (r: i64)
    requires
        seq_in_range(seq_int(rets@)),
        0 <= periods_per_year as int <= CAP as int,
    ensures
        r as int == sharpe_spec(seq_int(rets@), periods_per_year as int),
        in_range(r as int),
{
    let ghost s = seq_int(rets@);
    let n = rets.len();
    if n == 0 {
        return 0;
    }
    let mean = mean_exec(rets);
    let mut sumsq: i128 = 0;
    let mut i: usize = 0;
    while i < n
        invariant
            seq_in_range(s),
            s == seq_int(rets@),
            n == rets@.len(),
            i <= n,
            in_range(mean as int),
            sumsq == sumsq_dev_prefix(s, mean as int, i as int),
            0 <= sumsq <= (CAP as int) * (i as int),
        decreases n - i,
    {
        proof {
            assert(s[i as int] == rets@[i as int] as int);
        }
        let d = sub_fx(rets[i], mean);
        let sq = mul_fx(d, d);
        proof {
            assert(0 <= fx_mul(d as int, d as int)) by (nonlinear_arith)
                requires
                    in_range(d as int),
            ;
            assert((CAP as int) * (i as int + 1) == (CAP as int) * (i as int) + CAP as int)
                by (nonlinear_arith);
        }
        sumsq = sumsq + sq as i128;
        i = i + 1;
    }
    proof {
        lemma_div_bounds(sumsq as int, n as int, CAP as int);
        vstd::arithmetic::div_mod::lemma_div_pos_is_pos(sumsq as int, n as int);
    }
    let variance = div_floor_i128(sumsq, n as i128);
    let std_dev = sqrt_fx(variance as i64);
    if std_dev == 0 {
        return 0;
    }
    let ann = annualize_exec(periods_per_year);
    mul_fx(div_fx(mean, std_dev), ann)
}

/// Sortino ratio over per-period fixed-point returns.
pub fn calculate_sortino_ratio(rets: &Vec<i64>, periods_per_year: i64) -> (r: i64)
    requires
        seq_in_range(seq_int(rets@)),
        0 <= periods_per_year as int <= CAP as int,
    ensures
        r as int == sortino_spec(seq_int(rets@), periods_per_year as int),
        in_range(r as int),
{
    let ghost s = seq_int(rets@);
    let n = rets.len();
    if n == 0 {
        return 0;
    }
    let mut sumsq: i128 = 0;
    let mut any_negative: bool = false;
    let mut i: usize = 0;
    while i < n
        invariant
            seq_in_range(s),
            s == seq_int(rets@),
            n == rets@.len(),
            i <= n,
            sumsq == sumsq_neg_prefix(s, i as int),
            0 <= sumsq <= (CAP as int) * (i as int),
            any_negative <==> exists|j: int| 0 <= j < i && (#[trigger] s[j]) < 0,
        decreases n - i,
    {
        proof {
            assert(s[i as int] == rets@[i as int] as int);
        }
        let v = rets[i];
        if v < 0 {
            let sq = mul_fx(v, v);
            proof {
                assert(0 <= fx_mul(v as int, v as int)) by (nonlinear_arith)
                    requires
                        in_range(v as int),
                ;
            }
            sumsq = sumsq + sq as i128;
            any_negative = true;
        }
        proof {
            assert((CAP as int) * (i as int + 1) == (CAP as int) * (i as int) + CAP as int)
                by (nonlinear_arith);
        }
        i = i + 1;
    }
    if !any_negative {
        return 99_900_000_000i64;
    }
    let mean = mean_exec(rets);
    proof {
        lemma_div_bounds(sumsq as int, n as int, CAP as int);
        vstd::arithmetic::div_mod::lemma_div_pos_is_pos(sumsq as int, n as int);
    }
    let downside_variance = div_floor_i128(sumsq, n as i128);
    let downside_deviation = sqrt_fx(downside_variance as i64);
    if downside_deviation == 0 {
        return 0;
    }
    let ann = annualize_exec(periods_per_year);
    mul_fx(div_fx(mean, downside_deviation), ann)
}

/// Maximum drawdown of an equity curve, a non-positive fixed-point
/// fraction of the running peak.
pub fn calculate_max_drawdown(equity_curve: &Vec<i64>) -> (r: i64)
    requires
        seq_in_range(seq_int(equity_curve@)),
    ensures
        r as int == max_drawdown_spec(seq_int(equity_curve@)),
        in_range(r as int),
{
    let ghost s = seq_int(equity_curve@);
    let n = equity_curve.len();
    if n == 0 {
        return 0;
    }
    let mut peak: i64 = equity_curve[0];
    let mut mdd: i64 = 0;
    let mut i: usize = 0;
    while i < n
        invariant
            seq_in_range(s),
            s == seq_int(equity_curve@),
            n == equity_curve@.len(),
            0 < n,
            i <= n,
            i == 0 ==> peak as int == s[0],
            i > 0 ==> peak as int == peak_prefix(s, i as int - 1),
            mdd as int == mdd_prefix(s, i as int),
            in_range(peak as int),
            in_range(mdd as int),
        decreases n - i,
    {
        proof {
            assert(s[i as int] == equity_curve@[i as int] as int);
        }
        let e = equity_curve[i];
        peak = max_fx(peak, e);
        proof {
            if i > 0 {
                assert(peak as int == peak_prefix(s, i as int));
            } else {
                assert(peak_prefix(s, 0) == s[0]);
            }
        }
        let dd = div_fx(sub_fx(e, peak), peak);
        mdd = min_fx(mdd, dd);
        i = i + 1;
    }
    mdd
}

/// Calmar ratio: annualised return per unit of maximum drawdown.
pub fn calculate_calmar_ratio(total_return: i64, max_drawdown: i64, total_days: usize) -> (r: i64)
    requires
        in_range(total_return as int),
        in_range(max_drawdown as int),
        total_days as int <= CAP as int,
    ensures
        r as int == calmar_spec(total_return as int, max_drawdown as int, total_days as int),
        in_range(r as int),
{
    if max_drawdown == 0 {
        return 0;
    }
    proof {
        assert(0 <= (total_days as int) * (FP as int) * 100 <= (CAP as int) * (FP as int) * 100)
            by (nonlinear_arith)
            requires
                0 <= total_days as int <= CAP as int,
        ;
    }
    let years: i128 = div_floor_i128(total_days as i128 * FP as i128 * 100, 36525);
    proof {
        vstd::arithmetic::div_mod::lemma_div_pos_is_pos(
            (total_days as int) * (FP as int) * 100,
            36525,
        );
    }
    if years == 0 {
        return 0;
    }
    proof {
        assert(-((CAP as int) * (FP as int)) <= (total_return as int) * (FP as int) <= (
        CAP as int) * (FP as int)) by (nonlinear_arith)
            requires
                in_range(total_return as int),
        ;
    }
    let annualized = clip_i128(div_floor_i128(total_return as i128 * FP as i128, years));
    div_fx(annualized, abs_fx(max_drawdown))
}

/// The mean of a sequence of fixed-point values.
fn mean_exec(values: &Vec<i64>) -> (r: i64)
    requires
        seq_in_range(seq_int(values@)),
        values@.len() > 0,
    ensures
        r as int == mean_spec(seq_int(values@)),
        in_range(r as int),
{
    let ghost s = seq_int(values@);
    let n = values.len();
    let mut sum: i128 = 0;
    let mut i: usize = 0;
    while i < n
        invariant
            seq_in_range(s),
            s == seq_int(values@),
            n == values@.len(),
            i <= n,
            sum == sum_prefix(s, i as int),
            -((CAP as int) * (i as int)) <= sum <= (CAP as int) * (i as int),
        decreases n - i,
    {
        proof {
            assert(s[i as int] == values@[i as int] as int);
            assert((CAP as int) * (i as int + 1) == (CAP as int) * (i as int) + CAP as int)
                by (nonlinear_arith);
        }
        sum = sum + values[i] as i128;
        i = i + 1;
    }
    proof {
        lemma_div_bounds(sum as int, n as int, CAP as int);
    }
    div_floor_i128(sum, n as i128) as i64
}

/// Fixed-point square root of a non-negative fixed-point value:
/// `isqrt(v * FP)`, which carries the fixed-point scale through.
fn sqrt_fx(v: i64) -> (r: i64)
    requires
        0 <= v as int,
        in_range(v as int),
    ensures
        r as int == isqrt_spec((v as int) * (FP as int)),
        0 <= r as int,
        in_range(r as int),
{
    proof {
        assert(0 <= (v as int) * (FP as int) <= (CAP as int) * (FP as int)) by (nonlinear_arith)
            requires
                0 <= v as int <= CAP as int,
        ;
    }
    let x: u128 = v as u128 * FP as u128;
    let root = isqrt_u128(x);
    proof {
        crate::fixed::lemma_isqrt_spec_is_isqrt(x as int);
        assert((root as int) * (root as int) <= (CAP as int) * (CAP as int)
            ==> root as int <= CAP as int) by (nonlinear_arith)
            requires
                0 <= root as int,
        ;
        assert((v as int) * (FP as int) <= (CAP as int) * (CAP as int)) by (nonlinear_arith)
            requires
                0 <= v as int <= CAP as int,
        ;
    }
    root as i64
}

/// The annualisation factor `sqrt(periods_per_year)` in fixed point.
fn annualize_exec(periods_per_year: i64) -> (r: i64)
    requires
        0 <= periods_per_year as int <= CAP as int,
    ensures
        r as int == annualize_spec(periods_per_year as int),
        0 <= r as int,
        in_range(r as int),
{
    proof {
        assert(0 <= (periods_per_year as int) * (FP as int) * (FP as int) <= (CAP as int) * (
        FP as int) * (FP as int)) by (nonlinear_arith)
            requires
                0 <= periods_per_year as int <= CAP as int,
        ;
    }
    let x: u128 = periods_per_year as u128 * FP as u128 * FP as u128;
    let root = isqrt_u128(x);
    proof {
        crate::fixed::lemma_isqrt_spec_is_isqrt(x as int);
        assert((root as int) * (root as int) <= (CAP as int) * (CAP as int)
            ==> root as int <= CAP as int) by (nonlinear_arith)
            requires
                0 <= root as int,
        ;
        assert((CAP as int) * (FP as int) * (FP as int) <= (CAP as int) * (CAP as int))
            by (nonlinear_arith);
    }
    root as i64
}

} // verus!
