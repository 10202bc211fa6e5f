//! The library's global laws, stated and proved once over the
//! specification-level run and metrics.

use vstd::prelude::*;
use crate::engine::{backtest_result_spec, run_state_spec, step_spec, ConfigV, EngStateV};
use crate::fixed::{floor_div, fx_div, fx_mul, fx_sub, in_range, max_i, FP};
use crate::metrics::{
    drawdown_at, max_drawdown_spec, mdd_prefix, peak_prefix, returns_spec, sharpe_spec,
    sortino_spec, calmar_spec,
};
use crate::types::OHLCV;

verus! {

broadcast use crate::fixed::lemma_clip_in_range;

/// The equity curve after `n` bars holds exactly `n` values.
pub proof fn lemma_run_state_curve_length(
    cfg: ConfigV,
    bars: Seq<OHLCV>,
    sigs: Seq<int>,
    atrs: Seq<Option<int>>,
    n: int,
)
    requires
        0 <= n,
    ensures
        run_state_spec(cfg, bars, sigs, atrs, n).equity_curve.len() == n,
    decreases n,
{
    if n > 0 {
        lemma_run_state_curve_length(cfg, bars, sigs, atrs, n - 1);
    }
}

/// The equity curve of a full run holds one value per bar.
pub proof fn lemma_equity_curve_length(cfg: ConfigV, bars: Seq<OHLCV>, sigs: Seq<int>)
    ensures
        backtest_result_spec(cfg, bars, sigs).equity_curve.len() == bars.len(),
{
    lemma_run_state_curve_length(
        cfg,
        bars,
        sigs,
        crate::engine::atrs_spec(cfg, bars),
        bars.len() as int,
    );
}

/// The reported total return is exactly
/// `(final_equity - initial_capital) / initial_capital`.
pub proof fn lemma_total_return_exact(cfg: ConfigV, bars: Seq<OHLCV>, sigs: Seq<int>)
    ensures
        ({
            let r = backtest_result_spec(cfg, bars, sigs);
            r.total_return == fx_div(fx_sub(r.final_equity, r.initial_capital), r.initial_capital)
        }),
{
}

/// The minimum-over-the-run fold never rises above zero.
pub proof fn lemma_mdd_prefix_nonpos(e: Seq<int>, n: int)
    ensures
        mdd_prefix(e, n) <= 0,
    decreases n,
{
    if n > 0 {
        lemma_mdd_prefix_nonpos(e, n - 1);
    }
}

/// The maximum drawdown is never positive.
pub proof fn lemma_max_drawdown_nonpos(e: Seq<int>)
    ensures
        max_drawdown_spec(e) <= 0,
{
    lemma_mdd_prefix_nonpos(e, e.len() as int);
}

/// The equity curve never falls from one bar to the next.
pub open spec fn non_decreasing(e: Seq<int>) -> bool {
    forall|i: int| 0 <= i < e.len() - 1 ==> #[trigger] e[i] <= e[i + 1]
}

/// The fold is bounded by each drawdown it has seen.
proof fn lemma_mdd_prefix_le(e: Seq<int>, n: int, i: int)
    requires
        0 <= i < n,
    ensures
        mdd_prefix(e, n) <= drawdown_at(e, i),
    decreases n,
{
    if i < n - 1 {
        lemma_mdd_prefix_le(e, n - 1, i);
    }
}

/// On a non-decreasing curve the running peak is the current value.
proof fn lemma_peak_of_non_decreasing(e: Seq<int>, i: int)
    requires
        non_decreasing(e),
        0 <= i < e.len(),
    ensures
        peak_prefix(e, i) == e[i],
    decreases i,
{
    if i > 0 {
        lemma_peak_of_non_decreasing(e, i - 1);
    }
}

/// The running peak dominates every earlier value.
proof fn lemma_peak_ge(e: Seq<int>, i: int, j: int)
    requires
        0 <= j <= i < e.len(),
    ensures
        peak_prefix(e, i) >= e[j],
    decreases i,
{
    if j < i {
        lemma_peak_ge(e, i - 1, j);
    }
}

/// A negative amount divided by a positive one floors below zero.
proof fn lemma_neg_div_neg(x: int, d: int)
    requires
        x < 0,
        0 < d,
    ensures
        x / d <= -1,
{
    vstd::arithmetic::div_mod::lemma_fundamental_div_mod(x, d);
    let q = x / d;
    let r = x % d;
    if q >= 0 {
        assert(x == d * q + r);
        assert(d * q >= 0) by (nonlinear_arith)
            requires
                d > 0,
                q >= 0,
        ;
    }
}

/// The maximum drawdown of a positive equity curve is zero exactly when
/// the curve is non-decreasing.
pub proof fn lemma_max_drawdown_zero_iff_non_decreasing(e: Seq<int>)
    requires
        forall|i: int| 0 <= i < e.len() ==> 0 < #[trigger] e[i],
        forall|i: int| 0 <= i < e.len() ==> in_range(#[trigger] e[i]),
    ensures
        max_drawdown_spec(e) == 0 <==> non_decreasing(e),
{
    let n = e.len() as int;
    if non_decreasing(e) {
        lemma_mdd_zero_of_non_decreasing(e, n);
    } else {
        let j = choose|j: int| 0 <= j < e.len() - 1 && !(#[trigger] e[j] <= e[j + 1]);
        lemma_peak_ge(e, j + 1, j);
        assert(peak_prefix(e, j + 1) >= e[j] > e[j + 1]);
        assert(0 < peak_prefix(e, j + 1));
        let peak = peak_prefix(e, j + 1);
        let diff = fx_sub(e[j + 1], peak);
        assert(diff <= -1);
        assert(diff * (FP as int) <= -1) by (nonlinear_arith)
            requires
                diff <= -1,
        ;
        lemma_neg_div_neg(diff * (FP as int), peak);
        assert(drawdown_at(e, j + 1) <= -1);
        lemma_mdd_prefix_le(e, n, j + 1);
        assert(max_drawdown_spec(e) <= -1);
    }
}

/// The curve with every value scaled by `k`.
pub open spec fn scale_curve(k: int, e: Seq<int>) -> Seq<int> {
    Seq::new(e.len(), |i: int| k * e[i])
}

/// Saturating fixed-point division is invariant under scaling both
/// operands by the same positive factor.
proof fn lemma_fx_div_scale(k: int, a: int, b: int)
    requires
        1 <= k,
    ensures
        fx_div(k * a, k * b) == fx_div(a, b),
{
    if b == 0 {
        assert(k * b == 0) by (nonlinear_arith)
            requires
                b == 0,
        ;
    } else {
        assert(k * b != 0) by (nonlinear_arith)
            requires
                b != 0,
                1 <= k,
        ;
        assert((k * a) * (FP as int) == k * (a * (FP as int))) by (nonlinear_arith);
        crate::fixed::lemma_floor_div_scale(k, a * (FP as int), b);
    }
}

/// Scaling by `k >= 1` keeps a value in range only if the value was.
proof fn lemma_scale_in_range(k: int, x: int)
    requires
        1 <= k,
        in_range(k * x),
    ensures
        in_range(x),
{
    assert(in_range(x)) by (nonlinear_arith)
        requires
            1 <= k,
            in_range(k * x),
    ;
}

/// The running peak of the scaled curve is the scaled running peak.
proof fn lemma_peak_scale(k: int, e: Seq<int>, i: int)
    requires
        0 <= k,
        0 <= i < e.len(),
    ensures
        peak_prefix(scale_curve(k, e), i) == k * peak_prefix(e, i),
    decreases i,
{
    if i == 0 {
        assert(scale_curve(k, e)[0] == k * e[0]);
    } else {
        lemma_peak_scale(k, e, i - 1);
        assert(max_i(k * peak_prefix(e, i - 1), k * e[i]) == k * max_i(peak_prefix(e, i - 1), e[i]))
            by (nonlinear_arith)
            requires
                0 <= k,
        ;
    }
}

/// The running peak is one of the values it has seen.
proof fn lemma_peak_is_some_value(e: Seq<int>, i: int)
    requires
        0 <= i < e.len(),
    ensures
        exists|j: int| 0 <= j <= i && peak_prefix(e, i) == #[trigger] e[j],
    decreases i,
{
    if i == 0 {
        assert(peak_prefix(e, 0) == e[0]);
    } else {
        lemma_peak_is_some_value(e, i - 1);
    }
}

/// The drawdown at each bar is invariant under uniform scaling.
proof fn lemma_drawdown_at_scale(k: int, e: Seq<int>, i: int)
    requires
        1 <= k,
        0 <= i < e.len(),
        forall|a: int, b: int|
            0 <= a < e.len() && 0 <= b < e.len() ==> in_range(k * ((#[trigger] e[a]) - (
            #[trigger] e[b]))),
    ensures
        drawdown_at(scale_curve(k, e), i) == drawdown_at(e, i),
{
    lemma_peak_scale(k, e, i);
    lemma_peak_is_some_value(e, i);
    let j = choose|j: int| 0 <= j <= i && peak_prefix(e, i) == #[trigger] e[j];
    let d = e[i] - peak_prefix(e, i);
    assert(in_range(k * d));
    lemma_scale_in_range(k, d);
    assert(k * e[i] - k * peak_prefix(e, i) == k * d) by (nonlinear_arith)
        requires
            d == e[i] - peak_prefix(e, i),
    ;
    assert(fx_sub(k * e[i], k * peak_prefix(e, i)) == k * d);
    assert(fx_sub(e[i], peak_prefix(e, i)) == d);
    lemma_fx_div_scale(k, d, peak_prefix(e, i));
    assert(scale_curve(k, e)[i] == k * e[i]);
}

/// The minimum-drawdown fold is invariant under uniform scaling.
proof fn lemma_mdd_scale(k: int, e: Seq<int>, n: int)
    requires
        1 <= k,
        0 <= n <= e.len(),
        forall|a: int, b: int|
            0 <= a < e.len() && 0 <= b < e.len() ==> in_range(k * ((#[trigger] e[a]) - (
            #[trigger] e[b]))),
    ensures
        mdd_prefix(scale_curve(k, e), n) == mdd_prefix(e, n),
    decreases n,
{
    if n > 0 {
        lemma_mdd_scale(k, e, n - 1);
        lemma_drawdown_at_scale(k, e, n - 1);
    }
}

/// The per-bar returns are invariant under uniform scaling.
proof fn lemma_returns_scale(k: int, e: Seq<int>)
    requires
        1 <= k,
        forall|a: int, b: int|
            0 <= a < e.len() && 0 <= b < e.len() ==> in_range(k * ((#[trigger] e[a]) - (
            #[trigger] e[b]))),
    ensures
        returns_spec(scale_curve(k, e)) == returns_spec(e),
{
    let se = scale_curve(k, e);
    if e.len() == 0 {
        assert(returns_spec(se) =~= returns_spec(e));
    } else {
        assert forall|i: int| 0 <= i < e.len() - 1 implies returns_spec(se)[i] == returns_spec(
            e,
        )[i] by {
            let d = e[i + 1] - e[i];
            assert(in_range(k * d));
            lemma_scale_in_range(k, d);
            assert(k * e[i + 1] - k * e[i] == k * d) by (nonlinear_arith)
                requires
                    d == e[i + 1] - e[i],
            ;
            assert(se[i + 1] == k * e[i + 1] && se[i] == k * e[i]);
            assert(fx_sub(se[i + 1], se[i]) == k * d);
            assert(fx_sub(e[i + 1], e[i]) == d);
            lemma_fx_div_scale(k, d, e[i]);
        }
        assert(returns_spec(se) =~= returns_spec(e));
    }
}

/// Sharpe, Sortino, Calmar, the total return and the maximum drawdown
/// are all invariant under scaling the equity curve and the initial
/// capital by the same positive factor, as long as no scaled value or
/// difference saturates.
pub proof fn lemma_metrics_scale_invariant(
    k: int,
    e: Seq<int>,
    initial_capital: int,
    periods_per_year: int,
    total_days: int,
)
    requires
        1 <= k,
        e.len() > 0,
        forall|a: int, b: int|
            0 <= a < e.len() && 0 <= b < e.len() ==> in_range(k * ((#[trigger] e[a]) - (
            #[trigger] e[b]))),
        in_range(k * (e.last() - initial_capital)),
    ensures
        returns_spec(scale_curve(k, e)) == returns_spec(e),
        max_drawdown_spec(scale_curve(k, e)) == max_drawdown_spec(e),
        fx_div(fx_sub(k * e.last(), k * initial_capital), k * initial_capital) == fx_div(
            fx_sub(e.last(), initial_capital),
            initial_capital,
        ),
        sharpe_spec(returns_spec(scale_curve(k, e)), periods_per_year) == sharpe_spec(
            returns_spec(e),
            periods_per_year,
        ),
        sortino_spec(returns_spec(scale_curve(k, e)), periods_per_year) == sortino_spec(
            returns_spec(e),
            periods_per_year,
        ),
        calmar_spec(
            fx_div(fx_sub(k * e.last(), k * initial_capital), k * initial_capital),
            max_drawdown_spec(scale_curve(k, e)),
            total_days,
        ) == calmar_spec(
            fx_div(fx_sub(e.last(), initial_capital), initial_capital),
            max_drawdown_spec(e),
            total_days,
        ),
{
    lemma_returns_scale(k, e);
    lemma_mdd_scale(k, e, e.len() as int);
    assert(scale_curve(k, e).len() == e.len());
    let d = e.last() - initial_capital;
    lemma_scale_in_range(k, d);
    assert(k * e.last() - k * initial_capital == k * d) by (nonlinear_arith)
        requires
            d == e.last() - initial_capital,
    ;
    assert(fx_sub(k * e.last(), k * initial_capital) == k * d);
    assert(fx_sub(e.last(), initial_capital) == d);
    lemma_fx_div_scale(k, d, initial_capital);
}

/// A ledger state the non-negativity argument carries: no debt, cash in
/// the representable range, no short position, and the open position is
/// exactly the ledger's holding.
pub open spec fn solvent(s: EngStateV) -> bool {
    &&& s.portfolio.cash >= 0
    &&& in_range(s.portfolio.cash)
    &&& s.portfolio.btc_position >= 0
    &&& match s.position {
        Some(p) => p.quantity == s.portfolio.btc_position,
        None => s.portfolio.btc_position == 0,
    }
}

/// Non-negative factors give a non-negative fixed-point product.
proof fn lemma_fx_mul_nonneg(a: int, b: int)
    requires
        0 <= a,
        0 <= b,
    ensures
        0 <= fx_mul(a, b),
{
    assert(0 <= a * b) by (nonlinear_arith)
        requires
            0 <= a,
            0 <= b,
    ;
    vstd::arithmetic::div_mod::lemma_div_pos_is_pos(a * b, FP as int);
}

/// A non-negative amount divided by a non-negative one stays so.
proof fn lemma_fx_div_nonneg(a: int, b: int)
    requires
        0 <= a,
        0 <= b,
    ensures
        0 <= fx_div(a, b),
{
    if b != 0 {
        assert(0 <= a * (FP as int)) by (nonlinear_arith)
            requires
                0 <= a,
        ;
        vstd::arithmetic::div_mod::lemma_div_pos_is_pos(a * (FP as int), b);
    }
}

/// With a zero commission rate, no commission is ever charged.
proof fn lemma_zero_commission(x: int)
    ensures
        fx_mul(x, crate::types::bps_fraction(0)) == 0,
{
    vstd::arithmetic::div_mod::lemma_div_of0(10000);
    assert(x * 0 == 0) by (nonlinear_arith);
    vstd::arithmetic::div_mod::lemma_div_of0(FP as int);
}

/// A well-formed slippage keeps both fill multipliers non-negative, so
/// fill prices of positive closes are non-negative.
proof fn lemma_fill_prices_nonneg(slippage_bps: int, close: int)
    requires
        0 <= slippage_bps <= 10000 * (FP as int),
        0 < close,
    ensures
        0 <= crate::types::fill_sell_spec(slippage_bps, close),
        0 <= crate::types::fill_buy_spec(slippage_bps, close),
{
    let frac = crate::types::bps_fraction(slippage_bps);
    assert(0 <= frac <= FP as int) by {
        crate::fixed::lemma_div_bounds(slippage_bps, 10000, FP as int);
        vstd::arithmetic::div_mod::lemma_div_pos_is_pos(slippage_bps, 10000);
    }
    lemma_fx_mul_nonneg(close, fx_sub(FP as int, frac));
    lemma_fx_mul_nonneg(close, crate::fixed::fx_add(FP as int, frac));
}

/// Every sizing method commits a non-negative amount of a non-negative
/// equity.
proof fn lemma_size_nonneg(m: crate::position_sizing::PositionSizingMethod, equity: int)
    requires
        m.wf(),
        0 <= equity,
    ensures
        0 <= crate::position_sizing::calculate_size_spec(m, equity, None),
{
    match m {
        crate::position_sizing::PositionSizingMethod::FixedDollar(_) => {},
        crate::position_sizing::PositionSizingMethod::FixedPercent(p) => {
            assert(0 <= crate::stops::pct_fraction(p as int)) by {
                vstd::arithmetic::div_mod::lemma_div_pos_is_pos(p as int, 100);
            }
            lemma_fx_mul_nonneg(equity, crate::stops::pct_fraction(p as int));
        },
        crate::position_sizing::PositionSizingMethod::Kelly { win_rate, avg_win, avg_loss } => {
            let kelly = crate::position_sizing::kelly_spec(
                win_rate as int,
                avg_win as int,
                avg_loss as int,
            );
            assert(0 <= kelly);
            lemma_fx_mul_nonneg(equity, kelly);
        },
        crate::position_sizing::PositionSizingMethod::HalfKelly { win_rate, avg_win, avg_loss } => {
            let kelly = crate::position_sizing::kelly_spec(
                win_rate as int,
                avg_win as int,
                avg_loss as int,
            );
            assert(0 <= kelly);
            lemma_fx_mul_nonneg(kelly, (FP as int) / 2);
            lemma_fx_mul_nonneg(equity, fx_mul(kelly, (FP as int) / 2));
        },
        crate::position_sizing::PositionSizingMethod::FixedFractional { risk_per_trade } => {
            assert(0 <= crate::stops::pct_fraction(risk_per_trade as int)) by {
                vstd::arithmetic::div_mod::lemma_div_pos_is_pos(risk_per_trade as int, 100);
            }
            lemma_fx_mul_nonneg(equity, crate::stops::pct_fraction(risk_per_trade as int));
        },
    }
}

/// A basis-point figure within 0 and 100 percent gives a fraction within
/// 0 and 1.
proof fn lemma_bps_fraction_range(bps: int)
    requires
        0 <= bps <= 10000 * (FP as int),
    ensures
        0 <= crate::types::bps_fraction(bps) <= FP as int,
{
    crate::fixed::lemma_div_bounds(bps, 10000, FP as int);
    vstd::arithmetic::div_mod::lemma_div_pos_is_pos(bps, 10000);
}

/// Every sizing method commits at most the equity it is given.
proof fn lemma_size_le_equity(m: crate::position_sizing::PositionSizingMethod, equity: int)
    ensures
        crate::position_sizing::calculate_size_spec(m, equity, None) <= max_i(equity, 0),
{
    match m {
        crate::position_sizing::PositionSizingMethod::FixedDollar(_) => {},
        crate::position_sizing::PositionSizingMethod::FixedPercent(_) => {},
        crate::position_sizing::PositionSizingMethod::Kelly { .. } => {},
        crate::position_sizing::PositionSizingMethod::HalfKelly { .. } => {},
        crate::position_sizing::PositionSizingMethod::FixedFractional { .. } => {},
    }
}

/// The sizing method leaves room for the commission: whatever the equity,
/// the committed value and the commission on it together fit within that
/// equity.
pub open spec fn commission_headroom(
    m: crate::position_sizing::PositionSizingMethod,
    commission_bps: int,
) -> bool {
    forall|e: int|
        0 <= e && in_range(e) ==> #[trigger] crate::position_sizing::calculate_size_spec(
            m,
            e,
            None,
        ) + fx_mul(
            crate::position_sizing::calculate_size_spec(m, e, None),
            crate::types::bps_fraction(commission_bps),
        ) <= e
}

/// Every well-formed sizing method leaves room for a zero commission.
pub proof fn lemma_zero_commission_headroom(m: crate::position_sizing::PositionSizingMethod)
    ensures
        commission_headroom(m, 0),
{
    assert forall|e: int|
        0 <= e && in_range(e) implies #[trigger] crate::position_sizing::calculate_size_spec(
        m,
        e,
        None,
    ) + fx_mul(
        crate::position_sizing::calculate_size_spec(m, e, None),
        crate::types::bps_fraction(0),
    ) <= e by {
        lemma_zero_commission(crate::position_sizing::calculate_size_spec(m, e, None));
        lemma_size_le_equity(m, e);
    }
}

/// A concrete sufficient condition: committing at most half of equity
/// per entry leaves room for any commission up to 100 percent.
pub proof fn lemma_half_percent_headroom(p: i64, commission_bps: int)
    requires
        0 <= p as int <= 50 * (FP as int),
        0 <= commission_bps <= 10000 * (FP as int),
    ensures
        commission_headroom(
            crate::position_sizing::PositionSizingMethod::FixedPercent(p),
            commission_bps,
        ),
{
    let m = crate::position_sizing::PositionSizingMethod::FixedPercent(p);
    let frac_c = crate::types::bps_fraction(commission_bps);
    lemma_bps_fraction_range(commission_bps);
    assert forall|e: int|
        0 <= e && in_range(e) implies #[trigger] crate::position_sizing::calculate_size_spec(
        m,
        e,
        None,
    ) + fx_mul(crate::position_sizing::calculate_size_spec(m, e, None), frac_c) <= e by {
        let frac_p = crate::stops::pct_fraction(p as int);
        assert(0 <= frac_p <= (FP as int) / 2) by {
            crate::fixed::lemma_div_bounds(p as int, 100, (FP as int) / 2);
            vstd::arithmetic::div_mod::lemma_div_pos_is_pos(p as int, 100);
        }
        let v = crate::position_sizing::calculate_size_spec(m, e, None);
        lemma_size_nonneg(m, e);
        // the committed value is at most half of equity
        assert(2 * v <= e) by {
            let q = (e * frac_p) / (FP as int);
            assert(0 <= e * frac_p <= e * ((FP as int) / 2)) by (nonlinear_arith)
                requires
                    0 <= e,
                    0 <= frac_p <= (FP as int) / 2,
            ;
            vstd::arithmetic::div_mod::lemma_div_is_ordered(
                e * frac_p,
                e * ((FP as int) / 2),
                FP as int,
            );
            vstd::arithmetic::div_mod::lemma_div_pos_is_pos(e * frac_p, FP as int);
            let q2 = (e * ((FP as int) / 2)) / (FP as int);
            vstd::arithmetic::div_mod::lemma_fundamental_div_mod(e * ((FP as int) / 2), FP as int);
            assert(2 * q2 <= e) by (nonlinear_arith)
                requires
                    e * ((FP as int) / 2) == (FP as int) * q2 + (e * ((FP as int) / 2)) % (
                    FP as int),
                    0 <= (e * ((FP as int) / 2)) % (FP as int),
                    0 <= e,
            ;
            assert(v <= fx_mul(e, frac_p));
        }
        // the commission on it never exceeds the value itself
        assert(in_range(v));
        crate::fixed::lemma_fx_mul_le_identity(v, frac_c);
    }
}

/// A solvent ledger marks to a non-negative equity at a positive price.
proof fn lemma_equity_nonneg(s: EngStateV, close: int)
    requires
        solvent(s),
        0 < close,
    ensures
        0 <= crate::types::equity_spec(s.portfolio, close),
{
    lemma_fx_mul_nonneg(s.portfolio.btc_position, close);
}

/// Selling the whole position at a non-negative price with a commission
/// of at most 100 percent leaves a solvent, flat ledger.
proof fn lemma_sell_solvent(s: EngStateV, qty: int, price: int, commission_bps: int)
    requires
        s.portfolio.cash >= 0,
        s.portfolio.btc_position == qty,
        qty >= 0,
        0 <= price,
        0 <= commission_bps <= 10000 * (FP as int),
    ensures
        ({
            let p2 = crate::types::sell_spec(s.portfolio, qty, price, commission_bps);
            p2.cash >= 0 && p2.btc_position == 0
        }),
{
    let proceeds = fx_mul(qty, price);
    lemma_fx_mul_nonneg(qty, price);
    lemma_bps_fraction_range(commission_bps);
    crate::fixed::lemma_fx_mul_le_identity(proceeds, crate::types::bps_fraction(commission_bps));
}

/// One engine step keeps the ledger solvent and pushes a non-negative
/// equity mark, as long as the sizing method leaves room for the
/// commission.
proof fn lemma_step_solvent(
    cfg: ConfigV,
    bars: Seq<OHLCV>,
    atr: Option<int>,
    target: int,
    i: int,
    s: EngStateV,
)
    requires
        solvent(s),
        0 <= cfg.execution.commission_bps as int <= 10000 * (FP as int),
        commission_headroom(cfg.sizing, cfg.execution.commission_bps as int),
        0 <= cfg.execution.slippage_bps as int <= 10000 * (FP as int),
        cfg.sizing.wf(),
        0 <= i < bars.len(),
        bars[i].wf(),
    ensures
        ({
            let s3 = step_spec(cfg, bars, atr, target, i, s);
            &&& solvent(s3)
            &&& s3.equity_curve.len() == s.equity_curve.len() + 1
            &&& s3.equity_curve.last() >= 0
            &&& forall|j: int|
                0 <= j < s.equity_curve.len() ==> s3.equity_curve[j] == #[trigger] s.equity_curve[j]
        }),
{
    let close = bars[i].close as int;
    let hit = crate::engine::stop_hit_at(cfg, bars, atr, i, s);
    lemma_fill_prices_nonneg(cfg.execution.slippage_bps as int, close);
    let sell_price = crate::types::fill_sell_spec(cfg.execution.slippage_bps as int, close);
    let s1 = if hit {
        EngStateV { prev_target: 0, ..crate::engine::exit_position_spec(cfg, bars, i, s) }
    } else {
        match s.position {
            Some(pos) => EngStateV {
                position: Some(
                    crate::engine::PositionV {
                        highest_price: max_i(pos.highest_price, close),
                        ..pos
                    },
                ),
                ..s
            },
            None => s,
        }
    };
    assert(solvent(s1)) by {
        if hit {
            match s.position {
                Some(pos) => {
                    lemma_sell_solvent(
                        s,
                        pos.quantity,
                        sell_price,
                        cfg.execution.commission_bps as int,
                    );
                },
                None => {},
            }
        }
    }
    let s2 = if !hit && target != s1.prev_target {
        if target > s1.prev_target {
            let entered = if s1.position is None {
                crate::engine::try_enter_spec(cfg, bars, i, s1)
            } else {
                s1
            };
            EngStateV { prev_target: target, ..entered }
        } else {
            EngStateV {
                prev_target: target,
                ..crate::engine::exit_position_spec(cfg, bars, i, s1)
            }
        }
    } else {
        s1
    };
    assert(solvent(s2)) by {
        if !hit && target != s1.prev_target {
            if target > s1.prev_target {
                if s1.position is None {
                    let cash = s1.portfolio.cash;
                    let equity = crate::types::equity_spec(s1.portfolio, close);
                    // a flat ledger marks to exactly its cash
                    assert(fx_mul(0, close) == 0) by {
                        assert(0 * close == 0) by (nonlinear_arith);
                        vstd::arithmetic::div_mod::lemma_div_of0(FP as int);
                    }
                    assert(equity == cash);
                    let frac = crate::types::bps_fraction(cfg.execution.commission_bps as int);
                    lemma_bps_fraction_range(cfg.execution.commission_bps as int);
                    let value = crate::position_sizing::calculate_size_spec(
                        cfg.sizing,
                        equity,
                        None,
                    );
                    lemma_size_nonneg(cfg.sizing, equity);
                    // the headroom hypothesis at this bar's equity
                    assert(value + fx_mul(value, frac) <= equity);
                    let buy_price = crate::types::fill_buy_spec(
                        cfg.execution.slippage_bps as int,
                        close,
                    );
                    let quantity = fx_div(value, buy_price);
                    lemma_fx_div_nonneg(value, buy_price);
                    let cost = crate::fixed::fx_mul(quantity, buy_price);
                    // the fill costs at most the committed value, and the
                    // commission on it at most the commission on the value
                    crate::fixed::lemma_fx_mul_div_le(value, buy_price);
                    crate::fixed::lemma_fx_mul_mono_left(cost, value, frac);
                    lemma_fx_mul_nonneg(cost, frac);
                    assert(cost + fx_mul(cost, frac) <= cash);
                }
            } else {
                match s1.position {
                    Some(pos) => {
                        lemma_sell_solvent(
                            s1,
                            pos.quantity,
                            sell_price,
                            cfg.execution.commission_bps as int,
                        );
                    },
                    None => {},
                }
            }
        }
    }
    lemma_equity_nonneg(s2, close);
}

/// With a well-formed slippage and sizing policy, a non-negative starting
/// capital and a sizing method that leaves room for the commission,
/// equity stays non-negative on every bar.
pub proof fn lemma_equity_curve_non_negative(cfg: ConfigV, bars: Seq<OHLCV>, sigs: Seq<int>)
    requires
        crate::types::bars_wf(bars),
        0 <= cfg.execution.commission_bps as int <= 10000 * (FP as int),
        commission_headroom(cfg.sizing, cfg.execution.commission_bps as int),
        0 <= cfg.execution.slippage_bps as int <= 10000 * (FP as int),
        cfg.sizing.wf(),
        0 <= cfg.initial_capital,
        in_range(cfg.initial_capital),
    ensures
        forall|j: int|
            0 <= j < backtest_result_spec(cfg, bars, sigs).equity_curve.len()
                ==> #[trigger] backtest_result_spec(cfg, bars, sigs).equity_curve[j] >= 0,
{
    let atrs = crate::engine::atrs_spec(cfg, bars);
    lemma_run_solvent(cfg, bars, sigs, atrs, bars.len() as int);
}

/// The zero-commission case of the law above: every well-formed sizing
/// method leaves room for a zero commission, so equity stays non-negative.
pub proof fn lemma_equity_curve_non_negative_zero_commission(
    cfg: ConfigV,
    bars: Seq<OHLCV>,
    sigs: Seq<int>,
)
    requires
        crate::types::bars_wf(bars),
        cfg.execution.commission_bps == 0,
        0 <= cfg.execution.slippage_bps as int <= 10000 * (FP as int),
        cfg.sizing.wf(),
        0 <= cfg.initial_capital,
        in_range(cfg.initial_capital),
    ensures
        forall|j: int|
            0 <= j < backtest_result_spec(cfg, bars, sigs).equity_curve.len()
                ==> #[trigger] backtest_result_spec(cfg, bars, sigs).equity_curve[j] >= 0,
{
    lemma_zero_commission_headroom(cfg.sizing);
    lemma_equity_curve_non_negative(cfg, bars, sigs);
}

/// The state after any number of bars is solvent, with every equity mark
/// non-negative.
proof fn lemma_run_solvent(
    cfg: ConfigV,
    bars: Seq<OHLCV>,
    sigs: Seq<int>,
    atrs: Seq<Option<int>>,
    n: int,
)
    requires
        crate::types::bars_wf(bars),
        0 <= cfg.execution.commission_bps as int <= 10000 * (FP as int),
        commission_headroom(cfg.sizing, cfg.execution.commission_bps as int),
        0 <= cfg.execution.slippage_bps as int <= 10000 * (FP as int),
        cfg.sizing.wf(),
        0 <= cfg.initial_capital,
        in_range(cfg.initial_capital),
        0 <= n <= bars.len(),
    ensures
        solvent(run_state_spec(cfg, bars, sigs, atrs, n)),
        run_state_spec(cfg, bars, sigs, atrs, n).equity_curve.len() == n,
        forall|j: int|
            0 <= j < n ==> #[trigger] run_state_spec(cfg, bars, sigs, atrs, n).equity_curve[j]
                >= 0,
    decreases n,
{
    if n > 0 {
        lemma_run_solvent(cfg, bars, sigs, atrs, n - 1);
        assert(bars[n - 1].wf());
        lemma_step_solvent(
            cfg,
            bars,
            atrs[n - 1],
            sigs[n - 1],
            n - 1,
            run_state_spec(cfg, bars, sigs, atrs, n - 1),
        );
    }
}

/// Every drawdown of a non-decreasing curve is zero, so the fold is.
proof fn lemma_mdd_zero_of_non_decreasing(e: Seq<int>, n: int)
    requires
        non_decreasing(e),
        forall|i: int| 0 <= i < e.len() ==> 0 < #[trigger] e[i],
        0 <= n <= e.len(),
    ensures
        mdd_prefix(e, n) == 0,
    decreases n,
{
    if n > 0 {
        lemma_mdd_zero_of_non_decreasing(e, n - 1);
        lemma_peak_of_non_decreasing(e, n - 1);
        assert(fx_sub(e[n - 1], peak_prefix(e, n - 1)) == 0);
        assert(floor_div(0, peak_prefix(e, n - 1)) == 0) by {
            vstd::arithmetic::div_mod::lemma_div_of0(peak_prefix(e, n - 1));
        }
        assert(drawdown_at(e, n - 1) == 0);
    }
}

} // verus!
