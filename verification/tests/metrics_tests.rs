//! Derived metrics: Calmar, Sortino, Sharpe, drawdown.

use backtester::fixed::FP;
use backtester::metrics::{
    calculate_calmar_ratio, calculate_max_drawdown, calculate_sharpe_ratio,
    calculate_sortino_ratio, per_bar_returns,
};

#[test]
fn test_calmar_ratio() {
    // 100% return over 1 year with 50% drawdown
    let calmar = calculate_calmar_ratio(FP, -FP / 2, 365);
    assert!((calmar - 2 * FP).abs() < FP / 100);

    // 200% return over 2 years with 40% drawdown
    let calmar = calculate_calmar_ratio(2 * FP, -4 * FP / 10, 730);
    assert!((calmar - 25 * FP / 10).abs() < FP / 100);
}

#[test]
fn test_sortino_ratio() {
    // Symmetric returns: should be similar to Sharpe
    let returns = vec![FP / 100, -FP / 100, 2 * FP / 100, -2 * FP / 100, FP / 100];
    let sortino = calculate_sortino_ratio(&returns, 252);
    assert!(sortino.abs() < 5 * FP);

    // All positive returns: should be very high
    let returns = vec![FP / 100, 2 * FP / 100, FP / 100, 3 * FP / 100];
    let sortino = calculate_sortino_ratio(&returns, 252);
    assert!(sortino > 100 * FP);

    // Empty returns
    let returns: Vec<i64> = vec![];
    let sortino = calculate_sortino_ratio(&returns, 252);
    assert_eq!(sortino, 0);
}

#[test]
fn test_sharpe_zero_for_constant_returns() {
    // zero standard deviation: the ratio degenerates to 0
    let returns = vec![FP / 100, FP / 100, FP / 100];
    assert_eq!(calculate_sharpe_ratio(&returns, 252), 0);
    // empty input degenerates to 0
    let empty: Vec<i64> = vec![];
    assert_eq!(calculate_sharpe_ratio(&empty, 252), 0);
}

#[test]
fn test_max_drawdown_exact_value() {
    // peak 120, trough 90: drawdown is exactly -25%
    let curve = vec![100 * FP, 120 * FP, 90 * FP, 110 * FP];
    assert_eq!(calculate_max_drawdown(&curve), -25 * FP / 100);
    // the drawdown is never positive
    assert!(calculate_max_drawdown(&curve) <= 0);
}

#[test]
fn test_max_drawdown_zero_iff_non_decreasing() {
    let rising = vec![100 * FP, 100 * FP, 110 * FP, 125 * FP];
    assert_eq!(calculate_max_drawdown(&rising), 0);
    let dipping = vec![100 * FP, 99 * FP, 150 * FP];
    assert!(calculate_max_drawdown(&dipping) < 0);
    let empty: Vec<i64> = vec![];
    assert_eq!(calculate_max_drawdown(&empty), 0);
}

#[test]
fn test_per_bar_returns_exact() {
    let curve = vec![100 * FP, 110 * FP, 99 * FP];
    let rets = per_bar_returns(&curve);
    // +10% then -10%
    assert_eq!(rets, vec![FP / 10, -FP / 10]);
}

#[test]
fn test_metrics_invariant_under_capital_scaling() {
    // scaling the whole curve by a constant leaves every ratio unchanged
    let curve = vec![100 * FP, 110 * FP, 105 * FP, 121 * FP, 118 * FP];
    let scaled: Vec<i64> = curve.iter().map(|v| v * 3).collect();
    let r1 = per_bar_returns(&curve);
    let r2 = per_bar_returns(&scaled);
    assert_eq!(r1, r2);
    assert_eq!(
        calculate_sharpe_ratio(&r1, 252),
        calculate_sharpe_ratio(&r2, 252)
    );
    assert_eq!(
        calculate_sortino_ratio(&r1, 252),
        calculate_sortino_ratio(&r2, 252)
    );
    assert_eq!(calculate_max_drawdown(&curve), calculate_max_drawdown(&scaled));
}
