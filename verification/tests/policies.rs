//! Position sizing, risk limits, stop-loss and ATR behaviour.

use backtester::fixed::FP;
use backtester::position_sizing::PositionSizingMethod;
use backtester::risk::RiskLimits;
use backtester::stops::{calculate_atr, StopLossMethod};

#[test]
fn test_fixed_dollar() {
    let sizing = PositionSizingMethod::FixedDollar(10_000 * FP);
    assert_eq!(sizing.calculate_size(100_000 * FP, None), 10_000 * FP);
    assert_eq!(sizing.calculate_size(5_000 * FP, None), 5_000 * FP); // Can't exceed equity
}

#[test]
fn test_fixed_percent() {
    let sizing = PositionSizingMethod::FixedPercent(10 * FP);
    assert_eq!(sizing.calculate_size(100_000 * FP, None), 10_000 * FP);
    assert_eq!(sizing.calculate_size(50_000 * FP, None), 5_000 * FP);
}

#[test]
fn test_kelly() {
    let sizing = PositionSizingMethod::Kelly {
        win_rate: 6 * FP / 10,
        avg_win: 1_000 * FP,
        avg_loss: 500 * FP,
    };
    let size = sizing.calculate_size(100_000 * FP, None);
    assert!(size > 0 && size <= 100_000 * FP);
}

#[test]
fn test_position_size_limit() {
    let limits = RiskLimits::new();

    // 50k position on 100k equity = 50%
    assert!(limits.check_position_size(50_000 * FP, 100_000 * FP));

    // 150k position on 100k equity = 150%
    assert!(!limits.check_position_size(150_000 * FP, 100_000 * FP));
}

#[test]
fn test_drawdown_limit() {
    let limits = RiskLimits::new();

    // 20% drawdown on 30% threshold = OK
    assert!(limits.check_drawdown(80_000 * FP, 100_000 * FP));

    // 40% drawdown on 30% threshold = STOP
    assert!(!limits.check_drawdown(60_000 * FP, 100_000 * FP));
}

#[test]
fn test_can_trade() {
    let mut limits = RiskLimits::new();
    limits.max_trades_per_day = 2;
    limits.min_bars_between_trades = 5;

    // Too soon since last trade
    assert!(!limits.can_trade(3, 0));

    // Enough time, but too many trades today
    assert!(!limits.can_trade(10, 2));

    // OK to trade
    assert!(limits.can_trade(10, 1));
}

#[test]
fn test_fixed_stop() {
    let stop = StopLossMethod::FixedPercent(10 * FP);

    // Entry at 100, 10% stop at 90
    assert!(!stop.is_hit(100 * FP, 91 * FP, 100 * FP, 0, None));
    assert!(stop.is_hit(100 * FP, 89 * FP, 100 * FP, 0, None));
}

#[test]
fn test_trailing_stop() {
    let stop = StopLossMethod::Trailing(10 * FP);

    // Entry 100, highest 120, 10% trailing stop at 108
    assert!(!stop.is_hit(100 * FP, 109 * FP, 120 * FP, 0, None));
    assert!(stop.is_hit(100 * FP, 107 * FP, 120 * FP, 0, None));
}

#[test]
fn test_time_limit() {
    let stop = StopLossMethod::TimeLimit(10);

    assert!(!stop.is_hit(100 * FP, 110 * FP, 110 * FP, 9, None));
    assert!(stop.is_hit(100 * FP, 110 * FP, 110 * FP, 10, None));
}

#[test]
fn test_atr_calculation() {
    let data = vec![
        (10 * FP, 9 * FP, 95 * FP / 10),
        (105 * FP / 10, 95 * FP / 10, 10 * FP),
        (11 * FP, 10 * FP, 105 * FP / 10),
    ];

    let atr = calculate_atr(&data, 2);
    assert_eq!(atr.len(), 3);
    assert!(atr[0].is_none());
    assert!(atr[1].unwrap() > 0);
}

#[test]
fn test_atr_stop_requires_defined_atr() {
    let stop = StopLossMethod::ATR { multiplier: 2 * FP, period: 14 };
    // undefined ATR: the stop can never trigger
    assert!(!stop.is_hit(100 * FP, 1, 100 * FP, 5, None));
    // defined ATR of 5: stop at 100 - 2*5 = 90
    assert!(!stop.is_hit(100 * FP, 91 * FP, 100 * FP, 5, Some(5 * FP)));
    assert!(stop.is_hit(100 * FP, 89 * FP, 100 * FP, 5, Some(5 * FP)));
}

#[test]
fn test_default_sizing_is_all_of_equity() {
    let sizing = PositionSizingMethod::default();
    assert_eq!(sizing.calculate_size(12_345 * FP, None), 12_345 * FP);
}
