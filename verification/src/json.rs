//! A verified JSON encoding of [`BacktestResult`]: stable field names and
//! order, decimal fixed-point integers, and a parser that inverts it.

use vstd::prelude::*;
use crate::result::{BacktestResult, BacktestResultV};
use crate::sweep::{OptimizationResult, OptimizationResultV};
use crate::walkforward::{WalkForwardResult, WalkForwardResultV};
use crate::trade::{Trade, TradeStats, TradeStatsV, TradeV};

verus! {

/// The decimal digit characters, by value.
pub open spec fn digit_char(d: int) -> char {
    if d == 0 {
        '0'
    } else if d == 1 {
        '1'
    } else if d == 2 {
        '2'
    } else if d == 3 {
        '3'
    } else if d == 4 {
        '4'
    } else if d == 5 {
        '5'
    } else if d == 6 {
        '6'
    } else if d == 7 {
        '7'
    } else if d == 8 {
        '8'
    } else {
        '9'
    }
}

/// The value of a decimal digit character; -1 for any other character.
pub open spec fn digit_val(c: char) -> int {
    if c == '0' {
        0
    } else if c == '1' {
        1
    } else if c == '2' {
        2
    } else if c == '3' {
        3
    } else if c == '4' {
        4
    } else if c == '5' {
        5
    } else if c == '6' {
        6
    } else if c == '7' {
        7
    } else if c == '8' {
        8
    } else if c == '9' {
        9
    } else {
        -1
    }
}

pub open spec fn is_digit_c(c: char) -> bool {
    digit_val(c) >= 0
}

/// The decimal digits of a non-negative number, most significant first.
pub open spec fn dec_digits(n: int) -> Seq<char>
    decreases n,
{
    if n < 10 {
        seq![digit_char(n)]
    } else {
        dec_digits(n / 10) + seq![digit_char(n % 10)]
    }
}

/// A signed decimal number.
pub open spec fn ser_i64(v: int) -> Seq<char> {
    if v < 0 {
        seq!['-'] + dec_digits(-v)
    } else {
        dec_digits(v)
    }
}

pub open spec fn ser_bool(b: bool) -> Seq<char> {
    if b {
        ("true")@
    } else {
        ("false")@
    }
}

/// A comma-separated list body, front first.
pub open spec fn list_body(s: Seq<int>) -> Seq<char>
    decreases s.len(),
{
    if s.len() == 0 {
        Seq::empty()
    } else if s.len() == 1 {
        ser_i64(s[0])
    } else {
        ser_i64(s[0]) + seq![','] + list_body(s.drop_first())
    }
}

/// A JSON array of numbers.
pub open spec fn ser_list(s: Seq<int>) -> Seq<char> {
    seq!['['] + list_body(s) + seq![']']
}

/// One trade as a JSON object.
pub open spec fn ser_trade(t: TradeV) -> Seq<char> {
    ("{\"entry_timestamp\":")@ + ser_i64(t.entry_timestamp) + (",\"exit_timestamp\":")@
        + ser_i64(t.exit_timestamp) + (",\"entry_price\":")@ + ser_i64(t.entry_price) + (
    ",\"exit_price\":")@ + ser_i64(t.exit_price) + (",\"position_size\":")@ + ser_i64(
        t.position_size,
    ) + (",\"pnl\":")@ + ser_i64(t.pnl) + (",\"pnl_pct\":")@ + ser_i64(t.pnl_pct) + (
    ",\"duration_bars\":")@ + dec_digits(t.duration_bars) + (",\"is_win\":")@ + ser_bool(t.is_win)
        + ("}")@
}

/// A comma-separated trade list body, front first.
pub open spec fn trades_body(s: Seq<TradeV>) -> Seq<char>
    decreases s.len(),
{
    if s.len() == 0 {
        Seq::empty()
    } else if s.len() == 1 {
        ser_trade(s[0])
    } else {
        ser_trade(s[0]) + seq![','] + trades_body(s.drop_first())
    }
}

/// A JSON array of trades.
pub open spec fn ser_trades(s: Seq<TradeV>) -> Seq<char> {
    seq!['['] + trades_body(s) + seq![']']
}

/// The aggregate statistics as a JSON object.
pub open spec fn ser_stats(st: TradeStatsV) -> Seq<char> {
    ("{\"total_trades\":")@ + dec_digits(st.total_trades) + (",\"winning_trades\":")@ + dec_digits(
        st.winning_trades,
    ) + (",\"losing_trades\":")@ + dec_digits(st.losing_trades) + (",\"win_rate\":")@ + ser_i64(
        st.win_rate,
    ) + (",\"profit_factor\":")@ + ser_i64(st.profit_factor) + (",\"avg_win\":")@ + ser_i64(
        st.avg_win,
    ) + (",\"avg_loss\":")@ + ser_i64(st.avg_loss) + (",\"largest_win\":")@ + ser_i64(
        st.largest_win,
    ) + (",\"largest_loss\":")@ + ser_i64(st.largest_loss) + (",\"avg_trade\":")@ + ser_i64(
        st.avg_trade,
    ) + (",\"expectancy\":")@ + ser_i64(st.expectancy) + (",\"longest_win_streak\":")@
        + dec_digits(st.longest_win_streak) + (",\"longest_loss_streak\":")@ + dec_digits(
        st.longest_loss_streak,
    ) + ("}")@
}

/// A whole backtest result as a JSON object; the trade list and the
/// statistics appear only when present.
pub open spec fn ser_result(r: BacktestResultV) -> Seq<char> {
    ("{\"initial_capital\":")@ + ser_i64(r.initial_capital) + (",\"final_equity\":")@ + ser_i64(
        r.final_equity,
    ) + (",\"total_return\":")@ + ser_i64(r.total_return) + (",\"equity_curve\":")@ + ser_list(
        r.equity_curve,
    ) + (",\"total_trades\":")@ + dec_digits(r.total_trades) + (",\"sharpe_ratio\":")@ + ser_i64(
        r.sharpe_ratio,
    ) + (",\"sortino_ratio\":")@ + ser_i64(r.sortino_ratio) + (",\"calmar_ratio\":")@ + ser_i64(
        r.calmar_ratio,
    ) + (",\"max_drawdown\":")@ + ser_i64(r.max_drawdown) + (match r.trades {
        Some(ts) => (",\"trades\":")@ + ser_trades(ts),
        None => Seq::empty(),
    }) + (match r.trade_stats {
        Some(st) => (",\"trade_stats\":")@ + ser_stats(st),
        None => Seq::empty(),
    }) + ("}")@
}

// ---------------------------------------------------------------------
// The parser, as a mathematical function of the input.
// ---------------------------------------------------------------------

/// Consume an expected literal.
pub open spec fn p_lit(s: Seq<char>, lit: Seq<char>) -> Option<Seq<char>> {
    if lit.len() <= s.len() && s.take(lit.len() as int) == lit {
        Some(s.skip(lit.len() as int))
    } else {
        None
    }
}

/// Consume decimal digits greedily into `acc`, failing past `bound`.
pub open spec fn p_digits(s: Seq<char>, acc: int, bound: int) -> Option<(int, Seq<char>)>
    decreases s.len(),
{
    if s.len() > 0 && is_digit_c(s[0]) {
        let a2 = acc * 10 + digit_val(s[0]);
        if a2 > bound {
            None
        } else {
            p_digits(s.skip(1), a2, bound)
        }
    } else {
        Some((acc, s))
    }
}

/// A non-negative decimal number of at least one digit, at most `bound`.
pub open spec fn p_nat(s: Seq<char>, bound: int) -> Option<(int, Seq<char>)> {
    if s.len() > 0 && is_digit_c(s[0]) {
        p_digits(s, 0, bound)
    } else {
        None
    }
}

/// A signed decimal number within the signed 64-bit range.
pub open spec fn p_i64(s: Seq<char>) -> Option<(int, Seq<char>)> {
    if s.len() > 0 && s[0] == '-' {
        match p_nat(s.skip(1), 0x8000_0000_0000_0000) {
            Some((m, r)) => Some((-m, r)),
            None => None,
        }
    } else {
        p_nat(s, 0x7fff_ffff_ffff_ffff)
    }
}

/// A boolean literal.
pub open spec fn p_bool(s: Seq<char>) -> Option<(bool, Seq<char>)> {
    match p_lit(s, ("true")@) {
        Some(r) => Some((true, r)),
        None => match p_lit(s, ("false")@) {
            Some(r) => Some((false, r)),
            None => None,
        },
    }
}

/// One or more comma-separated numbers; `fuel` bounds the recursion.
pub open spec fn p_list_items(s: Seq<char>, fuel: int) -> Option<(Seq<int>, Seq<char>)>
    decreases fuel,
{
    if fuel <= 0 {
        None
    } else {
        match p_i64(s) {
            Some((v, r)) => if r.len() > 0 && r[0] == ',' {
                match p_list_items(r.skip(1), fuel - 1) {
                    Some((vs, r2)) => Some((seq![v] + vs, r2)),
                    None => None,
                }
            } else {
                Some((seq![v], r))
            },
            None => None,
        }
    }
}

/// A JSON array of numbers.
pub open spec fn p_list(s: Seq<char>) -> Option<(Seq<int>, Seq<char>)> {
    match p_lit(s, ("[")@) {
        Some(r) => if r.len() > 0 && r[0] == ']' {
            Some((Seq::empty(), r.skip(1)))
        } else {
            match p_list_items(r, r.len() as int) {
                Some((vs, r2)) => match p_lit(r2, ("]")@) {
                    Some(r3) => Some((vs, r3)),
                    None => None,
                },
                None => None,
            }
        },
        None => None,
    }
}

/// A number field: its literal key, then a signed number.
pub open spec fn p_i64_field(s: Seq<char>, key: Seq<char>) -> Option<(int, Seq<char>)> {
    match p_lit(s, key) {
        Some(r) => p_i64(r),
        None => None,
    }
}

/// A non-negative number field with an explicit bound.
pub open spec fn p_nat_field(s: Seq<char>, key: Seq<char>, bound: int) -> Option<(int, Seq<char>)> {
    match p_lit(s, key) {
        Some(r) => p_nat(r, bound),
        None => None,
    }
}

/// One trade object.
pub open spec fn p_trade(s: Seq<char>) -> Option<(TradeV, Seq<char>)> {
    match p_i64_field(s, ("{\"entry_timestamp\":")@) {
        Some((entry_timestamp, s)) => match p_i64_field(s, (",\"exit_timestamp\":")@) {
            Some((exit_timestamp, s)) => match p_i64_field(s, (",\"entry_price\":")@) {
                Some((entry_price, s)) => match p_i64_field(s, (",\"exit_price\":")@) {
                    Some((exit_price, s)) => match p_i64_field(s, (",\"position_size\":")@) {
                        Some((position_size, s)) => match p_i64_field(s, (",\"pnl\":")@) {
                            Some((pnl, s)) => match p_i64_field(s, (",\"pnl_pct\":")@) {
                                Some((pnl_pct, s)) => match p_nat_field(
                                    s,
                                    (",\"duration_bars\":")@,
                                    usize::MAX as int,
                                ) {
                                    Some((duration_bars, s)) => match p_lit(s, (",\"is_win\":")@) {
                                        Some(s) => match p_bool(s) {
                                            Some((is_win, s)) => match p_lit(s, ("}")@) {
                                                Some(s) => Some(
                                                    (
                                                        TradeV {
                                                            entry_timestamp,
                                                            exit_timestamp,
                                                            entry_price,
                                                            exit_price,
                                                            position_size,
                                                            pnl,
                                                            pnl_pct,
                                                            duration_bars,
                                                            is_win,
                                                        },
                                                        s,
                                                    ),
                                                ),
                                                None => None,
                                            },
                                            None => None,
                                        },
                                        None => None,
                                    },
                                    None => None,
                                },
                                None => None,
                            },
                            None => None,
                        },
                        None => None,
                    },
                    None => None,
                },
                None => None,
            },
            None => None,
        },
        None => None,
    }
}

/// One or more comma-separated trades; `fuel` bounds the recursion.
pub open spec fn p_trades_items(s: Seq<char>, fuel: int) -> Option<(Seq<TradeV>, Seq<char>)>
    decreases fuel,
{
    if fuel <= 0 {
        None
    } else {
        match p_trade(s) {
            Some((v, r)) => if r.len() > 0 && r[0] == ',' {
                match p_trades_items(r.skip(1), fuel - 1) {
                    Some((vs, r2)) => Some((seq![v] + vs, r2)),
                    None => None,
                }
            } else {
                Some((seq![v], r))
            },
            None => None,
        }
    }
}

/// A JSON array of trades.
pub open spec fn p_trades(s: Seq<char>) -> Option<(Seq<TradeV>, Seq<char>)> {
    match p_lit(s, ("[")@) {
        Some(r) => if r.len() > 0 && r[0] == ']' {
            Some((Seq::empty(), r.skip(1)))
        } else {
            match p_trades_items(r, r.len() as int) {
                Some((vs, r2)) => match p_lit(r2, ("]")@) {
                    Some(r3) => Some((vs, r3)),
                    None => None,
                },
                None => None,
            }
        },
        None => None,
    }
}

/// The first six statistics fields.
pub open spec fn p_stats_a(s: Seq<char>) -> Option<((int, int, int, int, int, int), Seq<char>)> {
    match p_nat_field(s, ("{\"total_trades\":")@, usize::MAX as int) {
        Some((total_trades, s)) => match p_nat_field(
            s,
            (",\"winning_trades\":")@,
            usize::MAX as int,
        ) {
            Some((winning_trades, s)) => match p_nat_field(
                s,
                (",\"losing_trades\":")@,
                usize::MAX as int,
            ) {
                Some((losing_trades, s)) => match p_i64_field(s, (",\"win_rate\":")@) {
                    Some((win_rate, s)) => match p_i64_field(s, (",\"profit_factor\":")@) {
                        Some((profit_factor, s)) => match p_i64_field(s, (",\"avg_win\":")@) {
                            Some((avg_win, s)) => Some(
                                (
                                    (
                                        total_trades,
                                        winning_trades,
                                        losing_trades,
                                        win_rate,
                                        profit_factor,
                                        avg_win,
                                    ),
                                    s,
                                ),
                            ),
                            None => None,
                        },
                        None => None,
                    },
                    None => None,
                },
                None => None,
            },
            None => None,
        },
        None => None,
    }
}

/// The remaining seven statistics fields and the closing brace.
pub open spec fn p_stats_b(s: Seq<char>) -> Option<
    ((int, int, int, int, int, int, int), Seq<char>),
> {
    match p_i64_field(s, (",\"avg_loss\":")@) {
        Some((avg_loss, s)) => match p_i64_field(s, (",\"largest_win\":")@) {
            Some((largest_win, s)) => match p_i64_field(s, (",\"largest_loss\":")@) {
                Some((largest_loss, s)) => match p_i64_field(s, (",\"avg_trade\":")@) {
                    Some((avg_trade, s)) => match p_i64_field(s, (",\"expectancy\":")@) {
                        Some((expectancy, s)) => match p_nat_field(
                            s,
                            (",\"longest_win_streak\":")@,
                            usize::MAX as int,
                        ) {
                            Some((longest_win_streak, s)) => match p_nat_field(
                                s,
                                (",\"longest_loss_streak\":")@,
                                usize::MAX as int,
                            ) {
                                Some((longest_loss_streak, s)) => match p_lit(s, ("}")@) {
                                    Some(s) => Some(
                                        (
                                            (
                                                avg_loss,
                                                largest_win,
                                                largest_loss,
                                                avg_trade,
                                                expectancy,
                                                longest_win_streak,
                                                longest_loss_streak,
                                            ),
                                            s,
                                        ),
                                    ),
                                    None => None,
                                },
                                None => None,
                            },
                            None => None,
                        },
                        None => None,
                    },
                    None => None,
                },
                None => None,
            },
            None => None,
        },
        None => None,
    }
}

/// The statistics object.
pub open spec fn p_stats(s: Seq<char>) -> Option<(TradeStatsV, Seq<char>)> {
    match p_stats_a(s) {
        Some((a, s)) => match p_stats_b(s) {
            Some((b, s)) => Some(
                (
                    TradeStatsV {
                        total_trades: a.0,
                        winning_trades: a.1,
                        losing_trades: a.2,
                        win_rate: a.3,
                        profit_factor: a.4,
                        avg_win: a.5,
                        avg_loss: b.0,
                        largest_win: b.1,
                        largest_loss: b.2,
                        avg_trade: b.3,
                        expectancy: b.4,
                        longest_win_streak: b.5,
                        longest_loss_streak: b.6,
                    },
                    s,
                ),
            ),
            None => None,
        },
        None => None,
    }
}

/// The nine leading result fields.
pub open spec fn p_result_head(s: Seq<char>) -> Option<
    ((int, int, int, Seq<int>, int, int, int, int, int), Seq<char>),
> {
    match p_i64_field(s, ("{\"initial_capital\":")@) {
        Some((initial_capital, s)) => match p_i64_field(s, (",\"final_equity\":")@) {
            Some((final_equity, s)) => match p_i64_field(s, (",\"total_return\":")@) {
                Some((total_return, s)) => match p_lit(s, (",\"equity_curve\":")@) {
                    Some(s) => match p_list(s) {
                        Some((equity_curve, s)) => match p_nat_field(
                            s,
                            (",\"total_trades\":")@,
                            0xffff_ffff_ffff_ffff,
                        ) {
                            Some((total_trades, s)) => match p_i64_field(
                                s,
                                (",\"sharpe_ratio\":")@,
                            ) {
                                Some((sharpe_ratio, s)) => match p_i64_field(
                                    s,
                                    (",\"sortino_ratio\":")@,
                                ) {
                                    Some((sortino_ratio, s)) => match p_i64_field(
                                        s,
                                        (",\"calmar_ratio\":")@,
                                    ) {
                                        Some((calmar_ratio, s)) => match p_i64_field(
                                            s,
                                            (",\"max_drawdown\":")@,
                                        ) {
                                            Some((max_drawdown, s)) => Some(
                                                (
                                                    (
                                                        initial_capital,
                                                        final_equity,
                                                        total_return,
                                                        equity_curve,
                                                        total_trades,
                                                        sharpe_ratio,
                                                        sortino_ratio,
                                                        calmar_ratio,
                                                        max_drawdown,
                                                    ),
                                                    s,
                                                ),
                                            ),
                                            None => None,
                                        },
                                        None => None,
                                    },
                                    None => None,
                                },
                                None => None,
                            },
                            None => None,
                        },
                        None => None,
                    },
                    None => None,
                },
                None => None,
            },
            None => None,
        },
        None => None,
    }
}

/// The optional trade list.
pub open spec fn p_opt_trades(s: Seq<char>) -> Option<(Option<Seq<TradeV>>, Seq<char>)> {
    match p_lit(s, (",\"trades\":")@) {
        Some(r) => match p_trades(r) {
            Some((ts, r2)) => Some((Some(ts), r2)),
            None => None,
        },
        None => Some((None, s)),
    }
}

/// The optional statistics object.
pub open spec fn p_opt_stats(s: Seq<char>) -> Option<(Option<TradeStatsV>, Seq<char>)> {
    match p_lit(s, (",\"trade_stats\":")@) {
        Some(r) => match p_stats(r) {
            Some((st, r2)) => Some((Some(st), r2)),
            None => None,
        },
        None => Some((None, s)),
    }
}

/// A whole result object and whatever follows it.
pub open spec fn p_result(s: Seq<char>) -> Option<(BacktestResultV, Seq<char>)> {
    match p_result_head(s) {
        Some((h, s)) => match p_opt_trades(s) {
            Some((trades, s)) => match p_opt_stats(s) {
                Some((trade_stats, s)) => match p_lit(s, ("}")@) {
                    Some(s) => Some(
                        (
                            BacktestResultV {
                                initial_capital: h.0,
                                final_equity: h.1,
                                total_return: h.2,
                                equity_curve: h.3,
                                total_trades: h.4,
                                sharpe_ratio: h.5,
                                sortino_ratio: h.6,
                                calmar_ratio: h.7,
                                max_drawdown: h.8,
                                trades,
                                trade_stats,
                            },
                            s,
                        ),
                    ),
                    None => None,
                },
                None => None,
            },
            None => None,
        },
        None => None,
    }
}

// ---------------------------------------------------------------------
// The round trip: parsing inverts serialising.
// ---------------------------------------------------------------------

/// A value the signed 64-bit decimal encoding covers.
pub open spec fn i64_bounded(v: int) -> bool {
    -0x8000_0000_0000_0000 <= v <= 0x7fff_ffff_ffff_ffff
}

/// A trade whose fields the encoding covers.
pub open spec fn trade_bounded(t: TradeV) -> bool {
    &&& i64_bounded(t.entry_timestamp)
    &&& i64_bounded(t.exit_timestamp)
    &&& i64_bounded(t.entry_price)
    &&& i64_bounded(t.exit_price)
    &&& i64_bounded(t.position_size)
    &&& i64_bounded(t.pnl)
    &&& i64_bounded(t.pnl_pct)
    &&& 0 <= t.duration_bars <= usize::MAX as int
}

/// Statistics whose fields the encoding covers.
pub open spec fn stats_bounded(st: TradeStatsV) -> bool {
    &&& 0 <= st.total_trades <= usize::MAX as int
    &&& 0 <= st.winning_trades <= usize::MAX as int
    &&& 0 <= st.losing_trades <= usize::MAX as int
    &&& i64_bounded(st.win_rate)
    &&& i64_bounded(st.profit_factor)
    &&& i64_bounded(st.avg_win)
    &&& i64_bounded(st.avg_loss)
    &&& i64_bounded(st.largest_win)
    &&& i64_bounded(st.largest_loss)
    &&& i64_bounded(st.avg_trade)
    &&& i64_bounded(st.expectancy)
    &&& 0 <= st.longest_win_streak <= usize::MAX as int
    &&& 0 <= st.longest_loss_streak <= usize::MAX as int
}

/// A result whose fields the encoding covers.
pub open spec fn result_bounded(r: BacktestResultV) -> bool {
    &&& i64_bounded(r.initial_capital)
    &&& i64_bounded(r.final_equity)
    &&& i64_bounded(r.total_return)
    &&& forall|i: int| 0 <= i < r.equity_curve.len() ==> i64_bounded(#[trigger] r.equity_curve[i])
    &&& 0 <= r.total_trades <= 0xffff_ffff_ffff_ffff
    &&& i64_bounded(r.sharpe_ratio)
    &&& i64_bounded(r.sortino_ratio)
    &&& i64_bounded(r.calmar_ratio)
    &&& i64_bounded(r.max_drawdown)
    &&& match r.trades {
        Some(ts) => forall|i: int| 0 <= i < ts.len() ==> trade_bounded(#[trigger] ts[i]),
        None => true,
    }
    &&& match r.trade_stats {
        Some(st) => stats_bounded(st),
        None => true,
    }
}

/// Sequence concatenation re-associates.
proof fn lemma_seq_assoc<A>(a: Seq<A>, b: Seq<A>, c: Seq<A>)
    ensures
        (a + b) + c == a + (b + c),
{
    assert((a + b) + c =~= a + (b + c));
}

/// A literal at the front of the input parses off exactly.
proof fn lemma_p_lit_rt(lit: Seq<char>, rest: Seq<char>)
    ensures
        p_lit(lit + rest, lit) == Some(rest),
{
    assert((lit + rest).take(lit.len() as int) =~= lit);
    assert((lit + rest).skip(lit.len() as int) =~= rest);
}

/// Powers of ten.
pub open spec fn pow10(k: int) -> int
    decreases k,
{
    if k <= 0 {
        1
    } else {
        10 * pow10(k - 1)
    }
}

/// A decimal encoding has at least one digit and starts with one.
proof fn lemma_dec_digits_first(n: int)
    requires
        0 <= n,
    ensures
        dec_digits(n).len() >= 1,
        is_digit_c(dec_digits(n)[0]),
        dec_digits(n)[0] != '-',
    decreases n,
{
    if n >= 10 {
        lemma_dec_digits_first(n / 10);
        assert(dec_digits(n)[0] == dec_digits(n / 10)[0]);
    }
}

/// Reading the digits of `n` after an accumulator multiplies the
/// accumulator past them and adds `n`.
proof fn lemma_p_digits_dec(n: int, acc: int, bound: int, rest: Seq<char>)
    requires
        0 <= n,
        0 <= acc,
        acc * pow10(dec_digits(n).len() as int) + n <= bound,
    ensures
        p_digits(dec_digits(n) + rest, acc, bound) == p_digits(
            rest,
            acc * pow10(dec_digits(n).len() as int) + n,
            bound,
        ),
    decreases n,
{
    let ds = dec_digits(n);
    if n < 10 {
        assert(ds == seq![digit_char(n)]);
        assert((ds + rest)[0] == digit_char(n));
        assert(is_digit_c(digit_char(n)) && digit_val(digit_char(n)) == n);
        assert(pow10(0) == 1);
        assert(pow10(1) == 10);
        assert(acc * 10 + n <= bound) by (nonlinear_arith)
            requires
                acc * pow10(1) + n <= bound,
                pow10(1) == 10,
        ;
        assert((ds + rest).skip(1) =~= rest);
    } else {
        let hi = n / 10;
        let lo = n % 10;
        vstd::arithmetic::div_mod::lemma_fundamental_div_mod(n, 10);
        let dhi = dec_digits(hi);
        assert(ds == dhi + seq![digit_char(lo)]);
        assert(ds + rest =~= dhi + (seq![digit_char(lo)] + rest));
        let k = dhi.len() as int;
        assert(ds.len() as int == k + 1);
        assert(pow10(k + 1) == 10 * pow10(k));
        assert(1 <= pow10(k)) by {
            lemma_pow10_pos(k);
        }
        // the accumulator bound carries down to the high digits
        assert(acc * pow10(k) + hi <= bound) by (nonlinear_arith)
            requires
                acc * pow10(k + 1) + n <= bound,
                pow10(k + 1) == 10 * pow10(k),
                n == 10 * hi + lo,
                0 <= lo < 10,
                0 <= acc,
                0 <= hi,
                1 <= pow10(k),
        ;
        lemma_p_digits_dec(hi, acc, bound, seq![digit_char(lo)] + rest);
        let a1 = acc * pow10(k) + hi;
        assert(0 <= a1) by (nonlinear_arith)
            requires
                0 <= acc,
                0 <= hi,
                1 <= pow10(k),
                a1 == acc * pow10(k) + hi,
        ;
        assert((seq![digit_char(lo)] + rest)[0] == digit_char(lo));
        assert(is_digit_c(digit_char(lo)) && digit_val(digit_char(lo)) == lo);
        assert(a1 * 10 + lo == acc * pow10(k + 1) + n) by (nonlinear_arith)
            requires
                a1 == acc * pow10(k) + hi,
                pow10(k + 1) == 10 * pow10(k),
                n == 10 * hi + lo,
        ;
        assert((seq![digit_char(lo)] + rest).skip(1) =~= rest);
    }
}

proof fn lemma_pow10_pos(k: int)
    ensures
        1 <= pow10(k),
    decreases k,
{
    if k > 0 {
        lemma_pow10_pos(k - 1);
    }
}

/// A bounded non-negative number round-trips when what follows is not a
/// digit.
proof fn lemma_p_nat_rt(n: int, bound: int, rest: Seq<char>)
    requires
        0 <= n <= bound,
        rest.len() == 0 || !is_digit_c(rest[0]),
    ensures
        p_nat(dec_digits(n) + rest, bound) == Some((n, rest)),
{
    lemma_dec_digits_first(n);
    assert((dec_digits(n) + rest)[0] == dec_digits(n)[0]);
    assert(pow10(dec_digits(n).len() as int) >= 1) by {
        lemma_pow10_pos(dec_digits(n).len() as int);
    }
    assert(0 * pow10(dec_digits(n).len() as int) + n == n) by (nonlinear_arith);
    lemma_p_digits_dec(n, 0, bound, rest);
}

/// A signed 64-bit number round-trips when what follows is not a digit.
proof fn lemma_p_i64_rt(v: int, rest: Seq<char>)
    requires
        i64_bounded(v),
        rest.len() == 0 || !is_digit_c(rest[0]),
    ensures
        p_i64(ser_i64(v) + rest) == Some((v, rest)),
{
    if v < 0 {
        assert(ser_i64(v) + rest =~= seq!['-'] + (dec_digits(-v) + rest));
        assert((seq!['-'] + (dec_digits(-v) + rest))[0] == '-');
        assert((seq!['-'] + (dec_digits(-v) + rest)).skip(1) =~= dec_digits(-v) + rest);
        lemma_p_nat_rt(-v, 0x8000_0000_0000_0000, rest);
    } else {
        lemma_dec_digits_first(v);
        assert((dec_digits(v) + rest)[0] == dec_digits(v)[0]);
        lemma_p_nat_rt(v, 0x7fff_ffff_ffff_ffff, rest);
    }
}

/// A boolean literal round-trips.
proof fn lemma_p_bool_rt(b: bool, rest: Seq<char>)
    ensures
        p_bool(ser_bool(b) + rest) == Some((b, rest)),
{
    reveal_strlit("true");
    reveal_strlit("false");
    if b {
        lemma_p_lit_rt(("true")@, rest);
    } else {
        let s = ("false")@ + rest;
        assert(s.take(4)[0] == 'f');
        assert(("true")@[0] == 't');
        assert(p_lit(s, ("true")@) is None);
        lemma_p_lit_rt(("false")@, rest);
    }
}

/// A number field round-trips.
proof fn lemma_p_i64_field_rt(key: Seq<char>, v: int, rest: Seq<char>)
    requires
        i64_bounded(v),
        rest.len() == 0 || !is_digit_c(rest[0]),
    ensures
        p_i64_field(key + (ser_i64(v) + rest), key) == Some((v, rest)),
{
    lemma_p_lit_rt(key, ser_i64(v) + rest);
    lemma_p_i64_rt(v, rest);
}

/// A bounded non-negative field round-trips.
proof fn lemma_p_nat_field_rt(key: Seq<char>, v: int, bound: int, rest: Seq<char>)
    requires
        0 <= v <= bound,
        rest.len() == 0 || !is_digit_c(rest[0]),
    ensures
        p_nat_field(key + (dec_digits(v) + rest), key, bound) == Some((v, rest)),
{
    lemma_p_lit_rt(key, dec_digits(v) + rest);
    lemma_p_nat_rt(v, bound, rest);
}

/// The body of a non-empty list is at least one character per element.
proof fn lemma_list_body_len(s: Seq<int>)
    requires
        s.len() >= 1,
    ensures
        list_body(s).len() >= s.len(),
    decreases s.len(),
{
    if s.len() == 1 {
        lemma_ser_i64_len(s[0]);
    } else {
        lemma_list_body_len(s.drop_first());
        lemma_ser_i64_len(s[0]);
    }
}

proof fn lemma_ser_i64_len(v: int)
    ensures
        ser_i64(v).len() >= 1,
{
    if v < 0 {
    } else {
        lemma_dec_digits_len(v);
    }
}

proof fn lemma_dec_digits_len(n: int)
    ensures
        dec_digits(n).len() >= 1,
    decreases n,
{
    if n >= 10 {
        lemma_dec_digits_len(n / 10);
    }
}

/// The items of a non-empty list round-trip, given enough fuel and a
/// closing bracket right after.
proof fn lemma_p_list_items_rt(s: Seq<int>, rest: Seq<char>, fuel: int)
    requires
        s.len() >= 1,
        fuel >= s.len(),
        forall|i: int| 0 <= i < s.len() ==> i64_bounded(#[trigger] s[i]),
        rest.len() >= 1,
        rest[0] == ']',
    ensures
        p_list_items(list_body(s) + rest, fuel) == Some((s, rest)),
    decreases s.len(),
{
    if s.len() == 1 {
        assert(list_body(s) + rest =~= ser_i64(s[0]) + rest);
        lemma_p_i64_rt(s[0], rest);
        assert(seq![s[0]] =~= s);
    } else {
        let df = s.drop_first();
        let tail = seq![','] + (list_body(df) + rest);
        assert(list_body(s) + rest =~= ser_i64(s[0]) + tail);
        assert(tail[0] == ',');
        lemma_p_i64_rt(s[0], tail);
        assert(tail.skip(1) =~= list_body(df) + rest);
        lemma_p_list_items_rt(df, rest, fuel - 1);
        assert(seq![s[0]] + df =~= s);
    }
}

/// A serialised list of numbers round-trips.
proof fn lemma_p_list_rt(s: Seq<int>, rest: Seq<char>)
    requires
        forall|i: int| 0 <= i < s.len() ==> i64_bounded(#[trigger] s[i]),
    ensures
        p_list(ser_list(s) + rest) == Some((s, rest)),
{
    reveal_strlit("[");
    reveal_strlit("]");
    let inner = list_body(s) + (seq![']'] + rest);
    assert(ser_list(s) + rest =~= seq!['['] + inner);
    assert(("[")@ =~= seq!['[']);
    lemma_p_lit_rt(("[")@, inner);
    if s.len() == 0 {
        assert(inner =~= seq![']'] + rest);
        assert(inner[0] == ']');
        assert(inner.skip(1) =~= rest);
        assert(Seq::<int>::empty() =~= s);
    } else {
        lemma_ser_i64_len(s[0]);
        assert(list_body(s)[0] == ser_i64(s[0])[0]);
        assert(inner[0] == list_body(s)[0]);
        lemma_dec_digits_first_of_ser(s[0]);
        assert(inner[0] != ']');
        lemma_list_body_len(s);
        assert(inner.len() as int >= s.len() + 1);
        lemma_p_list_items_rt(s, seq![']'] + rest, inner.len() as int);
        assert(inner =~= list_body(s) + (seq![']'] + rest));
        assert((seq![']'] + rest)[0] == ']');
        lemma_p_lit_rt(("]")@, rest);
        assert(("]")@ =~= seq![']']);
        assert(seq![']'] + rest =~= ("]")@ + rest);
    }
}

/// A serialised number starts with a minus sign or a digit, never `]`.
proof fn lemma_dec_digits_first_of_ser(v: int)
    ensures
        ser_i64(v)[0] == '-' || is_digit_c(ser_i64(v)[0]),
        ser_i64(v)[0] != ']',
        ser_i64(v)[0] != ',',
        ser_i64(v)[0] != '}',
{
    if v < 0 {
        assert(ser_i64(v)[0] == '-');
    } else {
        lemma_dec_digits_first(v);
    }
}

/// A serialised trade with `rest` appended, right-nested for parsing.
spec fn ser_trade_r(t: TradeV, rest: Seq<char>) -> Seq<char> {
    ("{\"entry_timestamp\":")@ + (ser_i64(t.entry_timestamp) + ((",\"exit_timestamp\":")@ + (
    ser_i64(t.exit_timestamp) + ((",\"entry_price\":")@ + (ser_i64(t.entry_price) + ((
    ",\"exit_price\":")@ + (ser_i64(t.exit_price) + ((",\"position_size\":")@ + (ser_i64(
        t.position_size,
    ) + ((",\"pnl\":")@ + (ser_i64(t.pnl) + ((",\"pnl_pct\":")@ + (ser_i64(t.pnl_pct) + ((
    ",\"duration_bars\":")@ + (dec_digits(t.duration_bars) + ((",\"is_win\":")@ + (ser_bool(
        t.is_win,
    ) + (("}")@ + rest))))))))))))))))))
}

/// Appending to a serialised trade re-associates into parsing order.
#[verifier::rlimit(100)]
proof fn lemma_ser_trade_unfold(t: TradeV, rest: Seq<char>)
    ensures
        ser_trade(t) + rest == ser_trade_r(t, rest),
{
    let l1 = ("{\"entry_timestamp\":")@;
    let l2 = l1 + ser_i64(t.entry_timestamp);
    let l3 = l2 + (",\"exit_timestamp\":")@;
    let l4 = l3 + ser_i64(t.exit_timestamp);
    let l5 = l4 + (",\"entry_price\":")@;
    let l6 = l5 + ser_i64(t.entry_price);
    let l7 = l6 + (",\"exit_price\":")@;
    let l8 = l7 + ser_i64(t.exit_price);
    let l9 = l8 + (",\"position_size\":")@;
    let l10 = l9 + ser_i64(t.position_size);
    let l11 = l10 + (",\"pnl\":")@;
    let l12 = l11 + ser_i64(t.pnl);
    let l13 = l12 + (",\"pnl_pct\":")@;
    let l14 = l13 + ser_i64(t.pnl_pct);
    let l15 = l14 + (",\"duration_bars\":")@;
    let l16 = l15 + dec_digits(t.duration_bars);
    let l17 = l16 + (",\"is_win\":")@;
    let l18 = l17 + ser_bool(t.is_win);
    let l19 = l18 + ("}")@;
    assert(ser_trade(t) == l19);
    let r20 = rest;
    let r19 = ("}")@ + r20;
    let r18 = ser_bool(t.is_win) + r19;
    let r17 = (",\"is_win\":")@ + r18;
    let r16 = dec_digits(t.duration_bars) + r17;
    let r15 = (",\"duration_bars\":")@ + r16;
    let r14 = ser_i64(t.pnl_pct) + r15;
    let r13 = (",\"pnl_pct\":")@ + r14;
    let r12 = ser_i64(t.pnl) + r13;
    let r11 = (",\"pnl\":")@ + r12;
    let r10 = ser_i64(t.position_size) + r11;
    let r9 = (",\"position_size\":")@ + r10;
    let r8 = ser_i64(t.exit_price) + r9;
    let r7 = (",\"exit_price\":")@ + r8;
    let r6 = ser_i64(t.entry_price) + r7;
    let r5 = (",\"entry_price\":")@ + r6;
    let r4 = ser_i64(t.exit_timestamp) + r5;
    let r3 = (",\"exit_timestamp\":")@ + r4;
    let r2 = ser_i64(t.entry_timestamp) + r3;
    let r1 = ("{\"entry_timestamp\":")@ + r2;
    assert(l19 + r20 == l18 + r19) by {
        lemma_seq_assoc(l18, ("}")@, r20);
    }
    assert(l18 + r19 == l17 + r18) by {
        lemma_seq_assoc(l17, ser_bool(t.is_win), r19);
    }
    assert(l17 + r18 == l16 + r17) by {
        lemma_seq_assoc(l16, (",\"is_win\":")@, r18);
    }
    assert(l16 + r17 == l15 + r16) by {
        lemma_seq_assoc(l15, dec_digits(t.duration_bars), r17);
    }
    assert(l15 + r16 == l14 + r15) by {
        lemma_seq_assoc(l14, (",\"duration_bars\":")@, r16);
    }
    assert(l14 + r15 == l13 + r14) by {
        lemma_seq_assoc(l13, ser_i64(t.pnl_pct), r15);
    }
    assert(l13 + r14 == l12 + r13) by {
        lemma_seq_assoc(l12, (",\"pnl_pct\":")@, r14);
    }
    assert(l12 + r13 == l11 + r12) by {
        lemma_seq_assoc(l11, ser_i64(t.pnl), r13);
    }
    assert(l11 + r12 == l10 + r11) by {
        lemma_seq_assoc(l10, (",\"pnl\":")@, r12);
    }
    assert(l10 + r11 == l9 + r10) by {
        lemma_seq_assoc(l9, ser_i64(t.position_size), r11);
    }
    assert(l9 + r10 == l8 + r9) by {
        lemma_seq_assoc(l8, (",\"position_size\":")@, r10);
    }
    assert(l8 + r9 == l7 + r8) by {
        lemma_seq_assoc(l7, ser_i64(t.exit_price), r9);
    }
    assert(l7 + r8 == l6 + r7) by {
        lemma_seq_assoc(l6, (",\"exit_price\":")@, r8);
    }
    assert(l6 + r7 == l5 + r6) by {
        lemma_seq_assoc(l5, ser_i64(t.entry_price), r7);
    }
    assert(l5 + r6 == l4 + r5) by {
        lemma_seq_assoc(l4, (",\"entry_price\":")@, r6);
    }
    assert(l4 + r5 == l3 + r4) by {
        lemma_seq_assoc(l3, ser_i64(t.exit_timestamp), r5);
    }
    assert(l3 + r4 == l2 + r3) by {
        lemma_seq_assoc(l2, (",\"exit_timestamp\":")@, r4);
    }
    assert(l2 + r3 == l1 + r2) by {
        lemma_seq_assoc(l1, ser_i64(t.entry_timestamp), r3);
    }
    assert(l1 + r2 == r1);
    assert(r1 == ser_trade_r(t, rest));
}

/// A serialised trade object round-trips; nothing after its closing
/// brace is examined.
#[verifier::rlimit(100)]
proof fn lemma_p_trade_rt(t: TradeV, rest: Seq<char>)
    requires
        trade_bounded(t),
    ensures
        p_trade(ser_trade(t) + rest) == Some((t, rest)),
{
    reveal_strlit("{\"entry_timestamp\":");
    reveal_strlit(",\"exit_timestamp\":");
    reveal_strlit(",\"entry_price\":");
    reveal_strlit(",\"exit_price\":");
    reveal_strlit(",\"position_size\":");
    reveal_strlit(",\"pnl\":");
    reveal_strlit(",\"pnl_pct\":");
    reveal_strlit(",\"duration_bars\":");
    reveal_strlit(",\"is_win\":");
    reveal_strlit("}");
    let s9 = ("}")@ + rest;
    let s8 = (",\"is_win\":")@ + (ser_bool(t.is_win) + s9);
    let s7 = (",\"duration_bars\":")@ + (dec_digits(t.duration_bars) + s8);
    let s6 = (",\"pnl_pct\":")@ + (ser_i64(t.pnl_pct) + s7);
    let s5 = (",\"pnl\":")@ + (ser_i64(t.pnl) + s6);
    let s4 = (",\"position_size\":")@ + (ser_i64(t.position_size) + s5);
    let s3 = (",\"exit_price\":")@ + (ser_i64(t.exit_price) + s4);
    let s2 = (",\"entry_price\":")@ + (ser_i64(t.entry_price) + s3);
    let s1 = (",\"exit_timestamp\":")@ + (ser_i64(t.exit_timestamp) + s2);
    lemma_ser_trade_unfold(t, rest);
    assert(ser_trade(t) + rest == ("{\"entry_timestamp\":")@ + (ser_i64(t.entry_timestamp) + s1));
    assert(s1[0] == ',' && s2[0] == ',' && s3[0] == ',' && s4[0] == ',' && s5[0] == ',' && s6[0]
        == ',' && s7[0] == ',' && s8[0] == ',');
    lemma_p_i64_field_rt(("{\"entry_timestamp\":")@, t.entry_timestamp, s1);
    lemma_p_i64_field_rt((",\"exit_timestamp\":")@, t.exit_timestamp, s2);
    lemma_p_i64_field_rt((",\"entry_price\":")@, t.entry_price, s3);
    lemma_p_i64_field_rt((",\"exit_price\":")@, t.exit_price, s4);
    lemma_p_i64_field_rt((",\"position_size\":")@, t.position_size, s5);
    lemma_p_i64_field_rt((",\"pnl\":")@, t.pnl, s6);
    lemma_p_i64_field_rt((",\"pnl_pct\":")@, t.pnl_pct, s7);
    lemma_p_nat_field_rt((",\"duration_bars\":")@, t.duration_bars, usize::MAX as int, s8);
    lemma_p_lit_rt((",\"is_win\":")@, ser_bool(t.is_win) + s9);
    lemma_p_bool_rt(t.is_win, s9);
    lemma_p_lit_rt(("}")@, rest);
}

/// A serialised trade starts with an opening brace.
proof fn lemma_ser_trade_first(t: TradeV)
    ensures
        ser_trade(t).len() >= 1,
        ser_trade(t)[0] == '{',
{
    reveal_strlit("{\"entry_timestamp\":");
    assert(ser_trade(t)[0] == ("{\"entry_timestamp\":")@[0]);
}

/// The body of a non-empty trade list is at least one character per
/// element.
proof fn lemma_trades_body_len(s: Seq<TradeV>)
    requires
        s.len() >= 1,
    ensures
        trades_body(s).len() >= s.len(),
    decreases s.len(),
{
    lemma_ser_trade_first(s[0]);
    if s.len() > 1 {
        lemma_trades_body_len(s.drop_first());
    }
}

/// The items of a non-empty trade list round-trip.
#[verifier::rlimit(100)]
proof fn lemma_p_trades_items_rt(s: Seq<TradeV>, rest: Seq<char>, fuel: int)
    requires
        s.len() >= 1,
        fuel >= s.len(),
        forall|i: int| 0 <= i < s.len() ==> trade_bounded(#[trigger] s[i]),
        rest.len() >= 1,
        rest[0] == ']',
    ensures
        p_trades_items(trades_body(s) + rest, fuel) == Some((s, rest)),
    decreases s.len(),
{
    if s.len() == 1 {
        assert(trades_body(s) + rest =~= ser_trade(s[0]) + rest);
        lemma_p_trade_rt(s[0], rest);
        assert(seq![s[0]] =~= s);
    } else {
        let df = s.drop_first();
        let tail = seq![','] + (trades_body(df) + rest);
        assert(trades_body(s) + rest =~= ser_trade(s[0]) + tail);
        lemma_p_trade_rt(s[0], tail);
        assert(tail[0] == ',');
        assert(tail.skip(1) =~= trades_body(df) + rest);
        lemma_p_trades_items_rt(df, rest, fuel - 1);
        assert(seq![s[0]] + df =~= s);
    }
}

/// A serialised trade list round-trips.
proof fn lemma_p_trades_rt(s: Seq<TradeV>, rest: Seq<char>)
    requires
        forall|i: int| 0 <= i < s.len() ==> trade_bounded(#[trigger] s[i]),
    ensures
        p_trades(ser_trades(s) + rest) == Some((s, rest)),
{
    reveal_strlit("[");
    reveal_strlit("]");
    let inner = trades_body(s) + (seq![']'] + rest);
    assert(ser_trades(s) + rest =~= seq!['['] + inner);
    assert(("[")@ =~= seq!['[']);
    lemma_p_lit_rt(("[")@, inner);
    if s.len() == 0 {
        assert(inner =~= seq![']'] + rest);
        assert(inner[0] == ']');
        assert(inner.skip(1) =~= rest);
        assert(Seq::<TradeV>::empty() =~= s);
    } else {
        lemma_ser_trade_first(s[0]);
        assert(trades_body(s)[0] == ser_trade(s[0])[0]);
        assert(inner[0] == '{');
        lemma_trades_body_len(s);
        assert(inner.len() as int >= s.len() + 1);
        lemma_p_trades_items_rt(s, seq![']'] + rest, inner.len() as int);
        assert((seq![']'] + rest)[0] == ']');
        lemma_p_lit_rt(("]")@, rest);
        assert(("]")@ =~= seq![']']);
        assert(seq![']'] + rest =~= ("]")@ + rest);
    }
}

/// The suffix of a serialised statistics object from its seventh field.
spec fn stats_tail(st: TradeStatsV, rest: Seq<char>) -> Seq<char> {
    (",\"avg_loss\":")@ + (ser_i64(st.avg_loss) + ((",\"largest_win\":")@ + (ser_i64(
        st.largest_win,
    ) + ((",\"largest_loss\":")@ + (ser_i64(st.largest_loss) + ((",\"avg_trade\":")@ + (ser_i64(
        st.avg_trade,
    ) + ((",\"expectancy\":")@ + (ser_i64(st.expectancy) + ((",\"longest_win_streak\":")@ + (
    dec_digits(st.longest_win_streak) + ((",\"longest_loss_streak\":")@ + (dec_digits(
        st.longest_loss_streak,
    ) + (("}")@ + rest))))))))))))))
}

/// A serialised statistics object with `rest` appended, right-nested.
spec fn ser_stats_r(st: TradeStatsV, rest: Seq<char>) -> Seq<char> {
    ("{\"total_trades\":")@ + (dec_digits(st.total_trades) + ((",\"winning_trades\":")@ + (
    dec_digits(st.winning_trades) + ((",\"losing_trades\":")@ + (dec_digits(st.losing_trades) + ((
    ",\"win_rate\":")@ + (ser_i64(st.win_rate) + ((",\"profit_factor\":")@ + (ser_i64(
        st.profit_factor,
    ) + ((",\"avg_win\":")@ + (ser_i64(st.avg_win) + stats_tail(st, rest))))))))))))
}

/// Appending to serialised statistics re-associates into parsing order.
#[verifier::rlimit(100)]
proof fn lemma_ser_stats_unfold(st: TradeStatsV, rest: Seq<char>)
    ensures
        ser_stats(st) + rest == ser_stats_r(st, rest),
{
    let l1 = ("{\"total_trades\":")@;
    let l2 = l1 + dec_digits(st.total_trades);
    let l3 = l2 + (",\"winning_trades\":")@;
    let l4 = l3 + dec_digits(st.winning_trades);
    let l5 = l4 + (",\"losing_trades\":")@;
    let l6 = l5 + dec_digits(st.losing_trades);
    let l7 = l6 + (",\"win_rate\":")@;
    let l8 = l7 + ser_i64(st.win_rate);
    let l9 = l8 + (",\"profit_factor\":")@;
    let l10 = l9 + ser_i64(st.profit_factor);
    let l11 = l10 + (",\"avg_win\":")@;
    let l12 = l11 + ser_i64(st.avg_win);
    let l13 = l12 + (",\"avg_loss\":")@;
    let l14 = l13 + ser_i64(st.avg_loss);
    let l15 = l14 + (",\"largest_win\":")@;
    let l16 = l15 + ser_i64(st.largest_win);
    let l17 = l16 + (",\"largest_loss\":")@;
    let l18 = l17 + ser_i64(st.largest_loss);
    let l19 = l18 + (",\"avg_trade\":")@;
    let l20 = l19 + ser_i64(st.avg_trade);
    let l21 = l20 + (",\"expectancy\":")@;
    let l22 = l21 + ser_i64(st.expectancy);
    let l23 = l22 + (",\"longest_win_streak\":")@;
    let l24 = l23 + dec_digits(st.longest_win_streak);
    let l25 = l24 + (",\"longest_loss_streak\":")@;
    let l26 = l25 + dec_digits(st.longest_loss_streak);
    let l27 = l26 + ("}")@;
    assert(ser_stats(st) == l27);
    let r28 = rest;
    let r27 = ("}")@ + r28;
    let r26 = dec_digits(st.longest_loss_streak) + r27;
    let r25 = (",\"longest_loss_streak\":")@ + r26;
    let r24 = dec_digits(st.longest_win_streak) + r25;
    let r23 = (",\"longest_win_streak\":")@ + r24;
    let r22 = ser_i64(st.expectancy) + r23;
    let r21 = (",\"expectancy\":")@ + r22;
    let r20 = ser_i64(st.avg_trade) + r21;
    let r19 = (",\"avg_trade\":")@ + r20;
    let r18 = ser_i64(st.largest_loss) + r19;
    let r17 = (",\"largest_loss\":")@ + r18;
    let r16 = ser_i64(st.largest_win) + r17;
    let r15 = (",\"largest_win\":")@ + r16;
    let r14 = ser_i64(st.avg_loss) + r15;
    let r13 = (",\"avg_loss\":")@ + r14;
    let r12 = ser_i64(st.avg_win) + r13;
    let r11 = (",\"avg_win\":")@ + r12;
    let r10 = ser_i64(st.profit_factor) + r11;
    let r9 = (",\"profit_factor\":")@ + r10;
    let r8 = ser_i64(st.win_rate) + r9;
    let r7 = (",\"win_rate\":")@ + r8;
    let r6 = dec_digits(st.losing_trades) + r7;
    let r5 = (",\"losing_trades\":")@ + r6;
    let r4 = dec_digits(st.winning_trades) + r5;
    let r3 = (",\"winning_trades\":")@ + r4;
    let r2 = dec_digits(st.total_trades) + r3;
    let r1 = ("{\"total_trades\":")@ + r2;
    assert(l27 + r28 == l26 + r27) by {
        lemma_seq_assoc(l26, ("}")@, r28);
    }
    assert(l26 + r27 == l25 + r26) by {
        lemma_seq_assoc(l25, dec_digits(st.longest_loss_streak), r27);
    }
    assert(l25 + r26 == l24 + r25) by {
        lemma_seq_assoc(l24, (",\"longest_loss_streak\":")@, r26);
    }
    assert(l24 + r25 == l23 + r24) by {
        lemma_seq_assoc(l23, dec_digits(st.longest_win_streak), r25);
    }
    assert(l23 + r24 == l22 + r23) by {
        lemma_seq_assoc(l22, (",\"longest_win_streak\":")@, r24);
    }
    assert(l22 + r23 == l21 + r22) by {
        lemma_seq_assoc(l21, ser_i64(st.expectancy), r23);
    }
    assert(l21 + r22 == l20 + r21) by {
        lemma_seq_assoc(l20, (",\"expectancy\":")@, r22);
    }
    assert(l20 + r21 == l19 + r20) by {
        lemma_seq_assoc(l19, ser_i64(st.avg_trade), r21);
    }
    assert(l19 + r20 == l18 + r19) by {
        lemma_seq_assoc(l18, (",\"avg_trade\":")@, r20);
    }
    assert(l18 + r19 == l17 + r18) by {
        lemma_seq_assoc(l17, ser_i64(st.largest_loss), r19);
    }
    assert(l17 + r18 == l16 + r17) by {
        lemma_seq_assoc(l16, (",\"largest_loss\":")@, r18);
    }
    assert(l16 + r17 == l15 + r16) by {
        lemma_seq_assoc(l15, ser_i64(st.largest_win), r17);
    }
    assert(l15 + r16 == l14 + r15) by {
        lemma_seq_assoc(l14, (",\"largest_win\":")@, r16);
    }
    assert(l14 + r15 == l13 + r14) by {
        lemma_seq_assoc(l13, ser_i64(st.avg_loss), r15);
    }
    assert(l13 + r14 == l12 + r13) by {
        lemma_seq_assoc(l12, (",\"avg_loss\":")@, r14);
    }
    assert(l12 + r13 == l11 + r12) by {
        lemma_seq_assoc(l11, ser_i64(st.avg_win), r13);
    }
    assert(l11 + r12 == l10 + r11) by {
        lemma_seq_assoc(l10, (",\"avg_win\":")@, r12);
    }
    assert(l10 + r11 == l9 + r10) by {
        lemma_seq_assoc(l9, ser_i64(st.profit_factor), r11);
    }
    assert(l9 + r10 == l8 + r9) by {
        lemma_seq_assoc(l8, (",\"profit_factor\":")@, r10);
    }
    assert(l8 + r9 == l7 + r8) by {
        lemma_seq_assoc(l7, ser_i64(st.win_rate), r9);
    }
    assert(l7 + r8 == l6 + r7) by {
        lemma_seq_assoc(l6, (",\"win_rate\":")@, r8);
    }
    assert(l6 + r7 == l5 + r6) by {
        lemma_seq_assoc(l5, dec_digits(st.losing_trades), r7);
    }
    assert(l5 + r6 == l4 + r5) by {
        lemma_seq_assoc(l4, (",\"losing_trades\":")@, r6);
    }
    assert(l4 + r5 == l3 + r4) by {
        lemma_seq_assoc(l3, dec_digits(st.winning_trades), r5);
    }
    assert(l3 + r4 == l2 + r3) by {
        lemma_seq_assoc(l2, (",\"winning_trades\":")@, r4);
    }
    assert(l2 + r3 == l1 + r2) by {
        lemma_seq_assoc(l1, dec_digits(st.total_trades), r3);
    }
    assert(l1 + r2 == r1);
    assert(r1 == ser_stats_r(st, rest));
}

/// The first six statistics fields round-trip.
#[verifier::rlimit(100)]
proof fn lemma_p_stats_a_rt(st: TradeStatsV, rest: Seq<char>)
    requires
        stats_bounded(st),
    ensures
        p_stats_a(ser_stats(st) + rest) == Some(
            ((
                st.total_trades,
                st.winning_trades,
                st.losing_trades,
                st.win_rate,
                st.profit_factor,
                st.avg_win,
            ), stats_tail(st, rest)),
        ),
{
    reveal_strlit("{\"total_trades\":");
    reveal_strlit(",\"winning_trades\":");
    reveal_strlit(",\"losing_trades\":");
    reveal_strlit(",\"win_rate\":");
    reveal_strlit(",\"profit_factor\":");
    reveal_strlit(",\"avg_win\":");
    reveal_strlit(",\"avg_loss\":");
    let s6 = stats_tail(st, rest);
    let s5 = (",\"avg_win\":")@ + (ser_i64(st.avg_win) + s6);
    let s4 = (",\"profit_factor\":")@ + (ser_i64(st.profit_factor) + s5);
    let s3 = (",\"win_rate\":")@ + (ser_i64(st.win_rate) + s4);
    let s2 = (",\"losing_trades\":")@ + (dec_digits(st.losing_trades) + s3);
    let s1 = (",\"winning_trades\":")@ + (dec_digits(st.winning_trades) + s2);
    lemma_ser_stats_unfold(st, rest);
    assert(ser_stats(st) + rest == ("{\"total_trades\":")@ + (dec_digits(st.total_trades) + s1));
    assert(s1[0] == ',' && s2[0] == ',' && s3[0] == ',' && s4[0] == ',' && s5[0] == ',' && s6[0]
        == ',');
    lemma_p_nat_field_rt(("{\"total_trades\":")@, st.total_trades, usize::MAX as int, s1);
    lemma_p_nat_field_rt((",\"winning_trades\":")@, st.winning_trades, usize::MAX as int, s2);
    lemma_p_nat_field_rt((",\"losing_trades\":")@, st.losing_trades, usize::MAX as int, s3);
    lemma_p_i64_field_rt((",\"win_rate\":")@, st.win_rate, s4);
    lemma_p_i64_field_rt((",\"profit_factor\":")@, st.profit_factor, s5);
    lemma_p_i64_field_rt((",\"avg_win\":")@, st.avg_win, s6);
}

/// The remaining statistics fields round-trip.
#[verifier::rlimit(100)]
proof fn lemma_p_stats_b_rt(st: TradeStatsV, rest: Seq<char>)
    requires
        stats_bounded(st),
    ensures
        p_stats_b(stats_tail(st, rest)) == Some(
            ((
                st.avg_loss,
                st.largest_win,
                st.largest_loss,
                st.avg_trade,
                st.expectancy,
                st.longest_win_streak,
                st.longest_loss_streak,
            ), rest),
        ),
{
    reveal_strlit(",\"avg_loss\":");
    reveal_strlit(",\"largest_win\":");
    reveal_strlit(",\"largest_loss\":");
    reveal_strlit(",\"avg_trade\":");
    reveal_strlit(",\"expectancy\":");
    reveal_strlit(",\"longest_win_streak\":");
    reveal_strlit(",\"longest_loss_streak\":");
    reveal_strlit("}");
    let s13 = ("}")@ + rest;
    let s12 = (",\"longest_loss_streak\":")@ + (dec_digits(st.longest_loss_streak) + s13);
    let s11 = (",\"longest_win_streak\":")@ + (dec_digits(st.longest_win_streak) + s12);
    let s10 = (",\"expectancy\":")@ + (ser_i64(st.expectancy) + s11);
    let s9 = (",\"avg_trade\":")@ + (ser_i64(st.avg_trade) + s10);
    let s8 = (",\"largest_loss\":")@ + (ser_i64(st.largest_loss) + s9);
    let s7 = (",\"largest_win\":")@ + (ser_i64(st.largest_win) + s8);
    assert(stats_tail(st, rest) == (",\"avg_loss\":")@ + (ser_i64(st.avg_loss) + s7));
    assert(s7[0] == ',' && s8[0] == ',' && s9[0] == ',' && s10[0] == ',' && s11[0] == ',' && s12[0]
        == ',' && s13[0] == '}');
    lemma_p_i64_field_rt((",\"avg_loss\":")@, st.avg_loss, s7);
    lemma_p_i64_field_rt((",\"largest_win\":")@, st.largest_win, s8);
    lemma_p_i64_field_rt((",\"largest_loss\":")@, st.largest_loss, s9);
    lemma_p_i64_field_rt((",\"avg_trade\":")@, st.avg_trade, s10);
    lemma_p_i64_field_rt((",\"expectancy\":")@, st.expectancy, s11);
    lemma_p_nat_field_rt((",\"longest_win_streak\":")@, st.longest_win_streak, usize::MAX as int, s12);
    lemma_p_nat_field_rt(
        (",\"longest_loss_streak\":")@,
        st.longest_loss_streak,
        usize::MAX as int,
        s13,
    );
    lemma_p_lit_rt(("}")@, rest);
}

/// A serialised statistics object round-trips.
proof fn lemma_p_stats_rt(st: TradeStatsV, rest: Seq<char>)
    requires
        stats_bounded(st),
    ensures
        p_stats(ser_stats(st) + rest) == Some((st, rest)),
{
    lemma_p_stats_a_rt(st, rest);
    lemma_p_stats_b_rt(st, rest);
}

/// The trades key never matches where no trades were written.
proof fn lemma_trades_key_mismatch(s: Seq<char>)
    requires
        s.len() >= 1,
        s[0] == ',' ==> s.len() >= 8 && s[7] == '_',
        s[0] != ',' ==> s[0] == '}',
    ensures
        p_lit(s, (",\"trades\":")@) is None,
{
    reveal_strlit(",\"trades\":");
    let lit = (",\"trades\":")@;
    if lit.len() <= s.len() && s.take(lit.len() as int) == lit {
        assert(s.take(lit.len() as int)[0] == s[0]);
        assert(s.take(lit.len() as int)[7] == s[7]);
        assert(lit[7] == 's');
    }
}

/// The stats key never matches where no statistics were written.
proof fn lemma_stats_key_mismatch(s: Seq<char>)
    requires
        s.len() >= 1,
        s[0] == '}',
    ensures
        p_lit(s, (",\"trade_stats\":")@) is None,
{
    reveal_strlit(",\"trade_stats\":");
    let lit = (",\"trade_stats\":")@;
    if lit.len() <= s.len() && s.take(lit.len() as int) == lit {
        assert(s.take(lit.len() as int)[0] == s[0]);
    }
}

/// Whatever a serialised result carries after its ninth field.
spec fn result_tail_trades(r: BacktestResultV, rest: Seq<char>) -> Seq<char> {
    match r.trades {
        Some(ts) => (",\"trades\":")@ + (ser_trades(ts) + result_tail_stats(r, rest)),
        None => result_tail_stats(r, rest),
    }
}

/// Whatever a serialised result carries after its optional trade list.
spec fn result_tail_stats(r: BacktestResultV, rest: Seq<char>) -> Seq<char> {
    match r.trade_stats {
        Some(st) => (",\"trade_stats\":")@ + (ser_stats(st) + (("}")@ + rest)),
        None => ("}")@ + rest,
    }
}

/// A serialised result with `rest` appended, right-nested.
spec fn ser_result_r(r: BacktestResultV, rest: Seq<char>) -> Seq<char> {
    ("{\"initial_capital\":")@ + (ser_i64(r.initial_capital) + ((",\"final_equity\":")@ + (
    ser_i64(r.final_equity) + ((",\"total_return\":")@ + (ser_i64(r.total_return) + ((
    ",\"equity_curve\":")@ + (ser_list(r.equity_curve) + ((",\"total_trades\":")@ + (dec_digits(
        r.total_trades,
    ) + ((",\"sharpe_ratio\":")@ + (ser_i64(r.sharpe_ratio) + ((",\"sortino_ratio\":")@ + (
    ser_i64(r.sortino_ratio) + ((",\"calmar_ratio\":")@ + (ser_i64(r.calmar_ratio) + ((
    ",\"max_drawdown\":")@ + (ser_i64(r.max_drawdown) + result_tail_trades(r, rest))))))))))))))))))
}

/// A serialised result with `rest` appended, nested for parsing down to
/// its optional segments.
spec fn ser_result_r2(r: BacktestResultV, rest: Seq<char>) -> Seq<char> {
    ("{\"initial_capital\":")@ + (ser_i64(r.initial_capital) + ((",\"final_equity\":")@ + (
    ser_i64(r.final_equity) + ((",\"total_return\":")@ + (ser_i64(r.total_return) + ((
    ",\"equity_curve\":")@ + (ser_list(r.equity_curve) + ((",\"total_trades\":")@ + (dec_digits(
        r.total_trades,
    ) + ((",\"sharpe_ratio\":")@ + (ser_i64(r.sharpe_ratio) + ((",\"sortino_ratio\":")@ + (
    ser_i64(r.sortino_ratio) + ((",\"calmar_ratio\":")@ + (ser_i64(r.calmar_ratio) + ((
    ",\"max_drawdown\":")@ + (ser_i64(r.max_drawdown) + ((match r.trades {
        Some(ts) => (",\"trades\":")@ + ser_trades(ts),
        None => Seq::<char>::empty(),
    }) + ((match r.trade_stats {
        Some(st) => (",\"trade_stats\":")@ + ser_stats(st),
        None => Seq::<char>::empty(),
    }) + (("}")@ + rest))))))))))))))))))))
}

/// Appending to a serialised result re-associates into parsing order.
#[verifier::rlimit(100)]
proof fn lemma_ser_result_unfold(r: BacktestResultV, rest: Seq<char>)
    ensures
        ser_result(r) + rest == ser_result_r(r, rest),
{
    let seg_trades = (match r.trades {
        Some(ts) => (",\"trades\":")@ + ser_trades(ts),
        None => Seq::<char>::empty(),
    });
    let seg_stats = (match r.trade_stats {
        Some(st) => (",\"trade_stats\":")@ + ser_stats(st),
        None => Seq::<char>::empty(),
    });
    let l1 = ("{\"initial_capital\":")@;
    let l2 = l1 + ser_i64(r.initial_capital);
    let l3 = l2 + (",\"final_equity\":")@;
    let l4 = l3 + ser_i64(r.final_equity);
    let l5 = l4 + (",\"total_return\":")@;
    let l6 = l5 + ser_i64(r.total_return);
    let l7 = l6 + (",\"equity_curve\":")@;
    let l8 = l7 + ser_list(r.equity_curve);
    let l9 = l8 + (",\"total_trades\":")@;
    let l10 = l9 + dec_digits(r.total_trades);
    let l11 = l10 + (",\"sharpe_ratio\":")@;
    let l12 = l11 + ser_i64(r.sharpe_ratio);
    let l13 = l12 + (",\"sortino_ratio\":")@;
    let l14 = l13 + ser_i64(r.sortino_ratio);
    let l15 = l14 + (",\"calmar_ratio\":")@;
    let l16 = l15 + ser_i64(r.calmar_ratio);
    let l17 = l16 + (",\"max_drawdown\":")@;
    let l18 = l17 + ser_i64(r.max_drawdown);
    let l19 = l18 + seg_trades;
    let l20 = l19 + seg_stats;
    let l21 = l20 + ("}")@;
    assert(ser_result(r) == l21);
    let r22 = rest;
    let r21 = ("}")@ + r22;
    let r20 = seg_stats + r21;
    let r19 = seg_trades + r20;
    let r18 = ser_i64(r.max_drawdown) + r19;
    let r17 = (",\"max_drawdown\":")@ + r18;
    let r16 = ser_i64(r.calmar_ratio) + r17;
    let r15 = (",\"calmar_ratio\":")@ + r16;
    let r14 = ser_i64(r.sortino_ratio) + r15;
    let r13 = (",\"sortino_ratio\":")@ + r14;
    let r12 = ser_i64(r.sharpe_ratio) + r13;
    let r11 = (",\"sharpe_ratio\":")@ + r12;
    let r10 = dec_digits(r.total_trades) + r11;
    let r9 = (",\"total_trades\":")@ + r10;
    let r8 = ser_list(r.equity_curve) + r9;
    let r7 = (",\"equity_curve\":")@ + r8;
    let r6 = ser_i64(r.total_return) + r7;
    let r5 = (",\"total_return\":")@ + r6;
    let r4 = ser_i64(r.final_equity) + r5;
    let r3 = (",\"final_equity\":")@ + r4;
    let r2 = ser_i64(r.initial_capital) + r3;
    let r1 = ("{\"initial_capital\":")@ + r2;
    assert(l21 + r22 == l20 + r21) by {
        lemma_seq_assoc(l20, ("}")@, r22);
    }
    assert(l20 + r21 == l19 + r20) by {
        lemma_seq_assoc(l19, seg_stats, r21);
    }
    assert(l19 + r20 == l18 + r19) by {
        lemma_seq_assoc(l18, seg_trades, r20);
    }
    assert(l18 + r19 == l17 + r18) by {
        lemma_seq_assoc(l17, ser_i64(r.max_drawdown), r19);
    }
    assert(l17 + r18 == l16 + r17) by {
        lemma_seq_assoc(l16, (",\"max_drawdown\":")@, r18);
    }
    assert(l16 + r17 == l15 + r16) by {
        lemma_seq_assoc(l15, ser_i64(r.calmar_ratio), r17);
    }
    assert(l15 + r16 == l14 + r15) by {
        lemma_seq_assoc(l14, (",\"calmar_ratio\":")@, r16);
    }
    assert(l14 + r15 == l13 + r14) by {
        lemma_seq_assoc(l13, ser_i64(r.sortino_ratio), r15);
    }
    assert(l13 + r14 == l12 + r13) by {
        lemma_seq_assoc(l12, (",\"sortino_ratio\":")@, r14);
    }
    assert(l12 + r13 == l11 + r12) by {
        lemma_seq_assoc(l11, ser_i64(r.sharpe_ratio), r13);
    }
    assert(l11 + r12 == l10 + r11) by {
        lemma_seq_assoc(l10, (",\"sharpe_ratio\":")@, r12);
    }
    assert(l10 + r11 == l9 + r10) by {
        lemma_seq_assoc(l9, dec_digits(r.total_trades), r11);
    }
    assert(l9 + r10 == l8 + r9) by {
        lemma_seq_assoc(l8, (",\"total_trades\":")@, r10);
    }
    assert(l8 + r9 == l7 + r8) by {
        lemma_seq_assoc(l7, ser_list(r.equity_curve), r9);
    }
    assert(l7 + r8 == l6 + r7) by {
        lemma_seq_assoc(l6, (",\"equity_curve\":")@, r8);
    }
    assert(l6 + r7 == l5 + r6) by {
        lemma_seq_assoc(l5, ser_i64(r.total_return), r7);
    }
    assert(l5 + r6 == l4 + r5) by {
        lemma_seq_assoc(l4, (",\"total_return\":")@, r6);
    }
    assert(l4 + r5 == l3 + r4) by {
        lemma_seq_assoc(l3, ser_i64(r.final_equity), r5);
    }
    assert(l3 + r4 == l2 + r3) by {
        lemma_seq_assoc(l2, (",\"final_equity\":")@, r4);
    }
    assert(l2 + r3 == l1 + r2) by {
        lemma_seq_assoc(l1, ser_i64(r.initial_capital), r3);
    }
    assert(l1 + r2 == r1);
    assert(r1 == ser_result_r2(r, rest));
    assert(ser_result_r2(r, rest) == ser_result_r(r, rest)) by {
        lemma_result_tails(r, rest);
    }
}

/// The optional segments re-associate into the tail forms.
#[verifier::rlimit(100)]
proof fn lemma_result_tails(r: BacktestResultV, rest: Seq<char>)
    ensures
        (match r.trades {
            Some(ts) => (",\"trades\":")@ + ser_trades(ts),
            None => Seq::<char>::empty(),
        }) + ((match r.trade_stats {
            Some(st) => (",\"trade_stats\":")@ + ser_stats(st),
            None => Seq::<char>::empty(),
        }) + (("}")@ + rest)) == result_tail_trades(r, rest),
{
    let tail_s = result_tail_stats(r, rest);
    match r.trade_stats {
        Some(st) => {
            lemma_seq_assoc((",\"trade_stats\":")@, ser_stats(st), ("}")@ + rest);
        },
        None => {
            assert(Seq::<char>::empty() + (("}")@ + rest) =~= ("}")@ + rest);
        },
    }
    match r.trades {
        Some(ts) => {
            lemma_seq_assoc((",\"trades\":")@, ser_trades(ts), tail_s);
        },
        None => {
            assert(Seq::<char>::empty() + tail_s =~= tail_s);
        },
    }
}

/// The nine leading fields of a serialised result round-trip.
#[verifier::rlimit(100)]
proof fn lemma_p_result_head_rt(r: BacktestResultV, rest: Seq<char>)
    requires
        result_bounded(r),
    ensures
        p_result_head(ser_result(r) + rest) == Some(
            ((
                r.initial_capital,
                r.final_equity,
                r.total_return,
                r.equity_curve,
                r.total_trades,
                r.sharpe_ratio,
                r.sortino_ratio,
                r.calmar_ratio,
                r.max_drawdown,
            ), result_tail_trades(r, rest)),
        ),
{
    reveal_strlit("{\"initial_capital\":");
    reveal_strlit(",\"final_equity\":");
    reveal_strlit(",\"total_return\":");
    reveal_strlit(",\"equity_curve\":");
    reveal_strlit(",\"total_trades\":");
    reveal_strlit(",\"sharpe_ratio\":");
    reveal_strlit(",\"sortino_ratio\":");
    reveal_strlit(",\"calmar_ratio\":");
    reveal_strlit(",\"max_drawdown\":");
    reveal_strlit(",\"trades\":");
    reveal_strlit(",\"trade_stats\":");
    reveal_strlit("}");
    let s9 = result_tail_trades(r, rest);
    let s8 = (",\"max_drawdown\":")@ + (ser_i64(r.max_drawdown) + s9);
    let s7 = (",\"calmar_ratio\":")@ + (ser_i64(r.calmar_ratio) + s8);
    let s6 = (",\"sortino_ratio\":")@ + (ser_i64(r.sortino_ratio) + s7);
    let s5 = (",\"sharpe_ratio\":")@ + (ser_i64(r.sharpe_ratio) + s6);
    let s4 = (",\"total_trades\":")@ + (dec_digits(r.total_trades) + s5);
    let s3 = (",\"equity_curve\":")@ + (ser_list(r.equity_curve) + s4);
    let s2 = (",\"total_return\":")@ + (ser_i64(r.total_return) + s3);
    let s1 = (",\"final_equity\":")@ + (ser_i64(r.final_equity) + s2);
    lemma_ser_result_unfold(r, rest);
    assert(ser_result(r) + rest == ("{\"initial_capital\":")@ + (ser_i64(r.initial_capital) + s1));
    assert(s1[0] == ',' && s2[0] == ',' && s3[0] == ',' && s4[0] == ',' && s5[0] == ',' && s6[0]
        == ',' && s7[0] == ',' && s8[0] == ',');
    assert(s9.len() >= 1 && (s9[0] == ',' || s9[0] == '}'));
    lemma_p_i64_field_rt(("{\"initial_capital\":")@, r.initial_capital, s1);
    lemma_p_i64_field_rt((",\"final_equity\":")@, r.final_equity, s2);
    lemma_p_i64_field_rt((",\"total_return\":")@, r.total_return, s3);
    lemma_p_lit_rt((",\"equity_curve\":")@, ser_list(r.equity_curve) + s4);
    lemma_p_list_rt(r.equity_curve, s4);
    lemma_p_nat_field_rt((",\"total_trades\":")@, r.total_trades, 0xffff_ffff_ffff_ffff, s5);
    lemma_p_i64_field_rt((",\"sharpe_ratio\":")@, r.sharpe_ratio, s6);
    lemma_p_i64_field_rt((",\"sortino_ratio\":")@, r.sortino_ratio, s7);
    lemma_p_i64_field_rt((",\"calmar_ratio\":")@, r.calmar_ratio, s8);
    lemma_p_i64_field_rt((",\"max_drawdown\":")@, r.max_drawdown, s9);
}

/// The optional trade list of a serialised result round-trips.
proof fn lemma_p_opt_trades_rt(r: BacktestResultV, rest: Seq<char>)
    requires
        result_bounded(r),
    ensures
        p_opt_trades(result_tail_trades(r, rest)) == Some(
            (r.trades, result_tail_stats(r, rest)),
        ),
{
    reveal_strlit(",\"trades\":");
    reveal_strlit(",\"trade_stats\":");
    reveal_strlit("}");
    match r.trades {
        Some(ts) => {
            lemma_p_lit_rt((",\"trades\":")@, ser_trades(ts) + result_tail_stats(r, rest));
            lemma_p_trades_rt(ts, result_tail_stats(r, rest));
        },
        None => {
            let s = result_tail_trades(r, rest);
            match r.trade_stats {
                Some(st) => {
                    assert(s[0] == ',');
                    assert(s[7] == '_') by {
                        assert(s[7] == (",\"trade_stats\":")@[7]);
                    }
                    lemma_trades_key_mismatch(s);
                },
                None => {
                    assert(s[0] == '}');
                    lemma_trades_key_mismatch(s);
                },
            }
        },
    }
}

/// The optional statistics of a serialised result round-trip.
proof fn lemma_p_opt_stats_rt(r: BacktestResultV, rest: Seq<char>)
    requires
        result_bounded(r),
    ensures
        p_opt_stats(result_tail_stats(r, rest)) == Some((r.trade_stats, ("}")@ + rest)),
{
    reveal_strlit(",\"trade_stats\":");
    reveal_strlit("}");
    match r.trade_stats {
        Some(st) => {
            lemma_p_lit_rt((",\"trade_stats\":")@, ser_stats(st) + (("}")@ + rest));
            lemma_p_stats_rt(st, ("}")@ + rest);
        },
        None => {
            let s = result_tail_stats(r, rest);
            assert(s[0] == '}');
            lemma_stats_key_mismatch(s);
        },
    }
}

/// A serialised backtest result round-trips: parsing the encoding of any
/// bounded result, followed by anything at all, yields exactly that
/// result and the remainder untouched.
pub proof fn lemma_p_result_rt(r: BacktestResultV, rest: Seq<char>)
    requires
        result_bounded(r),
    ensures
        p_result(ser_result(r) + rest) == Some((r, rest)),
{
    reveal_strlit("}");
    lemma_p_result_head_rt(r, rest);
    lemma_p_opt_trades_rt(r, rest);
    lemma_p_opt_stats_rt(r, rest);
    lemma_p_lit_rt(("}")@, rest);
}

/// The round trip on a complete document: parsing the serialised form of
/// any bounded result gives back exactly that result.
pub proof fn lemma_json_round_trip(r: BacktestResultV)
    requires
        result_bounded(r),
    ensures
        parse_result_full(ser_result(r)) == Some(r),
{
    lemma_p_result_rt(r, Seq::empty());
    assert(ser_result(r) + Seq::<char>::empty() =~= ser_result(r));
}

/// Identical configuration and input give identical results, hence
/// byte-identical serialised output, on every repetition.
pub proof fn lemma_identical_runs_identical_output(
    cfg: crate::engine::ConfigV,
    bars: Seq<crate::types::OHLCV>,
    sigs: Seq<int>,
    r1: BacktestResultV,
    r2: BacktestResultV,
)
    requires
        r1 == crate::engine::backtest_result_spec(cfg, bars, sigs),
        r2 == crate::engine::backtest_result_spec(cfg, bars, sigs),
    ensures
        r1 == r2,
        ser_result(r1) == ser_result(r2),
{
}

/// The parse of a complete document: the result object and nothing after.
pub open spec fn parse_result_full(s: Seq<char>) -> Option<BacktestResultV> {
    match p_result(s) {
        Some((v, rest)) => if rest.len() == 0 {
            Some(v)
        } else {
            None
        },
        None => None,
    }
}


// ---------------------------------------------------------------------
// Executable serialising and parsing.
// ---------------------------------------------------------------------

/// Append one decimal digit.
fn push_digit(out: &mut String, d: u64)
    requires
        d < 10,
    ensures
        final(out)@ == old(out)@ + seq![digit_char(d as int)],
{
    if d == 0 {
        out.append("0");
        proof {
            reveal_strlit("0");
            assert(("0")@ =~= seq![digit_char(0)]);
        }
    } else if d == 1 {
        out.append("1");
        proof {
            reveal_strlit("1");
            assert(("1")@ =~= seq![digit_char(1)]);
        }
    } else if d == 2 {
        out.append("2");
        proof {
            reveal_strlit("2");
            assert(("2")@ =~= seq![digit_char(2)]);
        }
    } else if d == 3 {
        out.append("3");
        proof {
            reveal_strlit("3");
            assert(("3")@ =~= seq![digit_char(3)]);
        }
    } else if d == 4 {
        out.append("4");
        proof {
            reveal_strlit("4");
            assert(("4")@ =~= seq![digit_char(4)]);
        }
    } else if d == 5 {
        out.append("5");
        proof {
            reveal_strlit("5");
            assert(("5")@ =~= seq![digit_char(5)]);
        }
    } else if d == 6 {
        out.append("6");
        proof {
            reveal_strlit("6");
            assert(("6")@ =~= seq![digit_char(6)]);
        }
    } else if d == 7 {
        out.append("7");
        proof {
            reveal_strlit("7");
            assert(("7")@ =~= seq![digit_char(7)]);
        }
    } else if d == 8 {
        out.append("8");
        proof {
            reveal_strlit("8");
            assert(("8")@ =~= seq![digit_char(8)]);
        }
    } else {
        out.append("9");
        proof {
            reveal_strlit("9");
            assert(("9")@ =~= seq![digit_char(9)]);
        }
    }
}

/// Append a non-negative number in decimal.
fn ser_u64_into(out: &mut String, v: u64)
    ensures
        final(out)@ == old(out)@ + dec_digits(v as int),
    decreases v,
{
    if v < 10 {
        push_digit(out, v);
    } else {
        let ghost base = old(out)@;
        ser_u64_into(out, v / 10);
        push_digit(out, v % 10);
        proof {
            lemma_seq_assoc(base, dec_digits(v as int / 10), seq![digit_char(v as int % 10)]);
        }
    }
}

/// Append a signed number in decimal.
fn ser_i64_into(out: &mut String, v: i64)
    ensures
        final(out)@ == old(out)@ + ser_i64(v as int),
{
    if v < 0 {
        let ghost base = old(out)@;
        out.append("-");
        let m: u64 = (-(v as i128)) as u64;
        ser_u64_into(out, m);
        proof {
            reveal_strlit("-");
            assert(("-")@ =~= seq!['-']);
            lemma_seq_assoc(base, seq!['-'], dec_digits(m as int));
        }
    } else {
        ser_u64_into(out, v as u64);
    }
}

/// Append a boolean literal.
fn ser_bool_into(out: &mut String, b: bool)
    ensures
        final(out)@ == old(out)@ + ser_bool(b),
{
    if b {
        out.append("true");
    } else {
        out.append("false");
    }
}

/// Append a JSON array of numbers.
fn ser_list_into(out: &mut String, values: &Vec<i64>)
    ensures
        final(out)@ == old(out)@ + ser_list(crate::fixed::seq_int(values@)),
{
    broadcast use crate::fixed::lemma_seq_int_index;

    let ghost base = old(out)@;
    let ghost sv = crate::fixed::seq_int(values@);
    out.append("[");
    proof {
        reveal_strlit("[");
        assert(("[")@ =~= seq!['[']);
    }
    let n = values.len();
    let mut i: usize = 0;
    while i < n
        invariant
            n == values@.len(),
            sv == crate::fixed::seq_int(values@),
            i <= n,
            out@ == base + (seq!['['] + list_body(sv.take(i as int))),
        decreases n - i,
    {
        let ghost before = out@;
        if i > 0 {
            out.append(",");
            ser_i64_into(out, values[i]);
            proof {
                reveal_strlit(",");
                assert((",")@ =~= seq![',']);
                lemma_list_body_snoc(sv.take(i as int), sv[i as int]);
                assert(sv.take(i as int).push(sv[i as int]) =~= sv.take(i as int + 1));
                lemma_seq_assoc(before, seq![','], ser_i64(sv[i as int]));
                assert(seq![','] + ser_i64(sv[i as int]) =~= (",")@ + ser_i64(values@[i as int] as int));
                lemma_seq_assoc(base, seq!['['], list_body(sv.take(i as int)));
                assert(out@ =~= base + (seq!['['] + list_body(sv.take(i as int + 1)))) by {
                    lemma_seq_assoc(
                        base + seq!['['],
                        list_body(sv.take(i as int)),
                        seq![','] + ser_i64(sv[i as int]),
                    );
                    lemma_seq_assoc(base, seq!['['], list_body(sv.take(i as int + 1)));
                }
            }
        } else {
            ser_i64_into(out, values[i]);
            proof {
                assert(sv.take(1int).len() == 1);
                assert(list_body(sv.take(1int)) == ser_i64(sv[0]));
                assert(out@ =~= base + (seq!['['] + list_body(sv.take(1int))));
            }
        }
        i = i + 1;
    }
    out.append("]");
    proof {
        reveal_strlit("]");
        assert(("]")@ =~= seq![']']);
        assert(sv.take(n as int) =~= sv);
        assert(out@ =~= base + ser_list(sv));
    }
}

/// Growing a non-empty list body appends a comma and the new number.
proof fn lemma_list_body_snoc(u: Seq<int>, v: int)
    requires
        u.len() >= 1,
    ensures
        list_body(u.push(v)) == list_body(u) + (seq![','] + ser_i64(v)),
    decreases u.len(),
{
    if u.len() == 1 {
        assert(u.push(v).drop_first() =~= seq![v]);
        assert(list_body(seq![v]) == ser_i64(v));
        assert(list_body(u.push(v)) == ser_i64(u[0]) + seq![','] + list_body(seq![v]));
        lemma_seq_assoc(ser_i64(u[0]), seq![','], ser_i64(v));
        assert(list_body(u) == ser_i64(u[0]));
    } else {
        lemma_list_body_snoc(u.drop_first(), v);
        assert(u.push(v).drop_first() =~= u.drop_first().push(v));
        assert(list_body(u.push(v)) == ser_i64(u[0]) + seq![','] + list_body(u.drop_first().push(v)));
        lemma_seq_assoc(
            ser_i64(u[0]) + seq![','],
            list_body(u.drop_first()),
            seq![','] + ser_i64(v),
        );
    }
}

/// Growing a non-empty trade-list body appends a comma and the new trade.
proof fn lemma_trades_body_snoc(u: Seq<TradeV>, v: TradeV)
    requires
        u.len() >= 1,
    ensures
        trades_body(u.push(v)) == trades_body(u) + (seq![','] + ser_trade(v)),
    decreases u.len(),
{
    if u.len() == 1 {
        assert(u.push(v).drop_first() =~= seq![v]);
        assert(trades_body(seq![v]) == ser_trade(v));
        assert(trades_body(u.push(v)) == ser_trade(u[0]) + seq![','] + trades_body(seq![v]));
        lemma_seq_assoc(ser_trade(u[0]), seq![','], ser_trade(v));
        assert(trades_body(u) == ser_trade(u[0]));
    } else {
        lemma_trades_body_snoc(u.drop_first(), v);
        assert(u.push(v).drop_first() =~= u.drop_first().push(v));
        assert(trades_body(u.push(v)) == ser_trade(u[0]) + seq![','] + trades_body(
            u.drop_first().push(v),
        ));
        lemma_seq_assoc(
            ser_trade(u[0]) + seq![','],
            trades_body(u.drop_first()),
            seq![','] + ser_trade(v),
        );
    }
}

/// Append a JSON array of trades.
fn ser_trades_into(out: &mut String, trades: &Vec<Trade>)
    ensures
        final(out)@ == old(out)@ + ser_trades(crate::trade::trades_view(trades@)),
{
    let ghost base = old(out)@;
    let ghost sv = crate::trade::trades_view(trades@);
    out.append("[");
    proof {
        reveal_strlit("[");
        assert(("[")@ =~= seq!['[']);
    }
    let n = trades.len();
    let mut i: usize = 0;
    while i < n
        invariant
            n == trades@.len(),
            sv == crate::trade::trades_view(trades@),
            i <= n,
            out@ == base + (seq!['['] + trades_body(sv.take(i as int))),
        decreases n - i,
    {
        let ghost before = out@;
        proof {
            assert(sv[i as int] == trades@[i as int]@);
        }
        if i > 0 {
            out.append(",");
            ser_trade_into(out, &trades[i]);
            proof {
                reveal_strlit(",");
                assert((",")@ =~= seq![',']);
                lemma_trades_body_snoc(sv.take(i as int), sv[i as int]);
                assert(sv.take(i as int).push(sv[i as int]) =~= sv.take(i as int + 1));
                lemma_seq_assoc(before, seq![','], ser_trade(sv[i as int]));
                assert(seq![','] + ser_trade(sv[i as int]) =~= (",")@ + ser_trade(trades@[i as int]@));
                assert(out@ =~= base + (seq!['['] + trades_body(sv.take(i as int + 1)))) by {
                    lemma_seq_assoc(
                        base + seq!['['],
                        trades_body(sv.take(i as int)),
                        seq![','] + ser_trade(sv[i as int]),
                    );
                    lemma_seq_assoc(base, seq!['['], trades_body(sv.take(i as int)));
                    lemma_seq_assoc(base, seq!['['], trades_body(sv.take(i as int + 1)));
                }
            }
        } else {
            ser_trade_into(out, &trades[i]);
            proof {
                assert(sv.take(1int).len() == 1);
                assert(trades_body(sv.take(1int)) == ser_trade(sv[0]));
                assert(out@ =~= base + (seq!['['] + trades_body(sv.take(1int))));
            }
        }
        i = i + 1;
    }
    out.append("]");
    proof {
        reveal_strlit("]");
        assert(("]")@ =~= seq![']']);
        assert(sv.take(n as int) =~= sv);
        assert(out@ =~= base + ser_trades(sv));
    }
}

/// Append the serialised form of one trade.
fn ser_trade_into(out: &mut String, t: &Trade)
    ensures
        final(out)@ == old(out)@ + ser_trade(t@),
{
    let ghost base = old(out)@;
    let ghost acc = Seq::<char>::empty();
    proof {
        assert(out@ =~= base + acc);
    }
    out.append("{\"entry_timestamp\":");
    proof {
        lemma_seq_assoc(base, acc, ("{\"entry_timestamp\":")@);
    }
    ser_i64_into(out, t.entry_timestamp);
    proof {
        lemma_seq_assoc(base, (acc + ("{\"entry_timestamp\":")@), ser_i64(t.entry_timestamp as int));
    }
    out.append(",\"exit_timestamp\":");
    proof {
        lemma_seq_assoc(base, ((acc + ("{\"entry_timestamp\":")@) + ser_i64(t.entry_timestamp as int)), (",\"exit_timestamp\":")@);
    }
    ser_i64_into(out, t.exit_timestamp);
    proof {
        lemma_seq_assoc(base, (((acc + ("{\"entry_timestamp\":")@) + ser_i64(t.entry_timestamp as int)) + (",\"exit_timestamp\":")@), ser_i64(t.exit_timestamp as int));
    }
    out.append(",\"entry_price\":");
    proof {
        lemma_seq_assoc(base, ((((acc + ("{\"entry_timestamp\":")@) + ser_i64(t.entry_timestamp as int)) + (",\"exit_timestamp\":")@) + ser_i64(t.exit_timestamp as int)), (",\"entry_price\":")@);
    }
    ser_i64_into(out, t.entry_price);
    proof {
        lemma_seq_assoc(base, (((((acc + ("{\"entry_timestamp\":")@) + ser_i64(t.entry_timestamp as int)) + (",\"exit_timestamp\":")@) + ser_i64(t.exit_timestamp as int)) + (",\"entry_price\":")@), ser_i64(t.entry_price as int));
    }
    out.append(",\"exit_price\":");
    proof {
        lemma_seq_assoc(base, ((((((acc + ("{\"entry_timestamp\":")@) + ser_i64(t.entry_timestamp as int)) + (",\"exit_timestamp\":")@) + ser_i64(t.exit_timestamp as int)) + (",\"entry_price\":")@) + ser_i64(t.entry_price as int)), (",\"exit_price\":")@);
    }
    ser_i64_into(out, t.exit_price);
    proof {
        lemma_seq_assoc(base, (((((((acc + ("{\"entry_timestamp\":")@) + ser_i64(t.entry_timestamp as int)) + (",\"exit_timestamp\":")@) + ser_i64(t.exit_timestamp as int)) + (",\"entry_price\":")@) + ser_i64(t.entry_price as int)) + (",\"exit_price\":")@), ser_i64(t.exit_price as int));
    }
    out.append(",\"position_size\":");
    proof {
        lemma_seq_assoc(base, ((((((((acc + ("{\"entry_timestamp\":")@) + ser_i64(t.entry_timestamp as int)) + (",\"exit_timestamp\":")@) + ser_i64(t.exit_timestamp as int)) + (",\"entry_price\":")@) + ser_i64(t.entry_price as int)) + (",\"exit_price\":")@) + ser_i64(t.exit_price as int)), (",\"position_size\":")@);
    }
    ser_i64_into(out, t.position_size);
    proof {
        lemma_seq_assoc(base, (((((((((acc + ("{\"entry_timestamp\":")@) + ser_i64(t.entry_timestamp as int)) + (",\"exit_timestamp\":")@) + ser_i64(t.exit_timestamp as int)) + (",\"entry_price\":")@) + ser_i64(t.entry_price as int)) + (",\"exit_price\":")@) + ser_i64(t.exit_price as int)) + (",\"position_size\":")@), ser_i64(t.position_size as int));
    }
    out.append(",\"pnl\":");
    proof {
        lemma_seq_assoc(base, ((((((((((acc + ("{\"entry_timestamp\":")@) + ser_i64(t.entry_timestamp as int)) + (",\"exit_timestamp\":")@) + ser_i64(t.exit_timestamp as int)) + (",\"entry_price\":")@) + ser_i64(t.entry_price as int)) + (",\"exit_price\":")@) + ser_i64(t.exit_price as int)) + (",\"position_size\":")@) + ser_i64(t.position_size as int)), (",\"pnl\":")@);
    }
    ser_i64_into(out, t.pnl);
    proof {
        lemma_seq_assoc(base, (((((((((((acc + ("{\"entry_timestamp\":")@) + ser_i64(t.entry_timestamp as int)) + (",\"exit_timestamp\":")@) + ser_i64(t.exit_timestamp as int)) + (",\"entry_price\":")@) + ser_i64(t.entry_price as int)) + (",\"exit_price\":")@) + ser_i64(t.exit_price as int)) + (",\"position_size\":")@) + ser_i64(t.position_size as int)) + (",\"pnl\":")@), ser_i64(t.pnl as int));
    }
    out.append(",\"pnl_pct\":");
    proof {
        lemma_seq_assoc(base, ((((((((((((acc + ("{\"entry_timestamp\":")@) + ser_i64(t.entry_timestamp as int)) + (",\"exit_timestamp\":")@) + ser_i64(t.exit_timestamp as int)) + (",\"entry_price\":")@) + ser_i64(t.entry_price as int)) + (",\"exit_price\":")@) + ser_i64(t.exit_price as int)) + (",\"position_size\":")@) + ser_i64(t.position_size as int)) + (",\"pnl\":")@) + ser_i64(t.pnl as int)), (",\"pnl_pct\":")@);
    }
    ser_i64_into(out, t.pnl_pct);
    proof {
        lemma_seq_assoc(base, (((((((((((((acc + ("{\"entry_timestamp\":")@) + ser_i64(t.entry_timestamp as int)) + (",\"exit_timestamp\":")@) + ser_i64(t.exit_timestamp as int)) + (",\"entry_price\":")@) + ser_i64(t.entry_price as int)) + (",\"exit_price\":")@) + ser_i64(t.exit_price as int)) + (",\"position_size\":")@) + ser_i64(t.position_size as int)) + (",\"pnl\":")@) + ser_i64(t.pnl as int)) + (",\"pnl_pct\":")@), ser_i64(t.pnl_pct as int));
    }
    out.append(",\"duration_bars\":");
    proof {
        lemma_seq_assoc(base, ((((((((((((((acc + ("{\"entry_timestamp\":")@) + ser_i64(t.entry_timestamp as int)) + (",\"exit_timestamp\":")@) + ser_i64(t.exit_timestamp as int)) + (",\"entry_price\":")@) + ser_i64(t.entry_price as int)) + (",\"exit_price\":")@) + ser_i64(t.exit_price as int)) + (",\"position_size\":")@) + ser_i64(t.position_size as int)) + (",\"pnl\":")@) + ser_i64(t.pnl as int)) + (",\"pnl_pct\":")@) + ser_i64(t.pnl_pct as int)), (",\"duration_bars\":")@);
    }
    ser_u64_into(out, t.duration_bars as u64);
    proof {
        lemma_seq_assoc(base, (((((((((((((((acc + ("{\"entry_timestamp\":")@) + ser_i64(t.entry_timestamp as int)) + (",\"exit_timestamp\":")@) + ser_i64(t.exit_timestamp as int)) + (",\"entry_price\":")@) + ser_i64(t.entry_price as int)) + (",\"exit_price\":")@) + ser_i64(t.exit_price as int)) + (",\"position_size\":")@) + ser_i64(t.position_size as int)) + (",\"pnl\":")@) + ser_i64(t.pnl as int)) + (",\"pnl_pct\":")@) + ser_i64(t.pnl_pct as int)) + (",\"duration_bars\":")@), dec_digits(t.duration_bars as int));
    }
    out.append(",\"is_win\":");
    proof {
        lemma_seq_assoc(base, ((((((((((((((((acc + ("{\"entry_timestamp\":")@) + ser_i64(t.entry_timestamp as int)) + (",\"exit_timestamp\":")@) + ser_i64(t.exit_timestamp as int)) + (",\"entry_price\":")@) + ser_i64(t.entry_price as int)) + (",\"exit_price\":")@) + ser_i64(t.exit_price as int)) + (",\"position_size\":")@) + ser_i64(t.position_size as int)) + (",\"pnl\":")@) + ser_i64(t.pnl as int)) + (",\"pnl_pct\":")@) + ser_i64(t.pnl_pct as int)) + (",\"duration_bars\":")@) + dec_digits(t.duration_bars as int)), (",\"is_win\":")@);
    }
    ser_bool_into(out, t.is_win);
    proof {
        lemma_seq_assoc(base, (((((((((((((((((acc + ("{\"entry_timestamp\":")@) + ser_i64(t.entry_timestamp as int)) + (",\"exit_timestamp\":")@) + ser_i64(t.exit_timestamp as int)) + (",\"entry_price\":")@) + ser_i64(t.entry_price as int)) + (",\"exit_price\":")@) + ser_i64(t.exit_price as int)) + (",\"position_size\":")@) + ser_i64(t.position_size as int)) + (",\"pnl\":")@) + ser_i64(t.pnl as int)) + (",\"pnl_pct\":")@) + ser_i64(t.pnl_pct as int)) + (",\"duration_bars\":")@) + dec_digits(t.duration_bars as int)) + (",\"is_win\":")@), ser_bool(t.is_win));
    }
    out.append("}");
    proof {
        lemma_seq_assoc(base, ((((((((((((((((((acc + ("{\"entry_timestamp\":")@) + ser_i64(t.entry_timestamp as int)) + (",\"exit_timestamp\":")@) + ser_i64(t.exit_timestamp as int)) + (",\"entry_price\":")@) + ser_i64(t.entry_price as int)) + (",\"exit_price\":")@) + ser_i64(t.exit_price as int)) + (",\"position_size\":")@) + ser_i64(t.position_size as int)) + (",\"pnl\":")@) + ser_i64(t.pnl as int)) + (",\"pnl_pct\":")@) + ser_i64(t.pnl_pct as int)) + (",\"duration_bars\":")@) + dec_digits(t.duration_bars as int)) + (",\"is_win\":")@) + ser_bool(t.is_win)), ("}")@);
    }
    proof {
        assert((((((((((((((((((((acc + ("{\"entry_timestamp\":")@) + ser_i64(t.entry_timestamp as int)) + (",\"exit_timestamp\":")@) + ser_i64(t.exit_timestamp as int)) + (",\"entry_price\":")@) + ser_i64(t.entry_price as int)) + (",\"exit_price\":")@) + ser_i64(t.exit_price as int)) + (",\"position_size\":")@) + ser_i64(t.position_size as int)) + (",\"pnl\":")@) + ser_i64(t.pnl as int)) + (",\"pnl_pct\":")@) + ser_i64(t.pnl_pct as int)) + (",\"duration_bars\":")@) + dec_digits(t.duration_bars as int)) + (",\"is_win\":")@) + ser_bool(t.is_win)) + ("}")@) =~= ser_trade(t@));
    }
}

/// Append the serialised form of one tradestats.
fn ser_stats_into(out: &mut String, st: &TradeStats)
    ensures
        final(out)@ == old(out)@ + ser_stats(st@),
{
    let ghost base = old(out)@;
    let ghost acc = Seq::<char>::empty();
    proof {
        assert(out@ =~= base + acc);
    }
    out.append("{\"total_trades\":");
    proof {
        lemma_seq_assoc(base, acc, ("{\"total_trades\":")@);
    }
    ser_u64_into(out, st.total_trades as u64);
    proof {
        lemma_seq_assoc(base, (acc + ("{\"total_trades\":")@), dec_digits(st.total_trades as int));
    }
    out.append(",\"winning_trades\":");
    proof {
        lemma_seq_assoc(base, ((acc + ("{\"total_trades\":")@) + dec_digits(st.total_trades as int)), (",\"winning_trades\":")@);
    }
    ser_u64_into(out, st.winning_trades as u64);
    proof {
        lemma_seq_assoc(base, (((acc + ("{\"total_trades\":")@) + dec_digits(st.total_trades as int)) + (",\"winning_trades\":")@), dec_digits(st.winning_trades as int));
    }
    out.append(",\"losing_trades\":");
    proof {
        lemma_seq_assoc(base, ((((acc + ("{\"total_trades\":")@) + dec_digits(st.total_trades as int)) + (",\"winning_trades\":")@) + dec_digits(st.winning_trades as int)), (",\"losing_trades\":")@);
    }
    ser_u64_into(out, st.losing_trades as u64);
    proof {
        lemma_seq_assoc(base, (((((acc + ("{\"total_trades\":")@) + dec_digits(st.total_trades as int)) + (",\"winning_trades\":")@) + dec_digits(st.winning_trades as int)) + (",\"losing_trades\":")@), dec_digits(st.losing_trades as int));
    }
    out.append(",\"win_rate\":");
    proof {
        lemma_seq_assoc(base, ((((((acc + ("{\"total_trades\":")@) + dec_digits(st.total_trades as int)) + (",\"winning_trades\":")@) + dec_digits(st.winning_trades as int)) + (",\"losing_trades\":")@) + dec_digits(st.losing_trades as int)), (",\"win_rate\":")@);
    }
    ser_i64_into(out, st.win_rate);
    proof {
        lemma_seq_assoc(base, (((((((acc + ("{\"total_trades\":")@) + dec_digits(st.total_trades as int)) + (",\"winning_trades\":")@) + dec_digits(st.winning_trades as int)) + (",\"losing_trades\":")@) + dec_digits(st.losing_trades as int)) + (",\"win_rate\":")@), ser_i64(st.win_rate as int));
    }
    out.append(",\"profit_factor\":");
    proof {
        lemma_seq_assoc(base, ((((((((acc + ("{\"total_trades\":")@) + dec_digits(st.total_trades as int)) + (",\"winning_trades\":")@) + dec_digits(st.winning_trades as int)) + (",\"losing_trades\":")@) + dec_digits(st.losing_trades as int)) + (",\"win_rate\":")@) + ser_i64(st.win_rate as int)), (",\"profit_factor\":")@);
    }
    ser_i64_into(out, st.profit_factor);
    proof {
        lemma_seq_assoc(base, (((((((((acc + ("{\"total_trades\":")@) + dec_digits(st.total_trades as int)) + (",\"winning_trades\":")@) + dec_digits(st.winning_trades as int)) + (",\"losing_trades\":")@) + dec_digits(st.losing_trades as int)) + (",\"win_rate\":")@) + ser_i64(st.win_rate as int)) + (",\"profit_factor\":")@), ser_i64(st.profit_factor as int));
    }
    out.append(",\"avg_win\":");
    proof {
        lemma_seq_assoc(base, ((((((((((acc + ("{\"total_trades\":")@) + dec_digits(st.total_trades as int)) + (",\"winning_trades\":")@) + dec_digits(st.winning_trades as int)) + (",\"losing_trades\":")@) + dec_digits(st.losing_trades as int)) + (",\"win_rate\":")@) + ser_i64(st.win_rate as int)) + (",\"profit_factor\":")@) + ser_i64(st.profit_factor as int)), (",\"avg_win\":")@);
    }
    ser_i64_into(out, st.avg_win);
    proof {
        lemma_seq_assoc(base, (((((((((((acc + ("{\"total_trades\":")@) + dec_digits(st.total_trades as int)) + (",\"winning_trades\":")@) + dec_digits(st.winning_trades as int)) + (",\"losing_trades\":")@) + dec_digits(st.losing_trades as int)) + (",\"win_rate\":")@) + ser_i64(st.win_rate as int)) + (",\"profit_factor\":")@) + ser_i64(st.profit_factor as int)) + (",\"avg_win\":")@), ser_i64(st.avg_win as int));
    }
    out.append(",\"avg_loss\":");
    proof {
        lemma_seq_assoc(base, ((((((((((((acc + ("{\"total_trades\":")@) + dec_digits(st.total_trades as int)) + (",\"winning_trades\":")@) + dec_digits(st.winning_trades as int)) + (",\"losing_trades\":")@) + dec_digits(st.losing_trades as int)) + (",\"win_rate\":")@) + ser_i64(st.win_rate as int)) + (",\"profit_factor\":")@) + ser_i64(st.profit_factor as int)) + (",\"avg_win\":")@) + ser_i64(st.avg_win as int)), (",\"avg_loss\":")@);
    }
    ser_i64_into(out, st.avg_loss);
    proof {
        lemma_seq_assoc(base, (((((((((((((acc + ("{\"total_trades\":")@) + dec_digits(st.total_trades as int)) + (",\"winning_trades\":")@) + dec_digits(st.winning_trades as int)) + (",\"losing_trades\":")@) + dec_digits(st.losing_trades as int)) + (",\"win_rate\":")@) + ser_i64(st.win_rate as int)) + (",\"profit_factor\":")@) + ser_i64(st.profit_factor as int)) + (",\"avg_win\":")@) + ser_i64(st.avg_win as int)) + (",\"avg_loss\":")@), ser_i64(st.avg_loss as int));
    }
    out.append(",\"largest_win\":");
    proof {
        lemma_seq_assoc(base, ((((((((((((((acc + ("{\"total_trades\":")@) + dec_digits(st.total_trades as int)) + (",\"winning_trades\":")@) + dec_digits(st.winning_trades as int)) + (",\"losing_trades\":")@) + dec_digits(st.losing_trades as int)) + (",\"win_rate\":")@) + ser_i64(st.win_rate as int)) + (",\"profit_factor\":")@) + ser_i64(st.profit_factor as int)) + (",\"avg_win\":")@) + ser_i64(st.avg_win as int)) + (",\"avg_loss\":")@) + ser_i64(st.avg_loss as int)), (",\"largest_win\":")@);
    }
    ser_i64_into(out, st.largest_win);
    proof {
        lemma_seq_assoc(base, (((((((((((((((acc + ("{\"total_trades\":")@) + dec_digits(st.total_trades as int)) + (",\"winning_trades\":")@) + dec_digits(st.winning_trades as int)) + (",\"losing_trades\":")@) + dec_digits(st.losing_trades as int)) + (",\"win_rate\":")@) + ser_i64(st.win_rate as int)) + (",\"profit_factor\":")@) + ser_i64(st.profit_factor as int)) + (",\"avg_win\":")@) + ser_i64(st.avg_win as int)) + (",\"avg_loss\":")@) + ser_i64(st.avg_loss as int)) + (",\"largest_win\":")@), ser_i64(st.largest_win as int));
    }
    out.append(",\"largest_loss\":");
    proof {
        lemma_seq_assoc(base, ((((((((((((((((acc + ("{\"total_trades\":")@) + dec_digits(st.total_trades as int)) + (",\"winning_trades\":")@) + dec_digits(st.winning_trades as int)) + (",\"losing_trades\":")@) + dec_digits(st.losing_trades as int)) + (",\"win_rate\":")@) + ser_i64(st.win_rate as int)) + (",\"profit_factor\":")@) + ser_i64(st.profit_factor as int)) + (",\"avg_win\":")@) + ser_i64(st.avg_win as int)) + (",\"avg_loss\":")@) + ser_i64(st.avg_loss as int)) + (",\"largest_win\":")@) + ser_i64(st.largest_win as int)), (",\"largest_loss\":")@);
    }
    ser_i64_into(out, st.largest_loss);
    proof {
        lemma_seq_assoc(base, (((((((((((((((((acc + ("{\"total_trades\":")@) + dec_digits(st.total_trades as int)) + (",\"winning_trades\":")@) + dec_digits(st.winning_trades as int)) + (",\"losing_trades\":")@) + dec_digits(st.losing_trades as int)) + (",\"win_rate\":")@) + ser_i64(st.win_rate as int)) + (",\"profit_factor\":")@) + ser_i64(st.profit_factor as int)) + (",\"avg_win\":")@) + ser_i64(st.avg_win as int)) + (",\"avg_loss\":")@) + ser_i64(st.avg_loss as int)) + (",\"largest_win\":")@) + ser_i64(st.largest_win as int)) + (",\"largest_loss\":")@), ser_i64(st.largest_loss as int));
    }
    out.append(",\"avg_trade\":");
    proof {
        lemma_seq_assoc(base, ((((((((((((((((((acc + ("{\"total_trades\":")@) + dec_digits(st.total_trades as int)) + (",\"winning_trades\":")@) + dec_digits(st.winning_trades as int)) + (",\"losing_trades\":")@) + dec_digits(st.losing_trades as int)) + (",\"win_rate\":")@) + ser_i64(st.win_rate as int)) + (",\"profit_factor\":")@) + ser_i64(st.profit_factor as int)) + (",\"avg_win\":")@) + ser_i64(st.avg_win as int)) + (",\"avg_loss\":")@) + ser_i64(st.avg_loss as int)) + (",\"largest_win\":")@) + ser_i64(st.largest_win as int)) + (",\"largest_loss\":")@) + ser_i64(st.largest_loss as int)), (",\"avg_trade\":")@);
    }
    ser_i64_into(out, st.avg_trade);
    proof {
        lemma_seq_assoc(base, (((((((((((((((((((acc + ("{\"total_trades\":")@) + dec_digits(st.total_trades as int)) + (",\"winning_trades\":")@) + dec_digits(st.winning_trades as int)) + (",\"losing_trades\":")@) + dec_digits(st.losing_trades as int)) + (",\"win_rate\":")@) + ser_i64(st.win_rate as int)) + (",\"profit_factor\":")@) + ser_i64(st.profit_factor as int)) + (",\"avg_win\":")@) + ser_i64(st.avg_win as int)) + (",\"avg_loss\":")@) + ser_i64(st.avg_loss as int)) + (",\"largest_win\":")@) + ser_i64(st.largest_win as int)) + (",\"largest_loss\":")@) + ser_i64(st.largest_loss as int)) + (",\"avg_trade\":")@), ser_i64(st.avg_trade as int));
    }
    out.append(",\"expectancy\":");
    proof {
        lemma_seq_assoc(base, ((((((((((((((((((((acc + ("{\"total_trades\":")@) + dec_digits(st.total_trades as int)) + (",\"winning_trades\":")@) + dec_digits(st.winning_trades as int)) + (",\"losing_trades\":")@) + dec_digits(st.losing_trades as int)) + (",\"win_rate\":")@) + ser_i64(st.win_rate as int)) + (",\"profit_factor\":")@) + ser_i64(st.profit_factor as int)) + (",\"avg_win\":")@) + ser_i64(st.avg_win as int)) + (",\"avg_loss\":")@) + ser_i64(st.avg_loss as int)) + (",\"largest_win\":")@) + ser_i64(st.largest_win as int)) + (",\"largest_loss\":")@) + ser_i64(st.largest_loss as int)) + (",\"avg_trade\":")@) + ser_i64(st.avg_trade as int)), (",\"expectancy\":")@);
    }
    ser_i64_into(out, st.expectancy);
    proof {
        lemma_seq_assoc(base, (((((((((((((((((((((acc + ("{\"total_trades\":")@) + dec_digits(st.total_trades as int)) + (",\"winning_trades\":")@) + dec_digits(st.winning_trades as int)) + (",\"losing_trades\":")@) + dec_digits(st.losing_trades as int)) + (",\"win_rate\":")@) + ser_i64(st.win_rate as int)) + (",\"profit_factor\":")@) + ser_i64(st.profit_factor as int)) + (",\"avg_win\":")@) + ser_i64(st.avg_win as int)) + (",\"avg_loss\":")@) + ser_i64(st.avg_loss as int)) + (",\"largest_win\":")@) + ser_i64(st.largest_win as int)) + (",\"largest_loss\":")@) + ser_i64(st.largest_loss as int)) + (",\"avg_trade\":")@) + ser_i64(st.avg_trade as int)) + (",\"expectancy\":")@), ser_i64(st.expectancy as int));
    }
    out.append(",\"longest_win_streak\":");
    proof {
        lemma_seq_assoc(base, ((((((((((((((((((((((acc + ("{\"total_trades\":")@) + dec_digits(st.total_trades as int)) + (",\"winning_trades\":")@) + dec_digits(st.winning_trades as int)) + (",\"losing_trades\":")@) + dec_digits(st.losing_trades as int)) + (",\"win_rate\":")@) + ser_i64(st.win_rate as int)) + (",\"profit_factor\":")@) + ser_i64(st.profit_factor as int)) + (",\"avg_win\":")@) + ser_i64(st.avg_win as int)) + (",\"avg_loss\":")@) + ser_i64(st.avg_loss as int)) + (",\"largest_win\":")@) + ser_i64(st.largest_win as int)) + (",\"largest_loss\":")@) + ser_i64(st.largest_loss as int)) + (",\"avg_trade\":")@) + ser_i64(st.avg_trade as int)) + (",\"expectancy\":")@) + ser_i64(st.expectancy as int)), (",\"longest_win_streak\":")@);
    }
    ser_u64_into(out, st.longest_win_streak as u64);
    proof {
        lemma_seq_assoc(base, (((((((((((((((((((((((acc + ("{\"total_trades\":")@) + dec_digits(st.total_trades as int)) + (",\"winning_trades\":")@) + dec_digits(st.winning_trades as int)) + (",\"losing_trades\":")@) + dec_digits(st.losing_trades as int)) + (",\"win_rate\":")@) + ser_i64(st.win_rate as int)) + (",\"profit_factor\":")@) + ser_i64(st.profit_factor as int)) + (",\"avg_win\":")@) + ser_i64(st.avg_win as int)) + (",\"avg_loss\":")@) + ser_i64(st.avg_loss as int)) + (",\"largest_win\":")@) + ser_i64(st.largest_win as int)) + (",\"largest_loss\":")@) + ser_i64(st.largest_loss as int)) + (",\"avg_trade\":")@) + ser_i64(st.avg_trade as int)) + (",\"expectancy\":")@) + ser_i64(st.expectancy as int)) + (",\"longest_win_streak\":")@), dec_digits(st.longest_win_streak as int));
    }
    out.append(",\"longest_loss_streak\":");
    proof {
        lemma_seq_assoc(base, ((((((((((((((((((((((((acc + ("{\"total_trades\":")@) + dec_digits(st.total_trades as int)) + (",\"winning_trades\":")@) + dec_digits(st.winning_trades as int)) + (",\"losing_trades\":")@) + dec_digits(st.losing_trades as int)) + (",\"win_rate\":")@) + ser_i64(st.win_rate as int)) + (",\"profit_factor\":")@) + ser_i64(st.profit_factor as int)) + (",\"avg_win\":")@) + ser_i64(st.avg_win as int)) + (",\"avg_loss\":")@) + ser_i64(st.avg_loss as int)) + (",\"largest_win\":")@) + ser_i64(st.largest_win as int)) + (",\"largest_loss\":")@) + ser_i64(st.largest_loss as int)) + (",\"avg_trade\":")@) + ser_i64(st.avg_trade as int)) + (",\"expectancy\":")@) + ser_i64(st.expectancy as int)) + (",\"longest_win_streak\":")@) + dec_digits(st.longest_win_streak as int)), (",\"longest_loss_streak\":")@);
    }
    ser_u64_into(out, st.longest_loss_streak as u64);
    proof {
        lemma_seq_assoc(base, (((((((((((((((((((((((((acc + ("{\"total_trades\":")@) + dec_digits(st.total_trades as int)) + (",\"winning_trades\":")@) + dec_digits(st.winning_trades as int)) + (",\"losing_trades\":")@) + dec_digits(st.losing_trades as int)) + (",\"win_rate\":")@) + ser_i64(st.win_rate as int)) + (",\"profit_factor\":")@) + ser_i64(st.profit_factor as int)) + (",\"avg_win\":")@) + ser_i64(st.avg_win as int)) + (",\"avg_loss\":")@) + ser_i64(st.avg_loss as int)) + (",\"largest_win\":")@) + ser_i64(st.largest_win as int)) + (",\"largest_loss\":")@) + ser_i64(st.largest_loss as int)) + (",\"avg_trade\":")@) + ser_i64(st.avg_trade as int)) + (",\"expectancy\":")@) + ser_i64(st.expectancy as int)) + (",\"longest_win_streak\":")@) + dec_digits(st.longest_win_streak as int)) + (",\"longest_loss_streak\":")@), dec_digits(st.longest_loss_streak as int));
    }
    out.append("}");
    proof {
        lemma_seq_assoc(base, ((((((((((((((((((((((((((acc + ("{\"total_trades\":")@) + dec_digits(st.total_trades as int)) + (",\"winning_trades\":")@) + dec_digits(st.winning_trades as int)) + (",\"losing_trades\":")@) + dec_digits(st.losing_trades as int)) + (",\"win_rate\":")@) + ser_i64(st.win_rate as int)) + (",\"profit_factor\":")@) + ser_i64(st.profit_factor as int)) + (",\"avg_win\":")@) + ser_i64(st.avg_win as int)) + (",\"avg_loss\":")@) + ser_i64(st.avg_loss as int)) + (",\"largest_win\":")@) + ser_i64(st.largest_win as int)) + (",\"largest_loss\":")@) + ser_i64(st.largest_loss as int)) + (",\"avg_trade\":")@) + ser_i64(st.avg_trade as int)) + (",\"expectancy\":")@) + ser_i64(st.expectancy as int)) + (",\"longest_win_streak\":")@) + dec_digits(st.longest_win_streak as int)) + (",\"longest_loss_streak\":")@) + dec_digits(st.longest_loss_streak as int)), ("}")@);
    }
    proof {
        assert((((((((((((((((((((((((((((acc + ("{\"total_trades\":")@) + dec_digits(st.total_trades as int)) + (",\"winning_trades\":")@) + dec_digits(st.winning_trades as int)) + (",\"losing_trades\":")@) + dec_digits(st.losing_trades as int)) + (",\"win_rate\":")@) + ser_i64(st.win_rate as int)) + (",\"profit_factor\":")@) + ser_i64(st.profit_factor as int)) + (",\"avg_win\":")@) + ser_i64(st.avg_win as int)) + (",\"avg_loss\":")@) + ser_i64(st.avg_loss as int)) + (",\"largest_win\":")@) + ser_i64(st.largest_win as int)) + (",\"largest_loss\":")@) + ser_i64(st.largest_loss as int)) + (",\"avg_trade\":")@) + ser_i64(st.avg_trade as int)) + (",\"expectancy\":")@) + ser_i64(st.expectancy as int)) + (",\"longest_win_streak\":")@) + dec_digits(st.longest_win_streak as int)) + (",\"longest_loss_streak\":")@) + dec_digits(st.longest_loss_streak as int)) + ("}")@) =~= ser_stats(st@));
    }
}


impl BacktestResult {
    /// The result as JSON text with stable field names and order; pure in
    /// the result's value, so identical results give identical bytes.
    pub fn to_json(&self) -> (r: String)
        ensures
            r@ == ser_result(self@),
{
        let mut out = String::new();
        let ghost base = out@;
        out.append("{\"initial_capital\":");
        ser_i64_into(&mut out, self.initial_capital);
        out.append(",\"final_equity\":");
        ser_i64_into(&mut out, self.final_equity);
        out.append(",\"total_return\":");
        ser_i64_into(&mut out, self.total_return);
        out.append(",\"equity_curve\":");
        ser_list_into(&mut out, &self.equity_curve);
        out.append(",\"total_trades\":");
        ser_u64_into(&mut out, self.total_trades);
        out.append(",\"sharpe_ratio\":");
        ser_i64_into(&mut out, self.sharpe_ratio);
        out.append(",\"sortino_ratio\":");
        ser_i64_into(&mut out, self.sortino_ratio);
        out.append(",\"calmar_ratio\":");
        ser_i64_into(&mut out, self.calmar_ratio);
        out.append(",\"max_drawdown\":");
        ser_i64_into(&mut out, self.max_drawdown);
        match &self.trades {
            Some(ts) => {
                out.append(",\"trades\":");
                ser_trades_into(&mut out, ts);
            },
            None => {},
        }
        match &self.trade_stats {
            Some(st) => {
                out.append(",\"trade_stats\":");
                ser_stats_into(&mut out, st);
            },
            None => {},
        }
        out.append("}");
        proof {
            assert(base =~= Seq::<char>::empty());
            assert(out@ =~= ser_result(self@));
        }
        out
    }
}


/// The exec value of a decimal digit character.
fn digit_of(c: char) -> (r: Option<u64>)
    ensures
        match r {
            Some(d) => digit_val(c) == d as int && d < 10,
            None => digit_val(c) == -1,
        },
{
    match c {
        '0' => Some(0),
        '1' => Some(1),
        '2' => Some(2),
        '3' => Some(3),
        '4' => Some(4),
        '5' => Some(5),
        '6' => Some(6),
        '7' => Some(7),
        '8' => Some(8),
        '9' => Some(9),
        _ => None,
    }
}

/// Match a literal at a position.
fn pe_lit(s: &str, pos: usize, lit: &str) -> (r: Option<usize>)
    requires
        pos <= s@.len(),
    ensures
        match r {
            Some(p2) => pos <= p2 <= s@.len() && p_lit(s@.skip(pos as int), lit@) == Some(
                s@.skip(p2 as int),
            ),
            None => p_lit(s@.skip(pos as int), lit@) is None,
        },
{
    let ll = lit.unicode_len();
    let sl = s.unicode_len();
    if sl - pos < ll {
        return None;
    }
    let mut j: usize = 0;
    while j < ll
        invariant
            pos + ll <= sl,
            sl == s@.len(),
            ll == lit@.len(),
            j <= ll,
            forall|k: int| 0 <= k < j ==> s@[pos + k] == lit@[k],
        decreases ll - j,
    {
        let a = s.get_char(pos + j);
        let b = lit.get_char(j);
        if a != b {
            proof {
                assert(s@.skip(pos as int).take(ll as int)[j as int] == s@[pos + j]);
            }
            return None;
        }
        j = j + 1;
    }
    proof {
        assert(s@.skip(pos as int).take(ll as int) =~= lit@);
        assert(s@.skip(pos as int).skip(ll as int) =~= s@.skip(pos as int + ll as int));
    }
    Some(pos + ll)
}

/// Parse a bounded non-negative decimal number.
fn pe_nat(s: &str, pos: usize, bound: u64) -> (r: Option<(u64, usize)>)
    requires
        pos <= s@.len(),
    ensures
        match r {
            Some(v) => pos < v.1 <= s@.len() && v.0 <= bound && p_nat(
                s@.skip(pos as int),
                bound as int,
            ) == Some((v.0 as int, s@.skip(v.1 as int))),
            None => p_nat(s@.skip(pos as int), bound as int) is None,
        },
{
    let sl = s.unicode_len();
    if pos >= sl {
        return None;
    }
    proof {
        assert(s@.skip(pos as int)[0] == s@[pos as int]);
    }
    match digit_of(s.get_char(pos)) {
        None => {
            return None;
        },
        Some(_) => {},
    }
    let mut acc: u64 = 0;
    let mut cur: usize = pos;
    loop
        invariant
            sl == s@.len(),
            pos <= cur <= sl,
            acc <= bound,
            pos < sl,
            is_digit_c(s@[pos as int]),
            p_digits(s@.skip(pos as int), 0, bound as int) == p_digits(
                s@.skip(cur as int),
                acc as int,
                bound as int,
            ),
            cur == pos ==> acc == 0,
        decreases sl - cur,
    {
        if cur >= sl {
            proof {
                assert(s@.skip(cur as int).len() == 0);
                assert(cur > pos);
            }
            return Some((acc, cur));
        }
        proof {
            assert(s@.skip(cur as int)[0] == s@[cur as int]);
        }
        match digit_of(s.get_char(cur)) {
            None => {
                proof {
                    if cur == pos {
                        assert(false);
                    }
                }
                return Some((acc, cur));
            },
            Some(d) => {
                let wide: u128 = acc as u128 * 10 + d as u128;
                if wide > bound as u128 {
                    return None;
                }
                proof {
                    assert(s@.skip(cur as int).skip(1) =~= s@.skip(cur as int + 1));
                }
                acc = wide as u64;
                cur = cur + 1;
            },
        }
    }
}

/// Parse a signed 64-bit decimal number.
fn pe_i64(s: &str, pos: usize) -> (r: Option<(i64, usize)>)
    requires
        pos <= s@.len(),
    ensures
        match r {
            Some(v) => pos < v.1 <= s@.len() && p_i64(s@.skip(pos as int)) == Some(
                (v.0 as int, s@.skip(v.1 as int)),
            ),
            None => p_i64(s@.skip(pos as int)) is None,
        },
{
    let sl = s.unicode_len();
    if pos < sl && s.get_char(pos) == '-' {
        proof {
            assert(s@.skip(pos as int)[0] == s@[pos as int]);
            assert(s@.skip(pos as int).skip(1) =~= s@.skip(pos as int + 1));
        }
        match pe_nat(s, pos + 1, 0x8000_0000_0000_0000u64) {
            Some((m, p2)) => {
                let v: i64 = if m == 0x8000_0000_0000_0000u64 {
                    i64::MIN
                } else {
                    -(m as i64)
                };
                Some((v, p2))
            },
            None => None,
        }
    } else {
        proof {
            if pos < sl {
                assert(s@.skip(pos as int)[0] == s@[pos as int]);
            } else {
                assert(s@.skip(pos as int).len() == 0);
            }
        }
        match pe_nat(s, pos, 0x7fff_ffff_ffff_ffffu64) {
            Some((m, p2)) => Some((m as i64, p2)),
            None => None,
        }
    }
}

/// Parse a boolean literal.
fn pe_bool(s: &str, pos: usize) -> (r: Option<(bool, usize)>)
    requires
        pos <= s@.len(),
    ensures
        match r {
            Some(v) => pos <= v.1 <= s@.len() && p_bool(s@.skip(pos as int)) == Some(
                (v.0, s@.skip(v.1 as int)),
            ),
            None => p_bool(s@.skip(pos as int)) is None,
        },
{
    match pe_lit(s, pos, "true") {
        Some(p2) => Some((true, p2)),
        None => match pe_lit(s, pos, "false") {
            Some(p2) => Some((false, p2)),
            None => None,
        },
    }
}

/// Parse a JSON array of numbers.
#[verifier::rlimit(100)]
fn pe_list(s: &str, pos: usize) -> (r: Option<(Vec<i64>, usize)>)
    requires
        pos <= s@.len(),
    ensures
        match r {
            Some(v) => pos <= v.1 <= s@.len() && p_list(s@.skip(pos as int)) == Some(
                (crate::fixed::seq_int(v.0@), s@.skip(v.1 as int)),
            ),
            None => p_list(s@.skip(pos as int)) is None,
        },
{
    broadcast use crate::fixed::lemma_seq_int_index;

    let sl = s.unicode_len();
    let p1 = match pe_lit(s, pos, "[") {
        Some(p1) => p1,
        None => {
            return None;
        },
    };
    if p1 < sl && s.get_char(p1) == ']' {
        proof {
            assert(s@.skip(p1 as int)[0] == s@[p1 as int]);
            assert(s@.skip(p1 as int).skip(1) =~= s@.skip(p1 as int + 1));
            assert(crate::fixed::seq_int(Seq::<i64>::empty()) =~= Seq::<int>::empty());
        }
        let empty: Vec<i64> = Vec::new();
        proof {
            assert(crate::fixed::seq_int(empty@) =~= Seq::<int>::empty());
        }
        return Some((empty, p1 + 1));
    }
    proof {
        if p1 < sl {
            assert(s@.skip(p1 as int)[0] == s@[p1 as int]);
        } else {
            assert(s@.skip(p1 as int).len() == 0);
        }
    }
    let ghost s1 = s@.skip(p1 as int);
    let ghost fuel0: int = s1.len() as int;
    let mut out: Vec<i64> = Vec::new();
    let mut cur: usize = p1;
    let ghost mut fuel: int = fuel0;
    proof {
        assert(crate::fixed::seq_int(out@) =~= Seq::<int>::empty());
        assert(Seq::<int>::empty() + Seq::<int>::empty() =~= Seq::<int>::empty());
    }
    loop
        invariant
            sl == s@.len(),
            pos <= p1 <= sl,
            s1 == s@.skip(p1 as int),
            fuel0 == s1.len() as int,
            p_lit(s@.skip(pos as int), ("[")@) == Some(s1),
            s1.len() == 0 || s1[0] != ']',
            p1 <= cur <= sl,
            fuel >= sl - cur,
            fuel <= fuel0,
            ({
                let tail = p_list_items(s@.skip(cur as int), fuel);
                p_list_items(s1, fuel0) == (match tail {
                    Some(p) => Some((crate::fixed::seq_int(out@) + p.0, p.1)),
                    None => None::<(Seq<int>, Seq<char>)>,
                })
            }),
        decreases sl - cur,
    {
        let ghost prev_out = out@;
        match pe_i64(s, cur) {
            None => {
                proof {
                    assert(p_list_items(s@.skip(cur as int), fuel) is None);
                }
                return None;
            },
            Some((v, p2)) => {
                out.push(v);
                proof {
                    assert(crate::fixed::seq_int(out@) =~= crate::fixed::seq_int(prev_out) + seq![
                        v as int,
                    ]);
                }
                if p2 < sl && s.get_char(p2) == ',' {
                    proof {
                        assert(s@.skip(p2 as int)[0] == s@[p2 as int]);
                        assert(s@.skip(p2 as int).skip(1) =~= s@.skip(p2 as int + 1));
                        assert(fuel >= 1);
                        let tail2 = p_list_items(s@.skip(p2 as int + 1), fuel - 1);
                        match tail2 {
                            Some(p) => {
                                assert(crate::fixed::seq_int(prev_out) + (seq![v as int] + p.0)
                                    =~= crate::fixed::seq_int(out@) + p.0);
                            },
                            None => {},
                        }
                        fuel = fuel - 1;
                    }
                    cur = p2 + 1;
                } else {
                    proof {
                        assert(fuel >= 1);
                        if p2 < sl {
                            assert(s@.skip(p2 as int)[0] == s@[p2 as int]);
                        } else {
                            assert(s@.skip(p2 as int).len() == 0);
                        }
                        assert(p_list_items(s@.skip(cur as int), fuel) == Some(
                            (seq![v as int], s@.skip(p2 as int)),
                        ));
                        assert(crate::fixed::seq_int(prev_out) + seq![v as int]
                            =~= crate::fixed::seq_int(out@));
                    }
                    match pe_lit(s, p2, "]") {
                        Some(p3) => {
                            return Some((out, p3));
                        },
                        None => {
                            return None;
                        },
                    }
                }
            },
        }
    }
}


/// Parse one trade object.
#[verifier::rlimit(100)]
fn pe_trade(s: &str, pos: usize) -> (r: Option<(Trade, usize)>)
    requires
        pos <= s@.len(),
    ensures
        match r {
            Some(v) => pos <= v.1 <= s@.len() && p_trade(s@.skip(pos as int)) == Some(
                (v.0@, s@.skip(v.1 as int)),
            ),
            None => p_trade(s@.skip(pos as int)) is None,
        },
{
    let p0 = match pe_lit(s, pos, "{\"entry_timestamp\":") {
        Some(p) => p,
        None => {
            return None;
        },
    };
    let (entry_timestamp, p1) = match pe_i64(s, p0) {
        Some(v) => v,
        None => {
            return None;
        },
    };
    let p1b = match pe_lit(s, p1, ",\"exit_timestamp\":") {
        Some(p) => p,
        None => {
            return None;
        },
    };
    let (exit_timestamp, p2) = match pe_i64(s, p1b) {
        Some(v) => v,
        None => {
            return None;
        },
    };
    let p2b = match pe_lit(s, p2, ",\"entry_price\":") {
        Some(p) => p,
        None => {
            return None;
        },
    };
    let (entry_price, p3) = match pe_i64(s, p2b) {
        Some(v) => v,
        None => {
            return None;
        },
    };
    let p3b = match pe_lit(s, p3, ",\"exit_price\":") {
        Some(p) => p,
        None => {
            return None;
        },
    };
    let (exit_price, p4) = match pe_i64(s, p3b) {
        Some(v) => v,
        None => {
            return None;
        },
    };
    let p4b = match pe_lit(s, p4, ",\"position_size\":") {
        Some(p) => p,
        None => {
            return None;
        },
    };
    let (position_size, p5) = match pe_i64(s, p4b) {
        Some(v) => v,
        None => {
            return None;
        },
    };
    let p5b = match pe_lit(s, p5, ",\"pnl\":") {
        Some(p) => p,
        None => {
            return None;
        },
    };
    let (pnl, p6) = match pe_i64(s, p5b) {
        Some(v) => v,
        None => {
            return None;
        },
    };
    let p6b = match pe_lit(s, p6, ",\"pnl_pct\":") {
        Some(p) => p,
        None => {
            return None;
        },
    };
    let (pnl_pct, p7) = match pe_i64(s, p6b) {
        Some(v) => v,
        None => {
            return None;
        },
    };
    let p7b = match pe_lit(s, p7, ",\"duration_bars\":") {
        Some(p) => p,
        None => {
            return None;
        },
    };
    let (duration_u, p8) = match pe_nat(s, p7b, usize::MAX as u64) {
        Some(v) => v,
        None => {
            return None;
        },
    };
    let duration_bars: usize = duration_u as usize;
    let p8b = match pe_lit(s, p8, ",\"is_win\":") {
        Some(p) => p,
        None => {
            return None;
        },
    };
    let (is_win, p9) = match pe_bool(s, p8b) {
        Some(v) => v,
        None => {
            return None;
        },
    };
    let p10 = match pe_lit(s, p9, "}") {
        Some(p) => p,
        None => {
            return None;
        },
    };
    let t = Trade {
        entry_timestamp,
        exit_timestamp,
        entry_price,
        exit_price,
        position_size,
        pnl,
        pnl_pct,
        duration_bars,
        is_win,
    };
    Some((t, p10))
}

/// Parse a JSON array of trades.
#[verifier::rlimit(100)]
fn pe_trades(s: &str, pos: usize) -> (r: Option<(Vec<Trade>, usize)>)
    requires
        pos <= s@.len(),
    ensures
        match r {
            Some(v) => pos <= v.1 <= s@.len() && p_trades(s@.skip(pos as int)) == Some(
                (crate::trade::trades_view(v.0@), s@.skip(v.1 as int)),
            ),
            None => p_trades(s@.skip(pos as int)) is None,
        },
{
    let sl = s.unicode_len();
    let p1 = match pe_lit(s, pos, "[") {
        Some(p1) => p1,
        None => {
            return None;
        },
    };
    if p1 < sl && s.get_char(p1) == ']' {
        proof {
            assert(s@.skip(p1 as int)[0] == s@[p1 as int]);
            assert(s@.skip(p1 as int).skip(1) =~= s@.skip(p1 as int + 1));
        }
        let empty: Vec<Trade> = Vec::new();
        proof {
            assert(crate::trade::trades_view(empty@) =~= Seq::<TradeV>::empty());
        }
        return Some((empty, p1 + 1));
    }
    proof {
        if p1 < sl {
            assert(s@.skip(p1 as int)[0] == s@[p1 as int]);
        } else {
            assert(s@.skip(p1 as int).len() == 0);
        }
    }
    let ghost s1 = s@.skip(p1 as int);
    let ghost fuel0: int = s1.len() as int;
    let mut out: Vec<Trade> = Vec::new();
    let mut cur: usize = p1;
    let ghost mut fuel: int = fuel0;
    proof {
        assert(crate::trade::trades_view(out@) =~= Seq::<TradeV>::empty());
        assert(Seq::<TradeV>::empty() + Seq::<TradeV>::empty() =~= Seq::<TradeV>::empty());
    }
    loop
        invariant
            sl == s@.len(),
            pos <= p1 <= sl,
            s1 == s@.skip(p1 as int),
            fuel0 == s1.len() as int,
            p_lit(s@.skip(pos as int), ("[")@) == Some(s1),
            s1.len() == 0 || s1[0] != ']',
            p1 <= cur <= sl,
            fuel >= sl - cur,
            fuel <= fuel0,
            ({
                let tail = p_trades_items(s@.skip(cur as int), fuel);
                p_trades_items(s1, fuel0) == (match tail {
                    Some(p) => Some((crate::trade::trades_view(out@) + p.0, p.1)),
                    None => None::<(Seq<TradeV>, Seq<char>)>,
                })
            }),
        decreases sl - cur,
    {
        let ghost prev_out = out@;
        match pe_trade(s, cur) {
            None => {
                proof {
                    assert(p_trades_items(s@.skip(cur as int), fuel) is None);
                }
                return None;
            },
            Some((t, p2)) => {
                proof {
                    if p2 == cur {
                        // a trade consumes at least its opening literal
                        reveal_strlit("{\"entry_timestamp\":");
                        assert(p_trade(s@.skip(cur as int)) == Some((t@, s@.skip(cur as int))));
                    }
                }
                out.push(t);
                proof {
                    assert(crate::trade::trades_view(out@) =~= crate::trade::trades_view(prev_out)
                        + seq![t@]);
                }
                if p2 < sl && s.get_char(p2) == ',' {
                    proof {
                        assert(s@.skip(p2 as int)[0] == s@[p2 as int]);
                        assert(s@.skip(p2 as int).skip(1) =~= s@.skip(p2 as int + 1));
                        assert(fuel >= 1);
                        let tail2 = p_trades_items(s@.skip(p2 as int + 1), fuel - 1);
                        match tail2 {
                            Some(p) => {
                                assert(crate::trade::trades_view(prev_out) + (seq![t@] + p.0)
                                    =~= crate::trade::trades_view(out@) + p.0);
                            },
                            None => {},
                        }
                        fuel = fuel - 1;
                    }
                    cur = p2 + 1;
                } else {
                    proof {
                        assert(fuel >= 1);
                        if p2 < sl {
                            assert(s@.skip(p2 as int)[0] == s@[p2 as int]);
                        } else {
                            assert(s@.skip(p2 as int).len() == 0);
                        }
                        assert(p_trades_items(s@.skip(cur as int), fuel) == Some(
                            (seq![t@], s@.skip(p2 as int)),
                        ));
                        assert(crate::trade::trades_view(prev_out) + seq![t@]
                            =~= crate::trade::trades_view(out@));
                    }
                    match pe_lit(s, p2, "]") {
                        Some(p3) => {
                            return Some((out, p3));
                        },
                        None => {
                            return None;
                        },
                    }
                }
            },
        }
    }
}

/// Parse the statistics object.
#[verifier::rlimit(100)]
fn pe_stats(s: &str, pos: usize) -> (r: Option<(TradeStats, usize)>)
    requires
        pos <= s@.len(),
    ensures
        match r {
            Some(v) => pos <= v.1 <= s@.len() && p_stats(s@.skip(pos as int)) == Some(
                (v.0@, s@.skip(v.1 as int)),
            ),
            None => p_stats(s@.skip(pos as int)) is None,
        },
{
    let p0 = match pe_lit(s, pos, "{\"total_trades\":") {
        Some(p) => p,
        None => {
            return None;
        },
    };
    let (total_trades_u, p1) = match pe_nat(s, p0, usize::MAX as u64) {
        Some(v) => v,
        None => {
            return None;
        },
    };
    let p1b = match pe_lit(s, p1, ",\"winning_trades\":") {
        Some(p) => p,
        None => {
            return None;
        },
    };
    let (winning_u, p2) = match pe_nat(s, p1b, usize::MAX as u64) {
        Some(v) => v,
        None => {
            return None;
        },
    };
    let p2b = match pe_lit(s, p2, ",\"losing_trades\":") {
        Some(p) => p,
        None => {
            return None;
        },
    };
    let (losing_u, p3) = match pe_nat(s, p2b, usize::MAX as u64) {
        Some(v) => v,
        None => {
            return None;
        },
    };
    let p3b = match pe_lit(s, p3, ",\"win_rate\":") {
        Some(p) => p,
        None => {
            return None;
        },
    };
    let (win_rate, p4) = match pe_i64(s, p3b) {
        Some(v) => v,
        None => {
            return None;
        },
    };
    let p4b = match pe_lit(s, p4, ",\"profit_factor\":") {
        Some(p) => p,
        None => {
            return None;
        },
    };
    let (profit_factor, p5) = match pe_i64(s, p4b) {
        Some(v) => v,
        None => {
            return None;
        },
    };
    let p5b = match pe_lit(s, p5, ",\"avg_win\":") {
        Some(p) => p,
        None => {
            return None;
        },
    };
    let (avg_win, p6) = match pe_i64(s, p5b) {
        Some(v) => v,
        None => {
            return None;
        },
    };
    let ghost a_tuple = (
        total_trades_u as int,
        winning_u as int,
        losing_u as int,
        win_rate as int,
        profit_factor as int,
        avg_win as int,
    );
    proof {
        assert(p_stats_a(s@.skip(pos as int)) == Some((a_tuple, s@.skip(p6 as int))));
    }
    let p6b = match pe_lit(s, p6, ",\"avg_loss\":") {
        Some(p) => p,
        None => {
            return None;
        },
    };
    let (avg_loss, p7) = match pe_i64(s, p6b) {
        Some(v) => v,
        None => {
            return None;
        },
    };
    let p7b = match pe_lit(s, p7, ",\"largest_win\":") {
        Some(p) => p,
        None => {
            return None;
        },
    };
    let (largest_win, p8) = match pe_i64(s, p7b) {
        Some(v) => v,
        None => {
            return None;
        },
    };
    let p8b = match pe_lit(s, p8, ",\"largest_loss\":") {
        Some(p) => p,
        None => {
            return None;
        },
    };
    let (largest_loss, p9) = match pe_i64(s, p8b) {
        Some(v) => v,
        None => {
            return None;
        },
    };
    let p9b = match pe_lit(s, p9, ",\"avg_trade\":") {
        Some(p) => p,
        None => {
            return None;
        },
    };
    let (avg_trade, p10) = match pe_i64(s, p9b) {
        Some(v) => v,
        None => {
            return None;
        },
    };
    let p10b = match pe_lit(s, p10, ",\"expectancy\":") {
        Some(p) => p,
        None => {
            return None;
        },
    };
    let (expectancy, p11) = match pe_i64(s, p10b) {
        Some(v) => v,
        None => {
            return None;
        },
    };
    let p11b = match pe_lit(s, p11, ",\"longest_win_streak\":") {
        Some(p) => p,
        None => {
            return None;
        },
    };
    let (lws_u, p12) = match pe_nat(s, p11b, usize::MAX as u64) {
        Some(v) => v,
        None => {
            return None;
        },
    };
    let p12b = match pe_lit(s, p12, ",\"longest_loss_streak\":") {
        Some(p) => p,
        None => {
            return None;
        },
    };
    let (lls_u, p13) = match pe_nat(s, p12b, usize::MAX as u64) {
        Some(v) => v,
        None => {
            return None;
        },
    };
    let p14 = match pe_lit(s, p13, "}") {
        Some(p) => p,
        None => {
            return None;
        },
    };
    let st = TradeStats {
        total_trades: total_trades_u as usize,
        winning_trades: winning_u as usize,
        losing_trades: losing_u as usize,
        win_rate,
        profit_factor,
        avg_win,
        avg_loss,
        largest_win,
        largest_loss,
        avg_trade,
        expectancy,
        longest_win_streak: lws_u as usize,
        longest_loss_streak: lls_u as usize,
    };
    Some((st, p14))
}

/// Parse a complete JSON document into a backtest result; `None` for any
/// text the encoder cannot have produced.
#[verifier::rlimit(100)]
pub fn from_json(s: &str) -> (r: Option<BacktestResult>)
    ensures
        match r {
            Some(v) => parse_result_full(s@) == Some(v@),
            None => parse_result_full(s@) is None,
        },
{
    let sl = s.unicode_len();
    proof {
        assert(s@.skip(0) =~= s@);
    }
    let p0 = match pe_lit(s, 0, "{\"initial_capital\":") {
        Some(p) => p,
        None => {
            return None;
        },
    };
    let (initial_capital, p1) = match pe_i64(s, p0) {
        Some(v) => v,
        None => {
            return None;
        },
    };
    let p1b = match pe_lit(s, p1, ",\"final_equity\":") {
        Some(p) => p,
        None => {
            return None;
        },
    };
    let (final_equity, p2) = match pe_i64(s, p1b) {
        Some(v) => v,
        None => {
            return None;
        },
    };
    let p2b = match pe_lit(s, p2, ",\"total_return\":") {
        Some(p) => p,
        None => {
            return None;
        },
    };
    let (total_return, p3) = match pe_i64(s, p2b) {
        Some(v) => v,
        None => {
            return None;
        },
    };
    let p3b = match pe_lit(s, p3, ",\"equity_curve\":") {
        Some(p) => p,
        None => {
            return None;
        },
    };
    let (equity_curve, p4) = match pe_list(s, p3b) {
        Some(v) => v,
        None => {
            return None;
        },
    };
    let p4b = match pe_lit(s, p4, ",\"total_trades\":") {
        Some(p) => p,
        None => {
            return None;
        },
    };
    let (total_trades, p5) = match pe_nat(s, p4b, 0xffff_ffff_ffff_ffffu64) {
        Some(v) => v,
        None => {
            return None;
        },
    };
    let p5b = match pe_lit(s, p5, ",\"sharpe_ratio\":") {
        Some(p) => p,
        None => {
            return None;
        },
    };
    let (sharpe_ratio, p6) = match pe_i64(s, p5b) {
        Some(v) => v,
        None => {
            return None;
        },
    };
    let p6b = match pe_lit(s, p6, ",\"sortino_ratio\":") {
        Some(p) => p,
        None => {
            return None;
        },
    };
    let (sortino_ratio, p7) = match pe_i64(s, p6b) {
        Some(v) => v,
        None => {
            return None;
        },
    };
    let p7b = match pe_lit(s, p7, ",\"calmar_ratio\":") {
        Some(p) => p,
        None => {
            return None;
        },
    };
    let (calmar_ratio, p8) = match pe_i64(s, p7b) {
        Some(v) => v,
        None => {
            return None;
        },
    };
    let p8b = match pe_lit(s, p8, ",\"max_drawdown\":") {
        Some(p) => p,
        None => {
            return None;
        },
    };
    let (max_drawdown, p9) = match pe_i64(s, p8b) {
        Some(v) => v,
        None => {
            return None;
        },
    };
    let ghost head_tuple = (
        initial_capital as int,
        final_equity as int,
        total_return as int,
        crate::fixed::seq_int(equity_curve@),
        total_trades as int,
        sharpe_ratio as int,
        sortino_ratio as int,
        calmar_ratio as int,
        max_drawdown as int,
    );
    proof {
        assert(p_result_head(s@.skip(0)) == Some((head_tuple, s@.skip(p9 as int))));
    }
    let (trades, p10) = match pe_lit(s, p9, ",\"trades\":") {
        Some(pt) => {
            match pe_trades(s, pt) {
                Some((ts, p)) => (Some(ts), p),
                None => {
                    return None;
                },
            }
        },
        None => (None, p9),
    };
    proof {
        match &trades {
            Some(ts) => {
                assert(p_opt_trades(s@.skip(p9 as int)) == Some(
                    (Some(crate::trade::trades_view(ts@)), s@.skip(p10 as int)),
                ));
            },
            None => {
                assert(p_opt_trades(s@.skip(p9 as int)) == Some(
                    (None::<Seq<TradeV>>, s@.skip(p10 as int)),
                ));
            },
        }
    }
    let (trade_stats, p11) = match pe_lit(s, p10, ",\"trade_stats\":") {
        Some(pt) => {
            match pe_stats(s, pt) {
                Some((st, p)) => (Some(st), p),
                None => {
                    return None;
                },
            }
        },
        None => (None, p10),
    };
    proof {
        match trade_stats {
            Some(st) => {
                assert(p_opt_stats(s@.skip(p10 as int)) == Some(
                    (Some(st@), s@.skip(p11 as int)),
                ));
            },
            None => {
                assert(p_opt_stats(s@.skip(p10 as int)) == Some(
                    (None::<TradeStatsV>, s@.skip(p11 as int)),
                ));
            },
        }
    }
    let p12 = match pe_lit(s, p11, "}") {
        Some(p) => p,
        None => {
            return None;
        },
    };
    if p12 != sl {
        proof {
            assert(s@.skip(p12 as int).len() > 0);
        }
        return None;
    }
    proof {
        assert(s@.skip(p12 as int).len() == 0);
        assert(s@.skip(p12 as int) =~= Seq::<char>::empty());
    }
    let result = BacktestResult {
        initial_capital,
        final_equity,
        total_return,
        equity_curve,
        total_trades,
        sharpe_ratio,
        sortino_ratio,
        calmar_ratio,
        max_drawdown,
        trades,
        trade_stats,
    };
    Some(result)
}


/// One CSV row per bar: the bar index and the equity value.
pub open spec fn equity_csv_rows(e: Seq<int>, n: int) -> Seq<char>
    decreases n,
{
    if n <= 0 {
        Seq::empty()
    } else {
        equity_csv_rows(e, n - 1) + (dec_digits(n - 1) + (seq![','] + (ser_i64(e[n - 1])
            + seq!['\n'])))
    }
}

/// The flat tabular text of an equity curve: a header, then one row per
/// bar.
pub open spec fn equity_csv_spec(e: Seq<int>) -> Seq<char> {
    ("bar,equity\n")@ + equity_csv_rows(e, e.len() as int)
}

impl BacktestResult {
    /// The equity curve as tabular text with stable column names.
    pub fn equity_csv(&self) -> (r: String)
        ensures
            r@ == equity_csv_spec(crate::fixed::seq_int(self.equity_curve@)),
    {
        broadcast use crate::fixed::lemma_seq_int_index;

        let ghost e = crate::fixed::seq_int(self.equity_curve@);
        let mut out = String::new();
        out.append("bar,equity\n");
        let ghost header = ("bar,equity\n")@;
        proof {
            assert(out@ =~= header + equity_csv_rows(e, 0));
        }
        let n = self.equity_curve.len();
        let mut i: usize = 0;
        while i < n
            invariant
                n == self.equity_curve@.len(),
                e == crate::fixed::seq_int(self.equity_curve@),
                i <= n,
                header == ("bar,equity\n")@,
                out@ == header + equity_csv_rows(e, i as int),
            decreases n - i,
        {
            let ghost before = out@;
            ser_u64_into(&mut out, i as u64);
            out.append(",");
            ser_i64_into(&mut out, self.equity_curve[i]);
            out.append("\n");
            proof {
                reveal_strlit(",");
                reveal_strlit("\n");
                assert((",")@ =~= seq![',']);
                assert(("\n")@ =~= seq!['\n']);
                assert(out@ =~= header + equity_csv_rows(e, i as int + 1));
            }
            i = i + 1;
        }
        out
    }
}


/// One CSV row for a completed trade.
pub open spec fn trade_csv_row(i: int, t: TradeV) -> Seq<char> {
    dec_digits(i + 1) + seq![','] + ser_i64(t.entry_timestamp) + seq![','] + ser_i64(t.exit_timestamp) + seq![','] + ser_i64(t.entry_price) + seq![','] + ser_i64(t.exit_price) + seq![','] + ser_i64(t.position_size) + seq![','] + ser_i64(t.pnl) + seq![','] + ser_i64(t.pnl_pct) + seq![','] + ser_i64(crate::trade::duration_days_spec(t)) + seq![','] + ser_bool(t.is_win) + seq!['\n']
}

/// The CSV rows of the first `n` trades.
pub open spec fn trades_csv_rows(s: Seq<TradeV>, n: int) -> Seq<char>
    decreases n,
{
    if n <= 0 {
        Seq::empty()
    } else {
        trades_csv_rows(s, n - 1) + trade_csv_row(n - 1, s[n - 1])
    }
}

/// The flat tabular text of a trade list: a header, then one row per
/// trade.
pub open spec fn trades_csv_spec(s: Seq<TradeV>) -> Seq<char> {
    (
    "trade_num,entry_timestamp,exit_timestamp,entry_price,exit_price,position_size,pnl,pnl_pct,duration_days,is_win\n")@
        + trades_csv_rows(s, s.len() as int)
}

/// Append one trade's CSV row.
fn trade_csv_row_into(out: &mut String, i: usize, t: &Trade)
    requires
        t.wf(),
        i < usize::MAX,
    ensures
        final(out)@ == old(out)@ + trade_csv_row(i as int, t@),
{
    let ghost base = old(out)@;
    let ghost acc = Seq::<char>::empty();
    proof {
        assert(out@ =~= base + acc);
    }
    ser_u64_into(out, i as u64 + 1);
    proof {
        lemma_seq_assoc(base, acc, dec_digits(i as int + 1));
    }
    out.append(",");
    proof {
        reveal_strlit(",");
        assert((",")@ =~= seq![',']);
    }
    proof {
        lemma_seq_assoc(base, (acc + dec_digits(i as int + 1)), seq![',']);
    }
    ser_i64_into(out, t.entry_timestamp);
    proof {
        lemma_seq_assoc(base, ((acc + dec_digits(i as int + 1)) + seq![',']), ser_i64(t.entry_timestamp as int));
    }
    out.append(",");
    proof {
        reveal_strlit(",");
        assert((",")@ =~= seq![',']);
    }
    proof {
        lemma_seq_assoc(base, (((acc + dec_digits(i as int + 1)) + seq![',']) + ser_i64(t.entry_timestamp as int)), seq![',']);
    }
    ser_i64_into(out, t.exit_timestamp);
    proof {
        lemma_seq_assoc(base, ((((acc + dec_digits(i as int + 1)) + seq![',']) + ser_i64(t.entry_timestamp as int)) + seq![',']), ser_i64(t.exit_timestamp as int));
    }
    out.append(",");
    proof {
        reveal_strlit(",");
        assert((",")@ =~= seq![',']);
    }
    proof {
        lemma_seq_assoc(base, (((((acc + dec_digits(i as int + 1)) + seq![',']) + ser_i64(t.entry_timestamp as int)) + seq![',']) + ser_i64(t.exit_timestamp as int)), seq![',']);
    }
    ser_i64_into(out, t.entry_price);
    proof {
        lemma_seq_assoc(base, ((((((acc + dec_digits(i as int + 1)) + seq![',']) + ser_i64(t.entry_timestamp as int)) + seq![',']) + ser_i64(t.exit_timestamp as int)) + seq![',']), ser_i64(t.entry_price as int));
    }
    out.append(",");
    proof {
        reveal_strlit(",");
        assert((",")@ =~= seq![',']);
    }
    proof {
        lemma_seq_assoc(base, (((((((acc + dec_digits(i as int + 1)) + seq![',']) + ser_i64(t.entry_timestamp as int)) + seq![',']) + ser_i64(t.exit_timestamp as int)) + seq![',']) + ser_i64(t.entry_price as int)), seq![',']);
    }
    ser_i64_into(out, t.exit_price);
    proof {
        lemma_seq_assoc(base, ((((((((acc + dec_digits(i as int + 1)) + seq![',']) + ser_i64(t.entry_timestamp as int)) + seq![',']) + ser_i64(t.exit_timestamp as int)) + seq![',']) + ser_i64(t.entry_price as int)) + seq![',']), ser_i64(t.exit_price as int));
    }
    out.append(",");
    proof {
        reveal_strlit(",");
        assert((",")@ =~= seq![',']);
    }
    proof {
        lemma_seq_assoc(base, (((((((((acc + dec_digits(i as int + 1)) + seq![',']) + ser_i64(t.entry_timestamp as int)) + seq![',']) + ser_i64(t.exit_timestamp as int)) + seq![',']) + ser_i64(t.entry_price as int)) + seq![',']) + ser_i64(t.exit_price as int)), seq![',']);
    }
    ser_i64_into(out, t.position_size);
    proof {
        lemma_seq_assoc(base, ((((((((((acc + dec_digits(i as int + 1)) + seq![',']) + ser_i64(t.entry_timestamp as int)) + seq![',']) + ser_i64(t.exit_timestamp as int)) + seq![',']) + ser_i64(t.entry_price as int)) + seq![',']) + ser_i64(t.exit_price as int)) + seq![',']), ser_i64(t.position_size as int));
    }
    out.append(",");
    proof {
        reveal_strlit(",");
        assert((",")@ =~= seq![',']);
    }
    proof {
        lemma_seq_assoc(base, (((((((((((acc + dec_digits(i as int + 1)) + seq![',']) + ser_i64(t.entry_timestamp as int)) + seq![',']) + ser_i64(t.exit_timestamp as int)) + seq![',']) + ser_i64(t.entry_price as int)) + seq![',']) + ser_i64(t.exit_price as int)) + seq![',']) + ser_i64(t.position_size as int)), seq![',']);
    }
    ser_i64_into(out, t.pnl);
    proof {
        lemma_seq_assoc(base, ((((((((((((acc + dec_digits(i as int + 1)) + seq![',']) + ser_i64(t.entry_timestamp as int)) + seq![',']) + ser_i64(t.exit_timestamp as int)) + seq![',']) + ser_i64(t.entry_price as int)) + seq![',']) + ser_i64(t.exit_price as int)) + seq![',']) + ser_i64(t.position_size as int)) + seq![',']), ser_i64(t.pnl as int));
    }
    out.append(",");
    proof {
        reveal_strlit(",");
        assert((",")@ =~= seq![',']);
    }
    proof {
        lemma_seq_assoc(base, (((((((((((((acc + dec_digits(i as int + 1)) + seq![',']) + ser_i64(t.entry_timestamp as int)) + seq![',']) + ser_i64(t.exit_timestamp as int)) + seq![',']) + ser_i64(t.entry_price as int)) + seq![',']) + ser_i64(t.exit_price as int)) + seq![',']) + ser_i64(t.position_size as int)) + seq![',']) + ser_i64(t.pnl as int)), seq![',']);
    }
    ser_i64_into(out, t.pnl_pct);
    proof {
        lemma_seq_assoc(base, ((((((((((((((acc + dec_digits(i as int + 1)) + seq![',']) + ser_i64(t.entry_timestamp as int)) + seq![',']) + ser_i64(t.exit_timestamp as int)) + seq![',']) + ser_i64(t.entry_price as int)) + seq![',']) + ser_i64(t.exit_price as int)) + seq![',']) + ser_i64(t.position_size as int)) + seq![',']) + ser_i64(t.pnl as int)) + seq![',']), ser_i64(t.pnl_pct as int));
    }
    out.append(",");
    proof {
        reveal_strlit(",");
        assert((",")@ =~= seq![',']);
    }
    proof {
        lemma_seq_assoc(base, (((((((((((((((acc + dec_digits(i as int + 1)) + seq![',']) + ser_i64(t.entry_timestamp as int)) + seq![',']) + ser_i64(t.exit_timestamp as int)) + seq![',']) + ser_i64(t.entry_price as int)) + seq![',']) + ser_i64(t.exit_price as int)) + seq![',']) + ser_i64(t.position_size as int)) + seq![',']) + ser_i64(t.pnl as int)) + seq![',']) + ser_i64(t.pnl_pct as int)), seq![',']);
    }
    let dd = t.duration_days();
    ser_i64_into(out, dd);
    proof {
        lemma_seq_assoc(base, ((((((((((((((((acc + dec_digits(i as int + 1)) + seq![',']) + ser_i64(t.entry_timestamp as int)) + seq![',']) + ser_i64(t.exit_timestamp as int)) + seq![',']) + ser_i64(t.entry_price as int)) + seq![',']) + ser_i64(t.exit_price as int)) + seq![',']) + ser_i64(t.position_size as int)) + seq![',']) + ser_i64(t.pnl as int)) + seq![',']) + ser_i64(t.pnl_pct as int)) + seq![',']), ser_i64(crate::trade::duration_days_spec(t@)));
    }
    out.append(",");
    proof {
        reveal_strlit(",");
        assert((",")@ =~= seq![',']);
    }
    proof {
        lemma_seq_assoc(base, (((((((((((((((((acc + dec_digits(i as int + 1)) + seq![',']) + ser_i64(t.entry_timestamp as int)) + seq![',']) + ser_i64(t.exit_timestamp as int)) + seq![',']) + ser_i64(t.entry_price as int)) + seq![',']) + ser_i64(t.exit_price as int)) + seq![',']) + ser_i64(t.position_size as int)) + seq![',']) + ser_i64(t.pnl as int)) + seq![',']) + ser_i64(t.pnl_pct as int)) + seq![',']) + ser_i64(crate::trade::duration_days_spec(t@))), seq![',']);
    }
    ser_bool_into(out, t.is_win);
    proof {
        lemma_seq_assoc(base, ((((((((((((((((((acc + dec_digits(i as int + 1)) + seq![',']) + ser_i64(t.entry_timestamp as int)) + seq![',']) + ser_i64(t.exit_timestamp as int)) + seq![',']) + ser_i64(t.entry_price as int)) + seq![',']) + ser_i64(t.exit_price as int)) + seq![',']) + ser_i64(t.position_size as int)) + seq![',']) + ser_i64(t.pnl as int)) + seq![',']) + ser_i64(t.pnl_pct as int)) + seq![',']) + ser_i64(crate::trade::duration_days_spec(t@))) + seq![',']), ser_bool(t.is_win));
    }
    out.append("\n");
    proof {
        reveal_strlit("\n");
        assert(("\n")@ =~= seq!['\n']);
    }
    proof {
        lemma_seq_assoc(base, (((((((((((((((((((acc + dec_digits(i as int + 1)) + seq![',']) + ser_i64(t.entry_timestamp as int)) + seq![',']) + ser_i64(t.exit_timestamp as int)) + seq![',']) + ser_i64(t.entry_price as int)) + seq![',']) + ser_i64(t.exit_price as int)) + seq![',']) + ser_i64(t.position_size as int)) + seq![',']) + ser_i64(t.pnl as int)) + seq![',']) + ser_i64(t.pnl_pct as int)) + seq![',']) + ser_i64(crate::trade::duration_days_spec(t@))) + seq![',']) + ser_bool(t.is_win)), seq!['\n']);
    }
    proof {
        assert(((((((((((((((((((((acc + dec_digits(i as int + 1)) + seq![',']) + ser_i64(t.entry_timestamp as int)) + seq![',']) + ser_i64(t.exit_timestamp as int)) + seq![',']) + ser_i64(t.entry_price as int)) + seq![',']) + ser_i64(t.exit_price as int)) + seq![',']) + ser_i64(t.position_size as int)) + seq![',']) + ser_i64(t.pnl as int)) + seq![',']) + ser_i64(t.pnl_pct as int)) + seq![',']) + ser_i64(crate::trade::duration_days_spec(t@))) + seq![',']) + ser_bool(t.is_win)) + seq!['\n']) =~= trade_csv_row(i as int, t@));
    }
}

impl BacktestResult {
    /// The trade list as tabular text with stable column names; nothing
    /// when the run closed no trade.
    pub fn trades_csv(&self) -> (r: Option<String>)
        requires
            self.wf(),
            self.trades matches Some(ts) ==> ts@.len() < usize::MAX,
        ensures
            match r {
                Some(text) => self.trades matches Some(ts) && text@ == trades_csv_spec(
                    crate::trade::trades_view(ts@),
                ),
                None => self.trades is None,
            },
    {
        let trades = match &self.trades {
            Some(ts) => ts,
            None => {
                return None;
            },
        };
        let ghost sv = crate::trade::trades_view(trades@);
        let mut out = String::new();
        out.append(
            "trade_num,entry_timestamp,exit_timestamp,entry_price,exit_price,position_size,pnl,pnl_pct,duration_days,is_win\n",
        );
        let ghost header = (
        "trade_num,entry_timestamp,exit_timestamp,entry_price,exit_price,position_size,pnl,pnl_pct,duration_days,is_win\n")@;
        proof {
            assert(out@ =~= header + trades_csv_rows(sv, 0));
        }
        let n = trades.len();
        let mut i: usize = 0;
        while i < n
            invariant
                n == trades@.len(),
                n < usize::MAX,
                sv == crate::trade::trades_view(trades@),
                crate::trade::trades_wf(trades@),
                i <= n,
                out@ == header + trades_csv_rows(sv, i as int),
            decreases n - i,
        {
            let ghost before = out@;
            proof {
                assert(sv[i as int] == trades@[i as int]@);
                assert(trades@[i as int].wf());
            }
            trade_csv_row_into(&mut out, i, &trades[i]);
            proof {
                lemma_seq_assoc(header, trades_csv_rows(sv, i as int), trade_csv_row(
                    i as int,
                    sv[i as int],
                ));
            }
            i = i + 1;
        }
        Some(out)
    }
}


// ---------------------------------------------------------------------
// The optimisation and walk-forward records as flat JSON.
// ---------------------------------------------------------------------

/// One sweep outcome as a JSON object.
pub open spec fn ser_opt(o: OptimizationResultV) -> Seq<char> {
    ("{\"fast_period\":")@ + dec_digits(o.fast_period) + (",\"slow_period\":")@ + dec_digits(
        o.slow_period,
    ) + (",\"total_return\":")@ + ser_i64(o.total_return) + (",\"sharpe_ratio\":")@ + ser_i64(
        o.sharpe_ratio,
    ) + (",\"max_drawdown\":")@ + ser_i64(o.max_drawdown) + (",\"total_trades\":")@ + dec_digits(
        o.total_trades,
    ) + ("}")@
}

/// A comma-separated sweep-outcome list body, front first.
pub open spec fn opts_body(s: Seq<OptimizationResultV>) -> Seq<char>
    decreases s.len(),
{
    if s.len() == 0 {
        Seq::empty()
    } else if s.len() == 1 {
        ser_opt(s[0])
    } else {
        ser_opt(s[0]) + seq![','] + opts_body(s.drop_first())
    }
}

/// A whole sweep's outcomes as a JSON array.
pub open spec fn ser_opt_list(s: Seq<OptimizationResultV>) -> Seq<char> {
    seq!['['] + opts_body(s) + seq![']']
}

/// One walk-forward outcome as a JSON object.
pub open spec fn ser_walk_forward(w: WalkForwardResultV) -> Seq<char> {
    ("{\"train_size\":")@ + dec_digits(w.train_size) + (",\"test_size\":")@ + dec_digits(
        w.test_size,
    ) + (",\"best_fast_period\":")@ + dec_digits(w.best_fast_period) + (",\"best_slow_period\":")@
        + dec_digits(w.best_slow_period) + (",\"in_sample_return\":")@ + ser_i64(
        w.in_sample_return,
    ) + (",\"in_sample_sharpe\":")@ + ser_i64(w.in_sample_sharpe) + (",\"out_of_sample_return\":")@
        + ser_i64(w.out_of_sample_return) + (",\"out_of_sample_sharpe\":")@ + ser_i64(
        w.out_of_sample_sharpe,
    ) + (",\"degradation_return\":")@ + ser_i64(w.degradation_return) + (
    ",\"degradation_sharpe\":")@ + ser_i64(w.degradation_sharpe) + ("}")@
}

/// Append the serialised form of one sweep outcome.
fn ser_opt_into(out: &mut String, o: &OptimizationResult)
    ensures
        final(out)@ == old(out)@ + ser_opt(o@),
{
    let ghost base = old(out)@;
    let ghost acc = Seq::<char>::empty();
    proof {
        assert(out@ =~= base + acc);
    }
    out.append("{\"fast_period\":");
    proof {
        lemma_seq_assoc(base, acc, ("{\"fast_period\":")@);
    }
    ser_u64_into(out, o.fast_period as u64);
    proof {
        lemma_seq_assoc(base, (acc + ("{\"fast_period\":")@), dec_digits(o.fast_period as int));
    }
    out.append(",\"slow_period\":");
    proof {
        lemma_seq_assoc(base, ((acc + ("{\"fast_period\":")@) + dec_digits(o.fast_period as int)), (",\"slow_period\":")@);
    }
    ser_u64_into(out, o.slow_period as u64);
    proof {
        lemma_seq_assoc(base, (((acc + ("{\"fast_period\":")@) + dec_digits(o.fast_period as int)) + (",\"slow_period\":")@), dec_digits(o.slow_period as int));
    }
    out.append(",\"total_return\":");
    proof {
        lemma_seq_assoc(base, ((((acc + ("{\"fast_period\":")@) + dec_digits(o.fast_period as int)) + (",\"slow_period\":")@) + dec_digits(o.slow_period as int)), (",\"total_return\":")@);
    }
    ser_i64_into(out, o.total_return);
    proof {
        lemma_seq_assoc(base, (((((acc + ("{\"fast_period\":")@) + dec_digits(o.fast_period as int)) + (",\"slow_period\":")@) + dec_digits(o.slow_period as int)) + (",\"total_return\":")@), ser_i64(o.total_return as int));
    }
    out.append(",\"sharpe_ratio\":");
    proof {
        lemma_seq_assoc(base, ((((((acc + ("{\"fast_period\":")@) + dec_digits(o.fast_period as int)) + (",\"slow_period\":")@) + dec_digits(o.slow_period as int)) + (",\"total_return\":")@) + ser_i64(o.total_return as int)), (",\"sharpe_ratio\":")@);
    }
    ser_i64_into(out, o.sharpe_ratio);
    proof {
        lemma_seq_assoc(base, (((((((acc + ("{\"fast_period\":")@) + dec_digits(o.fast_period as int)) + (",\"slow_period\":")@) + dec_digits(o.slow_period as int)) + (",\"total_return\":")@) + ser_i64(o.total_return as int)) + (",\"sharpe_ratio\":")@), ser_i64(o.sharpe_ratio as int));
    }
    out.append(",\"max_drawdown\":");
    proof {
        lemma_seq_assoc(base, ((((((((acc + ("{\"fast_period\":")@) + dec_digits(o.fast_period as int)) + (",\"slow_period\":")@) + dec_digits(o.slow_period as int)) + (",\"total_return\":")@) + ser_i64(o.total_return as int)) + (",\"sharpe_ratio\":")@) + ser_i64(o.sharpe_ratio as int)), (",\"max_drawdown\":")@);
    }
    ser_i64_into(out, o.max_drawdown);
    proof {
        lemma_seq_assoc(base, (((((((((acc + ("{\"fast_period\":")@) + dec_digits(o.fast_period as int)) + (",\"slow_period\":")@) + dec_digits(o.slow_period as int)) + (",\"total_return\":")@) + ser_i64(o.total_return as int)) + (",\"sharpe_ratio\":")@) + ser_i64(o.sharpe_ratio as int)) + (",\"max_drawdown\":")@), ser_i64(o.max_drawdown as int));
    }
    out.append(",\"total_trades\":");
    proof {
        lemma_seq_assoc(base, ((((((((((acc + ("{\"fast_period\":")@) + dec_digits(o.fast_period as int)) + (",\"slow_period\":")@) + dec_digits(o.slow_period as int)) + (",\"total_return\":")@) + ser_i64(o.total_return as int)) + (",\"sharpe_ratio\":")@) + ser_i64(o.sharpe_ratio as int)) + (",\"max_drawdown\":")@) + ser_i64(o.max_drawdown as int)), (",\"total_trades\":")@);
    }
    ser_u64_into(out, o.total_trades);
    proof {
        lemma_seq_assoc(base, (((((((((((acc + ("{\"fast_period\":")@) + dec_digits(o.fast_period as int)) + (",\"slow_period\":")@) + dec_digits(o.slow_period as int)) + (",\"total_return\":")@) + ser_i64(o.total_return as int)) + (",\"sharpe_ratio\":")@) + ser_i64(o.sharpe_ratio as int)) + (",\"max_drawdown\":")@) + ser_i64(o.max_drawdown as int)) + (",\"total_trades\":")@), dec_digits(o.total_trades as int));
    }
    out.append("}");
    proof {
        lemma_seq_assoc(base, ((((((((((((acc + ("{\"fast_period\":")@) + dec_digits(o.fast_period as int)) + (",\"slow_period\":")@) + dec_digits(o.slow_period as int)) + (",\"total_return\":")@) + ser_i64(o.total_return as int)) + (",\"sharpe_ratio\":")@) + ser_i64(o.sharpe_ratio as int)) + (",\"max_drawdown\":")@) + ser_i64(o.max_drawdown as int)) + (",\"total_trades\":")@) + dec_digits(o.total_trades as int)), ("}")@);
    }
    proof {
        assert((((((((((((((acc + ("{\"fast_period\":")@) + dec_digits(o.fast_period as int)) + (",\"slow_period\":")@) + dec_digits(o.slow_period as int)) + (",\"total_return\":")@) + ser_i64(o.total_return as int)) + (",\"sharpe_ratio\":")@) + ser_i64(o.sharpe_ratio as int)) + (",\"max_drawdown\":")@) + ser_i64(o.max_drawdown as int)) + (",\"total_trades\":")@) + dec_digits(o.total_trades as int)) + ("}")@) =~= ser_opt(o@));
    }
}

/// Append the serialised form of one walk-forward outcome.
fn ser_walk_forward_into(out: &mut String, w: &WalkForwardResult)
    ensures
        final(out)@ == old(out)@ + ser_walk_forward(w@),
{
    let ghost base = old(out)@;
    let ghost acc = Seq::<char>::empty();
    proof {
        assert(out@ =~= base + acc);
    }
    out.append("{\"train_size\":");
    proof {
        lemma_seq_assoc(base, acc, ("{\"train_size\":")@);
    }
    ser_u64_into(out, w.train_size as u64);
    proof {
        lemma_seq_assoc(base, (acc + ("{\"train_size\":")@), dec_digits(w.train_size as int));
    }
    out.append(",\"test_size\":");
    proof {
        lemma_seq_assoc(base, ((acc + ("{\"train_size\":")@) + dec_digits(w.train_size as int)), (",\"test_size\":")@);
    }
    ser_u64_into(out, w.test_size as u64);
    proof {
        lemma_seq_assoc(base, (((acc + ("{\"train_size\":")@) + dec_digits(w.train_size as int)) + (",\"test_size\":")@), dec_digits(w.test_size as int));
    }
    out.append(",\"best_fast_period\":");
    proof {
        lemma_seq_assoc(base, ((((acc + ("{\"train_size\":")@) + dec_digits(w.train_size as int)) + (",\"test_size\":")@) + dec_digits(w.test_size as int)), (",\"best_fast_period\":")@);
    }
    ser_u64_into(out, w.best_fast_period as u64);
    proof {
        lemma_seq_assoc(base, (((((acc + ("{\"train_size\":")@) + dec_digits(w.train_size as int)) + (",\"test_size\":")@) + dec_digits(w.test_size as int)) + (",\"best_fast_period\":")@), dec_digits(w.best_fast_period as int));
    }
    out.append(",\"best_slow_period\":");
    proof {
        lemma_seq_assoc(base, ((((((acc + ("{\"train_size\":")@) + dec_digits(w.train_size as int)) + (",\"test_size\":")@) + dec_digits(w.test_size as int)) + (",\"best_fast_period\":")@) + dec_digits(w.best_fast_period as int)), (",\"best_slow_period\":")@);
    }
    ser_u64_into(out, w.best_slow_period as u64);
    proof {
        lemma_seq_assoc(base, (((((((acc + ("{\"train_size\":")@) + dec_digits(w.train_size as int)) + (",\"test_size\":")@) + dec_digits(w.test_size as int)) + (",\"best_fast_period\":")@) + dec_digits(w.best_fast_period as int)) + (",\"best_slow_period\":")@), dec_digits(w.best_slow_period as int));
    }
    out.append(",\"in_sample_return\":");
    proof {
        lemma_seq_assoc(base, ((((((((acc + ("{\"train_size\":")@) + dec_digits(w.train_size as int)) + (",\"test_size\":")@) + dec_digits(w.test_size as int)) + (",\"best_fast_period\":")@) + dec_digits(w.best_fast_period as int)) + (",\"best_slow_period\":")@) + dec_digits(w.best_slow_period as int)), (",\"in_sample_return\":")@);
    }
    ser_i64_into(out, w.in_sample_return);
    proof {
        lemma_seq_assoc(base, (((((((((acc + ("{\"train_size\":")@) + dec_digits(w.train_size as int)) + (",\"test_size\":")@) + dec_digits(w.test_size as int)) + (",\"best_fast_period\":")@) + dec_digits(w.best_fast_period as int)) + (",\"best_slow_period\":")@) + dec_digits(w.best_slow_period as int)) + (",\"in_sample_return\":")@), ser_i64(w.in_sample_return as int));
    }
    out.append(",\"in_sample_sharpe\":");
    proof {
        lemma_seq_assoc(base, ((((((((((acc + ("{\"train_size\":")@) + dec_digits(w.train_size as int)) + (",\"test_size\":")@) + dec_digits(w.test_size as int)) + (",\"best_fast_period\":")@) + dec_digits(w.best_fast_period as int)) + (",\"best_slow_period\":")@) + dec_digits(w.best_slow_period as int)) + (",\"in_sample_return\":")@) + ser_i64(w.in_sample_return as int)), (",\"in_sample_sharpe\":")@);
    }
    ser_i64_into(out, w.in_sample_sharpe);
    proof {
        lemma_seq_assoc(base, (((((((((((acc + ("{\"train_size\":")@) + dec_digits(w.train_size as int)) + (",\"test_size\":")@) + dec_digits(w.test_size as int)) + (",\"best_fast_period\":")@) + dec_digits(w.best_fast_period as int)) + (",\"best_slow_period\":")@) + dec_digits(w.best_slow_period as int)) + (",\"in_sample_return\":")@) + ser_i64(w.in_sample_return as int)) + (",\"in_sample_sharpe\":")@), ser_i64(w.in_sample_sharpe as int));
    }
    out.append(",\"out_of_sample_return\":");
    proof {
        lemma_seq_assoc(base, ((((((((((((acc + ("{\"train_size\":")@) + dec_digits(w.train_size as int)) + (",\"test_size\":")@) + dec_digits(w.test_size as int)) + (",\"best_fast_period\":")@) + dec_digits(w.best_fast_period as int)) + (",\"best_slow_period\":")@) + dec_digits(w.best_slow_period as int)) + (",\"in_sample_return\":")@) + ser_i64(w.in_sample_return as int)) + (",\"in_sample_sharpe\":")@) + ser_i64(w.in_sample_sharpe as int)), (",\"out_of_sample_return\":")@);
    }
    ser_i64_into(out, w.out_of_sample_return);
    proof {
        lemma_seq_assoc(base, (((((((((((((acc + ("{\"train_size\":")@) + dec_digits(w.train_size as int)) + (",\"test_size\":")@) + dec_digits(w.test_size as int)) + (",\"best_fast_period\":")@) + dec_digits(w.best_fast_period as int)) + (",\"best_slow_period\":")@) + dec_digits(w.best_slow_period as int)) + (",\"in_sample_return\":")@) + ser_i64(w.in_sample_return as int)) + (",\"in_sample_sharpe\":")@) + ser_i64(w.in_sample_sharpe as int)) + (",\"out_of_sample_return\":")@), ser_i64(w.out_of_sample_return as int));
    }
    out.append(",\"out_of_sample_sharpe\":");
    proof {
        lemma_seq_assoc(base, ((((((((((((((acc + ("{\"train_size\":")@) + dec_digits(w.train_size as int)) + (",\"test_size\":")@) + dec_digits(w.test_size as int)) + (",\"best_fast_period\":")@) + dec_digits(w.best_fast_period as int)) + (",\"best_slow_period\":")@) + dec_digits(w.best_slow_period as int)) + (",\"in_sample_return\":")@) + ser_i64(w.in_sample_return as int)) + (",\"in_sample_sharpe\":")@) + ser_i64(w.in_sample_sharpe as int)) + (",\"out_of_sample_return\":")@) + ser_i64(w.out_of_sample_return as int)), (",\"out_of_sample_sharpe\":")@);
    }
    ser_i64_into(out, w.out_of_sample_sharpe);
    proof {
        lemma_seq_assoc(base, (((((((((((((((acc + ("{\"train_size\":")@) + dec_digits(w.train_size as int)) + (",\"test_size\":")@) + dec_digits(w.test_size as int)) + (",\"best_fast_period\":")@) + dec_digits(w.best_fast_period as int)) + (",\"best_slow_period\":")@) + dec_digits(w.best_slow_period as int)) + (",\"in_sample_return\":")@) + ser_i64(w.in_sample_return as int)) + (",\"in_sample_sharpe\":")@) + ser_i64(w.in_sample_sharpe as int)) + (",\"out_of_sample_return\":")@) + ser_i64(w.out_of_sample_return as int)) + (",\"out_of_sample_sharpe\":")@), ser_i64(w.out_of_sample_sharpe as int));
    }
    out.append(",\"degradation_return\":");
    proof {
        lemma_seq_assoc(base, ((((((((((((((((acc + ("{\"train_size\":")@) + dec_digits(w.train_size as int)) + (",\"test_size\":")@) + dec_digits(w.test_size as int)) + (",\"best_fast_period\":")@) + dec_digits(w.best_fast_period as int)) + (",\"best_slow_period\":")@) + dec_digits(w.best_slow_period as int)) + (",\"in_sample_return\":")@) + ser_i64(w.in_sample_return as int)) + (",\"in_sample_sharpe\":")@) + ser_i64(w.in_sample_sharpe as int)) + (",\"out_of_sample_return\":")@) + ser_i64(w.out_of_sample_return as int)) + (",\"out_of_sample_sharpe\":")@) + ser_i64(w.out_of_sample_sharpe as int)), (",\"degradation_return\":")@);
    }
    ser_i64_into(out, w.degradation_return);
    proof {
        lemma_seq_assoc(base, (((((((((((((((((acc + ("{\"train_size\":")@) + dec_digits(w.train_size as int)) + (",\"test_size\":")@) + dec_digits(w.test_size as int)) + (",\"best_fast_period\":")@) + dec_digits(w.best_fast_period as int)) + (",\"best_slow_period\":")@) + dec_digits(w.best_slow_period as int)) + (",\"in_sample_return\":")@) + ser_i64(w.in_sample_return as int)) + (",\"in_sample_sharpe\":")@) + ser_i64(w.in_sample_sharpe as int)) + (",\"out_of_sample_return\":")@) + ser_i64(w.out_of_sample_return as int)) + (",\"out_of_sample_sharpe\":")@) + ser_i64(w.out_of_sample_sharpe as int)) + (",\"degradation_return\":")@), ser_i64(w.degradation_return as int));
    }
    out.append(",\"degradation_sharpe\":");
    proof {
        lemma_seq_assoc(base, ((((((((((((((((((acc + ("{\"train_size\":")@) + dec_digits(w.train_size as int)) + (",\"test_size\":")@) + dec_digits(w.test_size as int)) + (",\"best_fast_period\":")@) + dec_digits(w.best_fast_period as int)) + (",\"best_slow_period\":")@) + dec_digits(w.best_slow_period as int)) + (",\"in_sample_return\":")@) + ser_i64(w.in_sample_return as int)) + (",\"in_sample_sharpe\":")@) + ser_i64(w.in_sample_sharpe as int)) + (",\"out_of_sample_return\":")@) + ser_i64(w.out_of_sample_return as int)) + (",\"out_of_sample_sharpe\":")@) + ser_i64(w.out_of_sample_sharpe as int)) + (",\"degradation_return\":")@) + ser_i64(w.degradation_return as int)), (",\"degradation_sharpe\":")@);
    }
    ser_i64_into(out, w.degradation_sharpe);
    proof {
        lemma_seq_assoc(base, (((((((((((((((((((acc + ("{\"train_size\":")@) + dec_digits(w.train_size as int)) + (",\"test_size\":")@) + dec_digits(w.test_size as int)) + (",\"best_fast_period\":")@) + dec_digits(w.best_fast_period as int)) + (",\"best_slow_period\":")@) + dec_digits(w.best_slow_period as int)) + (",\"in_sample_return\":")@) + ser_i64(w.in_sample_return as int)) + (",\"in_sample_sharpe\":")@) + ser_i64(w.in_sample_sharpe as int)) + (",\"out_of_sample_return\":")@) + ser_i64(w.out_of_sample_return as int)) + (",\"out_of_sample_sharpe\":")@) + ser_i64(w.out_of_sample_sharpe as int)) + (",\"degradation_return\":")@) + ser_i64(w.degradation_return as int)) + (",\"degradation_sharpe\":")@), ser_i64(w.degradation_sharpe as int));
    }
    out.append("}");
    proof {
        lemma_seq_assoc(base, ((((((((((((((((((((acc + ("{\"train_size\":")@) + dec_digits(w.train_size as int)) + (",\"test_size\":")@) + dec_digits(w.test_size as int)) + (",\"best_fast_period\":")@) + dec_digits(w.best_fast_period as int)) + (",\"best_slow_period\":")@) + dec_digits(w.best_slow_period as int)) + (",\"in_sample_return\":")@) + ser_i64(w.in_sample_return as int)) + (",\"in_sample_sharpe\":")@) + ser_i64(w.in_sample_sharpe as int)) + (",\"out_of_sample_return\":")@) + ser_i64(w.out_of_sample_return as int)) + (",\"out_of_sample_sharpe\":")@) + ser_i64(w.out_of_sample_sharpe as int)) + (",\"degradation_return\":")@) + ser_i64(w.degradation_return as int)) + (",\"degradation_sharpe\":")@) + ser_i64(w.degradation_sharpe as int)), ("}")@);
    }
    proof {
        assert((((((((((((((((((((((acc + ("{\"train_size\":")@) + dec_digits(w.train_size as int)) + (",\"test_size\":")@) + dec_digits(w.test_size as int)) + (",\"best_fast_period\":")@) + dec_digits(w.best_fast_period as int)) + (",\"best_slow_period\":")@) + dec_digits(w.best_slow_period as int)) + (",\"in_sample_return\":")@) + ser_i64(w.in_sample_return as int)) + (",\"in_sample_sharpe\":")@) + ser_i64(w.in_sample_sharpe as int)) + (",\"out_of_sample_return\":")@) + ser_i64(w.out_of_sample_return as int)) + (",\"out_of_sample_sharpe\":")@) + ser_i64(w.out_of_sample_sharpe as int)) + (",\"degradation_return\":")@) + ser_i64(w.degradation_return as int)) + (",\"degradation_sharpe\":")@) + ser_i64(w.degradation_sharpe as int)) + ("}")@) =~= ser_walk_forward(w@));
    }
}

/// Growing a non-empty outcome-list body appends a comma and the new
/// outcome.
proof fn lemma_opts_body_snoc(u: Seq<OptimizationResultV>, v: OptimizationResultV)
    requires
        u.len() >= 1,
    ensures
        opts_body(u.push(v)) == opts_body(u) + (seq![','] + ser_opt(v)),
    decreases u.len(),
{
    if u.len() == 1 {
        assert(u.push(v).drop_first() =~= seq![v]);
        assert(opts_body(seq![v]) == ser_opt(v));
        assert(opts_body(u.push(v)) == ser_opt(u[0]) + seq![','] + opts_body(seq![v]));
        lemma_seq_assoc(ser_opt(u[0]), seq![','], ser_opt(v));
        assert(opts_body(u) == ser_opt(u[0]));
    } else {
        lemma_opts_body_snoc(u.drop_first(), v);
        assert(u.push(v).drop_first() =~= u.drop_first().push(v));
        assert(opts_body(u.push(v)) == ser_opt(u[0]) + seq![','] + opts_body(
            u.drop_first().push(v),
        ));
        lemma_seq_assoc(
            ser_opt(u[0]) + seq![','],
            opts_body(u.drop_first()),
            seq![','] + ser_opt(v),
        );
    }
}

impl OptimizationResult {
    /// This outcome as JSON text with stable field names and order.
    pub fn to_json(&self) -> (r: String)
        ensures
            r@ == ser_opt(self@),
    {
        let mut out = String::new();
        ser_opt_into(&mut out, self);
        proof {
            assert(Seq::<char>::empty() + ser_opt(self@) =~= ser_opt(self@));
        }
        out
    }
}

/// A whole sweep's outcomes as JSON text, in grid order.
pub fn optimization_results_to_json(results: &Vec<OptimizationResult>) -> (r: String)
    ensures
        r@ == ser_opt_list(crate::sweep::opts_view(results@)),
{
    let ghost sv = crate::sweep::opts_view(results@);
    let mut out = String::new();
    let ghost base = out@;
    out.append("[");
    proof {
        reveal_strlit("[");
        assert(("[")@ =~= seq!['[']);
        assert(base =~= Seq::<char>::empty());
    }
    let n = results.len();
    let mut i: usize = 0;
    while i < n
        invariant
            n == results@.len(),
            sv == crate::sweep::opts_view(results@),
            i <= n,
            out@ == base + (seq!['['] + opts_body(sv.take(i as int))),
        decreases n - i,
    {
        let ghost before = out@;
        proof {
            assert(sv[i as int] == results@[i as int]@);
        }
        if i > 0 {
            out.append(",");
            ser_opt_into(&mut out, &results[i]);
            proof {
                reveal_strlit(",");
                assert((",")@ =~= seq![',']);
                lemma_opts_body_snoc(sv.take(i as int), sv[i as int]);
                assert(sv.take(i as int).push(sv[i as int]) =~= sv.take(i as int + 1));
                lemma_seq_assoc(before, seq![','], ser_opt(sv[i as int]));
                assert(seq![','] + ser_opt(sv[i as int]) =~= (",")@ + ser_opt(results@[i as int]@));
                assert(out@ =~= base + (seq!['['] + opts_body(sv.take(i as int + 1)))) by {
                    lemma_seq_assoc(
                        base + seq!['['],
                        opts_body(sv.take(i as int)),
                        seq![','] + ser_opt(sv[i as int]),
                    );
                    lemma_seq_assoc(base, seq!['['], opts_body(sv.take(i as int)));
                    lemma_seq_assoc(base, seq!['['], opts_body(sv.take(i as int + 1)));
                }
            }
        } else {
            ser_opt_into(&mut out, &results[i]);
            proof {
                assert(sv.take(1int).len() == 1);
                assert(opts_body(sv.take(1int)) == ser_opt(sv[0]));
                assert(out@ =~= base + (seq!['['] + opts_body(sv.take(1int))));
            }
        }
        i = i + 1;
    }
    out.append("]");
    proof {
        reveal_strlit("]");
        assert(("]")@ =~= seq![']']);
        assert(sv.take(n as int) =~= sv);
        assert(out@ =~= ser_opt_list(sv));
    }
    out
}

impl WalkForwardResult {
    /// This outcome as JSON text with stable field names and order.
    pub fn to_json(&self) -> (r: String)
        ensures
            r@ == ser_walk_forward(self@),
    {
        let mut out = String::new();
        ser_walk_forward_into(&mut out, self);
        proof {
            assert(Seq::<char>::empty() + ser_walk_forward(self@) =~= ser_walk_forward(self@));
        }
        out
    }
}

} // verus!
