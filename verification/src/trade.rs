//! Completed trades and their aggregate statistics.

use vstd::prelude::*;
use crate::fixed::{
    abs_fx, abs_i, add_fx, clip, clip_i128, div_floor_i128, div_fx, floor_div, fx_add, fx_div, fx_mul,
    fx_sub, in_range, lemma_div_bounds, max_fx, max_i, mul_fx, sub_fx, CAP, FP,
};

verus! {

/// A completed round trip as mathematical values.
pub ghost struct TradeV {
    pub entry_timestamp: int,
    pub exit_timestamp: int,
    pub entry_price: int,
    pub exit_price: int,
    pub position_size: int,
    pub pnl: int,
    pub pnl_pct: int,
    pub duration_bars: int,
    pub is_win: bool,
}

/// One completed trade, created at exit.
#[derive(Clone, Copy, Debug)]
pub struct Trade {
    pub entry_timestamp: i64,
    pub exit_timestamp: i64,
    pub entry_price: i64,
    pub exit_price: i64,
    pub position_size: i64,
    pub pnl: i64,
    pub pnl_pct: i64,
    pub duration_bars: usize,
    pub is_win: bool,
}

impl View for Trade {
    type V = TradeV;

    open spec fn view(&self) -> TradeV {
        TradeV {
            entry_timestamp: self.entry_timestamp as int,
            exit_timestamp: self.exit_timestamp as int,
            entry_price: self.entry_price as int,
            exit_price: self.exit_price as int,
            position_size: self.position_size as int,
            pnl: self.pnl as int,
            pnl_pct: self.pnl_pct as int,
            duration_bars: self.duration_bars as int,
            is_win: self.is_win,
        }
    }
}

/// The trade produced by closing a position:
/// `pnl = (exit - entry) * size`, `pnl_pct = (exit - entry) / entry`,
/// a win iff the profit is strictly positive, duration still to be set.
pub open spec fn trade_new_spec(
    entry_timestamp: int,
    exit_timestamp: int,
    entry_price: int,
    exit_price: int,
    position_size: int,
) -> TradeV {
    let pnl = fx_mul(fx_sub(exit_price, entry_price), position_size);
    TradeV {
        entry_timestamp,
        exit_timestamp,
        entry_price,
        exit_price,
        position_size,
        pnl,
        pnl_pct: fx_div(fx_sub(exit_price, entry_price), entry_price),
        duration_bars: 0,
        is_win: pnl > 0,
    }
}

impl Trade {
    pub open spec fn wf(self) -> bool {
        &&& in_range(self.entry_timestamp as int)
        &&& in_range(self.exit_timestamp as int)
        &&& in_range(self.entry_price as int)
        &&& in_range(self.exit_price as int)
        &&& in_range(self.position_size as int)
        &&& in_range(self.pnl as int)
        &&& in_range(self.pnl_pct as int)
    }

    pub fn new(
        entry_timestamp: i64,
        exit_timestamp: i64,
        entry_price: i64,
        exit_price: i64,
        position_size: i64,
    ) -> (r: Trade)
        requires
            in_range(entry_timestamp as int),
            in_range(exit_timestamp as int),
            in_range(entry_price as int),
            in_range(exit_price as int),
            in_range(position_size as int),
        ensures
            r@ == trade_new_spec(
                entry_timestamp as int,
                exit_timestamp as int,
                entry_price as int,
                exit_price as int,
                position_size as int,
            ),
            r.wf(),
    {
        let pnl = mul_fx(sub_fx(exit_price, entry_price), position_size);
        let pnl_pct = div_fx(sub_fx(exit_price, entry_price), entry_price);
        Trade {
            entry_timestamp,
            exit_timestamp,
            entry_price,
            exit_price,
            position_size,
            pnl,
            pnl_pct,
            duration_bars: 0,
            is_win: pnl > 0,
        }
    }

    /// The trade's duration in days, fixed point, from millisecond
    /// timestamps.
    pub fn duration_days(&self) -> (r: i64)
        requires
            self.wf(),
        ensures
            r as int == duration_days_spec(self@),
            in_range(r as int),
    {
        let diff: i128 = self.exit_timestamp as i128 - self.entry_timestamp as i128;
        proof {
            assert(-(2 * (CAP as int) * (FP as int)) <= (diff as int) * (FP as int) <= 2 * (
            CAP as int) * (FP as int)) by (nonlinear_arith)
                requires
                    -(2 * (CAP as int)) <= diff as int <= 2 * (CAP as int),
            ;
        }
        let q = div_floor_i128(diff * FP as i128, 86_400_000);
        clip_i128(q)
    }
}

/// A trade's duration in days: `(exit - entry) / (ms per day)`, fixed
/// point.
pub open spec fn duration_days_spec(t: TradeV) -> int {
    clip(floor_div((t.exit_timestamp - t.entry_timestamp) * (FP as int), 86_400_000))
}

/// One-pass accumulator over a trade list.
pub ghost struct StatsAccV {
    pub wins: int,
    pub sum_wins: int,
    pub sum_losses: int,
    pub largest_win: int,
    pub largest_loss: int,
    pub total_pnl: int,
    pub cur_win_streak: int,
    pub cur_loss_streak: int,
    pub longest_win_streak: int,
    pub longest_loss_streak: int,
}

pub open spec fn acc_init() -> StatsAccV {
    StatsAccV {
        wins: 0,
        sum_wins: 0,
        sum_losses: 0,
        largest_win: 0,
        largest_loss: 0,
        total_pnl: 0,
        cur_win_streak: 0,
        cur_loss_streak: 0,
        longest_win_streak: 0,
        longest_loss_streak: 0,
    }
}

/// Fold one trade into the accumulator; losses contribute their magnitude.
pub open spec fn acc_step(a: StatsAccV, t: TradeV) -> StatsAccV {
    if t.is_win {
        StatsAccV {
            wins: a.wins + 1,
            sum_wins: fx_add(a.sum_wins, t.pnl),
            sum_losses: a.sum_losses,
            largest_win: max_i(a.largest_win, t.pnl),
            largest_loss: a.largest_loss,
            total_pnl: fx_add(a.total_pnl, t.pnl),
            cur_win_streak: a.cur_win_streak + 1,
            cur_loss_streak: 0,
            longest_win_streak: max_i(a.longest_win_streak, a.cur_win_streak + 1),
            longest_loss_streak: a.longest_loss_streak,
        }
    } else {
        StatsAccV {
            wins: a.wins,
            sum_wins: a.sum_wins,
            sum_losses: fx_add(a.sum_losses, abs_i(t.pnl)),
            largest_win: a.largest_win,
            largest_loss: max_i(a.largest_loss, abs_i(t.pnl)),
            total_pnl: fx_add(a.total_pnl, t.pnl),
            cur_win_streak: 0,
            cur_loss_streak: a.cur_loss_streak + 1,
            longest_win_streak: a.longest_win_streak,
            longest_loss_streak: max_i(a.longest_loss_streak, a.cur_loss_streak + 1),
        }
    }
}

/// The accumulator over a whole trade list.
pub open spec fn stats_fold(s: Seq<TradeV>) -> StatsAccV
    decreases s.len(),
{
    if s.len() == 0 {
        acc_init()
    } else {
        acc_step(stats_fold(s.drop_last()), s.last())
    }
}

/// Aggregate trade statistics as mathematical values.
pub ghost struct TradeStatsV {
    pub total_trades: int,
    pub winning_trades: int,
    pub losing_trades: int,
    pub win_rate: int,
    pub profit_factor: int,
    pub avg_win: int,
    pub avg_loss: int,
    pub largest_win: int,
    pub largest_loss: int,
    pub avg_trade: int,
    pub expectancy: int,
    pub longest_win_streak: int,
    pub longest_loss_streak: int,
}

pub open spec fn trade_stats_zero() -> TradeStatsV {
    TradeStatsV {
        total_trades: 0,
        winning_trades: 0,
        losing_trades: 0,
        win_rate: 0,
        profit_factor: 0,
        avg_win: 0,
        avg_loss: 0,
        largest_win: 0,
        largest_loss: 0,
        avg_trade: 0,
        expectancy: 0,
        longest_win_streak: 0,
        longest_loss_streak: 0,
    }
}

/// The statistics of a trade list: win rate and profit factor as
/// fixed-point ratios, the profit factor capped at a 999 sentinel when
/// there are no losses, expectancy
/// `win_rate * avg_win - (1 - win_rate) * avg_loss`.
pub open spec fn trade_stats_spec(s: Seq<TradeV>) -> TradeStatsV {
    if s.len() == 0 {
        trade_stats_zero()
    } else {
        let a = stats_fold(s);
        let total = s.len() as int;
        let losses = total - a.wins;
        let win_rate = fx_div(a.wins, total);
        let profit_factor = if a.sum_losses > 0 {
            fx_div(a.sum_wins, a.sum_losses)
        } else if a.sum_wins > 0 {
            999 * (FP as int)
        } else {
            0
        };
        let avg_win = if a.wins > 0 {
            floor_div(a.sum_wins, a.wins)
        } else {
            0
        };
        let avg_loss = if losses > 0 {
            floor_div(a.sum_losses, losses)
        } else {
            0
        };
        TradeStatsV {
            total_trades: total,
            winning_trades: a.wins,
            losing_trades: losses,
            win_rate,
            profit_factor,
            avg_win,
            avg_loss,
            largest_win: a.largest_win,
            largest_loss: a.largest_loss,
            avg_trade: floor_div(a.total_pnl, total),
            expectancy: fx_sub(
                fx_mul(win_rate, avg_win),
                fx_mul(fx_sub(FP as int, win_rate), avg_loss),
            ),
            longest_win_streak: a.longest_win_streak,
            longest_loss_streak: a.longest_loss_streak,
        }
    }
}

/// Aggregate statistics over a backtest's trade list.
#[derive(Clone, Copy, Debug)]
pub struct TradeStats {
    pub total_trades: usize,
    pub winning_trades: usize,
    pub losing_trades: usize,
    pub win_rate: i64,
    pub profit_factor: i64,
    pub avg_win: i64,
    pub avg_loss: i64,
    pub largest_win: i64,
    pub largest_loss: i64,
    pub avg_trade: i64,
    pub expectancy: i64,
    pub longest_win_streak: usize,
    pub longest_loss_streak: usize,
}

impl View for TradeStats {
    type V = TradeStatsV;

    open spec fn view(&self) -> TradeStatsV {
        TradeStatsV {
            total_trades: self.total_trades as int,
            winning_trades: self.winning_trades as int,
            losing_trades: self.losing_trades as int,
            win_rate: self.win_rate as int,
            profit_factor: self.profit_factor as int,
            avg_win: self.avg_win as int,
            avg_loss: self.avg_loss as int,
            largest_win: self.largest_win as int,
            largest_loss: self.largest_loss as int,
            avg_trade: self.avg_trade as int,
            expectancy: self.expectancy as int,
            longest_win_streak: self.longest_win_streak as int,
            longest_loss_streak: self.longest_loss_streak as int,
        }
    }
}

impl Default for TradeStats {
    fn default() -> (r: Self)
        ensures
            r@ == trade_stats_zero(),
    {
        TradeStats {
            total_trades: 0,
            winning_trades: 0,
            losing_trades: 0,
            win_rate: 0,
            profit_factor: 0,
            avg_win: 0,
            avg_loss: 0,
            largest_win: 0,
            largest_loss: 0,
            avg_trade: 0,
            expectancy: 0,
            longest_win_streak: 0,
            longest_loss_streak: 0,
        }
    }
}

/// The view of a trade list.
pub open spec fn trades_view(s: Seq<Trade>) -> Seq<TradeV> {
    s.map_values(|t: Trade| t@)
}

/// All trades of a list are well-formed.
pub open spec fn trades_wf(s: Seq<Trade>) -> bool {
    forall|i: int| 0 <= i < s.len() ==> (#[trigger] s[i]).wf()
}

impl TradeStats {
    /// Compute aggregate statistics over a full trade list in one pass.
    pub fn from_trades(trades: &Vec<Trade>) -> (r: TradeStats)
        requires
            trades_wf(trades@),
            trades@.len() <= CAP as int,
        ensures
            r@ == trade_stats_spec(trades_view(trades@)),
    {
        let n = trades.len();
        if n == 0 {
            return TradeStats::default();
        }
        let mut wins: usize = 0;
        let mut sum_wins: i64 = 0;
        let mut sum_losses: i64 = 0;
        let mut largest_win: i64 = 0;
        let mut largest_loss: i64 = 0;
        let mut total_pnl: i64 = 0;
        let mut cur_win_streak: usize = 0;
        let mut cur_loss_streak: usize = 0;
        let mut longest_win_streak: usize = 0;
        let mut longest_loss_streak: usize = 0;
        let mut i: usize = 0;
        while i < n
            invariant
                trades_wf(trades@),
                n == trades@.len(),
                n <= CAP as int,
                i <= n,
                wins as int == stats_fold(trades_view(trades@).take(i as int)).wins,
                sum_wins as int == stats_fold(trades_view(trades@).take(i as int)).sum_wins,
                sum_losses as int == stats_fold(trades_view(trades@).take(i as int)).sum_losses,
                largest_win as int == stats_fold(trades_view(trades@).take(i as int)).largest_win,
                largest_loss as int == stats_fold(trades_view(trades@).take(i as int)).largest_loss,
                total_pnl as int == stats_fold(trades_view(trades@).take(i as int)).total_pnl,
                cur_win_streak as int == stats_fold(
                    trades_view(trades@).take(i as int),
                ).cur_win_streak,
                cur_loss_streak as int == stats_fold(
                    trades_view(trades@).take(i as int),
                ).cur_loss_streak,
                longest_win_streak as int == stats_fold(
                    trades_view(trades@).take(i as int),
                ).longest_win_streak,
                longest_loss_streak as int == stats_fold(
                    trades_view(trades@).take(i as int),
                ).longest_loss_streak,
                wins <= i,
                cur_win_streak <= i,
                cur_loss_streak <= i,
                longest_win_streak <= i,
                longest_loss_streak <= i,
                in_range(sum_wins as int),
                in_range(sum_losses as int),
                in_range(largest_win as int),
                in_range(largest_loss as int),
                in_range(total_pnl as int),
            decreases n - i,
        {
            let t = trades[i];
            proof {
                assert(trades_view(trades@).take(i as int + 1).drop_last() =~= trades_view(
                    trades@,
                ).take(i as int));
                assert(trades_view(trades@).take(i as int + 1).last() == trades@[i as int]@);
            }
            if t.is_win {
                wins = wins + 1;
                sum_wins = add_fx(sum_wins, t.pnl);
                largest_win = max_fx(largest_win, t.pnl);
                total_pnl = add_fx(total_pnl, t.pnl);
                cur_win_streak = cur_win_streak + 1;
                cur_loss_streak = 0;
                if cur_win_streak > longest_win_streak {
                    longest_win_streak = cur_win_streak;
                }
            } else {
                let mag = abs_fx(t.pnl);
                sum_losses = add_fx(sum_losses, mag);
                largest_loss = max_fx(largest_loss, mag);
                total_pnl = add_fx(total_pnl, t.pnl);
                cur_loss_streak = cur_loss_streak + 1;
                cur_win_streak = 0;
                if cur_loss_streak > longest_loss_streak {
                    longest_loss_streak = cur_loss_streak;
                }
            }
            i = i + 1;
        }
        proof {
            assert(trades_view(trades@).take(n as int) =~= trades_view(trades@));
        }
        let losing = n - wins;
        let win_rate = div_fx(wins as i64, n as i64);
        let profit_factor: i64 = if sum_losses > 0 {
            div_fx(sum_wins, sum_losses)
        } else if sum_wins > 0 {
            99_900_000_000i64
        } else {
            0
        };
        let avg_win: i64 = if wins > 0 {
            proof {
                lemma_div_bounds(sum_wins as int, wins as int, CAP as int);
            }
            div_floor_i128(sum_wins as i128, wins as i128) as i64
        } else {
            0
        };
        let avg_loss: i64 = if losing > 0 {
            proof {
                lemma_div_bounds(sum_losses as int, losing as int, CAP as int);
            }
            div_floor_i128(sum_losses as i128, losing as i128) as i64
        } else {
            0
        };
        proof {
            lemma_div_bounds(total_pnl as int, n as int, CAP as int);
        }
        let avg_trade: i64 = div_floor_i128(total_pnl as i128, n as i128) as i64;
        let expectancy = sub_fx(
            mul_fx(win_rate, avg_win),
            mul_fx(sub_fx(FP, win_rate), avg_loss),
        );
        TradeStats {
            total_trades: n,
            winning_trades: wins,
            losing_trades: losing,
            win_rate,
            profit_factor,
            avg_win,
            avg_loss,
            largest_win,
            largest_loss,
            avg_trade,
            expectancy,
            longest_win_streak,
            longest_loss_streak,
        }
    }
}

} // verus!
