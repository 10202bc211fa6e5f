//! Walk-forward validation: optimise on a training prefix, validate on the
//! held-out suffix, report degradation.

use vstd::prelude::*;
use crate::engine::{backtest_result_spec, BacktestEngine};
use crate::fixed::{
    abs_fx, abs_i, div_floor_i128, div_fx, floor_div, fx_div, fx_mul, fx_sub, in_range, mul_fx,
    sub_fx, CAP, FP,
};
use crate::stops::StopLossMethod;
use crate::strategies::{SMACrossover, Strategy};
use crate::sweep::{
    best_sharpe_idx, combo_result_spec, combos_spec, filtered_pairs, opts_view, pairs_one,
    stepped_range, sweep_cfg, sma_signals_spec, OptimizationResult, OptimizationResultV,
    ParameterSweep,
};
use crate::types::{bars_wf, ExecutionModel, OHLCV};

verus! {

broadcast use crate::fixed::lemma_clip_in_range;

/// The outcome of one walk-forward validation as mathematical values.
pub ghost struct WalkForwardResultV {
    pub train_size: int,
    pub test_size: int,
    pub best_fast_period: int,
    pub best_slow_period: int,
    pub in_sample_return: int,
    pub in_sample_sharpe: int,
    pub out_of_sample_return: int,
    pub out_of_sample_sharpe: int,
    pub degradation_return: int,
    pub degradation_sharpe: int,
}

/// In-sample versus out-of-sample comparison of one optimisation.
#[derive(Clone, Copy, Debug)]
pub struct WalkForwardResult {
    pub train_size: usize,
    pub test_size: usize,
    pub best_fast_period: usize,
    pub best_slow_period: usize,
    pub in_sample_return: i64,
    pub in_sample_sharpe: i64,
    pub out_of_sample_return: i64,
    pub out_of_sample_sharpe: i64,
    pub degradation_return: i64,
    pub degradation_sharpe: i64,
}

impl View for WalkForwardResult {
    type V = WalkForwardResultV;

    open spec fn view(&self) -> WalkForwardResultV {
        WalkForwardResultV {
            train_size: self.train_size as int,
            test_size: self.test_size as int,
            best_fast_period: self.best_fast_period as int,
            best_slow_period: self.best_slow_period as int,
            in_sample_return: self.in_sample_return as int,
            in_sample_sharpe: self.in_sample_sharpe as int,
            out_of_sample_return: self.out_of_sample_return as int,
            out_of_sample_sharpe: self.out_of_sample_sharpe as int,
            degradation_return: self.degradation_return as int,
            degradation_sharpe: self.degradation_sharpe as int,
        }
    }
}

/// The split point: `floor(len * train_ratio)` for a fixed-point ratio.
pub open spec fn walk_split(len: int, train_ratio: int) -> int {
    floor_div(len * train_ratio, FP as int)
}

/// Degradation of a metric from in-sample to out-of-sample, as a
/// percentage: `(in - out) / |in| * 100`.
pub open spec fn degradation_spec(in_sample: int, out_of_sample: int) -> int {
    fx_mul(fx_div(fx_sub(in_sample, out_of_sample), abs_i(in_sample)), 10_000_000_000)
}

/// The default optimisation grid of a walk-forward run: fast periods 20
/// to 100, slow periods 50 to 200, both in steps of 10.
pub open spec fn default_grid() -> Seq<(int, int)> {
    combos_spec(20, 100, 50, 200, 10)
}

/// The whole walk-forward outcome: optimise on the prefix, pick the
/// Sharpe-best parameters, validate them on the suffix.
pub open spec fn walk_forward_spec(
    bars: Seq<OHLCV>,
    initial_capital: int,
    em: ExecutionModel,
    train_ratio: int,
) -> WalkForwardResultV {
    let len = bars.len() as int;
    let split = walk_split(len, train_ratio);
    let train = bars.subrange(0, split);
    let test = bars.subrange(split, len);
    let combos = default_grid();
    let results = Seq::new(
        combos.len(),
        |i: int|
            combo_result_spec(
                train,
                initial_capital,
                em,
                StopLossMethod::NoStop,
                combos[i].0,
                combos[i].1,
            ),
    );
    let best = results[best_sharpe_idx(results, results.len() as int)];
    let test_r = backtest_result_spec(
        sweep_cfg(initial_capital, em, StopLossMethod::NoStop),
        test,
        sma_signals_spec(test, best.fast_period, best.slow_period),
    );
    WalkForwardResultV {
        train_size: split,
        test_size: len - split,
        best_fast_period: best.fast_period,
        best_slow_period: best.slow_period,
        in_sample_return: best.total_return,
        in_sample_sharpe: best.sharpe_ratio,
        out_of_sample_return: test_r.total_return,
        out_of_sample_sharpe: test_r.sharpe_ratio,
        degradation_return: degradation_spec(best.total_return, test_r.total_return),
        degradation_sharpe: degradation_spec(best.sharpe_ratio, test_r.sharpe_ratio),
    }
}

/// Every value of a stepped range is at least its lower bound.
proof fn lemma_stepped_lb(lo: int, hi: int, step: int)
    requires
        1 <= step,
    ensures
        forall|k: int|
            0 <= k < stepped_range(lo, hi, step).len() ==> lo <= #[trigger] stepped_range(
                lo,
                hi,
                step,
            )[k],
    decreases hi + step - lo,
{
    if lo > hi {
    } else {
        lemma_stepped_lb(lo + step, hi, step);
        assert forall|k: int|
            0 <= k < stepped_range(lo, hi, step).len() implies lo <= #[trigger] stepped_range(
            lo,
            hi,
            step,
        )[k] by {
            if k > 0 {
                assert(stepped_range(lo, hi, step)[k] == stepped_range(lo + step, hi, step)[k - 1]);
            }
        }
    }
}

/// Every pair of `pairs_one` has the given fast period and a greater slow
/// one.
proof fn lemma_pairs_one_wf(f: int, slows: Seq<int>)
    ensures
        forall|k: int|
            0 <= k < pairs_one(f, slows).len() ==> (#[trigger] pairs_one(f, slows)[k]).0 == f
                && pairs_one(f, slows)[k].1 > f,
    decreases slows.len(),
{
    if slows.len() == 0 {
    } else {
        lemma_pairs_one_wf(f, slows.drop_last());
        assert forall|k: int|
            0 <= k < pairs_one(f, slows).len() implies (#[trigger] pairs_one(f, slows)[k]).0 == f
            && pairs_one(f, slows)[k].1 > f by {
            if k < pairs_one(f, slows.drop_last()).len() {
                assert(pairs_one(f, slows)[k] == pairs_one(f, slows.drop_last())[k]);
            }
        }
    }
}

/// Every pair of the filtered grid has a fast period at least `lb` and a
/// greater slow one.
proof fn lemma_filtered_wf(fasts: Seq<int>, slows: Seq<int>, lb: int)
    requires
        forall|j: int| 0 <= j < fasts.len() ==> lb <= #[trigger] fasts[j],
    ensures
        forall|k: int|
            0 <= k < filtered_pairs(fasts, slows).len() ==> lb <= (#[trigger] filtered_pairs(
                fasts,
                slows,
            )[k]).0 && filtered_pairs(fasts, slows)[k].0 < filtered_pairs(fasts, slows)[k].1,
    decreases fasts.len(),
{
    if fasts.len() == 0 {
    } else {
        assert(forall|j: int|
            0 <= j < fasts.drop_last().len() ==> lb <= #[trigger] fasts.drop_last()[j]);
        lemma_filtered_wf(fasts.drop_last(), slows, lb);
        lemma_pairs_one_wf(fasts.last(), slows);
        let head = filtered_pairs(fasts.drop_last(), slows);
        let tail = pairs_one(fasts.last(), slows);
        assert forall|k: int|
            0 <= k < filtered_pairs(fasts, slows).len() implies lb <= (#[trigger] filtered_pairs(
            fasts,
            slows,
        )[k]).0 && filtered_pairs(fasts, slows)[k].0 < filtered_pairs(fasts, slows)[k].1 by {
            if k < head.len() {
                assert(filtered_pairs(fasts, slows)[k] == head[k]);
            } else {
                assert(filtered_pairs(fasts, slows)[k] == tail[k - head.len()]);
                assert(lb <= fasts.last());
            }
        }
    }
}

/// `pairs_one` is non-empty when some slow period exceeds the fast one.
proof fn lemma_pairs_one_nonempty(f: int, slows: Seq<int>, k: int)
    requires
        0 <= k < slows.len(),
        f < slows[k],
    ensures
        pairs_one(f, slows).len() >= 1,
    decreases slows.len(),
{
    if k == slows.len() - 1 {
    } else {
        assert(slows.drop_last()[k] == slows[k]);
        lemma_pairs_one_nonempty(f, slows.drop_last(), k);
    }
}

/// The filtered grid is non-empty when some fast period is below some
/// slow one.
proof fn lemma_filtered_nonempty(fasts: Seq<int>, slows: Seq<int>, i: int, k: int)
    requires
        0 <= i < fasts.len(),
        0 <= k < slows.len(),
        fasts[i] < slows[k],
    ensures
        filtered_pairs(fasts, slows).len() >= 1,
    decreases fasts.len(),
{
    if i == fasts.len() - 1 {
        lemma_pairs_one_nonempty(fasts.last(), slows, k);
    } else {
        assert(fasts.drop_last()[i] == fasts[i]);
        lemma_filtered_nonempty(fasts.drop_last(), slows, i, k);
    }
}

/// The default grid holds at least one combination.
proof fn lemma_default_grid_nonempty()
    ensures
        default_grid().len() >= 1,
{
    let fasts = stepped_range(20, 100, 10);
    let slows = stepped_range(50, 200, 10);
    assert(fasts == seq![20int] + stepped_range(30, 100, 10));
    assert(slows == seq![50int] + stepped_range(60, 200, 10));
    assert(fasts[0] == 20);
    assert(slows[0] == 50);
    lemma_filtered_nonempty(fasts, slows, 0, 0);
}

/// Walk-forward validation over one bar series.
pub struct WalkForward {
    pub data: Vec<OHLCV>,
    pub initial_capital: i64,
    pub execution_model: ExecutionModel,
}

impl WalkForward {
    /// Inputs a walk-forward run accepts.
    pub open spec fn wf(self) -> bool {
        &&& bars_wf(self.data@)
        &&& 0 < self.data@.len() < CAP as int
        &&& in_range(self.initial_capital as int)
        &&& self.execution_model.wf()
    }

    pub fn new(data: Vec<OHLCV>, initial_capital: i64, execution_model: ExecutionModel) -> (r:
        WalkForward)
        ensures
            r.data == data,
            r.initial_capital == initial_capital,
            r.execution_model == execution_model,
    {
        WalkForward { data, initial_capital, execution_model }
    }

    /// Split at `floor(len * train_ratio)`, optimise the default grid on
    /// the prefix, validate the Sharpe-best parameters on the suffix.
    /// The ratio must lie strictly between 0 and 1 and leave at least one
    /// training bar.
    #[verifier::rlimit(100)]
    pub fn run(&self, train_ratio: i64) -> (r: WalkForwardResult)
        requires
            self.wf(),
            0 < (train_ratio as int) < (FP as int),
            1 <= walk_split(self.data@.len() as int, train_ratio as int),
        ensures
            r@ == walk_forward_spec(
                self.data@,
                self.initial_capital as int,
                self.execution_model,
                train_ratio as int,
            ),
    {
        let ghost bars = self.data@;
        let n = self.data.len();
        proof {
            assert(0 <= (n as int) * (train_ratio as int) <= (CAP as int) * (FP as int))
                by (nonlinear_arith)
                requires
                    0 <= n as int <= CAP as int,
                    0 <= train_ratio as int <= FP as int,
            ;
            assert((n as int) * (train_ratio as int) < (n as int) * (FP as int))
                by (nonlinear_arith)
                requires
                    0 < n as int,
                    (train_ratio as int) < (FP as int),
            ;
            vstd::arithmetic::div_mod::lemma_multiply_divide_lt(
                (n as int) * (train_ratio as int),
                FP as int,
                n as int,
            );
        }
        let split_w: i128 = div_floor_i128(n as i128 * train_ratio as i128, FP as i128);
        let split: usize = split_w as usize;
        proof {
            assert(1 <= (split as int) < (n as int));
        }

        let mut train: Vec<OHLCV> = Vec::new();
        let mut i: usize = 0;
        while i < split
            invariant
                n == bars.len(),
                bars == self.data@,
                split < n,
                i <= split,
                train@.len() == i,
                forall|j: int| 0 <= j < i ==> train@[j] == bars[j],
            decreases split - i,
        {
            train.push(self.data[i]);
            i = i + 1;
        }
        proof {
            assert(train@ =~= bars.subrange(0, split as int));
            assert(bars_wf(train@)) by {
                assert forall|j: int| 0 <= j < train@.len() implies (#[trigger] train@[j]).wf() by {
                    assert(train@[j] == bars[j]);
                    assert(bars[j].wf());
                }
            }
        }
        let mut test: Vec<OHLCV> = Vec::new();
        let mut i: usize = split;
        while i < n
            invariant
                n == bars.len(),
                bars == self.data@,
                split <= i <= n,
                test@.len() == i - split,
                forall|j: int| 0 <= j < i - split ==> test@[j] == bars[j + split as int],
            decreases n - i,
        {
            test.push(self.data[i]);
            i = i + 1;
        }
        proof {
            assert(test@ =~= bars.subrange(split as int, n as int));
            assert(bars_wf(test@)) by {
                assert forall|j: int| 0 <= j < test@.len() implies (#[trigger] test@[j]).wf() by {
                    assert(test@[j] == bars[j + split as int]);
                    assert(bars[j + split as int].wf());
                }
            }
        }

        let ghost train_s = bars.subrange(0, split as int);
        let ghost test_s = bars.subrange(split as int, n as int);
        let ghost combos = default_grid();
        let ghost results_s = Seq::new(
            combos.len(),
            |i: int|
                combo_result_spec(
                    train_s,
                    self.initial_capital as int,
                    self.execution_model,
                    StopLossMethod::NoStop,
                    combos[i].0,
                    combos[i].1,
                ),
        );

        let sweep = ParameterSweep::new(train, self.initial_capital, self.execution_model);
        let results = sweep.sweep_sma_periods((20, 100), (50, 200), 10);
        proof {
            lemma_default_grid_nonempty();
            assert(opts_view(results@) =~= results_s) by {
                assert forall|i: int| 0 <= i < results@.len() implies opts_view(results@)[i]
                    == results_s[i] by {
                    assert(opts_view(results@)[i] == results@[i]@);
                }
            }
        }
        let best = match ParameterSweep::find_best_sharpe(&results) {
            Some(b) => *b,
            None => {
                proof {
                    assert(false);
                }
                OptimizationResult {
                    fast_period: 0,
                    slow_period: 0,
                    total_return: 0,
                    sharpe_ratio: 0,
                    max_drawdown: 0,
                    total_trades: 0,
                }
            },
        };
        let ghost best_s = results_s[best_sharpe_idx(results_s, results_s.len() as int)];
        proof {
            assert(best_sharpe_idx(opts_view(results@), results@.len() as int) == best_sharpe_idx(
                results_s,
                results_s.len() as int,
            ));
            let bi = best_sharpe_idx(results_s, results_s.len() as int);
            lemma_best_idx_in_bounds(results_s, results_s.len() as int);
            assert(opts_view(results@)[bi] == results@[bi]@);
            assert(best@ == best_s);
            assert(results_s[bi] == combo_result_spec(
                train_s,
                self.initial_capital as int,
                self.execution_model,
                StopLossMethod::NoStop,
                combos[bi].0,
                combos[bi].1,
            ));
            lemma_stepped_lb(20, 100, 10);
            lemma_filtered_wf(stepped_range(20, 100, 10), stepped_range(50, 200, 10), 20);
            assert(0 < best_s.fast_period < best_s.slow_period);
        }

        let test_engine = BacktestEngine::new(test, self.initial_capital, self.execution_model);
        let strategy = SMACrossover::new(best.fast_period, best.slow_period);
        let test_result = test_engine.run(&strategy);
        proof {
            assert(test_engine.cfg() == sweep_cfg(
                self.initial_capital as int,
                self.execution_model,
                StopLossMethod::NoStop,
            ));
            assert(strategy.signals_spec(test_s) =~= sma_signals_spec(
                test_s,
                best_s.fast_period,
                best_s.slow_period,
            ));
        }

        proof {
            assert(in_range(best_s.total_return));
            assert(in_range(best_s.sharpe_ratio));
        }
        let degradation_return = degradation_exec(best.total_return, test_result.total_return);
        let degradation_sharpe = degradation_exec(best.sharpe_ratio, test_result.sharpe_ratio);

        WalkForwardResult {
            train_size: split,
            test_size: n - split,
            best_fast_period: best.fast_period,
            best_slow_period: best.slow_period,
            in_sample_return: best.total_return,
            in_sample_sharpe: best.sharpe_ratio,
            out_of_sample_return: test_result.total_return,
            out_of_sample_sharpe: test_result.sharpe_ratio,
            degradation_return,
            degradation_sharpe,
        }
    }
}

/// The first-maximum index stays within the prefix it scans.
proof fn lemma_best_idx_in_bounds(s: Seq<OptimizationResultV>, n: int)
    requires
        1 <= n,
    ensures
        0 <= best_sharpe_idx(s, n) < n,
    decreases n,
{
    if n > 1 {
        lemma_best_idx_in_bounds(s, n - 1);
    }
}

/// Degradation of a metric from in-sample to out-of-sample.
fn degradation_exec(in_sample: i64, out_of_sample: i64) -> (r: i64)
    requires
        in_range(in_sample as int),
        in_range(out_of_sample as int),
    ensures
        r as int == degradation_spec(in_sample as int, out_of_sample as int),
{
    mul_fx(div_fx(sub_fx(in_sample, out_of_sample), abs_fx(in_sample)), 10_000_000_000i64)
}

} // verus!
