//! Parameter optimisation: a parallel grid of independent engine runs.

use vstd::prelude::*;
use crate::engine::{backtest_result_spec, BacktestEngine, ConfigV};
use crate::fixed::{in_range, seq_usize_int, CAP};
use crate::position_sizing::PositionSizingMethod;
use crate::risk::RiskLimits;
use crate::stops::StopLossMethod;
use crate::strategies::{closes_of, sma_signal_at, SMACrossover};
use crate::types::{bars_wf, ExecutionModel, OHLCV};
use rayon::iter::IntoParallelRefIterator;
use rayon::iter::ParallelIterator;

verus! {

broadcast use crate::fixed::lemma_seq_usize_int_index;

/// One grid point's outcome as mathematical values.
pub ghost struct OptimizationResultV {
    pub fast_period: int,
    pub slow_period: int,
    pub total_return: int,
    pub sharpe_ratio: int,
    pub max_drawdown: int,
    pub total_trades: int,
}

/// The outcome of one backtest in a parameter sweep.
#[derive(Clone, Copy, Debug)]
pub struct OptimizationResult {
    pub fast_period: usize,
    pub slow_period: usize,
    pub total_return: i64,
    pub sharpe_ratio: i64,
    pub max_drawdown: i64,
    pub total_trades: u64,
}

impl View for OptimizationResult {
    type V = OptimizationResultV;

    open spec fn view(&self) -> OptimizationResultV {
        OptimizationResultV {
            fast_period: self.fast_period as int,
            slow_period: self.slow_period as int,
            total_return: self.total_return as int,
            sharpe_ratio: self.sharpe_ratio as int,
            max_drawdown: self.max_drawdown as int,
            total_trades: self.total_trades as int,
        }
    }
}

/// The view of a result list.
pub open spec fn opts_view(s: Seq<OptimizationResult>) -> Seq<OptimizationResultV> {
    s.map_values(|o: OptimizationResult| o@)
}

/// `lo, lo + step, lo + 2 step, ...` up to and including `hi`.
pub open spec fn stepped_range(lo: int, hi: int, step: int) -> Seq<int>
    decreases hi + step - lo,
        when 1 <= step
{
    if lo > hi {
        Seq::empty()
    } else {
        seq![lo] + stepped_range(lo + step, hi, step)
    }
}

/// The pairs `(f, s)` for `s` drawn from `slows` in order, keeping `f < s`.
pub open spec fn pairs_one(f: int, slows: Seq<int>) -> Seq<(int, int)>
    decreases slows.len(),
{
    if slows.len() == 0 {
        Seq::empty()
    } else {
        pairs_one(f, slows.drop_last()) + if f < slows.last() {
            seq![(f, slows.last())]
        } else {
            Seq::empty()
        }
    }
}

/// All pairs of a fast and a slow period with `fast < slow`, fast-major,
/// in grid order.
pub open spec fn filtered_pairs(fasts: Seq<int>, slows: Seq<int>) -> Seq<(int, int)>
    decreases fasts.len(),
{
    if fasts.len() == 0 {
        Seq::empty()
    } else {
        filtered_pairs(fasts.drop_last(), slows) + pairs_one(fasts.last(), slows)
    }
}

/// The combinations a sweep runs: the stepped grid, filtered to
/// `fast < slow`.
pub open spec fn combos_spec(
    fast_lo: int,
    fast_hi: int,
    slow_lo: int,
    slow_hi: int,
    step: int,
) -> Seq<(int, int)> {
    filtered_pairs(stepped_range(fast_lo, fast_hi, step), stepped_range(slow_lo, slow_hi, step))
}

/// The engine configuration a sweep uses: the given capital, execution
/// model and stop, default sizing and risk limits.
pub open spec fn sweep_cfg(initial_capital: int, em: ExecutionModel, stop: StopLossMethod) -> ConfigV {
    ConfigV {
        initial_capital,
        execution: em,
        sizing: PositionSizingMethod::FixedPercent(10_000_000_000i64),
        stop,
        limits: RiskLimits {
            max_position_pct: 10_000_000_000i64,
            max_portfolio_heat: 100_000_000i64,
            max_drawdown_threshold: 30_000_000i64,
            max_concurrent_positions: 1usize,
            max_trades_per_day: 0usize,
            min_bars_between_trades: 0usize,
        },
    }
}

/// The signals of an SMA crossover with the given periods.
pub open spec fn sma_signals_spec(bars: Seq<OHLCV>, fast: int, slow: int) -> Seq<int> {
    Seq::new(bars.len(), |i: int| sma_signal_at(closes_of(bars), fast, slow, i))
}

/// The outcome of one grid point: the engine run projected to the sweep's
/// reported figures.
pub open spec fn combo_result_spec(
    bars: Seq<OHLCV>,
    initial_capital: int,
    em: ExecutionModel,
    stop: StopLossMethod,
    fast: int,
    slow: int,
) -> OptimizationResultV {
    let r = backtest_result_spec(
        sweep_cfg(initial_capital, em, stop),
        bars,
        sma_signals_spec(bars, fast, slow),
    );
    OptimizationResultV {
        fast_period: fast,
        slow_period: slow,
        total_return: r.total_return,
        sharpe_ratio: r.sharpe_ratio,
        max_drawdown: r.max_drawdown,
        total_trades: r.total_trades,
    }
}

/// The index of the first result with the greatest Sharpe ratio among the
/// first `n`.
pub open spec fn best_sharpe_idx(s: Seq<OptimizationResultV>, n: int) -> int
    decreases n,
{
    if n <= 1 {
        0
    } else {
        let b = best_sharpe_idx(s, n - 1);
        if s[n - 1].sharpe_ratio > s[b].sharpe_ratio {
            n - 1
        } else {
            b
        }
    }
}

/// The index of the first result with the greatest total return among the
/// first `n`.
pub open spec fn best_return_idx(s: Seq<OptimizationResultV>, n: int) -> int
    decreases n,
{
    if n <= 1 {
        0
    } else {
        let b = best_return_idx(s, n - 1);
        if s[n - 1].total_return > s[b].total_return {
            n - 1
        } else {
            b
        }
    }
}

/// A parameter sweep over SMA crossover periods: one independent engine
/// run per combination, sharing no mutable state.
pub struct ParameterSweep {
    pub data: Vec<OHLCV>,
    pub initial_capital: i64,
    pub execution_model: ExecutionModel,
}

impl ParameterSweep {
    /// Inputs a sweep accepts.
    pub open spec fn wf(self) -> bool {
        &&& bars_wf(self.data@)
        &&& 0 < self.data@.len() < CAP as int
        &&& in_range(self.initial_capital as int)
        &&& self.execution_model.wf()
    }

    pub fn new(data: Vec<OHLCV>, initial_capital: i64, execution_model: ExecutionModel) -> (r:
        ParameterSweep)
        ensures
            r.data == data,
            r.initial_capital == initial_capital,
            r.execution_model == execution_model,
    {
        ParameterSweep { data, initial_capital, execution_model }
    }

    /// One grid point: an engine with default policies over this sweep's
    /// bars, run with the given crossover periods and stop.
    fn run_combo(&self, fast: usize, slow: usize, stop: StopLossMethod) -> (r: OptimizationResult)
        requires
            self.wf(),
            0 < fast < slow,
            stop.wf(),
        ensures
            r@ == combo_result_spec(
                self.data@,
                self.initial_capital as int,
                self.execution_model,
                stop,
                fast as int,
                slow as int,
            ),
    {
        let strategy = SMACrossover::new(fast, slow);
        let mut data_copy: Vec<OHLCV> = Vec::new();
        let n = self.data.len();
        let mut i: usize = 0;
        while i < n
            invariant
                n == self.data@.len(),
                i <= n,
                data_copy@.len() == i,
                forall|j: int| 0 <= j < i ==> data_copy@[j] == self.data@[j],
            decreases n - i,
        {
            data_copy.push(self.data[i]);
            i = i + 1;
        }
        proof {
            assert(data_copy@ =~= self.data@);
        }
        let engine = BacktestEngine::new(
            data_copy,
            self.initial_capital,
            self.execution_model,
        ).with_stop_loss(stop);
        let result = engine.run(&strategy);
        OptimizationResult {
            fast_period: fast,
            slow_period: slow,
            total_return: result.total_return,
            sharpe_ratio: result.sharpe_ratio,
            max_drawdown: result.max_drawdown,
            total_trades: result.total_trades,
        }
    }

    /// Sweep the grid with no stop loss.
    pub fn sweep_sma_periods(
        &self,
        fast_range: (usize, usize),
        slow_range: (usize, usize),
        step: usize,
    ) -> (r: Vec<OptimizationResult>)
        requires
            self.wf(),
            0 < fast_range.0,
            0 < step,
        ensures
            ({
                let combos = combos_spec(
                    fast_range.0 as int,
                    fast_range.1 as int,
                    slow_range.0 as int,
                    slow_range.1 as int,
                    step as int,
                );
                &&& r@.len() == combos.len()
                &&& forall|i: int|
                    0 <= i < combos.len() ==> (#[trigger] r@[i])@ == combo_result_spec(
                        self.data@,
                        self.initial_capital as int,
                        self.execution_model,
                        StopLossMethod::NoStop,
                        combos[i].0,
                        combos[i].1,
                    )
            }),
    {
        self.sweep_sma_periods_with_stops(fast_range, slow_range, step, StopLossMethod::NoStop)
    }

    /// Sweep the grid with the given stop-loss method on every run.
    pub fn sweep_sma_periods_with_stops(
        &self,
        fast_range: (usize, usize),
        slow_range: (usize, usize),
        step: usize,
        stop_loss: StopLossMethod,
    ) -> (r: Vec<OptimizationResult>)
        requires
            self.wf(),
            0 < fast_range.0,
            0 < step,
            stop_loss.wf(),
        ensures
            ({
                let combos = combos_spec(
                    fast_range.0 as int,
                    fast_range.1 as int,
                    slow_range.0 as int,
                    slow_range.1 as int,
                    step as int,
                );
                &&& r@.len() == combos.len()
                &&& forall|i: int|
                    0 <= i < combos.len() ==> (#[trigger] r@[i])@ == combo_result_spec(
                        self.data@,
                        self.initial_capital as int,
                        self.execution_model,
                        stop_loss,
                        combos[i].0,
                        combos[i].1,
                    )
            }),
    {
        let ghost combos_g = combos_spec(
            fast_range.0 as int,
            fast_range.1 as int,
            slow_range.0 as int,
            slow_range.1 as int,
            step as int,
        );
        let fasts = stepped_exec(fast_range.0, fast_range.1, step);
        let slows = stepped_exec(slow_range.0, slow_range.1, step);
        let mut combos: Vec<(usize, usize)> = Vec::new();
        let nf = fasts.len();
        let ns = slows.len();
        let ghost fasts_i = seq_usize_int(fasts@);
        let ghost slows_i = seq_usize_int(slows@);
        let mut a: usize = 0;
        while a < nf
            invariant
                nf == fasts@.len(),
                ns == slows@.len(),
                fasts_i == seq_usize_int(fasts@),
                slows_i == seq_usize_int(slows@),
                forall|j: int| 0 <= j < nf ==> 0 < fasts_i[j],
                a <= nf,
                combo_pairs_view(combos@) == filtered_pairs(fasts_i.take(a as int), slows_i),
                forall|j: int|
                    0 <= j < combos@.len() ==> 0 < (#[trigger] combos@[j]).0 < combos@[j].1,
            decreases nf - a,
        {
            let f = fasts[a];
            let mut b: usize = 0;
            while b < ns
                invariant
                    nf == fasts@.len(),
                    ns == slows@.len(),
                    fasts_i == seq_usize_int(fasts@),
                    slows_i == seq_usize_int(slows@),
                    forall|j: int| 0 <= j < nf ==> 0 < fasts_i[j],
                    a < nf,
                    f == fasts@[a as int],
                    b <= ns,
                    combo_pairs_view(combos@) == filtered_pairs(fasts_i.take(a as int), slows_i)
                        + pairs_one(f as int, slows_i.take(b as int)),
                    forall|j: int|
                        0 <= j < combos@.len() ==> 0 < (#[trigger] combos@[j]).0 < combos@[j].1,
                decreases ns - b,
            {
                let s = slows[b];
                let ghost prev = combos@;
                if f < s {
                    combos.push((f, s));
                }
                proof {
                    assert(slows_i[b as int] == slows@[b as int] as int);
                    assert(fasts_i[a as int] == fasts@[a as int] as int);
                    assert(0 < fasts_i[a as int]);
                    assert(slows_i.take(b as int + 1).drop_last() =~= slows_i.take(b as int));
                    assert(slows_i.take(b as int + 1).last() == s as int);
                    if f < s {
                        assert(combo_pairs_view(combos@) =~= combo_pairs_view(prev) + seq![
                            (f as int, s as int),
                        ]);
                    } else {
                        assert(combo_pairs_view(combos@) =~= combo_pairs_view(prev));
                    }
                    assert(combo_pairs_view(combos@) =~= filtered_pairs(
                        fasts_i.take(a as int),
                        slows_i,
                    ) + pairs_one(f as int, slows_i.take(b as int + 1)));
                }
                b = b + 1;
            }
            proof {
                assert(slows_i.take(ns as int) =~= slows_i);
                assert(fasts_i.take(a as int + 1).drop_last() =~= fasts_i.take(a as int));
                assert(fasts_i.take(a as int + 1).last() == f as int);
                assert(combo_pairs_view(combos@) =~= filtered_pairs(
                    fasts_i.take(a as int + 1),
                    slows_i,
                ));
            }
            a = a + 1;
        }
        proof {
            assert(fasts_i.take(nf as int) =~= fasts_i);
            assert(combo_pairs_view(combos@) == combos_g);
        }
        let results = par_run_combos(self, &combos, stop_loss);
        results
    }

    /// The result with the greatest Sharpe ratio; the first of equals.
    pub fn find_best_sharpe(results: &Vec<OptimizationResult>) -> (r: Option<&OptimizationResult>)
        ensures
            match r {
                Some(b) => results@.len() > 0 && *b == results@[best_sharpe_idx(
                    opts_view(results@),
                    results@.len() as int,
                )],
                None => results@.len() == 0,
            },
    {
        let n = results.len();
        if n == 0 {
            return None;
        }
        let ghost rv = opts_view(results@);
        let mut best: usize = 0;
        let mut i: usize = 1;
        while i < n
            invariant
                n == results@.len(),
                rv == opts_view(results@),
                0 < n,
                1 <= i <= n,
                best < i,
                best as int == best_sharpe_idx(rv, i as int),
            decreases n - i,
        {
            proof {
                assert(rv[i as int] == results@[i as int]@);
                assert(rv[best as int] == results@[best as int]@);
            }
            if results[i].sharpe_ratio > results[best].sharpe_ratio {
                best = i;
            }
            i = i + 1;
        }
        Some(&results[best])
    }

    /// The result with the greatest total return; the first of equals.
    pub fn find_best_return(results: &Vec<OptimizationResult>) -> (r: Option<&OptimizationResult>)
        ensures
            match r {
                Some(b) => results@.len() > 0 && *b == results@[best_return_idx(
                    opts_view(results@),
                    results@.len() as int,
                )],
                None => results@.len() == 0,
            },
    {
        let n = results.len();
        if n == 0 {
            return None;
        }
        let ghost rv = opts_view(results@);
        let mut best: usize = 0;
        let mut i: usize = 1;
        while i < n
            invariant
                n == results@.len(),
                rv == opts_view(results@),
                0 < n,
                1 <= i <= n,
                best < i,
                best as int == best_return_idx(rv, i as int),
            decreases n - i,
        {
            proof {
                assert(rv[i as int] == results@[i as int]@);
                assert(rv[best as int] == results@[best as int]@);
            }
            if results[i].total_return > results[best].total_return {
                best = i;
            }
            i = i + 1;
        }
        Some(&results[best])
    }
}

/// The mathematical pairs of a combination list.
pub open spec fn combo_pairs_view(s: Seq<(usize, usize)>) -> Seq<(int, int)> {
    s.map_values(|p: (usize, usize)| (p.0 as int, p.1 as int))
}

/// Relies on rayon's `par_iter().map(..).collect()`: an indexed parallel
/// map over a slice yields one output per input, in input order; the
/// closure only calls the verified `run_combo`.
#[verifier::external_body]
fn par_run_combos(
    sweep: &ParameterSweep,
    combos: &Vec<(usize, usize)>,
    stop_loss: StopLossMethod,
) -> (r: Vec<OptimizationResult>)
    requires
        sweep.wf(),
        stop_loss.wf(),
        forall|j: int| 0 <= j < combos@.len() ==> 0 < (#[trigger] combos@[j]).0 < combos@[j].1,
    ensures
        r@.len() == combos@.len(),
        forall|i: int|
            0 <= i < combos@.len() ==> (#[trigger] r@[i])@ == combo_result_spec(
                sweep.data@,
                sweep.initial_capital as int,
                sweep.execution_model,
                stop_loss,
                combos@[i].0 as int,
                combos@[i].1 as int,
            ),
{
    combos.par_iter().map(|c: &(usize, usize)| sweep.run_combo(c.0, c.1, stop_loss)).collect()
}

/// The values `lo, lo + step, ...` up to and including `hi`.
fn stepped_exec(lo: usize, hi: usize, step: usize) -> (r: Vec<usize>)
    requires
        0 < step,
    ensures
        seq_usize_int(r@) == stepped_range(lo as int, hi as int, step as int),
        forall|j: int| 0 <= j < r@.len() ==> lo as int <= #[trigger] seq_usize_int(r@)[j],
{
    let mut out: Vec<usize> = Vec::new();
    let mut v: usize = lo;
    let mut done: bool = lo > hi;
    while !done
        invariant
            0 < step,
            lo <= v,
            !done ==> v <= hi,
            forall|j: int| 0 <= j < out@.len() ==> lo as int <= #[trigger] seq_usize_int(out@)[j],
            stepped_range(lo as int, hi as int, step as int) == seq_usize_int(out@) + (if done {
                Seq::<int>::empty()
            } else {
                stepped_range(v as int, hi as int, step as int)
            }),
        decreases hi - v + (if done {
            0int
        } else {
            1int
        }),
    {
        let ghost prev = out@;
        out.push(v);
        proof {
            assert(seq_usize_int(out@) =~= seq_usize_int(prev) + seq![v as int]);
            assert(stepped_range(v as int, hi as int, step as int) == seq![v as int]
                + stepped_range(v as int + step as int, hi as int, step as int));
        }
        if hi - v >= step {
            v = v + step;
            proof {
                assert(seq_usize_int(out@) + stepped_range(v as int, hi as int, step as int)
                    =~= stepped_range(lo as int, hi as int, step as int));
            }
        } else {
            done = true;
            proof {
                assert(v as int + step as int > hi as int);
                assert(stepped_range(v as int + step as int, hi as int, step as int)
                    == Seq::<int>::empty());
                assert(seq_usize_int(out@) + Seq::<int>::empty() =~= stepped_range(
                    lo as int,
                    hi as int,
                    step as int,
                ));
            }
        }
    }
    proof {
        assert(seq_usize_int(out@) + Seq::<int>::empty() =~= seq_usize_int(out@));
    }
    out
}

} // verus!
