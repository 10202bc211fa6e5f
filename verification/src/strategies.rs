//! Trading strategies: pure functions from a bar sequence to one
//! target-exposure signal per bar.

use vstd::prelude::*;
use crate::fixed::{div_floor_i128, floor_div, lemma_div_bounds, seq_int, CAP, FP};
use crate::metrics::sum_prefix;
use crate::stops::opt_int;
use crate::types::{bars_wf, OHLCV};

verus! {

broadcast use crate::fixed::lemma_seq_int_index;

/// One target-exposure value per bar, each between 0 and 1 in fixed point.
pub open spec fn signals_wf(sigs: Seq<int>, n: int) -> bool {
    &&& sigs.len() == n
    &&& forall|i: int| 0 <= i < sigs.len() ==> 0 <= #[trigger] sigs[i] <= FP as int
}

/// A trading strategy: one operation, producing a same-length sequence of
/// target-exposure values from the full bar sequence.  The engine never
/// calls back mid-loop.
pub trait Strategy: Sized {
    /// Parameters under which the strategy is meaningful.
    spec fn wf(&self) -> bool;

    /// The signal sequence the strategy produces on the given bars.
    spec fn signals_spec(&self, bars: Seq<OHLCV>) -> Seq<int>;

    /// Produce the signals: one value per bar, each in `[0, 1]` fixed point.
    fn generate_signals(&self, data: &Vec<OHLCV>) -> (r: Vec<i64>)
        requires
            self.wf(),
            bars_wf(data@),
        ensures
            seq_int(r@) == self.signals_spec(data@),
            signals_wf(seq_int(r@), data@.len() as int),
    ;

    /// The strategy's display name.
    fn name(&self) -> (r: &'static str);
}

/// Buy and hold: fully invested from the first bar to the last.
pub struct BuyAndHold;

impl BuyAndHold {
    pub fn new() -> (r: Self) {
        BuyAndHold
    }
}

impl Default for BuyAndHold {
    fn default() -> Self {
        BuyAndHold::new()
    }
}

impl Strategy for BuyAndHold {
    open spec fn wf(&self) -> bool {
        true
    }

    open spec fn signals_spec(&self, bars: Seq<OHLCV>) -> Seq<int> {
        Seq::new(bars.len(), |i: int| FP as int)
    }

    fn generate_signals(&self, data: &Vec<OHLCV>) -> (r: Vec<i64>) {
        let n = data.len();
        let mut sigs: Vec<i64> = Vec::new();
        let mut i: usize = 0;
        while i < n
            invariant
                i <= n,
                sigs@.len() == i,
                forall|j: int| 0 <= j < i ==> seq_int(sigs@)[j] == FP as int,
            decreases n - i,
        {
            let ghost prev = sigs@;
            sigs.push(FP);
            proof {
                assert forall|j: int| 0 <= j < i + 1 implies seq_int(sigs@)[j] == FP as int by {
                    assert(seq_int(sigs@)[j] == sigs@[j] as int);
                    if j < i as int {
                        assert(seq_int(prev)[j] == prev[j] as int);
                    }
                }
            }
            i = i + 1;
        }
        proof {
            assert(seq_int(sigs@) =~= self.signals_spec(data@));
        }
        sigs
    }

    fn name(&self) -> (r: &'static str) {
        "Buy and Hold"
    }
}

/// The closes of a bar sequence as mathematical values.
pub open spec fn closes_of(bars: Seq<OHLCV>) -> Seq<int> {
    Seq::new(bars.len(), |i: int| bars[i].close as int)
}

/// The simple moving average over the `period` closes ending at bar `i`,
/// defined once `period` bars have been seen.
pub open spec fn sma_at(c: Seq<int>, period: int, i: int) -> int {
    floor_div(sum_prefix(c, i + 1) - sum_prefix(c, i + 1 - period), period)
}

/// The long/flat state of the crossover after bar `i`: long after a golden
/// cross (fast crosses above slow), flat after a death cross, otherwise
/// unchanged; flat until both averages are defined.
pub open spec fn sma_cross_state(c: Seq<int>, fast: int, slow: int, i: int) -> int
    decreases i,
{
    let prev = if i <= 0 {
        0
    } else {
        sma_cross_state(c, fast, slow, i - 1)
    };
    if i + 1 < slow {
        prev
    } else {
        let f = sma_at(c, fast, i);
        let s = sma_at(c, slow, i);
        if i == 0 {
            if f > s {
                FP as int
            } else {
                0
            }
        } else if i >= slow {
            let pf = sma_at(c, fast, i - 1);
            let ps = sma_at(c, slow, i - 1);
            if pf <= ps && f > s {
                FP as int
            } else if pf >= ps && f < s {
                0
            } else {
                prev
            }
        } else {
            prev
        }
    }
}

/// The signal at bar `i`: flat while either average is undefined, else the
/// crossover state.
pub open spec fn sma_signal_at(c: Seq<int>, fast: int, slow: int, i: int) -> int {
    if i + 1 < slow {
        0
    } else {
        sma_cross_state(c, fast, slow, i)
    }
}

/// Simple moving average crossover: long when the fast average crosses
/// above the slow one, flat when it crosses below.
pub struct SMACrossover {
    pub fast_period: usize,
    pub slow_period: usize,
}

impl SMACrossover {
    /// The fast period must be positive and shorter than the slow one.
    pub fn new(fast_period: usize, slow_period: usize) -> (r: Self)
        requires
            0 < fast_period < slow_period,
        ensures
            r == (SMACrossover { fast_period, slow_period }),
            r.wf(),
    {
        SMACrossover { fast_period, slow_period }
    }
}

impl Strategy for SMACrossover {
    open spec fn wf(&self) -> bool {
        0 < self.fast_period < self.slow_period
    }

    open spec fn signals_spec(&self, bars: Seq<OHLCV>) -> Seq<int> {
        Seq::new(
            bars.len(),
            |i: int|
                sma_signal_at(
                    closes_of(bars),
                    self.fast_period as int,
                    self.slow_period as int,
                    i,
                ),
        )
    }

    fn generate_signals(&self, data: &Vec<OHLCV>) -> (r: Vec<i64>) {
        let ghost c = closes_of(data@);
        let ghost fast = self.fast_period as int;
        let ghost slow = self.slow_period as int;
        let n = data.len();
        let mut closes: Vec<i64> = Vec::new();
        let mut i: usize = 0;
        while i < n
            invariant
                bars_wf(data@),
                n == data@.len(),
                i <= n,
                closes@.len() == i,
                c == closes_of(data@),
                forall|j: int| 0 <= j < i ==> seq_int(closes@)[j] == c[j],
            decreases n - i,
        {
            closes.push(data[i].close);
            i = i + 1;
        }
        proof {
            assert(seq_int(closes@) =~= c);
            assert forall|j: int|
                0 <= j < closes@.len() implies -(CAP as int) <= (#[trigger] closes@[j]) as int
                <= CAP as int by {
                assert(c[j] == closes@[j] as int);
                assert(data@[j].wf());
            }
        }
        let fast_sma = sma_exec(&closes, self.fast_period);
        let slow_sma = sma_exec(&closes, self.slow_period);
        let mut sigs: Vec<i64> = Vec::new();
        let mut current: i64 = 0;
        let mut i: usize = 0;
        while i < n
            invariant
                n == data@.len(),
                n == closes@.len(),
                c == seq_int(closes@),
                c == closes_of(data@),
                0 < fast < slow,
                fast == self.fast_period as int,
                slow == self.slow_period as int,
                fast_sma@.len() == n,
                slow_sma@.len() == n,
                forall|j: int|
                    0 <= j < n ==> opt_int(#[trigger] fast_sma@[j]) == (if j + 1 >= fast {
                        Some(sma_at(c, fast, j))
                    } else {
                        None
                    }),
                forall|j: int|
                    0 <= j < n ==> opt_int(#[trigger] slow_sma@[j]) == (if j + 1 >= slow {
                        Some(sma_at(c, slow, j))
                    } else {
                        None
                    }),
                i <= n,
                sigs@.len() == i,
                current as int == (if i == 0 {
                    0
                } else {
                    sma_cross_state(c, fast, slow, i as int - 1)
                }),
                0 <= current as int <= FP as int,
                forall|j: int| 0 <= j < i ==> seq_int(sigs@)[j] == sma_signal_at(c, fast, slow, j),
                forall|j: int| 0 <= j < i ==> 0 <= #[trigger] seq_int(sigs@)[j] <= FP as int,
            decreases n - i,
        {
            let ghost prev_sigs = sigs@;
            let f_opt = fast_sma[i];
            let s_opt = slow_sma[i];
            match (f_opt, s_opt) {
                (Some(f), Some(s)) => {
                    if i > 0 {
                        match (fast_sma[i - 1], slow_sma[i - 1]) {
                            (Some(pf), Some(ps)) => {
                                if pf <= ps && f > s {
                                    current = FP;
                                } else if pf >= ps && f < s {
                                    current = 0;
                                }
                            },
                            _ => {},
                        }
                    } else {
                        current = if f > s {
                            FP
                        } else {
                            0
                        };
                    }
                    sigs.push(current);
                },
                _ => {
                    sigs.push(0);
                },
            }
            proof {
                assert forall|j: int|
                    0 <= j < i + 1 implies seq_int(sigs@)[j] == sma_signal_at(c, fast, slow, j)
                    && 0 <= seq_int(sigs@)[j] <= FP as int by {
                    assert(seq_int(sigs@)[j] == sigs@[j] as int);
                    if j < i as int {
                        assert(seq_int(prev_sigs)[j] == prev_sigs[j] as int);
                    }
                }
            }
            i = i + 1;
        }
        proof {
            assert(seq_int(sigs@) =~= self.signals_spec(data@));
        }
        sigs
    }

    fn name(&self) -> (r: &'static str) {
        "SMA Crossover"
    }
}

/// Sums over a range of in-range values stay within `CAP` per element.
proof fn lemma_sum_range_bound(c: Seq<int>, a: int, b: int)
    requires
        forall|j: int| 0 <= j < c.len() ==> -(CAP as int) <= #[trigger] c[j] <= CAP as int,
        0 <= a <= b <= c.len(),
    ensures
        -((CAP as int) * (b - a)) <= sum_prefix(c, b) - sum_prefix(c, a) <= (CAP as int) * (b - a),
    decreases b - a,
{
    if a == b {
    } else {
        lemma_sum_range_bound(c, a, b - 1);
        assert((CAP as int) * (b - a) == (CAP as int) * (b - 1 - a) + CAP as int)
            by (nonlinear_arith);
    }
}

/// Simple moving average with a rolling window sum; `None` until `period`
/// values have been seen.
fn sma_exec(closes: &Vec<i64>, period: usize) -> (r: Vec<Option<i64>>)
    requires
        0 < period,
        forall|j: int|
            0 <= j < closes@.len() ==> -(CAP as int) <= (#[trigger] closes@[j]) as int
                <= CAP as int,
    ensures
        r@.len() == closes@.len(),
        forall|j: int|
            0 <= j < closes@.len() ==> opt_int(#[trigger] r@[j]) == (if j + 1 >= period as int {
                Some(sma_at(seq_int(closes@), period as int, j))
            } else {
                None
            }),
{
    let ghost c = seq_int(closes@);
    proof {
        assert forall|j: int| 0 <= j < c.len() implies -(CAP as int) <= #[trigger] c[j]
            <= CAP as int by {
            assert(c[j] == closes@[j] as int);
        }
    }
    let n = closes.len();
    let mut out: Vec<Option<i64>> = Vec::new();
    let mut sum: i128 = 0;
    let mut i: usize = 0;
    while i < n
        invariant
            0 < period,
            n == closes@.len(),
            c == seq_int(closes@),
            forall|j: int| 0 <= j < c.len() ==> -(CAP as int) <= #[trigger] c[j] <= CAP as int,
            i <= n,
            out@.len() == i,
            sum == sum_prefix(c, i as int) - sum_prefix(
                c,
                if i >= period {
                    i as int - period as int
                } else {
                    0
                },
            ),
            forall|j: int|
                0 <= j < i ==> opt_int(#[trigger] out@[j]) == (if j + 1 >= period as int {
                    Some(sma_at(c, period as int, j))
                } else {
                    None
                }),
        decreases n - i,
    {
        let ghost lo = if i >= period {
            i as int - period as int
        } else {
            0
        };
        proof {
            lemma_sum_range_bound(c, lo, i as int);
            assert((CAP as int) * (i as int - lo) <= (CAP as int) * (period as int))
                by (nonlinear_arith)
                requires
                    i as int - lo <= period as int,
                    0 <= i as int - lo,
            ;
            assert(c[i as int] == closes@[i as int] as int);
        }
        sum = sum + closes[i] as i128;
        if i >= period {
            proof {
                assert(c[i as int - period as int] == closes@[i as int - period as int] as int);
                assert(sum_prefix(c, lo + 1) == sum_prefix(c, lo) + c[lo]);
            }
            sum = sum - closes[i - period] as i128;
        }
        let ghost new_lo = if i + 1 >= period as int {
            i as int + 1 - period as int
        } else {
            0
        };
        proof {
            assert(sum == sum_prefix(c, i as int + 1) - sum_prefix(c, new_lo));
        }
        if i + 1 >= period {
            proof {
                lemma_sum_range_bound(c, new_lo, i as int + 1);
                assert(i as int + 1 - new_lo == period as int);
                lemma_div_bounds(sum as int, period as int, CAP as int);
            }
            let v = div_floor_i128(sum, period as i128);
            out.push(Some(v as i64));
        } else {
            out.push(None);
        }
        i = i + 1;
    }
    out
}

} // verus!
