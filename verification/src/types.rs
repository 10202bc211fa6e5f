//! Price bars, the execution model and the cash/position ledger.

use vstd::prelude::*;
use crate::fixed::{add_fx, div_floor_i128, fx_add, fx_mul, fx_sub, in_range, mul_fx, sub_fx, FP};

verus! {

/// One OHLCV observation, all prices and the volume in fixed point.
#[derive(Clone, Copy, Debug, PartialEq, Eq, Structural)]
pub struct OHLCV {
    pub timestamp: i64,
    pub open: i64,
    pub high: i64,
    pub low: i64,
    pub close: i64,
    pub volume: i64,
}

impl OHLCV {
    /// A bar the engine accepts: consistent OHLC ordering, positive prices,
    /// non-negative volume, everything within the fixed-point domain.
    pub open spec fn wf(self) -> bool {
        &&& in_range(self.timestamp as int)
        &&& 0 < self.low as int
        &&& self.low <= self.open <= self.high
        &&& self.low <= self.close <= self.high
        &&& in_range(self.high as int)
        &&& 0 <= self.volume
        &&& in_range(self.volume as int)
    }

    pub fn new(timestamp: i64, open: i64, high: i64, low: i64, close: i64, volume: i64) -> (r:
        OHLCV)
        ensures
            r == (OHLCV { timestamp, open, high, low, close, volume }),
    {
        OHLCV { timestamp, open, high, low, close, volume }
    }
}

/// All bars of a series are well-formed.
pub open spec fn bars_wf(bars: Seq<OHLCV>) -> bool {
    forall|i: int| 0 <= i < bars.len() ==> (#[trigger] bars[i]).wf()
}

/// Fill-price and commission model, both in fixed-point basis points.
#[derive(Clone, Copy, Debug, PartialEq, Eq, Structural)]
pub struct ExecutionModel {
    pub commission_bps: i64,
    pub slippage_bps: i64,
}

/// A basis-point figure turned into a fixed-point fraction of 1.
pub open spec fn bps_fraction(bps: int) -> int {
    crate::fixed::floor_div(bps, 10000)
}

/// The fill price of a market buy: `price * (1 + slippage_bps / 10000)`.
pub open spec fn fill_buy_spec(slippage_bps: int, price: int) -> int {
    fx_mul(price, fx_add(FP as int, bps_fraction(slippage_bps)))
}

/// The fill price of a market sell: `price * (1 - slippage_bps / 10000)`.
pub open spec fn fill_sell_spec(slippage_bps: int, price: int) -> int {
    fx_mul(price, fx_sub(FP as int, bps_fraction(slippage_bps)))
}

impl ExecutionModel {
    /// Rates the model accepts: between 0 and 100 percent.
    pub open spec fn wf(self) -> bool {
        &&& 0 <= self.commission_bps as int <= 10000 * (FP as int)
        &&& 0 <= self.slippage_bps as int <= 10000 * (FP as int)
    }

    pub fn new(commission_bps: i64, slippage_bps: i64) -> (r: ExecutionModel)
        ensures
            r == (ExecutionModel { commission_bps, slippage_bps }),
    {
        ExecutionModel { commission_bps, slippage_bps }
    }

    /// The price actually paid when buying at a quoted price.
    pub fn execute_market_buy(&self, price: i64) -> (r: i64)
        requires
            self.wf(),
            in_range(price as int),
        ensures
            r as int == fill_buy_spec(self.slippage_bps as int, price as int),
            in_range(r as int),
    {
        let frac = bps_fraction_exec(self.slippage_bps);
        mul_fx(price, add_fx(FP, frac))
    }

    /// The price actually received when selling at a quoted price.
    pub fn execute_market_sell(&self, price: i64) -> (r: i64)
        requires
            self.wf(),
            in_range(price as int),
        ensures
            r as int == fill_sell_spec(self.slippage_bps as int, price as int),
            in_range(r as int),
    {
        let frac = bps_fraction_exec(self.slippage_bps);
        mul_fx(price, sub_fx(FP, frac))
    }
}

/// Turn basis points into a fixed-point fraction of 1.
pub fn bps_fraction_exec(bps: i64) -> (r: i64)
    requires
        0 <= bps as int <= 10000 * (FP as int),
    ensures
        r as int == bps_fraction(bps as int),
        0 <= r as int <= FP as int,
{
    let q = div_floor_i128(bps as i128, 10000);
    proof {
        assert(bps as int / 10000 <= FP as int) by {
            vstd::arithmetic::div_mod::lemma_div_is_ordered(
                bps as int,
                10000 * (FP as int),
                10000,
            );
            vstd::arithmetic::div_mod::lemma_div_by_multiple(FP as int, 10000);
        }
        assert(0 <= bps as int / 10000) by {
            vstd::arithmetic::div_mod::lemma_div_basics_1(10000);
            vstd::arithmetic::div_mod::lemma_div_is_ordered(0, bps as int, 10000);
        }
    }
    q as i64
}

/// The ledger model: cash, position and trade count as mathematical values.
pub ghost struct PortfolioV {
    pub cash: int,
    pub btc_position: int,
    pub total_trades: int,
}

/// The ledger after buying `amount` units at `price`.
pub open spec fn buy_spec(p: PortfolioV, amount: int, price: int, commission_bps: int) -> PortfolioV {
    let cost = fx_mul(amount, price);
    let commission = fx_mul(cost, bps_fraction(commission_bps));
    PortfolioV {
        cash: fx_sub(p.cash, fx_add(cost, commission)),
        btc_position: fx_add(p.btc_position, amount),
        total_trades: p.total_trades + 1,
    }
}

/// The ledger after selling `amount` units at `price`.
pub open spec fn sell_spec(p: PortfolioV, amount: int, price: int, commission_bps: int) -> PortfolioV {
    let proceeds = fx_mul(amount, price);
    let commission = fx_mul(proceeds, bps_fraction(commission_bps));
    PortfolioV {
        cash: fx_add(p.cash, fx_sub(proceeds, commission)),
        btc_position: fx_sub(p.btc_position, amount),
        total_trades: p.total_trades + 1,
    }
}

/// Total account value at a mark price: `cash + position * price`.
pub open spec fn equity_spec(p: PortfolioV, price: int) -> int {
    fx_add(p.cash, fx_mul(p.btc_position, price))
}

/// The cash/position ledger; equity is always derived, never cached.
#[derive(Clone, Copy, Debug)]
pub struct Portfolio {
    pub cash: i64,
    pub btc_position: i64,
    pub total_trades: u64,
}

impl View for Portfolio {
    type V = PortfolioV;

    open spec fn view(&self) -> PortfolioV {
        PortfolioV {
            cash: self.cash as int,
            btc_position: self.btc_position as int,
            total_trades: self.total_trades as int,
        }
    }
}

impl Portfolio {
    pub open spec fn wf(self) -> bool {
        &&& in_range(self.cash as int)
        &&& in_range(self.btc_position as int)
    }

    pub fn new(initial_cash: i64) -> (r: Portfolio)
        ensures
            r@ == (PortfolioV { cash: initial_cash as int, btc_position: 0, total_trades: 0 }),
            r.wf() <==> in_range(initial_cash as int),
    {
        Portfolio { cash: initial_cash, btc_position: 0, total_trades: 0 }
    }

    /// Buy `btc_amount` units at `price`; the cost and the commission come
    /// out of cash.  Sufficient-cash checking is the caller's business.
    pub fn buy(&mut self, btc_amount: i64, price: i64, commission_bps: i64)
        requires
            old(self).wf(),
            in_range(btc_amount as int),
            in_range(price as int),
            0 <= commission_bps as int <= 10000 * (FP as int),
            old(self).total_trades < u64::MAX,
        ensures
            final(self)@ == buy_spec(
                old(self)@,
                btc_amount as int,
                price as int,
                commission_bps as int,
            ),
            final(self).wf(),
    {
        let cost = mul_fx(btc_amount, price);
        let commission = mul_fx(cost, bps_fraction_exec(commission_bps));
        self.cash = sub_fx(self.cash, add_fx(cost, commission));
        self.btc_position = add_fx(self.btc_position, btc_amount);
        self.total_trades = self.total_trades + 1;
    }

    /// Sell `btc_amount` units at `price`; the proceeds net of commission go
    /// into cash.
    pub fn sell(&mut self, btc_amount: i64, price: i64, commission_bps: i64)
        requires
            old(self).wf(),
            in_range(btc_amount as int),
            in_range(price as int),
            0 <= commission_bps as int <= 10000 * (FP as int),
            old(self).total_trades < u64::MAX,
        ensures
            final(self)@ == sell_spec(
                old(self)@,
                btc_amount as int,
                price as int,
                commission_bps as int,
            ),
            final(self).wf(),
    {
        let proceeds = mul_fx(btc_amount, price);
        let commission = mul_fx(proceeds, bps_fraction_exec(commission_bps));
        self.cash = add_fx(self.cash, sub_fx(proceeds, commission));
        self.btc_position = sub_fx(self.btc_position, btc_amount);
        self.total_trades = self.total_trades + 1;
    }

    /// Total account value at a mark price.
    pub fn equity(&self, btc_price: i64) -> (r: i64)
        requires
            self.wf(),
            in_range(btc_price as int),
        ensures
            r as int == equity_spec(self@, btc_price as int),
            in_range(r as int),
    {
        add_fx(self.cash, mul_fx(self.btc_position, btc_price))
    }
}

} // verus!
