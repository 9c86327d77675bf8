//! Orders and the piecewise-linear flow schedules they define.
//!
//! All prices, quantities and gas fees are fixed-point integers: one unit
//! is 10^-6 of a currency unit or share.  The engines' tolerant
//! comparisons (epsilon 10^-6) therefore become exact unit comparisons.

use crate::utility::gen_order_id;
use vstd::arithmetic::div_mod::lemma_div_is_ordered;
use vstd::arithmetic::mul::lemma_mul_inequality;
use vstd::prelude::*;

verus! {

/// One whole currency unit or share, in fixed-point scale.
pub const UNIT_SCALE: i64 = 1_000_000;

/// Largest admissible price, in fixed-point units (999,999,999 currency units).
pub const MAX_PRICE_UNITS: i64 = 999_999_999_000_000;

/// Largest admissible quantity, in fixed-point units.
pub const MAX_QTY_UNITS: i64 = 999_999_999_000_000;

/// Largest admissible gas fee, in fixed-point units.
pub const MAX_GAS_UNITS: i64 = 999_999_999_000_000;

/// How an order is used by the exchange.
#[derive(Clone, Copy, Debug, PartialEq, Eq, Structural)]
pub enum OrderType {
    Enter,
    Update,
    Cancel,
}

/// Which book an order belongs to.
#[derive(Clone, Copy, Debug, PartialEq, Eq, Structural)]
pub enum TradeType {
    Bid,
    Ask,
}

/// Which market design an order is written for.
#[derive(Clone, Copy, Debug, PartialEq, Eq, Structural)]
pub enum ExchangeType {
    LimitOrder,
    FlowOrder,
}

/// The order record every market design operates on.
/// `p_low` and `p_high` bound a flow order's willingness to trade;
/// `price` is a limit order's price; `quantity` shrinks as fills happen;
/// `gas` is the fee that buys priority in the miner's frame.
#[derive(Debug)]
pub struct Order {
    pub trader_id: String,
    pub order_id: u64,
    pub order_type: OrderType,
    pub trade_type: TradeType,
    pub ex_type: ExchangeType,
    pub p_low: i64,
    pub p_high: i64,
    pub price: i64,
    pub quantity: i64,
    pub gas: i64,
}

/// Field bounds every order placed into a book or mempool satisfies:
/// prices within `[0, MAX_PRICE_UNITS]` with `p_low <= p_high`, and
/// non-negative bounded quantity and gas.
pub open spec fn wf_order(o: Order) -> bool {
    &&& 0 <= o.price <= MAX_PRICE_UNITS
    &&& 0 <= o.p_low
    &&& o.p_low <= o.p_high
    &&& o.p_high <= MAX_PRICE_UNITS
    &&& 0 <= o.quantity <= MAX_QTY_UNITS
    &&& 0 <= o.gas <= MAX_GAS_UNITS
}

/// The quantity an ask flow order offers at price `p`: zero below
/// `p_low`, the full quantity at or above `p_high`, and in between the
/// linear interpolation, rounded down to a whole unit.
pub open spec fn flow_supply(o: Order, p: int) -> int {
    if p < o.p_low {
        0
    } else if p >= o.p_high {
        o.quantity as int
    } else {
        o.quantity - (o.quantity * (o.p_high - p)) / (o.p_high - o.p_low)
    }
}

/// The quantity a bid flow order seeks at price `p`: the full quantity
/// at or below `p_low`, zero above `p_high`, and in between the linear
/// interpolation, rounded down to a whole unit.
pub open spec fn flow_demand(o: Order, p: int) -> int {
    if p <= o.p_low {
        o.quantity as int
    } else if p > o.p_high {
        0
    } else {
        (o.quantity * (o.p_high - p)) / (o.p_high - o.p_low)
    }
}

/// The interpolated term of the flow schedules lies between 0 and the
/// order's quantity whenever `p_low <= p <= p_high` with `p_low < p_high`.
proof fn lemma_flow_interp_bounds(q: int, ph: int, pl: int, p: int)
    requires
        0 <= q,
        pl <= p <= ph,
        pl < ph,
    ensures
        0 <= (q * (ph - p)) / (ph - pl) <= q,
{
    lemma_mul_inequality(ph - p, ph - pl, q);
    assert(q * (ph - p) == (ph - p) * q) by (nonlinear_arith);
    assert(q * (ph - pl) == (ph - pl) * q) by (nonlinear_arith);
    lemma_div_is_ordered(q * (ph - p), q * (ph - pl), ph - pl);
    assert((q * (ph - pl)) / (ph - pl) == q) by (nonlinear_arith)
        requires
            pl < ph,
    ;
    assert(q * (ph - p) >= 0) by (nonlinear_arith)
        requires
            0 <= q && p <= ph,
    ;
    assert((q * (ph - p)) / (ph - pl) >= 0) by {
        lemma_div_is_ordered(0, q * (ph - p), ph - pl);
    }
}

/// The flow schedules stay between zero and the order's quantity.
pub proof fn lemma_flow_supply_bounds(o: Order, p: int)
    requires
        wf_order(o),
    ensures
        0 <= flow_supply(o, p) <= o.quantity,
{
    if o.p_low <= p < o.p_high {
        lemma_flow_interp_bounds(o.quantity as int, o.p_high as int, o.p_low as int, p);
    }
}

/// The flow schedules stay between zero and the order's quantity.
pub proof fn lemma_flow_demand_bounds(o: Order, p: int)
    requires
        wf_order(o),
    ensures
        0 <= flow_demand(o, p) <= o.quantity,
{
    if o.p_low < p <= o.p_high {
        lemma_flow_interp_bounds(o.quantity as int, o.p_high as int, o.p_low as int, p);
    }
}

impl Clone for Order {
    /// A clone is the same record, field for field.
    fn clone(&self) -> (r: Order)
        ensures
            r == *self,
    {
        Order {
            trader_id: self.trader_id.clone(),
            order_id: self.order_id,
            order_type: self.order_type,
            trade_type: self.trade_type,
            ex_type: self.ex_type,
            p_low: self.p_low,
            p_high: self.p_high,
            price: self.price,
            quantity: self.quantity,
            gas: self.gas,
        }
    }
}

impl Order {
    /// Builds an order with the given fields and a freshly drawn order id.
    /// The id comes from a random source, so it is not pinned here.
    pub fn new(
        t_id: String,
        o_t: OrderType,
        t_t: TradeType,
        e_t: ExchangeType,
        p_l: i64,
        p_h: i64,
        p: i64,
        q: i64,
        gas: i64,
    ) -> (r: Order)
        requires
            0 <= p <= MAX_PRICE_UNITS,
            0 <= p_l,
            p_l <= p_h,
            p_h <= MAX_PRICE_UNITS,
            0 <= q <= MAX_QTY_UNITS,
            0 <= gas <= MAX_GAS_UNITS,
        ensures
            r.trader_id == t_id,
            r.order_type == o_t,
            r.trade_type == t_t,
            r.ex_type == e_t,
            r.p_low == p_l,
            r.p_high == p_h,
            r.price == p,
            r.quantity == q,
            r.gas == gas,
            wf_order(r),
    {
        Order {
            trader_id: t_id,
            order_id: gen_order_id(),
            order_type: o_t,
            trade_type: t_t,
            ex_type: e_t,
            p_low: p_l,
            p_high: p_h,
            price: p,
            quantity: q,
            gas: gas,
        }
    }

    /// Given a price, the quantity of shares this ask flow order is
    /// willing to sell.
    pub fn calc_flow_supply(&self, price: i64) -> (r: i64)
        requires
            self.ex_type == ExchangeType::FlowOrder,
            self.trade_type == TradeType::Ask,
            wf_order(*self),
        ensures
            r == flow_supply(*self, price as int),
            0 <= r <= self.quantity,
    {
        proof {
            lemma_flow_supply_bounds(*self, price as int);
        }
        if price < self.p_low {
            0
        } else if price >= self.p_high {
            self.quantity
        } else {
            proof {
                assert((self.quantity as int) * ((self.p_high - price) as int) <= (
                MAX_QTY_UNITS as int) * (MAX_PRICE_UNITS as int)) by (nonlinear_arith)
                    requires
                        0 <= self.quantity <= MAX_QTY_UNITS,
                        0 <= self.p_high - price <= MAX_PRICE_UNITS,
                ;
                assert((self.quantity as int) * ((self.p_high - price) as int) >= 0)
                    by (nonlinear_arith)
                    requires
                        0 <= self.quantity,
                        0 <= self.p_high - price,
                ;
            }
            let num: i128 = (self.quantity as i128) * ((self.p_high - price) as i128);
            let q: i128 = num / ((self.p_high - self.p_low) as i128);
            proof {
                lemma_flow_interp_bounds(
                    self.quantity as int,
                    self.p_high as int,
                    self.p_low as int,
                    price as int,
                );
            }
            self.quantity - (q as i64)
        }
    }

    /// Given a price, the quantity of shares this bid flow order is
    /// willing to buy.
    pub fn calc_flow_demand(&self, price: i64) -> (r: i64)
        requires
            self.ex_type == ExchangeType::FlowOrder,
            self.trade_type == TradeType::Bid,
            wf_order(*self),
        ensures
            r == flow_demand(*self, price as int),
            0 <= r <= self.quantity,
    {
        proof {
            lemma_flow_demand_bounds(*self, price as int);
        }
        if price <= self.p_low {
            self.quantity
        } else if price > self.p_high {
            0
        } else {
            proof {
                assert((self.quantity as int) * ((self.p_high - price) as int) <= (
                MAX_QTY_UNITS as int) * (MAX_PRICE_UNITS as int)) by (nonlinear_arith)
                    requires
                        0 <= self.quantity <= MAX_QTY_UNITS,
                        0 <= self.p_high - price <= MAX_PRICE_UNITS,
                ;
                assert((self.quantity as int) * ((self.p_high - price) as int) >= 0)
                    by (nonlinear_arith)
                    requires
                        0 <= self.quantity,
                        0 <= self.p_high - price,
                ;
            }
            let num: i128 = (self.quantity as i128) * ((self.p_high - price) as i128);
            let q: i128 = num / ((self.p_high - self.p_low) as i128);
            proof {
                lemma_flow_interp_bounds(
                    self.quantity as int,
                    self.p_high as int,
                    self.p_low as int,
                    price as int,
                );
            }
            q as i64
        }
    }
}

} // verus!
