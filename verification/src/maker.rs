//! The maker player: quotes a bid and an ask around the fundamental
//! value inferred from the mempool history, with a spread and gas fee
//! set by its behavioural type, and a skew that unloads inventory.
//! Random draws are sampled by the driver and passed in, so every
//! quoting rule here is a checked function of its inputs.

use crate::history::{LikelihoodStats, PriorData};
use crate::order::{
    wf_order, ExchangeType, Order, OrderType, TradeType, MAX_GAS_UNITS, MAX_PRICE_UNITS,
    MAX_QTY_UNITS,
};
use crate::exchange::MarketType;
use crate::players::{add_clamped, clamp_i128, TraderT};
use crate::order::UNIT_SCALE;
use crate::simulation::Constants;
use crate::utility::random_u64;
use vstd::prelude::*;

verus! {

/// Half a unit in fixed-point scale.
pub const HALF_SCALE: i64 = 500_000;

/// The maker's behavioural type.
#[derive(Debug, Clone, Copy, PartialEq, Eq, Structural)]
pub enum MakerT {
    Aggressive,
    RiskAverse,
    Random,
}

/// The maker's record: identity, ledgers, open orders and behaviour.
pub struct Maker {
    pub trader_id: String,
    pub orders: Vec<Order>,
    pub balance: i128,
    pub inventory: i128,
    pub player_type: TraderT,
    pub maker_type: MakerT,
}

/// The inventory skew ratio, in fixed-point scale: negative inventory
/// gives a ratio in [1/2, 1], clamped above; non-negative inventory
/// gives a ratio in [0, 1/2], clamped above.
pub open spec fn normalize_inv_spec(inv: int, max_held: int) -> int {
    if inv < 0 {
        let ratio = HALF_SCALE + ((-inv) * (HALF_SCALE as int)) / max_held;
        if ratio > UNIT_SCALE {
            UNIT_SCALE as int
        } else {
            ratio
        }
    } else {
        let ratio = (inv * (HALF_SCALE as int)) / max_held;
        if ratio > HALF_SCALE {
            HALF_SCALE as int
        } else {
            ratio
        }
    }
}

/// The spread a maker of the given type quotes: the base spread for
/// the aggressive type, twice it for the risk-averse type, and the
/// magnitude of the sampled draw for the random type.
pub open spec fn maker_spread(mt: MakerT, base: int, draw: int) -> int {
    match mt {
        MakerT::Aggressive => base,
        MakerT::RiskAverse => 2 * base,
        MakerT::Random => if draw < 0 {
            -draw
        } else {
            draw
        },
    }
}

/// The maker's quote around the inferred fundamental `inf` with
/// spread `s`: zero inventory centres the quote and sizes both sides
/// at half a unit; otherwise the skew ratio widens the bid side and
/// narrows the ask side (or the reverse), and sizes the sides by the
/// ratio.  Returns `(bid_price, ask_price, bid_quantity,
/// ask_quantity)`.
pub open spec fn maker_quote(inv: int, max_held: int, inf: int, s: int) -> (int, int, int, int) {
    if inv == 0 {
        (inf - s / 2, inf + s / 2, HALF_SCALE as int, HALF_SCALE as int)
    } else {
        let r = normalize_inv_spec(inv, max_held);
        (
            inf - (r * s) / (UNIT_SCALE as int),
            inf + (((UNIT_SCALE as int) - r) * s) / (UNIT_SCALE as int),
            r,
            (UNIT_SCALE as int) - r,
        )
    }
}

/// The quote prices stay within `[inf - s, inf + s]` and the ratio
/// stays within one unit.
pub proof fn lemma_maker_quote_bounds(inv: int, max_held: int, inf: int, s: int)
    requires
        max_held > 0,
        0 <= s,
    ensures
        ({
            let q = maker_quote(inv, max_held, inf, s);
            &&& inf - s <= q.0 <= inf
            &&& inf <= q.1 <= inf + s
            &&& 0 <= q.2 <= UNIT_SCALE
            &&& 0 <= q.3 <= UNIT_SCALE
        }),
{
    lemma_normalize_bounds(inv, max_held);
    if inv == 0 {
        assert(0 <= s / 2 <= s);
    } else {
        let r = normalize_inv_spec(inv, max_held);
        assert(0 <= (r * s) / (UNIT_SCALE as int) <= s) by (nonlinear_arith)
            requires
                0 <= r <= UNIT_SCALE && 0 <= s,
        ;
        assert(0 <= (((UNIT_SCALE as int) - r) * s) / (UNIT_SCALE as int) <= s)
            by (nonlinear_arith)
            requires
                0 <= r <= UNIT_SCALE && 0 <= s,
        ;
    }
}

/// The skew ratio stays within one unit.
pub proof fn lemma_normalize_bounds(inv: int, max_held: int)
    requires
        max_held > 0,
    ensures
        0 <= normalize_inv_spec(inv, max_held) <= UNIT_SCALE,
{
    if inv < 0 {
        assert(((-inv) * (HALF_SCALE as int)) / max_held >= 0) by (nonlinear_arith)
            requires
                inv < 0 && max_held > 0,
        ;
    } else {
        assert((inv * (HALF_SCALE as int)) / max_held >= 0) by (nonlinear_arith)
            requires
                inv >= 0 && max_held > 0,
        ;
    }
}

/// What the maker's quoting rule needs of its inputs: a positive
/// inventory cap, bounded inventory, spreads and draws, and an
/// inferred fundamental far enough from the price bounds that both
/// quotes and their flow ranges stay representable.
pub open spec fn maker_orders_pre(
    m: Maker,
    wtd: Option<i64>,
    mean_pool_gas: i64,
    spread_draw: i64,
    gas_draw: i64,
    consts: Constants,
) -> bool {
    &&& consts.max_held_inventory > 0
    &&& -(MAX_QTY_UNITS as i128) <= m.inventory <= MAX_QTY_UNITS as i128
    &&& 0 <= consts.maker_base_spread
    &&& 2 * consts.maker_base_spread <= MAX_PRICE_UNITS
    &&& -MAX_PRICE_UNITS <= spread_draw <= MAX_PRICE_UNITS
    &&& 0 <= consts.flow_order_offset
    &&& 0 <= mean_pool_gas <= MAX_GAS_UNITS
    &&& -MAX_GAS_UNITS <= gas_draw <= MAX_GAS_UNITS
    &&& mean_pool_gas + gas_draw <= MAX_GAS_UNITS
    &&& (m.maker_type == MakerT::Aggressive ==> gas_draw >= 0)
    &&& match wtd {
        Some(inf) => {
            let s = maker_spread(m.maker_type, consts.maker_base_spread as int, spread_draw as int);
            &&& s <= inf
            &&& inf + s <= MAX_PRICE_UNITS
            &&& consts.flow_order_offset <= inf - s
            &&& inf + s + consts.flow_order_offset <= MAX_PRICE_UNITS
        },
        None => true,
    }
}

/// What the maker's quoting rule returns: no orders without an
/// inferred fundamental, else one bid and one ask quoted by
/// `maker_quote`, bracketed by the flow offset, equally gassed, and
/// well-formed.
pub open spec fn maker_orders_post(
    m: Maker,
    wtd: Option<i64>,
    spread_draw: i64,
    consts: Constants,
    r: Option<(Order, Order)>,
) -> bool {
    match wtd {
        Some(inf) => {
            let s = maker_spread(m.maker_type, consts.maker_base_spread as int, spread_draw as int);
            let q = maker_quote(m.inventory as int, consts.max_held_inventory as int, inf as int, s);
            let ext = match consts.market_type {
                MarketType::CDA | MarketType::FBA => ExchangeType::LimitOrder,
                MarketType::KLF => ExchangeType::FlowOrder,
            };
            match r {
                Some(pair) => {
                    let bid = pair.0;
                    let ask = pair.1;
                    &&& bid.trader_id == m.trader_id
                    &&& bid.order_type == OrderType::Enter
                    &&& bid.trade_type == TradeType::Bid
                    &&& bid.ex_type == ext
                    &&& bid.price == q.0
                    &&& bid.p_low == q.0
                    &&& bid.p_high == q.0 + consts.flow_order_offset
                    &&& bid.quantity == q.2
                    &&& ask.trader_id == m.trader_id
                    &&& ask.order_type == OrderType::Enter
                    &&& ask.trade_type == TradeType::Ask
                    &&& ask.ex_type == ext
                    &&& ask.price == q.1
                    &&& ask.p_low == q.1 - consts.flow_order_offset
                    &&& ask.p_high == q.1
                    &&& ask.quantity == q.3
                    &&& bid.gas == ask.gas
                    &&& wf_order(bid)
                    &&& wf_order(ask)
                },
                None => false,
            }
        },
        None => r is None,
    }
}

impl Maker {
    /// A fresh maker of the given behavioural type with empty ledgers.
    pub fn new(trader_id: String, maker_type: MakerT) -> (r: Maker)
        ensures
            r.trader_id == trader_id,
            r.orders@.len() == 0,
            r.balance == 0,
            r.inventory == 0,
            r.player_type == TraderT::Maker,
            r.maker_type == maker_type,
    {
        Maker {
            trader_id,
            orders: Vec::new(),
            balance: 0,
            inventory: 0,
            player_type: TraderT::Maker,
            maker_type,
        }
    }

    /// Adds to the balance, clamping at the representation bounds.
    pub fn update_bal(&mut self, to_add: i128)
        ensures
            final(self).balance as int == clamp_i128(old(self).balance + to_add),
            *final(self) == (Maker { balance: final(self).balance, ..*old(self) }),
    {
        self.balance = add_clamped(self.balance, to_add);
    }

    /// Adds to the inventory, clamping at the representation bounds.
    pub fn update_inv(&mut self, to_add: i128)
        ensures
            final(self).inventory as int == clamp_i128(old(self).inventory + to_add),
            *final(self) == (Maker { inventory: final(self).inventory, ..*old(self) }),
    {
        self.inventory = add_clamped(self.inventory, to_add);
    }

    /// The maker's balance.
    pub fn get_bal(&self) -> (r: i128)
        ensures
            r == self.balance,
    {
        self.balance
    }

    /// The maker's inventory.
    pub fn get_inv(&self) -> (r: i128)
        ensures
            r == self.inventory,
    {
        self.inventory
    }

    /// A copy of the most recently recorded open order, if any.
    pub fn copy_last_order(&self) -> (r: Option<Order>)
        ensures
            self.orders@.len() == 0 ==> r is None,
            self.orders@.len() > 0 ==> r == Some(self.orders@.last()),
    {
        if self.orders.len() > 0 {
            Some(self.orders[self.orders.len() - 1].clone())
        } else {
            None
        }
    }

    /// A behavioural type drawn at random, each equally likely.
    pub fn gen_rand_type() -> (r: MakerT) {
        let draw = random_u64();
        match draw % 3 {
            0 => MakerT::Aggressive,
            1 => MakerT::RiskAverse,
            _ => MakerT::Random,
        }
    }

    /// The gas fee the maker attaches, from the mean pool gas and a
    /// type-specific draw: the aggressive type bids above the mean,
    /// the risk-averse type matches it, the random type pays the
    /// magnitude of a draw centred on it.
    pub fn calc_gas(&self, mean_gas: i64, draw: i64) -> (r: i64)
        requires
            0 <= mean_gas <= MAX_GAS_UNITS,
            -MAX_GAS_UNITS <= draw <= MAX_GAS_UNITS,
            mean_gas + draw <= MAX_GAS_UNITS,
            self.maker_type == MakerT::Aggressive ==> draw >= 0,
        ensures
            r as int == match self.maker_type {
                MakerT::Aggressive => mean_gas + draw,
                MakerT::RiskAverse => mean_gas as int,
                MakerT::Random => if draw < 0 {
                    -draw as int
                } else {
                    draw as int
                },
            },
            0 <= r <= MAX_GAS_UNITS,
    {
        match self.maker_type {
            MakerT::Aggressive => mean_gas + draw,
            MakerT::RiskAverse => mean_gas,
            MakerT::Random => if draw < 0 {
                -draw
            } else {
                draw
            },
        }
    }

    /// The inventory skew ratio for the configured inventory cap.
    pub fn normalize_inv(&self, consts: &Constants) -> (r: i64)
        requires
            consts.max_held_inventory > 0,
            -(MAX_QTY_UNITS as i128) <= self.inventory <= MAX_QTY_UNITS as i128,
        ensures
            r as int == normalize_inv_spec(
                self.inventory as int,
                consts.max_held_inventory as int,
            ),
            0 <= r <= UNIT_SCALE,
    {
        proof {
            lemma_normalize_bounds(self.inventory as int, consts.max_held_inventory as int);
        }
        if self.inventory < 0 {
            let num: i128 = (-self.inventory) * (HALF_SCALE as i128);
            let ratio: i128 = (HALF_SCALE as i128) + num / (consts.max_held_inventory as i128);
            if ratio > UNIT_SCALE as i128 {
                UNIT_SCALE
            } else {
                ratio as i64
            }
        } else {
            let num: i128 = self.inventory * (HALF_SCALE as i128);
            let ratio: i128 = num / (consts.max_held_inventory as i128);
            if ratio > HALF_SCALE as i128 {
                HALF_SCALE
            } else {
                ratio as i64
            }
        }
    }

    /// The maker's bid and ask prices and quantities around the
    /// inferred fundamental value, skewed by inventory; `None` when no
    /// fundamental was supplied.
    pub fn calc_price_inv(&self, price: Option<i64>, spread_draw: i64, consts: &Constants) -> (r:
        Option<(i64, i64, i64, i64)>)
        requires
            consts.max_held_inventory > 0,
            -(MAX_QTY_UNITS as i128) <= self.inventory <= MAX_QTY_UNITS as i128,
            0 <= consts.maker_base_spread,
            2 * consts.maker_base_spread <= MAX_PRICE_UNITS,
            -MAX_PRICE_UNITS <= spread_draw <= MAX_PRICE_UNITS,
            match price {
                Some(inf) => {
                    let s = maker_spread(
                        self.maker_type,
                        consts.maker_base_spread as int,
                        spread_draw as int,
                    );
                    s <= inf && inf + s <= MAX_PRICE_UNITS
                },
                None => true,
            },
        ensures
            price is None ==> r is None,
            match price {
                Some(inf) => {
                    let s = maker_spread(
                        self.maker_type,
                        consts.maker_base_spread as int,
                        spread_draw as int,
                    );
                    let q = maker_quote(
                        self.inventory as int,
                        consts.max_held_inventory as int,
                        inf as int,
                        s,
                    );
                    r == Some((q.0 as i64, q.1 as i64, q.2 as i64, q.3 as i64))
                },
                None => r is None,
            },
    {
        match price {
            None => None,
            Some(inf_fv) => {
                let spread: i64 = match self.maker_type {
                    MakerT::Aggressive => consts.maker_base_spread,
                    MakerT::RiskAverse => 2 * consts.maker_base_spread,
                    MakerT::Random => if spread_draw < 0 {
                        -spread_draw
                    } else {
                        spread_draw
                    },
                };
                proof {
                    lemma_maker_quote_bounds(
                        self.inventory as int,
                        consts.max_held_inventory as int,
                        inf_fv as int,
                        spread as int,
                    );
                }
                if self.inventory == 0 {
                    let bid_price = inf_fv - spread / 2;
                    let ask_price = inf_fv + spread / 2;
                    Some((bid_price, ask_price, HALF_SCALE, HALF_SCALE))
                } else {
                    let ratio = self.normalize_inv(consts);
                    let bid_spread: i64 = (((ratio as i128) * (spread as i128)) / (
                    UNIT_SCALE as i128)) as i64;
                    let ask_spread: i64 = ((((UNIT_SCALE - ratio) as i128) * (spread as i128)) / (
                    UNIT_SCALE as i128)) as i64;
                    proof {
                        assert(0 <= (ratio as int) * (spread as int) <= (UNIT_SCALE as int) * (
                        MAX_PRICE_UNITS as int)) by (nonlinear_arith)
                            requires
                                0 <= ratio <= UNIT_SCALE && 0 <= spread <= MAX_PRICE_UNITS,
                        ;
                        assert(0 <= ((UNIT_SCALE - ratio) as int) * (spread as int) <= (
                        UNIT_SCALE as int) * (MAX_PRICE_UNITS as int)) by (nonlinear_arith)
                            requires
                                0 <= ratio <= UNIT_SCALE && 0 <= spread <= MAX_PRICE_UNITS,
                        ;
                    }
                    let bid_price = inf_fv - bid_spread;
                    let ask_price = inf_fv + ask_spread;
                    Some((bid_price, ask_price, ratio, UNIT_SCALE - ratio))
                }
            },
        }
    }

    /// The pair of orders the maker submits for this block: a bid and
    /// an ask quoted around the mempool-wide weighted price, with gas
    /// from the mean pool gas and the type's draw.  `None` when the
    /// weighted price is undefined.
    pub fn new_orders(
        &self,
        data: &PriorData,
        inference: &LikelihoodStats,
        spread_draw: i64,
        gas_draw: i64,
        consts: &Constants,
    ) -> (r: Option<(Order, Order)>)
        requires
            maker_orders_pre(
                *self,
                inference.weighted_price,
                data.mean_pool_gas,
                spread_draw,
                gas_draw,
                *consts,
            ),
        ensures
            inference.weighted_price is None ==> r is None,
            maker_orders_post(*self, inference.weighted_price, spread_draw, *consts, r),
    {
        let wtd_pool_price = match inference.weighted_price {
            Some(price) => price,
            None => {
                return None;
            },
        };
        let ex_type = match consts.market_type {
            MarketType::CDA | MarketType::FBA => ExchangeType::LimitOrder,
            MarketType::KLF => ExchangeType::FlowOrder,
        };
        proof {
            lemma_maker_quote_bounds(
                self.inventory as int,
                consts.max_held_inventory as int,
                wtd_pool_price as int,
                maker_spread(
                    self.maker_type,
                    consts.maker_base_spread as int,
                    spread_draw as int,
                ),
            );
        }
        let quote = match self.calc_price_inv(Some(wtd_pool_price), spread_draw, consts) {
            Some(q) => q,
            None => {
                return None;
            },
        };
        let bid_price = quote.0;
        let ask_price = quote.1;
        let bid_amt = quote.2;
        let ask_amt = quote.3;
        let bid_p_low = bid_price;
        let bid_p_high = bid_price + consts.flow_order_offset;
        let ask_p_low = ask_price - consts.flow_order_offset;
        let ask_p_high = ask_price;
        let gas = self.calc_gas(data.mean_pool_gas, gas_draw);
        let bid_order = Order::new(
            self.trader_id.clone(),
            OrderType::Enter,
            TradeType::Bid,
            ex_type,
            bid_p_low,
            bid_p_high,
            bid_price,
            bid_amt,
            gas,
        );
        let ask_order = Order::new(
            self.trader_id.clone(),
            OrderType::Enter,
            TradeType::Ask,
            ex_type,
            ask_p_low,
            ask_p_high,
            ask_price,
            ask_amt,
            gas,
        );
        Some((bid_order, ask_order))
    }
}

} // verus!
