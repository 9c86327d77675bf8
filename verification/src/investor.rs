//! The investor player: submits one order at a time, priced and sized
//! from configured distributions.  The sampling is the driver's;
//! building the order from the sampled values is here.

use crate::order::{
    wf_order, ExchangeType, Order, OrderType, TradeType, MAX_GAS_UNITS, MAX_PRICE_UNITS,
    MAX_QTY_UNITS,
};
use crate::exchange::MarketType;
use crate::players::{add_clamped, clamp_i128, TraderT};
use vstd::prelude::*;

verus! {

/// The investor's record: identity, ledgers and the orders it believes
/// are live.
pub struct Investor {
    pub trader_id: String,
    pub orders: Vec<Order>,
    pub balance: i128,
    pub inventory: i128,
    pub player_type: TraderT,
    pub sent_orders: Vec<(u64, OrderType)>,
}

impl Investor {
    /// A fresh investor with empty ledgers.
    pub fn new(trader_id: String) -> (r: Investor)
        ensures
            r.trader_id == trader_id,
            r.orders@.len() == 0,
            r.balance == 0,
            r.inventory == 0,
            r.player_type == TraderT::Investor,
            r.sent_orders@.len() == 0,
    {
        Investor {
            trader_id,
            orders: Vec::new(),
            balance: 0,
            inventory: 0,
            player_type: TraderT::Investor,
            sent_orders: Vec::new(),
        }
    }

    /// Adds to the balance, clamping at the representation bounds.
    pub fn update_bal(&mut self, to_add: i128)
        ensures
            final(self).balance as int == clamp_i128(old(self).balance + to_add),
            *final(self) == (Investor { balance: final(self).balance, ..*old(self) }),
    {
        self.balance = add_clamped(self.balance, to_add);
    }

    /// Adds to the inventory, clamping at the representation bounds.
    pub fn update_inv(&mut self, to_add: i128)
        ensures
            final(self).inventory as int == clamp_i128(old(self).inventory + to_add),
            *final(self) == (Investor { inventory: final(self).inventory, ..*old(self) }),
    {
        self.inventory = add_clamped(self.inventory, to_add);
    }

    /// The investor's balance.
    pub fn get_bal(&self) -> (r: i128)
        ensures
            r == self.balance,
    {
        self.balance
    }

    /// The investor's inventory.
    pub fn get_inv(&self) -> (r: i128)
        ensures
            r == self.inventory,
    {
        self.inventory
    }
}

/// Builds the order an investor submits from its sampled parameters:
/// limit markets carry the price in both range ends; flow markets
/// bracket the price by the configured offset, below for bids and
/// above for asks.
pub fn investor_order(
    trader_id: String,
    trade_type: TradeType,
    price: i64,
    quantity: i64,
    gas: i64,
    market_type: MarketType,
    flow_order_offset: i64,
) -> (r: Order)
    requires
        0 <= flow_order_offset,
        flow_order_offset <= price <= MAX_PRICE_UNITS - flow_order_offset,
        0 <= quantity <= MAX_QTY_UNITS,
        0 <= gas <= MAX_GAS_UNITS,
    ensures
        r.trader_id == trader_id,
        r.order_type == OrderType::Enter,
        r.trade_type == trade_type,
        r.price == price,
        r.quantity == quantity,
        r.gas == gas,
        r.ex_type == match market_type {
            MarketType::CDA | MarketType::FBA => ExchangeType::LimitOrder,
            MarketType::KLF => ExchangeType::FlowOrder,
        },
        match market_type {
            MarketType::CDA | MarketType::FBA => r.p_low == price && r.p_high == price,
            MarketType::KLF => match trade_type {
                TradeType::Ask => r.p_low == price && r.p_high == price + flow_order_offset,
                TradeType::Bid => r.p_low == price - flow_order_offset && r.p_high == price,
            },
        },
        wf_order(r),
{
    let ex_type = match market_type {
        MarketType::CDA | MarketType::FBA => ExchangeType::LimitOrder,
        MarketType::KLF => ExchangeType::FlowOrder,
    };
    let (p_l, p_h) = match ex_type {
        ExchangeType::LimitOrder => (price, price),
        ExchangeType::FlowOrder => match trade_type {
            TradeType::Ask => (price, price + flow_order_offset),
            TradeType::Bid => (price - flow_order_offset, price),
        },
    };
    Order::new(trader_id, OrderType::Enter, trade_type, ex_type, p_l, p_h, price, quantity, gas)
}

} // verus!
