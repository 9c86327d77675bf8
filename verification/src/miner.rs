//! The miner player: drains the gas-sorted mempool into a frame,
//! optionally inserts a front-running copy of the frame's best-priced
//! order at slot zero, publishes the frame to the books, and collects
//! the frame's gas fees for the clearing house to apply.

use crate::auction::{bs_search, fba_post, klf_post, Auction};
use crate::book::{all_flow_asks, all_flow_bids, all_wf, seq_max_phigh, seq_min_plow, sorted_asc, sorted_desc, Book, BookV};
use crate::exchange::{MarketType, TradeResults};
use crate::history::gas_sum;
use crate::mempool::{sort_gas_desc, MemPool};
use crate::order::{wf_order, Order, OrderType, TradeType, MAX_GAS_UNITS, MAX_PRICE_UNITS, UNIT_SCALE};
use crate::players::{add_clamped, clamp_i128, TraderT};
use crate::processor::{frame_flow, seq_process_spec, trs_view, MemPoolProcessor};
use crate::utility::gen_order_id;
use vstd::prelude::*;

verus! {

/// The miner's record: identity, ledgers, the orders it has submitted
/// itself, and the frame under construction for the next block.
pub struct Miner {
    pub trader_id: String,
    pub orders: Vec<Order>,
    pub frame: Vec<Order>,
    pub balance: i128,
    pub inventory: i128,
    pub player_type: TraderT,
    pub sent_orders: Vec<(u64, OrderType)>,
}

/// The highest-priced bid in the sequence, earliest first among ties.
pub open spec fn best_bid_in(s: Seq<Order>) -> Option<Order>
    decreases s.len(),
{
    if s.len() == 0 {
        None
    } else {
        let prev = best_bid_in(s.drop_last());
        let o = s.last();
        if o.trade_type == TradeType::Bid && (prev is None || o.price > prev.unwrap().price) {
            Some(o)
        } else {
            prev
        }
    }
}

/// The lowest-priced ask in the sequence, earliest first among ties.
pub open spec fn best_ask_in(s: Seq<Order>) -> Option<Order>
    decreases s.len(),
{
    if s.len() == 0 {
        None
    } else {
        let prev = best_ask_in(s.drop_last());
        let o = s.last();
        if o.trade_type == TradeType::Ask && (prev is None || o.price < prev.unwrap().price) {
            Some(o)
        } else {
            prev
        }
    }
}

/// The frame order a strategic front-run copies: the highest bid or
/// lowest ask of the frame, whichever promises the larger profit
/// against the books' best prices; `None` when neither side is
/// profitable or the frame holds no order.
pub open spec fn front_run_choice(s: Seq<Order>, best_bid_price: int, best_ask_price: int) -> Option<
    Order,
> {
    match (best_bid_in(s), best_ask_in(s)) {
        (None, None) => None,
        (Some(b), None) => Some(b),
        (None, Some(a)) => Some(a),
        (Some(b), Some(a)) => {
            let bid_profit = best_ask_price - b.price;
            let ask_profit = a.price - best_bid_price;
            if bid_profit < 0 && ask_profit < 0 {
                None
            } else if bid_profit >= 0 && ask_profit < 0 {
                Some(b)
            } else if bid_profit < 0 && ask_profit >= 0 {
                Some(a)
            } else if bid_profit >= ask_profit {
                Some(b)
            } else {
                Some(a)
            }
        },
    }
}

impl Miner {
    /// A fresh miner with empty ledgers and an empty frame.
    pub fn new(trader_id: String) -> (r: Miner)
        ensures
            r.trader_id == trader_id,
            r.orders@.len() == 0,
            r.frame@.len() == 0,
            r.balance == 0,
            r.inventory == 0,
            r.player_type == TraderT::Miner,
            r.sent_orders@.len() == 0,
    {
        Miner {
            trader_id,
            orders: Vec::new(),
            frame: Vec::new(),
            balance: 0,
            inventory: 0,
            player_type: TraderT::Miner,
            sent_orders: Vec::new(),
        }
    }

    /// Adds to the balance, clamping at the representation bounds.
    pub fn update_bal(&mut self, to_add: i128)
        ensures
            final(self).balance as int == clamp_i128(old(self).balance + to_add),
            *final(self) == (Miner { balance: final(self).balance, ..*old(self) }),
    {
        self.balance = add_clamped(self.balance, to_add);
    }

    /// Adds to the inventory, clamping at the representation bounds.
    pub fn update_inv(&mut self, to_add: i128)
        ensures
            final(self).inventory as int == clamp_i128(old(self).inventory + to_add),
            *final(self) == (Miner { inventory: final(self).inventory, ..*old(self) }),
    {
        self.inventory = add_clamped(self.inventory, to_add);
    }

    /// The miner's balance.
    pub fn get_bal(&self) -> (r: i128)
        ensures
            r == self.balance,
    {
        self.balance
    }

    /// The miner's inventory.
    pub fn get_inv(&self) -> (r: i128)
        ensures
            r == self.inventory,
    {
        self.inventory
    }

    /// Sorts the pool by descending gas and drains up to `block_size`
    /// orders, in the canonical block order, into the frame.  An empty
    /// pool leaves the frame alone.
    pub fn make_frame(&mut self, pool: &mut MemPool, block_size: usize)
        ensures
            *final(self) == (Miner { frame: final(self).frame, ..*old(self) }),
            old(pool).items@.len() == 0 ==> final(self).frame@ == old(self).frame@
                && final(pool).items@ == old(pool).items@,
            old(pool).items@.len() > 0 ==> {
                let sorted = sort_gas_desc(old(pool).items@);
                if old(pool).items@.len() <= block_size {
                    final(self).frame@ == sorted && final(pool).items@.len() == 0
                } else {
                    final(self).frame@ == sorted.take(block_size as int) && final(pool).items@
                        == sorted.skip(block_size as int)
                }
            },
            all_wf(old(pool).items@) && old(pool).items@.len() > 0 ==> all_wf(
                final(self).frame@,
            ),
    {
        let size = pool.length();
        if size == 0 {
            return ;
        }
        pool.sort_by_gas();
        proof {
            crate::mempool::lemma_sort_by_gas_sorted(old(pool).items@);
        }
        if size <= block_size {
            self.frame = pool.pop_all();
        } else {
            self.frame = pool.pop_n(block_size);
            proof {
                if all_wf(sort_gas_desc(old(pool).items@)) {
                    assert(all_wf(sort_gas_desc(old(pool).items@).take(block_size as int))) by {
                        let s = sort_gas_desc(old(pool).items@);
                        assert(forall|k: int|
                            0 <= k < block_size ==> s.take(block_size as int)[k] == s[k]);
                    }
                }
            }
        }
    }

    /// Applies the frame to the books in sequence, then runs the
    /// market's end-of-block auction and appends its result.  Returns
    /// the full list of trade results, or `None` when nothing crossed.
    pub fn publish_frame(&mut self, bids: &mut Book, asks: &mut Book, m_t: MarketType) -> (r:
        Option<Vec<TradeResults>>)
        requires
            old(bids)@.book_type == TradeType::Bid,
            old(asks)@.book_type == TradeType::Ask,
            sorted_asc(old(bids)@.orders),
            sorted_desc(old(asks)@.orders),
            all_wf(old(bids)@.orders),
            all_wf(old(asks)@.orders),
            all_wf(old(self).frame@),
            m_t == MarketType::KLF ==> all_flow_bids(old(bids)@.orders) && all_flow_asks(
                old(asks)@.orders,
            ) && frame_flow(old(self).frame@),
        ensures
            *final(self) == (Miner { frame: final(self).frame, ..*old(self) }),
            final(self).frame@.len() == 0,
            final(bids)@.book_type == TradeType::Bid,
            final(asks)@.book_type == TradeType::Ask,
            sorted_asc(final(bids)@.orders),
            sorted_desc(final(asks)@.orders),
            all_wf(final(bids)@.orders),
            all_wf(final(asks)@.orders),
            (m_t == MarketType::KLF && all_flow_bids(old(bids)@.orders) && all_flow_asks(
                old(asks)@.orders,
            ) && frame_flow(old(self).frame@)) ==> (all_flow_bids(final(bids)@.orders)
                && all_flow_asks(final(asks)@.orders)),
            ({
                let proc = seq_process_spec(old(bids)@, old(asks)@, old(self).frame@, m_t);
                match m_t {
                    MarketType::CDA => {
                        &&& final(bids)@ == proc.bids
                        &&& final(asks)@ == proc.asks
                        &&& match r {
                            None => proc.results.len() == 0,
                            Some(v) => v@.len() > 0 && trs_view(v@) == proc.results,
                        }
                    },
                    MarketType::FBA => match r {
                        Some(v) => v@.len() > 0 && trs_view(v@).drop_last() == proc.results
                            && fba_post(
                            proc.bids,
                            proc.asks,
                            final(bids)@,
                            final(asks)@,
                            Some(trs_view(v@).last()),
                        ),
                        None => false,
                    },
                    MarketType::KLF => {
                        let l0 = if seq_min_plow(proc.bids.orders) < seq_min_plow(
                            proc.asks.orders,
                        ) {
                            seq_min_plow(proc.bids.orders)
                        } else {
                            seq_min_plow(proc.asks.orders)
                        };
                        let r0 = if seq_max_phigh(proc.bids.orders) > seq_max_phigh(
                            proc.asks.orders,
                        ) {
                            seq_max_phigh(proc.bids.orders)
                        } else {
                            seq_max_phigh(proc.asks.orders)
                        };
                        if l0 >= r0 {
                            &&& final(bids)@ == proc.bids
                            &&& final(asks)@ == proc.asks
                            &&& match r {
                                None => proc.results.len() == 0,
                                Some(v) => v@.len() > 0 && trs_view(v@) == proc.results,
                            }
                        } else {
                            match r {
                                Some(v) => v@.len() > 0 && trs_view(v@).drop_last()
                                    == proc.results && klf_post(
                                    proc.bids,
                                    proc.asks,
                                    final(bids)@,
                                    final(asks)@,
                                    Some(trs_view(v@).last()),
                                ),
                                None => false,
                            }
                        }
                    },
                }
            }),
    {
        let process_results = MemPoolProcessor::seq_process_orders(
            &mut self.frame,
            bids,
            asks,
            m_t,
        );
        if m_t == MarketType::CDA {
            return process_results;
        }
        let ghost pb = bids@;
        let ghost pa = asks@;
        match Auction::run_auction(bids, asks, m_t) {
            Some(auction_result) => {
                match process_results {
                    Some(v) => {
                        let mut v = v;
                        let ghost before = v@;
                        v.push(auction_result);
                        proof {
                            assert(trs_view(v@).drop_last() =~= trs_view(before));
                            assert(trs_view(v@).last() == v@.last()@);
                            lemma_publish_books_wf(pb, pa, bids@, asks@, m_t);
                        }
                        Some(v)
                    },
                    None => {
                        let mut v: Vec<TradeResults> = Vec::new();
                        v.push(auction_result);
                        proof {
                            assert(trs_view(v@).drop_last() =~= trs_view(Seq::<TradeResults>::empty()));
                            assert(trs_view(v@).drop_last() =~= Seq::<
                                crate::exchange::TradeResultsV,
                            >::empty());
                            assert(trs_view(v@).last() == v@.last()@);
                            lemma_publish_books_wf(pb, pa, bids@, asks@, m_t);
                        }
                        Some(v)
                    },
                }
            },
            None => {
                proof {
                    lemma_publish_books_wf(pb, pa, bids@, asks@, m_t);
                }
                process_results
            },
        }
    }

    /// Copies a random frame order to the top of the frame with the
    /// miner as its owner, no gas, and a fresh random id.
    pub fn random_front_run(&mut self) -> (r: Result<Order, &'static str>)
        ensures
            old(self).frame@.len() == 0 ==> r is Err && *final(self) == *old(self),
            old(self).frame@.len() > 0 ==> match r {
                Ok(o) => {
                    &&& exists|i: int|
                        0 <= i < old(self).frame@.len() && o == (Order {
                            trader_id: o.trader_id,
                            order_id: o.order_id,
                            gas: 0,
                            ..#[trigger] old(self).frame@[i]
                        })
                    &&& o.trader_id == old(self).trader_id
                    &&& o.gas == 0
                    &&& final(self).frame@ == seq![o] + old(self).frame@
                    &&& final(self).frame@[0] == o
                    &&& *final(self) == (Miner { frame: final(self).frame, ..*old(self) })
                },
                Err(_) => false,
            },
    {
        if self.frame.len() == 0 {
            return Err("No orders in the frame to front-run");
        }
        let draw = crate::utility::random_u64();
        let idx = (draw % (self.frame.len() as u64)) as usize;
        let mut copied = self.frame[idx].clone();
        copied.trader_id = self.trader_id.clone();
        copied.gas = 0;
        copied.order_id = gen_order_id();
        self.frame.insert(0, copied.clone());
        proof {
            assert(self.frame@ =~= seq![copied] + old(self).frame@);
        }
        Ok(copied)
    }

    /// Copies the frame's best-priced profitable order to the top of
    /// the frame with the miner as its owner, no gas, and a fresh
    /// random id, so it matches before any other order of the block.
    pub fn strategic_front_run(&mut self, best_bid_price: i64, best_ask_price: i64) -> (r: Result<
        Order,
        &'static str,
    >)
        requires
            all_wf(old(self).frame@),
            0 <= best_bid_price <= MAX_PRICE_UNITS,
            0 <= best_ask_price,
        ensures
            match front_run_choice(
                old(self).frame@,
                best_bid_price as int,
                best_ask_price as int,
            ) {
                None => r is Err && *final(self) == *old(self),
                Some(c) => match r {
                    Ok(o) => {
                        &&& o == (Order {
                            trader_id: o.trader_id,
                            order_id: o.order_id,
                            gas: 0,
                            ..c
                        })
                        &&& o.trader_id == old(self).trader_id
                        &&& o.gas == 0
                        &&& final(self).frame@ == seq![o] + old(self).frame@
                        &&& final(self).frame@[0] == o
                        &&& *final(self) == (Miner { frame: final(self).frame, ..*old(self) })
                    },
                    Err(_) => false,
                },
            },
    {
        let mut best_bid: Option<Order> = None;
        let mut best_ask: Option<Order> = None;
        let mut i: usize = 0;
        while i < self.frame.len()
            invariant
                0 <= i <= self.frame@.len(),
                *self == *old(self),
                all_wf(self.frame@),
                best_bid == best_bid_in(self.frame@.take(i as int)),
                best_ask == best_ask_in(self.frame@.take(i as int)),
            decreases self.frame@.len() - i,
        {
            proof {
                assert(self.frame@.take(i + 1).drop_last() =~= self.frame@.take(i as int));
                assert(self.frame@.take(i + 1).last() == self.frame@[i as int]);
            }
            let o = &self.frame[i];
            match o.trade_type {
                TradeType::Bid => {
                    let better = match &best_bid {
                        None => true,
                        Some(b) => o.price > b.price,
                    };
                    if better {
                        best_bid = Some(o.clone());
                    }
                },
                TradeType::Ask => {
                    let better = match &best_ask {
                        None => true,
                        Some(a) => o.price < a.price,
                    };
                    if better {
                        best_ask = Some(o.clone());
                    }
                },
            }
            i = i + 1;
        }
        proof {
            assert(self.frame@.take(self.frame@.len() as int) =~= self.frame@);
        }
        let front_run_order: Order = match (best_bid, best_ask) {
            (None, None) => {
                return Err("No orders in the frame to front-run");
            },
            (Some(b), None) => b,
            (None, Some(a)) => a,
            (Some(b), Some(a)) => {
                proof {
                    lemma_best_in_frame_wf(old(self).frame@);
                }
                let bid_profit = best_ask_price - b.price;
                let ask_profit = a.price - best_bid_price;
                if bid_profit < 0 && ask_profit < 0 {
                    return Err("No orders in the frame good enough to front-run");
                } else if bid_profit >= 0 && ask_profit < 0 {
                    b
                } else if bid_profit < 0 && ask_profit >= 0 {
                    a
                } else if bid_profit >= ask_profit {
                    b
                } else {
                    a
                }
            },
        };
        let mut front_run_order = front_run_order;
        front_run_order.trader_id = self.trader_id.clone();
        front_run_order.gas = 0;
        front_run_order.order_id = gen_order_id();
        self.frame.insert(0, front_run_order.clone());
        proof {
            assert(self.frame@ =~= seq![front_run_order] + old(self).frame@);
        }
        Ok(front_run_order)
    }

    /// The frame's gas debits for the clearing house: one entry per
    /// frame order, plus a final crediting entry for the miner of the
    /// negated total.  Balances carry price-times-quantity scale, so
    /// each fixed-point gas fee is scaled by one unit — exactly — to
    /// debit that many currency units of cash.  Returns the entries
    /// and the total.
    pub fn collect_gas(&mut self) -> (r: (Vec<(String, i128)>, i128))
        requires
            all_wf(old(self).frame@),
            old(self).frame@.len() <= 0x1_0000_0000,
        ensures
            *final(self) == *old(self),
            r.1 == gas_sum(old(self).frame@) * (UNIT_SCALE as int),
            r.0@.len() == old(self).frame@.len() + 1,
            forall|i: int|
                0 <= i < old(self).frame@.len() ==> (#[trigger] r.0@[i]).0 == old(
                    self,
                ).frame@[i].trader_id && r.0@[i].1 == (old(self).frame@[i].gas as int) * (
                UNIT_SCALE as int),
            r.0@.last().0 == old(self).trader_id,
            r.0@.last().1 == -(gas_sum(old(self).frame@) * (UNIT_SCALE as int)),
            0 <= r.1 <= old(self).frame@.len() * (MAX_GAS_UNITS as int) * (UNIT_SCALE as int),
    {
        let mut to_update: Vec<(String, i128)> = Vec::new();
        let mut total_gas: i128 = 0;
        let mut i: usize = 0;
        proof {
            lemma_gas_sum_bounds(self.frame@);
        }
        while i < self.frame.len()
            invariant
                0 <= i <= self.frame@.len(),
                self.frame@.len() <= 0x1_0000_0000,
                *self == *old(self),
                all_wf(self.frame@),
                total_gas == gas_sum(self.frame@.take(i as int)) * (UNIT_SCALE as int),
                0 <= gas_sum(self.frame@.take(i as int)) <= (i as int) * (MAX_GAS_UNITS as int),
                to_update@.len() == i,
                forall|k: int|
                    0 <= k < i ==> (#[trigger] to_update@[k]).0 == self.frame@[k].trader_id
                        && to_update@[k].1 == (self.frame@[k].gas as int) * (UNIT_SCALE as int),
            decreases self.frame@.len() - i,
        {
            proof {
                assert(self.frame@.take(i + 1).drop_last() =~= self.frame@.take(i as int));
                assert(self.frame@.take(i + 1).last() == self.frame@[i as int]);
                assert(wf_order(self.frame@[i as int]));
                assert((i as int + 1) * (MAX_GAS_UNITS as int) == (i as int) * (
                MAX_GAS_UNITS as int) + MAX_GAS_UNITS) by (nonlinear_arith);
            }
            let gas = self.frame[i].gas;
            let amount: i128 = (gas as i128) * (UNIT_SCALE as i128);
            total_gas = total_gas + amount;
            to_update.push((self.frame[i].trader_id.clone(), amount));
            i = i + 1;
        }
        proof {
            assert(self.frame@.take(self.frame@.len() as int) =~= self.frame@);
        }
        to_update.push((self.trader_id.clone(), -total_gas));
        (to_update, total_gas)
    }
}

/// The end-of-block auction keeps both books' sides, sort orders,
/// field bounds and (for the flow market) flow markers, so the books
/// are fit for the next block's frame.
proof fn lemma_publish_books_wf(pb: BookV, pa: BookV, b1: BookV, a1: BookV, m_t: MarketType)
    requires
        pb.book_type == TradeType::Bid,
        pa.book_type == TradeType::Ask,
        sorted_asc(pb.orders),
        sorted_desc(pa.orders),
        all_wf(pb.orders),
        all_wf(pa.orders),
        match m_t {
            MarketType::CDA => b1 == pb && a1 == pa,
            MarketType::FBA => match crate::auction::fba_clearing_price(pb, pa) {
                None => b1 == pb && a1 == pa,
                Some(cp) => b1 == crate::auction::fba_pair(pb, pa, cp).bids && a1
                    == crate::auction::fba_pair(pb, pa, cp).asks,
            },
            MarketType::KLF => {
                let l0 = if seq_min_plow(pb.orders) < seq_min_plow(pa.orders) {
                    seq_min_plow(pb.orders)
                } else {
                    seq_min_plow(pa.orders)
                };
                let r0 = if seq_max_phigh(pb.orders) > seq_max_phigh(pa.orders) {
                    seq_max_phigh(pb.orders)
                } else {
                    seq_max_phigh(pa.orders)
                };
                if l0 >= r0 {
                    b1 == pb && a1 == pa
                } else {
                    match bs_search(pb.orders, pa.orders, l0, r0, 0) {
                        None => b1 == pb && a1 == pa,
                        Some(kc) => b1 == crate::auction::flow_settle_bids(pb, kc.price) && a1
                            == crate::auction::flow_settle_asks(pa, kc.price),
                    }
                }
            },
        },
    ensures
        b1.book_type == TradeType::Bid,
        a1.book_type == TradeType::Ask,
        sorted_asc(b1.orders),
        sorted_desc(a1.orders),
        all_wf(b1.orders),
        all_wf(a1.orders),
        (m_t == MarketType::KLF && all_flow_bids(pb.orders) && all_flow_asks(pa.orders)) ==> (
        all_flow_bids(b1.orders) && all_flow_asks(a1.orders)),
{
    match m_t {
        MarketType::CDA => {},
        MarketType::FBA => match crate::auction::fba_clearing_price(pb, pa) {
            None => {},
            Some(cp) => {
                crate::auction::lemma_fba_pair_props(pb, pa, cp);
                crate::auction::lemma_fba_pair_sorted(pb, pa, cp);
            },
        },
        MarketType::KLF => {
            let l0 = if seq_min_plow(pb.orders) < seq_min_plow(pa.orders) {
                seq_min_plow(pb.orders)
            } else {
                seq_min_plow(pa.orders)
            };
            let r0 = if seq_max_phigh(pb.orders) > seq_max_phigh(pa.orders) {
                seq_max_phigh(pb.orders)
            } else {
                seq_max_phigh(pa.orders)
            };
            match bs_search(pb.orders, pa.orders, l0, r0, 0) {
                None => {},
                Some(kc) => {
                    crate::auction::lemma_flow_settle_props(pb, pa, kc.price);
                },
            }
        },
    }
}

/// A frame's gas total is non-negative and bounded by its length
/// times the gas cap.
proof fn lemma_gas_sum_bounds(s: Seq<Order>)
    requires
        all_wf(s),
    ensures
        0 <= gas_sum(s) <= s.len() * (MAX_GAS_UNITS as int),
    decreases s.len(),
{
    if s.len() > 0 {
        assert(all_wf(s.drop_last())) by {
            assert(forall|i: int| 0 <= i < s.len() - 1 ==> s.drop_last()[i] == s[i]);
        }
        lemma_gas_sum_bounds(s.drop_last());
        assert(wf_order(s[s.len() - 1]));
        assert(s.last() == s[s.len() - 1]);
        assert(s.len() * (MAX_GAS_UNITS as int) == (s.len() - 1) * (MAX_GAS_UNITS as int)
            + MAX_GAS_UNITS) by (nonlinear_arith);
    }
}

/// The best bid and ask of a well-formed frame are well-formed.
proof fn lemma_best_in_frame_wf(s: Seq<Order>)
    requires
        all_wf(s),
    ensures
        best_bid_in(s) is Some ==> wf_order(best_bid_in(s).unwrap()),
        best_ask_in(s) is Some ==> wf_order(best_ask_in(s).unwrap()),
    decreases s.len(),
{
    if s.len() > 0 {
        assert(all_wf(s.drop_last())) by {
            assert(forall|i: int| 0 <= i < s.len() - 1 ==> s.drop_last()[i] == s[i]);
        }
        lemma_best_in_frame_wf(s.drop_last());
        assert(wf_order(s[s.len() - 1]));
        assert(s.last() == s[s.len() - 1]);
    }
}

} // verus!
