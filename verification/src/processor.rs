//! Sequential processing of a block's frame: each order in turn either
//! enters a book (running the CDA cross inline for that market), is
//! folded in as an update (cancel, then treat as an enter), or cancels
//! a resting order.  The whole pass is pinned to one fold over the
//! frame, so a block's effect on the books is a function of the frame
//! and the starting books.

use crate::auction::{
    cda_ask_cross, cda_bid_cross, lemma_cda_ask_cross_wf, lemma_cda_bid_cross_wf, Auction,
};
use crate::book::{
    all_flow_asks, all_flow_bids, all_wf, book_add, book_cancel, lemma_book_cancel_props,
    lemma_insert_asc_flow, lemma_insert_asc_wf, lemma_insert_desc_flow, lemma_insert_desc_wf,
    sorted_asc, sorted_desc, Book, BookV,
};
use crate::exchange::{pus_view, MarketType, TradeResults, TradeResultsV};
use crate::mempool::MemPool;
use crate::order::{wf_order, ExchangeType, Order, OrderType, TradeType};
use vstd::prelude::*;

verus! {

/// What processing one order leaves behind: both books and the trade
/// result of an inline cross, if one ran.
pub ghost struct ProcStep {
    pub bids: BookV,
    pub asks: BookV,
    pub result: Option<TradeResultsV>,
}

/// What processing a whole frame leaves behind: both books and the
/// trade results in emission order.
pub ghost struct ProcOut {
    pub bids: BookV,
    pub asks: BookV,
    pub results: Seq<TradeResultsV>,
}

/// The views of a sequence of trade results, in order.
pub open spec fn trs_view(s: Seq<TradeResults>) -> Seq<TradeResultsV> {
    s.map_values(|r: TradeResults| r@)
}

/// Every order in the sequence is a flow order.
pub open spec fn frame_flow(s: Seq<Order>) -> bool {
    forall|i: int| 0 <= i < s.len() ==> (#[trigger] s[i]).ex_type == ExchangeType::FlowOrder
}

/// An entering order: under FBA and KLF it simply rests in its side's
/// book; under CDA it runs the incremental cross when it prices
/// through the opposite best, and rests otherwise.
pub open spec fn process_enter_spec(bids: BookV, asks: BookV, o: Order, mt: MarketType) -> ProcStep {
    match mt {
        MarketType::FBA | MarketType::KLF => match o.trade_type {
            TradeType::Ask => ProcStep { bids, asks: book_add(asks, o), result: None },
            TradeType::Bid => ProcStep { bids: book_add(bids, o), asks, result: None },
        },
        MarketType::CDA => match o.trade_type {
            TradeType::Ask => if o.price < asks.min_price {
                let st = cda_ask_cross(bids, asks, o);
                ProcStep {
                    bids: st.bids,
                    asks: st.asks,
                    result: Some(
                        TradeResultsV {
                            auction_type: MarketType::CDA,
                            uniform_price: None,
                            agg_demand: 0,
                            agg_supply: 0,
                            cross_results: Some(pus_view(st.updates)),
                        },
                    ),
                }
            } else {
                ProcStep { bids, asks: book_add(asks, o), result: None }
            },
            TradeType::Bid => if o.price > bids.max_price {
                let st = cda_bid_cross(bids, asks, o);
                ProcStep {
                    bids: st.bids,
                    asks: st.asks,
                    result: Some(
                        TradeResultsV {
                            auction_type: MarketType::CDA,
                            uniform_price: None,
                            agg_demand: 0,
                            agg_supply: 0,
                            cross_results: Some(pus_view(st.updates)),
                        },
                    ),
                }
            } else {
                ProcStep { bids: book_add(bids, o), asks, result: None }
            },
        },
    }
}

/// An updating order: cancel any resting order with the same id on its
/// side, then treat it as an enter.
pub open spec fn process_update_spec(bids: BookV, asks: BookV, o: Order, mt: MarketType) -> ProcStep {
    match o.trade_type {
        TradeType::Ask => process_enter_spec(bids, book_cancel(asks, o.order_id).0, o, mt),
        TradeType::Bid => process_enter_spec(book_cancel(bids, o.order_id).0, asks, o, mt),
    }
}

/// A cancelling order: remove the resting order with the same id from
/// its side; a missing id changes nothing.
pub open spec fn process_cancel_spec(bids: BookV, asks: BookV, o: Order) -> ProcStep {
    match o.trade_type {
        TradeType::Ask => ProcStep { bids, asks: book_cancel(asks, o.order_id).0, result: None },
        TradeType::Bid => ProcStep { bids: book_cancel(bids, o.order_id).0, asks, result: None },
    }
}

/// One order's effect, dispatched on its order type.
pub open spec fn process_order_spec(bids: BookV, asks: BookV, o: Order, mt: MarketType) -> ProcStep {
    match o.order_type {
        OrderType::Enter => process_enter_spec(bids, asks, o, mt),
        OrderType::Update => process_update_spec(bids, asks, o, mt),
        OrderType::Cancel => process_cancel_spec(bids, asks, o),
    }
}

/// A frame's effect: its orders applied in sequence, collecting the
/// inline cross results in order.
pub open spec fn seq_process_spec(
    bids: BookV,
    asks: BookV,
    frame: Seq<Order>,
    mt: MarketType,
) -> ProcOut
    decreases frame.len(),
{
    if frame.len() == 0 {
        ProcOut { bids, asks, results: Seq::empty() }
    } else {
        let st = process_order_spec(bids, asks, frame.first(), mt);
        let rest = seq_process_spec(st.bids, st.asks, frame.drop_first(), mt);
        ProcOut {
            bids: rest.bids,
            asks: rest.asks,
            results: (match st.result {
                Some(r) => seq![r],
                None => Seq::empty(),
            }) + rest.results,
        }
    }
}

/// Processing one order keeps both books' sides, sort orders and field
/// bounds; in the flow market it also keeps the books all-flow when
/// the order itself is a flow order.
pub proof fn lemma_process_order_wf(bids: BookV, asks: BookV, o: Order, mt: MarketType)
    requires
        bids.book_type == TradeType::Bid,
        asks.book_type == TradeType::Ask,
        sorted_asc(bids.orders),
        sorted_desc(asks.orders),
        all_wf(bids.orders),
        all_wf(asks.orders),
        wf_order(o),
    ensures
        ({
            let st = process_order_spec(bids, asks, o, mt);
            &&& st.bids.book_type == TradeType::Bid
            &&& st.asks.book_type == TradeType::Ask
            &&& sorted_asc(st.bids.orders)
            &&& sorted_desc(st.asks.orders)
            &&& all_wf(st.bids.orders)
            &&& all_wf(st.asks.orders)
            &&& (mt == MarketType::KLF && all_flow_bids(bids.orders) && all_flow_asks(asks.orders)
                && o.ex_type == ExchangeType::FlowOrder) ==> (all_flow_bids(st.bids.orders)
                && all_flow_asks(st.asks.orders))
        }),
{
    let (b1, a1) = match o.order_type {
        OrderType::Enter => (bids, asks),
        OrderType::Update => match o.trade_type {
            TradeType::Ask => (bids, book_cancel(asks, o.order_id).0),
            TradeType::Bid => (book_cancel(bids, o.order_id).0, asks),
        },
        OrderType::Cancel => match o.trade_type {
            TradeType::Ask => (bids, book_cancel(asks, o.order_id).0),
            TradeType::Bid => (book_cancel(bids, o.order_id).0, asks),
        },
    };
    lemma_book_cancel_props(bids, o.order_id);
    lemma_book_cancel_props(asks, o.order_id);
    if o.order_type == OrderType::Cancel {
    } else {
        match mt {
            MarketType::FBA | MarketType::KLF => {
                match o.trade_type {
                    TradeType::Ask => {
                        lemma_insert_desc_wf(a1.orders, o);
                        if mt == MarketType::KLF && all_flow_asks(a1.orders) && o.ex_type
                            == ExchangeType::FlowOrder {
                            lemma_insert_desc_flow(a1.orders, o);
                        }
                    },
                    TradeType::Bid => {
                        lemma_insert_asc_wf(b1.orders, o);
                        if mt == MarketType::KLF && all_flow_bids(b1.orders) && o.ex_type
                            == ExchangeType::FlowOrder {
                            lemma_insert_asc_flow(b1.orders, o);
                        }
                    },
                }
            },
            MarketType::CDA => {
                match o.trade_type {
                    TradeType::Ask => {
                        if o.price < a1.min_price {
                            lemma_cda_ask_cross_wf(b1, a1, o);
                        } else {
                            lemma_insert_desc_wf(a1.orders, o);
                        }
                    },
                    TradeType::Bid => {
                        if o.price > b1.max_price {
                            lemma_cda_bid_cross_wf(b1, a1, o);
                        } else {
                            lemma_insert_asc_wf(b1.orders, o);
                        }
                    },
                }
            },
        }
    }
}

/// Feeding the same frame to equal books always leaves the same books
/// and emits the same trade results: a block's outcome is a function
/// of the frame, the starting books and the market design alone.
pub proof fn lemma_block_replay(
    b1: BookV,
    a1: BookV,
    b2: BookV,
    a2: BookV,
    f1: Seq<Order>,
    f2: Seq<Order>,
    mt: MarketType,
)
    requires
        b1 == b2,
        a1 == a2,
        f1 == f2,
    ensures
        seq_process_spec(b1, a1, f1, mt) == seq_process_spec(b2, a2, f2, mt),
{
}

/// Applies a frame of orders sequentially to the books.
pub struct MemPoolProcessor {}

impl MemPoolProcessor {
    /// Sequentially processes each order of the frame, draining it.
    /// Returns the inline cross results in emission order, or `None`
    /// when no cross ran.
    pub fn seq_process_orders(
        frame: &mut Vec<Order>,
        bids: &mut Book,
        asks: &mut Book,
        m_t: MarketType,
    ) -> (r: Option<Vec<TradeResults>>)
        requires
            old(bids)@.book_type == TradeType::Bid,
            old(asks)@.book_type == TradeType::Ask,
            sorted_asc(old(bids)@.orders),
            sorted_desc(old(asks)@.orders),
            all_wf(old(bids)@.orders),
            all_wf(old(asks)@.orders),
            all_wf(old(frame)@),
        ensures
            ({
                let out = seq_process_spec(old(bids)@, old(asks)@, old(frame)@, m_t);
                &&& final(bids)@ == out.bids
                &&& final(asks)@ == out.asks
                &&& final(frame)@.len() == 0
                &&& match r {
                    None => out.results.len() == 0,
                    Some(v) => v@.len() > 0 && trs_view(v@) == out.results,
                }
            }),
            final(bids)@.book_type == TradeType::Bid,
            final(asks)@.book_type == TradeType::Ask,
            sorted_asc(final(bids)@.orders),
            sorted_desc(final(asks)@.orders),
            all_wf(final(bids)@.orders),
            all_wf(final(asks)@.orders),
            (m_t == MarketType::KLF && all_flow_bids(old(bids)@.orders) && all_flow_asks(
                old(asks)@.orders,
            ) && frame_flow(old(frame)@)) ==> (all_flow_bids(final(bids)@.orders) && all_flow_asks(
                final(asks)@.orders,
            )),
    {
        let ghost f = old(frame)@;
        let ghost out = seq_process_spec(old(bids)@, old(asks)@, f, m_t);
        let mut results: Vec<TradeResults> = Vec::new();
        let mut i: usize = 0;
        proof {
            assert(f.skip(0) =~= f);
            assert(trs_view(results@) =~= Seq::<TradeResultsV>::empty());
            assert(trs_view(results@) + out.results =~= out.results);
        }
        while i < frame.len()
            invariant
                0 <= i <= frame.len(),
                frame@ == f,
                all_wf(f),
                bids@.book_type == TradeType::Bid,
                asks@.book_type == TradeType::Ask,
                sorted_asc(bids@.orders),
                sorted_desc(asks@.orders),
                all_wf(bids@.orders),
                all_wf(asks@.orders),
                (m_t == MarketType::KLF && all_flow_bids(old(bids)@.orders) && all_flow_asks(
                    old(asks)@.orders,
                ) && frame_flow(f)) ==> (all_flow_bids(bids@.orders) && all_flow_asks(
                    asks@.orders,
                )),
                ({
                    let rem = seq_process_spec(bids@, asks@, f.skip(i as int), m_t);
                    &&& rem.bids == out.bids
                    &&& rem.asks == out.asks
                    &&& trs_view(results@) + rem.results == out.results
                }),
            decreases frame.len() - i,
        {
            let ghost bcur = bids@;
            let ghost acur = asks@;
            let ghost rescur = results@;
            proof {
                assert(wf_order(f[i as int]));
                assert(f.skip(i as int).first() == f[i as int]);
                assert(f.skip(i as int).drop_first() =~= f.skip(i as int + 1));
                lemma_process_order_wf(bcur, acur, f[i as int], m_t);
            }
            let order = frame[i].clone();
            match order.order_type {
                OrderType::Enter => {
                    if let Some(res) = MemPoolProcessor::seq_process_enter(bids, asks, order, m_t) {
                        results.push(res);
                    }
                },
                OrderType::Update => {
                    if let Some(res) = MemPoolProcessor::seq_process_update(bids, asks, order, m_t) {
                        results.push(res);
                    }
                },
                OrderType::Cancel => {
                    MemPoolProcessor::seq_process_cancel(bids, asks, order, m_t);
                },
            }
            proof {
                let st = process_order_spec(bcur, acur, f[i as int], m_t);
                assert(trs_view(results@) =~= trs_view(rescur) + (match st.result {
                    Some(r) => seq![r],
                    None => Seq::<TradeResultsV>::empty(),
                }));
                assert(trs_view(results@) + seq_process_spec(
                    bids@,
                    asks@,
                    f.skip(i as int + 1),
                    m_t,
                ).results =~= out.results);
            }
            i = i + 1;
        }
        proof {
            assert(f.skip(f.len() as int) =~= Seq::<Order>::empty());
            assert(trs_view(results@) =~= out.results);
        }
        frame.truncate(0);
        if results.len() == 0 {
            return None;
        }
        Some(results)
    }

    /// Checks whether the entering order crosses and routes it to the
    /// market's handler; mirrors `process_enter_spec`.
    fn seq_process_enter(bids: &mut Book, asks: &mut Book, order: Order, m_t: MarketType) -> (r:
        Option<TradeResults>)
        requires
            old(bids)@.book_type == TradeType::Bid,
            old(asks)@.book_type == TradeType::Ask,
            sorted_asc(old(bids)@.orders),
            sorted_desc(old(asks)@.orders),
            all_wf(old(bids)@.orders),
            all_wf(old(asks)@.orders),
            wf_order(order),
        ensures
            ({
                let st = process_enter_spec(old(bids)@, old(asks)@, order, m_t);
                &&& final(bids)@ == st.bids
                &&& final(asks)@ == st.asks
                &&& match r {
                    Some(res) => st.result == Some(res@),
                    None => st.result is None,
                }
            }),
    {
        match m_t {
            MarketType::FBA | MarketType::KLF => {
                match order.trade_type {
                    TradeType::Ask => {
                        proof {
                            lemma_insert_desc_wf(asks@.orders, order);
                        }
                        asks.add_order(order);
                        None
                    },
                    TradeType::Bid => {
                        proof {
                            lemma_insert_asc_wf(bids@.orders, order);
                        }
                        bids.add_order(order);
                        None
                    },
                }
            },
            MarketType::CDA => {
                match order.trade_type {
                    TradeType::Ask => {
                        if order.price < asks.get_min_price() {
                            Auction::calc_ask_crossing(bids, asks, order)
                        } else {
                            proof {
                                lemma_insert_desc_wf(asks@.orders, order);
                            }
                            asks.add_order(order);
                            None
                        }
                    },
                    TradeType::Bid => {
                        if order.price > bids.get_max_price() {
                            Auction::calc_bid_crossing(bids, asks, order)
                        } else {
                            proof {
                                lemma_insert_asc_wf(bids@.orders, order);
                            }
                            bids.add_order(order);
                            None
                        }
                    },
                }
            },
        }
    }

    /// Cancels the original order on its side, then treats the new
    /// order as an enter; mirrors `process_update_spec`.
    fn seq_process_update(bids: &mut Book, asks: &mut Book, order: Order, m_t: MarketType) -> (r:
        Option<TradeResults>)
        requires
            old(bids)@.book_type == TradeType::Bid,
            old(asks)@.book_type == TradeType::Ask,
            sorted_asc(old(bids)@.orders),
            sorted_desc(old(asks)@.orders),
            all_wf(old(bids)@.orders),
            all_wf(old(asks)@.orders),
            wf_order(order),
        ensures
            ({
                let st = process_update_spec(old(bids)@, old(asks)@, order, m_t);
                &&& final(bids)@ == st.bids
                &&& final(asks)@ == st.asks
                &&& match r {
                    Some(res) => st.result == Some(res@),
                    None => st.result is None,
                }
            }),
    {
        proof {
            lemma_book_cancel_props(bids@, order.order_id);
            lemma_book_cancel_props(asks@, order.order_id);
        }
        match order.trade_type {
            TradeType::Ask => {
                let _ = asks.cancel_order_by_id(order.order_id);
            },
            TradeType::Bid => {
                let _ = bids.cancel_order_by_id(order.order_id);
            },
        }
        MemPoolProcessor::seq_process_enter(bids, asks, order, m_t)
    }

    /// Cancels the order resting in its side's book; a missing id is
    /// swallowed.  Mirrors `process_cancel_spec`.
    fn seq_process_cancel(bids: &mut Book, asks: &mut Book, order: Order, m_t: MarketType)
        ensures
            ({
                let st = process_cancel_spec(old(bids)@, old(asks)@, order);
                &&& final(bids)@ == st.bids
                &&& final(asks)@ == st.asks
            }),
    {
        match order.trade_type {
            TradeType::Ask => {
                let _ = asks.cancel_order(order);
            },
            TradeType::Bid => {
                let _ = bids.cancel_order(order);
            },
        }
    }
}

/// Hands incoming orders to the mempool.  A driver may run the
/// hand-off on a thread of its own so the submit path never blocks an
/// agent loop; the decision content is the append itself, which
/// happens here.
pub struct OrderProcessor {}

impl OrderProcessor {
    /// Appends the trader's order to the pool.
    pub fn conc_recv_order(order: Order, pool: &mut MemPool)
        ensures
            final(pool).items@ == old(pool).items@.push(order),
    {
        pool.add(order);
    }
}

} // verus!
