//! The three matching engines.
//!
//! - CDA: an incremental cross run the moment an entering order crosses
//!   the top of the opposite book; trades happen at the resting order's
//!   price.
//! - FBA: a uniform-price batch auction run once per block over both
//!   books merged.
//! - KLF: a flow market cleared by binary search on the aggregate
//!   piecewise-linear demand and supply schedules.
//!
//! Every engine's result, books included, is pinned to a spec recursion
//! over the books' views, so replaying the same input yields the same
//! output by contract alone.

use crate::book::{
    all_flow_asks, all_flow_bids, PRICE_INF, all_wf, book_add, book_cancel, seq_max_phigh, seq_min_plow,
    seq_min_price, seq_volume, sort_desc, sorted_asc, sorted_desc, Book, BookV,
};
use crate::exchange::{pu_view, pus_view, MarketType, PlayerUpdate, PlayerUpdateV, TradeResults};
use crate::order::{
    flow_demand, flow_supply, wf_order, ExchangeType, Order, TradeType, MAX_PRICE_UNITS,
    MAX_QTY_UNITS,
};
use vstd::prelude::*;

verus! {

/// The engines' tolerance: one fixed-point unit, that is 10^-6.
pub const EPSILON: i64 = 1;

/// The price ceiling the batch auction reasons with.
pub const MAX_PRICE: i64 = 999_999_999_000_000;

/// The price floor the batch auction reasons with.
pub const MIN_PRICE: i64 = 0;

/// The iteration cap of the flow market's binary search.
pub const MAX_ITERS: usize = 1000;

/// The magnitude of an integer.
pub open spec fn abs_i(x: int) -> int {
    if x < 0 {
        -x
    } else {
        x
    }
}

/// What one CDA cross leaves behind: both books and the transfers
/// emitted, in order.
pub ghost struct CdaStep {
    pub bids: BookV,
    pub asks: BookV,
    pub updates: Seq<PlayerUpdate>,
}

/// The transfer emitted when `aggressor` takes `volume` from the
/// resting order `resting` at the resting price.
pub open spec fn cda_update(payer: Order, filler: Order, price: i64, volume: i64) -> PlayerUpdate {
    PlayerUpdate {
        payer_id: payer.trader_id,
        vol_filler_id: filler.trader_id,
        payer_order_id: payer.order_id,
        vol_filler_order_id: filler.order_id,
        price,
        volume,
        cancel: false,
    }
}

/// A new bid crosses while its price is at least the cached best ask.
/// Each round pops the best ask: a smaller bid takes part of it and the
/// remainder is pushed back; an equal bid clears it; a larger bid
/// clears it and keeps crossing with its residual quantity.  A bid that
/// no longer crosses, or that exhausts the ask book, is added to the
/// bid book.  Trades always happen at the resting ask's price.
pub open spec fn cda_bid_cross(bids: BookV, asks: BookV, bid: Order) -> CdaStep
    decreases asks.orders.len(),
{
    if bid.price >= asks.min_price {
        if asks.orders.len() == 0 {
            CdaStep { bids: book_add(bids, bid), asks, updates: Seq::empty() }
        } else {
            let best = asks.orders.last();
            let popped = BookV { orders: asks.orders.drop_last(), ..asks };
            if bid.quantity < best.quantity {
                let rest_ask = Order { quantity: (best.quantity - bid.quantity) as i64, ..best };
                let asks2 = BookV { orders: popped.orders.push(rest_ask), ..popped };
                CdaStep {
                    bids,
                    asks: asks2,
                    updates: seq![cda_update(bid, best, best.price, bid.quantity)],
                }
            } else if bid.quantity > best.quantity {
                let asks2 = BookV { min_price: seq_min_price(popped.orders), ..popped };
                let bid2 = Order { quantity: (bid.quantity - best.quantity) as i64, ..bid };
                let rest = cda_bid_cross(bids, asks2, bid2);
                CdaStep {
                    bids: rest.bids,
                    asks: rest.asks,
                    updates: seq![cda_update(bid, best, best.price, best.quantity)] + rest.updates,
                }
            } else {
                let asks2 = BookV { min_price: seq_min_price(popped.orders), ..popped };
                CdaStep {
                    bids,
                    asks: asks2,
                    updates: seq![cda_update(bid, best, best.price, bid.quantity)],
                }
            }
        }
    } else {
        CdaStep { bids: book_add(bids, bid), asks, updates: Seq::empty() }
    }
}

/// The mirror image for a new ask crossing the bid book: trades happen
/// at the resting bid's price, and the bid is the payer.
pub open spec fn cda_ask_cross(bids: BookV, asks: BookV, ask: Order) -> CdaStep
    decreases bids.orders.len(),
{
    if ask.price <= bids.max_price {
        if bids.orders.len() == 0 {
            CdaStep { bids, asks: book_add(asks, ask), updates: Seq::empty() }
        } else {
            let best = bids.orders.last();
            let popped = BookV { orders: bids.orders.drop_last(), ..bids };
            if ask.quantity < best.quantity {
                let rest_bid = Order { quantity: (best.quantity - ask.quantity) as i64, ..best };
                let bids2 = BookV { orders: popped.orders.push(rest_bid), ..popped };
                CdaStep {
                    bids: bids2,
                    asks,
                    updates: seq![cda_update(best, ask, best.price, ask.quantity)],
                }
            } else if ask.quantity > best.quantity {
                let bids2 = BookV {
                    max_price: if popped.orders.len() > 0 {
                        popped.orders.last().price
                    } else {
                        0
                    },
                    ..popped
                };
                let ask2 = Order { quantity: (ask.quantity - best.quantity) as i64, ..ask };
                let rest = cda_ask_cross(bids2, asks, ask2);
                CdaStep {
                    bids: rest.bids,
                    asks: rest.asks,
                    updates: seq![cda_update(best, ask, best.price, best.quantity)] + rest.updates,
                }
            } else {
                let bids2 = BookV {
                    max_price: if popped.orders.len() > 0 {
                        popped.orders.last().price
                    } else {
                        0
                    },
                    ..popped
                };
                CdaStep {
                    bids: bids2,
                    asks,
                    updates: seq![cda_update(best, ask, best.price, ask.quantity)],
                }
            }
        }
    } else {
        CdaStep { bids, asks: book_add(asks, ask), updates: Seq::empty() }
    }
}

/// Every transfer a CDA bid cross emits carries a non-negative bounded
/// price and volume: the price of some resting ask and a volume capped
/// by the traded quantities.
pub proof fn lemma_cda_bid_cross_nonneg(bids: BookV, asks: BookV, bid: Order)
    requires
        all_wf(asks.orders),
        wf_order(bid),
    ensures
        forall|i: int|
            0 <= i < cda_bid_cross(bids, asks, bid).updates.len() ==> {
                let u = #[trigger] cda_bid_cross(bids, asks, bid).updates[i];
                0 <= u.price <= MAX_PRICE_UNITS && 0 <= u.volume <= MAX_QTY_UNITS
            },
    decreases asks.orders.len(),
{
    if bid.price >= asks.min_price && asks.orders.len() > 0 {
        let best = asks.orders.last();
        assert(wf_order(best));
        if bid.quantity > best.quantity {
            let popped = BookV { orders: asks.orders.drop_last(), ..asks };
            let asks2 = BookV { min_price: seq_min_price(popped.orders), ..popped };
            let bid2 = Order { quantity: (bid.quantity - best.quantity) as i64, ..bid };
            assert(all_wf(asks2.orders)) by {
                assert(forall|i: int|
                    0 <= i < asks.orders.len() - 1 ==> asks.orders.drop_last()[i]
                        == asks.orders[i]);
            }
            lemma_cda_bid_cross_nonneg(bids, asks2, bid2);
        }
    }
}

/// The ask-side mirror of `lemma_cda_bid_cross_nonneg`.
#[verifier::rlimit(50)]
pub proof fn lemma_cda_ask_cross_nonneg(bids: BookV, asks: BookV, ask: Order)
    requires
        all_wf(bids.orders),
        wf_order(ask),
    ensures
        forall|i: int|
            0 <= i < cda_ask_cross(bids, asks, ask).updates.len() ==> {
                let u = #[trigger] cda_ask_cross(bids, asks, ask).updates[i];
                0 <= u.price <= MAX_PRICE_UNITS && 0 <= u.volume <= MAX_QTY_UNITS
            },
    decreases bids.orders.len(),
{
    let st = cda_ask_cross(bids, asks, ask);
    if ask.price <= bids.max_price && bids.orders.len() > 0 {
        let best = bids.orders.last();
        assert(best == bids.orders[bids.orders.len() - 1]);
        assert(wf_order(best));
        if ask.quantity > best.quantity {
            let popped = BookV { orders: bids.orders.drop_last(), ..bids };
            let bids2 = BookV {
                max_price: if popped.orders.len() > 0 {
                    popped.orders.last().price
                } else {
                    0
                },
                ..popped
            };
            let ask2 = Order { quantity: (ask.quantity - best.quantity) as i64, ..ask };
            assert(all_wf(bids2.orders)) by {
                assert(forall|i: int|
                    0 <= i < bids.orders.len() - 1 ==> bids.orders.drop_last()[i]
                        == bids.orders[i]);
            }
            lemma_cda_ask_cross_nonneg(bids2, asks, ask2);
            let rest = cda_ask_cross(bids2, asks, ask2);
            assert forall|i: int| 0 <= i < st.updates.len() implies {
                let u = #[trigger] st.updates[i];
                0 <= u.price <= MAX_PRICE_UNITS && 0 <= u.volume <= MAX_QTY_UNITS
            } by {
                if i == 0 {
                    assert(st.updates[0] == cda_update(best, ask, best.price, best.quantity));
                } else {
                    assert(st.updates[i] == rest.updates[i - 1]);
                }
            }
        }
    }
}

/// The accumulators of the batch auction's descending-price sweep:
/// extreme prices seen, volume seen, and the prices of the previous
/// and current entries when the sweep stopped.
pub ghost struct SweepOut {
    pub maxs: i64,
    pub mins: i64,
    pub seen: int,
    pub prev: i64,
    pub cur: i64,
}

/// The sweep over the merged book: accumulate volume entry by entry,
/// tracking the extreme prices seen, and stop as soon as the seen
/// volume reaches the ask book's total volume.
pub open spec fn fba_sweep(
    m: Seq<Order>,
    ask_vol: int,
    i: int,
    maxs: i64,
    mins: i64,
    seen: int,
    prev: i64,
    cur: i64,
) -> SweepOut
    decreases m.len() - i,
{
    if i < 0 || i >= m.len() {
        SweepOut { maxs, mins, seen, prev, cur }
    } else {
        let cur2 = m[i].price;
        let maxs2 = if cur2 > maxs {
            cur2
        } else {
            maxs
        };
        let mins2 = if cur2 < mins {
            cur2
        } else {
            mins
        };
        let seen2 = seen + m[i].quantity;
        if seen2 >= ask_vol {
            SweepOut { maxs: maxs2, mins: mins2, seen: seen2, prev, cur: cur2 }
        } else {
            fba_sweep(m, ask_vol, i + 1, maxs2, mins2, seen2, cur2, cur2)
        }
    }
}

/// The second pass run when the sweep saw no usable extreme price:
/// rescan from the start until an entry prices under the ceiling.
pub open spec fn fba_rescan(m: Seq<Order>, i: int, maxs: i64, mins: i64, cur: i64) -> (
    i64,
    i64,
    i64,
)
    decreases m.len() - i,
{
    if i < 0 || i >= m.len() {
        (maxs, mins, cur)
    } else {
        let cur2 = m[i].price;
        let maxs2 = if cur2 > maxs {
            cur2
        } else {
            maxs
        };
        let mins2 = if cur2 < mins {
            cur2
        } else {
            mins
        };
        if cur2 < MAX_PRICE {
            (maxs2, mins2, cur2)
        } else {
            fba_rescan(m, i + 1, maxs2, mins2, cur2)
        }
    }
}

/// The uniform clearing price of the batch auction, or `None` when a
/// book is empty, the books do not cross, or no case of the boundary
/// analysis applies.  With the volume matched exactly, the price comes
/// from the bracketing entries (midpoint when both are interior); with
/// the last entry overshooting, it is the larger of that entry's price
/// and the least price seen.
pub open spec fn fba_clearing_price(bids: BookV, asks: BookV) -> Option<i64> {
    if bids.orders.len() == 0 || asks.orders.len() == 0 {
        None
    } else if bids.max_price < asks.min_price {
        None
    } else {
        let av = seq_volume(asks.orders);
        let m = sort_desc(bids.orders + asks.orders);
        let sw = fba_sweep(m, av, 0, MIN_PRICE, MAX_PRICE, 0, 0, 0);
        let re = if sw.maxs == MIN_PRICE || sw.mins == MAX_PRICE {
            fba_rescan(m, 0, sw.maxs, sw.mins, sw.cur)
        } else {
            (sw.maxs, sw.mins, sw.cur)
        };
        let maxs = re.0;
        let mins = re.1;
        let cur = re.2;
        if maxs == MIN_PRICE && mins == MAX_PRICE {
            None
        } else if sw.seen == av {
            if sw.prev == MAX_PRICE && MIN_PRICE < cur && cur < MAX_PRICE {
                Some(cur)
            } else if sw.prev < MAX_PRICE && MIN_PRICE < cur {
                Some((((sw.prev as int) + (cur as int)) / 2) as i64)
            } else if MIN_PRICE < sw.prev && sw.prev < MAX_PRICE && cur == MIN_PRICE {
                Some(sw.prev)
            } else if sw.prev == MIN_PRICE {
                Some(mins)
            } else {
                None
            }
        } else if sw.seen > av {
            Some(
                if cur > mins {
                    cur
                } else {
                    mins
                },
            )
        } else {
            None
        }
    }
}

/// What the pairing pass leaves behind.
pub ghost struct FbaPairOut {
    pub bids: BookV,
    pub asks: BookV,
    pub updates: Seq<PlayerUpdate>,
}

/// The transfer of one batch fill: the bid pays the ask at the uniform
/// price.
pub open spec fn fba_update(bid: Order, ask: Order, cp: i64, amt: i64) -> PlayerUpdate {
    PlayerUpdate {
        payer_id: bid.trader_id,
        vol_filler_id: ask.trader_id,
        payer_order_id: bid.order_id,
        vol_filler_order_id: ask.order_id,
        price: cp,
        volume: amt,
        cancel: false,
    }
}

/// The best-first pairing at the clearing price: while the best bid
/// prices at or above it and the best ask at or below it, they trade
/// the smaller quantity; a fully filled order is consumed, a partial
/// fill is pushed back with its residual quantity.
pub open spec fn fba_pair(bids: BookV, asks: BookV, cp: i64) -> FbaPairOut
    decreases bids.orders.len() + asks.orders.len(),
{
    if bids.orders.len() == 0 || asks.orders.len() == 0 {
        FbaPairOut { bids, asks, updates: Seq::empty() }
    } else {
        let bid = bids.orders.last();
        let ask = asks.orders.last();
        let bpop = BookV { orders: bids.orders.drop_last(), ..bids };
        let apop = BookV { orders: asks.orders.drop_last(), ..asks };
        if bid.price < cp || ask.price > cp {
            FbaPairOut { bids, asks, updates: Seq::empty() }
        } else if bid.quantity < ask.quantity {
            let amt = bid.quantity;
            let ask2 = Order { quantity: (ask.quantity - amt) as i64, ..ask };
            let rest = fba_pair(
                bpop,
                BookV { orders: apop.orders.push(ask2), ..apop },
                cp,
            );
            FbaPairOut {
                bids: rest.bids,
                asks: rest.asks,
                updates: seq![fba_update(bid, ask, cp, amt)] + rest.updates,
            }
        } else if bid.quantity > ask.quantity {
            let amt = ask.quantity;
            let bid2 = Order { quantity: (bid.quantity - amt) as i64, ..bid };
            let rest = fba_pair(
                BookV { orders: bpop.orders.push(bid2), ..bpop },
                apop,
                cp,
            );
            FbaPairOut {
                bids: rest.bids,
                asks: rest.asks,
                updates: seq![fba_update(bid, ask, cp, amt)] + rest.updates,
            }
        } else {
            let amt = bid.quantity;
            let rest = fba_pair(bpop, apop, cp);
            FbaPairOut {
                bids: rest.bids,
                asks: rest.asks,
                updates: seq![fba_update(bid, ask, cp, amt)] + rest.updates,
            }
        }
    }
}

/// The aggregate demand schedule: the sum of every bid's flow demand
/// at price `p`.
pub open spec fn agg_demand_at(s: Seq<Order>, p: int) -> int
    decreases s.len(),
{
    if s.len() == 0 {
        0
    } else {
        agg_demand_at(s.drop_last(), p) + flow_demand(s.last(), p)
    }
}

/// The aggregate supply schedule: the sum of every ask's flow supply
/// at price `p`.
pub open spec fn agg_supply_at(s: Seq<Order>, p: int) -> int
    decreases s.len(),
{
    if s.len() == 0 {
        0
    } else {
        agg_supply_at(s.drop_last(), p) + flow_supply(s.last(), p)
    }
}

/// The aggregate schedules of well-formed orders are non-negative and
/// bounded by the book's size times the quantity cap.
pub proof fn lemma_agg_bounds(s: Seq<Order>, p: int)
    requires
        all_wf(s),
    ensures
        0 <= agg_demand_at(s, p) <= s.len() * (MAX_QTY_UNITS as int),
        0 <= agg_supply_at(s, p) <= s.len() * (MAX_QTY_UNITS as int),
    decreases s.len(),
{
    if s.len() > 0 {
        assert(all_wf(s.drop_last())) by {
            assert(forall|i: int| 0 <= i < s.len() - 1 ==> s.drop_last()[i] == s[i]);
        }
        lemma_agg_bounds(s.drop_last(), p);
        assert(wf_order(s[s.len() - 1]));
        crate::order::lemma_flow_demand_bounds(s.last(), p);
        crate::order::lemma_flow_supply_bounds(s.last(), p);
        assert(s.len() * (MAX_QTY_UNITS as int) == (s.len() - 1) * (MAX_QTY_UNITS as int)
            + MAX_QTY_UNITS) by (nonlinear_arith);
    }
}

/// Where the flow market's binary search stopped: the price, the
/// aggregate demand and supply there, and whether the iteration cap
/// ended the search.
pub ghost struct KlfCross {
    pub price: i64,
    pub dem: int,
    pub sup: int,
    pub capped: bool,
}

/// The binary search for the price equating aggregate demand and
/// supply.  While demand exceeds supply by more than the tolerance the
/// left bound rises to the midpoint, and symmetrically for the right;
/// within tolerance the midpoint is the clearing price.  After the
/// iteration cap the last midpoint is reported as capped, so a search
/// started on a bracket always reports a price.  The cap matters: on
/// the fixed-point grid the aggregate schedules are integer-valued and
/// can step past the tolerance between adjacent prices, so no
/// representable price need clear within it.
pub open spec fn bs_search(
    bids: Seq<Order>,
    asks: Seq<Order>,
    left: i64,
    right: i64,
    iter: int,
) -> Option<KlfCross>
    decreases MAX_ITERS - iter,
{
    if iter >= MAX_ITERS || iter < 0 {
        None
    } else {
        let mid = (((left as int) + (right as int)) / 2) as i64;
        let dem = agg_demand_at(bids, mid as int);
        let sup = agg_supply_at(asks, mid as int);
        if dem - sup > EPSILON {
            if iter + 1 == MAX_ITERS {
                Some(KlfCross { price: mid, dem, sup, capped: true })
            } else {
                bs_search(bids, asks, mid, right, iter + 1)
            }
        } else if sup - dem > EPSILON {
            if iter + 1 == MAX_ITERS {
                Some(KlfCross { price: mid, dem, sup, capped: true })
            } else {
                bs_search(bids, asks, left, mid, iter + 1)
            }
        } else {
            Some(KlfCross { price: mid, dem, sup, capped: false })
        }
    }
}

/// At the price the search reports, aggregate demand and supply agree
/// within the tolerance, unless the iteration cap cut the search off.
pub proof fn lemma_bs_search_tolerance(
    bids: Seq<Order>,
    asks: Seq<Order>,
    left: i64,
    right: i64,
    iter: int,
)
    ensures
        match bs_search(bids, asks, left, right, iter) {
            Some(kc) => kc.dem == agg_demand_at(bids, kc.price as int) && kc.sup == agg_supply_at(
                asks,
                kc.price as int,
            ) && (kc.capped || abs_i(kc.dem - kc.sup) <= EPSILON),
            None => true,
        },
    decreases MAX_ITERS - iter,
{
    if iter >= MAX_ITERS || iter < 0 {
    } else {
        let mid = (((left as int) + (right as int)) / 2) as i64;
        if iter + 1 < MAX_ITERS {
            lemma_bs_search_tolerance(bids, asks, mid, right, iter + 1);
            lemma_bs_search_tolerance(bids, asks, left, mid, iter + 1);
        }
    }
}

/// A search started below the iteration cap always reports a price.
pub proof fn lemma_bs_search_total(
    bids: Seq<Order>,
    asks: Seq<Order>,
    left: i64,
    right: i64,
    iter: int,
)
    requires
        0 <= iter < MAX_ITERS,
    ensures
        bs_search(bids, asks, left, right, iter) is Some,
    decreases MAX_ITERS - iter,
{
    let mid = (((left as int) + (right as int)) / 2) as i64;
    if iter + 1 < MAX_ITERS {
        lemma_bs_search_total(bids, asks, mid, right, iter + 1);
        lemma_bs_search_total(bids, asks, left, mid, iter + 1);
    }
}

/// The id that stands for the exchange as counterparty in flow trades.
pub open spec fn na_seq() -> Seq<char> {
    "N/A"@
}

/// The transfers the flow clearing emits for the bid side, in book
/// order: every bid with positive demand at the clearing price buys
/// that demand from the exchange.
pub open spec fn flow_bid_updates(s: Seq<Order>, cp: i64) -> Seq<PlayerUpdateV>
    decreases s.len(),
{
    if s.len() == 0 {
        Seq::empty()
    } else {
        let v = flow_demand(s.last(), cp as int);
        flow_bid_updates(s.drop_last(), cp) + if v > 0 {
            seq![
                PlayerUpdateV {
                    payer_id: s.last().trader_id@,
                    vol_filler_id: na_seq(),
                    payer_order_id: s.last().order_id,
                    vol_filler_order_id: 0,
                    price: cp,
                    volume: v as i64,
                    cancel: false,
                },
            ]
        } else {
            Seq::empty()
        }
    }
}

/// The transfers the flow clearing emits for the ask side, in book
/// order: every ask with positive supply at the clearing price sells
/// that supply to the exchange.
pub open spec fn flow_ask_updates(s: Seq<Order>, cp: i64) -> Seq<PlayerUpdateV>
    decreases s.len(),
{
    if s.len() == 0 {
        Seq::empty()
    } else {
        let v = flow_supply(s.last(), cp as int);
        flow_ask_updates(s.drop_last(), cp) + if v > 0 {
            seq![
                PlayerUpdateV {
                    payer_id: na_seq(),
                    vol_filler_id: s.last().trader_id@,
                    payer_order_id: 0,
                    vol_filler_order_id: s.last().order_id,
                    price: cp,
                    volume: v as i64,
                    cancel: false,
                },
            ]
        } else {
            Seq::empty()
        }
    }
}

/// Each bid after the flow fill: its quantity less its demand at the
/// clearing price.
pub open spec fn flow_fill_bids(s: Seq<Order>, cp: i64) -> Seq<Order> {
    Seq::new(
        s.len(),
        |i: int| Order { quantity: (s[i].quantity - flow_demand(s[i], cp as int)) as i64, ..s[i] },
    )
}

/// Each ask after the flow fill: its quantity less its supply at the
/// clearing price.
pub open spec fn flow_fill_asks(s: Seq<Order>, cp: i64) -> Seq<Order> {
    Seq::new(
        s.len(),
        |i: int| Order { quantity: (s[i].quantity - flow_supply(s[i], cp as int)) as i64, ..s[i] },
    )
}

/// The ids of the bids the fill exhausts, in book order.
pub open spec fn flow_cancel_ids_bids(s: Seq<Order>, cp: i64) -> Seq<u64>
    decreases s.len(),
{
    if s.len() == 0 {
        Seq::empty()
    } else {
        let v = flow_demand(s.last(), cp as int);
        flow_cancel_ids_bids(s.drop_last(), cp) + if v > 0 && s.last().quantity - v <= 0 {
            seq![s.last().order_id]
        } else {
            Seq::empty()
        }
    }
}

/// The ids of the asks the fill exhausts, in book order.
pub open spec fn flow_cancel_ids_asks(s: Seq<Order>, cp: i64) -> Seq<u64>
    decreases s.len(),
{
    if s.len() == 0 {
        Seq::empty()
    } else {
        let v = flow_supply(s.last(), cp as int);
        flow_cancel_ids_asks(s.drop_last(), cp) + if v > 0 && s.last().quantity - v <= 0 {
            seq![s.last().order_id]
        } else {
            Seq::empty()
        }
    }
}

/// Cancelling a list of ids in order, as `Book::cancel_order_by_id`
/// does for each.
pub open spec fn cancel_ids(b: BookV, ids: Seq<u64>) -> BookV
    decreases ids.len(),
{
    if ids.len() == 0 {
        b
    } else {
        book_cancel(cancel_ids(b, ids.drop_last()), ids.last()).0
    }
}

/// What the flow clearing at price `cp` leaves of a book tagged with
/// the bid side: quantities reduced by the cleared demand and the
/// exhausted orders cancelled.
pub open spec fn flow_settle_bids(b: BookV, cp: i64) -> BookV {
    cancel_ids(
        BookV { orders: flow_fill_bids(b.orders, cp), ..b },
        flow_cancel_ids_bids(b.orders, cp),
    )
}

/// The ask-side counterpart of `flow_settle_bids`.
pub open spec fn flow_settle_asks(b: BookV, cp: i64) -> BookV {
    cancel_ids(
        BookV { orders: flow_fill_asks(b.orders, cp), ..b },
        flow_cancel_ids_asks(b.orders, cp),
    )
}

/// Every transfer the flow clearing emits trades at the clearing
/// price with a strictly positive, bounded volume.
pub proof fn lemma_flow_updates_nonneg(s: Seq<Order>, cp: i64)
    requires
        all_wf(s),
    ensures
        forall|i: int|
            0 <= i < flow_bid_updates(s, cp).len() ==> {
                let u = #[trigger] flow_bid_updates(s, cp)[i];
                u.price == cp && 0 < u.volume <= MAX_QTY_UNITS
            },
        forall|i: int|
            0 <= i < flow_ask_updates(s, cp).len() ==> {
                let u = #[trigger] flow_ask_updates(s, cp)[i];
                u.price == cp && 0 < u.volume <= MAX_QTY_UNITS
            },
    decreases s.len(),
{
    if s.len() > 0 {
        assert(all_wf(s.drop_last())) by {
            assert(forall|i: int| 0 <= i < s.len() - 1 ==> s.drop_last()[i] == s[i]);
        }
        lemma_flow_updates_nonneg(s.drop_last(), cp);
        assert(wf_order(s[s.len() - 1]));
        assert(s.last() == s[s.len() - 1]);
        crate::order::lemma_flow_demand_bounds(s.last(), cp as int);
        crate::order::lemma_flow_supply_bounds(s.last(), cp as int);
        let bu = flow_bid_updates(s, cp);
        let bu0 = flow_bid_updates(s.drop_last(), cp);
        assert forall|i: int| 0 <= i < bu.len() implies {
            let u = #[trigger] bu[i];
            u.price == cp && 0 < u.volume <= MAX_QTY_UNITS
        } by {
            if i < bu0.len() {
                assert(bu[i] == bu0[i]);
            }
        }
        let au = flow_ask_updates(s, cp);
        let au0 = flow_ask_updates(s.drop_last(), cp);
        assert forall|i: int| 0 <= i < au.len() implies {
            let u = #[trigger] au[i];
            u.price == cp && 0 < u.volume <= MAX_QTY_UNITS
        } by {
            if i < au0.len() {
                assert(au[i] == au0[i]);
            }
        }
    }
}

/// A price strictly between every bid's range and every ask's range
/// clears nothing: both schedules are zero and no transfer is emitted.
pub proof fn lemma_klf_gap_no_trades(bids: Seq<Order>, asks: Seq<Order>, p: i64)
    requires
        all_wf(bids),
        all_wf(asks),
        forall|i: int| 0 <= i < bids.len() ==> (p as int) > (#[trigger] bids[i]).p_high,
        forall|i: int| 0 <= i < asks.len() ==> (p as int) < (#[trigger] asks[i]).p_low,
    ensures
        agg_demand_at(bids, p as int) == 0,
        agg_supply_at(asks, p as int) == 0,
        flow_bid_updates(bids, p) == Seq::<PlayerUpdateV>::empty(),
        flow_ask_updates(asks, p) == Seq::<PlayerUpdateV>::empty(),
    decreases bids.len() + asks.len(),
{
    if bids.len() > 0 {
        assert(forall|i: int| 0 <= i < bids.len() - 1 ==> bids.drop_last()[i] == bids[i]);
        assert(bids.last() == bids[bids.len() - 1]);
        lemma_klf_gap_no_trades(bids.drop_last(), asks, p);
        assert(wf_order(bids[bids.len() - 1]));
        assert((p as int) > bids[bids.len() - 1].p_high);
        assert(flow_demand(bids.last(), p as int) == 0);
        assert(flow_bid_updates(bids, p) =~= Seq::<PlayerUpdateV>::empty());
    } else if asks.len() > 0 {
        assert(forall|i: int| 0 <= i < asks.len() - 1 ==> asks.drop_last()[i] == asks[i]);
        assert(asks.last() == asks[asks.len() - 1]);
        lemma_klf_gap_no_trades(bids, asks.drop_last(), p);
        assert(wf_order(asks[asks.len() - 1]));
        assert((p as int) < asks[asks.len() - 1].p_low);
        assert(flow_supply(asks.last(), p as int) == 0);
        assert(flow_ask_updates(asks, p) =~= Seq::<PlayerUpdateV>::empty());
    }
}

/// The total volume transferred by a sequence of player updates.
pub open spec fn sum_volumes(s: Seq<PlayerUpdate>) -> int
    decreases s.len(),
{
    if s.len() == 0 {
        0
    } else {
        sum_volumes(s.drop_last()) + s.last().volume
    }
}

/// Every batch fill trades at the clearing price with a non-negative
/// bounded volume; the pairing emits at most one transfer per order
/// and keeps both books well-formed.
pub proof fn lemma_fba_pair_props(bids: BookV, asks: BookV, cp: i64)
    requires
        all_wf(bids.orders),
        all_wf(asks.orders),
    ensures
        ({
            let out = fba_pair(bids, asks, cp);
            &&& forall|i: int|
                0 <= i < out.updates.len() ==> (#[trigger] out.updates[i]).price == cp && 0 <= out.updates[i].volume
                    <= MAX_QTY_UNITS
            &&& out.updates.len() <= bids.orders.len() + asks.orders.len()
            &&& all_wf(out.bids.orders)
            &&& all_wf(out.asks.orders)
        }),
    decreases bids.orders.len() + asks.orders.len(),
{
    if bids.orders.len() == 0 || asks.orders.len() == 0 {
    } else {
        let bid = bids.orders.last();
        let ask = asks.orders.last();
        assert(wf_order(bid) && wf_order(ask));
        let bpop = BookV { orders: bids.orders.drop_last(), ..bids };
        let apop = BookV { orders: asks.orders.drop_last(), ..asks };
        assert(all_wf(bpop.orders) && all_wf(apop.orders)) by {
            assert(forall|i: int|
                0 <= i < bids.orders.len() - 1 ==> bids.orders.drop_last()[i] == bids.orders[i]);
            assert(forall|i: int|
                0 <= i < asks.orders.len() - 1 ==> asks.orders.drop_last()[i] == asks.orders[i]);
        }
        if bid.price < cp || ask.price > cp {
        } else if bid.quantity < ask.quantity {
            let amt = bid.quantity;
            let ask2 = Order { quantity: (ask.quantity - amt) as i64, ..ask };
            let a2 = BookV { orders: apop.orders.push(ask2), ..apop };
            assert(all_wf(a2.orders));
            lemma_fba_pair_props(bpop, a2, cp);
        } else if bid.quantity > ask.quantity {
            let amt = ask.quantity;
            let bid2 = Order { quantity: (bid.quantity - amt) as i64, ..bid };
            let b2 = BookV { orders: bpop.orders.push(bid2), ..bpop };
            assert(all_wf(b2.orders));
            lemma_fba_pair_props(b2, apop, cp);
        } else {
            lemma_fba_pair_props(bpop, apop, cp);
        }
    }
}

/// A sequence of bounded-volume updates has a bounded volume sum.
pub proof fn lemma_sum_volumes_bound(s: Seq<PlayerUpdate>)
    requires
        forall|i: int| 0 <= i < s.len() ==> 0 <= (#[trigger] s[i]).volume <= MAX_QTY_UNITS,
    ensures
        0 <= sum_volumes(s) <= s.len() * (MAX_QTY_UNITS as int),
    decreases s.len(),
{
    if s.len() > 0 {
        assert(forall|i: int| 0 <= i < s.len() - 1 ==> s.drop_last()[i] == s[i]);
        lemma_sum_volumes_bound(s.drop_last());
        assert(s.last() == s[s.len() - 1]);
        assert(s.len() * (MAX_QTY_UNITS as int) == (s.len() - 1) * (MAX_QTY_UNITS as int)
            + MAX_QTY_UNITS) by (nonlinear_arith);
    }
}

/// A CDA bid cross keeps both books' sides, sort orders and field
/// bounds.
pub proof fn lemma_cda_bid_cross_wf(bids: BookV, asks: BookV, bid: Order)
    requires
        bids.book_type == TradeType::Bid,
        asks.book_type == TradeType::Ask,
        sorted_asc(bids.orders),
        all_wf(bids.orders),
        sorted_desc(asks.orders),
        all_wf(asks.orders),
        wf_order(bid),
    ensures
        ({
            let st = cda_bid_cross(bids, asks, bid);
            &&& st.bids.book_type == TradeType::Bid
            &&& st.asks.book_type == TradeType::Ask
            &&& sorted_asc(st.bids.orders)
            &&& all_wf(st.bids.orders)
            &&& sorted_desc(st.asks.orders)
            &&& all_wf(st.asks.orders)
        }),
    decreases asks.orders.len(),
{
    if bid.price >= asks.min_price && asks.orders.len() > 0 {
        let best = asks.orders.last();
        assert(wf_order(best)) by {
            assert(best == asks.orders[asks.orders.len() - 1]);
        }
        let popped = BookV { orders: asks.orders.drop_last(), ..asks };
        assert(sorted_desc(popped.orders) && all_wf(popped.orders)) by {
            assert(forall|i: int|
                0 <= i < asks.orders.len() - 1 ==> asks.orders.drop_last()[i] == asks.orders[i]);
        }
        if bid.quantity < best.quantity {
            let rest_ask = Order { quantity: (best.quantity - bid.quantity) as i64, ..best };
            assert(sorted_desc(popped.orders.push(rest_ask))) by {
                assert(forall|i: int|
                    0 <= i < popped.orders.len() ==> (#[trigger] popped.orders[i]).price
                        >= best.price);
            }
            assert(all_wf(popped.orders.push(rest_ask)));
        } else if bid.quantity > best.quantity {
            let asks2 = BookV { min_price: seq_min_price(popped.orders), ..popped };
            let bid2 = Order { quantity: (bid.quantity - best.quantity) as i64, ..bid };
            lemma_cda_bid_cross_wf(bids, asks2, bid2);
        }
    } else {
        crate::book::lemma_insert_asc_wf(bids.orders, bid);
    }
}

/// A CDA ask cross keeps both books' sides, sort orders and field
/// bounds.
pub proof fn lemma_cda_ask_cross_wf(bids: BookV, asks: BookV, ask: Order)
    requires
        bids.book_type == TradeType::Bid,
        asks.book_type == TradeType::Ask,
        sorted_asc(bids.orders),
        all_wf(bids.orders),
        sorted_desc(asks.orders),
        all_wf(asks.orders),
        wf_order(ask),
    ensures
        ({
            let st = cda_ask_cross(bids, asks, ask);
            &&& st.bids.book_type == TradeType::Bid
            &&& st.asks.book_type == TradeType::Ask
            &&& sorted_asc(st.bids.orders)
            &&& all_wf(st.bids.orders)
            &&& sorted_desc(st.asks.orders)
            &&& all_wf(st.asks.orders)
        }),
    decreases bids.orders.len(),
{
    if ask.price <= bids.max_price && bids.orders.len() > 0 {
        let best = bids.orders.last();
        assert(wf_order(best)) by {
            assert(best == bids.orders[bids.orders.len() - 1]);
        }
        let popped = BookV { orders: bids.orders.drop_last(), ..bids };
        assert(sorted_asc(popped.orders) && all_wf(popped.orders)) by {
            assert(forall|i: int|
                0 <= i < bids.orders.len() - 1 ==> bids.orders.drop_last()[i] == bids.orders[i]);
        }
        if ask.quantity < best.quantity {
            let rest_bid = Order { quantity: (best.quantity - ask.quantity) as i64, ..best };
            assert(sorted_asc(popped.orders.push(rest_bid))) by {
                assert(forall|i: int|
                    0 <= i < popped.orders.len() ==> (#[trigger] popped.orders[i]).price
                        <= best.price);
            }
            assert(all_wf(popped.orders.push(rest_bid)));
        } else if ask.quantity > best.quantity {
            let bids2 = BookV {
                max_price: if popped.orders.len() > 0 {
                    popped.orders.last().price
                } else {
                    0
                },
                ..popped
            };
            let ask2 = Order { quantity: (ask.quantity - best.quantity) as i64, ..ask };
            lemma_cda_ask_cross_wf(bids2, asks, ask2);
        }
    } else {
        crate::book::lemma_insert_desc_wf(asks.orders, ask);
    }
}

/// The batch pairing keeps both books' sides and sort orders.
pub proof fn lemma_fba_pair_sorted(bids: BookV, asks: BookV, cp: i64)
    requires
        sorted_asc(bids.orders),
        sorted_desc(asks.orders),
    ensures
        ({
            let out = fba_pair(bids, asks, cp);
            &&& out.bids.book_type == bids.book_type
            &&& out.asks.book_type == asks.book_type
            &&& sorted_asc(out.bids.orders)
            &&& sorted_desc(out.asks.orders)
        }),
    decreases bids.orders.len() + asks.orders.len(),
{
    if bids.orders.len() == 0 || asks.orders.len() == 0 {
    } else {
        let bid = bids.orders.last();
        let ask = asks.orders.last();
        let bpop = BookV { orders: bids.orders.drop_last(), ..bids };
        let apop = BookV { orders: asks.orders.drop_last(), ..asks };
        assert(sorted_asc(bpop.orders) && sorted_desc(apop.orders)) by {
            assert(forall|i: int|
                0 <= i < bids.orders.len() - 1 ==> bids.orders.drop_last()[i] == bids.orders[i]);
            assert(forall|i: int|
                0 <= i < asks.orders.len() - 1 ==> asks.orders.drop_last()[i] == asks.orders[i]);
        }
        if bid.price < cp || ask.price > cp {
        } else if bid.quantity < ask.quantity {
            let ask2 = Order { quantity: (ask.quantity - bid.quantity) as i64, ..ask };
            let a2 = BookV { orders: apop.orders.push(ask2), ..apop };
            assert(sorted_desc(a2.orders)) by {
                assert(forall|i: int|
                    0 <= i < apop.orders.len() ==> (#[trigger] apop.orders[i]).price >= ask.price);
            }
            lemma_fba_pair_sorted(bpop, a2, cp);
        } else if bid.quantity > ask.quantity {
            let bid2 = Order { quantity: (bid.quantity - ask.quantity) as i64, ..bid };
            let b2 = BookV { orders: bpop.orders.push(bid2), ..bpop };
            assert(sorted_asc(b2.orders)) by {
                assert(forall|i: int|
                    0 <= i < bpop.orders.len() ==> (#[trigger] bpop.orders[i]).price <= bid.price);
            }
            lemma_fba_pair_sorted(b2, apop, cp);
        } else {
            lemma_fba_pair_sorted(bpop, apop, cp);
        }
    }
}

/// Cancelling a list of ids keeps the book's side, sort order, field
/// bounds and flow markers.
pub proof fn lemma_cancel_ids_props(b: BookV, ids: Seq<u64>)
    ensures
        cancel_ids(b, ids).book_type == b.book_type,
        sorted_asc(b.orders) ==> sorted_asc(cancel_ids(b, ids).orders),
        sorted_desc(b.orders) ==> sorted_desc(cancel_ids(b, ids).orders),
        all_wf(b.orders) ==> all_wf(cancel_ids(b, ids).orders),
        all_flow_bids(b.orders) ==> all_flow_bids(cancel_ids(b, ids).orders),
        all_flow_asks(b.orders) ==> all_flow_asks(cancel_ids(b, ids).orders),
    decreases ids.len(),
{
    if ids.len() > 0 {
        lemma_cancel_ids_props(b, ids.drop_last());
        crate::book::lemma_book_cancel_props(cancel_ids(b, ids.drop_last()), ids.last());
    }
}

/// The flow fill keeps each side's sort order, field bounds and flow
/// markers: prices are untouched and quantities shrink by the cleared
/// volume, which the demand and supply bounds cap at the old quantity.
pub proof fn lemma_flow_settle_props(b: BookV, a: BookV, cp: i64)
    requires
        all_wf(b.orders),
        all_wf(a.orders),
    ensures
        ({
            let fb = flow_settle_bids(b, cp);
            let fa = flow_settle_asks(a, cp);
            &&& fb.book_type == b.book_type
            &&& fa.book_type == a.book_type
            &&& all_wf(fb.orders)
            &&& all_wf(fa.orders)
            &&& sorted_asc(b.orders) ==> sorted_asc(fb.orders)
            &&& sorted_desc(a.orders) ==> sorted_desc(fa.orders)
            &&& all_flow_bids(b.orders) ==> all_flow_bids(fb.orders)
            &&& all_flow_asks(a.orders) ==> all_flow_asks(fa.orders)
        }),
{
    let bf = flow_fill_bids(b.orders, cp);
    let af = flow_fill_asks(a.orders, cp);
    assert forall|i: int| 0 <= i < bf.len() implies wf_order(#[trigger] bf[i]) by {
        assert(wf_order(b.orders[i]));
        crate::order::lemma_flow_demand_bounds(b.orders[i], cp as int);
    }
    assert forall|i: int| 0 <= i < af.len() implies wf_order(#[trigger] af[i]) by {
        assert(wf_order(a.orders[i]));
        crate::order::lemma_flow_supply_bounds(a.orders[i], cp as int);
    }
    assert(sorted_asc(b.orders) ==> sorted_asc(bf)) by {
        assert(forall|i: int| 0 <= i < bf.len() ==> (#[trigger] bf[i]).price == b.orders[i].price);
    }
    assert(sorted_desc(a.orders) ==> sorted_desc(af)) by {
        assert(forall|i: int| 0 <= i < af.len() ==> (#[trigger] af[i]).price == a.orders[i].price);
    }
    assert(all_flow_bids(b.orders) ==> all_flow_bids(bf)) by {
        assert(forall|i: int|
            0 <= i < bf.len() ==> (#[trigger] bf[i]).ex_type == b.orders[i].ex_type && bf[i].trade_type
                == b.orders[i].trade_type);
    }
    assert(all_flow_asks(a.orders) ==> all_flow_asks(af)) by {
        assert(forall|i: int|
            0 <= i < af.len() ==> (#[trigger] af[i]).ex_type == a.orders[i].ex_type && af[i].trade_type
                == a.orders[i].trade_type);
    }
    lemma_cancel_ids_props(BookV { orders: bf, ..b }, flow_cancel_ids_bids(b.orders, cp));
    lemma_cancel_ids_props(BookV { orders: af, ..a }, flow_cancel_ids_asks(a.orders, cp));
}

/// The view of an optional trade result.
pub open spec fn opt_results_view(r: Option<TradeResults>) -> Option<
    crate::exchange::TradeResultsV,
> {
    match r {
        Some(res) => Some(res@),
        None => None,
    }
}

/// What a batch auction run promises: the result carries the clearing
/// price of the starting books, and the books end as the best-first
/// pairing at that price leaves them (untouched when there is none).
pub open spec fn fba_post(
    b0: BookV,
    a0: BookV,
    b1: BookV,
    a1: BookV,
    r: Option<crate::exchange::TradeResultsV>,
) -> bool {
    let cpo = fba_clearing_price(b0, a0);
    match r {
        Some(res) => {
            &&& res.auction_type == MarketType::FBA
            &&& res.uniform_price == cpo
            &&& match cpo {
                None => b1 == b0 && a1 == a0 && res.cross_results is None && res.agg_demand == 0
                    && res.agg_supply == 0,
                Some(cp) => {
                    let out = fba_pair(b0, a0, cp);
                    &&& b1 == out.bids
                    &&& a1 == out.asks
                    &&& res.cross_results == Some(pus_view(out.updates))
                    &&& res.agg_demand == sum_volumes(out.updates)
                    &&& res.agg_supply == sum_volumes(out.updates)
                },
            }
        },
        None => false,
    }
}

/// What a flow market run promises: with a degenerate bracket (no
/// order bounds a price range, so there is nothing to search) no
/// result and untouched books; otherwise the binary search always
/// reports a price, and its outcome fixes the price, the aggregates,
/// the transfers and the settled books.
pub open spec fn klf_post(
    b0: BookV,
    a0: BookV,
    b1: BookV,
    a1: BookV,
    r: Option<crate::exchange::TradeResultsV>,
) -> bool {
    let l0 = if seq_min_plow(b0.orders) < seq_min_plow(a0.orders) {
        seq_min_plow(b0.orders)
    } else {
        seq_min_plow(a0.orders)
    };
    let r0 = if seq_max_phigh(b0.orders) > seq_max_phigh(a0.orders) {
        seq_max_phigh(b0.orders)
    } else {
        seq_max_phigh(a0.orders)
    };
    if l0 >= r0 {
        r is None && b1 == b0 && a1 == a0
    } else {
        match bs_search(b0.orders, a0.orders, l0, r0, 0) {
            None => false,
            Some(kc) => match r {
                Some(res) => {
                    &&& res.auction_type == MarketType::KLF
                    &&& res.uniform_price == Some(kc.price)
                    &&& res.agg_demand == kc.dem
                    &&& res.agg_supply == kc.sup
                    &&& res.cross_results == Some(
                        flow_bid_updates(b0.orders, kc.price) + flow_ask_updates(
                            a0.orders,
                            kc.price,
                        ),
                    )
                    &&& b1 == flow_settle_bids(b0, kc.price)
                    &&& a1 == flow_settle_asks(a0, kc.price)
                },
                None => false,
            },
        }
    }
}

/// The matching engines.  All methods are associated functions taking
/// the books they operate on.
pub struct Auction {}

impl Auction {
    /// Runs the end-of-block auction of the given market design: none
    /// for CDA (its crossings ran inline), the batch auction for FBA,
    /// the flow clearing for KLF.
    pub fn run_auction(bids: &mut Book, asks: &mut Book, m_t: MarketType) -> (r: Option<
        TradeResults,
    >)
        requires
            match m_t {
                MarketType::CDA => true,
                MarketType::FBA => all_wf(old(bids)@.orders) && all_wf(old(asks)@.orders),
                MarketType::KLF => all_wf(old(bids)@.orders) && all_wf(old(asks)@.orders)
                    && all_flow_bids(old(bids)@.orders) && all_flow_asks(old(asks)@.orders),
            },
        ensures
            match m_t {
                MarketType::CDA => r is None && final(bids)@ == old(bids)@ && final(asks)@ == old(
                    asks,
                )@,
                MarketType::FBA => fba_post(
                    old(bids)@,
                    old(asks)@,
                    final(bids)@,
                    final(asks)@,
                    opt_results_view(r),
                ),
                MarketType::KLF => klf_post(
                    old(bids)@,
                    old(asks)@,
                    final(bids)@,
                    final(asks)@,
                    opt_results_view(r),
                ),
            },
    {
        match m_t {
            MarketType::CDA => None,
            MarketType::FBA => Auction::frequent_batch_auction(bids, asks),
            MarketType::KLF => Auction::bs_cross(bids, asks),
        }
    }

    /// Tolerant strictly-greater: true when `a` exceeds `b` by more
    /// than the epsilon.
    pub fn greater_than_e(a: &i64, b: &i64) -> (r: bool)
        ensures
            r == ((*a as int) - (*b as int) > EPSILON),
    {
        (*a as i128) - (*b as i128) > EPSILON as i128
    }

    /// Tolerant strictly-less: true when `a` falls short of `b` by
    /// more than the epsilon.
    pub fn less_than_e(a: &i64, b: &i64) -> (r: bool)
        ensures
            r == ((*b as int) - (*a as int) > EPSILON),
    {
        (*b as i128) - (*a as i128) > EPSILON as i128
    }

    /// Tolerant equality: true when `a` and `b` differ by less than
    /// the epsilon.
    pub fn equal_e(a: &i64, b: &i64) -> (r: bool)
        ensures
            r == (abs_i(*a as int - *b as int) < EPSILON),
    {
        let d: i128 = (*a as i128) - (*b as i128);
        let dd: i128 = if d < 0 { -d } else { d };
        dd < EPSILON as i128
    }

    /// CDA: crosses a new bid against the ask book while it prices at
    /// or above the best ask; the residual, if any, rests in the bid
    /// book.  The returned result holds the transfers in cross order.
    pub fn calc_bid_crossing(bids: &mut Book, asks: &mut Book, new_bid: Order) -> (r: Option<
        TradeResults,
    >)
        requires
            old(bids)@.book_type == TradeType::Bid,
            sorted_asc(old(bids)@.orders),
            all_wf(old(bids)@.orders),
            all_wf(old(asks)@.orders),
            wf_order(new_bid),
        ensures
            ({
                let step = cda_bid_cross(old(bids)@, old(asks)@, new_bid);
                &&& final(bids)@ == step.bids
                &&& final(asks)@ == step.asks
                &&& match r {
                    Some(res) => res@.auction_type == MarketType::CDA && res@.uniform_price
                        is None && res@.agg_demand == 0 && res@.agg_supply == 0
                        && res@.cross_results == Some(pus_view(step.updates)),
                    None => false,
                }
            }),
    {
        let mut updates: Vec<PlayerUpdate> = Vec::new();
        Auction::cda_bid_loop(bids, asks, new_bid, &mut updates);
        let mut results = TradeResults::new(MarketType::CDA, None, 0, 0, None);
        results.cross_results = Some(updates);
        Some(results)
    }

    /// The recursive heart of the bid cross; mirrors `cda_bid_cross`
    /// step for step.
    fn cda_bid_loop(bids: &mut Book, asks: &mut Book, new_bid: Order, updates: &mut Vec<
        PlayerUpdate,
    >)
        requires
            old(bids)@.book_type == TradeType::Bid,
            sorted_asc(old(bids)@.orders),
            all_wf(old(bids)@.orders),
            all_wf(old(asks)@.orders),
            wf_order(new_bid),
        ensures
            ({
                let step = cda_bid_cross(old(bids)@, old(asks)@, new_bid);
                &&& final(bids)@ == step.bids
                &&& final(asks)@ == step.asks
                &&& final(updates)@ == old(updates)@ + step.updates
            }),
        decreases old(asks)@.orders.len(),
    {
        let ghost step = cda_bid_cross(old(bids)@, old(asks)@, new_bid);
        if new_bid.price >= asks.get_min_price() {
            match asks.pop_from_end() {
                None => {
                    proof {
                        crate::book::lemma_insert_asc_wf(bids@.orders, new_bid);
                    }
                    bids.add_order(new_bid);
                    bids.find_new_max();
                    proof {
                        assert(final(updates)@ =~= old(updates)@ + step.updates);
                    }
                },
                Some(best_ask) => {
                    let mut best_ask = best_ask;
                    if new_bid.quantity < best_ask.quantity {
                        best_ask.quantity = best_ask.quantity - new_bid.quantity;
                        updates.push(
                            PlayerUpdate::new(
                                new_bid.trader_id.clone(),
                                best_ask.trader_id.clone(),
                                new_bid.order_id,
                                best_ask.order_id,
                                best_ask.price,
                                new_bid.quantity,
                                false,
                            ),
                        );
                        asks.push_to_end(best_ask);
                        proof {
                            assert(final(updates)@ =~= old(updates)@ + step.updates);
                        }
                    } else if new_bid.quantity > best_ask.quantity {
                        updates.push(
                            PlayerUpdate::new(
                                new_bid.trader_id.clone(),
                                best_ask.trader_id.clone(),
                                new_bid.order_id,
                                best_ask.order_id,
                                best_ask.price,
                                best_ask.quantity,
                                false,
                            ),
                        );
                        asks.find_new_min();
                        let mut residual = new_bid;
                        residual.quantity = residual.quantity - best_ask.quantity;
                        proof {
                            assert(all_wf(asks@.orders)) by {
                                assert(forall|i: int|
                                    0 <= i < old(asks)@.orders.len() - 1 ==> old(
                                        asks,
                                    )@.orders.drop_last()[i] == old(asks)@.orders[i]);
                            }
                        }
                        Auction::cda_bid_loop(bids, asks, residual, updates);
                        proof {
                            let rest = cda_bid_cross(
                                old(bids)@,
                                BookV {
                                    min_price: seq_min_price(old(asks)@.orders.drop_last()),
                                    orders: old(asks)@.orders.drop_last(),
                                    ..old(asks)@
                                },
                                residual,
                            );
                            assert(step.updates =~= seq![
                                cda_update(
                                    new_bid,
                                    old(asks)@.orders.last(),
                                    old(asks)@.orders.last().price,
                                    old(asks)@.orders.last().quantity,
                                ),
                            ] + rest.updates);
                            assert(final(updates)@ =~= old(updates)@ + step.updates);
                        }
                    } else {
                        updates.push(
                            PlayerUpdate::new(
                                new_bid.trader_id.clone(),
                                best_ask.trader_id.clone(),
                                new_bid.order_id,
                                best_ask.order_id,
                                best_ask.price,
                                new_bid.quantity,
                                false,
                            ),
                        );
                        asks.find_new_min();
                        proof {
                            assert(final(updates)@ =~= old(updates)@ + step.updates);
                        }
                    }
                },
            }
        } else {
            proof {
                crate::book::lemma_insert_asc_wf(bids@.orders, new_bid);
            }
            bids.add_order(new_bid);
            bids.find_new_max();
            proof {
                assert(final(updates)@ =~= old(updates)@ + step.updates);
            }
        }
    }

    /// CDA: crosses a new ask against the bid book while it prices at
    /// or below the best bid; the residual, if any, rests in the ask
    /// book.
    pub fn calc_ask_crossing(bids: &mut Book, asks: &mut Book, new_ask: Order) -> (r: Option<
        TradeResults,
    >)
        requires
            old(asks)@.book_type == TradeType::Ask,
            old(bids)@.book_type == TradeType::Bid,
            sorted_desc(old(asks)@.orders),
            all_wf(old(asks)@.orders),
            all_wf(old(bids)@.orders),
            wf_order(new_ask),
        ensures
            ({
                let step = cda_ask_cross(old(bids)@, old(asks)@, new_ask);
                &&& final(bids)@ == step.bids
                &&& final(asks)@ == step.asks
                &&& match r {
                    Some(res) => res@.auction_type == MarketType::CDA && res@.uniform_price
                        is None && res@.agg_demand == 0 && res@.agg_supply == 0
                        && res@.cross_results == Some(pus_view(step.updates)),
                    None => false,
                }
            }),
    {
        let mut updates: Vec<PlayerUpdate> = Vec::new();
        Auction::cda_ask_loop(bids, asks, new_ask, &mut updates);
        let mut results = TradeResults::new(MarketType::CDA, None, 0, 0, None);
        results.cross_results = Some(updates);
        Some(results)
    }

    /// The recursive heart of the ask cross; mirrors `cda_ask_cross`
    /// step for step.
    fn cda_ask_loop(bids: &mut Book, asks: &mut Book, new_ask: Order, updates: &mut Vec<
        PlayerUpdate,
    >)
        requires
            old(asks)@.book_type == TradeType::Ask,
            old(bids)@.book_type == TradeType::Bid,
            sorted_desc(old(asks)@.orders),
            all_wf(old(asks)@.orders),
            all_wf(old(bids)@.orders),
            wf_order(new_ask),
        ensures
            ({
                let step = cda_ask_cross(old(bids)@, old(asks)@, new_ask);
                &&& final(bids)@ == step.bids
                &&& final(asks)@ == step.asks
                &&& final(updates)@ == old(updates)@ + step.updates
            }),
        decreases old(bids)@.orders.len(),
    {
        let ghost step = cda_ask_cross(old(bids)@, old(asks)@, new_ask);
        if new_ask.price <= bids.get_max_price() {
            match bids.pop_from_end() {
                None => {
                    proof {
                        crate::book::lemma_insert_desc_wf(asks@.orders, new_ask);
                    }
                    asks.add_order(new_ask);
                    asks.find_new_min();
                    proof {
                        crate::book::lemma_seq_min_price_last(asks@.orders);
                        assert(final(updates)@ =~= old(updates)@ + step.updates);
                    }
                },
                Some(best_bid) => {
                    let mut best_bid = best_bid;
                    if new_ask.quantity < best_bid.quantity {
                        best_bid.quantity = best_bid.quantity - new_ask.quantity;
                        updates.push(
                            PlayerUpdate::new(
                                best_bid.trader_id.clone(),
                                new_ask.trader_id.clone(),
                                best_bid.order_id,
                                new_ask.order_id,
                                best_bid.price,
                                new_ask.quantity,
                                false,
                            ),
                        );
                        bids.push_to_end(best_bid);
                        proof {
                            assert(final(updates)@ =~= old(updates)@ + step.updates);
                        }
                    } else if new_ask.quantity > best_bid.quantity {
                        updates.push(
                            PlayerUpdate::new(
                                best_bid.trader_id.clone(),
                                new_ask.trader_id.clone(),
                                best_bid.order_id,
                                new_ask.order_id,
                                best_bid.price,
                                best_bid.quantity,
                                false,
                            ),
                        );
                        match bids.peek_best_price() {
                            Some(p) => bids.update_best_price(p),
                            None => bids.update_best_price(0),
                        }
                        let mut residual = new_ask;
                        residual.quantity = residual.quantity - best_bid.quantity;
                        proof {
                            assert(all_wf(bids@.orders)) by {
                                assert(forall|i: int|
                                    0 <= i < old(bids)@.orders.len() - 1 ==> old(
                                        bids,
                                    )@.orders.drop_last()[i] == old(bids)@.orders[i]);
                            }
                        }
                        Auction::cda_ask_loop(bids, asks, residual, updates);
                        proof {
                            let popped = BookV {
                                orders: old(bids)@.orders.drop_last(),
                                ..old(bids)@
                            };
                            let rest = cda_ask_cross(
                                BookV {
                                    max_price: if popped.orders.len() > 0 {
                                        popped.orders.last().price
                                    } else {
                                        old(bids)@.max_price
                                    },
                                    ..popped
                                },
                                old(asks)@,
                                residual,
                            );
                            assert(step.updates =~= seq![
                                cda_update(
                                    old(bids)@.orders.last(),
                                    new_ask,
                                    old(bids)@.orders.last().price,
                                    old(bids)@.orders.last().quantity,
                                ),
                            ] + rest.updates);
                            assert(final(updates)@ =~= old(updates)@ + step.updates);
                        }
                    } else {
                        updates.push(
                            PlayerUpdate::new(
                                best_bid.trader_id.clone(),
                                new_ask.trader_id.clone(),
                                best_bid.order_id,
                                new_ask.order_id,
                                best_bid.price,
                                new_ask.quantity,
                                false,
                            ),
                        );
                        match bids.peek_best_price() {
                            Some(p) => bids.update_best_price(p),
                            None => bids.update_best_price(0),
                        }
                        proof {
                            assert(final(updates)@ =~= old(updates)@ + step.updates);
                        }
                    }
                },
            }
        } else {
            proof {
                crate::book::lemma_insert_desc_wf(asks@.orders, new_ask);
            }
            asks.add_order(new_ask);
            asks.find_new_min();
            proof {
                crate::book::lemma_seq_min_price_last(asks@.orders);
                assert(final(updates)@ =~= old(updates)@ + step.updates);
            }
        }
    }

    /// FBA: computes the uniform clearing price over both books merged
    /// and pairs the crossing orders best-first at that price.  With an
    /// empty side or uncrossed books the result carries no price and
    /// the books are untouched.
    pub fn frequent_batch_auction(bids: &mut Book, asks: &mut Book) -> (r: Option<TradeResults>)
        requires
            all_wf(old(bids)@.orders),
            all_wf(old(asks)@.orders),
        ensures
            ({
                let cpo = fba_clearing_price(old(bids)@, old(asks)@);
                match r {
                    Some(res) => {
                        &&& res@.auction_type == MarketType::FBA
                        &&& res@.uniform_price == cpo
                        &&& match cpo {
                            None => final(bids)@ == old(bids)@ && final(asks)@ == old(asks)@
                                && res@.cross_results is None && res@.agg_demand == 0
                                && res@.agg_supply == 0,
                            Some(cp) => {
                                let out = fba_pair(old(bids)@, old(asks)@, cp);
                                &&& final(bids)@ == out.bids
                                &&& final(asks)@ == out.asks
                                &&& res@.cross_results == Some(pus_view(out.updates))
                                &&& res@.agg_demand == sum_volumes(out.updates)
                                &&& res@.agg_supply == sum_volumes(out.updates)
                            },
                        }
                    },
                    None => false,
                }
            }),
            old(bids)@.orders.len() == 0 || old(asks)@.orders.len() == 0 ==> fba_clearing_price(
                old(bids)@,
                old(asks)@,
            ) is None && final(bids)@ == old(bids)@ && final(asks)@ == old(asks)@,
    {
        if bids.len() == 0 || asks.len() == 0 {
            let result = TradeResults::new(MarketType::FBA, None, 0, 0, None);
            return Some(result);
        }
        if bids.get_max_price() < asks.get_min_price() {
            let result = TradeResults::new(MarketType::FBA, None, 0, 0, None);
            return Some(result);
        }
        let ask_book_vol: i128 = asks.get_book_volume();
        let merged_book = Book::merge_sort_books(&*bids, &*asks);
        let ghost m = merged_book@.orders;
        proof {
            assert(all_wf(old(bids)@.orders + old(asks)@.orders)) by {
                let c = old(bids)@.orders + old(asks)@.orders;
                assert(forall|i: int|
                    0 <= i < c.len() ==> #[trigger] c[i] == if i < old(bids)@.orders.len() {
                        old(bids)@.orders[i]
                    } else {
                        old(asks)@.orders[i - old(bids)@.orders.len()]
                    });
            }
            crate::book::lemma_sort_desc_wf(old(bids)@.orders + old(asks)@.orders);
            crate::book::lemma_seq_volume_bounds(old(asks)@.orders);
        }
        let mut max_seen_price: i64 = MIN_PRICE;
        let mut min_seen_price: i64 = MAX_PRICE;
        let mut seen_vol: i128 = 0;
        let mut prev_order_price: i64 = 0;
        let mut cur_order_price: i64 = 0;
        let ghost sw = fba_sweep(m, ask_book_vol as int, 0, MIN_PRICE, MAX_PRICE, 0, 0, 0);
        let mut i: usize = 0;
        let mut broke: bool = false;
        while i < merged_book.orders.len() && !broke
            invariant
                0 <= i <= merged_book.orders.len(),
                merged_book@.orders == m,
                all_wf(m),
                0 <= max_seen_price <= MAX_PRICE,
                0 <= min_seen_price <= MAX_PRICE,
                0 <= prev_order_price <= MAX_PRICE,
                0 <= cur_order_price <= MAX_PRICE,
                0 <= seen_vol <= (i as int) * (MAX_QTY_UNITS as int),
                !broke ==> fba_sweep(
                    m,
                    ask_book_vol as int,
                    i as int,
                    max_seen_price,
                    min_seen_price,
                    seen_vol as int,
                    prev_order_price,
                    cur_order_price,
                ) == sw,
                broke ==> (SweepOut {
                    maxs: max_seen_price,
                    mins: min_seen_price,
                    seen: seen_vol as int,
                    prev: prev_order_price,
                    cur: cur_order_price,
                } == sw),
            decreases merged_book.orders.len() - i,
        {
            proof {
                assert(wf_order(m[i as int]));
                assert((i as int + 1) * (MAX_QTY_UNITS as int) == (i as int) * (
                MAX_QTY_UNITS as int) + MAX_QTY_UNITS) by (nonlinear_arith);
                assert((i as int + 1) * (MAX_QTY_UNITS as int) <= 0x1_0000_0000_0000_0000 * (
                MAX_QTY_UNITS as int)) by (nonlinear_arith)
                    requires
                        0 <= i as int + 1 <= 0x1_0000_0000_0000_0000,
                ;
            }
            cur_order_price = merged_book.orders[i].price;
            if cur_order_price > max_seen_price {
                max_seen_price = cur_order_price;
            }
            if cur_order_price < min_seen_price {
                min_seen_price = cur_order_price;
            }
            seen_vol = seen_vol + (merged_book.orders[i].quantity as i128);
            if seen_vol >= ask_book_vol {
                broke = true;
            } else {
                prev_order_price = cur_order_price;
            }
            i = i + 1;
        }
        proof {
            assert(SweepOut {
                maxs: max_seen_price,
                mins: min_seen_price,
                seen: seen_vol as int,
                prev: prev_order_price,
                cur: cur_order_price,
            } == sw);
        }
        let ghost re = if sw.maxs == MIN_PRICE || sw.mins == MAX_PRICE {
            fba_rescan(m, 0, sw.maxs, sw.mins, sw.cur)
        } else {
            (sw.maxs, sw.mins, sw.cur)
        };
        if max_seen_price == MIN_PRICE || min_seen_price == MAX_PRICE {
            let mut j: usize = 0;
            let mut broke2: bool = false;
            while j < merged_book.orders.len() && !broke2
                invariant
                    0 <= j <= merged_book.orders.len(),
                    merged_book@.orders == m,
                    all_wf(m),
                    0 <= max_seen_price <= MAX_PRICE,
                    0 <= min_seen_price <= MAX_PRICE,
                    0 <= cur_order_price <= MAX_PRICE,
                    !broke2 ==> fba_rescan(
                        m,
                        j as int,
                        max_seen_price,
                        min_seen_price,
                        cur_order_price,
                    ) == re,
                    broke2 ==> (max_seen_price, min_seen_price, cur_order_price) == re,
                decreases merged_book.orders.len() - j,
            {
                proof {
                    assert(wf_order(m[j as int]));
                }
                cur_order_price = merged_book.orders[j].price;
                if cur_order_price > max_seen_price {
                    max_seen_price = cur_order_price;
                }
                if cur_order_price < min_seen_price {
                    min_seen_price = cur_order_price;
                }
                if cur_order_price < MAX_PRICE {
                    broke2 = true;
                }
                j = j + 1;
            }
        }
        proof {
            assert((max_seen_price, min_seen_price, cur_order_price) == re);
        }
        let mut clearing_price: Option<i64> = None;
        if max_seen_price == MIN_PRICE && min_seen_price == MAX_PRICE {
        } else if seen_vol == ask_book_vol {
            if prev_order_price == MAX_PRICE && MIN_PRICE < cur_order_price && cur_order_price
                < MAX_PRICE {
                clearing_price = Some(cur_order_price);
            } else if prev_order_price < MAX_PRICE && MIN_PRICE < cur_order_price {
                let p = (prev_order_price + cur_order_price) / 2;
                clearing_price = Some(p);
            } else if MIN_PRICE < prev_order_price && prev_order_price < MAX_PRICE
                && cur_order_price == MIN_PRICE {
                clearing_price = Some(prev_order_price);
            } else if prev_order_price == MIN_PRICE {
                clearing_price = Some(min_seen_price);
            }
        } else if seen_vol > ask_book_vol {
            let p = if cur_order_price > min_seen_price {
                cur_order_price
            } else {
                min_seen_price
            };
            clearing_price = Some(p);
        }
        proof {
            assert(clearing_price == fba_clearing_price(old(bids)@, old(asks)@));
        }
        match clearing_price {
            None => {
                let result = TradeResults::new(MarketType::FBA, None, 0, 0, None);
                Some(result)
            },
            Some(cp) => {
                let mut updates: Vec<PlayerUpdate> = Vec::new();
                Auction::fba_pair_loop(bids, asks, cp, &mut updates);
                proof {
                    lemma_fba_pair_props(old(bids)@, old(asks)@, cp);
                    assert(updates@ =~= fba_pair(old(bids)@, old(asks)@, cp).updates);
                }
                let vol_filled = Auction::sum_update_volumes(&updates);
                let mut result = TradeResults::new(
                    MarketType::FBA,
                    Some(cp),
                    vol_filled,
                    vol_filled,
                    None,
                );
                result.cross_results = Some(updates);
                Some(result)
            },
        }
    }

    /// The recursive heart of the batch pairing; mirrors `fba_pair`
    /// step for step.
    fn fba_pair_loop(bids: &mut Book, asks: &mut Book, cp: i64, updates: &mut Vec<PlayerUpdate>)
        requires
            all_wf(old(bids)@.orders),
            all_wf(old(asks)@.orders),
        ensures
            ({
                let out = fba_pair(old(bids)@, old(asks)@, cp);
                &&& final(bids)@ == out.bids
                &&& final(asks)@ == out.asks
                &&& final(updates)@ == old(updates)@ + out.updates
            }),
        decreases old(bids)@.orders.len() + old(asks)@.orders.len(),
    {
        let ghost out = fba_pair(old(bids)@, old(asks)@, cp);
        match bids.pop_from_end() {
            None => {
                proof {
                    assert(final(updates)@ =~= old(updates)@ + out.updates);
                }
            },
            Some(cur_bid) => {
                let mut cur_bid = cur_bid;
                match asks.pop_from_end() {
                    None => {
                        bids.push_to_end(cur_bid);
                        proof {
                            assert(bids@.orders =~= old(bids)@.orders);
                            assert(final(updates)@ =~= old(updates)@ + out.updates);
                        }
                    },
                    Some(cur_ask) => {
                        let mut cur_ask = cur_ask;
                        if cur_bid.price < cp || cur_ask.price > cp {
                            bids.push_to_end(cur_bid);
                            asks.push_to_end(cur_ask);
                            proof {
                                assert(bids@.orders =~= old(bids)@.orders);
                                assert(asks@.orders =~= old(asks)@.orders);
                                assert(final(updates)@ =~= old(updates)@ + out.updates);
                            }
                        } else if cur_bid.quantity < cur_ask.quantity {
                            let trade_amount = cur_bid.quantity;
                            cur_ask.quantity = cur_ask.quantity - trade_amount;
                            updates.push(
                                PlayerUpdate::new(
                                    cur_bid.trader_id.clone(),
                                    cur_ask.trader_id.clone(),
                                    cur_bid.order_id,
                                    cur_ask.order_id,
                                    cp,
                                    trade_amount,
                                    false,
                                ),
                            );
                            asks.push_to_end(cur_ask);
                            proof {
                                assert(all_wf(bids@.orders) && all_wf(asks@.orders)) by {
                                    assert(forall|k: int|
                                        0 <= k < old(bids)@.orders.len() - 1 ==> old(
                                        bids)@.orders.drop_last()[k] == old(bids)@.orders[k]);
                                    assert(forall|k: int|
                                        0 <= k < old(asks)@.orders.len() - 1 ==> old(
                                        asks)@.orders.drop_last()[k] == old(asks)@.orders[k]);
                                }
                            }
                            Auction::fba_pair_loop(bids, asks, cp, updates);
                            proof {
                                assert(final(updates)@ =~= old(updates)@ + out.updates);
                            }
                        } else if cur_bid.quantity > cur_ask.quantity {
                            let trade_amount = cur_ask.quantity;
                            cur_bid.quantity = cur_bid.quantity - trade_amount;
                            updates.push(
                                PlayerUpdate::new(
                                    cur_bid.trader_id.clone(),
                                    cur_ask.trader_id.clone(),
                                    cur_bid.order_id,
                                    cur_ask.order_id,
                                    cp,
                                    trade_amount,
                                    false,
                                ),
                            );
                            bids.push_to_end(cur_bid);
                            proof {
                                assert(all_wf(bids@.orders) && all_wf(asks@.orders)) by {
                                    assert(forall|k: int|
                                        0 <= k < old(bids)@.orders.len() - 1 ==> old(
                                        bids)@.orders.drop_last()[k] == old(bids)@.orders[k]);
                                    assert(forall|k: int|
                                        0 <= k < old(asks)@.orders.len() - 1 ==> old(
                                        asks)@.orders.drop_last()[k] == old(asks)@.orders[k]);
                                }
                            }
                            Auction::fba_pair_loop(bids, asks, cp, updates);
                            proof {
                                assert(final(updates)@ =~= old(updates)@ + out.updates);
                            }
                        } else {
                            let trade_amount = cur_bid.quantity;
                            updates.push(
                                PlayerUpdate::new(
                                    cur_bid.trader_id.clone(),
                                    cur_ask.trader_id.clone(),
                                    cur_bid.order_id,
                                    cur_ask.order_id,
                                    cp,
                                    trade_amount,
                                    false,
                                ),
                            );
                            proof {
                                assert(all_wf(bids@.orders) && all_wf(asks@.orders)) by {
                                    assert(forall|k: int|
                                        0 <= k < old(bids)@.orders.len() - 1 ==> old(
                                        bids)@.orders.drop_last()[k] == old(bids)@.orders[k]);
                                    assert(forall|k: int|
                                        0 <= k < old(asks)@.orders.len() - 1 ==> old(
                                        asks)@.orders.drop_last()[k] == old(asks)@.orders[k]);
                                }
                            }
                            Auction::fba_pair_loop(bids, asks, cp, updates);
                            proof {
                                assert(final(updates)@ =~= old(updates)@ + out.updates);
                            }
                        }
                    },
                }
            },
        }
    }

    /// Sums the volumes of a sequence of transfers.
    fn sum_update_volumes(v: &Vec<PlayerUpdate>) -> (r: i128)
        requires
            forall|i: int| 0 <= i < v@.len() ==> 0 <= (#[trigger] v@[i]).volume <= MAX_QTY_UNITS,
        ensures
            r == sum_volumes(v@),
    {
        let mut sum: i128 = 0;
        let mut i: usize = 0;
        while i < v.len()
            invariant
                0 <= i <= v.len(),
                forall|k: int| 0 <= k < v@.len() ==> 0 <= (#[trigger] v@[k]).volume <= MAX_QTY_UNITS,
                sum == sum_volumes(v@.take(i as int)),
                0 <= sum <= (i as int) * (MAX_QTY_UNITS as int),
            decreases v.len() - i,
        {
            proof {
                assert(v@.take(i + 1).drop_last() =~= v@.take(i as int));
                assert(v@.take(i + 1).last() == v@[i as int]);
                assert((i as int + 1) * (MAX_QTY_UNITS as int) == (i as int) * (
                MAX_QTY_UNITS as int) + MAX_QTY_UNITS) by (nonlinear_arith);
                assert((i as int + 1) * (MAX_QTY_UNITS as int) <= 0x1_0000_0000_0000_0000 * (
                MAX_QTY_UNITS as int)) by (nonlinear_arith)
                    requires
                        0 <= i as int + 1 <= 0x1_0000_0000_0000_0000,
                ;
            }
            sum = sum + (v[i].volume as i128);
            i = i + 1;
        }
        proof {
            assert(v@.take(v@.len() as int) =~= v@);
        }
        sum
    }

    /// The aggregate demand and supply at price `p`, summed over every
    /// resting flow order of each book.
    pub fn calc_aggs(p: i64, bids: &Book, asks: &Book) -> (r: (i128, i128))
        requires
            all_wf(bids@.orders),
            all_wf(asks@.orders),
            all_flow_bids(bids@.orders),
            all_flow_asks(asks@.orders),
        ensures
            r.0 == agg_demand_at(bids@.orders, p as int),
            r.1 == agg_supply_at(asks@.orders, p as int),
    {
        let mut agg_demand: i128 = 0;
        let mut i: usize = 0;
        while i < bids.orders.len()
            invariant
                0 <= i <= bids.orders.len(),
                all_wf(bids@.orders),
                all_flow_bids(bids@.orders),
                agg_demand == agg_demand_at(bids@.orders.take(i as int), p as int),
                0 <= agg_demand <= (i as int) * (MAX_QTY_UNITS as int),
            decreases bids.orders.len() - i,
        {
            proof {
                assert(bids@.orders.take(i + 1).drop_last() =~= bids@.orders.take(i as int));
                assert(bids@.orders.take(i + 1).last() == bids@.orders[i as int]);
                assert((i as int + 1) * (MAX_QTY_UNITS as int) == (i as int) * (
                MAX_QTY_UNITS as int) + MAX_QTY_UNITS) by (nonlinear_arith);
                assert((i as int + 1) * (MAX_QTY_UNITS as int) <= 0x1_0000_0000_0000_0000 * (
                MAX_QTY_UNITS as int)) by (nonlinear_arith)
                    requires
                        0 <= i as int + 1 <= 0x1_0000_0000_0000_0000,
                ;
            }
            let v = bids.orders[i].calc_flow_demand(p);
            agg_demand = agg_demand + (v as i128);
            i = i + 1;
        }
        proof {
            assert(bids@.orders.take(bids@.orders.len() as int) =~= bids@.orders);
        }
        let mut agg_supply: i128 = 0;
        let mut j: usize = 0;
        while j < asks.orders.len()
            invariant
                0 <= j <= asks.orders.len(),
                all_wf(asks@.orders),
                all_flow_asks(asks@.orders),
                agg_supply == agg_supply_at(asks@.orders.take(j as int), p as int),
                0 <= agg_supply <= (j as int) * (MAX_QTY_UNITS as int),
            decreases asks.orders.len() - j,
        {
            proof {
                assert(asks@.orders.take(j + 1).drop_last() =~= asks@.orders.take(j as int));
                assert(asks@.orders.take(j + 1).last() == asks@.orders[j as int]);
                assert((j as int + 1) * (MAX_QTY_UNITS as int) == (j as int) * (
                MAX_QTY_UNITS as int) + MAX_QTY_UNITS) by (nonlinear_arith);
                assert((j as int + 1) * (MAX_QTY_UNITS as int) <= 0x1_0000_0000_0000_0000 * (
                MAX_QTY_UNITS as int)) by (nonlinear_arith)
                    requires
                        0 <= j as int + 1 <= 0x1_0000_0000_0000_0000,
                ;
            }
            let v = asks.orders[j].calc_flow_supply(p);
            agg_supply = agg_supply + (v as i128);
            j = j + 1;
        }
        proof {
            assert(asks@.orders.take(asks@.orders.len() as int) =~= asks@.orders);
        }
        (agg_demand, agg_supply)
    }

    /// The bracket the binary search starts from: the least `p_low`
    /// and the greatest `p_high` across both books.
    pub fn get_price_bounds(bids: &Book, asks: &Book) -> (r: (i64, i64))
        ensures
            r.0 == if seq_min_plow(bids@.orders) < seq_min_plow(asks@.orders) {
                seq_min_plow(bids@.orders)
            } else {
                seq_min_plow(asks@.orders)
            },
            r.1 == if seq_max_phigh(bids@.orders) > seq_max_phigh(asks@.orders) {
                seq_max_phigh(bids@.orders)
            } else {
                seq_max_phigh(asks@.orders)
            },
    {
        let bids_min = bids.get_min_plow();
        let bids_max = bids.get_max_phigh();
        let asks_min = asks.get_min_plow();
        let asks_max = asks.get_max_phigh();
        let left = if bids_min < asks_min {
            bids_min
        } else {
            asks_min
        };
        let right = if bids_max > asks_max {
            bids_max
        } else {
            asks_max
        };
        (left, right)
    }

    /// KLF: finds the price equating the aggregate schedules by binary
    /// search, then settles every resting flow order at that price.
    /// A non-degenerate bracket always yields a reported price: when
    /// the tolerance is never met (the fixed-point schedules can step
    /// past it) the search runs to its iteration cap and reports the
    /// last midpoint.  Returns `None` only when the bracket is
    /// degenerate, that is no order bounds a proper price range.
    pub fn bs_cross(bids: &mut Book, asks: &mut Book) -> (r: Option<TradeResults>)
        requires
            all_wf(old(bids)@.orders),
            all_wf(old(asks)@.orders),
            all_flow_bids(old(bids)@.orders),
            all_flow_asks(old(asks)@.orders),
        ensures
            klf_post(old(bids)@, old(asks)@, final(bids)@, final(asks)@, opt_results_view(r)),
    {
        let bounds = Auction::get_price_bounds(&*bids, &*asks);
        let mut left = bounds.0;
        let mut right = bounds.1;
        proof {
            lemma_seq_plow_phigh_bounds(old(bids)@.orders);
            lemma_seq_plow_phigh_bounds(old(asks)@.orders);
            lemma_seq_min_plow_cap(old(bids)@.orders);
            lemma_seq_min_plow_cap(old(asks)@.orders);
        }
        if left >= right {
            return None;
        }
        let mut curr_iter: usize = 0;
        while curr_iter < MAX_ITERS
            invariant
                bids@ == old(bids)@,
                asks@ == old(asks)@,
                all_wf(old(bids)@.orders),
                all_wf(old(asks)@.orders),
                all_flow_bids(old(bids)@.orders),
                all_flow_asks(old(asks)@.orders),
                0 <= curr_iter < MAX_ITERS,
                0 <= left <= right,
                right <= MAX_PRICE_UNITS,
                bounds.0 == if seq_min_plow(old(bids)@.orders) < seq_min_plow(old(asks)@.orders) {
                    seq_min_plow(old(bids)@.orders)
                } else {
                    seq_min_plow(old(asks)@.orders)
                },
                bounds.1 == if seq_max_phigh(old(bids)@.orders) > seq_max_phigh(
                    old(asks)@.orders,
                ) {
                    seq_max_phigh(old(bids)@.orders)
                } else {
                    seq_max_phigh(old(asks)@.orders)
                },
                bounds.0 < bounds.1,
                bs_search(old(bids)@.orders, old(asks)@.orders, left, right, curr_iter as int)
                    == bs_search(old(bids)@.orders, old(asks)@.orders, bounds.0, bounds.1, 0),
            decreases MAX_ITERS - curr_iter,
        {
            let ghost it0 = curr_iter as int;
            let ghost left0 = left;
            let ghost right0 = right;
            curr_iter = curr_iter + 1;
            let index = (left + right) / 2;
            let aggs = Auction::calc_aggs(index, &*bids, &*asks);
            let dem = aggs.0;
            let sup = aggs.1;
            let nb = bids.orders.len();
            let na = asks.orders.len();
            proof {
                lemma_agg_bounds(bids@.orders, index as int);
                lemma_agg_bounds(asks@.orders, index as int);
                assert((bids@.orders.len() as int) * (MAX_QTY_UNITS as int)
                    <= 0x1_0000_0000_0000_0000 * (MAX_QTY_UNITS as int)) by (nonlinear_arith)
                    requires
                        0 <= bids@.orders.len() as int <= 0x1_0000_0000_0000_0000,
                ;
                assert((asks@.orders.len() as int) * (MAX_QTY_UNITS as int)
                    <= 0x1_0000_0000_0000_0000 * (MAX_QTY_UNITS as int)) by (nonlinear_arith)
                    requires
                        0 <= asks@.orders.len() as int <= 0x1_0000_0000_0000_0000,
                ;
                assert(left0 <= index && index <= right0);
            }
            if dem - sup > EPSILON as i128 {
                if curr_iter == MAX_ITERS {
                    proof {
                        assert(index as int == ((left0 as int) + (right0 as int)) / 2);
                        assert(bs_search(old(bids)@.orders, old(asks)@.orders, left0, right0, it0)
                            == Some(
                            KlfCross {
                                price: index,
                                dem: dem as int,
                                sup: sup as int,
                                capped: true,
                            },
                        ));
                    }
                    let player_updates = Auction::flow_player_updates(index, bids, asks);
                    let mut result = TradeResults::new(
                        MarketType::KLF,
                        Some(index),
                        dem,
                        sup,
                        None,
                    );
                    result.cross_results = Some(player_updates);
                    return Some(result);
                }
                left = index;
            } else if sup - dem > EPSILON as i128 {
                if curr_iter == MAX_ITERS {
                    proof {
                        assert(index as int == ((left0 as int) + (right0 as int)) / 2);
                        assert(bs_search(old(bids)@.orders, old(asks)@.orders, left0, right0, it0)
                            == Some(
                            KlfCross {
                                price: index,
                                dem: dem as int,
                                sup: sup as int,
                                capped: true,
                            },
                        ));
                    }
                    let player_updates = Auction::flow_player_updates(index, bids, asks);
                    let mut result = TradeResults::new(
                        MarketType::KLF,
                        Some(index),
                        dem,
                        sup,
                        None,
                    );
                    result.cross_results = Some(player_updates);
                    return Some(result);
                }
                right = index;
            } else {
                proof {
                    assert(index as int == ((left0 as int) + (right0 as int)) / 2);
                    assert(bs_search(old(bids)@.orders, old(asks)@.orders, left0, right0, it0)
                        == Some(
                        KlfCross {
                            price: index,
                            dem: dem as int,
                            sup: sup as int,
                            capped: false,
                        },
                    ));
                }
                let player_updates = Auction::flow_player_updates(index, bids, asks);
                let mut result = TradeResults::new(MarketType::KLF, Some(index), dem, sup, None);
                result.cross_results = Some(player_updates);
                return Some(result);
            }
        }
        proof {
            assert(false);
        }
        None
    }

    /// Settles every resting flow order at the clearing price: emits
    /// one exchange-counterparty transfer per order with positive
    /// cleared volume, reduces the resting quantities, and cancels the
    /// orders the fill exhausts.
    pub fn flow_player_updates(clearing_price: i64, bids: &mut Book, asks: &mut Book) -> (r: Vec<
        PlayerUpdate,
    >)
        requires
            all_wf(old(bids)@.orders),
            all_wf(old(asks)@.orders),
            all_flow_bids(old(bids)@.orders),
            all_flow_asks(old(asks)@.orders),
        ensures
            pus_view(r@) == flow_bid_updates(old(bids)@.orders, clearing_price) + flow_ask_updates(
                old(asks)@.orders,
                clearing_price,
            ),
            final(bids)@ == flow_settle_bids(old(bids)@, clearing_price),
            final(asks)@ == flow_settle_asks(old(asks)@, clearing_price),
    {
        let ghost borig = old(bids)@.orders;
        let ghost aorig = old(asks)@.orders;
        let mut updates: Vec<PlayerUpdate> = Vec::new();
        let mut cancel_bids: Vec<u64> = Vec::new();
        let mut cancel_asks: Vec<u64> = Vec::new();
        let mut i: usize = 0;
        proof {
            assert(pus_view(updates@) =~= flow_bid_updates(borig.take(0), clearing_price));
            assert(cancel_bids@ =~= flow_cancel_ids_bids(borig.take(0), clearing_price));
        }
        while i < bids.orders.len()
            invariant
                0 <= i <= bids.orders.len(),
                bids@.orders.len() == borig.len(),
                bids@.book_type == old(bids)@.book_type,
                bids@.min_price == old(bids)@.min_price,
                bids@.max_price == old(bids)@.max_price,
                all_wf(borig),
                all_flow_bids(borig),
                forall|k: int| i <= k < borig.len() ==> bids@.orders[k] == borig[k],
                forall|k: int|
                    0 <= k < i ==> bids@.orders[k] == flow_fill_bids(borig, clearing_price)[k],
                pus_view(updates@) == flow_bid_updates(borig.take(i as int), clearing_price),
                cancel_bids@ == flow_cancel_ids_bids(borig.take(i as int), clearing_price),
            decreases bids.orders.len() - i,
        {
            proof {
                assert(bids@.orders[i as int] == borig[i as int]);
                assert(wf_order(borig[i as int]));
                assert(borig.take(i + 1).drop_last() =~= borig.take(i as int));
                assert(borig.take(i + 1).last() == borig[i as int]);
            }
            let ghost updates_before = updates@;
            let v = bids.orders[i].calc_flow_demand(clearing_price);
            if v > 0 {
                updates.push(
                    PlayerUpdate::new(
                        bids.orders[i].trader_id.clone(),
                        Auction::na_string(),
                        bids.orders[i].order_id,
                        0,
                        clearing_price,
                        v,
                        false,
                    ),
                );
                proof {
                    crate::exchange::lemma_pus_view_push(updates_before, updates@.last());
                    assert(pu_view(updates@.last()) == (PlayerUpdateV {
                        payer_id: borig[i as int].trader_id@,
                        vol_filler_id: na_seq(),
                        payer_order_id: borig[i as int].order_id,
                        vol_filler_order_id: 0,
                        price: clearing_price,
                        volume: v,
                        cancel: false,
                    }));
                }
                let mut o = bids.orders[i].clone();
                o.quantity = o.quantity - v;
                let exhausted = o.quantity <= 0;
                let oid = o.order_id;
                bids.orders.set(i, o);
                if exhausted {
                    cancel_bids.push(oid);
                }
            }
            proof {
                assert(pus_view(updates@) =~= flow_bid_updates(
                    borig.take(i + 1),
                    clearing_price,
                ));
                assert(cancel_bids@ =~= flow_cancel_ids_bids(borig.take(i + 1), clearing_price));
            }
            i = i + 1;
        }
        proof {
            assert(borig.take(borig.len() as int) =~= borig);
            assert(bids@.orders =~= flow_fill_bids(borig, clearing_price));
        }
        let ghost bid_updates = updates@;
        let mut j: usize = 0;
        proof {
            assert(pus_view(updates@) =~= flow_bid_updates(borig, clearing_price)
                + flow_ask_updates(aorig.take(0), clearing_price));
            assert(cancel_asks@ =~= flow_cancel_ids_asks(aorig.take(0), clearing_price));
        }
        while j < asks.orders.len()
            invariant
                0 <= j <= asks.orders.len(),
                asks@.orders.len() == aorig.len(),
                asks@.book_type == old(asks)@.book_type,
                asks@.min_price == old(asks)@.min_price,
                asks@.max_price == old(asks)@.max_price,
                all_wf(aorig),
                all_flow_asks(aorig),
                forall|k: int| j <= k < aorig.len() ==> asks@.orders[k] == aorig[k],
                forall|k: int|
                    0 <= k < j ==> asks@.orders[k] == flow_fill_asks(aorig, clearing_price)[k],
                pus_view(updates@) == flow_bid_updates(borig, clearing_price) + flow_ask_updates(
                    aorig.take(j as int),
                    clearing_price,
                ),
                cancel_asks@ == flow_cancel_ids_asks(aorig.take(j as int), clearing_price),
            decreases asks.orders.len() - j,
        {
            proof {
                assert(asks@.orders[j as int] == aorig[j as int]);
                assert(wf_order(aorig[j as int]));
                assert(aorig.take(j + 1).drop_last() =~= aorig.take(j as int));
                assert(aorig.take(j + 1).last() == aorig[j as int]);
            }
            let ghost updates_before = updates@;
            let v = asks.orders[j].calc_flow_supply(clearing_price);
            if v > 0 {
                updates.push(
                    PlayerUpdate::new(
                        Auction::na_string(),
                        asks.orders[j].trader_id.clone(),
                        0,
                        asks.orders[j].order_id,
                        clearing_price,
                        v,
                        false,
                    ),
                );
                proof {
                    crate::exchange::lemma_pus_view_push(updates_before, updates@.last());
                    assert(pu_view(updates@.last()) == (PlayerUpdateV {
                        payer_id: na_seq(),
                        vol_filler_id: aorig[j as int].trader_id@,
                        payer_order_id: 0,
                        vol_filler_order_id: aorig[j as int].order_id,
                        price: clearing_price,
                        volume: v,
                        cancel: false,
                    }));
                }
                let mut o = asks.orders[j].clone();
                o.quantity = o.quantity - v;
                let exhausted = o.quantity <= 0;
                let oid = o.order_id;
                asks.orders.set(j, o);
                if exhausted {
                    cancel_asks.push(oid);
                }
            }
            proof {
                assert(pus_view(updates@) =~= flow_bid_updates(borig, clearing_price)
                    + flow_ask_updates(aorig.take(j + 1), clearing_price));
                assert(cancel_asks@ =~= flow_cancel_ids_asks(aorig.take(j + 1), clearing_price));
            }
            j = j + 1;
        }
        proof {
            assert(aorig.take(aorig.len() as int) =~= aorig);
            assert(asks@.orders =~= flow_fill_asks(aorig, clearing_price));
        }
        let ghost bfill = BookV {
            orders: flow_fill_bids(borig, clearing_price),
            ..old(bids)@
        };
        let ghost afill = BookV {
            orders: flow_fill_asks(aorig, clearing_price),
            ..old(asks)@
        };
        proof {
            assert(bids@ == bfill);
            assert(asks@ == afill);
        }
        let mut ci: usize = 0;
        while ci < cancel_bids.len()
            invariant
                0 <= ci <= cancel_bids.len(),
                cancel_bids@ == flow_cancel_ids_bids(borig, clearing_price),
                bids@ == cancel_ids(bfill, cancel_bids@.take(ci as int)),
            decreases cancel_bids.len() - ci,
        {
            proof {
                assert(cancel_bids@.take(ci + 1).drop_last() =~= cancel_bids@.take(ci as int));
                assert(cancel_bids@.take(ci + 1).last() == cancel_bids@[ci as int]);
            }
            let _ = bids.cancel_order_by_id(cancel_bids[ci]);
            ci = ci + 1;
        }
        proof {
            assert(cancel_bids@.take(cancel_bids@.len() as int) =~= cancel_bids@);
        }
        let mut cj: usize = 0;
        while cj < cancel_asks.len()
            invariant
                0 <= cj <= cancel_asks.len(),
                cancel_asks@ == flow_cancel_ids_asks(aorig, clearing_price),
                asks@ == cancel_ids(afill, cancel_asks@.take(cj as int)),
            decreases cancel_asks.len() - cj,
        {
            proof {
                assert(cancel_asks@.take(cj + 1).drop_last() =~= cancel_asks@.take(cj as int));
                assert(cancel_asks@.take(cj + 1).last() == cancel_asks@[cj as int]);
            }
            let _ = asks.cancel_order_by_id(cancel_asks[cj]);
            cj = cj + 1;
        }
        proof {
            assert(cancel_asks@.take(cancel_asks@.len() as int) =~= cancel_asks@);
        }
        updates
    }

    /// A direct estimate of the flow clearing price from the order
    /// imbalance: interpolate between the best bid bound and the best
    /// ask bound by the share of excess demand.  A degenerate
    /// imbalance (zero denominator) is ruled out by precondition, as
    /// the division would not be defined.
    pub fn klf_clearing(bids: &Book, asks: &Book) -> (r: Option<i64>)
        requires
            all_wf(bids@.orders),
            all_wf(asks@.orders),
            all_flow_bids(bids@.orders),
            all_flow_asks(asks@.orders),
            ({
                let pb = seq_max_phigh(bids@.orders);
                let pa = seq_min_plow(asks@.orders);
                let num = agg_demand_at(bids@.orders, pb as int) - agg_supply_at(
                    asks@.orders,
                    pb as int,
                );
                let den = num + agg_supply_at(asks@.orders, pa as int) - agg_demand_at(
                    bids@.orders,
                    pa as int,
                );
                &&& pa != PRICE_INF
                &&& den > 0
                &&& 0 <= num <= den
                &&& num <= i64::MAX
            }),
        ensures
            ({
                let pb = seq_max_phigh(bids@.orders);
                let pa = seq_min_plow(asks@.orders);
                let num = agg_demand_at(bids@.orders, pb as int) - agg_supply_at(
                    asks@.orders,
                    pb as int,
                );
                let den = num + agg_supply_at(asks@.orders, pa as int) - agg_demand_at(
                    bids@.orders,
                    pa as int,
                );
                let cp = if pa >= pb {
                    pb + (num * (pa - pb)) / den
                } else {
                    pb - (num * (pb - pa)) / den
                };
                r == Some(cp as i64)
            }),
    {
        let best_bid_p = bids.get_max_phigh();
        let best_ask_p = asks.get_min_plow();
        proof {
            lemma_seq_plow_phigh_bounds(bids@.orders);
            lemma_seq_plow_phigh_bounds(asks@.orders);
            assert(seq_min_plow(asks@.orders) != PRICE_INF);
            lemma_seq_min_plow_cap(asks@.orders);
        }
        let at_bb = Auction::calc_aggs(best_bid_p, &*bids, &*asks);
        let at_ba = Auction::calc_aggs(best_ask_p, &*bids, &*asks);
        let nb = bids.orders.len();
        let na = asks.orders.len();
        proof {
            lemma_agg_bounds(bids@.orders, best_bid_p as int);
            lemma_agg_bounds(asks@.orders, best_bid_p as int);
            lemma_agg_bounds(bids@.orders, best_ask_p as int);
            lemma_agg_bounds(asks@.orders, best_ask_p as int);
            assert((nb as int) * (MAX_QTY_UNITS as int) <= 0x1_0000_0000_0000_0000 * (
            MAX_QTY_UNITS as int)) by (nonlinear_arith)
                requires
                    0 <= nb as int <= 0x1_0000_0000_0000_0000,
            ;
            assert((na as int) * (MAX_QTY_UNITS as int) <= 0x1_0000_0000_0000_0000 * (
            MAX_QTY_UNITS as int)) by (nonlinear_arith)
                requires
                    0 <= na as int <= 0x1_0000_0000_0000_0000,
            ;
        }
        let num: i128 = at_bb.0 - at_bb.1;
        let den: i128 = num + at_ba.1 - at_ba.0;
        if best_ask_p >= best_bid_p {
            let diff: i128 = (best_ask_p - best_bid_p) as i128;
            proof {
                lemma_ratio_bounded(num as int, den as int, diff as int);
            }
            let shift: i128 = (num * diff) / den;
            Some(best_bid_p + (shift as i64))
        } else {
            let diff: i128 = (best_bid_p - best_ask_p) as i128;
            proof {
                lemma_ratio_bounded(num as int, den as int, diff as int);
            }
            let shift: i128 = (num * diff) / den;
            Some(best_bid_p - (shift as i64))
        }
    }

    /// The string that marks the exchange as a transfer's counterparty.
    fn na_string() -> (s: String)
        ensures
            s@ == na_seq(),
    {
        "N/A".to_owned()
    }
}

/// A fraction of a non-negative bounded quantity stays between zero
/// and that quantity.
proof fn lemma_ratio_bounded(num: int, den: int, diff: int)
    requires
        den > 0,
        0 <= num <= den,
        num <= i64::MAX,
        0 <= diff <= MAX_PRICE_UNITS,
    ensures
        0 <= (num * diff) / den <= diff,
        num * diff <= 0x7fff_ffff_ffff_ffff * (MAX_PRICE_UNITS as int),
{
    assert(0 <= num * diff <= 0x7fff_ffff_ffff_ffff * (MAX_PRICE_UNITS as int))
        by (nonlinear_arith)
        requires
            0 <= num <= 0x7fff_ffff_ffff_ffff && 0 <= diff <= MAX_PRICE_UNITS,
    ;
    assert((num * diff) / den >= 0) by (nonlinear_arith)
        requires
            0 <= num * diff && den > 0,
    ;
    assert((num * diff) / den <= diff) by (nonlinear_arith)
        requires
            den > 0 && 0 <= num <= den && 0 <= diff,
    ;
}

/// Unless it is the infinite sentinel, the least `p_low` of a
/// well-formed sequence stays within the price cap.
proof fn lemma_seq_min_plow_cap(s: Seq<Order>)
    requires
        all_wf(s),
    ensures
        seq_min_plow(s) == PRICE_INF || 0 <= seq_min_plow(s) <= MAX_PRICE_UNITS,
    decreases s.len(),
{
    if s.len() > 0 {
        assert(all_wf(s.drop_last())) by {
            assert(forall|i: int| 0 <= i < s.len() - 1 ==> s.drop_last()[i] == s[i]);
        }
        lemma_seq_min_plow_cap(s.drop_last());
        assert(wf_order(s[s.len() - 1]));
        assert(s.last() == s[s.len() - 1]);
    }
}

/// In a well-formed sequence the least `p_low` is non-negative (or the
/// infinite sentinel when empty) and the greatest `p_high` is between
/// zero and the price cap.
pub proof fn lemma_seq_plow_phigh_bounds(s: Seq<Order>)
    requires
        all_wf(s),
    ensures
        seq_min_plow(s) >= 0,
        0 <= seq_max_phigh(s) <= MAX_PRICE_UNITS,
    decreases s.len(),
{
    if s.len() > 0 {
        assert(all_wf(s.drop_last())) by {
            assert(forall|i: int| 0 <= i < s.len() - 1 ==> s.drop_last()[i] == s[i]);
        }
        lemma_seq_plow_phigh_bounds(s.drop_last());
        assert(wf_order(s[s.len() - 1]));
        assert(s.last() == s[s.len() - 1]);
    }
}

} // verus!
