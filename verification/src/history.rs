//! The simulation history: an append-only record of every order sent
//! to the mempool, shallow snapshots of each book after every block,
//! and every trade result, plus the statistics the maker strategies
//! read from them.  Nothing is ever removed or modified after
//! insertion; every mutating method says so of the entries it leaves
//! behind.

use crate::book::{all_wf, PRICE_INF};
use crate::exchange::{MarketType, TradeResults};
use crate::order::{wf_order, Order, TradeType, MAX_PRICE_UNITS, MAX_QTY_UNITS};
use crate::utility::get_time;
use vstd::prelude::*;

verus! {

/// Why a player's state changed; carried on the log records the
/// clearing house emits.
#[derive(Clone, Copy, Debug, PartialEq, Eq, Structural)]
pub enum UpdateReason {
    Initial,
    Transact,
    Gas,
    Tax,
    Final,
}

/// The essential information of one resting order in a snapshot: only
/// the quantity ever changes on the live order.
#[derive(Clone, Copy, Debug)]
pub struct Entry {
    pub order_id: u64,
    pub quantity: i64,
    pub timestamp: u64,
}

impl Entry {
    /// A snapshot entry stamped with the current time.
    pub fn new(order_id: u64, quantity: i64) -> (r: Entry)
        ensures
            r.order_id == order_id,
            r.quantity == quantity,
    {
        Entry { order_id, quantity, timestamp: get_time() }
    }
}

/// A shallow copy of one book after a block, with the per-side average
/// prices and the weighted price derived at snapshot time.
#[derive(Debug)]
pub struct ShallowBook {
    pub orders: Vec<Entry>,
    pub block_num: u64,
    pub avg_bids_price: Option<i64>,
    pub avg_asks_price: Option<i64>,
    pub current_wtd_price: Option<i64>,
    pub num_bids: usize,
    pub num_asks: usize,
    pub best_order: Option<Order>,
    pub book_type: TradeType,
}

impl ShallowBook {
    /// An empty snapshot carrying the derived scalars.
    pub fn new(
        bid_or_ask: TradeType,
        num: u64,
        abp: Option<i64>,
        aap: Option<i64>,
        cwp: Option<i64>,
        order: Option<Order>,
        nb: usize,
        na: usize,
    ) -> (r: ShallowBook)
        ensures
            r.orders@.len() == 0,
            r.block_num == num,
            r.avg_bids_price == abp,
            r.avg_asks_price == aap,
            r.current_wtd_price == cwp,
            r.num_bids == nb,
            r.num_asks == na,
            r.best_order == order,
            r.book_type == bid_or_ask,
    {
        ShallowBook {
            orders: Vec::new(),
            block_num: num,
            avg_bids_price: abp,
            avg_asks_price: aap,
            current_wtd_price: cwp,
            num_bids: nb,
            num_asks: na,
            best_order: order,
            book_type: bid_or_ask,
        }
    }

    /// Appends one entry to the snapshot; every derived scalar is
    /// untouched.
    pub fn new_entry(&mut self, e: Entry)
        ensures
            final(self).orders@ == old(self).orders@.push(e),
            final(self).block_num == old(self).block_num,
            final(self).avg_bids_price == old(self).avg_bids_price,
            final(self).avg_asks_price == old(self).avg_asks_price,
            final(self).current_wtd_price == old(self).current_wtd_price,
            final(self).num_bids == old(self).num_bids,
            final(self).num_asks == old(self).num_asks,
            final(self).best_order == old(self).best_order,
            final(self).book_type == old(self).book_type,
    {
        self.orders.push(e);
    }
}

/// Statistical data inferred from every order ever sent to the
/// mempool; the makers use it to infer a fundamental value.
#[derive(Clone, Copy, Debug)]
pub struct LikelihoodStats {
    pub mean_bids: Option<i64>,
    pub mean_asks: Option<i64>,
    pub num_bids: u64,
    pub num_asks: u64,
    pub weighted_price: Option<i64>,
}

/// The current market data a maker measures its quotes against.
#[derive(Debug)]
pub struct PriorData {
    pub clearing_price: Option<i64>,
    pub best_bid: Option<Order>,
    pub best_ask: Option<Order>,
    pub current_bids: Vec<Order>,
    pub current_asks: Vec<Order>,
    pub current_wtd_price: Option<i64>,
    pub mean_pool_gas: i64,
    pub asks_volume: i128,
    pub bids_volume: i128,
    pub current_pool: Vec<Order>,
}

/// The price a statistic reads from an order: the limit price in the
/// limit markets, and the range end nearest the market in the flow
/// market (`p_high` for bids, `p_low` for asks).
pub open spec fn stat_price(o: Order, mt: MarketType) -> int {
    match mt {
        MarketType::CDA | MarketType::FBA => o.price as int,
        MarketType::KLF => match o.trade_type {
            TradeType::Bid => o.p_high as int,
            TradeType::Ask => o.p_low as int,
        },
    }
}

/// The number of bids in the sequence.
pub open spec fn bid_count(s: Seq<Order>) -> int
    decreases s.len(),
{
    if s.len() == 0 {
        0
    } else {
        bid_count(s.drop_last()) + if s.last().trade_type == TradeType::Bid {
            1int
        } else {
            0int
        }
    }
}

/// The number of asks in the sequence.
pub open spec fn ask_count(s: Seq<Order>) -> int
    decreases s.len(),
{
    if s.len() == 0 {
        0
    } else {
        ask_count(s.drop_last()) + if s.last().trade_type == TradeType::Ask {
            1int
        } else {
            0int
        }
    }
}

/// The sum of the statistic prices of the bids in the sequence.
pub open spec fn bid_price_sum(s: Seq<Order>, mt: MarketType) -> int
    decreases s.len(),
{
    if s.len() == 0 {
        0
    } else {
        bid_price_sum(s.drop_last(), mt) + if s.last().trade_type == TradeType::Bid {
            stat_price(s.last(), mt)
        } else {
            0
        }
    }
}

/// The sum of the statistic prices of the asks in the sequence.
pub open spec fn ask_price_sum(s: Seq<Order>, mt: MarketType) -> int
    decreases s.len(),
{
    if s.len() == 0 {
        0
    } else {
        ask_price_sum(s.drop_last(), mt) + if s.last().trade_type == TradeType::Ask {
            stat_price(s.last(), mt)
        } else {
            0
        }
    }
}

/// The average of a non-negative sum over a positive count, rounded
/// down; `None` when the count is zero.
pub open spec fn avg_or_none(sum: int, n: int) -> Option<i64> {
    if n > 0 {
        Some(((sum / n) as i64))
    } else {
        None
    }
}

/// The weighted price over both sides: each side's mean weighted by
/// its count, skipping an absent mean; `None` when both are absent.
pub open spec fn wtd_price_spec(mb: Option<i64>, ma: Option<i64>, nb: int, na: int) -> Option<
    i64,
> {
    if nb == 0 && na == 0 {
        None
    } else if mb is None && ma is None {
        None
    } else if mb is None {
        Some((((ma.unwrap() as int) * na) / na) as i64)
    } else if ma is None {
        Some((((mb.unwrap() as int) * nb) / nb) as i64)
    } else {
        Some(((((mb.unwrap() as int) * nb) + ((ma.unwrap() as int) * na)) / (nb + na)) as i64)
    }
}

/// The total gas in the sequence.
pub open spec fn gas_sum(s: Seq<Order>) -> int
    decreases s.len(),
{
    if s.len() == 0 {
        0
    } else {
        gas_sum(s.drop_last()) + s.last().gas
    }
}

/// The mean gas of the sequence, rounded down; zero when empty.
pub open spec fn mean_gas_spec(s: Seq<Order>) -> int {
    if s.len() == 0 {
        0
    } else {
        gas_sum(s) / s.len() as int
    }
}

/// The index of the pool record carrying `id`, or -1 if absent.
pub open spec fn find_pool_from(s: Seq<(Order, u64)>, id: u64, i: int) -> int
    decreases s.len() - i,
{
    if i < 0 || i >= s.len() {
        -1
    } else if s[i].0.order_id == id {
        i
    } else {
        find_pool_from(s, id, i + 1)
    }
}

/// The index of the pool record carrying `id`, or -1 if absent.
pub open spec fn find_pool(s: Seq<(Order, u64)>, id: u64) -> int {
    find_pool_from(s, id, 0)
}

/// `find_pool_from` returns -1 or the first matching index.
pub proof fn lemma_find_pool_range(s: Seq<(Order, u64)>, id: u64, i: int)
    requires
        0 <= i,
    ensures
        find_pool_from(s, id, i) == -1 ==> forall|k: int|
            i <= k < s.len() ==> s[k].0.order_id != id,
        find_pool_from(s, id, i) != -1 ==> i <= find_pool_from(s, id, i) < s.len()
            && s[find_pool_from(s, id, i)].0.order_id == id && forall|k: int|
            i <= k < find_pool_from(s, id, i) ==> s[k].0.order_id != id,
    decreases s.len() - i,
{
    if i < s.len() && s[i].0.order_id != id {
        lemma_find_pool_range(s, id, i + 1);
    }
}

/// The total quantity of a snapshot's entries.
pub open spec fn entries_vol(s: Seq<Entry>) -> int
    decreases s.len(),
{
    if s.len() == 0 {
        0
    } else {
        entries_vol(s.drop_last()) + s.last().quantity
    }
}

/// The original mempool orders of a snapshot's entries, in entry
/// order, skipping entries whose order is no longer found.
pub open spec fn entries_lookup(pool: Seq<(Order, u64)>, s: Seq<Entry>) -> Seq<Order>
    decreases s.len(),
{
    if s.len() == 0 {
        Seq::empty()
    } else {
        entries_lookup(pool, s.drop_last()) + if find_pool(pool, s.last().order_id) >= 0 {
            seq![pool[find_pool(pool, s.last().order_id)].0]
        } else {
            Seq::empty()
        }
    }
}

/// Every snapshot entry carries a bounded quantity; holds of
/// snapshots taken from well-formed books.
pub open spec fn entries_wf(s: Seq<Entry>) -> bool {
    forall|i: int| 0 <= i < s.len() ==> 0 <= (#[trigger] s[i]).quantity <= MAX_QTY_UNITS
}

/// The state of the simulation: every order sent to the mempool keyed
/// by order id, the book snapshots in block order, and every trade
/// result, each beside its timestamp.
pub struct History {
    pub mempool_data: Vec<(Order, u64)>,
    pub order_books: Vec<ShallowBook>,
    pub clearings: Vec<(TradeResults, u64)>,
    pub market_type: MarketType,
}

impl History {
    /// An empty history for the given market design.
    pub fn new(m: MarketType) -> (r: History)
        ensures
            r.mempool_data@.len() == 0,
            r.order_books@.len() == 0,
            r.clearings@.len() == 0,
            r.market_type == m,
    {
        History {
            mempool_data: Vec::new(),
            order_books: Vec::new(),
            clearings: Vec::new(),
            market_type: m,
        }
    }

    /// Records an order sent to the mempool, keyed by its order id: a
    /// fresh id is appended, a reused id overwrites its record.  The
    /// record count never decreases and other records are untouched.
    pub fn mempool_order(&mut self, order: Order)
        ensures
            final(self).order_books@ == old(self).order_books@,
            final(self).clearings@ == old(self).clearings@,
            final(self).market_type == old(self).market_type,
            final(self).mempool_data@.len() >= old(self).mempool_data@.len(),
            find_pool(old(self).mempool_data@, order.order_id) == -1 ==> {
                &&& final(self).mempool_data@.len() == old(self).mempool_data@.len() + 1
                &&& forall|k: int|
                    0 <= k < old(self).mempool_data@.len()
                        ==> final(self).mempool_data@[k] == old(self).mempool_data@[k]
                &&& final(self).mempool_data@.last().0 == order
            },
            find_pool(old(self).mempool_data@, order.order_id) >= 0 ==> {
                let ix = find_pool(old(self).mempool_data@, order.order_id);
                &&& final(self).mempool_data@.len() == old(self).mempool_data@.len()
                &&& forall|k: int|
                    0 <= k < old(self).mempool_data@.len() && k != ix
                        ==> final(self).mempool_data@[k] == old(self).mempool_data@[k]
                &&& final(self).mempool_data@[ix].0 == order
            },
    {
        proof {
            lemma_find_pool_range(self.mempool_data@, order.order_id, 0);
        }
        let t = get_time();
        let mut i: usize = 0;
        while i < self.mempool_data.len()
            invariant
                0 <= i <= self.mempool_data.len(),
                self == old(self),
                find_pool(self.mempool_data@, order.order_id) == find_pool_from(
                    self.mempool_data@,
                    order.order_id,
                    i as int,
                ),
            decreases self.mempool_data.len() - i,
        {
            if self.mempool_data[i].0.order_id == order.order_id {
                self.mempool_data.set(i, (order, t));
                return ;
            }
            i = i + 1;
        }
        self.mempool_data.push((order, t));
    }

    /// Records a trade result.  Earlier results are untouched.
    pub fn save_results(&mut self, results: TradeResults)
        ensures
            final(self).mempool_data@ == old(self).mempool_data@,
            final(self).order_books@ == old(self).order_books@,
            final(self).market_type == old(self).market_type,
            final(self).clearings@.len() == old(self).clearings@.len() + 1,
            forall|k: int|
                0 <= k < old(self).clearings@.len() ==> final(self).clearings@[k] == old(
                    self,
                ).clearings@[k],
            final(self).clearings@.last().0 == results,
    {
        let t = get_time();
        self.clearings.push((results, t));
    }

    /// A copy of the recorded order and send time for the id, if any.
    pub fn find_orig_order(&self, order_id: u64) -> (r: Option<(Order, u64)>)
        ensures
            find_pool(self.mempool_data@, order_id) == -1 <==> r is None,
            find_pool(self.mempool_data@, order_id) >= 0 ==> r == Some(
                self.mempool_data@[find_pool(self.mempool_data@, order_id)],
            ),
    {
        proof {
            lemma_find_pool_range(self.mempool_data@, order_id, 0);
        }
        let mut i: usize = 0;
        while i < self.mempool_data.len()
            invariant
                0 <= i <= self.mempool_data.len(),
                find_pool(self.mempool_data@, order_id) == find_pool_from(
                    self.mempool_data@,
                    order_id,
                    i as int,
                ),
            decreases self.mempool_data.len() - i,
        {
            if self.mempool_data[i].0.order_id == order_id {
                let o = self.mempool_data[i].0.clone();
                let t = self.mempool_data[i].1;
                return Some((o, t));
            }
            i = i + 1;
        }
        None
    }

    /// The per-side average statistic prices of a book's orders, the
    /// side counts, and the derived weighted price.
    pub fn average_order_prices(orders: &Vec<Order>, market_type: MarketType) -> (r: (
        Option<i64>,
        Option<i64>,
        usize,
        usize,
        Option<i64>,
    ))
        requires
            all_wf(orders@),
        ensures
            r.0 == avg_or_none(bid_price_sum(orders@, market_type), bid_count(orders@)),
            r.1 == avg_or_none(ask_price_sum(orders@, market_type), ask_count(orders@)),
            r.2 == bid_count(orders@),
            r.3 == ask_count(orders@),
            r.4 == wtd_price_spec(
                avg_or_none(bid_price_sum(orders@, market_type), bid_count(orders@)),
                avg_or_none(ask_price_sum(orders@, market_type), ask_count(orders@)),
                bid_count(orders@),
                ask_count(orders@),
            ),
    {
        let mut bids_sum: i128 = 0;
        let mut asks_sum: i128 = 0;
        let mut num_bids: usize = 0;
        let mut num_asks: usize = 0;
        let mut i: usize = 0;
        while i < orders.len()
            invariant
                0 <= i <= orders.len(),
                all_wf(orders@),
                num_bids == bid_count(orders@.take(i as int)),
                num_asks == ask_count(orders@.take(i as int)),
                bids_sum == bid_price_sum(orders@.take(i as int), market_type),
                asks_sum == ask_price_sum(orders@.take(i as int), market_type),
                0 <= num_bids <= i,
                0 <= num_asks <= i,
                0 <= bids_sum <= (num_bids as int) * (MAX_PRICE_UNITS as int),
                0 <= asks_sum <= (num_asks as int) * (MAX_PRICE_UNITS as int),
            decreases orders.len() - i,
        {
            proof {
                assert(orders@.take(i + 1).drop_last() =~= orders@.take(i as int));
                assert(orders@.take(i + 1).last() == orders@[i as int]);
                assert(wf_order(orders@[i as int]));
                assert((num_bids as int + 1) * (MAX_PRICE_UNITS as int) == (num_bids as int) * (
                MAX_PRICE_UNITS as int) + MAX_PRICE_UNITS) by (nonlinear_arith);
                assert((num_asks as int + 1) * (MAX_PRICE_UNITS as int) == (num_asks as int) * (
                MAX_PRICE_UNITS as int) + MAX_PRICE_UNITS) by (nonlinear_arith);
            }
            let o = &orders[i];
            let p: i64 = match market_type {
                MarketType::CDA | MarketType::FBA => o.price,
                MarketType::KLF => match o.trade_type {
                    TradeType::Bid => o.p_high,
                    TradeType::Ask => o.p_low,
                },
            };
            match o.trade_type {
                TradeType::Bid => {
                    num_bids = num_bids + 1;
                    bids_sum = bids_sum + (p as i128);
                },
                TradeType::Ask => {
                    num_asks = num_asks + 1;
                    asks_sum = asks_sum + (p as i128);
                },
            }
            i = i + 1;
        }
        proof {
            assert(orders@.take(orders@.len() as int) =~= orders@);
        }
        let bids_avg: Option<i64> = if num_bids > 0 {
            Some((bids_sum / (num_bids as i128)) as i64)
        } else {
            None
        };
        let asks_avg: Option<i64> = if num_asks > 0 {
            Some((asks_sum / (num_asks as i128)) as i64)
        } else {
            None
        };
        proof {
            lemma_avg_in_range(bids_sum as int, num_bids as int);
            lemma_avg_in_range(asks_sum as int, num_asks as int);
        }
        let wtd_avg = History::calc_cur_wtd_price(bids_avg, asks_avg, num_bids, num_asks);
        (bids_avg, asks_avg, num_bids, num_asks, wtd_avg)
    }

    /// The average statistic prices over every order ever sent to the
    /// mempool, with the side counts.
    pub fn average_seen_prices(&self) -> (r: (Option<i64>, Option<i64>, u64, u64))
        requires
            all_wf(pool_orders(self.mempool_data@)),
            self.mempool_data@.len() < 0xffff_ffff_ffff_ffff,
        ensures
            ({
                let s = pool_orders(self.mempool_data@);
                &&& r.0 == avg_or_none(bid_price_sum(s, self.market_type), bid_count(s))
                &&& r.1 == avg_or_none(ask_price_sum(s, self.market_type), ask_count(s))
                &&& r.2 == bid_count(s)
                &&& r.3 == ask_count(s)
            }),
    {
        let ghost s = pool_orders(self.mempool_data@);
        let mut bids_sum: i128 = 0;
        let mut asks_sum: i128 = 0;
        let mut num_bids: u64 = 0;
        let mut num_asks: u64 = 0;
        let mut i: usize = 0;
        proof {
            assert(s.len() == self.mempool_data@.len());
        }
        while i < self.mempool_data.len()
            invariant
                0 <= i <= self.mempool_data.len(),
                s == pool_orders(self.mempool_data@),
                s.len() == self.mempool_data@.len(),
                self.mempool_data@.len() < 0xffff_ffff_ffff_ffff,
                all_wf(s),
                num_bids == bid_count(s.take(i as int)),
                num_asks == ask_count(s.take(i as int)),
                bids_sum == bid_price_sum(s.take(i as int), self.market_type),
                asks_sum == ask_price_sum(s.take(i as int), self.market_type),
                0 <= num_bids <= i,
                0 <= num_asks <= i,
                0 <= bids_sum <= (num_bids as int) * (MAX_PRICE_UNITS as int),
                0 <= asks_sum <= (num_asks as int) * (MAX_PRICE_UNITS as int),
            decreases self.mempool_data.len() - i,
        {
            proof {
                assert(s.take(i + 1).drop_last() =~= s.take(i as int));
                assert(s.take(i + 1).last() == s[i as int]);
                assert(wf_order(s[i as int]));
                assert((num_bids as int + 1) * (MAX_PRICE_UNITS as int) == (num_bids as int) * (
                MAX_PRICE_UNITS as int) + MAX_PRICE_UNITS) by (nonlinear_arith);
                assert((num_asks as int + 1) * (MAX_PRICE_UNITS as int) == (num_asks as int) * (
                MAX_PRICE_UNITS as int) + MAX_PRICE_UNITS) by (nonlinear_arith);
            }
            let o = &self.mempool_data[i].0;
            let p: i64 = match self.market_type {
                MarketType::CDA | MarketType::FBA => o.price,
                MarketType::KLF => match o.trade_type {
                    TradeType::Bid => o.p_high,
                    TradeType::Ask => o.p_low,
                },
            };
            match o.trade_type {
                TradeType::Bid => {
                    num_bids = num_bids + 1;
                    bids_sum = bids_sum + (p as i128);
                },
                TradeType::Ask => {
                    num_asks = num_asks + 1;
                    asks_sum = asks_sum + (p as i128);
                },
            }
            i = i + 1;
        }
        proof {
            assert(s.take(s.len() as int) =~= s);
        }
        let bids_avg: Option<i64> = if num_bids > 0 {
            Some((bids_sum / (num_bids as i128)) as i64)
        } else {
            None
        };
        let asks_avg: Option<i64> = if num_asks > 0 {
            Some((asks_sum / (num_asks as i128)) as i64)
        } else {
            None
        };
        proof {
            lemma_avg_in_range(bids_sum as int, num_bids as int);
            lemma_avg_in_range(asks_sum as int, num_asks as int);
        }
        (bids_avg, asks_avg, num_bids, num_asks)
    }

    /// The uniform price of the most recent clearing, if any.
    pub fn get_last_clearing_price(&self) -> (r: Option<i64>)
        ensures
            self.clearings@.len() == 0 ==> r is None,
            self.clearings@.len() > 0 ==> r == self.clearings@.last().0.uniform_price,
    {
        if self.clearings.len() > 0 {
            self.clearings[self.clearings.len() - 1].0.uniform_price
        } else {
            None
        }
    }

    /// The weighted price recorded with the most recent snapshot.
    pub fn get_weighted_price(&self) -> (r: Option<i64>)
        ensures
            self.order_books@.len() == 0 ==> r is None,
            self.order_books@.len() > 0 ==> r == self.order_books@.last().current_wtd_price,
    {
        if self.order_books.len() > 0 {
            self.order_books[self.order_books.len() - 1].current_wtd_price
        } else {
            None
        }
    }

    /// The mean gas of the supplied pool, rounded down; zero when the
    /// pool is empty.
    pub fn get_mean_gas(pool: &Vec<Order>) -> (r: i64)
        requires
            all_wf(pool@),
        ensures
            r == mean_gas_spec(pool@),
            0 <= r <= crate::order::MAX_GAS_UNITS,
    {
        let num = pool.len();
        if num == 0 {
            return 0;
        }
        let mut sum: i128 = 0;
        let mut i: usize = 0;
        while i < pool.len()
            invariant
                0 <= i <= pool.len(),
                all_wf(pool@),
                sum == gas_sum(pool@.take(i as int)),
                0 <= sum <= (i as int) * (crate::order::MAX_GAS_UNITS as int),
            decreases pool.len() - i,
        {
            proof {
                assert(pool@.take(i + 1).drop_last() =~= pool@.take(i as int));
                assert(pool@.take(i + 1).last() == pool@[i as int]);
                assert(wf_order(pool@[i as int]));
                assert((i as int + 1) * (crate::order::MAX_GAS_UNITS as int) == (i as int) * (
                crate::order::MAX_GAS_UNITS as int) + crate::order::MAX_GAS_UNITS)
                    by (nonlinear_arith);
                assert((i as int + 1) * (crate::order::MAX_GAS_UNITS as int)
                    <= 0x1_0000_0000_0000_0000 * (crate::order::MAX_GAS_UNITS as int))
                    by (nonlinear_arith)
                    requires
                        0 <= i as int + 1 <= 0x1_0000_0000_0000_0000,
                ;
            }
            sum = sum + (pool[i].gas as i128);
            i = i + 1;
        }
        proof {
            assert(pool@.take(pool@.len() as int) =~= pool@);
            lemma_avg_in_range(sum as int, pool@.len() as int);
        }
        (sum / (num as i128)) as i64
    }

    /// Records a shallow snapshot of a book after a block: each
    /// order's id and remaining quantity, the side averages, the
    /// snapshot-time weighted price, and the best (tail) order.
    /// Earlier snapshots are untouched.
    pub fn clone_book_state(&mut self, new_book: Vec<Order>, book_type: TradeType, block_num: u64)
        requires
            all_wf(new_book@),
        ensures
            final(self).mempool_data@ == old(self).mempool_data@,
            final(self).clearings@ == old(self).clearings@,
            final(self).market_type == old(self).market_type,
            final(self).order_books@.len() == old(self).order_books@.len() + 1,
            forall|k: int|
                0 <= k < old(self).order_books@.len() ==> final(self).order_books@[k] == old(
                    self,
                ).order_books@[k],
            ({
                let sb = final(self).order_books@.last();
                let mt = old(self).market_type;
                &&& sb.book_type == book_type
                &&& sb.block_num == block_num
                &&& sb.avg_bids_price == avg_or_none(bid_price_sum(new_book@, mt), bid_count(new_book@))
                &&& sb.avg_asks_price == avg_or_none(ask_price_sum(new_book@, mt), ask_count(new_book@))
                &&& sb.current_wtd_price == wtd_price_spec(
                    avg_or_none(bid_price_sum(new_book@, mt), bid_count(new_book@)),
                    avg_or_none(ask_price_sum(new_book@, mt), ask_count(new_book@)),
                    bid_count(new_book@),
                    ask_count(new_book@),
                )
                &&& sb.num_bids == bid_count(new_book@)
                &&& sb.num_asks == ask_count(new_book@)
                &&& (new_book@.len() == 0 ==> sb.best_order is None)
                &&& (new_book@.len() > 0 ==> sb.best_order == Some(new_book@.last()))
                &&& sb.orders@.len() == new_book@.len()
                &&& forall|k: int|
                    0 <= k < new_book@.len() ==> (#[trigger] sb.orders@[k]).order_id
                        == new_book@[k].order_id && sb.orders@[k].quantity == new_book@[k].quantity
                &&& entries_wf(sb.orders@)
            }),
    {
        let stats = History::average_order_prices(&new_book, self.market_type);
        let best_order: Option<Order> = if new_book.len() > 0 {
            Some(new_book[new_book.len() - 1].clone())
        } else {
            None
        };
        let mut new_book_state = ShallowBook::new(
            book_type,
            block_num,
            stats.0,
            stats.1,
            stats.4,
            best_order,
            stats.2,
            stats.3,
        );
        let ghost mt0 = self.market_type;
        let mut i: usize = 0;
        while i < new_book.len()
            invariant
                0 <= i <= new_book.len(),
                all_wf(new_book@),
                self.mempool_data@ == old(self).mempool_data@,
                self.order_books@ == old(self).order_books@,
                self.clearings@ == old(self).clearings@,
                self.market_type == old(self).market_type,
                mt0 == old(self).market_type,
                new_book_state.orders@.len() == i,
                new_book_state.block_num == block_num,
                new_book_state.book_type == book_type,
                new_book_state.avg_bids_price == avg_or_none(
                    bid_price_sum(new_book@, mt0),
                    bid_count(new_book@),
                ),
                new_book_state.avg_asks_price == avg_or_none(
                    ask_price_sum(new_book@, mt0),
                    ask_count(new_book@),
                ),
                new_book_state.current_wtd_price == wtd_price_spec(
                    avg_or_none(bid_price_sum(new_book@, mt0), bid_count(new_book@)),
                    avg_or_none(ask_price_sum(new_book@, mt0), ask_count(new_book@)),
                    bid_count(new_book@),
                    ask_count(new_book@),
                ),
                new_book_state.num_bids == bid_count(new_book@),
                new_book_state.num_asks == ask_count(new_book@),
                new_book@.len() == 0 ==> new_book_state.best_order is None,
                new_book@.len() > 0 ==> new_book_state.best_order == Some(new_book@.last()),
                forall|k: int|
                    0 <= k < i ==> (#[trigger] new_book_state.orders@[k]).order_id
                        == new_book@[k].order_id && new_book_state.orders@[k].quantity
                        == new_book@[k].quantity,
            decreases new_book.len() - i,
        {
            proof {
                assert(wf_order(new_book@[i as int]));
            }
            new_book_state.new_entry(Entry::new(new_book[i].order_id, new_book[i].quantity));
            i = i + 1;
        }
        self.order_books.push(new_book_state);
    }

    /// The best bid and best ask from the most recent snapshots.
    pub fn get_best_orders(&self) -> (r: (Option<Order>, Option<Order>))
        ensures
            r == best_orders_spec(self.order_books@),
    {
        let books = &self.order_books;
        if books.len() == 0 {
            return (None, None);
        }
        let last_book = &books[books.len() - 1];
        let mut best_bid: Option<Order> = None;
        let mut best_ask: Option<Order> = None;
        match last_book.book_type {
            TradeType::Bid => {
                best_bid = match &last_book.best_order {
                    Some(o) => Some(o.clone()),
                    None => None,
                };
            },
            TradeType::Ask => {
                best_ask = match &last_book.best_order {
                    Some(o) => Some(o.clone()),
                    None => None,
                };
            },
        }
        if books.len() == 1 {
            return (best_bid, best_ask);
        }
        let next_book = &books[books.len() - 2];
        match next_book.book_type {
            TradeType::Bid => {
                best_bid = match &next_book.best_order {
                    Some(o) => Some(o.clone()),
                    None => None,
                };
            },
            TradeType::Ask => {
                best_ask = match &next_book.best_order {
                    Some(o) => Some(o.clone()),
                    None => None,
                };
            },
        }
        (best_bid, best_ask)
    }

    /// The best bid and ask prices from the most recent snapshots,
    /// with the empty-book sentinels when a side has none.
    pub fn get_best_prices(&self) -> (r: (i64, i64))
        ensures
            r.0 == match best_orders_spec(self.order_books@).0 {
                Some(o) => o.price,
                None => 0,
            },
            r.1 == match best_orders_spec(self.order_books@).1 {
                Some(o) => o.price,
                None => PRICE_INF,
            },
    {
        let best = self.get_best_orders();
        let bid_price = match &best.0 {
            Some(o) => o.price,
            None => 0,
        };
        let ask_price = match &best.1 {
            Some(o) => o.price,
            None => PRICE_INF,
        };
        (bid_price, ask_price)
    }

    /// The most recent lists of resting bids and asks, resolved back
    /// to their original mempool orders, with each side's snapshot
    /// volume: `(bids, asks, bids_volume, asks_volume)`.
    pub fn get_current_orders(&self) -> (r: (Vec<Order>, Vec<Order>, i128, i128))
        requires
            forall|b: int|
                0 <= b < self.order_books@.len() ==> entries_wf(
                    (#[trigger] self.order_books@[b]).orders@,
                ),
        ensures
            ({
                let picked = current_entries_spec(self.order_books@);
                &&& r.0@ == entries_lookup(self.mempool_data@, picked.0)
                &&& r.1@ == entries_lookup(self.mempool_data@, picked.1)
                &&& r.2 == entries_vol(picked.0)
                &&& r.3 == entries_vol(picked.1)
            }),
    {
        let mut bids_entries: Vec<Entry> = Vec::new();
        let mut asks_entries: Vec<Entry> = Vec::new();
        let ghost picked = current_entries_spec(self.order_books@);
        if self.order_books.len() > 0 {
            let last_book = &self.order_books[self.order_books.len() - 1];
            match last_book.book_type {
                TradeType::Bid => {
                    bids_entries = Self::copy_entries(&last_book.orders);
                },
                TradeType::Ask => {
                    asks_entries = Self::copy_entries(&last_book.orders);
                },
            }
            if self.order_books.len() > 1 {
                let next_book = &self.order_books[self.order_books.len() - 2];
                match next_book.book_type {
                    TradeType::Bid => {
                        bids_entries = Self::copy_entries(&next_book.orders);
                    },
                    TradeType::Ask => {
                        asks_entries = Self::copy_entries(&next_book.orders);
                    },
                }
            }
        }
        proof {
            assert(bids_entries@ == picked.0);
            assert(asks_entries@ == picked.1);
            assert(entries_wf(picked.0) && entries_wf(picked.1)) by {
                if self.order_books@.len() > 0 {
                    assert(self.order_books@.last() == self.order_books@[self.order_books@.len()
                        - 1]);
                    assert(entries_wf(self.order_books@[self.order_books@.len() - 1].orders@));
                    if self.order_books@.len() > 1 {
                        assert(entries_wf(
                            self.order_books@[self.order_books@.len() - 2].orders@,
                        ));
                    }
                }
            }
        }
        let mut bids_out: Vec<Order> = Vec::new();
        let mut asks_out: Vec<Order> = Vec::new();
        let mut bids_vol: i128 = 0;
        let mut asks_vol: i128 = 0;
        let mut i: usize = 0;
        while i < bids_entries.len()
            invariant
                0 <= i <= bids_entries@.len(),
                bids_entries@ == picked.0,
                entries_wf(picked.0),
                bids_out@ == entries_lookup(self.mempool_data@, picked.0.take(i as int)),
                bids_vol == entries_vol(picked.0.take(i as int)),
                -((i as int) * (MAX_QTY_UNITS as int)) <= bids_vol <= (i as int) * (
                MAX_QTY_UNITS as int),
            decreases bids_entries@.len() - i,
        {
            proof {
                assert(picked.0.take(i + 1).drop_last() =~= picked.0.take(i as int));
                assert(picked.0.take(i + 1).last() == picked.0[i as int]);
                lemma_find_pool_range(self.mempool_data@, picked.0[i as int].order_id, 0);
                assert((i as int + 1) * (MAX_QTY_UNITS as int) == (i as int) * (
                MAX_QTY_UNITS as int) + MAX_QTY_UNITS) by (nonlinear_arith);
                assert((i as int + 1) * (MAX_QTY_UNITS as int) <= 0x1_0000_0000_0000_0000 * (
                MAX_QTY_UNITS as int)) by (nonlinear_arith)
                    requires
                        0 <= i as int + 1 <= 0x1_0000_0000_0000_0000,
                ;
            }
            bids_vol = bids_vol + (bids_entries[i].quantity as i128);
            match self.find_orig_order(bids_entries[i].order_id) {
                Some(pair) => {
                    bids_out.push(pair.0);
                    proof {
                        assert(bids_out@ =~= entries_lookup(
                            self.mempool_data@,
                            picked.0.take(i + 1),
                        ));
                    }
                },
                None => {
                    proof {
                        assert(bids_out@ =~= entries_lookup(
                            self.mempool_data@,
                            picked.0.take(i + 1),
                        ));
                    }
                },
            }
            i = i + 1;
        }
        let mut j: usize = 0;
        while j < asks_entries.len()
            invariant
                0 <= j <= asks_entries@.len(),
                asks_entries@ == picked.1,
                entries_wf(picked.1),
                asks_out@ == entries_lookup(self.mempool_data@, picked.1.take(j as int)),
                asks_vol == entries_vol(picked.1.take(j as int)),
                -((j as int) * (MAX_QTY_UNITS as int)) <= asks_vol <= (j as int) * (
                MAX_QTY_UNITS as int),
            decreases asks_entries@.len() - j,
        {
            proof {
                assert(picked.1.take(j + 1).drop_last() =~= picked.1.take(j as int));
                assert(picked.1.take(j + 1).last() == picked.1[j as int]);
                lemma_find_pool_range(self.mempool_data@, picked.1[j as int].order_id, 0);
                assert((j as int + 1) * (MAX_QTY_UNITS as int) == (j as int) * (
                MAX_QTY_UNITS as int) + MAX_QTY_UNITS) by (nonlinear_arith);
                assert((j as int + 1) * (MAX_QTY_UNITS as int) <= 0x1_0000_0000_0000_0000 * (
                MAX_QTY_UNITS as int)) by (nonlinear_arith)
                    requires
                        0 <= j as int + 1 <= 0x1_0000_0000_0000_0000,
                ;
            }
            asks_vol = asks_vol + (asks_entries[j].quantity as i128);
            match self.find_orig_order(asks_entries[j].order_id) {
                Some(pair) => {
                    asks_out.push(pair.0);
                    proof {
                        assert(asks_out@ =~= entries_lookup(
                            self.mempool_data@,
                            picked.1.take(j + 1),
                        ));
                    }
                },
                None => {
                    proof {
                        assert(asks_out@ =~= entries_lookup(
                            self.mempool_data@,
                            picked.1.take(j + 1),
                        ));
                    }
                },
            }
            j = j + 1;
        }
        proof {
            assert(picked.0.take(picked.0.len() as int) =~= picked.0);
            assert(picked.1.take(picked.1.len() as int) =~= picked.1);
        }
        (bids_out, asks_out, bids_vol, asks_vol)
    }

    /// A copy of a snapshot's entries.
    fn copy_entries(v: &Vec<Entry>) -> (r: Vec<Entry>)
        ensures
            r@ == v@,
    {
        let mut out: Vec<Entry> = Vec::new();
        let mut i: usize = 0;
        while i < v.len()
            invariant
                0 <= i <= v.len(),
                out@ == v@.take(i as int),
            decreases v.len() - i,
        {
            out.push(v[i]);
            proof {
                assert(out@ =~= v@.take(i + 1));
            }
            i = i + 1;
        }
        proof {
            assert(v@.take(v@.len() as int) =~= v@);
        }
        out
    }

    /// The inferred statistics over every order ever sent to the
    /// mempool: per-side means and counts and the pool-wide weighted
    /// price.
    pub fn inference_data(&self) -> (r: LikelihoodStats)
        requires
            all_wf(pool_orders(self.mempool_data@)),
            self.mempool_data@.len() < 0xffff_ffff_ffff_ffff,
        ensures
            ({
                let s = pool_orders(self.mempool_data@);
                &&& r.mean_bids == avg_or_none(bid_price_sum(s, self.market_type), bid_count(s))
                &&& r.mean_asks == avg_or_none(ask_price_sum(s, self.market_type), ask_count(s))
                &&& r.num_bids == bid_count(s)
                &&& r.num_asks == ask_count(s)
                &&& r.weighted_price == wtd_price_spec(
                    avg_or_none(bid_price_sum(s, self.market_type), bid_count(s)),
                    avg_or_none(ask_price_sum(s, self.market_type), ask_count(s)),
                    bid_count(s),
                    ask_count(s),
                )
            }),
    {
        let stats = self.average_seen_prices();
        let mean_bids = stats.0;
        let mean_asks = stats.1;
        let num_bids = stats.2;
        let num_asks = stats.3;
        let pool_len = self.mempool_data.len();
        proof {
            let s = pool_orders(self.mempool_data@);
            lemma_counts_le_len(s);
            assert(s.len() == self.mempool_data@.len());
            lemma_stat_sums_bounds(s, self.market_type);
            lemma_avg_in_range(bid_price_sum(s, self.market_type), bid_count(s));
            lemma_avg_in_range(ask_price_sum(s, self.market_type), ask_count(s));
        }
        let weighted_price = History::calc_cur_wtd_price(
            mean_bids,
            mean_asks,
            num_bids as usize,
            num_asks as usize,
        );
        LikelihoodStats { mean_bids, mean_asks, num_bids, num_asks, weighted_price }
    }

    /// The current market data for the maker strategies, measured from
    /// the snapshots and the supplied mempool copy.
    pub fn decision_data(&self, current_pool: Vec<Order>) -> (r: PriorData)
        requires
            all_wf(current_pool@),
            forall|b: int|
                0 <= b < self.order_books@.len() ==> entries_wf(
                    (#[trigger] self.order_books@[b]).orders@,
                ),
        ensures
            r.clearing_price == if self.clearings@.len() > 0 {
                self.clearings@.last().0.uniform_price
            } else {
                None::<i64>
            },
            r.best_bid == best_orders_spec(self.order_books@).0,
            r.best_ask == best_orders_spec(self.order_books@).1,
            r.current_bids@ == entries_lookup(
                self.mempool_data@,
                current_entries_spec(self.order_books@).0,
            ),
            r.current_asks@ == entries_lookup(
                self.mempool_data@,
                current_entries_spec(self.order_books@).1,
            ),
            r.current_wtd_price == if self.order_books@.len() > 0 {
                self.order_books@.last().current_wtd_price
            } else {
                None::<i64>
            },
            r.mean_pool_gas == mean_gas_spec(current_pool@),
            r.bids_volume == entries_vol(current_entries_spec(self.order_books@).0),
            r.asks_volume == entries_vol(current_entries_spec(self.order_books@).1),
            r.current_pool@ == current_pool@,
    {
        let clearing_price = self.get_last_clearing_price();
        let best = self.get_best_orders();
        let current = self.get_current_orders();
        let current_wtd_price = self.get_weighted_price();
        let mean_pool_gas = History::get_mean_gas(&current_pool);
        PriorData {
            clearing_price,
            best_bid: best.0,
            best_ask: best.1,
            current_bids: current.0,
            current_asks: current.1,
            current_wtd_price,
            mean_pool_gas,
            asks_volume: current.3,
            bids_volume: current.2,
            current_pool,
        }
    }

    /// Both the decision data and the inferred statistics, as the
    /// maker task consumes them.
    pub fn produce_data(&self, mempool: Vec<Order>) -> (r: (PriorData, LikelihoodStats))
        requires
            all_wf(mempool@),
            all_wf(pool_orders(self.mempool_data@)),
            self.mempool_data@.len() < 0xffff_ffff_ffff_ffff,
            forall|b: int|
                0 <= b < self.order_books@.len() ==> entries_wf(
                    (#[trigger] self.order_books@[b]).orders@,
                ),
        ensures
            r.1.weighted_price == ({
                let s = pool_orders(self.mempool_data@);
                wtd_price_spec(
                    avg_or_none(bid_price_sum(s, self.market_type), bid_count(s)),
                    avg_or_none(ask_price_sum(s, self.market_type), ask_count(s)),
                    bid_count(s),
                    ask_count(s),
                )
            }),
            r.0.mean_pool_gas == mean_gas_spec(mempool@),
            r.0.current_pool@ == mempool@,
    {
        let inference = self.inference_data();
        let decision = self.decision_data(mempool);
        (decision, inference)
    }

    /// The current weighted average price given the per-side means and
    /// counts; mirrors `wtd_price_spec`.
    pub fn calc_cur_wtd_price(
        mean_bids: Option<i64>,
        mean_asks: Option<i64>,
        num_bids: usize,
        num_asks: usize,
    ) -> (r: Option<i64>)
        requires
            mean_bids is Some ==> num_bids > 0 && 0 <= mean_bids.unwrap() <= MAX_PRICE_UNITS,
            mean_asks is Some ==> num_asks > 0 && 0 <= mean_asks.unwrap() <= MAX_PRICE_UNITS,
        ensures
            r == wtd_price_spec(mean_bids, mean_asks, num_bids as int, num_asks as int),
    {
        if num_bids == 0 && num_asks == 0 {
            return None;
        }
        match (mean_bids, mean_asks) {
            (None, None) => None,
            (None, Some(ma)) => {
                proof {
                    lemma_mul_div_bounds(ma as int, num_asks as int);
                }
                let raw: i128 = (ma as i128) * (num_asks as i128);
                Some((raw / (num_asks as i128)) as i64)
            },
            (Some(mb), None) => {
                proof {
                    lemma_mul_div_bounds(mb as int, num_bids as int);
                }
                let raw: i128 = (mb as i128) * (num_bids as i128);
                Some((raw / (num_bids as i128)) as i64)
            },
            (Some(mb), Some(ma)) => {
                proof {
                    lemma_wtd_sum_bounds(
                        mb as int,
                        ma as int,
                        num_bids as int,
                        num_asks as int,
                    );
                }
                let raw_b: i128 = (mb as i128) * (num_bids as i128);
                let raw_a: i128 = (ma as i128) * (num_asks as i128);
                Some(((raw_b + raw_a) / ((num_bids as i128) + (num_asks as i128))) as i64)
            },
        }
    }
}

/// The orders of the mempool records, in record order.
pub open spec fn pool_orders(s: Seq<(Order, u64)>) -> Seq<Order> {
    s.map_values(|e: (Order, u64)| e.0)
}

/// The best resting bid and ask drawn from the most recent snapshots:
/// snapshots alternate side, so the answer looks back at most two.
pub open spec fn best_orders_spec(books: Seq<ShallowBook>) -> (Option<Order>, Option<Order>) {
    if books.len() == 1 {
        match books.last().book_type {
            TradeType::Bid => (books.last().best_order, None::<Order>),
            TradeType::Ask => (None::<Order>, books.last().best_order),
        }
    } else if books.len() > 1 {
        let lastb = books.last();
        let nextb = books[books.len() - 2];
        let first = match lastb.book_type {
            TradeType::Bid => (lastb.best_order, None::<Order>),
            TradeType::Ask => (None::<Order>, lastb.best_order),
        };
        match nextb.book_type {
            TradeType::Bid => (nextb.best_order, first.1),
            TradeType::Ask => (first.0, nextb.best_order),
        }
    } else {
        (None::<Order>, None::<Order>)
    }
}

/// The bid-side and ask-side entry lists of the most recent snapshots,
/// chosen with the same two-snapshot lookback as the best orders.
pub open spec fn current_entries_spec(books: Seq<ShallowBook>) -> (Seq<Entry>, Seq<Entry>) {
    if books.len() == 1 {
        match books.last().book_type {
            TradeType::Bid => (books.last().orders@, Seq::<Entry>::empty()),
            TradeType::Ask => (Seq::<Entry>::empty(), books.last().orders@),
        }
    } else if books.len() > 1 {
        let lastb = books.last();
        let nextb = books[books.len() - 2];
        let first = match lastb.book_type {
            TradeType::Bid => (lastb.orders@, Seq::<Entry>::empty()),
            TradeType::Ask => (Seq::<Entry>::empty(), lastb.orders@),
        };
        match nextb.book_type {
            TradeType::Bid => (nextb.orders@, first.1),
            TradeType::Ask => (first.0, nextb.orders@),
        }
    } else {
        (Seq::<Entry>::empty(), Seq::<Entry>::empty())
    }
}

/// Over well-formed orders the statistic sums are non-negative and
/// bounded by the side count times the price cap.
pub proof fn lemma_stat_sums_bounds(s: Seq<Order>, mt: MarketType)
    requires
        all_wf(s),
    ensures
        0 <= bid_price_sum(s, mt) <= bid_count(s) * (MAX_PRICE_UNITS as int),
        0 <= ask_price_sum(s, mt) <= ask_count(s) * (MAX_PRICE_UNITS as int),
        0 <= bid_count(s) <= s.len(),
        0 <= ask_count(s) <= s.len(),
    decreases s.len(),
{
    if s.len() > 0 {
        assert(all_wf(s.drop_last())) by {
            assert(forall|i: int| 0 <= i < s.len() - 1 ==> s.drop_last()[i] == s[i]);
        }
        lemma_stat_sums_bounds(s.drop_last(), mt);
        assert(wf_order(s[s.len() - 1]));
        assert(s.last() == s[s.len() - 1]);
        assert((bid_count(s.drop_last()) + 1) * (MAX_PRICE_UNITS as int) == bid_count(
            s.drop_last(),
        ) * (MAX_PRICE_UNITS as int) + MAX_PRICE_UNITS) by (nonlinear_arith);
        assert((ask_count(s.drop_last()) + 1) * (MAX_PRICE_UNITS as int) == ask_count(
            s.drop_last(),
        ) * (MAX_PRICE_UNITS as int) + MAX_PRICE_UNITS) by (nonlinear_arith);
    }
}

/// There are no more bids or asks in a sequence than orders.
pub proof fn lemma_counts_le_len(s: Seq<Order>)
    ensures
        0 <= bid_count(s) <= s.len(),
        0 <= ask_count(s) <= s.len(),
    decreases s.len(),
{
    if s.len() > 0 {
        lemma_counts_le_len(s.drop_last());
    }
}

/// A non-negative average is bounded by the price cap whenever the sum
/// is bounded by count times the cap.
proof fn lemma_avg_in_range(sum: int, n: int)
    requires
        0 <= sum,
        0 <= n,
        sum <= n * (MAX_PRICE_UNITS as int),
    ensures
        n > 0 ==> 0 <= sum / n <= MAX_PRICE_UNITS,
{
    if n > 0 {
        assert(sum / n >= 0) by (nonlinear_arith)
            requires
                sum >= 0 && n > 0,
        ;
        assert(sum / n <= MAX_PRICE_UNITS) by (nonlinear_arith)
            requires
                0 <= sum && 0 < n && sum <= n * (MAX_PRICE_UNITS as int),
        ;
    }
}

/// A bounded mean times its count, divided back by the count, stays
/// within the price cap.
proof fn lemma_mul_div_bounds(m: int, n: int)
    requires
        0 <= m <= MAX_PRICE_UNITS,
        0 < n <= 0xffff_ffff_ffff_ffff,
    ensures
        0 <= m * n <= 0xffff_ffff_ffff_ffff * (MAX_PRICE_UNITS as int),
        0 <= (m * n) / n <= MAX_PRICE_UNITS,
{
    assert(0 <= m * n <= 0xffff_ffff_ffff_ffff * (MAX_PRICE_UNITS as int)) by (nonlinear_arith)
        requires
            0 <= m <= MAX_PRICE_UNITS && 0 < n <= 0xffff_ffff_ffff_ffff,
    ;
    assert((m * n) / n == m) by (nonlinear_arith)
        requires
            0 < n,
    ;
}

/// The weighted sum of two bounded means stays within range of its
/// total count, so the weighted price stays within the price cap.
proof fn lemma_wtd_sum_bounds(mb: int, ma: int, nb: int, na: int)
    requires
        0 <= mb <= MAX_PRICE_UNITS,
        0 <= ma <= MAX_PRICE_UNITS,
        0 < nb <= 0xffff_ffff_ffff_ffff,
        0 < na <= 0xffff_ffff_ffff_ffff,
    ensures
        0 <= mb * nb + ma * na <= 2 * 0xffff_ffff_ffff_ffff * (MAX_PRICE_UNITS as int),
        0 <= (mb * nb + ma * na) / (nb + na) <= MAX_PRICE_UNITS,
{
    assert(0 <= mb * nb <= 0xffff_ffff_ffff_ffff * (MAX_PRICE_UNITS as int)) by (nonlinear_arith)
        requires
            0 <= mb <= MAX_PRICE_UNITS && 0 < nb <= 0xffff_ffff_ffff_ffff,
    ;
    assert(0 <= ma * na <= 0xffff_ffff_ffff_ffff * (MAX_PRICE_UNITS as int)) by (nonlinear_arith)
        requires
            0 <= ma <= MAX_PRICE_UNITS && 0 < na <= 0xffff_ffff_ffff_ffff,
    ;
    assert(mb * nb + ma * na <= (nb + na) * (MAX_PRICE_UNITS as int)) by (nonlinear_arith)
        requires
            0 <= mb <= MAX_PRICE_UNITS && 0 <= ma <= MAX_PRICE_UNITS && 0 < nb && 0 < na,
    ;
    assert((mb * nb + ma * na) / (nb + na) >= 0) by (nonlinear_arith)
        requires
            0 <= mb * nb + ma * na && 0 < nb + na,
    ;
    assert((mb * nb + ma * na) / (nb + na) <= MAX_PRICE_UNITS) by (nonlinear_arith)
        requires
            0 <= mb * nb + ma * na && 0 < nb + na && mb * nb + ma * na <= (nb + na) * (
            MAX_PRICE_UNITS as int),
    ;
}

} // verus!
