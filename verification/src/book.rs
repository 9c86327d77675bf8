//! The order book: a side-tagged, price-sorted vector of resting orders
//! with a cached best price kept in sync with the tail element.
//!
//! A bid book is sorted ascending by price, so the best (highest) bid is
//! the tail; an ask book is sorted descending, so the best (lowest) ask
//! is the tail.  Every mutation is pinned, cache included, to a spec
//! transition function on the book's view, which is what the matching
//! engines' own contracts are stated over.

use crate::order::{wf_order, Order, TradeType};
use vstd::prelude::*;

verus! {

/// The sentinel a best-price cache holds when no order bounds it:
/// stands in for an infinite price.
pub const PRICE_INF: i64 = i64::MAX;

/// The mathematical state of a book: side, resting orders in array
/// order, and the two cached price scalars.
pub ghost struct BookV {
    pub book_type: TradeType,
    pub orders: Seq<Order>,
    pub min_price: i64,
    pub max_price: i64,
}

/// Prices never decrease along the sequence.
pub open spec fn sorted_asc(s: Seq<Order>) -> bool {
    forall|i: int, j: int| 0 <= i < j < s.len() ==> s[i].price <= s[j].price
}

/// Prices never increase along the sequence.
pub open spec fn sorted_desc(s: Seq<Order>) -> bool {
    forall|i: int, j: int| 0 <= i < j < s.len() ==> s[i].price >= s[j].price
}

/// Every order in the sequence satisfies the field bounds.
pub open spec fn all_wf(s: Seq<Order>) -> bool {
    forall|i: int| 0 <= i < s.len() ==> wf_order(#[trigger] s[i])
}

/// Every order in the sequence is a flow bid.
pub open spec fn all_flow_bids(s: Seq<Order>) -> bool {
    forall|i: int|
        0 <= i < s.len() ==> (#[trigger] s[i]).ex_type == crate::order::ExchangeType::FlowOrder
            && s[i].trade_type == TradeType::Bid
}

/// Every order in the sequence is a flow ask.
pub open spec fn all_flow_asks(s: Seq<Order>) -> bool {
    forall|i: int|
        0 <= i < s.len() ==> (#[trigger] s[i]).ex_type == crate::order::ExchangeType::FlowOrder
            && s[i].trade_type == TradeType::Ask
}

/// The orders rest in the side's sort order: ascending for bids,
/// descending for asks, best price at the tail either way.
pub open spec fn book_sorted(b: BookV) -> bool {
    match b.book_type {
        TradeType::Bid => sorted_asc(b.orders),
        TradeType::Ask => sorted_desc(b.orders),
    }
}

/// The cached best price equals the tail order's price; when the book
/// is empty the caches hold the sentinels a fresh or reset book has.
pub open spec fn cache_ok(b: BookV) -> bool {
    if b.orders.len() > 0 {
        match b.book_type {
            TradeType::Bid => b.max_price == b.orders.last().price,
            TradeType::Ask => b.min_price == b.orders.last().price,
        }
    } else {
        (b.min_price == PRICE_INF && b.max_price == 0) || (b.book_type == TradeType::Ask
            && b.min_price == 0 && b.max_price == PRICE_INF)
    }
}

/// A well-formed book: sorted for its side, bounded orders, cache in
/// sync with the tail.
pub open spec fn wf_book(b: BookV) -> bool {
    book_sorted(b) && all_wf(b.orders) && cache_ok(b)
}

/// Where a new order lands in an ascending sequence: scanning from the
/// tail, it is placed after every element whose price is less than or
/// equal to its own, so arrival order breaks price ties.
pub open spec fn insert_asc(s: Seq<Order>, o: Order) -> Seq<Order>
    decreases s.len(),
{
    if s.len() == 0 {
        seq![o]
    } else if s.last().price <= o.price {
        s.push(o)
    } else {
        insert_asc(s.drop_last(), o).push(s.last())
    }
}

/// Where a new order lands in a descending sequence: scanning from the
/// tail, it is placed after every element whose price is greater than
/// or equal to its own, so arrival order breaks price ties.
pub open spec fn insert_desc(s: Seq<Order>, o: Order) -> Seq<Order>
    decreases s.len(),
{
    if s.len() == 0 {
        seq![o]
    } else if s.last().price >= o.price {
        s.push(o)
    } else {
        insert_desc(s.drop_last(), o).push(s.last())
    }
}

/// The stable descending sort of a sequence by price, built by
/// inserting each element in turn after its equals.
pub open spec fn sort_desc(s: Seq<Order>) -> Seq<Order>
    decreases s.len(),
{
    if s.len() == 0 {
        Seq::empty()
    } else {
        insert_desc(sort_desc(s.drop_last()), s.last())
    }
}

/// The index of the first order carrying `id`, searching from `i`;
/// -1 when no such order exists.
pub open spec fn find_id_from(s: Seq<Order>, id: u64, i: int) -> int
    decreases s.len() - i,
{
    if i < 0 || i >= s.len() {
        -1
    } else if s[i].order_id == id {
        i
    } else {
        find_id_from(s, id, i + 1)
    }
}

/// The index of the first order carrying `id`, or -1 if absent.
pub open spec fn find_id(s: Seq<Order>, id: u64) -> int {
    find_id_from(s, id, 0)
}

/// The minimum `p_low` over the sequence, `PRICE_INF` when empty.
pub open spec fn seq_min_plow(s: Seq<Order>) -> i64
    decreases s.len(),
{
    if s.len() == 0 {
        PRICE_INF
    } else if s.last().p_low < seq_min_plow(s.drop_last()) {
        s.last().p_low
    } else {
        seq_min_plow(s.drop_last())
    }
}

/// The maximum `p_high` over the sequence, 0 when empty.
pub open spec fn seq_max_phigh(s: Seq<Order>) -> i64
    decreases s.len(),
{
    if s.len() == 0 {
        0
    } else if s.last().p_high > seq_max_phigh(s.drop_last()) {
        s.last().p_high
    } else {
        seq_max_phigh(s.drop_last())
    }
}

/// The minimum price over the sequence, `PRICE_INF` when empty.
pub open spec fn seq_min_price(s: Seq<Order>) -> i64
    decreases s.len(),
{
    if s.len() == 0 {
        PRICE_INF
    } else if s.last().price < seq_min_price(s.drop_last()) {
        s.last().price
    } else {
        seq_min_price(s.drop_last())
    }
}

/// The total quantity resting in the sequence.
pub open spec fn seq_volume(s: Seq<Order>) -> int
    decreases s.len(),
{
    if s.len() == 0 {
        0
    } else {
        seq_volume(s.drop_last()) + s.last().quantity
    }
}

/// What `add_order` does to a book: the order is placed at its stable
/// sort position and the best-side cache is refreshed from the new tail.
pub open spec fn book_add(b: BookV, o: Order) -> BookV {
    match b.book_type {
        TradeType::Bid => {
            let s = insert_asc(b.orders, o);
            BookV { book_type: b.book_type, orders: s, min_price: b.min_price, max_price: s.last().price }
        },
        TradeType::Ask => {
            let s = insert_desc(b.orders, o);
            BookV { book_type: b.book_type, orders: s, min_price: s.last().price, max_price: b.max_price }
        },
    }
}

/// The sentinel caches a book falls back to when a cancel empties it.
pub open spec fn book_reset(b: BookV) -> BookV {
    match b.book_type {
        TradeType::Bid => BookV { min_price: PRICE_INF, max_price: 0, ..b },
        TradeType::Ask => BookV { min_price: 0, max_price: PRICE_INF, ..b },
    }
}

/// What a successful cancel does: the first order with the id is
/// removed; the best-side cache is refreshed from the new tail, or the
/// caches are reset if the book became empty.
pub open spec fn book_cancel(b: BookV, id: u64) -> (BookV, bool) {
    let ix = find_id(b.orders, id);
    if ix < 0 {
        (b, false)
    } else {
        let s = b.orders.remove(ix);
        if s.len() > 0 {
            match b.book_type {
                TradeType::Bid => (
                    BookV { orders: s, max_price: s.last().price, ..b },
                    true,
                ),
                TradeType::Ask => (
                    BookV { orders: s, min_price: s.last().price, ..b },
                    true,
                ),
            }
        } else {
            (book_reset(BookV { orders: s, ..b }), true)
        }
    }
}

/// What `update_order` does: any resting order with the same id is
/// cancelled, then the new order is added.
pub open spec fn book_update(b: BookV, o: Order) -> BookV {
    book_add(book_cancel(b, o.order_id).0, o)
}

/// The struct for the order books of the exchange.  Tracks resting bids
/// or asks, sorted so the best price sits at the tail, beside the two
/// cached price scalars used when computing crossings.
#[derive(Debug)]
pub struct Book {
    pub book_type: TradeType,
    pub orders: Vec<Order>,
    pub min_price: i64,
    pub max_price: i64,
}

impl View for Book {
    type V = BookV;

    open spec fn view(&self) -> BookV {
        BookV {
            book_type: self.book_type,
            orders: self.orders@,
            min_price: self.min_price,
            max_price: self.max_price,
        }
    }
}

/// `insert_asc` splices the order in at the position the exec search
/// finds: after every element with price at most the new one.
proof fn lemma_insert_asc_at(s: Seq<Order>, o: Order, pos: int)
    requires
        0 <= pos <= s.len(),
        pos == 0 || s[pos - 1].price <= o.price,
        forall|k: int| pos <= k < s.len() ==> s[k].price > o.price,
    ensures
        insert_asc(s, o) =~= s.take(pos) + seq![o] + s.skip(pos),
    decreases s.len(),
{
    if s.len() == 0 {
    } else if s.last().price <= o.price {
        assert(pos == s.len());
    } else {
        assert(pos < s.len());
        lemma_insert_asc_at(s.drop_last(), o, pos);
        assert(s.drop_last().take(pos) =~= s.take(pos));
        assert(s.drop_last().skip(pos) =~= s.skip(pos).drop_last());
    }
}

/// `insert_desc` splices the order in at the position the exec search
/// finds: after every element with price at least the new one.
proof fn lemma_insert_desc_at(s: Seq<Order>, o: Order, pos: int)
    requires
        0 <= pos <= s.len(),
        pos == 0 || s[pos - 1].price >= o.price,
        forall|k: int| pos <= k < s.len() ==> s[k].price < o.price,
    ensures
        insert_desc(s, o) =~= s.take(pos) + seq![o] + s.skip(pos),
    decreases s.len(),
{
    if s.len() == 0 {
    } else if s.last().price >= o.price {
        assert(pos == s.len());
    } else {
        assert(pos < s.len());
        lemma_insert_desc_at(s.drop_last(), o, pos);
        assert(s.drop_last().take(pos) =~= s.take(pos));
        assert(s.drop_last().skip(pos) =~= s.skip(pos).drop_last());
    }
}

/// Inserting into an ascending sequence keeps it ascending and keeps
/// every order well-formed.
pub proof fn lemma_insert_asc_wf(s: Seq<Order>, o: Order)
    requires
        sorted_asc(s),
    ensures
        sorted_asc(insert_asc(s, o)),
        all_wf(s) && wf_order(o) ==> all_wf(insert_asc(s, o)),
        insert_asc(s, o).len() == s.len() + 1,
        insert_asc(s, o).last().price == if s.len() == 0 || s.last().price <= o.price {
            o.price
        } else {
            s.last().price
        },
        insert_asc(s, o).to_multiset() == s.to_multiset().insert(o),
    decreases s.len(),
{
    s.to_multiset_ensures();
    if s.len() == 0 {
        assert(s =~= Seq::<Order>::empty());
        assert(insert_asc(s, o) =~= s.push(o));
    } else if s.last().price <= o.price {
    } else {
        lemma_insert_asc_wf(s.drop_last(), o);
        s.drop_last().to_multiset_ensures();
        let t = insert_asc(s.drop_last(), o);
        t.to_multiset_ensures();
        assert forall|i: int| 0 <= i < t.len() implies t[i].price <= s.last().price by {
            assert(t.contains(t[i]));
            assert(t.to_multiset().count(t[i]) > 0);
            assert(t.to_multiset() == s.drop_last().to_multiset().insert(o));
            if t[i] != o {
                assert(s.drop_last().to_multiset().count(t[i]) > 0);
                assert(s.drop_last().contains(t[i]));
                let j = choose|j: int|
                    0 <= j < s.drop_last().len() && s.drop_last()[j] == t[i];
                assert(s[j].price <= s.last().price);
            }
        }
        assert(sorted_asc(t.push(s.last())));
        assert(s =~= s.drop_last().push(s.last()));
        assert(s.to_multiset() == s.drop_last().to_multiset().insert(s.last()));
        assert(t.push(s.last()).to_multiset() == t.to_multiset().insert(s.last()));
        assert(t.push(s.last()).to_multiset() =~= s.to_multiset().insert(o));
    }
}

/// Inserting into a descending sequence keeps it descending and keeps
/// every order well-formed.
pub proof fn lemma_insert_desc_wf(s: Seq<Order>, o: Order)
    requires
        sorted_desc(s),
    ensures
        sorted_desc(insert_desc(s, o)),
        all_wf(s) && wf_order(o) ==> all_wf(insert_desc(s, o)),
        insert_desc(s, o).len() == s.len() + 1,
        insert_desc(s, o).last().price == if s.len() == 0 || s.last().price >= o.price {
            o.price
        } else {
            s.last().price
        },
        insert_desc(s, o).to_multiset() == s.to_multiset().insert(o),
    decreases s.len(),
{
    s.to_multiset_ensures();
    if s.len() == 0 {
        assert(s =~= Seq::<Order>::empty());
        assert(insert_desc(s, o) =~= s.push(o));
    } else if s.last().price >= o.price {
    } else {
        lemma_insert_desc_wf(s.drop_last(), o);
        s.drop_last().to_multiset_ensures();
        let t = insert_desc(s.drop_last(), o);
        t.to_multiset_ensures();
        assert forall|i: int| 0 <= i < t.len() implies t[i].price >= s.last().price by {
            assert(t.contains(t[i]));
            assert(t.to_multiset().count(t[i]) > 0);
            assert(t.to_multiset() == s.drop_last().to_multiset().insert(o));
            if t[i] != o {
                assert(s.drop_last().to_multiset().count(t[i]) > 0);
                assert(s.drop_last().contains(t[i]));
                let j = choose|j: int|
                    0 <= j < s.drop_last().len() && s.drop_last()[j] == t[i];
                assert(s[j].price >= s.last().price);
            }
        }
        assert(sorted_desc(t.push(s.last())));
        assert(s =~= s.drop_last().push(s.last()));
        assert(s.to_multiset() == s.drop_last().to_multiset().insert(s.last()));
        assert(t.push(s.last()).to_multiset() == t.to_multiset().insert(s.last()));
        assert(t.push(s.last()).to_multiset() =~= s.to_multiset().insert(o));
    }
}


/// Removing an element from a sorted sequence keeps it sorted.
proof fn lemma_remove_keeps_sorted(s: Seq<Order>, ix: int)
    requires
        0 <= ix < s.len(),
    ensures
        sorted_asc(s) ==> sorted_asc(s.remove(ix)),
        sorted_desc(s) ==> sorted_desc(s.remove(ix)),
        all_wf(s) ==> all_wf(s.remove(ix)),
{
    let t = s.remove(ix);
    assert(forall|i: int|
        0 <= i < t.len() ==> #[trigger] t[i] == if i < ix {
            s[i]
        } else {
            s[i + 1]
        });
}


/// `find_id_from` returns -1 or an index in range carrying the id, and
/// no earlier index from the start of the search carries it.
pub proof fn lemma_find_id_range(s: Seq<Order>, id: u64, i: int)
    requires
        0 <= i,
    ensures
        find_id_from(s, id, i) == -1 ==> forall|k: int|
            i <= k < s.len() ==> s[k].order_id != id,
        find_id_from(s, id, i) != -1 ==> i <= find_id_from(s, id, i) < s.len()
            && s[find_id_from(s, id, i)].order_id == id && forall|k: int|
            i <= k < find_id_from(s, id, i) ==> s[k].order_id != id,
    decreases s.len() - i,
{
    if i < s.len() && s[i].order_id != id {
        lemma_find_id_range(s, id, i + 1);
    }
}

impl Book {
    /// A fresh, empty book of the given side.  The caches start at the
    /// empty sentinels: best bid 0, best ask infinite.
    pub fn new(book_type: TradeType) -> (r: Book)
        ensures
            r@.book_type == book_type,
            r@.orders.len() == 0,
            r@.min_price == PRICE_INF,
            r@.max_price == 0,
            wf_book(r@),
    {
        Book { book_type, orders: Vec::new(), min_price: PRICE_INF, max_price: 0 }
    }

    /// Finds the first index holding `id`, mirroring `find_id`.
    fn position_of_id(&self, id: u64) -> (r: Option<usize>)
        ensures
            match r {
                Some(ix) => find_id(self@.orders, id) == ix && ix < self@.orders.len(),
                None => find_id(self@.orders, id) == -1,
            },
    {
        proof {
            lemma_find_id_range(self@.orders, id, 0);
        }
        let mut i: usize = 0;
        while i < self.orders.len()
            invariant
                0 <= i <= self.orders.len(),
                find_id(self@.orders, id) == find_id_from(self@.orders, id, i as int),
            decreases self.orders.len() - i,
        {
            if self.orders[i].order_id == id {
                return Some(i);
            }
            i = i + 1;
        }
        None
    }

    /// Adds a new order at its sort position and refreshes the cached
    /// best price from the new tail.
    pub fn add_order(&mut self, order: Order)
        requires
            book_sorted(old(self)@),
            all_wf(old(self)@.orders),
            wf_order(order),
        ensures
            final(self)@ == book_add(old(self)@, order),
            book_sorted(final(self)@),
            all_wf(final(self)@.orders),
            wf_book(old(self)@) ==> wf_book(final(self)@),
    {
        proof {
            match self.book_type {
                TradeType::Bid => lemma_insert_asc_wf(self@.orders, order),
                TradeType::Ask => lemma_insert_desc_wf(self@.orders, order),
            }
        }
        let ghost orig = self@.orders;
        match self.book_type {
            TradeType::Bid => {
                let mut pos: usize = self.orders.len();
                while pos > 0 && self.orders[pos - 1].price > order.price
                    invariant
                        0 <= pos <= self.orders.len(),
                        self@.orders == orig,
                        forall|k: int| pos <= k < orig.len() ==> orig[k].price > order.price,
                    decreases pos,
                {
                    pos = pos - 1;
                }
                proof {
                    lemma_insert_asc_at(orig, order, pos as int);
                }
                self.orders.insert(pos, order);
                proof {
                    assert(self@.orders =~= insert_asc(orig, order));
                }
                let best = self.orders[self.orders.len() - 1].price;
                self.max_price = best;
            },
            TradeType::Ask => {
                let mut pos: usize = self.orders.len();
                while pos > 0 && self.orders[pos - 1].price < order.price
                    invariant
                        0 <= pos <= self.orders.len(),
                        self@.orders == orig,
                        forall|k: int| pos <= k < orig.len() ==> orig[k].price < order.price,
                    decreases pos,
                {
                    pos = pos - 1;
                }
                proof {
                    lemma_insert_desc_at(orig, order, pos as int);
                }
                self.orders.insert(pos, order);
                proof {
                    assert(self@.orders =~= insert_desc(orig, order));
                }
                let best = self.orders[self.orders.len() - 1].price;
                self.min_price = best;
            },
        }
    }

    /// Removes the first order carrying `id` and refreshes or resets
    /// the caches; reports `Err` when the id is absent.
    pub fn cancel_order_by_id(&mut self, id: u64) -> (r: Result<(), &'static str>)
        ensures
            final(self)@ == book_cancel(old(self)@, id).0,
            r is Ok <==> book_cancel(old(self)@, id).1,
            r is Ok <==> find_id(old(self)@.orders, id) != -1,
    {
        match self.position_of_id(id) {
            Some(ix) => {
                self.orders.remove(ix);
                if self.orders.len() > 0 {
                    let best = self.orders[self.orders.len() - 1].price;
                    self.update_best_price(best);
                } else {
                    self.reset_best_price();
                }
                Ok(())
            },
            None => Err("ERROR: order not found to cancel"),
        }
    }

    /// Cancels the resting order with the same id as the given order.
    pub fn cancel_order(&mut self, order: Order) -> (r: Result<(), &'static str>)
        ensures
            final(self)@ == book_cancel(old(self)@, order.order_id).0,
            r is Ok <==> book_cancel(old(self)@, order.order_id).1,
    {
        self.cancel_order_by_id(order.order_id)
    }

    /// Replaces the resting order with the new one: removes the old id
    /// if present, then inserts at the sort position.  Cancelling a
    /// missing id is not an error here, which makes the operation
    /// idempotent.
    pub fn update_order(&mut self, order: Order) -> (r: Result<(), &'static str>)
        requires
            book_sorted(old(self)@),
            all_wf(old(self)@.orders),
            wf_order(order),
        ensures
            final(self)@ == book_update(old(self)@, order),
            r is Ok,
    {
        proof {
            lemma_find_id_range(old(self)@.orders, order.order_id, 0);
            if find_id(old(self)@.orders, order.order_id) >= 0 {
                lemma_remove_keeps_sorted(
                    old(self)@.orders,
                    find_id(old(self)@.orders, order.order_id),
                );
            }
        }
        let _ = self.cancel_order_by_id(order.order_id);
        self.add_order(order);
        Ok(())
    }

    /// Pushes an order onto the tail without touching the caches; used
    /// by the engines to return a popped best order.
    pub fn push_to_end(&mut self, order: Order)
        ensures
            final(self)@ == (BookV { orders: old(self)@.orders.push(order), ..old(self)@ }),
    {
        self.orders.push(order);
    }

    /// Pops the best (tail) order without touching the caches.
    pub fn pop_from_end(&mut self) -> (r: Option<Order>)
        ensures
            old(self)@.orders.len() == 0 ==> r is None && final(self)@ == old(self)@,
            old(self)@.orders.len() > 0 ==> r == Some(old(self)@.orders.last()) && final(self)@
                == (BookV { orders: old(self)@.orders.drop_last(), ..old(self)@ }),
    {
        if self.orders.len() > 0 {
            let o = self.orders.pop().unwrap();
            return Some(o);
        }
        None
    }

    /// A new bid-tagged book holding the union of both books' orders,
    /// stably sorted descending by price; used by the batch auction.
    pub fn merge_sort_books(book1: &Book, book2: &Book) -> (r: Book)
        ensures
            r@.book_type == TradeType::Bid,
            r@.orders == sort_desc(book1@.orders + book2@.orders),
            r@.min_price == PRICE_INF,
            r@.max_price == 0,
    {
        let mut merged = Book::new(TradeType::Bid);
        let mut i: usize = 0;
        while i < book1.orders.len()
            invariant
                0 <= i <= book1.orders.len(),
                merged@.orders == book1@.orders.take(i as int),
                merged@.book_type == TradeType::Bid,
                merged@.min_price == PRICE_INF,
                merged@.max_price == 0,
            decreases book1.orders.len() - i,
        {
            let o = book1.orders[i].clone();
            merged.orders.push(o);
            proof {
                assert(merged@.orders =~= book1@.orders.take(i + 1));
            }
            i = i + 1;
        }
        let mut j: usize = 0;
        while j < book2.orders.len()
            invariant
                0 <= j <= book2.orders.len(),
                merged@.orders == book1@.orders + book2@.orders.take(j as int),
                merged@.book_type == TradeType::Bid,
                merged@.min_price == PRICE_INF,
                merged@.max_price == 0,
            decreases book2.orders.len() - j,
        {
            let o = book2.orders[j].clone();
            merged.orders.push(o);
            proof {
                assert(merged@.orders =~= book1@.orders + book2@.orders.take(j + 1));
            }
            j = j + 1;
        }
        proof {
            assert(book1@.orders.take(book1@.orders.len() as int) =~= book1@.orders);
            assert(book2@.orders.take(book2@.orders.len() as int) =~= book2@.orders);
        }
        merged.sort_desc_price();
        merged
    }

    /// Re-sorts the orders stably in descending price order; the caches
    /// are left alone.
    pub fn sort_desc_price(&mut self)
        ensures
            final(self)@ == (BookV { orders: sort_desc(old(self)@.orders), ..old(self)@ }),
    {
        let ghost input = self@.orders;
        let mut out: Vec<Order> = Vec::new();
        let mut i: usize = 0;
        while i < self.orders.len()
            invariant
                0 <= i <= self.orders.len(),
                self@.orders == input,
                out@ == sort_desc(input.take(i as int)),
            decreases self.orders.len() - i,
        {
            let o = self.orders[i].clone();
            let ghost before = out@;
            let mut pos: usize = out.len();
            while pos > 0 && out[pos - 1].price < o.price
                invariant
                    0 <= pos <= out.len(),
                    out@ == before,
                    forall|k: int| pos <= k < before.len() ==> before[k].price < o.price,
                decreases pos,
            {
                pos = pos - 1;
            }
            proof {
                lemma_insert_desc_at(before, o, pos as int);
            }
            out.insert(pos, o);
            proof {
                assert(out@ =~= insert_desc(before, o));
                assert(input.take(i + 1).drop_last() =~= input.take(i as int));
                assert(input.take(i + 1).last() == input[i as int]);
            }
            i = i + 1;
        }
        proof {
            assert(input.take(input.len() as int) =~= input);
        }
        self.orders = out;
    }

    /// The position of the first resting order belonging to the trader.
    pub fn peek_id_pos(&self, trader_id: String) -> (r: Option<usize>)
        ensures
            match r {
                Some(ix) => ix < self@.orders.len() && self@.orders[ix as int].trader_id@
                    == trader_id@ && forall|k: int|
                    0 <= k < ix ==> self@.orders[k].trader_id@ != trader_id@,
                None => forall|k: int|
                    0 <= k < self@.orders.len() ==> self@.orders[k].trader_id@ != trader_id@,
            },
    {
        let mut i: usize = 0;
        while i < self.orders.len()
            invariant
                0 <= i <= self.orders.len(),
                forall|k: int| 0 <= k < i ==> self@.orders[k].trader_id@ != trader_id@,
            decreases self.orders.len() - i,
        {
            if self.orders[i].trader_id == trader_id {
                return Some(i);
            }
            i = i + 1;
        }
        None
    }

    /// The depth of the book.
    pub fn len(&self) -> (r: usize)
        ensures
            r == self@.orders.len(),
    {
        self.orders.len()
    }

    /// Overwrites the book's best-side cache: the maximum for a bid
    /// book, the minimum for an ask book.
    pub fn update_best_price(&mut self, price: i64)
        ensures
            final(self)@ == match old(self)@.book_type {
                TradeType::Bid => BookV { max_price: price, ..old(self)@ },
                TradeType::Ask => BookV { min_price: price, ..old(self)@ },
            },
    {
        match self.book_type {
            TradeType::Bid => {
                self.max_price = price;
            },
            TradeType::Ask => {
                self.min_price = price;
            },
        }
    }

    /// The tail order's price, if any order rests in the book.
    pub fn peek_best_price(&self) -> (r: Option<i64>)
        ensures
            self@.orders.len() > 0 ==> r == Some(self@.orders.last().price),
            self@.orders.len() == 0 ==> r is None,
    {
        if self.orders.len() > 0 {
            return Some(self.orders[self.orders.len() - 1].price);
        }
        None
    }

    /// Raises the cached maximum to `p_high` if it is larger.
    pub fn update_max_price(&mut self, p_high: &i64)
        ensures
            final(self)@ == (BookV {
                max_price: if *p_high > old(self)@.max_price {
                    *p_high
                } else {
                    old(self)@.max_price
                },
                ..old(self)@
            }),
    {
        if *p_high > self.max_price {
            self.max_price = *p_high;
        }
    }

    /// Lowers the cached minimum to `p_low` if it is smaller.
    pub fn update_min_price(&mut self, p_low: &i64)
        ensures
            final(self)@ == (BookV {
                min_price: if *p_low < old(self)@.min_price {
                    *p_low
                } else {
                    old(self)@.min_price
                },
                ..old(self)@
            }),
    {
        if *p_low < self.min_price {
            self.min_price = *p_low;
        }
    }

    /// The cached minimum price.
    pub fn get_min_price(&self) -> (r: i64)
        ensures
            r == self@.min_price,
    {
        self.min_price
    }

    /// The cached maximum price.
    pub fn get_max_price(&self) -> (r: i64)
        ensures
            r == self@.max_price,
    {
        self.max_price
    }

    /// The total resting quantity.
    pub fn get_book_volume(&self) -> (r: i128)
        requires
            all_wf(self@.orders),
        ensures
            r == seq_volume(self@.orders),
    {
        let mut sum: i128 = 0;
        let mut i: usize = 0;
        proof {
            lemma_seq_volume_bounds(self@.orders);
        }
        while i < self.orders.len()
            invariant
                0 <= i <= self.orders.len(),
                all_wf(self@.orders),
                sum == seq_volume(self@.orders.take(i as int)),
                0 <= sum <= i * (crate::order::MAX_QTY_UNITS as int),
            decreases self.orders.len() - i,
        {
            proof {
                assert(self@.orders.take(i + 1).drop_last() =~= self@.orders.take(i as int));
                assert(self@.orders.take(i + 1).last() == self@.orders[i as int]);
                assert((i + 1) * (crate::order::MAX_QTY_UNITS as int) == i * (
                crate::order::MAX_QTY_UNITS as int) + crate::order::MAX_QTY_UNITS)
                    by (nonlinear_arith);
            }
            sum = sum + (self.orders[i].quantity as i128);
            i = i + 1;
        }
        proof {
            assert(self@.orders.take(self@.orders.len() as int) =~= self@.orders);
        }
        sum
    }

    /// The lowest `p_low` across the book, `PRICE_INF` when empty.
    pub fn get_min_plow(&self) -> (r: i64)
        ensures
            r == seq_min_plow(self@.orders),
    {
        let mut p_low: i64 = PRICE_INF;
        let mut i: usize = 0;
        while i < self.orders.len()
            invariant
                0 <= i <= self.orders.len(),
                p_low == seq_min_plow(self@.orders.take(i as int)),
            decreases self.orders.len() - i,
        {
            proof {
                assert(self@.orders.take(i + 1).drop_last() =~= self@.orders.take(i as int));
                assert(self@.orders.take(i + 1).last() == self@.orders[i as int]);
            }
            if self.orders[i].p_low < p_low {
                p_low = self.orders[i].p_low;
            }
            i = i + 1;
        }
        proof {
            assert(self@.orders.take(self@.orders.len() as int) =~= self@.orders);
        }
        p_low
    }

    /// The highest `p_high` across the book, 0 when empty.
    pub fn get_max_phigh(&self) -> (r: i64)
        ensures
            r == seq_max_phigh(self@.orders),
    {
        let mut p_high: i64 = 0;
        let mut i: usize = 0;
        while i < self.orders.len()
            invariant
                0 <= i <= self.orders.len(),
                p_high == seq_max_phigh(self@.orders.take(i as int)),
            decreases self.orders.len() - i,
        {
            proof {
                assert(self@.orders.take(i + 1).drop_last() =~= self@.orders.take(i as int));
                assert(self@.orders.take(i + 1).last() == self@.orders[i as int]);
            }
            if self.orders[i].p_high > p_high {
                p_high = self.orders[i].p_high;
            }
            i = i + 1;
        }
        proof {
            assert(self@.orders.take(self@.orders.len() as int) =~= self@.orders);
        }
        p_high
    }

    /// Refreshes the cached maximum from the tail; the book must be
    /// non-empty.
    pub fn find_new_max(&mut self)
        requires
            old(self)@.orders.len() > 0,
        ensures
            final(self)@ == (BookV { max_price: old(self)@.orders.last().price, ..old(self)@ }),
    {
        let new_max = self.orders[self.orders.len() - 1].price;
        self.max_price = new_max;
    }

    /// Recomputes the cached minimum as the least price across the
    /// book, `PRICE_INF` when empty.
    pub fn find_new_min(&mut self)
        ensures
            final(self)@ == (BookV { min_price: seq_min_price(old(self)@.orders), ..old(self)@ }),
    {
        let mut new_min: i64 = PRICE_INF;
        let mut i: usize = 0;
        while i < self.orders.len()
            invariant
                0 <= i <= self.orders.len(),
                self@ == old(self)@,
                new_min == seq_min_price(self@.orders.take(i as int)),
            decreases self.orders.len() - i,
        {
            proof {
                assert(self@.orders.take(i + 1).drop_last() =~= self@.orders.take(i as int));
                assert(self@.orders.take(i + 1).last() == self@.orders[i as int]);
            }
            if self.orders[i].price < new_min {
                new_min = self.orders[i].price;
            }
            i = i + 1;
        }
        proof {
            assert(self@.orders.take(self@.orders.len() as int) =~= self@.orders);
        }
        self.min_price = new_min;
    }

    /// A copy of the resting orders in book order.
    pub fn copy_orders(&self) -> (r: Vec<Order>)
        ensures
            r@ == self@.orders,
    {
        let mut v: Vec<Order> = Vec::new();
        let mut i: usize = 0;
        while i < self.orders.len()
            invariant
                0 <= i <= self.orders.len(),
                v@ == self@.orders.take(i as int),
            decreases self.orders.len() - i,
        {
            v.push(self.orders[i].clone());
            proof {
                assert(v@ =~= self@.orders.take(i + 1));
            }
            i = i + 1;
        }
        proof {
            assert(self@.orders.take(self@.orders.len() as int) =~= self@.orders);
        }
        v
    }

    /// Drops the caches back to the empty sentinels for the book's side.
    pub fn reset_best_price(&mut self)
        ensures
            final(self)@ == book_reset(old(self)@),
    {
        match self.book_type {
            TradeType::Bid => {
                self.min_price = PRICE_INF;
                self.max_price = 0;
            },
            TradeType::Ask => {
                self.min_price = 0;
                self.max_price = PRICE_INF;
            },
        }
    }
}

/// A sequence of bounded orders has volume between 0 and its length
/// times the quantity cap.
pub proof fn lemma_seq_volume_bounds(s: Seq<Order>)
    requires
        all_wf(s),
    ensures
        0 <= seq_volume(s) <= s.len() * (crate::order::MAX_QTY_UNITS as int),
    decreases s.len(),
{
    if s.len() > 0 {
        assert(all_wf(s.drop_last())) by {
            assert(forall|i: int| 0 <= i < s.len() - 1 ==> s.drop_last()[i] == s[i]);
        }
        lemma_seq_volume_bounds(s.drop_last());
        assert(s.len() * (crate::order::MAX_QTY_UNITS as int) == (s.len() - 1) * (
        crate::order::MAX_QTY_UNITS as int) + crate::order::MAX_QTY_UNITS) by (nonlinear_arith);
    }
}

/// Inserting a flow bid among flow bids leaves only flow bids.
pub proof fn lemma_insert_asc_flow(s: Seq<Order>, o: Order)
    requires
        all_flow_bids(s),
        o.ex_type == crate::order::ExchangeType::FlowOrder,
        o.trade_type == TradeType::Bid,
    ensures
        all_flow_bids(insert_asc(s, o)),
    decreases s.len(),
{
    if s.len() == 0 {
    } else if s.last().price <= o.price {
    } else {
        assert(all_flow_bids(s.drop_last())) by {
            assert(forall|i: int| 0 <= i < s.len() - 1 ==> s.drop_last()[i] == s[i]);
        }
        lemma_insert_asc_flow(s.drop_last(), o);
        assert(s.last() == s[s.len() - 1]);
    }
}

/// Inserting a flow ask among flow asks leaves only flow asks.
pub proof fn lemma_insert_desc_flow(s: Seq<Order>, o: Order)
    requires
        all_flow_asks(s),
        o.ex_type == crate::order::ExchangeType::FlowOrder,
        o.trade_type == TradeType::Ask,
    ensures
        all_flow_asks(insert_desc(s, o)),
    decreases s.len(),
{
    if s.len() == 0 {
    } else if s.last().price >= o.price {
    } else {
        assert(all_flow_asks(s.drop_last())) by {
            assert(forall|i: int| 0 <= i < s.len() - 1 ==> s.drop_last()[i] == s[i]);
        }
        lemma_insert_desc_flow(s.drop_last(), o);
        assert(s.last() == s[s.len() - 1]);
    }
}

/// A cancel keeps the book's side, its sort order, the field bounds of
/// its orders, and their flow markers.
pub proof fn lemma_book_cancel_props(b: BookV, id: u64)
    ensures
        book_cancel(b, id).0.book_type == b.book_type,
        sorted_asc(b.orders) ==> sorted_asc(book_cancel(b, id).0.orders),
        sorted_desc(b.orders) ==> sorted_desc(book_cancel(b, id).0.orders),
        all_wf(b.orders) ==> all_wf(book_cancel(b, id).0.orders),
        all_flow_bids(b.orders) ==> all_flow_bids(book_cancel(b, id).0.orders),
        all_flow_asks(b.orders) ==> all_flow_asks(book_cancel(b, id).0.orders),
        book_cancel(b, id).0.orders.len() <= b.orders.len(),
{
    lemma_find_id_range(b.orders, id, 0);
    let ix = find_id(b.orders, id);
    if ix >= 0 {
        let t = b.orders.remove(ix);
        assert(forall|i: int|
            0 <= i < t.len() ==> #[trigger] t[i] == if i < ix {
                b.orders[i]
            } else {
                b.orders[i + 1]
            });
    }
}

/// The descending sort keeps length and contents and yields a
/// descending, well-formed sequence.
pub proof fn lemma_sort_desc_wf(s: Seq<Order>)
    ensures
        sorted_desc(sort_desc(s)),
        sort_desc(s).len() == s.len(),
        sort_desc(s).to_multiset() == s.to_multiset(),
        all_wf(s) ==> all_wf(sort_desc(s)),
    decreases s.len(),
{
    s.to_multiset_ensures();
    if s.len() > 0 {
        assert(all_wf(s) ==> all_wf(s.drop_last()) && wf_order(s.last())) by {
            assert(forall|i: int| 0 <= i < s.len() - 1 ==> s.drop_last()[i] == s[i]);
            assert(s.last() == s[s.len() - 1]);
        }
        lemma_sort_desc_wf(s.drop_last());
        lemma_insert_desc_wf(sort_desc(s.drop_last()), s.last());
        assert(s =~= s.drop_last().push(s.last()));
        s.drop_last().to_multiset_ensures();
        assert(s.to_multiset() == s.drop_last().to_multiset().insert(s.last()));
        assert(sort_desc(s).to_multiset() =~= s.to_multiset());
    } else {
        assert(s =~= Seq::<Order>::empty());
    }
}

/// In a descending sequence the minimum price sits at the tail.
pub proof fn lemma_seq_min_price_last(s: Seq<Order>)
    requires
        sorted_desc(s),
        s.len() > 0,
    ensures
        seq_min_price(s) == s.last().price,
    decreases s.len(),
{
    if s.len() == 1 {
        assert(s.drop_last().len() == 0);
        assert(seq_min_price(s.drop_last()) == PRICE_INF);
    } else {
        assert(sorted_desc(s.drop_last())) by {
            assert(forall|i: int| 0 <= i < s.len() - 1 ==> s.drop_last()[i] == s[i]);
        }
        lemma_seq_min_price_last(s.drop_last());
        assert(s.drop_last().last() == s[s.len() - 2]);
        assert(s[s.len() - 2].price >= s[s.len() - 1].price);
        assert(s.last() == s[s.len() - 1]);
    }
}

/// After any mutation the tail order's price equals the cached best
/// price for the book's side.
pub proof fn lemma_book_best_price_cached(b: BookV)
    requires
        wf_book(b),
        b.orders.len() > 0,
    ensures
        match b.book_type {
            TradeType::Bid => b.max_price == b.orders.last().price,
            TradeType::Ask => b.min_price == b.orders.last().price,
        },
{
}

/// Cancelling twice is the same as cancelling once: the second cancel
/// finds nothing, changes nothing, and reports not-found.
pub proof fn lemma_cancel_idempotent(b: BookV, id: u64)
    requires
        forall|i: int, j: int|
            0 <= i < j < b.orders.len() ==> b.orders[i].order_id != b.orders[j].order_id,
    ensures
        book_cancel(book_cancel(b, id).0, id).0 == book_cancel(b, id).0,
        book_cancel(b, id).1 ==> !book_cancel(book_cancel(b, id).0, id).1,
{
    lemma_find_id_range(b.orders, id, 0);
    let ix = find_id(b.orders, id);
    if ix >= 0 {
        let b1 = book_cancel(b, id).0;
        assert(forall|k: int|
            0 <= k < b1.orders.len() ==> #[trigger] b1.orders[k] == if k < ix {
                b.orders[k]
            } else {
                b.orders[k + 1]
            });
        assert(forall|k: int| 0 <= k < b1.orders.len() ==> b1.orders[k].order_id != id);
        lemma_find_id_range(b1.orders, id, 0);
        assert(find_id(b1.orders, id) == -1) by {
            if find_id(b1.orders, id) != -1 {
                assert(b1.orders[find_id(b1.orders, id)].order_id == id);
            }
        }
    } else {
        assert(book_cancel(b, id).0 == b);
    }
}

/// `update` is exactly `cancel` followed by `add`, in book state and
/// best-price cache alike.
pub proof fn lemma_update_is_cancel_add(b: BookV, o: Order)
    ensures
        book_update(b, o) == book_add(book_cancel(b, o.order_id).0, o),
{
}

} // verus!
