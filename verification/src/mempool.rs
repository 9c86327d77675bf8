//! The mempool: a FIFO of pending orders.  Orders are appended on
//! arrival; once per block the pool is stably sorted by descending gas
//! and drained from the front, so the drained slice is the canonical
//! block ordering: highest gas first, ties broken by arrival order.

use crate::book::all_wf;
use crate::order::{wf_order, Order};
use vstd::prelude::*;

verus! {

/// Where a new order lands when sorting by gas: scanning from the
/// tail, it is placed after every element with gas at least its own,
/// so arrival order breaks gas ties.
pub open spec fn insert_gas_desc(s: Seq<Order>, o: Order) -> Seq<Order>
    decreases s.len(),
{
    if s.len() == 0 {
        seq![o]
    } else if s.last().gas >= o.gas {
        s.push(o)
    } else {
        insert_gas_desc(s.drop_last(), o).push(s.last())
    }
}

/// The stable descending sort of a sequence by gas.
pub open spec fn sort_gas_desc(s: Seq<Order>) -> Seq<Order>
    decreases s.len(),
{
    if s.len() == 0 {
        Seq::empty()
    } else {
        insert_gas_desc(sort_gas_desc(s.drop_last()), s.last())
    }
}

/// Gas never increases along the sequence.
pub open spec fn sorted_gas_desc(s: Seq<Order>) -> bool {
    forall|i: int, j: int| 0 <= i < j < s.len() ==> s[i].gas >= s[j].gas
}

/// `insert_gas_desc` splices the order in at the position the exec
/// search finds: after every element with gas at least the new one.
proof fn lemma_insert_gas_desc_at(s: Seq<Order>, o: Order, pos: int)
    requires
        0 <= pos <= s.len(),
        pos == 0 || s[pos - 1].gas >= o.gas,
        forall|k: int| pos <= k < s.len() ==> s[k].gas < o.gas,
    ensures
        insert_gas_desc(s, o) =~= s.take(pos) + seq![o] + s.skip(pos),
    decreases s.len(),
{
    if s.len() == 0 {
    } else if s.last().gas >= o.gas {
        assert(pos == s.len());
    } else {
        assert(pos < s.len());
        lemma_insert_gas_desc_at(s.drop_last(), o, pos);
        assert(s.drop_last().take(pos) =~= s.take(pos));
        assert(s.drop_last().skip(pos) =~= s.skip(pos).drop_last());
    }
}

/// Inserting keeps the sequence sorted by descending gas, keeps every
/// order well-formed, and adds exactly the new order to the contents.
pub proof fn lemma_insert_gas_desc_wf(s: Seq<Order>, o: Order)
    requires
        sorted_gas_desc(s),
    ensures
        sorted_gas_desc(insert_gas_desc(s, o)),
        all_wf(s) && wf_order(o) ==> all_wf(insert_gas_desc(s, o)),
        insert_gas_desc(s, o).len() == s.len() + 1,
        insert_gas_desc(s, o).to_multiset() == s.to_multiset().insert(o),
    decreases s.len(),
{
    s.to_multiset_ensures();
    if s.len() == 0 {
        assert(s =~= Seq::<Order>::empty());
        assert(insert_gas_desc(s, o) =~= s.push(o));
    } else if s.last().gas >= o.gas {
    } else {
        lemma_insert_gas_desc_wf(s.drop_last(), o);
        s.drop_last().to_multiset_ensures();
        let t = insert_gas_desc(s.drop_last(), o);
        t.to_multiset_ensures();
        assert forall|i: int| 0 <= i < t.len() implies t[i].gas >= s.last().gas by {
            assert(t.contains(t[i]));
            assert(t.to_multiset().count(t[i]) > 0);
            assert(t.to_multiset() == s.drop_last().to_multiset().insert(o));
            if t[i] != o {
                assert(s.drop_last().to_multiset().count(t[i]) > 0);
                assert(s.drop_last().contains(t[i]));
                let j = choose|j: int|
                    0 <= j < s.drop_last().len() && s.drop_last()[j] == t[i];
                assert(s[j].gas >= s.last().gas);
            }
        }
        assert(sorted_gas_desc(t.push(s.last())));
        assert(s =~= s.drop_last().push(s.last()));
        assert(s.to_multiset() == s.drop_last().to_multiset().insert(s.last()));
        assert(t.push(s.last()).to_multiset() == t.to_multiset().insert(s.last()));
        assert(t.push(s.last()).to_multiset() =~= s.to_multiset().insert(o));
    }
}

/// After `sort_by_gas` the sequence is monotone non-increasing in gas
/// and holds exactly the same orders.
pub proof fn lemma_sort_by_gas_sorted(s: Seq<Order>)
    ensures
        sorted_gas_desc(sort_gas_desc(s)),
        sort_gas_desc(s).len() == s.len(),
        sort_gas_desc(s).to_multiset() == s.to_multiset(),
        all_wf(s) ==> all_wf(sort_gas_desc(s)),
    decreases s.len(),
{
    s.to_multiset_ensures();
    if s.len() > 0 {
        assert(all_wf(s) ==> all_wf(s.drop_last()) && wf_order(s.last())) by {
            assert(forall|i: int| 0 <= i < s.len() - 1 ==> s.drop_last()[i] == s[i]);
            assert(s.last() == s[s.len() - 1]);
        }
        lemma_sort_by_gas_sorted(s.drop_last());
        lemma_insert_gas_desc_wf(sort_gas_desc(s.drop_last()), s.last());
        assert(s =~= s.drop_last().push(s.last()));
        s.drop_last().to_multiset_ensures();
        assert(s.to_multiset() == s.drop_last().to_multiset().insert(s.last()));
        assert(sort_gas_desc(s).to_multiset() =~= s.to_multiset());
    } else {
        assert(s =~= Seq::<Order>::empty());
    }
}

/// Gas ties are broken by arrival order: for any gas value, the orders
/// carrying it appear in the sorted sequence exactly as they arrived.
pub proof fn lemma_sort_by_gas_stable(s: Seq<Order>, g: i64)
    ensures
        sort_gas_desc(s).filter(|o: Order| o.gas == g) == s.filter(|o: Order| o.gas == g),
    decreases s.len(),
{
    reveal(Seq::filter);
    let pred = |o: Order| o.gas == g;
    if s.len() > 0 {
        lemma_sort_by_gas_stable(s.drop_last(), g);
        lemma_insert_filter(sort_gas_desc(s.drop_last()), s.last(), g);
    }
}

/// Inserting an order moves it past elements of different gas only, so
/// the filtered subsequence for any gas value grows at its arrival end.
proof fn lemma_insert_filter(s: Seq<Order>, o: Order, g: i64)
    ensures
        insert_gas_desc(s, o).filter(|x: Order| x.gas == g) == if o.gas == g {
            s.filter(|x: Order| x.gas == g).push(o)
        } else {
            s.filter(|x: Order| x.gas == g)
        },
    decreases s.len(),
{
    reveal(Seq::filter);
    let pred = |x: Order| x.gas == g;
    if s.len() == 0 {
        assert(insert_gas_desc(s, o) =~= s.push(o));
        assert(s.push(o).drop_last() =~= s);
    } else if s.last().gas >= o.gas {
        assert(s.push(o).drop_last() =~= s);
    } else {
        lemma_insert_filter(s.drop_last(), o, g);
        let t = insert_gas_desc(s.drop_last(), o);
        assert(t.push(s.last()).drop_last() =~= t);
        assert(s =~= s.drop_last().push(s.last()));
        assert(s.drop_last().push(s.last()).drop_last() =~= s.drop_last());
        if o.gas == g {
            assert(!pred(s.last()));
            assert(t.push(s.last()).filter(pred) == t.filter(pred));
            assert(s.filter(pred) == s.drop_last().filter(pred));
        } else {
            if pred(s.last()) {
                assert(t.push(s.last()).filter(pred) == t.filter(pred).push(s.last()));
                assert(s.filter(pred) == s.drop_last().filter(pred).push(s.last()));
            }
        }
    }
}

/// A threadsafe-in-spirit FIFO queue storing unprocessed orders
/// arriving from players; exclusive access stands in for the lock.
pub struct MemPool {
    pub items: Vec<Order>,
}

impl MemPool {
    /// An empty pool.
    pub fn new() -> (r: MemPool)
        ensures
            r.items@.len() == 0,
    {
        MemPool { items: Vec::new() }
    }

    /// New orders are pushed to the end of the pool.
    pub fn add(&mut self, order: Order)
        ensures
            final(self).items@ == old(self).items@.push(order),
    {
        self.items.push(order);
    }

    /// Removes and returns the last order, if any.
    pub fn pop(&mut self) -> (r: Option<Order>)
        ensures
            old(self).items@.len() == 0 ==> r is None && final(self).items@ == old(self).items@,
            old(self).items@.len() > 0 ==> r == Some(old(self).items@.last())
                && final(self).items@ == old(self).items@.drop_last(),
    {
        self.items.pop()
    }

    /// Stably sorts the pool in descending gas order.
    pub fn sort_by_gas(&mut self)
        ensures
            final(self).items@ == sort_gas_desc(old(self).items@),
            sorted_gas_desc(final(self).items@),
            all_wf(old(self).items@) ==> all_wf(final(self).items@),
    {
        proof {
            lemma_sort_by_gas_sorted(self.items@);
        }
        let ghost input = self.items@;
        let mut out: Vec<Order> = Vec::new();
        let mut i: usize = 0;
        while i < self.items.len()
            invariant
                0 <= i <= self.items.len(),
                self.items@ == input,
                out@ == sort_gas_desc(input.take(i as int)),
            decreases self.items.len() - i,
        {
            let o = self.items[i].clone();
            let ghost before = out@;
            let mut pos: usize = out.len();
            while pos > 0 && out[pos - 1].gas < o.gas
                invariant
                    0 <= pos <= out.len(),
                    out@ == before,
                    forall|k: int| pos <= k < before.len() ==> before[k].gas < o.gas,
                decreases pos,
            {
                pos = pos - 1;
            }
            proof {
                lemma_insert_gas_desc_at(before, o, pos as int);
            }
            out.insert(pos, o);
            proof {
                assert(out@ =~= insert_gas_desc(before, o));
                assert(input.take(i + 1).drop_last() =~= input.take(i as int));
                assert(input.take(i + 1).last() == input[i as int]);
            }
            i = i + 1;
        }
        proof {
            assert(input.take(input.len() as int) =~= input);
        }
        self.items = out;
    }

    /// Empties the pool, returning the orders first-arriving first.
    pub fn pop_all(&mut self) -> (r: Vec<Order>)
        ensures
            r@ == old(self).items@,
            final(self).items@.len() == 0,
    {
        let rest = self.items.split_off(0);
        proof {
            assert(old(self).items@.subrange(0, old(self).items@.len() as int) =~= old(
                self,
            ).items@);
        }
        rest
    }

    /// Removes and returns the first `n` orders in arrival order.
    pub fn pop_n(&mut self, n: usize) -> (r: Vec<Order>)
        requires
            n <= old(self).items@.len(),
        ensures
            r@ == old(self).items@.take(n as int),
            final(self).items@ == old(self).items@.skip(n as int),
    {
        let rest = self.items.split_off(n);
        let mut head = rest;
        core::mem::swap(&mut self.items, &mut head);
        head
    }

    /// The number of pending orders.
    pub fn length(&self) -> (r: usize)
        ensures
            r == self.items@.len(),
    {
        self.items.len()
    }
}

} // verus!
