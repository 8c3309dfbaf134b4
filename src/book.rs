//! The book of resting sell orders, kept in execution priority.
use std::collections::VecDeque;

use vstd::prelude::*;

use crate::order::{precedes, precedes_or_ties, Order};

verus! {

/// `s` lists orders best first: no order is served before one ahead of it.
pub open spec fn in_priority_order(s: Seq<Order>) -> bool {
    forall|i: int, j: int| 0 <= i < j < s.len() ==> precedes_or_ties(#[trigger] s[i], #[trigger] s[j])
}

/// `post` is `pre` with `o` placed after every order that is served before it
/// and ahead of every other.
pub open spec fn inserted_in_priority(pre: Seq<Order>, o: Order, post: Seq<Order>) -> bool {
    exists|k: int|
        0 <= k <= pre.len() && post == pre.insert(k, o) && (forall|j: int|
            0 <= j < k ==> precedes(#[trigger] pre[j], o)) && (forall|j: int|
            k <= j < pre.len() ==> !precedes(#[trigger] pre[j], o))
}

/// Inserting into the book adds exactly the inserted order to what it holds.
pub proof fn lemma_insert_adds_order(pre: Seq<Order>, o: Order, post: Seq<Order>)
    requires
        inserted_in_priority(pre, o, post),
    ensures
        post.to_multiset() == pre.to_multiset().insert(o),
{
    broadcast use vstd::seq_lib::to_multiset_insert;

    let k = choose|k: int|
        0 <= k <= pre.len() && post == pre.insert(k, o) && (forall|j: int|
            0 <= j < k ==> precedes(#[trigger] pre[j], o)) && (forall|j: int|
            k <= j < pre.len() ==> !precedes(#[trigger] pre[j], o));
    assert(post.to_multiset() == pre.insert(k, o).to_multiset());
}

/// Whatever orders were inserted, the front of a book in priority order is
/// the order with the lowest `(price, id)` it holds; taking it leaves the rest
/// in priority order and holding one occurrence of it fewer, so an order held
/// once is never handed out twice.
pub proof fn lemma_extraction_takes_best(s: Seq<Order>)
    requires
        in_priority_order(s),
        s.len() > 0,
    ensures
        forall|i: int| 0 <= i < s.len() ==> precedes_or_ties(s[0], #[trigger] s[i]),
        in_priority_order(s.drop_first()),
        s.drop_first().to_multiset() == s.to_multiset().remove(s[0]),
        s.to_multiset().count(s[0]) == 1 ==> !s.drop_first().contains(s[0]),
{
    broadcast use vstd::seq_lib::to_multiset_remove;
    broadcast use vstd::seq_lib::to_multiset_contains;
    broadcast use vstd::multiset::group_multiset_axioms;

    assert forall|i: int| 0 <= i < s.len() implies precedes_or_ties(s[0], #[trigger] s[i]) by {
        if i > 0 {
            assert(precedes_or_ties(s[0], s[i]));
        }
    }
    assert(s.remove(0) =~= s.drop_first());
    assert(s.drop_first().to_multiset() == s.to_multiset().remove(s[0]));
    if s.to_multiset().count(s[0]) == 1 {
        assert(s.drop_first().to_multiset().count(s[0]) == 0);
    }
}

/// An order put back in place of the best one, with the same price and id
/// and a smaller quantity, keeps the book in priority order.
pub proof fn lemma_reinsert_keeps_order(s: Seq<Order>, remainder: Order)
    requires
        in_priority_order(s),
        s.len() > 0,
        remainder.price == s[0].price,
        remainder.id == s[0].id,
    ensures
        in_priority_order(s.update(0, remainder)),
{
    let t = s.update(0, remainder);
    assert forall|i: int, j: int| 0 <= i < j < t.len() implies precedes_or_ties(
        #[trigger] t[i],
        #[trigger] t[j],
    ) by {
        assert(precedes_or_ties(s[i], s[j]));
    }
}

/// Resting orders, best first by `(price, id)`: a lower price first, and
/// among equal prices the earlier id. The best order leaves from the front in
/// constant time; a new order's place is found by binary search.
pub struct OrderBook {
    orders: VecDeque<Order>,
}

impl View for OrderBook {
    type V = Seq<Order>;

    closed spec fn view(&self) -> Seq<Order> {
        self.orders@
    }
}

impl OrderBook {
    /// The book keeps its orders in priority order.
    pub open spec fn wf(&self) -> bool {
        in_priority_order(self@)
    }

    /// An empty book.
    pub fn new() -> (r: OrderBook)
        ensures
            r.wf(),
            r@ == Seq::<Order>::empty(),
    {
        OrderBook { orders: VecDeque::new() }
    }

    /// The number of resting orders.
    pub fn len(&self) -> (r: usize)
        ensures
            r == self@.len(),
    {
        self.orders.len()
    }

    /// Adds `order` at its place in priority order.
    pub fn push(&mut self, order: Order)
        requires
            old(self).wf(),
        ensures
            final(self).wf(),
            inserted_in_priority(old(self)@, order, final(self)@),
    {
        let ghost pre = self@;
        let mut lo: usize = 0;
        let mut hi: usize = self.orders.len();
        while lo < hi
            invariant
                self@ == pre,
                in_priority_order(pre),
                lo <= hi <= pre.len(),
                forall|j: int| 0 <= j < lo ==> precedes(#[trigger] pre[j], order),
                forall|j: int| hi <= j < pre.len() ==> !precedes(#[trigger] pre[j], order),
            decreases hi - lo,
        {
            let mid: usize = lo + (hi - lo) / 2;
            if self.orders[mid].has_priority_over(&order) {
                assert forall|j: int| 0 <= j <= mid implies precedes(#[trigger] pre[j], order) by {
                    if j < mid {
                        assert(precedes_or_ties(pre[j], pre[mid as int]));
                    }
                }
                lo = mid + 1;
            } else {
                assert forall|j: int| mid <= j < pre.len() implies !precedes(
                    #[trigger] pre[j],
                    order,
                ) by {
                    if j > mid {
                        assert(precedes_or_ties(pre[mid as int], pre[j]));
                    }
                }
                hi = mid;
            }
        }
        let k = lo;
        self.orders.insert(k, order);
        let ghost post = self@;
        assert(post == pre.insert(k as int, order));
        assert forall|i: int, j: int| 0 <= i < j < post.len() implies precedes_or_ties(
            #[trigger] post[i],
            #[trigger] post[j],
        ) by {
            if j < k {
                assert(precedes_or_ties(pre[i], pre[j]));
            } else if i < k && j == k {
                assert(precedes(pre[i], order));
            } else if i < k && j > k {
                assert(precedes_or_ties(pre[i], pre[j - 1]));
            } else if i == k {
                assert(!precedes(pre[j - 1], order));
            } else {
                assert(precedes_or_ties(pre[i - 1], pre[j - 1]));
            }
        }
    }

    /// Removes and returns the best resting order: the one with the lowest
    /// `(price, id)`; `None` when the book is empty.
    pub fn pop(&mut self) -> (r: Option<Order>)
        requires
            old(self).wf(),
        ensures
            final(self).wf(),
            old(self)@.len() == 0 ==> r is None && final(self)@ == old(self)@,
            old(self)@.len() > 0 ==> r == Some(old(self)@[0]) && final(self)@ == old(
                self,
            )@.drop_first(),
            r matches Some(best) ==> forall|i: int|
                0 <= i < old(self)@.len() ==> precedes_or_ties(best, #[trigger] old(self)@[i]),
    {
        let r = self.orders.pop_front();
        proof {
            if r is Some {
                lemma_extraction_takes_best(old(self)@);
                assert(old(self)@.subrange(1, old(self)@.len() as int) == old(self)@.drop_first());
            }
        }
        r
    }
}

} // verus!
