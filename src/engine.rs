//! The matching engine: sell orders rest in the book, buy orders are matched
//! against the best resting sells until filled, blocked by price, or the book
//! runs dry.
use vstd::prelude::*;

use crate::book::{in_priority_order, inserted_in_priority, OrderBook};
use crate::order::{precedes, precedes_or_ties, reduced, trade_for, Order, OrderType, Trade};

verus! {

/// How the matching of one buy order ended.
#[derive(Clone, Copy, Debug, PartialEq, Eq, Structural)]
pub enum MatchOutcome {
    /// The whole quantity was bought.
    Filled,
    /// The book ran out of sell orders with quantity still to buy.
    BookExhausted { remaining_quantity: u32 },
    /// The best resting sell asks more than the buy's limit.
    PriceNotMet { remaining_quantity: u32 },
}

/// An order that the engine does not take.
#[derive(Clone, Copy, Debug, PartialEq, Eq, Structural)]
pub enum SubmitError {
    /// A buy order handed in as a sell, or the other way round.
    WrongSide,
    /// An order for nothing.
    ZeroQuantity,
}

/// The trades that a buy order made, in the order they were made, and how its
/// matching ended.
#[derive(Debug)]
pub struct MatchReport {
    pub trades: Vec<Trade>,
    pub outcome: MatchOutcome,
}

/// Matching `buy` against the book `book` (best first): the trades made, the
/// outcome, and the book afterwards. The best sell is taken; if it asks more
/// than the limit it stays and matching stops. Otherwise they trade at the
/// sell's price for the smaller quantity; a sell with quantity left keeps its
/// place, a buy with quantity left goes on to the next sell.
pub open spec fn match_buy(book: Seq<Order>, buy: Order) -> (Seq<Trade>, MatchOutcome, Seq<Order>)
    decreases book.len(),
{
    if book.len() == 0 {
        let outcome = if buy.quantity > 0 {
            MatchOutcome::BookExhausted { remaining_quantity: buy.quantity }
        } else {
            MatchOutcome::Filled
        };
        (seq![], outcome, book)
    } else {
        let best = book[0];
        if best.price > buy.price {
            (seq![], MatchOutcome::PriceNotMet { remaining_quantity: buy.quantity }, book)
        } else {
            let t = trade_for(buy, best);
            let b = reduced(buy, t.quantity_traded);
            let s = reduced(best, t.quantity_traded);
            if s.quantity > 0 {
                (seq![t], MatchOutcome::Filled, book.update(0, s))
            } else if b.quantity == 0 {
                (seq![t], MatchOutcome::Filled, book.drop_first())
            } else {
                let m = match_buy(book.drop_first(), b);
                (seq![t] + m.0, m.1, m.2)
            }
        }
    }
}

/// An order that the book serves no later than every order in `pre` is
/// placed at its front.
proof fn lemma_insert_at_front(pre: Seq<Order>, o: Order, post: Seq<Order>)
    requires
        inserted_in_priority(pre, o, post),
        forall|j: int| 0 <= j < pre.len() ==> precedes_or_ties(o, #[trigger] pre[j]),
    ensures
        post == pre.insert(0, o),
{
    let k = choose|k: int|
        0 <= k <= pre.len() && post == pre.insert(k, o) && (forall|j: int|
            0 <= j < k ==> precedes(#[trigger] pre[j], o)) && (forall|j: int|
            k <= j < pre.len() ==> !precedes(#[trigger] pre[j], o));
    if k > 0 {
        assert(precedes(pre[0], o));
        assert(precedes_or_ties(o, pre[0]));
    }
}

/// A buy whose limit is below every resting price trades nothing, ends with
/// its whole quantity unmet, and leaves the book as it was.
pub proof fn lemma_limit_below_book(book: Seq<Order>, buy: Order)
    requires
        in_priority_order(book),
        book.len() > 0,
        forall|j: int| 0 <= j < book.len() ==> buy.price < (#[trigger] book[j]).price,
    ensures
        match_buy(book, buy) == (
            Seq::<Trade>::empty(),
            MatchOutcome::PriceNotMet { remaining_quantity: buy.quantity },
            book,
        ),
{
    assert(buy.price < book[0].price);
}

/// Owns the book of resting sell orders and matches incoming orders against
/// it.
pub struct MatchingEngine {
    book: OrderBook,
}

impl View for MatchingEngine {
    type V = Seq<Order>;

    /// The resting sell orders, best first.
    closed spec fn view(&self) -> Seq<Order> {
        self.book@
    }
}

impl MatchingEngine {
    /// The resting orders are kept in priority order.
    pub open spec fn wf(&self) -> bool {
        in_priority_order(self@)
    }

    /// An engine with an empty book.
    pub fn new() -> (r: MatchingEngine)
        ensures
            r.wf(),
            r@ == Seq::<Order>::empty(),
    {
        MatchingEngine { book: OrderBook::new() }
    }

    /// Places a sell order in the book; a buy order or an order for nothing
    /// is refused and the book left as it was.
    pub fn submit_sell(&mut self, order: Order) -> (r: Result<(), SubmitError>)
        requires
            old(self).wf(),
        ensures
            final(self).wf(),
            order.order_type != OrderType::Sell ==> r == Err::<(), SubmitError>(
                SubmitError::WrongSide,
            ) && final(self)@ == old(self)@,
            order.order_type == OrderType::Sell && order.quantity == 0 ==> r == Err::<
                (),
                SubmitError,
            >(SubmitError::ZeroQuantity) && final(self)@ == old(self)@,
            order.order_type == OrderType::Sell && order.quantity > 0 ==> r == Ok::<
                (),
                SubmitError,
            >(()) && inserted_in_priority(old(self)@, order, final(self)@),
    {
        if order.order_type != OrderType::Sell {
            return Err(SubmitError::WrongSide);
        }
        if order.quantity == 0 {
            return Err(SubmitError::ZeroQuantity);
        }
        self.book.push(order);
        Ok(())
    }

    /// Matches a buy order against the book, as `match_buy` describes; a
    /// sell order or an order for nothing is refused and the book left as it
    /// was.
    pub fn submit_buy(&mut self, order: Order) -> (r: Result<MatchReport, SubmitError>)
        requires
            old(self).wf(),
        ensures
            final(self).wf(),
            order.order_type != OrderType::Buy ==> r is Err && r->Err_0 == SubmitError::WrongSide
                && final(self)@ == old(self)@,
            order.order_type == OrderType::Buy && order.quantity == 0 ==> r is Err && r->Err_0
                == SubmitError::ZeroQuantity && final(self)@ == old(self)@,
            order.order_type == OrderType::Buy && order.quantity > 0 ==> r is Ok && r->Ok_0.trades@
                == match_buy(old(self)@, order).0 && r->Ok_0.outcome == match_buy(
                old(self)@,
                order,
            ).1 && final(self)@ == match_buy(old(self)@, order).2,
    {
        if order.order_type != OrderType::Buy {
            return Err(SubmitError::WrongSide);
        }
        if order.quantity == 0 {
            return Err(SubmitError::ZeroQuantity);
        }
        let ghost goal = match_buy(self@, order);
        let mut buy = order;
        let mut trades: Vec<Trade> = Vec::new();
        loop
            invariant
                self.wf(),
                order.order_type == OrderType::Buy,
                order.quantity > 0,
                goal == match_buy(old(self)@, order),
                buy.quantity > 0,
                trades@ + match_buy(self@, buy).0 == goal.0,
                match_buy(self@, buy).1 == goal.1,
                match_buy(self@, buy).2 == goal.2,
            decreases self@.len(),
        {
            let ghost pre = self@;
            match self.book.pop() {
                None => {
                    assert(trades@ + seq![] =~= trades@);
                    let outcome = MatchOutcome::BookExhausted { remaining_quantity: buy.quantity };
                    return Ok(MatchReport { trades, outcome });
                },
                Some(best) => {
                    let ghost rest = self@;
                    if best.price > buy.price {
                        self.book.push(best);
                        proof {
                            lemma_insert_at_front(rest, best, self@);
                            assert(self@ =~= pre);
                        }
                        assert(trades@ + seq![] =~= trades@);
                        let outcome = MatchOutcome::PriceNotMet { remaining_quantity: buy.quantity };
                        return Ok(MatchReport { trades, outcome });
                    }
                    let trade = Trade::between(&buy, &best);
                    let (b, s) = trade.make_trade(buy, best);
                    let ghost before = trades@;
                    trades.push(trade);
                    if s.quantity > 0 {
                        self.book.push(s);
                        proof {
                            lemma_insert_at_front(rest, s, self@);
                            assert(self@ =~= pre.update(0, s));
                        }
                    }
                    if b.quantity == 0 {
                        assert(trades@ + seq![] =~= before + seq![trade]);
                        return Ok(MatchReport { trades, outcome: MatchOutcome::Filled });
                    }
                    assert(before + (seq![trade] + match_buy(self@, b).0) =~= trades@ + match_buy(
                        self@,
                        b,
                    ).0);
                    buy = b;
                },
            }
        }
    }

    /// Hands over the book of resting orders.
    pub fn into_book(self) -> (r: OrderBook)
        ensures
            r.wf() == self.wf(),
            r@ == self@,
    {
        self.book
    }
}

} // verus!
