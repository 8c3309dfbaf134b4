//! Orders, their execution priority, and the trades made between them.
use vstd::prelude::*;

verus! {

/// The side of an order.
#[derive(Clone, Copy, Debug, PartialEq, Eq, Structural)]
pub enum OrderType {
    Buy,
    Sell,
}

/// An order for the asset: `price` is the limit (for a buy) or the asking
/// price (for a sell), in the smallest currency unit.
#[derive(Clone, Copy, Debug, PartialEq, Eq, Structural)]
pub struct Order {
    pub id: usize,
    pub order_type: OrderType,
    pub price: u32,
    pub quantity: u32,
}

/// `a` is served strictly before `b`: a lower price, or the same price and an
/// earlier id.
pub open spec fn precedes(a: Order, b: Order) -> bool {
    a.price < b.price || (a.price == b.price && a.id < b.id)
}

/// `a` is served no later than `b` by the `(price, id)` order.
pub open spec fn precedes_or_ties(a: Order, b: Order) -> bool {
    a.price < b.price || (a.price == b.price && a.id <= b.id)
}

impl Order {
    /// Whether `self` is served strictly before `other` among resting orders.
    pub fn has_priority_over(&self, other: &Order) -> (r: bool)
        ensures
            r == precedes(*self, *other),
    {
        self.price < other.price || (self.price == other.price && self.id < other.id)
    }
}

/// A record of one match between a buy order and a resting sell order.
#[derive(Clone, Copy, Debug, PartialEq, Eq, Structural)]
pub struct Trade {
    pub buy_id: usize,
    pub sell_id: usize,
    /// The execution price: always the resting sell order's price.
    pub price: u32,
    pub quantity_traded: u32,
}

/// The smaller of two quantities.
pub open spec fn min_qty(a: u32, b: u32) -> u32 {
    if a <= b {
        a
    } else {
        b
    }
}

/// The trade made when `buy` meets the resting order `sell`: at the sell
/// price, for as much as both orders still hold.
pub open spec fn trade_for(buy: Order, sell: Order) -> Trade {
    Trade {
        buy_id: buy.id,
        sell_id: sell.id,
        price: sell.price,
        quantity_traded: min_qty(buy.quantity, sell.quantity),
    }
}

/// `o` with `q` taken off its quantity.
pub open spec fn reduced(o: Order, q: u32) -> Order
    recommends
        q <= o.quantity,
{
    Order { quantity: (o.quantity - q) as u32, ..o }
}

impl Trade {
    /// The trade that `buy` makes against the resting order `sell`.
    pub fn between(buy: &Order, sell: &Order) -> (r: Trade)
        ensures
            r == trade_for(*buy, *sell),
    {
        let quantity_traded = if buy.quantity <= sell.quantity {
            buy.quantity
        } else {
            sell.quantity
        };
        Trade { buy_id: buy.id, sell_id: sell.id, price: sell.price, quantity_traded }
    }

    /// Executes the trade: both orders lose the traded quantity.
    pub fn make_trade(&self, buy_order: Order, sell_order: Order) -> (r: (Order, Order))
        requires
            self.quantity_traded <= buy_order.quantity,
            self.quantity_traded <= sell_order.quantity,
        ensures
            r.0 == reduced(buy_order, self.quantity_traded),
            r.1 == reduced(sell_order, self.quantity_traded),
    {
        let mut buy_order = buy_order;
        let mut sell_order = sell_order;
        buy_order.quantity = buy_order.quantity - self.quantity_traded;
        sell_order.quantity = sell_order.quantity - self.quantity_traded;
        (buy_order, sell_order)
    }
}

/// One match step conserves quantity: the buy and the resting sell each lose
/// exactly the traded quantity, which is the smaller of what the two held.
pub proof fn lemma_match_step_conserves_quantity(buy: Order, sell: Order)
    ensures
        ({
            let t = trade_for(buy, sell);
            let b = reduced(buy, t.quantity_traded);
            let s = reduced(sell, t.quantity_traded);
            &&& buy.quantity - b.quantity == t.quantity_traded
            &&& sell.quantity - s.quantity == t.quantity_traded
            &&& t.quantity_traded as int == if buy.quantity <= sell.quantity {
                buy.quantity as int
            } else {
                sell.quantity as int
            }
        }),
{
}

} // verus!
