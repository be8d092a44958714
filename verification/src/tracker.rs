//! Resting orders and the priority in which one side of the book holds them.

use vstd::prelude::*;
use crate::order::Order;
use crate::side::Side;

verus! {

/// An order waiting in the book: what is left of it, and the sequence number
/// it was given when it started to rest.
#[derive(Debug, Clone, Copy, PartialEq, Eq, Structural)]
pub struct OrderTracker {
    pub uid: u64,
    pub sequence: u64,
    pub quantity: u32,
    pub price: u32,
    pub side: Side,
}

/// Whether price `a` is strictly better than price `b` on `side`: higher for
/// bids, lower for asks.
pub open spec fn better_price(side: Side, a: u32, b: u32) -> bool {
    match side {
        Side::Buy => a > b,
        Side::Sell => a < b,
    }
}

/// `t` with another quantity.
pub open spec fn with_quantity(t: OrderTracker, quantity: u32) -> OrderTracker {
    OrderTracker { quantity, ..t }
}

impl OrderTracker {
    /// Matching priority: a better price first, then the lower sequence number.
    pub open spec fn precedes(self, other: Self) -> bool {
        better_price(self.side, self.price, other.price) || (self.price == other.price
            && self.sequence < other.sequence)
    }

    /// Whether two resting orders occupy the same place in the priority order.
    pub open spec fn same_key(self, other: Self) -> bool {
        self.price == other.price && self.sequence == other.sequence
    }

    /// The resting order that an incoming order becomes, under the given
    /// sequence number.
    pub fn from_order(ord: &Order, sequence: u64) -> (r: Self)
        ensures
            r == (OrderTracker {
                uid: ord.uid,
                sequence,
                quantity: ord.quantity,
                price: ord.price,
                side: ord.side,
            }),
    {
        Self {
            uid: ord.uid(),
            sequence,
            quantity: ord.quantity(),
            side: ord.side(),
            price: ord.price(),
        }
    }

    /// The two probes that enclose one price level of one side: every resting
    /// order at that price lies at or after the first and at or before the second.
    pub fn into_bounds(price: u32, side: Side) -> (r: (Self, Self))
        ensures
            r.0 == (OrderTracker { uid: 0, sequence: 0, quantity: 0, price, side }),
            r.1 == (OrderTracker { uid: 0, sequence: u64::MAX, quantity: 0, price, side }),
    {
        let first = Self { uid: 0, price, sequence: 0, quantity: 0, side };
        let second = Self { uid: 0, price, sequence: u64::MAX, quantity: 0, side };
        (first, second)
    }

    /// Takes `amount` off what is left of the order.
    pub fn reduce_quantity(&mut self, amount: u32)
        requires
            amount <= old(self).quantity,
        ensures
            *final(self) == with_quantity(*old(self), (old(self).quantity - amount) as u32),
    {
        self.quantity = self.quantity - amount;
    }

    /// Decides matching priority between two resting orders of one side.
    pub fn comes_before(&self, other: &Self) -> (r: bool)
        requires
            self.side == other.side,
        ensures
            r == self.precedes(*other),
    {
        if self.price == other.price {
            return self.sequence < other.sequence;
        }
        match self.side {
            Side::Buy => self.price > other.price,
            Side::Sell => self.price < other.price,
        }
    }
}

/// Priority is a strict total order on the resting orders of one side:
/// nothing precedes itself, precedence is transitive, and of two orders with
/// different keys exactly one precedes the other.
pub proof fn lemma_precedes_is_strict_total_order(a: OrderTracker, b: OrderTracker, c: OrderTracker)
    requires
        a.side == b.side,
        b.side == c.side,
    ensures
        !a.precedes(a),
        a.precedes(b) && b.precedes(c) ==> a.precedes(c),
        a.precedes(b) ==> !b.precedes(a),
        a.precedes(b) || b.precedes(a) || a.same_key(b),
        a.same_key(b) ==> !a.precedes(b) && !b.precedes(a),
{
}

/// The probes of a price level enclose exactly that level: an order of the
/// same side lies between them if and only if it rests at that price.
pub proof fn lemma_bounds_enclose_level(price: u32, side: Side, t: OrderTracker)
    requires
        t.side == side,
    ensures
        ({
            let lo = OrderTracker { uid: 0, sequence: 0, quantity: 0, price, side };
            let hi = OrderTracker { uid: 0, sequence: u64::MAX, quantity: 0, price, side };
            t.price == price <==> !t.precedes(lo) && !hi.precedes(t)
        }),
{
}

} // verus!
