//! Incoming orders, the trades they produce, and the reasons an order is refused.

use vstd::prelude::*;
use crate::side::Side;

verus! {

/// A request to trade: the description of one incoming order.
///
/// A price of zero marks a market order. The timestamp is logical and only
/// carried through to the trades the order produces.
#[derive(Debug)]
pub struct Order {
    pub uid: u64,
    pub created_at: u64,
    pub creator: String,
    pub quantity: u32,
    pub price: u32,
    pub side: Side,
    pub all_or_none: bool,
    pub immediate_or_cancel: bool,
}

/// One match between a resting order and an incoming one.
///
/// `from` is the seller and `to` the buyer; the price is always the resting
/// order's price.
#[derive(Debug, Clone, Copy, PartialEq, Eq, Structural)]
pub struct Trade {
    pub from: u64,
    pub to: u64,
    pub quantity: u32,
    pub price: u32,
    pub ts: u64,
}

/// Why a placement was refused. A refused order leaves the book untouched.
#[derive(Debug, Clone, Copy, PartialEq, Eq, Structural)]
pub enum OrderError {
    /// The quantity is zero, or a limit order has price zero.
    InvalidOrder,
    /// The order asks for all-or-none execution, which the engine does not offer.
    UnsupportedFlag,
    /// The book has handed out its last sequence number.
    SequenceExhausted,
}

/// The text that stands for a trade: the seller, the buyer, the quantity and
/// the price, as `describe` renders them.
pub uninterp spec fn trade_text(from: u64, to: u64, quantity: u32, price: u32) -> Seq<char>;

/// Renders the line that stands for a trade with std's `format!`, which
/// writes the four numbers in decimal: `4 -> 3: 2 @ $101`. The contract
/// claims only that the line is a function of the four numbers.
#[verifier::external_body]
fn render_trade(from: u64, to: u64, quantity: u32, price: u32) -> (r: String)
    ensures
        r@ == trade_text(from, to, quantity, price),
{
    format!("{} -> {}: {} @ ${}", from, to, quantity, price)
}

impl Trade {
    /// The trade as one line of text: seller, buyer, quantity and price.
    /// The timestamp is not part of it.
    pub fn describe(&self) -> (r: String)
        ensures
            r@ == trade_text(self.from, self.to, self.quantity, self.price),
    {
        render_trade(self.from, self.to, self.quantity, self.price)
    }
}

impl Order {
    /// A limit order with both flags cleared and timestamp zero.
    pub fn new_limit(uid: u64, creator: &str, quantity: u32, price: u32, side: Side) -> (r: Self)
        ensures
            r.uid == uid,
            r.created_at == 0,
            r.creator@ == creator@,
            r.quantity == quantity,
            r.price == price,
            r.side == side,
            !r.all_or_none,
            !r.immediate_or_cancel,
    {
        Self {
            uid,
            created_at: 0,
            creator: creator.to_owned(),
            quantity,
            price,
            side,
            all_or_none: false,
            immediate_or_cancel: false,
        }
    }

    /// A market order: a limit order whose price is zero.
    pub fn new_market(uid: u64, creator: &str, quantity: u32, side: Side) -> (r: Self)
        ensures
            r.uid == uid,
            r.created_at == 0,
            r.creator@ == creator@,
            r.quantity == quantity,
            r.price == 0,
            r.side == side,
            !r.all_or_none,
            !r.immediate_or_cancel,
    {
        Order::new_limit(uid, creator, quantity, 0, side)
    }

    /// The same order with its two execution flags replaced.
    pub fn with_flags(self, all_or_none: bool, immediate_or_cancel: bool) -> (r: Self)
        ensures
            r == (Order { all_or_none, immediate_or_cancel, ..self }),
    {
        Order { all_or_none, immediate_or_cancel, ..self }
    }

    /// The same order stamped with a logical creation time.
    pub fn with_timestamp(self, created_at: u64) -> (r: Self)
        ensures
            r == (Order { created_at, ..self }),
    {
        Order { created_at, ..self }
    }

    pub fn price(&self) -> (r: u32)
        ensures
            r == self.price,
    {
        self.price
    }

    pub fn quantity(&self) -> (r: u32)
        ensures
            r == self.quantity,
    {
        self.quantity
    }

    pub fn side(&self) -> (r: Side)
        ensures
            r == self.side,
    {
        self.side
    }

    pub fn creator(&self) -> (r: &str)
        ensures
            r@ == self.creator@,
    {
        self.creator.as_str()
    }

    pub fn all_or_none(&self) -> (r: bool)
        ensures
            r == self.all_or_none,
    {
        self.all_or_none
    }

    pub fn immediate_or_cancel(&self) -> (r: bool)
        ensures
            r == self.immediate_or_cancel,
    {
        self.immediate_or_cancel
    }

    pub fn uid(&self) -> (r: u64)
        ensures
            r == self.uid,
    {
        self.uid
    }

    pub fn created_at(&self) -> (r: u64)
        ensures
            r == self.created_at,
    {
        self.created_at
    }
}

} // verus!
