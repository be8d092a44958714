//! The single writer: requests in the order they arrive, each applied to the
//! book in one step and answered with what it did; and the messages that
//! clients send and are sent, as plain values.

use std::collections::HashMap;
use vstd::prelude::*;
use crate::book::{
    after_cancel, after_limit, after_market, best_of, book_wf, cancelled, limit_rejection,
    limit_sweep, market_rejection, market_sweep, Book, BookView,
};
use crate::chain::{depth_map, BBO};
use crate::order::{Order, OrderError};
use crate::side::Side;
use crate::tracker::OrderTracker;

verus! {

/// What a client may ask of the engine.
#[derive(Debug)]
pub enum Request {
    /// Place an order; a price of zero makes it a market order.
    Place(Order),
    /// Cancel the order of `side` at `price` under `uid`.
    Cancel { side: Side, price: u32, uid: u64 },
}

/// What the engine did with a request.
#[derive(Debug)]
pub enum Outcome {
    /// The order was accepted, and these are its trades, in match order.
    Placed(Vec<crate::order::Trade>),
    /// The order was refused, and the book is as it was.
    Rejected(OrderError),
    /// This order was taken off the book.
    Cancelled(OrderTracker),
    /// There was nothing to cancel, and the book is as it was.
    NotFound,
}

/// The depth of both sides, taken from one state of the book.
#[derive(Debug)]
pub struct DepthSnapshot {
    pub bids: HashMap<u32, u128>,
    pub asks: HashMap<u32, u128>,
}

/// The engine of one instrument. Whoever holds it applies one request at a
/// time, so the requests are applied in one order, and every trade and every
/// snapshot comes from a state of the book between two requests.
pub struct Sequencer {
    book: Book,
}

/// The book after a request.
pub open spec fn after_request(v: BookView, req: Request) -> BookView {
    match req {
        Request::Place(ord) => if ord.price == 0 {
            if market_rejection(ord) is None {
                after_market(v, ord)
            } else {
                v
            }
        } else {
            if limit_rejection(v, ord) is None {
                after_limit(v, ord)
            } else {
                v
            }
        },
        Request::Cancel { side, price, uid } => after_cancel(v, side, price, uid),
    }
}

/// Whether `out` is the answer that a request is owed on the book `v`.
pub open spec fn answers(out: Outcome, v: BookView, req: Request) -> bool {
    match req {
        Request::Place(ord) => if ord.price == 0 {
            match market_rejection(ord) {
                Some(e) => out == Outcome::Rejected(e),
                None => out matches Outcome::Placed(trades) && trades@ == market_sweep(v, ord).trades,
            }
        } else {
            match limit_rejection(v, ord) {
                Some(e) => out == Outcome::Rejected(e),
                None => out matches Outcome::Placed(trades) && trades@ == limit_sweep(v, ord).trades,
            }
        },
        Request::Cancel { side, price, uid } => match cancelled(v, side, price, uid) {
            Some(t) => out == Outcome::Cancelled(t),
            None => out == Outcome::NotFound,
        },
    }
}

/// What a client sends.
#[derive(Debug)]
pub enum ClientMsg {
    /// Place an order of `size` units at `price_cents`; zero is a market
    /// order. `buy` tells the side.
    Order { size: u32, price_cents: u32, buy: bool },
    /// Cancel the sender's order at `price_cents` on the side `buy` tells.
    Cancel { price_cents: u32, buy: bool },
}

/// A trade as the market is told of it: the price and the quantity, and not
/// who traded.
#[derive(Debug, Clone, Copy, PartialEq, Eq, Structural)]
pub struct Trade {
    pub price_cents: u32,
    pub quantity: u32,
}

/// What clients are sent.
#[derive(Debug)]
pub enum ServerMsg {
    /// To one client, when it connects: the name it trades under.
    SetUsername(String),
    /// To all: the trades that one placement made, in match order.
    Trades(Vec<Trade>),
    /// To all, from time to time: the depth of both sides.
    DepthsBook { bids: HashMap<u32, u128>, asks: HashMap<u32, u128> },
}

/// What the market is told of a trade.
pub open spec fn reported(t: crate::order::Trade) -> Trade {
    Trade { price_cents: t.price, quantity: t.quantity }
}

/// The request that a client's message makes, for the client with the given
/// uid and name, at the logical time `now`.
pub open spec fn request_for(uid: u64, username: Seq<char>, msg: ClientMsg, now: u64, req: Request) -> bool {
    match msg {
        ClientMsg::Order { size, price_cents, buy } => req matches Request::Place(ord) && ord.uid == uid
            && ord.created_at == now && ord.creator@ == username && ord.quantity == size && ord.price
            == price_cents && ord.side == (if buy {
            Side::Buy
        } else {
            Side::Sell
        }) && !ord.all_or_none && !ord.immediate_or_cancel,
        ClientMsg::Cancel { price_cents, buy } => req == (Request::Cancel {
            side: if buy {
                Side::Buy
            } else {
                Side::Sell
            },
            price: price_cents,
            uid,
        }),
    }
}

/// The order that the fields of a client's message describe: a buy where
/// `buy` is set and a sell where it is not, with both flags cleared.
pub fn order_from_message(uid: u64, creator: &str, size: u32, price_cents: u32, buy: bool) -> (r: Order)
    ensures
        r.uid == uid,
        r.created_at == 0,
        r.creator@ == creator@,
        r.quantity == size,
        r.price == price_cents,
        r.side == (if buy {
            Side::Buy
        } else {
            Side::Sell
        }),
        !r.all_or_none,
        !r.immediate_or_cancel,
{
    Order::new_limit(uid, creator, size, price_cents, Side::from_is_buy(buy))
}

/// Turns a client's message into the request it makes of the engine.
pub fn request_from_message(uid: u64, username: &str, msg: &ClientMsg, now: u64) -> (r: Request)
    ensures
        request_for(uid, username@, *msg, now, r),
{
    match msg {
        ClientMsg::Order { size, price_cents, buy } => Request::Place(
            order_from_message(uid, username, *size, *price_cents, *buy).with_timestamp(now),
        ),
        ClientMsg::Cancel { price_cents, buy } => Request::Cancel {
            side: Side::from_is_buy(*buy),
            price: *price_cents,
            uid,
        },
    }
}

/// What the market is told of a run of trades: each of them, in order,
/// without the names.
pub fn report(trades: &Vec<crate::order::Trade>) -> (r: Vec<Trade>)
    ensures
        r@.len() == trades@.len(),
        forall|i: int| 0 <= i < trades@.len() ==> #[trigger] r@[i] == reported(trades@[i]),
{
    let mut out: Vec<Trade> = Vec::new();
    let mut i: usize = 0;
    while i < trades.len()
        invariant
            i <= trades@.len(),
            out@.len() == i,
            forall|k: int| 0 <= k < i ==> #[trigger] out@[k] == reported(trades@[k]),
        decreases trades@.len() - i,
    {
        out.push(Trade { price_cents: trades[i].price, quantity: trades[i].quantity });
        i = i + 1;
    }
    out
}

/// Whether `msg` is what all clients are to be told of an outcome: the
/// trades of a placement that traded, and nothing of anything else.
pub open spec fn announces(msg: Option<ServerMsg>, out: Outcome) -> bool {
    match out {
        Outcome::Placed(trades) => if trades@.len() > 0 {
            msg matches Some(ServerMsg::Trades(told)) && told@.len() == trades@.len() && forall|i: int|
                0 <= i < trades@.len() ==> #[trigger] told@[i] == reported(trades@[i])
        } else {
            msg is None
        },
        _ => msg is None,
    }
}

/// What all clients are to be told of an outcome.
pub fn announcement(out: &Outcome) -> (r: Option<ServerMsg>)
    ensures
        announces(r, *out),
{
    match out {
        Outcome::Placed(trades) => {
            if trades.len() > 0 {
                Some(ServerMsg::Trades(report(trades)))
            } else {
                None
            }
        },
        _ => None,
    }
}

impl View for Sequencer {
    type V = BookView;

    closed spec fn view(&self) -> BookView {
        self.book@
    }
}

impl Sequencer {
    /// The engine's invariant: its book keeps the book's.
    pub closed spec fn wf(&self) -> bool {
        self.book.wf()
    }

    /// What the invariant says of the book as the contracts see it.
    pub proof fn lemma_wf_view(&self)
        requires
            self.wf(),
        ensures
            book_wf(self@),
    {
    }

    /// An engine with an empty book.
    pub fn new() -> (r: Self)
        ensures
            r.wf(),
            r@ == (BookView { bids: Seq::empty(), asks: Seq::empty(), next_sequence: 0 }),
    {
        Self { book: Book::new() }
    }

    /// Applies one request to the book and answers it. A placement with
    /// price zero goes to the book as a market order, any other as a limit
    /// order; a refused placement and a cancellation that finds nothing
    /// leave the book as it was.
    pub fn submit(&mut self, req: &Request) -> (r: Outcome)
        requires
            old(self).wf(),
        ensures
            final(self).wf(),
            final(self)@ == after_request(old(self)@, *req),
            answers(r, old(self)@, *req),
    {
        match req {
            Request::Place(ord) => {
                let placed = if ord.price() == 0 {
                    self.book.place_market(ord)
                } else {
                    self.book.place_limit(ord)
                };
                match placed {
                    Ok(trades) => Outcome::Placed(trades),
                    Err(e) => Outcome::Rejected(e),
                }
            },
            Request::Cancel { side, price, uid } => {
                match self.book.cancel_order(*side, *price, *uid) {
                    Some(t) => Outcome::Cancelled(t),
                    None => Outcome::NotFound,
                }
            },
        }
    }

    /// The top of the bid side and of the ask side, from one state of the book.
    pub fn bbo(&self) -> (r: (Option<BBO>, Option<BBO>))
        requires
            self.wf(),
        ensures
            r.0 == best_of(self@.bids),
            r.1 == best_of(self@.asks),
    {
        self.book.bbo()
    }

    /// The message that tells all clients the depth of both sides, from one
    /// state of the book.
    pub fn depth_message(&self) -> (r: ServerMsg)
        requires
            self.wf(),
        ensures
            r matches ServerMsg::DepthsBook { bids, asks } && bids@ == depth_map(self@.bids) && asks@
                == depth_map(self@.asks),
    {
        let DepthSnapshot { bids, asks } = self.depths();
        ServerMsg::DepthsBook { bids, asks }
    }

    /// The depth of both sides, from one state of the book.
    pub fn depths(&self) -> (r: DepthSnapshot)
        requires
            self.wf(),
        ensures
            r.bids@ == depth_map(self@.bids),
            r.asks@ == depth_map(self@.asks),
    {
        let (bids, asks) = self.book.get_depths();
        DepthSnapshot { bids, asks }
    }
}

} // verus!
