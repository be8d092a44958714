//! The book: a bid chain and an ask chain, with placement, cancellation and
//! the read-only queries on them.

use std::collections::HashMap;
use vstd::prelude::*;
use crate::chain::{depth_map, Chain, BBO};
use crate::depth::depth_at;
use crate::matching::{
    is_tail_of, lemma_sweep_keeps_queue, lemma_sweep_leaves_tail, match_incoming, sweep,
    Sweep,
};
use crate::order::{Order, OrderError, Trade};
use crate::queue::{
    has_key, insert_sorted, lemma_insert_sorted_wf, lemma_rank_splits, lemma_remove_wf, locate,
    queue_wf, rank,
};
use crate::side::Side;
use crate::tracker::{better_price, with_quantity, OrderTracker};

verus! {

/// The book, as the contracts see it: both sides in matching priority, best
/// first, and the sequence number that the next resting order will get.
pub struct BookView {
    pub bids: Seq<OrderTracker>,
    pub asks: Seq<OrderTracker>,
    pub next_sequence: u64,
}

/// The book of one instrument.
pub struct Book {
    bids: Chain,
    asks: Chain,
    next_sequence: u64,
}

/// The book is not crossed: where both sides hold orders, the best bid is
/// below the best ask.
pub open spec fn uncrossed(bids: Seq<OrderTracker>, asks: Seq<OrderTracker>) -> bool {
    bids.len() > 0 && asks.len() > 0 ==> bids[0].price < asks[0].price
}

/// Every order in `s` got its sequence number before `next`.
pub open spec fn sequenced(s: Seq<OrderTracker>, next: u64) -> bool {
    forall|i: int| 0 <= i < s.len() ==> (#[trigger] s[i]).sequence < next
}

/// What holds of the book between calls.
pub open spec fn book_wf(v: BookView) -> bool {
    &&& queue_wf(Side::Buy, v.bids)
    &&& queue_wf(Side::Sell, v.asks)
    &&& uncrossed(v.bids, v.asks)
    &&& sequenced(v.bids, v.next_sequence)
    &&& sequenced(v.asks, v.next_sequence)
}

/// The resting orders of one side.
pub open spec fn side_of(v: BookView, side: Side) -> Seq<OrderTracker> {
    match side {
        Side::Buy => v.bids,
        Side::Sell => v.asks,
    }
}

/// The book with the resting orders of one side replaced.
pub open spec fn with_side(v: BookView, side: Side, s: Seq<OrderTracker>) -> BookView {
    match side {
        Side::Buy => BookView { bids: s, ..v },
        Side::Sell => BookView { asks: s, ..v },
    }
}

/// An incoming order as the matching rule sees it, under the sequence number
/// it would rest with.
pub open spec fn incoming(ord: Order, sequence: u64) -> OrderTracker {
    OrderTracker { uid: ord.uid, sequence, quantity: ord.quantity, price: ord.price, side: ord.side }
}

/// Why a limit order is refused, if it is: no quantity or no price first,
/// then the all-or-none flag, then a book that has run out of sequence numbers.
pub open spec fn limit_rejection(v: BookView, ord: Order) -> Option<OrderError> {
    if ord.quantity == 0 || ord.price == 0 {
        Some(OrderError::InvalidOrder)
    } else if ord.all_or_none {
        Some(OrderError::UnsupportedFlag)
    } else if v.next_sequence == u64::MAX {
        Some(OrderError::SequenceExhausted)
    } else {
        None
    }
}

/// Why a market order is refused, if it is: no quantity first, then the
/// all-or-none flag.
pub open spec fn market_rejection(ord: Order) -> Option<OrderError> {
    if ord.quantity == 0 {
        Some(OrderError::InvalidOrder)
    } else if ord.all_or_none {
        Some(OrderError::UnsupportedFlag)
    } else {
        None
    }
}

/// The sweep that an accepted limit order makes of the opposite side.
pub open spec fn limit_sweep(v: BookView, ord: Order) -> Sweep {
    sweep(incoming(ord, v.next_sequence), true, ord.created_at, side_of(v, ord.side.spec_opposite()))
}

/// The sweep that an accepted market order makes of the opposite side.
pub open spec fn market_sweep(v: BookView, ord: Order) -> Sweep {
    sweep(incoming(ord, v.next_sequence), false, ord.created_at, side_of(v, ord.side.spec_opposite()))
}

/// Whether what a limit order's sweep left of it comes to rest.
pub open spec fn limit_rests(v: BookView, ord: Order) -> bool {
    limit_sweep(v, ord).remaining > 0 && !ord.immediate_or_cancel
}

/// The book after an accepted limit order: the opposite side as the sweep
/// left it and, where a remainder rests, the order's own side with the
/// remainder in its place under a fresh sequence number.
pub open spec fn after_limit(v: BookView, ord: Order) -> BookView {
    let m = limit_sweep(v, ord);
    let swept = with_side(v, ord.side.spec_opposite(), m.resting);
    if limit_rests(v, ord) {
        let rest = with_quantity(incoming(ord, v.next_sequence), m.remaining);
        BookView {
            next_sequence: (v.next_sequence + 1) as u64,
            ..with_side(swept, ord.side, insert_sorted(side_of(v, ord.side), rest))
        }
    } else {
        swept
    }
}

/// The book after an accepted market order: the opposite side as the sweep
/// left it. Nothing of a market order ever rests.
pub open spec fn after_market(v: BookView, ord: Order) -> BookView {
    with_side(v, ord.side.spec_opposite(), market_sweep(v, ord).resting)
}

/// The order that a cancellation designates, if any: the only order of
/// `side` at `price` under `uid`.
pub open spec fn cancelled(v: BookView, side: Side, price: u32, uid: u64) -> Option<OrderTracker> {
    match locate(side_of(v, side), price, uid) {
        Some(i) => Some(side_of(v, side)[i]),
        None => None,
    }
}

/// The book after a cancellation: without the designated order, or as it was
/// where none is designated.
pub open spec fn after_cancel(v: BookView, side: Side, price: u32, uid: u64) -> BookView {
    match locate(side_of(v, side), price, uid) {
        Some(i) => with_side(v, side, side_of(v, side).remove(i)),
        None => v,
    }
}

/// The top of one side as the orders determine it.
pub open spec fn best_of(s: Seq<OrderTracker>) -> Option<BBO> {
    if s.len() > 0 {
        Some(BBO { price: s[0].price, quantity: depth_at(s, s[0].price) as u128 })
    } else {
        None
    }
}

/// What a sweep leaves has no better a best price than what it found, and
/// no sequence number that was not there.
pub proof fn lemma_tail_is_no_better(side: Side, before: Seq<OrderTracker>, after: Seq<OrderTracker>, next: u64)
    requires
        queue_wf(side, before),
        is_tail_of(after, before),
    ensures
        after.len() > 0 ==> before.len() > 0 && !better_price(side, after[0].price, before[0].price),
        sequenced(before, next) ==> sequenced(after, next),
{
    let gone = before.len() - after.len();
    if after.len() > 0 && gone > 0 {
        assert(before[0].precedes(before[gone]));
    }
}

/// An accepted limit order leaves the book well formed, and where its
/// remainder rests, the key of the remainder is free on its own side.
pub proof fn lemma_after_limit_wf(v: BookView, ord: Order)
    requires
        book_wf(v),
        limit_rejection(v, ord) is None,
    ensures
        book_wf(after_limit(v, ord)),
        !has_key(
            side_of(v, ord.side),
            with_quantity(incoming(ord, v.next_sequence), limit_sweep(v, ord).remaining),
        ),
{
    let taker = incoming(ord, v.next_sequence);
    let other = ord.side.spec_opposite();
    let found = side_of(v, other);
    let own = side_of(v, ord.side);
    let m = limit_sweep(v, ord);
    let rest = with_quantity(taker, m.remaining);
    lemma_sweep_keeps_queue(other, taker, true, ord.created_at, found);
    lemma_sweep_leaves_tail(taker, true, ord.created_at, found);
    lemma_tail_is_no_better(other, found, m.resting, v.next_sequence);
    // every order of its own side has an older sequence number
    assert(!has_key(own, rest));
    if limit_rests(v, ord) {
        lemma_insert_sorted_wf(ord.side, own, rest);
        lemma_rank_splits(ord.side, own, rest);
        // the best order of its own side is the newcomer or the one before
        assert(insert_sorted(own, rest)[0] == (if rank(own, rest) == 0 {
            rest
        } else {
            own[0]
        }));
    }
}

/// An accepted market order leaves the book well formed.
pub proof fn lemma_after_market_wf(v: BookView, ord: Order)
    requires
        book_wf(v),
    ensures
        book_wf(after_market(v, ord)),
{
    let taker = incoming(ord, v.next_sequence);
    let other = ord.side.spec_opposite();
    let found = side_of(v, other);
    let m = market_sweep(v, ord);
    lemma_sweep_keeps_queue(other, taker, false, ord.created_at, found);
    lemma_sweep_leaves_tail(taker, false, ord.created_at, found);
    lemma_tail_is_no_better(other, found, m.resting, v.next_sequence);
}

/// A cancellation leaves the book well formed.
pub proof fn lemma_after_cancel_wf(v: BookView, side: Side, price: u32, uid: u64)
    requires
        book_wf(v),
    ensures
        book_wf(after_cancel(v, side, price, uid)),
{
    let s = side_of(v, side);
    match locate(s, price, uid) {
        Some(i) => {
            lemma_remove_wf(side, s, i);
            // the best order is the one before, or the next best
            if i == 0 && s.len() > 1 {
                assert(s[0].precedes(s[1]));
            }
        },
        None => {},
    }
}

impl View for Book {
    type V = BookView;

    closed spec fn view(&self) -> BookView {
        BookView { bids: self.bids@, asks: self.asks@, next_sequence: self.next_sequence }
    }
}

impl Book {
    /// Each chain keeps its own invariant, the bid chain holds bids and the
    /// ask chain asks.
    pub closed spec fn chains_wf(&self) -> bool {
        &&& self.bids.wf()
        &&& self.asks.wf()
        &&& self.bids.spec_side() == Side::Buy
        &&& self.asks.spec_side() == Side::Sell
    }

    /// The book's invariant: the chains keep theirs, and the two sides
    /// together are a well-formed book, which is never crossed.
    pub open spec fn wf(&self) -> bool {
        &&& self.chains_wf()
        &&& book_wf(self@)
    }

    /// The depth of either side at any price fits in 128 bits, so the index
    /// and the top of the book hold it as it is.
    pub proof fn lemma_depths_fit(&self, price: u32)
        ensures
            depth_at(self@.bids, price) <= u128::MAX,
            depth_at(self@.asks, price) <= u128::MAX,
    {
        self.bids.lemma_depth_fits(price);
        self.asks.lemma_depth_fits(price);
    }

    /// An empty book.
    pub fn new() -> (r: Self)
        ensures
            r.wf(),
            r@ == (BookView { bids: Seq::empty(), asks: Seq::empty(), next_sequence: 0 }),
    {
        Self { bids: Chain::new(Side::Buy), asks: Chain::new(Side::Sell), next_sequence: 0 }
    }

    /// An empty book whose first resting order gets the sequence number `first`.
    pub fn with_first_sequence(first: u64) -> (r: Self)
        ensures
            r.wf(),
            r@ == (BookView { bids: Seq::empty(), asks: Seq::empty(), next_sequence: first }),
    {
        Self { bids: Chain::new(Side::Buy), asks: Chain::new(Side::Sell), next_sequence: first }
    }

    /// The top of the bid side and the top of the ask side.
    pub fn bbo(&self) -> (r: (Option<BBO>, Option<BBO>))
        requires
            self.wf(),
        ensures
            r.0 == best_of(self@.bids),
            r.1 == best_of(self@.asks),
    {
        (self._bbo(&self.bids), self._bbo(&self.asks))
    }

    /// The top of one chain.
    fn _bbo(&self, chain: &Chain) -> (r: Option<BBO>)
        requires
            chain.wf(),
        ensures
            r == best_of(chain@),
    {
        chain.best()
    }

    /// How many bids rest in the book.
    pub fn num_bids(&self) -> (r: usize)
        ensures
            r == self@.bids.len(),
    {
        self.bids.len()
    }

    /// How many asks rest in the book.
    pub fn num_asks(&self) -> (r: usize)
        ensures
            r == self@.asks.len(),
    {
        self.asks.len()
    }

    /// A copy of the price-to-quantity index of the bid side and of the ask
    /// side: at each price where orders rest, their total quantity.
    pub fn get_depths(&self) -> (r: (HashMap<u32, u128>, HashMap<u32, u128>))
        requires
            self.wf(),
        ensures
            r.0@ == depth_map(self@.bids),
            r.1@ == depth_map(self@.asks),
    {
        proof {
            self.bids.lemma_index_is_depth_map();
            self.asks.lemma_index_is_depth_map();
        }
        (self.bids.depth_snapshot(), self.asks.depth_snapshot())
    }

    /// Cancels the only order of `side` at `price` under `uid` and returns
    /// it. Where there is no such order, or more than one, nothing changes
    /// and nothing is returned.
    pub fn cancel_order(&mut self, side: Side, price: u32, uid: u64) -> (r: Option<OrderTracker>)
        requires
            old(self).wf(),
        ensures
            final(self).wf(),
            r == cancelled(old(self)@, side, price, uid),
            final(self)@ == after_cancel(old(self)@, side, price, uid),
    {
        proof {
            lemma_after_cancel_wf(self@, side, price, uid);
        }
        match side {
            Side::Buy => self.bids.remove(price, uid),
            Side::Sell => self.asks.remove(price, uid),
        }
    }

    /// Places a market order: it trades with the opposite side from the best
    /// price on, whatever the prices, until it is filled or that side is
    /// empty. What is left of it is dropped. An order with no quantity or
    /// with the all-or-none flag is refused and changes nothing.
    pub fn place_market(&mut self, ord: &Order) -> (r: Result<Vec<Trade>, OrderError>)
        requires
            old(self).wf(),
        ensures
            final(self).wf(),
            match market_rejection(*ord) {
                Some(e) => r == Err::<Vec<Trade>, OrderError>(e) && final(self)@ == old(self)@,
                None => r is Ok && r->Ok_0@ == market_sweep(old(self)@, *ord).trades && final(self)@
                    == after_market(old(self)@, *ord),
            },
    {
        if ord.quantity() == 0 {
            return Err(OrderError::InvalidOrder);
        }
        if ord.all_or_none() {
            return Err(OrderError::UnsupportedFlag);
        }
        proof {
            lemma_after_market_wf(self@, *ord);
        }
        let order = OrderTracker::from_order(ord, self.next_sequence);
        let (trades, _left) = match order.side {
            Side::Buy => match_incoming(&mut self.asks, order, false, ord.created_at()),
            Side::Sell => match_incoming(&mut self.bids, order, false, ord.created_at()),
        };
        Ok(trades)
    }

    /// Places a limit order: it trades with the opposite side from the best
    /// price on while that price is within its limit, and what is left of it
    /// comes to rest on its own side under a fresh sequence number, unless
    /// it is immediate-or-cancel. An order with no quantity or no price, or
    /// with the all-or-none flag, is refused and changes nothing; so is any
    /// limit order once the sequence numbers have run out.
    pub fn place_limit(&mut self, ord: &Order) -> (r: Result<Vec<Trade>, OrderError>)
        requires
            old(self).wf(),
        ensures
            final(self).wf(),
            match limit_rejection(old(self)@, *ord) {
                Some(e) => r == Err::<Vec<Trade>, OrderError>(e) && final(self)@ == old(self)@,
                None => r is Ok && r->Ok_0@ == limit_sweep(old(self)@, *ord).trades && final(self)@
                    == after_limit(old(self)@, *ord),
            },
    {
        if ord.quantity() == 0 || ord.price() == 0 {
            return Err(OrderError::InvalidOrder);
        }
        if ord.all_or_none() {
            return Err(OrderError::UnsupportedFlag);
        }
        if self.next_sequence == u64::MAX {
            return Err(OrderError::SequenceExhausted);
        }
        proof {
            lemma_after_limit_wf(self@, *ord);
        }
        let order = OrderTracker::from_order(ord, self.next_sequence);
        let (trades, left) = match order.side {
            Side::Buy => match_incoming(&mut self.asks, order, true, ord.created_at()),
            Side::Sell => match_incoming(&mut self.bids, order, true, ord.created_at()),
        };
        if left > 0 && !ord.immediate_or_cancel() {
            let rest = OrderTracker { quantity: left, ..order };
            let placed = match order.side {
                Side::Buy => self.bids.insert(rest),
                Side::Sell => self.asks.insert(rest),
            };
            assert(placed);
            self.next_sequence = self.next_sequence + 1;
        }
        Ok(trades)
    }
}

} // verus!
