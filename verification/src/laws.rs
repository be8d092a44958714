//! What holds of every placement and every cancellation, stated over the
//! book as the contracts see it.

use vstd::prelude::*;
use crate::book::{
    after_cancel, after_limit, after_market, book_wf, cancelled, incoming, lemma_after_cancel_wf,
    lemma_after_limit_wf, lemma_after_market_wf, limit_rejection, limit_rests, limit_sweep,
    market_rejection, market_sweep, side_of, uncrossed, BookView,
};
use crate::exchange::{after_request, Request};
use crate::depth::{depth_at, lemma_depth_insert, lemma_depth_remove};
use crate::matching::{
    lemma_sweep_conserves_depth, lemma_sweep_conserves_taker, traded, traded_at,
};
use crate::order::Order;
use crate::queue::{is_match, is_only_match, lemma_rank_range, lemma_rank_splits, locate, rank};
use crate::side::Side;
use crate::tracker::with_quantity;

verus! {

/// The book is never crossed at rest: whatever the request, accepted or
/// refused, it leaves a well-formed book, in which the best bid is below the
/// best ask where both sides hold orders.
pub proof fn lemma_request_keeps_book(v: BookView, req: Request)
    requires
        book_wf(v),
    ensures
        book_wf(after_request(v, req)),
        uncrossed(after_request(v, req).bids, after_request(v, req).asks),
{
    match req {
        Request::Place(ord) => {
            if ord.price == 0 {
                lemma_after_market_wf(v, ord);
            } else if limit_rejection(v, ord) is None {
                lemma_after_limit_wf(v, ord);
            }
        },
        Request::Cancel { side, price, uid } => {
            lemma_after_cancel_wf(v, side, price, uid);
        },
    }
}

/// The part of an accepted limit order that comes to rest.
pub open spec fn rested(v: BookView, ord: Order) -> nat {
    if limit_rests(v, ord) {
        limit_sweep(v, ord).remaining as nat
    } else {
        0
    }
}

/// The part of an accepted limit order that is dropped.
pub open spec fn discarded(v: BookView, ord: Order) -> nat {
    if limit_rests(v, ord) {
        0
    } else {
        limit_sweep(v, ord).remaining as nat
    }
}

/// Conservation for a limit order. What it traded, what rests of it and what
/// was dropped add up to its quantity. On the opposite side, at every price,
/// what rested before is what rests after plus what was traded there. On its
/// own side the depth grows by what rests of it, at its price, and by
/// nothing anywhere else.
pub proof fn lemma_limit_conserves(v: BookView, ord: Order, price: u32)
    requires
        book_wf(v),
        limit_rejection(v, ord) is None,
    ensures
        traded(limit_sweep(v, ord).trades) + rested(v, ord) + discarded(v, ord) == ord.quantity,
        depth_at(side_of(v, ord.side.spec_opposite()), price) == depth_at(
            side_of(after_limit(v, ord), ord.side.spec_opposite()),
            price,
        ) + traded_at(limit_sweep(v, ord).trades, price),
        depth_at(side_of(after_limit(v, ord), ord.side), price) == depth_at(
            side_of(v, ord.side),
            price,
        ) + (if price == ord.price {
            rested(v, ord)
        } else {
            0
        }),
{
    let taker = incoming(ord, v.next_sequence);
    let found = side_of(v, ord.side.spec_opposite());
    let own = side_of(v, ord.side);
    lemma_sweep_conserves_taker(taker, true, ord.created_at, found);
    lemma_sweep_conserves_depth(taker, true, ord.created_at, found, price);
    if limit_rests(v, ord) {
        let rest = with_quantity(taker, limit_sweep(v, ord).remaining);
        lemma_rank_range(own, rest);
        lemma_depth_insert(own, rank(own, rest), rest, price);
    }
}

/// Arrival order is time priority. Where the remainder of a limit order comes
/// to rest, it stands at its rank on its own side, behind every order that
/// rested at its price before it, and the orders that were there keep
/// their order.
pub proof fn lemma_newcomer_rests_behind_its_level(v: BookView, ord: Order, i: int)
    requires
        book_wf(v),
        limit_rejection(v, ord) is None,
        limit_rests(v, ord),
        0 <= i < side_of(v, ord.side).len(),
        side_of(v, ord.side)[i].price == ord.price,
    ensures
        ({
            let own = side_of(v, ord.side);
            let rest = with_quantity(incoming(ord, v.next_sequence), limit_sweep(v, ord).remaining);
            let placed = side_of(after_limit(v, ord), ord.side);
            &&& placed == own.insert(rank(own, rest), rest)
            &&& i < rank(own, rest) <= own.len()
            &&& placed[i] == own[i]
            &&& placed[rank(own, rest)] == rest
        }),
{
    let own = side_of(v, ord.side);
    let rest = with_quantity(incoming(ord, v.next_sequence), limit_sweep(v, ord).remaining);
    lemma_rank_splits(ord.side, own, rest);
}

/// Conservation for a market order. What it traded and what was dropped of
/// it add up to its quantity. On the opposite side, at every price, what
/// rested before is what rests after plus what was traded there, and its own
/// side is as it was.
pub proof fn lemma_market_conserves(v: BookView, ord: Order, price: u32)
    requires
        book_wf(v),
        market_rejection(ord) is None,
    ensures
        traded(market_sweep(v, ord).trades) + market_sweep(v, ord).remaining == ord.quantity,
        depth_at(side_of(v, ord.side.spec_opposite()), price) == depth_at(
            side_of(after_market(v, ord), ord.side.spec_opposite()),
            price,
        ) + traded_at(market_sweep(v, ord).trades, price),
        side_of(after_market(v, ord), ord.side) == side_of(v, ord.side),
        after_market(v, ord).next_sequence == v.next_sequence,
{
    let taker = incoming(ord, v.next_sequence);
    let found = side_of(v, ord.side.spec_opposite());
    lemma_sweep_conserves_taker(taker, false, ord.created_at, found);
    lemma_sweep_conserves_depth(taker, false, ord.created_at, found, price);
}

/// Cancelling what is not there changes nothing: where no order of the side
/// rests at the price under the uid, the cancellation finds nothing and the
/// book, and with it every depth, stays as it was.
pub proof fn lemma_cancel_absent(v: BookView, side: Side, price: u32, uid: u64)
    requires
        forall|i: int| !is_match(side_of(v, side), i, price, uid),
    ensures
        cancelled(v, side, price, uid) is None,
        after_cancel(v, side, price, uid) == v,
{
}

/// Cancellation is idempotent: after one cancellation, a second one of the
/// same side, price and uid finds nothing and changes nothing.
pub proof fn lemma_cancel_is_idempotent(v: BookView, side: Side, price: u32, uid: u64)
    ensures
        cancelled(after_cancel(v, side, price, uid), side, price, uid) is None,
        after_cancel(after_cancel(v, side, price, uid), side, price, uid) == after_cancel(
            v,
            side,
            price,
            uid,
        ),
{
    let s = side_of(v, side);
    match locate(s, price, uid) {
        Some(i) => {
            // a match that is left would be a second match in `s`
            let u = s.remove(i);
            assert forall|j: int| !is_match(u, j, price, uid) by {
                if is_match(u, j, price, uid) {
                    let sj = if j < i {
                        j
                    } else {
                        j + 1
                    };
                    assert(is_match(s, sj, price, uid));
                }
            }
            lemma_cancel_absent(after_cancel(v, side, price, uid), side, price, uid);
        },
        None => {},
    }
}

/// A cancellation takes out of the depth at its price what the cancelled
/// order held, and leaves every other depth of the book as it was.
pub proof fn lemma_cancel_conserves(v: BookView, side: Side, price: u32, uid: u64, at: u32)
    ensures
        depth_at(side_of(v, side), at) == depth_at(side_of(after_cancel(v, side, price, uid), side), at)
            + (match cancelled(v, side, price, uid) {
            Some(t) => if at == price {
                t.quantity as nat
            } else {
                0
            },
            None => 0,
        }),
        side_of(after_cancel(v, side, price, uid), side.spec_opposite()) == side_of(
            v,
            side.spec_opposite(),
        ),
{
    let s = side_of(v, side);
    match locate(s, price, uid) {
        Some(i) => {
            lemma_depth_remove(s, i, at);
        },
        None => {},
    }
}

} // verus!
