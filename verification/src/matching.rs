//! The matching rule: how an incoming order consumes the resting orders of
//! the opposite side, and what is true of every such sweep.

use vstd::prelude::*;
use crate::chain::Chain;
use crate::depth::{contribution, depth_at, lemma_depth_insert};
use crate::order::Trade;
use crate::queue::{has_key, lemma_remove_wf, lemma_tail_wf, queue_wf, rank};
use crate::side::Side;
use crate::tracker::{with_quantity, OrderTracker};

verus! {

/// Whether an incoming order of `side` with limit price `limit` may trade
/// against a resting order at `resting_price`.
pub open spec fn crosses(side: Side, limit: u32, resting_price: u32) -> bool {
    match side {
        Side::Buy => resting_price <= limit,
        Side::Sell => resting_price >= limit,
    }
}

/// The trade of `quantity` units between an incoming order and a resting
/// one: the seller gives, the buyer takes, at the resting order's price.
pub open spec fn trade_between(taker: OrderTracker, maker: OrderTracker, quantity: u32, ts: u64) -> Trade {
    match taker.side {
        Side::Sell => Trade { from: taker.uid, to: maker.uid, quantity, price: maker.price, ts },
        Side::Buy => Trade { from: maker.uid, to: taker.uid, quantity, price: maker.price, ts },
    }
}

/// The outcome of one sweep: the trades in the order they were made, what
/// still rests on the swept side, and what is left of the incoming order.
pub struct Sweep {
    pub trades: Seq<Trade>,
    pub resting: Seq<OrderTracker>,
    pub remaining: u32,
}

/// Whether the sweep goes on: the incoming order has quantity left, the
/// swept side is not empty, and its best order is within the limit, where
/// a limit applies.
pub open spec fn can_match(taker: OrderTracker, priced: bool, resting: Seq<OrderTracker>) -> bool {
    &&& taker.quantity > 0
    &&& resting.len() > 0
    &&& priced ==> crosses(taker.side, taker.price, resting[0].price)
}

/// The sweep of `resting` by `taker`. While it can match, the incoming order
/// trades with the best resting order for the smaller of the two quantities;
/// a resting order that is used up leaves the book, one that is not stays
/// where it was with what is left of it.
pub open spec fn sweep(taker: OrderTracker, priced: bool, ts: u64, resting: Seq<OrderTracker>) -> Sweep
    decreases resting.len(),
{
    if !can_match(taker, priced, resting) {
        Sweep { trades: Seq::empty(), resting, remaining: taker.quantity }
    } else {
        let maker = resting[0];
        if maker.quantity <= taker.quantity {
            let rest = sweep(
                with_quantity(taker, (taker.quantity - maker.quantity) as u32),
                priced,
                ts,
                resting.drop_first(),
            );
            Sweep {
                trades: seq![trade_between(taker, maker, maker.quantity, ts)] + rest.trades,
                resting: rest.resting,
                remaining: rest.remaining,
            }
        } else {
            Sweep {
                trades: seq![trade_between(taker, maker, taker.quantity, ts)],
                resting: resting.update(
                    0,
                    with_quantity(maker, (maker.quantity - taker.quantity) as u32),
                ),
                remaining: 0,
            }
        }
    }
}

/// Decides whether an incoming order of `side` with limit price `limit`
/// may trade against a resting order at `resting_price`.
pub fn price_crosses(side: Side, limit: u32, resting_price: u32) -> (r: bool)
    ensures
        r == crosses(side, limit, resting_price),
{
    match side {
        Side::Buy => resting_price <= limit,
        Side::Sell => resting_price >= limit,
    }
}

/// Makes the trade of `quantity` units between an incoming and a resting order.
pub fn make_trade(taker: &OrderTracker, maker: &OrderTracker, quantity: u32, ts: u64) -> (r: Trade)
    ensures
        r == trade_between(*taker, *maker, quantity, ts),
{
    let (from, to) = match taker.side {
        Side::Sell => (taker.uid, maker.uid),
        Side::Buy => (maker.uid, taker.uid),
    };
    Trade { from, to, quantity, price: maker.price, ts }
}

/// Runs the sweep of `resting` by `taker`: returns the trades in the order
/// they were made and what is left of the incoming order, and leaves on the
/// chain what the sweep leaves resting. With `priced` false the limit price
/// is not looked at.
pub fn match_incoming(resting: &mut Chain, taker: OrderTracker, priced: bool, ts: u64) -> (r: (
    Vec<Trade>,
    u32,
))
    requires
        old(resting).wf(),
    ensures
        final(resting).wf(),
        final(resting).spec_side() == old(resting).spec_side(),
        r.0@ == sweep(taker, priced, ts, old(resting)@).trades,
        final(resting)@ == sweep(taker, priced, ts, old(resting)@).resting,
        r.1 == sweep(taker, priced, ts, old(resting)@).remaining,
{
    let ghost side = resting.spec_side();
    let ghost whole = sweep(taker, priced, ts, resting@);
    let mut trades: Vec<Trade> = Vec::new();
    let mut order = taker;
    loop
        invariant
            resting.wf(),
            resting.spec_side() == side,
            order == with_quantity(taker, order.quantity),
            whole.trades == trades@ + sweep(order, priced, ts, resting@).trades,
            whole.resting == sweep(order, priced, ts, resting@).resting,
            whole.remaining == sweep(order, priced, ts, resting@).remaining,
        ensures
            !can_match(order, priced, resting@),
        decreases order.quantity,
    {
        if order.quantity == 0 {
            break ;
        }
        let available = match resting.first() {
            Some(top) => !priced || price_crosses(order.side, order.price, top.price),
            None => false,
        };
        if !available {
            break ;
        }
        let ghost queue = resting@;
        let mut top = match resting.pop_first() {
            Some(top) => top,
            None => {
                break ;
            },
        };
        let size_matched: u32 = if top.quantity < order.quantity {
            top.quantity
        } else {
            order.quantity
        };
        let trade = make_trade(&order, &top, size_matched, ts);
        top.reduce_quantity(size_matched);
        order.reduce_quantity(size_matched);
        trades.push(trade);
        if top.quantity > 0 {
            proof {
                // what is left of the order goes back to the head of the queue
                lemma_remove_wf(side, queue, 0);
                assert(!has_key(queue.drop_first(), top));
                assert(rank(queue.drop_first(), top) == 0);
            }
            let put_back = resting.insert(top);
            assert(put_back);
        }
    }
    (trades, order.quantity)
}

/// The total quantity of a sequence of trades.
pub open spec fn traded(trades: Seq<Trade>) -> nat
    decreases trades.len(),
{
    if trades.len() == 0 {
        0
    } else {
        traded(trades.drop_last()) + trades.last().quantity as nat
    }
}

/// The total quantity of the trades made at `price`.
pub open spec fn traded_at(trades: Seq<Trade>, price: u32) -> nat
    decreases trades.len(),
{
    if trades.len() == 0 {
        0
    } else {
        traded_at(trades.drop_last(), price) + if trades.last().price == price {
            trades.last().quantity as nat
        } else {
            0
        }
    }
}

/// The quantity that the trades took from the resting order at index `k` of
/// the swept side: the k-th trade is made with the k-th resting order.
pub open spec fn matched_as_maker(trades: Seq<Trade>, k: int) -> nat {
    if 0 <= k < trades.len() {
        trades[k].quantity as nat
    } else {
        0
    }
}

/// The quantity still resting, after a sweep, of the order that stood at
/// index `k` before it. The orders that remain are the last of those that
/// were there.
pub open spec fn left_resting(before: Seq<OrderTracker>, after: Seq<OrderTracker>, k: int) -> nat {
    let gone = before.len() - after.len();
    if gone <= k < before.len() {
        after[k - gone].quantity as nat
    } else {
        0
    }
}

/// Whether `after` is what a sweep may leave of `before`: its last orders,
/// unchanged but for a head that may have given up part of its quantity.
pub open spec fn is_tail_of(after: Seq<OrderTracker>, before: Seq<OrderTracker>) -> bool {
    let gone = before.len() - after.len();
    &&& 0 <= gone
    &&& after.len() > 0 ==> after[0] == with_quantity(before[gone], after[0].quantity)
        && after[0].quantity <= before[gone].quantity
    &&& forall|i: int| 0 < i < after.len() ==> #[trigger] after[i] == before[i + gone]
}

/// The total quantity of the `k` orders at the front of `s`: what stands
/// ahead of the order at index `k`.
pub open spec fn quantity_ahead(s: Seq<OrderTracker>, k: int) -> nat
    decreases k,
{
    if k <= 0 {
        0
    } else {
        quantity_ahead(s, k - 1) + s[k - 1].quantity as nat
    }
}

/// Whether the price of the resting order at index `k` is within the limit
/// of the incoming order, where a limit applies.
pub open spec fn within_limit(taker: OrderTracker, priced: bool, resting: Seq<OrderTracker>, k: int) -> bool {
    priced ==> crosses(taker.side, taker.price, resting[k].price)
}

/// What the resting order at index `k` is owed by the greedy rule: of the
/// incoming quantity, what the orders ahead of it leave over, up to what it
/// holds itself, if its price is within the limit; and nothing otherwise.
pub open spec fn greedy_fill(taker: OrderTracker, priced: bool, resting: Seq<OrderTracker>, k: int) -> nat {
    let ahead = quantity_ahead(resting, k);
    if !within_limit(taker, priced, resting, k) || taker.quantity <= ahead {
        0
    } else if taker.quantity - ahead < resting[k].quantity {
        (taker.quantity - ahead) as nat
    } else {
        resting[k].quantity as nat
    }
}

/// The total of a sequence of trades that starts with `t`.
proof fn lemma_traded_cons(t: Trade, rest: Seq<Trade>)
    ensures
        traded(seq![t] + rest) == t.quantity + traded(rest),
    decreases rest.len(),
{
    let all = seq![t] + rest;
    if rest.len() == 0 {
        assert(traded(all.drop_last()) == 0);
    } else {
        assert(all.drop_last() =~= seq![t] + rest.drop_last());
        lemma_traded_cons(t, rest.drop_last());
    }
}

/// The total at a price of a sequence of trades that starts with `t`.
proof fn lemma_traded_at_cons(t: Trade, rest: Seq<Trade>, price: u32)
    ensures
        traded_at(seq![t] + rest, price) == (if t.price == price {
            t.quantity as nat
        } else {
            0
        }) + traded_at(rest, price),
    decreases rest.len(),
{
    let all = seq![t] + rest;
    if rest.len() == 0 {
        assert(traded_at(all.drop_last(), price) == 0);
    } else {
        assert(all.drop_last() =~= seq![t] + rest.drop_last());
        lemma_traded_at_cons(t, rest.drop_last(), price);
    }
}

/// The depth of a queue is the contribution of its head plus the depth of the rest.
proof fn lemma_depth_head(s: Seq<OrderTracker>, price: u32)
    requires
        s.len() > 0,
    ensures
        depth_at(s, price) == contribution(s[0], price) + depth_at(s.drop_first(), price),
{
    assert(s.drop_first().insert(0, s[0]) =~= s);
    lemma_depth_insert(s.drop_first(), 0, s[0], price);
}

/// What stands ahead of an order counts the head of the queue and what
/// stands ahead of it in the rest.
proof fn lemma_quantity_ahead_head(s: Seq<OrderTracker>, k: int)
    requires
        1 <= k <= s.len(),
    ensures
        quantity_ahead(s, k) == s[0].quantity + quantity_ahead(s.drop_first(), k - 1),
    decreases k,
{
    if k > 1 {
        lemma_quantity_ahead_head(s, k - 1);
    } else {
        assert(quantity_ahead(s, 0) == 0);
    }
}

/// Conservation for the incoming order: what it traded and what is left of
/// it add up to its quantity.
pub proof fn lemma_sweep_conserves_taker(
    taker: OrderTracker,
    priced: bool,
    ts: u64,
    resting: Seq<OrderTracker>,
)
    ensures
        traded(sweep(taker, priced, ts, resting).trades) + sweep(taker, priced, ts, resting).remaining
            == taker.quantity,
    decreases resting.len(),
{
    if can_match(taker, priced, resting) {
        let maker = resting[0];
        if maker.quantity <= taker.quantity {
            let next = with_quantity(taker, (taker.quantity - maker.quantity) as u32);
            let rest = sweep(next, priced, ts, resting.drop_first());
            lemma_sweep_conserves_taker(next, priced, ts, resting.drop_first());
            lemma_traded_cons(trade_between(taker, maker, maker.quantity, ts), rest.trades);
        } else {
            let t = trade_between(taker, maker, taker.quantity, ts);
            lemma_traded_cons(t, Seq::empty());
        }
    }
}

/// Conservation for each resting order: what a sweep took from it and what
/// is left of it on the book add up to what it held.
pub proof fn lemma_sweep_conserves_makers(
    side: Side,
    taker: OrderTracker,
    priced: bool,
    ts: u64,
    resting: Seq<OrderTracker>,
    k: int,
)
    requires
        queue_wf(side, resting),
        0 <= k < resting.len(),
    ensures
        matched_as_maker(sweep(taker, priced, ts, resting).trades, k) + left_resting(
            resting,
            sweep(taker, priced, ts, resting).resting,
            k,
        ) == resting[k].quantity,
    decreases resting.len(),
{
    let m = sweep(taker, priced, ts, resting);
    if can_match(taker, priced, resting) {
        let maker = resting[0];
        if maker.quantity <= taker.quantity {
            let next = with_quantity(taker, (taker.quantity - maker.quantity) as u32);
            let tail = resting.drop_first();
            let rest = sweep(next, priced, ts, tail);
            lemma_tail_wf(side, resting);
            lemma_sweep_leaves_tail(next, priced, ts, tail);
            if k > 0 {
                lemma_sweep_conserves_makers(side, next, priced, ts, tail, k - 1);
                assert(matched_as_maker(m.trades, k) == matched_as_maker(rest.trades, k - 1));
            }
        }
    }
}

/// Conservation for the swept side, price by price: what rested at a price
/// before the sweep is what rests there after it plus what was traded there.
pub proof fn lemma_sweep_conserves_depth(
    taker: OrderTracker,
    priced: bool,
    ts: u64,
    resting: Seq<OrderTracker>,
    price: u32,
)
    ensures
        depth_at(resting, price) == depth_at(sweep(taker, priced, ts, resting).resting, price)
            + traded_at(sweep(taker, priced, ts, resting).trades, price),
    decreases resting.len(),
{
    if can_match(taker, priced, resting) {
        let maker = resting[0];
        lemma_depth_head(resting, price);
        if maker.quantity <= taker.quantity {
            let next = with_quantity(taker, (taker.quantity - maker.quantity) as u32);
            let rest = sweep(next, priced, ts, resting.drop_first());
            lemma_sweep_conserves_depth(next, priced, ts, resting.drop_first(), price);
            lemma_traded_at_cons(trade_between(taker, maker, maker.quantity, ts), rest.trades, price);
        } else {
            let kept = with_quantity(maker, (maker.quantity - taker.quantity) as u32);
            let after = resting.update(0, kept);
            let t = trade_between(taker, maker, taker.quantity, ts);
            lemma_depth_head(after, price);
            assert(after.drop_first() =~= resting.drop_first());
            lemma_traded_at_cons(t, Seq::empty(), price);
        }
    }
}

/// A sweep leaves a well-formed queue.
pub proof fn lemma_sweep_keeps_queue(
    side: Side,
    taker: OrderTracker,
    priced: bool,
    ts: u64,
    resting: Seq<OrderTracker>,
)
    requires
        queue_wf(side, resting),
    ensures
        queue_wf(side, sweep(taker, priced, ts, resting).resting),
    decreases resting.len(),
{
    let m = sweep(taker, priced, ts, resting);
    if can_match(taker, priced, resting) {
        let maker = resting[0];
        if maker.quantity <= taker.quantity {
            let next = with_quantity(taker, (taker.quantity - maker.quantity) as u32);
            lemma_tail_wf(side, resting);
            lemma_sweep_keeps_queue(side, next, priced, ts, resting.drop_first());
        } else {
            // the head stays where it was with less quantity: its key is the same
            let kept = with_quantity(maker, (maker.quantity - taker.quantity) as u32);
            assert(m.resting == resting.update(0, kept));
        }
    }
}

/// What a sweep leaves on the swept side: the last orders of the queue,
/// unchanged but for a head that was traded with in part. When the sweep
/// ends, the incoming order is filled, the swept side is empty, or its best
/// price is outside the limit.
pub proof fn lemma_sweep_leaves_tail(
    taker: OrderTracker,
    priced: bool,
    ts: u64,
    resting: Seq<OrderTracker>,
)
    ensures
        is_tail_of(sweep(taker, priced, ts, resting).resting, resting),
        !can_match(
            with_quantity(taker, sweep(taker, priced, ts, resting).remaining),
            priced,
            sweep(taker, priced, ts, resting).resting,
        ),
        sweep(taker, priced, ts, resting).remaining <= taker.quantity,
    decreases resting.len(),
{
    if can_match(taker, priced, resting) {
        let maker = resting[0];
        if maker.quantity <= taker.quantity {
            let next = with_quantity(taker, (taker.quantity - maker.quantity) as u32);
            let tail = resting.drop_first();
            lemma_sweep_leaves_tail(next, priced, ts, tail);
            assert(is_tail_of(sweep(next, priced, ts, tail).resting, tail));
        }
    }
}

/// The trades of a sweep. They are made with the resting orders in queue
/// order, one trade per order, each for a positive quantity within what that
/// order held, at that order's price, and within the limit where one
/// applies. Every order but the last one traded with is used up.
pub proof fn lemma_sweep_trades(
    side: Side,
    taker: OrderTracker,
    priced: bool,
    ts: u64,
    resting: Seq<OrderTracker>,
)
    requires
        queue_wf(side, resting),
    ensures
        ({
            let m = sweep(taker, priced, ts, resting);
            let n = m.trades.len() as int;
            &&& n <= resting.len()
            &&& forall|k: int|
                0 <= k < n ==> #[trigger] m.trades[k] == trade_between(
                    taker,
                    resting[k],
                    m.trades[k].quantity,
                    ts,
                ) && 0 < m.trades[k].quantity <= resting[k].quantity
            &&& forall|k: int| 0 <= k < n - 1 ==> (#[trigger] m.trades[k]).quantity == resting[k].quantity
            &&& forall|k: int|
                0 <= k < n && priced ==> crosses(taker.side, taker.price, (#[trigger] m.trades[k]).price)
        }),
    decreases resting.len(),
{
    let m = sweep(taker, priced, ts, resting);
    if can_match(taker, priced, resting) {
        let maker = resting[0];
        if maker.quantity <= taker.quantity {
            let next = with_quantity(taker, (taker.quantity - maker.quantity) as u32);
            let tail = resting.drop_first();
            let rest = sweep(next, priced, ts, tail);
            let first = trade_between(taker, maker, maker.quantity, ts);
            lemma_tail_wf(side, resting);
            lemma_sweep_trades(side, next, priced, ts, tail);
            // the first trade is with the head, the others are those of the rest
            assert(m.trades == seq![first] + rest.trades);
            assert forall|k: int| 0 < k < m.trades.len() implies #[trigger] m.trades[k]
                == rest.trades[k - 1] && resting[k] == tail[k - 1] by {}
        }
    }
}

/// A sweep is greedy by price and then by time: every resting order gets
/// what the orders ahead of it in the queue leave over of the incoming
/// quantity, up to what it holds, as long as its price is within the limit.
pub proof fn lemma_sweep_is_greedy(
    side: Side,
    taker: OrderTracker,
    priced: bool,
    ts: u64,
    resting: Seq<OrderTracker>,
    k: int,
)
    requires
        queue_wf(side, resting),
        taker.side == side.spec_opposite(),
        0 <= k < resting.len(),
    ensures
        matched_as_maker(sweep(taker, priced, ts, resting).trades, k) == greedy_fill(
            taker,
            priced,
            resting,
            k,
        ),
    decreases resting.len(),
{
    let m = sweep(taker, priced, ts, resting);
    if k > 0 {
        lemma_quantity_ahead_head(resting, k);
    }
    if can_match(taker, priced, resting) {
        let maker = resting[0];
        if maker.quantity <= taker.quantity {
            let next = with_quantity(taker, (taker.quantity - maker.quantity) as u32);
            let tail = resting.drop_first();
            let rest = sweep(next, priced, ts, tail);
            if k > 0 {
                lemma_tail_wf(side, resting);
                lemma_sweep_is_greedy(side, next, priced, ts, tail, k - 1);
                assert(matched_as_maker(m.trades, k) == matched_as_maker(rest.trades, k - 1));
            }
        }
    }
}

/// Time priority. Of two resting orders at one price, the earlier in the
/// queue has the lower sequence number, and a sweep trades with the later
/// one only after it has used up the earlier one.
pub proof fn lemma_time_priority(
    side: Side,
    taker: OrderTracker,
    priced: bool,
    ts: u64,
    resting: Seq<OrderTracker>,
    i: int,
    j: int,
)
    requires
        queue_wf(side, resting),
        0 <= i < resting.len(),
        0 <= j < resting.len(),
        resting[i].price == resting[j].price,
        resting[i].sequence < resting[j].sequence,
    ensures
        i < j,
        matched_as_maker(sweep(taker, priced, ts, resting).trades, j) > 0 ==> matched_as_maker(
            sweep(taker, priced, ts, resting).trades,
            i,
        ) == resting[i].quantity,
{
    if j < i {
        assert(resting[j].precedes(resting[i]));
    }
    lemma_sweep_trades(side, taker, priced, ts, resting);
}

} // verus!
