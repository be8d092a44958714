//! The aggregate quantity resting at a price, as a function of the resting orders.

use vstd::prelude::*;
use crate::tracker::OrderTracker;

verus! {

/// What one resting order adds to the depth at `price`.
pub open spec fn contribution(t: OrderTracker, price: u32) -> nat {
    if t.price == price {
        t.quantity as nat
    } else {
        0
    }
}

/// The total quantity of the orders in `s` that rest at `price`.
pub open spec fn depth_at(s: Seq<OrderTracker>, price: u32) -> nat
    decreases s.len(),
{
    if s.len() == 0 {
        0
    } else {
        depth_at(s.drop_last(), price) + contribution(s.last(), price)
    }
}

/// Inserting an order anywhere adds its contribution to the depth.
pub proof fn lemma_depth_insert(s: Seq<OrderTracker>, i: int, t: OrderTracker, price: u32)
    requires
        0 <= i <= s.len(),
    ensures
        depth_at(s.insert(i, t), price) == depth_at(s, price) + contribution(t, price),
    decreases s.len(),
{
    let u = s.insert(i, t);
    if i == s.len() {
        assert(u.drop_last() =~= s);
    } else {
        assert(u.drop_last() =~= s.drop_last().insert(i, t));
        lemma_depth_insert(s.drop_last(), i, t, price);
    }
}

/// Removing an order takes its contribution out of the depth.
pub proof fn lemma_depth_remove(s: Seq<OrderTracker>, i: int, price: u32)
    requires
        0 <= i < s.len(),
    ensures
        depth_at(s.remove(i), price) + contribution(s[i], price) == depth_at(s, price),
{
    assert(s.remove(i).insert(i, s[i]) =~= s);
    lemma_depth_insert(s.remove(i), i, s[i], price);
}

/// The depth at a price is at most the largest quantity times the number of orders.
pub proof fn lemma_depth_bound(s: Seq<OrderTracker>, price: u32)
    ensures
        depth_at(s, price) <= s.len() * (u32::MAX as nat),
    decreases s.len(),
{
    if s.len() > 0 {
        lemma_depth_bound(s.drop_last(), price);
        assert((s.len() - 1) * (u32::MAX as nat) + (u32::MAX as nat) == s.len() * (u32::MAX as nat))
            by (nonlinear_arith);
    }
}

/// Every order that rests at a price is counted in the depth there.
pub proof fn lemma_depth_covers(s: Seq<OrderTracker>, i: int, price: u32)
    requires
        0 <= i < s.len(),
        s[i].price == price,
    ensures
        depth_at(s, price) >= s[i].quantity,
    decreases s.len(),
{
    if i < s.len() - 1 {
        lemma_depth_covers(s.drop_last(), i, price);
    }
}

/// A positive depth is owed to some order resting at that price.
pub proof fn lemma_depth_witness(s: Seq<OrderTracker>, price: u32) -> (i: int)
    requires
        depth_at(s, price) > 0,
    ensures
        0 <= i < s.len(),
        s[i].price == price,
    decreases s.len(),
{
    if contribution(s.last(), price) > 0 {
        s.len() - 1
    } else {
        lemma_depth_witness(s.drop_last(), price)
    }
}

} // verus!
