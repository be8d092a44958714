//! One side's resting orders as a sequence in matching priority, best first.

use vstd::prelude::*;
use crate::side::Side;
use crate::tracker::OrderTracker;

verus! {

/// Every earlier order precedes every later one.
pub open spec fn sorted(s: Seq<OrderTracker>) -> bool {
    forall|i: int, j: int| 0 <= i < j < s.len() ==> (#[trigger] s[i]).precedes(#[trigger] s[j])
}

/// What holds of the resting orders of one side: they belong to that side,
/// each has quantity left, and they stand in strict matching priority.
pub open spec fn queue_wf(side: Side, s: Seq<OrderTracker>) -> bool {
    &&& sorted(s)
    &&& forall|i: int| 0 <= i < s.len() ==> (#[trigger] s[i]).side == side && s[i].quantity > 0
}

/// Whether some order in `s` has the key of `t`.
pub open spec fn has_key(s: Seq<OrderTracker>, t: OrderTracker) -> bool {
    exists|i: int| 0 <= i < s.len() && (#[trigger] s[i]).same_key(t)
}

/// How many orders at the front of `s` precede `probe`. In a sorted sequence
/// these are all the orders that precede it.
pub open spec fn rank(s: Seq<OrderTracker>, probe: OrderTracker) -> int
    decreases s.len(),
{
    if s.len() > 0 && s[0].precedes(probe) {
        1 + rank(s.drop_first(), probe)
    } else {
        0
    }
}

/// The sequence with `t` put in at its place in the priority order.
pub open spec fn insert_sorted(s: Seq<OrderTracker>, t: OrderTracker) -> Seq<OrderTracker> {
    s.insert(rank(s, t), t)
}

/// Whether `s[i]` rests at `price` under `uid`.
pub open spec fn is_match(s: Seq<OrderTracker>, i: int, price: u32, uid: u64) -> bool {
    0 <= i < s.len() && s[i].price == price && s[i].uid == uid
}

/// Whether `s[i]` is the one and only order at `price` under `uid`.
pub open spec fn is_only_match(s: Seq<OrderTracker>, i: int, price: u32, uid: u64) -> bool {
    &&& is_match(s, i, price, uid)
    &&& forall|j: int| is_match(s, j, price, uid) ==> j == i
}

/// The index of the order that a lookup by price and uid designates: the only
/// order at that price under that uid, if there is exactly one.
pub open spec fn locate(s: Seq<OrderTracker>, price: u32, uid: u64) -> Option<int> {
    if exists|i: int| is_only_match(s, i, price, uid) {
        Some(choose|i: int| is_only_match(s, i, price, uid))
    } else {
        None
    }
}

/// The rank is an index into the sequence, or its length.
pub proof fn lemma_rank_range(s: Seq<OrderTracker>, probe: OrderTracker)
    ensures
        0 <= rank(s, probe) <= s.len(),
    decreases s.len(),
{
    if s.len() > 0 && s[0].precedes(probe) {
        lemma_rank_range(s.drop_first(), probe);
    }
}

/// In a sorted sequence, the index that parts the orders preceding `probe`
/// from the rest is its rank.
pub proof fn lemma_rank_unique(s: Seq<OrderTracker>, probe: OrderTracker, r: int)
    requires
        0 <= r <= s.len(),
        forall|j: int| 0 <= j < r ==> (#[trigger] s[j]).precedes(probe),
        r < s.len() ==> !s[r].precedes(probe),
    ensures
        rank(s, probe) == r,
    decreases s.len(),
{
    if r > 0 {
        let t = s.drop_first();
        assert forall|j: int| 0 <= j < r - 1 implies (#[trigger] t[j]).precedes(probe) by {
            assert(t[j] == s[j + 1]);
        }
        lemma_rank_unique(t, probe, r - 1);
    }
}

/// What is left of a queue when its head goes is a well-formed queue.
pub proof fn lemma_tail_wf(side: Side, s: Seq<OrderTracker>)
    requires
        queue_wf(side, s),
        s.len() > 0,
    ensures
        queue_wf(side, s.drop_first()),
{
    let t = s.drop_first();
    assert forall|i: int, j: int| 0 <= i < j < t.len() implies (#[trigger] t[i]).precedes(
        #[trigger] t[j],
    ) by {
        assert(t[i] == s[i + 1] && t[j] == s[j + 1]);
    }
    assert forall|i: int| 0 <= i < t.len() implies (#[trigger] t[i]).side == side && t[i].quantity
        > 0 by {
        assert(t[i] == s[i + 1]);
    }
}

/// In a well-formed queue the rank parts the orders that precede the probe
/// from those that do not.
pub proof fn lemma_rank_splits(side: Side, s: Seq<OrderTracker>, probe: OrderTracker)
    requires
        queue_wf(side, s),
        probe.side == side,
    ensures
        0 <= rank(s, probe) <= s.len(),
        forall|j: int| 0 <= j < rank(s, probe) ==> (#[trigger] s[j]).precedes(probe),
        forall|j: int| rank(s, probe) <= j < s.len() ==> !(#[trigger] s[j]).precedes(probe),
    decreases s.len(),
{
    if s.len() > 0 {
        let t = s.drop_first();
        if s[0].precedes(probe) {
            lemma_tail_wf(side, s);
            lemma_rank_splits(side, t, probe);
            assert forall|j: int| 0 < j < s.len() implies #[trigger] s[j] == t[j - 1] by {}
        } else {
            assert forall|j: int| 0 < j < s.len() implies !(#[trigger] s[j]).precedes(probe) by {
                assert(s[0].precedes(s[j]));
            }
        }
    }
}

/// Putting an order with a fresh key in at its rank keeps the queue well formed.
pub proof fn lemma_insert_sorted_wf(side: Side, s: Seq<OrderTracker>, t: OrderTracker)
    requires
        queue_wf(side, s),
        t.side == side,
        t.quantity > 0,
        !has_key(s, t),
    ensures
        queue_wf(side, insert_sorted(s, t)),
{
    lemma_rank_splits(side, s, t);
}

/// Taking an order out keeps the queue well formed, and leaves its key free.
pub proof fn lemma_remove_wf(side: Side, s: Seq<OrderTracker>, i: int)
    requires
        queue_wf(side, s),
        0 <= i < s.len(),
    ensures
        queue_wf(side, s.remove(i)),
        !has_key(s.remove(i), s[i]),
{
}

} // verus!
