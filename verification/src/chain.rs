//! One side of the book: resting orders in matching priority, with the
//! aggregate quantity per price kept alongside.

use std::collections::HashMap;
use vstd::prelude::*;
use crate::depth::{
    depth_at, lemma_depth_bound, lemma_depth_covers, lemma_depth_insert, lemma_depth_remove,
};
use crate::queue::{
    has_key, insert_sorted, is_match, is_only_match, lemma_insert_sorted_wf, lemma_rank_splits,
    lemma_rank_unique, lemma_remove_wf, locate, queue_wf, rank,
};
use crate::side::Side;
use crate::tracker::OrderTracker;

verus! {

broadcast use vstd::std_specs::hash::group_hash_axioms;

/// The top of one side: the best price and the aggregate quantity resting there.
#[derive(Debug, Clone, Copy, PartialEq, Eq, Structural)]
pub struct BBO {
    pub quantity: u128,
    pub price: u32,
}

/// One side of the book.
pub struct Chain {
    data: Vec<OrderTracker>,
    depths: HashMap<u32, u128>,
    side: Side,
}

/// Whether the index holds, for `price`, exactly the depth of `s` there: an
/// entry with the total if any quantity rests at that price, and none otherwise.
pub open spec fn mirrors(index: Map<u32, u128>, s: Seq<OrderTracker>, price: u32) -> bool {
    &&& index.contains_key(price) <==> depth_at(s, price) > 0
    &&& index.contains_key(price) ==> index[price] == depth_at(s, price)
}

/// The index that mirrors `s` at every price.
pub open spec fn depth_map(s: Seq<OrderTracker>) -> Map<u32, u128> {
    Map::new(|p: u32| depth_at(s, p) > 0, |p: u32| depth_at(s, p) as u128)
}

impl View for Chain {
    type V = Seq<OrderTracker>;

    /// The resting orders, best first.
    closed spec fn view(&self) -> Seq<OrderTracker> {
        self.data@
    }
}

impl Chain {
    /// The side whose orders this chain holds.
    pub closed spec fn spec_side(&self) -> Side {
        self.side
    }

    /// The price-to-quantity index as it is stored.
    pub closed spec fn depth_index(&self) -> Map<u32, u128> {
        self.depths@
    }

    /// The chain's invariant: the orders form a well-formed queue of the
    /// chain's side, and the stored index mirrors them at every price.
    pub open spec fn wf(&self) -> bool {
        &&& queue_wf(self.spec_side(), self@)
        &&& forall|p: u32| #[trigger] mirrors(self.depth_index(), self@, p)
    }

    /// Under the invariant the stored index is a function of the orders.
    pub proof fn lemma_index_is_depth_map(&self)
        requires
            self.wf(),
        ensures
            self.depth_index() == depth_map(self@),
    {
        assert forall|p: u32| #[trigger]
            self.depth_index().contains_key(p) == depth_map(self@).contains_key(p) by {
            assert(mirrors(self.depth_index(), self@, p));
        }
        assert forall|p: u32| #[trigger]
            self.depth_index().contains_key(p) implies self.depth_index()[p] == depth_map(self@)[p] by {
            assert(mirrors(self.depth_index(), self@, p));
            self.lemma_depth_fits(p);
        }
    }

    /// The orders are held in memory, so their number fits in `usize`.
    pub proof fn lemma_len_fits(&self)
        ensures
            self@.len() <= usize::MAX,
    {
        assert(self.data@.len() == self.data.len());
    }

    /// The depth at any price fits in 128 bits: there are at most
    /// `usize::MAX` orders of at most `u32::MAX` units each.
    pub proof fn lemma_depth_fits(&self, price: u32)
        ensures
            depth_at(self@, price) <= u128::MAX,
    {
        lemma_depth_bound(self@, price);
        self.lemma_len_fits();
        assert(self@.len() * (u32::MAX as nat) <= u128::MAX) by (nonlinear_arith)
            requires
                self@.len() <= usize::MAX,
        ;
    }

    /// An empty chain for one side.
    pub fn new(side: Side) -> (r: Self)
        ensures
            r.wf(),
            r.spec_side() == side,
            r@ == Seq::<OrderTracker>::empty(),
    {
        let r = Self { data: Vec::new(), depths: HashMap::new(), side };
        assert forall|p: u32| #[trigger] mirrors(r.depth_index(), r@, p) by {}
        r
    }

    /// The side whose orders this chain holds.
    pub fn side(&self) -> (r: Side)
        ensures
            r == self.spec_side(),
    {
        self.side
    }

    /// How many orders rest on this side.
    pub fn len(&self) -> (r: usize)
        ensures
            r == self@.len(),
    {
        self.data.len()
    }

    /// The best price on this side, if any order rests here.
    pub fn bbo(&self) -> (r: Option<u32>)
        ensures
            r == (if self@.len() > 0 {
                Some(self@[0].price)
            } else {
                None
            }),
    {
        if self.data.len() > 0 {
            Some(self.data[0].price)
        } else {
            None
        }
    }

    /// The order with the highest priority, without taking it out.
    pub fn first(&self) -> (r: Option<&OrderTracker>)
        ensures
            r == (if self@.len() > 0 {
                Some(&self@[0])
            } else {
                None
            }),
    {
        if self.data.len() > 0 {
            Some(&self.data[0])
        } else {
            None
        }
    }

    /// The best price with the aggregate quantity resting at it.
    pub fn best(&self) -> (r: Option<BBO>)
        requires
            self.wf(),
        ensures
            r == (if self@.len() > 0 {
                Some(BBO { price: self@[0].price, quantity: depth_at(self@, self@[0].price) as u128 })
            } else {
                None
            }),
    {
        if self.data.len() == 0 {
            return None;
        }
        let price = self.data[0].price;
        proof {
            assert(mirrors(self.depth_index(), self@, price));
            lemma_depth_covers(self@, 0, price);
        }
        let quantity = match self.depths.get(&price) {
            Some(q) => *q,
            None => 0,
        };
        Some(BBO { price, quantity })
    }

    /// A copy of the whole price-to-quantity index.
    pub fn depth_snapshot(&self) -> (r: HashMap<u32, u128>)
        ensures
            r@ == self.depth_index(),
    {
        self.depths.clone()
    }

    /// The aggregate quantity resting at one price; zero where nothing rests.
    pub fn depth(&self, price: u32) -> (r: u128)
        requires
            self.wf(),
        ensures
            r == depth_at(self@, price),
    {
        proof {
            assert(mirrors(self.depth_index(), self@, price));
        }
        match self.depths.get(&price) {
            Some(q) => *q,
            None => 0,
        }
    }

    /// Takes out and returns the order with the highest priority.
    pub fn pop_first(&mut self) -> (r: Option<OrderTracker>)
        requires
            old(self).wf(),
        ensures
            final(self).wf(),
            final(self).spec_side() == old(self).spec_side(),
            old(self)@.len() == 0 ==> r is None && final(self)@ == old(self)@,
            old(self)@.len() > 0 ==> r == Some(old(self)@[0]) && final(self)@ == old(self)@.drop_first(),
    {
        if self.data.len() == 0 {
            return None;
        }
        let ghost before = self@;
        let ghost index = self.depth_index();
        let ot = self.data.remove(0);
        proof {
            lemma_remove_wf(self.side, before, 0);
            assert(mirrors(index, before, ot.price));
            lemma_depth_covers(before, 0, ot.price);
        }
        debit(&mut self.depths, ot.price, ot.quantity);
        proof {
            assert forall|p: u32| #[trigger] mirrors(self.depths@, self.data@, p) by {
                assert(mirrors(index, before, p));
                lemma_depth_remove(before, 0, p);
            }
        }
        Some(ot)
    }

    /// Puts an order in at its place in the priority order and adds its
    /// quantity to the depth at its price. An order of the other side, one
    /// with no quantity, or one whose price and sequence number are already
    /// taken is refused, and the chain stays as it was.
    pub fn insert(&mut self, ot: OrderTracker) -> (r: bool)
        requires
            old(self).wf(),
        ensures
            final(self).wf(),
            final(self).spec_side() == old(self).spec_side(),
            r <==> ot.side == old(self).spec_side() && ot.quantity > 0 && !has_key(old(self)@, ot),
            r ==> final(self)@ == insert_sorted(old(self)@, ot),
            !r ==> final(self)@ == old(self)@,
    {
        if !(ot.side == self.side) || ot.quantity == 0 {
            return false;
        }
        let pos = self.lower_bound(&ot);
        let ghost before = self@;
        let ghost index = self.depth_index();
        proof {
            lemma_rank_splits(self.side, before, ot);
        }
        if pos < self.data.len() && self.data[pos].price == ot.price && self.data[pos].sequence
            == ot.sequence {
            return false;
        }
        proof {
            // the orders before `pos` precede `ot` and those after it follow it
            assert(!has_key(before, ot));
            lemma_insert_sorted_wf(self.side, before, ot);
            assert(mirrors(index, before, ot.price));
            lemma_depth_bound(before, ot.price);
            assert(before.len() * (u32::MAX as nat) + u32::MAX <= u128::MAX) by (nonlinear_arith)
                requires
                    before.len() <= usize::MAX,
            ;
        }
        self.data.insert(pos, ot);
        credit(&mut self.depths, ot.price, ot.quantity);
        proof {
            assert forall|p: u32| #[trigger] mirrors(self.depths@, self.data@, p) by {
                assert(mirrors(index, before, p));
                lemma_depth_insert(before, pos as int, ot, p);
            }
        }
        true
    }

    /// A copy of the order that a lookup by price and uid designates: the only
    /// order at that price under that uid. Nothing is returned where no order
    /// or more than one fits.
    pub fn find_and_clone(&self, price: u32, uid: u64) -> (r: Option<OrderTracker>)
        requires
            self.wf(),
        ensures
            r == (match locate(self@, price, uid) {
                Some(i) => Some(self@[i]),
                None => None,
            }),
    {
        match self.find_index(price, uid) {
            Some(i) => Some(self.data[i]),
            None => None,
        }
    }

    /// Takes out the order that a lookup by price and uid designates and
    /// subtracts its quantity from the depth at its price. Where the lookup
    /// designates none, nothing changes.
    pub fn remove(&mut self, price: u32, uid: u64) -> (r: Option<OrderTracker>)
        requires
            old(self).wf(),
        ensures
            final(self).wf(),
            final(self).spec_side() == old(self).spec_side(),
            match locate(old(self)@, price, uid) {
                Some(i) => r == Some(old(self)@[i]) && final(self)@ == old(self)@.remove(i),
                None => r is None && final(self)@ == old(self)@,
            },
    {
        let i = match self.find_index(price, uid) {
            Some(i) => i,
            None => {
                return None;
            },
        };
        let ghost before = self@;
        let ghost index = self.depth_index();
        let ot = self.data.remove(i);
        proof {
            lemma_remove_wf(self.side, before, i as int);
            assert(mirrors(index, before, ot.price));
            lemma_depth_covers(before, i as int, ot.price);
        }
        debit(&mut self.depths, ot.price, ot.quantity);
        proof {
            assert forall|p: u32| #[trigger] mirrors(self.depths@, self.data@, p) by {
                assert(mirrors(index, before, p));
                lemma_depth_remove(before, i as int, p);
            }
        }
        Some(ot)
    }

    /// The number of resting orders that precede `probe`, by binary search.
    fn lower_bound(&self, probe: &OrderTracker) -> (r: usize)
        requires
            self.wf(),
            probe.side == self.spec_side(),
        ensures
            r == rank(self@, *probe),
    {
        let mut lo: usize = 0;
        let mut hi: usize = self.data.len();
        while lo < hi
            invariant
                0 <= lo <= hi <= self.data@.len(),
                queue_wf(self.side, self.data@),
                probe.side == self.side,
                forall|j: int| 0 <= j < lo ==> (#[trigger] self.data@[j]).precedes(*probe),
                forall|j: int| hi <= j < self.data@.len() ==> !(#[trigger] self.data@[j]).precedes(*probe),
            decreases hi - lo,
        {
            let mid = lo + (hi - lo) / 2;
            if self.data[mid].comes_before(probe) {
                lo = mid + 1;
            } else {
                hi = mid;
            }
        }
        proof {
            lemma_rank_unique(self.data@, *probe, lo as int);
        }
        lo
    }

    /// The index of the only order at `price` under `uid`, found by scanning
    /// that price level alone.
    fn find_index(&self, price: u32, uid: u64) -> (r: Option<usize>)
        requires
            self.wf(),
        ensures
            match r {
                Some(i) => locate(self@, price, uid) == Some(i as int) && i < self@.len(),
                None => locate(self@, price, uid) is None,
            },
    {
        let (from, to) = OrderTracker::into_bounds(price, self.side);
        let start = self.lower_bound(&from);
        let ghost s = self.data@;
        proof {
            lemma_rank_splits(self.side, s, from);
        }
        let mut i = start;
        let mut found: Option<usize> = None;
        let mut twice = false;
        let ghost mut other: int = 0;
        while i < self.data.len() && !to.comes_before(&self.data[i])
            invariant
                s == self.data@,
                queue_wf(self.side, s),
                from == (OrderTracker { uid: 0, sequence: 0, quantity: 0, price, side: self.side }),
                to == (OrderTracker { uid: 0, sequence: u64::MAX, quantity: 0, price, side: self.side }),
                start <= i <= s.len(),
                forall|j: int| 0 <= j < start ==> (#[trigger] s[j]).precedes(from),
                forall|j: int| start <= j < s.len() ==> !(#[trigger] s[j]).precedes(from),
                forall|j: int| start <= j < i ==> (#[trigger] s[j]).price == price,
                found is None ==> !twice && forall|j: int| 0 <= j < i ==> !is_match(s, j, price, uid),
                found matches Some(k) ==> k < i && is_match(s, k as int, price, uid),
                found matches Some(k) ==> !twice ==> forall|j: int|
                    0 <= j < i && is_match(s, j, price, uid) ==> j == k,
                found matches Some(k) ==> twice ==> other != k && is_match(s, other, price, uid),
            decreases s.len() - i,
        {
            if self.data[i].uid == uid {
                match found {
                    Some(_) => {
                        twice = true;
                        proof {
                            other = i as int;
                        }
                    },
                    None => {
                        found = Some(i);
                    },
                }
            }
            i = i + 1;
        }
        // the level ends at `i`: nothing further on rests at this price
        assert forall|j: int| i <= j < s.len() implies (#[trigger] s[j]).price != price by {}
        match found {
            Some(k) => {
                if twice {
                    assert(is_match(s, other, price, uid) && is_match(s, k as int, price, uid));
                    None
                } else {
                    assert(is_only_match(s, k as int, price, uid));
                    Some(k)
                }
            },
            None => None,
        }
    }
}

/// Adds `quantity` to the entry for `price`, making the entry if there is none.
fn credit(depths: &mut HashMap<u32, u128>, price: u32, quantity: u32)
    requires
        old(depths)@.contains_key(price) ==> old(depths)@[price] + quantity <= u128::MAX,
    ensures
        final(depths)@ == old(depths)@.insert(
            price,
            (if old(depths)@.contains_key(price) {
                old(depths)@[price]
            } else {
                0
            } + quantity) as u128,
        ),
{
    let held: u128 = match depths.get(&price) {
        Some(q) => *q,
        None => 0,
    };
    depths.insert(price, held + quantity as u128);
}

/// Subtracts `quantity` from the entry for `price` and drops the entry when
/// nothing is left of it.
fn debit(depths: &mut HashMap<u32, u128>, price: u32, quantity: u32)
    requires
        old(depths)@.contains_key(price),
        old(depths)@[price] >= quantity,
    ensures
        final(depths)@ == (if old(depths)@[price] == quantity {
            old(depths)@.remove(price)
        } else {
            old(depths)@.insert(price, (old(depths)@[price] - quantity) as u128)
        }),
{
    let held: u128 = match depths.get(&price) {
        Some(q) => *q,
        None => 0,
    };
    if held == quantity as u128 {
        depths.remove(&price);
    } else {
        depths.insert(price, held - quantity as u128);
    }
}

} // verus!
