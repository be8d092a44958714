use orderbook::{Chain, OrderTracker, Side, BBO};

fn ask(uid: u64, sequence: u64, quantity: u32, price: u32) -> OrderTracker {
    OrderTracker { uid, sequence, quantity, price, side: Side::Sell }
}

fn bid(uid: u64, sequence: u64, quantity: u32, price: u32) -> OrderTracker {
    OrderTracker { uid, sequence, quantity, price, side: Side::Buy }
}

fn drain(c: &mut Chain) -> Vec<OrderTracker> {
    let mut out = Vec::new();
    while let Some(t) = c.pop_first() {
        out.push(t);
    }
    out
}

#[test]
fn empty_chain() {
    let mut c = Chain::new(Side::Buy);
    assert_eq!(c.side(), Side::Buy);
    assert_eq!(c.len(), 0);
    assert_eq!(c.first(), None);
    assert_eq!(c.bbo(), None);
    assert_eq!(c.best(), None);
    assert_eq!(c.pop_first(), None);
    assert_eq!(c.remove(100, 1), None);
    assert_eq!(c.find_and_clone(100, 1), None);
    assert_eq!(c.depth(100), 0);
    assert!(c.depth_snapshot().is_empty());
}

#[test]
fn asks_come_out_lowest_price_first_then_oldest() {
    let mut c = Chain::new(Side::Sell);
    assert!(c.insert(ask(1, 5, 10, 101)));
    assert!(c.insert(ask(2, 6, 10, 100)));
    assert!(c.insert(ask(3, 2, 10, 101)));
    assert!(c.insert(ask(4, 9, 10, 99)));
    assert!(c.insert(ask(5, 1, 10, 100)));
    assert_eq!(c.len(), 5);
    assert_eq!(c.first(), Some(&ask(4, 9, 10, 99)));
    assert_eq!(
        drain(&mut c),
        vec![ask(4, 9, 10, 99), ask(5, 1, 10, 100), ask(2, 6, 10, 100), ask(3, 2, 10, 101), ask(1, 5, 10, 101)]
    );
}

#[test]
fn bids_come_out_highest_price_first_then_oldest() {
    let mut c = Chain::new(Side::Buy);
    assert!(c.insert(bid(1, 5, 10, 101)));
    assert!(c.insert(bid(2, 6, 10, 100)));
    assert!(c.insert(bid(3, 2, 10, 101)));
    assert!(c.insert(bid(4, 9, 10, 99)));
    assert!(c.insert(bid(5, 1, 10, 100)));
    assert_eq!(c.bbo(), Some(101));
    assert_eq!(
        drain(&mut c),
        vec![bid(3, 2, 10, 101), bid(1, 5, 10, 101), bid(5, 1, 10, 100), bid(2, 6, 10, 100), bid(4, 9, 10, 99)]
    );
}

#[test]
fn depth_follows_insert_pop_and_remove() {
    let mut c = Chain::new(Side::Sell);
    c.insert(ask(1, 0, 7, 100));
    c.insert(ask(2, 1, 5, 100));
    c.insert(ask(3, 2, 4, 102));
    assert_eq!(c.depth(100), 12);
    assert_eq!(c.depth(102), 4);
    assert_eq!(c.depth(101), 0);
    assert_eq!(c.best(), Some(BBO { price: 100, quantity: 12 }));
    let snapshot = c.depth_snapshot();
    assert_eq!(snapshot.len(), 2);
    assert_eq!(snapshot.get(&100), Some(&12));
    assert_eq!(snapshot.get(&102), Some(&4));

    assert_eq!(c.pop_first(), Some(ask(1, 0, 7, 100)));
    assert_eq!(c.depth(100), 5);
    assert_eq!(c.best(), Some(BBO { price: 100, quantity: 5 }));

    assert_eq!(c.remove(100, 2), Some(ask(2, 1, 5, 100)));
    // the level is used up: its entry is gone, not zero
    assert_eq!(c.depth_snapshot().get(&100), None);
    assert_eq!(c.depth_snapshot().len(), 1);
    assert_eq!(c.best(), Some(BBO { price: 102, quantity: 4 }));

    assert_eq!(c.pop_first(), Some(ask(3, 2, 4, 102)));
    assert!(c.depth_snapshot().is_empty());
    assert_eq!(c.best(), None);
}

#[test]
fn insert_refuses_the_other_side() {
    let mut c = Chain::new(Side::Sell);
    assert!(!c.insert(bid(1, 0, 7, 100)));
    assert_eq!(c.len(), 0);
    assert!(c.depth_snapshot().is_empty());
}

#[test]
fn insert_refuses_an_order_without_quantity() {
    let mut c = Chain::new(Side::Sell);
    assert!(!c.insert(ask(1, 0, 0, 100)));
    assert_eq!(c.len(), 0);
    assert!(c.depth_snapshot().is_empty());
}

#[test]
fn insert_refuses_a_key_that_is_taken() {
    let mut c = Chain::new(Side::Sell);
    assert!(c.insert(ask(1, 4, 7, 100)));
    assert!(!c.insert(ask(2, 4, 9, 100)));
    assert_eq!(c.len(), 1);
    assert_eq!(c.depth(100), 7);
    // the same sequence number at another price is another key
    assert!(c.insert(ask(2, 4, 9, 101)));
    assert_eq!(c.len(), 2);
}

#[test]
fn remove_looks_at_price_and_uid() {
    let mut c = Chain::new(Side::Buy);
    c.insert(bid(1, 0, 7, 100));
    c.insert(bid(2, 1, 5, 100));
    c.insert(bid(1, 2, 4, 99));
    assert_eq!(c.find_and_clone(100, 3), None);
    assert_eq!(c.find_and_clone(101, 1), None);
    assert_eq!(c.find_and_clone(99, 1), Some(bid(1, 2, 4, 99)));
    assert_eq!(c.len(), 3);
    assert_eq!(c.remove(100, 3), None);
    assert_eq!(c.remove(101, 1), None);
    assert_eq!(c.remove(99, 2), None);
    assert_eq!(c.len(), 3);
    assert_eq!(c.remove(100, 1), Some(bid(1, 0, 7, 100)));
    assert_eq!(c.remove(100, 1), None);
    assert_eq!(c.depth(100), 5);
    assert_eq!(c.depth(99), 4);
    assert_eq!(drain(&mut c), vec![bid(2, 1, 5, 100), bid(1, 2, 4, 99)]);
}

#[test]
fn remove_finds_nothing_where_two_orders_fit() {
    let mut c = Chain::new(Side::Buy);
    c.insert(bid(1, 0, 7, 100));
    c.insert(bid(1, 1, 5, 100));
    assert_eq!(c.find_and_clone(100, 1), None);
    assert_eq!(c.remove(100, 1), None);
    assert_eq!(c.len(), 2);
    assert_eq!(c.depth(100), 12);
}

#[test]
fn remove_finds_the_order_with_the_last_sequence_number() {
    let mut c = Chain::new(Side::Sell);
    c.insert(ask(1, u64::MAX, 7, 100));
    c.insert(ask(2, 0, 5, 100));
    c.insert(ask(3, 0, 5, 101));
    assert_eq!(c.remove(100, 1), Some(ask(1, u64::MAX, 7, 100)));
    assert_eq!(c.remove(100, 2), Some(ask(2, 0, 5, 100)));
    assert_eq!(c.remove(101, 3), Some(ask(3, 0, 5, 101)));
    assert_eq!(c.len(), 0);
}

#[test]
fn depth_holds_more_than_one_order_can() {
    let mut c = Chain::new(Side::Sell);
    c.insert(ask(1, 0, u32::MAX, 100));
    c.insert(ask(2, 1, u32::MAX, 100));
    c.insert(ask(3, 2, 1, 100));
    assert_eq!(c.depth(100), 2 * (u32::MAX as u128) + 1);
    assert_eq!(c.best(), Some(BBO { price: 100, quantity: 8589934591 }));
}
