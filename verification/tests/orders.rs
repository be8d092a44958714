use orderbook::{Book, Order, OrderError, OrderTracker, Side, Trade};

#[test]
fn side_from_flag() {
    assert!(Side::Buy.is_buy());
    assert!(!Side::Sell.is_buy());
    assert_eq!(Side::from_is_buy(true), Side::Buy);
    assert_eq!(Side::from_is_buy(false), Side::Sell);
    assert_eq!(Side::from(true), Side::Buy);
    assert_eq!(Side::from(false), Side::Sell);
    assert_eq!(Side::Buy.opposite(), Side::Sell);
    assert_eq!(Side::Sell.opposite(), Side::Buy);
}

#[test]
fn limit_order_fields() {
    let o = Order::new_limit(7, "Arjun", 6, 101, Side::Buy);
    assert_eq!(o.uid(), 7);
    assert_eq!(o.creator(), "Arjun");
    assert_eq!(o.quantity(), 6);
    assert_eq!(o.price(), 101);
    assert_eq!(o.side(), Side::Buy);
    assert_eq!(o.created_at(), 0);
    assert!(!o.all_or_none());
    assert!(!o.immediate_or_cancel());
}

#[test]
fn market_order_has_price_zero() {
    let o = Order::new_market(8, "Bill", 20, Side::Sell);
    assert_eq!(o.uid(), 8);
    assert_eq!(o.creator(), "Bill");
    assert_eq!(o.quantity(), 20);
    assert_eq!(o.price(), 0);
    assert_eq!(o.side(), Side::Sell);
}

#[test]
fn builders_replace_only_what_they_name() {
    let o = Order::new_limit(1, "a", 2, 3, Side::Sell).with_flags(true, false).with_timestamp(99);
    assert!(o.all_or_none());
    assert!(!o.immediate_or_cancel());
    assert_eq!(o.created_at(), 99);
    assert_eq!((o.uid(), o.quantity(), o.price(), o.side()), (1, 2, 3, Side::Sell));
    let o = o.with_flags(false, true);
    assert!(!o.all_or_none());
    assert!(o.immediate_or_cancel());
    assert_eq!(o.created_at(), 99);
}

#[test]
fn tracker_from_order_takes_the_sequence() {
    let o = Order::new_limit(7, "Arjun", 6, 101, Side::Buy);
    let t = OrderTracker::from_order(&o, 42);
    assert_eq!(t, OrderTracker { uid: 7, sequence: 42, quantity: 6, price: 101, side: Side::Buy });
}

#[test]
fn bounds_enclose_a_price_level() {
    let (lo, hi) = OrderTracker::into_bounds(100, Side::Sell);
    assert_eq!(lo, OrderTracker { uid: 0, sequence: 0, quantity: 0, price: 100, side: Side::Sell });
    assert_eq!(hi, OrderTracker { uid: 0, sequence: u64::MAX, quantity: 0, price: 100, side: Side::Sell });
    let inside = OrderTracker { uid: 5, sequence: 17, quantity: 1, price: 100, side: Side::Sell };
    let below = OrderTracker { uid: 5, sequence: 17, quantity: 1, price: 99, side: Side::Sell };
    let above = OrderTracker { uid: 5, sequence: 17, quantity: 1, price: 101, side: Side::Sell };
    assert!(!inside.comes_before(&lo) && !hi.comes_before(&inside));
    assert!(below.comes_before(&lo));
    assert!(hi.comes_before(&above));
}

#[test]
fn priority_is_price_then_sequence() {
    let bid = |price: u32, sequence: u64| OrderTracker { uid: 0, sequence, quantity: 1, price, side: Side::Buy };
    let ask = |price: u32, sequence: u64| OrderTracker { uid: 0, sequence, quantity: 1, price, side: Side::Sell };
    // bids: the higher price first
    assert!(bid(101, 9).comes_before(&bid(100, 1)));
    assert!(!bid(100, 1).comes_before(&bid(101, 9)));
    // asks: the lower price first
    assert!(ask(99, 9).comes_before(&ask(100, 1)));
    assert!(!ask(100, 1).comes_before(&ask(99, 9)));
    // equal price: the lower sequence number first
    assert!(bid(100, 1).comes_before(&bid(100, 2)));
    assert!(!bid(100, 2).comes_before(&bid(100, 1)));
    assert!(ask(100, 1).comes_before(&ask(100, 2)));
    // nothing comes before itself
    assert!(!bid(100, 1).comes_before(&bid(100, 1)));
}

#[test]
fn reduce_quantity_takes_off_the_amount() {
    let mut t = OrderTracker { uid: 1, sequence: 2, quantity: 20, price: 100, side: Side::Buy };
    t.reduce_quantity(14);
    assert_eq!(t, OrderTracker { uid: 1, sequence: 2, quantity: 6, price: 100, side: Side::Buy });
    t.reduce_quantity(6);
    assert_eq!(t.quantity, 0);
}

#[test]
fn trade_is_described_in_one_line() {
    let t = Trade { from: 4, to: 3, quantity: 2, price: 101, ts: 77 };
    assert_eq!(t.describe(), "4 -> 3: 2 @ $101");
    let t = Trade { from: u64::MAX, to: 0, quantity: u32::MAX, price: 0, ts: 0 };
    assert_eq!(t.describe(), "18446744073709551615 -> 0: 4294967295 @ $0");
}

#[test]
fn limit_order_without_quantity_is_invalid() {
    let mut b = Book::new();
    b.place_limit(&Order::new_limit(0, "a", 5, 100, Side::Sell)).unwrap();
    let r = b.place_limit(&Order::new_limit(1, "b", 0, 100, Side::Buy));
    assert_eq!(r, Err(OrderError::InvalidOrder));
    assert_eq!(b.num_asks(), 1);
    assert_eq!(b.num_bids(), 0);
    assert_eq!(b.get_depths().1.get(&100), Some(&5));
}

#[test]
fn limit_order_without_price_is_invalid() {
    let mut b = Book::new();
    b.place_limit(&Order::new_limit(0, "a", 5, 100, Side::Buy)).unwrap();
    let r = b.place_limit(&Order::new_limit(1, "b", 3, 0, Side::Sell));
    assert_eq!(r, Err(OrderError::InvalidOrder));
    assert_eq!(b.get_depths().0.get(&100), Some(&5));
    assert_eq!(b.num_asks(), 0);
}

#[test]
fn market_order_without_quantity_is_invalid() {
    let mut b = Book::new();
    b.place_limit(&Order::new_limit(0, "a", 5, 100, Side::Buy)).unwrap();
    let r = b.place_market(&Order::new_market(1, "b", 0, Side::Sell));
    assert_eq!(r, Err(OrderError::InvalidOrder));
    assert_eq!(b.get_depths().0.get(&100), Some(&5));
}

#[test]
fn all_or_none_is_refused_and_nothing_trades() {
    let mut b = Book::new();
    b.place_limit(&Order::new_limit(0, "a", 5, 100, Side::Buy)).unwrap();
    let aon = Order::new_limit(1, "b", 3, 100, Side::Sell).with_flags(true, false);
    assert_eq!(b.place_limit(&aon), Err(OrderError::UnsupportedFlag));
    let aon = Order::new_market(1, "b", 3, Side::Sell).with_flags(true, false);
    assert_eq!(b.place_market(&aon), Err(OrderError::UnsupportedFlag));
    assert_eq!(b.get_depths().0.get(&100), Some(&5));
    assert_eq!(b.num_bids(), 1);
}

#[test]
fn invalid_comes_before_unsupported() {
    let mut b = Book::new();
    let o = Order::new_limit(1, "b", 0, 100, Side::Sell).with_flags(true, false);
    assert_eq!(b.place_limit(&o), Err(OrderError::InvalidOrder));
    let o = Order::new_market(1, "b", 0, Side::Sell).with_flags(true, false);
    assert_eq!(b.place_market(&o), Err(OrderError::InvalidOrder));
}

#[test]
fn limit_orders_are_refused_when_sequence_numbers_run_out() {
    let mut b = Book::with_first_sequence(u64::MAX - 1);
    // the last sequence number is handed out
    assert_eq!(b.place_limit(&Order::new_limit(0, "a", 5, 100, Side::Buy)), Ok(vec![]));
    assert_eq!(b.num_bids(), 1);
    // and then there is none left
    let r = b.place_limit(&Order::new_limit(1, "b", 5, 99, Side::Buy));
    assert_eq!(r, Err(OrderError::SequenceExhausted));
    let r = b.place_limit(&Order::new_limit(2, "c", 1, 100, Side::Sell));
    assert_eq!(r, Err(OrderError::SequenceExhausted));
    assert_eq!(b.num_bids(), 1);
    assert_eq!(b.get_depths().0.get(&100), Some(&5));
    // market orders never rest, so they still trade
    let trades = b.place_market(&Order::new_market(3, "d", 2, Side::Sell)).unwrap();
    assert_eq!(trades, vec![Trade { from: 3, to: 0, quantity: 2, price: 100, ts: 0 }]);
    // and the order that got the last number can still be cancelled
    let gone = b.cancel_order(Side::Buy, 100, 0);
    assert_eq!(
        gone,
        Some(OrderTracker { uid: 0, sequence: u64::MAX - 1, quantity: 3, price: 100, side: Side::Buy })
    );
}
