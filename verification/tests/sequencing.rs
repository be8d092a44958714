use orderbook::exchange::{announcement, order_from_message, report, request_from_message};
use orderbook::{
    ClientMsg, Order, OrderError, OrderTracker, Outcome, Request, Sequencer, ServerMsg, Side, Trade, BBO,
};

fn trades_of(out: Outcome) -> Vec<Trade> {
    match out {
        Outcome::Placed(trades) => trades,
        other => panic!("not placed: {:?}", other),
    }
}

#[test]
fn message_fields_make_a_plain_order() {
    let o = order_from_message(3, "user-3", 10, 2500, true);
    assert_eq!(o.uid(), 3);
    assert_eq!(o.creator(), "user-3");
    assert_eq!(o.quantity(), 10);
    assert_eq!(o.price(), 2500);
    assert_eq!(o.side(), Side::Buy);
    assert!(!o.all_or_none() && !o.immediate_or_cancel());
    assert_eq!(order_from_message(3, "user-3", 10, 2500, false).side(), Side::Sell);
}

#[test]
fn requests_are_applied_in_order() {
    let mut s = Sequencer::new();
    assert_eq!(s.bbo(), (None, None));
    let out = s.submit(&Request::Place(Order::new_limit(1, "a", 5, 100, Side::Sell)));
    assert_eq!(trades_of(out), vec![]);
    let out = s.submit(&Request::Place(Order::new_limit(2, "b", 2, 100, Side::Buy)));
    assert_eq!(trades_of(out), vec![Trade { from: 1, to: 2, quantity: 2, price: 100, ts: 0 }]);
    assert_eq!(s.bbo(), (None, Some(BBO { price: 100, quantity: 3 })));
    let d = s.depths();
    assert!(d.bids.is_empty());
    assert_eq!(d.asks.get(&100), Some(&3));
}

#[test]
fn price_zero_is_a_market_order() {
    let mut s = Sequencer::new();
    s.submit(&Request::Place(Order::new_limit(1, "a", 5, 100, Side::Sell)));
    s.submit(&Request::Place(Order::new_limit(2, "a", 5, 200, Side::Sell)));
    let out = s.submit(&Request::Place(Order::new_limit(3, "b", 7, 0, Side::Buy)));
    assert_eq!(
        trades_of(out),
        vec![
            Trade { from: 1, to: 3, quantity: 5, price: 100, ts: 0 },
            Trade { from: 2, to: 3, quantity: 2, price: 200, ts: 0 },
        ]
    );
    // nothing of it rests
    assert!(s.depths().bids.is_empty());
    assert_eq!(s.depths().asks.get(&200), Some(&3));
}

#[test]
fn refusals_are_answered_and_change_nothing() {
    let mut s = Sequencer::new();
    s.submit(&Request::Place(Order::new_limit(1, "a", 5, 100, Side::Sell)));
    let out = s.submit(&Request::Place(Order::new_limit(2, "b", 0, 100, Side::Buy)));
    assert!(matches!(out, Outcome::Rejected(OrderError::InvalidOrder)));
    let out = s.submit(&Request::Place(Order::new_market(2, "b", 0, Side::Buy)));
    assert!(matches!(out, Outcome::Rejected(OrderError::InvalidOrder)));
    let aon = Order::new_limit(2, "b", 5, 100, Side::Buy).with_flags(true, false);
    let out = s.submit(&Request::Place(aon));
    assert!(matches!(out, Outcome::Rejected(OrderError::UnsupportedFlag)));
    assert_eq!(s.depths().asks.get(&100), Some(&5));
    assert!(s.depths().bids.is_empty());
}

#[test]
fn cancellation_is_answered() {
    let mut s = Sequencer::new();
    s.submit(&Request::Place(Order::new_limit(1, "a", 5, 100, Side::Sell)));
    let out = s.submit(&Request::Cancel { side: Side::Sell, price: 100, uid: 2 });
    assert!(matches!(out, Outcome::NotFound));
    let out = s.submit(&Request::Cancel { side: Side::Sell, price: 100, uid: 1 });
    match out {
        Outcome::Cancelled(t) => {
            assert_eq!(t, OrderTracker { uid: 1, sequence: 0, quantity: 5, price: 100, side: Side::Sell })
        }
        other => panic!("not cancelled: {:?}", other),
    }
    let out = s.submit(&Request::Cancel { side: Side::Sell, price: 100, uid: 1 });
    assert!(matches!(out, Outcome::NotFound));
    assert_eq!(s.bbo(), (None, None));
}

#[test]
fn a_cancellation_that_comes_after_the_fill_finds_nothing() {
    let mut s = Sequencer::new();
    s.submit(&Request::Place(Order::new_limit(1, "a", 5, 100, Side::Sell)));
    s.submit(&Request::Place(Order::new_limit(2, "b", 5, 100, Side::Buy)));
    let out = s.submit(&Request::Cancel { side: Side::Sell, price: 100, uid: 1 });
    assert!(matches!(out, Outcome::NotFound));
}

#[test]
fn an_order_message_makes_a_placement() {
    let msg = ClientMsg::Order { size: 10, price_cents: 2500, buy: false };
    match request_from_message(3, "user-3", &msg, 77) {
        Request::Place(o) => {
            assert_eq!(o.uid(), 3);
            assert_eq!(o.creator(), "user-3");
            assert_eq!(o.quantity(), 10);
            assert_eq!(o.price(), 2500);
            assert_eq!(o.side(), Side::Sell);
            assert_eq!(o.created_at(), 77);
            assert!(!o.all_or_none() && !o.immediate_or_cancel());
        }
        other => panic!("not a placement: {:?}", other),
    }
}

#[test]
fn a_cancel_message_makes_a_cancellation() {
    let msg = ClientMsg::Cancel { price_cents: 2500, buy: true };
    match request_from_message(3, "user-3", &msg, 77) {
        Request::Cancel { side, price, uid } => {
            assert_eq!((side, price, uid), (Side::Buy, 2500, 3));
        }
        other => panic!("not a cancellation: {:?}", other),
    }
}

#[test]
fn the_market_is_told_price_and_quantity() {
    let trades = vec![
        Trade { from: 1, to: 3, quantity: 5, price: 100, ts: 9 },
        Trade { from: 2, to: 3, quantity: 2, price: 200, ts: 9 },
    ];
    let told = report(&trades);
    assert_eq!(
        told,
        vec![
            orderbook::exchange::Trade { price_cents: 100, quantity: 5 },
            orderbook::exchange::Trade { price_cents: 200, quantity: 2 },
        ]
    );
    assert_eq!(report(&vec![]), vec![]);
}

#[test]
fn only_a_placement_that_traded_is_announced() {
    let traded = Outcome::Placed(vec![Trade { from: 1, to: 3, quantity: 5, price: 100, ts: 9 }]);
    match announcement(&traded) {
        Some(ServerMsg::Trades(told)) => {
            assert_eq!(told, vec![orderbook::exchange::Trade { price_cents: 100, quantity: 5 }])
        }
        other => panic!("not announced: {:?}", other),
    }
    assert!(announcement(&Outcome::Placed(vec![])).is_none());
    assert!(announcement(&Outcome::Rejected(OrderError::InvalidOrder)).is_none());
    assert!(announcement(&Outcome::NotFound).is_none());
    let t = OrderTracker { uid: 1, sequence: 0, quantity: 5, price: 100, side: Side::Sell };
    assert!(announcement(&Outcome::Cancelled(t)).is_none());
}

#[test]
fn the_depth_message_holds_both_sides() {
    let mut s = Sequencer::new();
    s.submit(&Request::Place(Order::new_limit(1, "a", 5, 100, Side::Sell)));
    s.submit(&Request::Place(Order::new_limit(2, "b", 4, 99, Side::Buy)));
    s.submit(&Request::Place(Order::new_limit(3, "c", 3, 99, Side::Buy)));
    match s.depth_message() {
        ServerMsg::DepthsBook { bids, asks } => {
            assert_eq!(bids.len(), 1);
            assert_eq!(bids.get(&99), Some(&7));
            assert_eq!(asks.len(), 1);
            assert_eq!(asks.get(&100), Some(&5));
        }
        other => panic!("not a depth message: {:?}", other),
    }
}
