use order_book::book::{BookSnapshot, InvalidOrder};
use order_book::matching::Trade;
use order_book::order::{ContentAddress, Order, PredicateAddress, Side};
use order_book::service::BookService;

fn owner(tag: u8) -> Vec<PredicateAddress> {
    vec![PredicateAddress { contract: ContentAddress([tag; 32]), predicate: ContentAddress([0; 32]) }]
}

fn resting(price: i64, quantity: i64, tag: u8) -> Order {
    Order { price, quantity, addresses: owner(tag) }
}

#[test]
fn service_starts_empty() {
    let mut service = BookService::new();
    assert_eq!(service.get_snapshot(), BookSnapshot { bids: Vec::new(), asks: Vec::new() });
    assert!(service.run_match().is_empty());
}

#[test]
fn crossing_correctness() {
    let mut service = BookService::new();
    assert_eq!(service.add_bid(105, 10, owner(1)), Ok(()));
    assert_eq!(service.add_bid(100, 5, owner(2)), Ok(()));
    assert_eq!(service.add_bid(90, 5, owner(3)), Ok(()));
    assert_eq!(service.add_ask(99, 8, owner(4)), Ok(()));
    assert_eq!(service.add_ask(98, 15, owner(5)), Ok(()));
    let trades = service.run_match();
    assert_eq!(
        trades,
        vec![
            Trade { bid_remainder: resting(105, 10, 1), ask_remainder: resting(98, 10, 5) },
            Trade { bid_remainder: resting(100, 5, 2), ask_remainder: resting(98, 5, 5) },
        ]
    );
    let matched: i64 = trades.iter().map(|t| t.ask_remainder.quantity).sum();
    assert_eq!(matched, 15);
    assert_eq!(
        service.get_snapshot(),
        BookSnapshot { bids: vec![resting(90, 5, 3)], asks: vec![resting(99, 8, 4)] }
    );
}

#[test]
fn no_cross_case() {
    let mut service = BookService::new();
    service.add_bid(50, 1, owner(1)).unwrap();
    service.add_ask(60, 1, owner(2)).unwrap();
    assert!(service.run_match().is_empty());
    assert_eq!(
        service.get_snapshot(),
        BookSnapshot { bids: vec![resting(50, 1, 1)], asks: vec![resting(60, 1, 2)] }
    );
}

#[test]
fn equal_price_cross() {
    let mut service = BookService::new();
    service.add_bid(100, 5, owner(1)).unwrap();
    service.add_ask(100, 5, owner(2)).unwrap();
    let trades = service.run_match();
    assert_eq!(trades.len(), 1);
    assert_eq!(trades[0].bid_remainder.quantity, 5);
    assert_eq!(trades[0].ask_remainder.quantity, 5);
    assert_eq!(service.get_snapshot(), BookSnapshot { bids: Vec::new(), asks: Vec::new() });
}

#[test]
fn add_bid_with_zero_quantity_fails() {
    let mut service = BookService::new();
    service.add_bid(10, 2, owner(1)).unwrap();
    let before = service.get_snapshot();
    assert_eq!(service.add_bid(11, 0, owner(2)), Err(InvalidOrder));
    assert_eq!(service.get_snapshot(), before);
}

#[test]
fn add_ask_with_bad_quantity_fails() {
    let mut service = BookService::new();
    assert_eq!(service.add_ask(11, 0, owner(2)), Err(InvalidOrder));
    assert_eq!(service.add_ask(11, -3, owner(2)), Err(InvalidOrder));
    assert_eq!(service.add_bid(11, -3, owner(2)), Err(InvalidOrder));
    assert_eq!(service.get_snapshot(), BookSnapshot { bids: Vec::new(), asks: Vec::new() });
}

#[test]
fn cancel_twice_is_cancel_once() {
    let mut service = BookService::new();
    service.add_bid(10, 1, owner(1)).unwrap();
    service.add_bid(11, 1, owner(2)).unwrap();
    service.add_bid(10, 1, owner(3)).unwrap();
    service.add_ask(10, 1, owner(4)).unwrap();
    service.cancel(Side::Bid, 10);
    let once = service.get_snapshot();
    assert_eq!(once, BookSnapshot { bids: vec![resting(11, 1, 2)], asks: vec![resting(10, 1, 4)] });
    service.cancel(Side::Bid, 10);
    assert_eq!(service.get_snapshot(), once);
}

#[test]
fn cancel_of_absent_price_is_no_error() {
    let mut service = BookService::new();
    service.add_ask(10, 1, owner(4)).unwrap();
    service.cancel(Side::Ask, 11);
    service.cancel(Side::Bid, 10);
    assert_eq!(service.get_snapshot(), BookSnapshot { bids: Vec::new(), asks: vec![resting(10, 1, 4)] });
}

#[test]
fn match_sees_the_last_completed_change() {
    let mut service = BookService::new();
    service.add_bid(10, 4, owner(1)).unwrap();
    service.add_ask(9, 4, owner(2)).unwrap();
    service.cancel(Side::Ask, 9);
    assert!(service.run_match().is_empty());
    service.add_ask(10, 1, owner(3)).unwrap();
    assert_eq!(
        service.run_match(),
        vec![Trade { bid_remainder: resting(10, 1, 1), ask_remainder: resting(10, 1, 3) }]
    );
    assert_eq!(service.get_snapshot(), BookSnapshot { bids: vec![resting(10, 3, 1)], asks: Vec::new() });
}

#[test]
fn independent_services_do_not_share_a_book() {
    let mut one = BookService::new();
    let other = BookService::new();
    one.add_bid(1, 1, owner(1)).unwrap();
    assert_eq!(other.get_snapshot(), BookSnapshot { bids: Vec::new(), asks: Vec::new() });
    assert_eq!(one.get_snapshot().bids.len(), 1);
}
