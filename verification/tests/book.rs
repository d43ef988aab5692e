use trading_system::db::Stock;
use trading_system::order::priority::{do_all_rest_on, find_slot, is_sorted_by_price};
use trading_system::order::{Order, Orderbook, TransactionType};

fn acme() -> Stock {
    Stock { stock_id: 7, ticker: "ACME".to_string(), price: 50, qty: 1000 }
}

fn bid(user_id: u32, price: u64, qty: u32) -> Order {
    Order::new(7, user_id, price, qty, TransactionType::Bid)
}

fn ask(user_id: u32, price: u64, qty: u32) -> Order {
    Order::new(7, user_id, price, qty, TransactionType::Ask)
}

#[test]
fn order_new_keeps_its_arguments() {
    let order = Order::new(3, 4, 5, 6, TransactionType::Ask);
    assert_eq!(order.stock_id, 3);
    assert_eq!(order.user_id, 4);
    assert_eq!(order.price, 5);
    assert_eq!(order.qty, 6);
    assert_eq!(order.transaction_type, TransactionType::Ask);
}

#[test]
fn new_book_is_empty_and_well_formed() {
    let book = Orderbook::new(acme());
    assert_eq!(book.stock, acme());
    assert!(book.bids.is_empty());
    assert!(book.asks.is_empty());
    assert!(book.is_well_formed());
}

#[test]
fn bids_end_sorted_highest_first() {
    let mut book = Orderbook::new(acme());
    for (user, price) in [(1, 100), (2, 105), (3, 95), (4, 110), (5, 100)] {
        book.bid(bid(user, price, 1));
    }
    let prices: Vec<u64> = book.bids.iter().map(|o| o.price).collect();
    assert_eq!(prices, vec![110, 105, 100, 100, 95]);
    assert!(book.is_well_formed());
}

#[test]
fn equal_prices_keep_insertion_order() {
    let mut book = Orderbook::new(acme());
    book.bid(bid(1, 100, 1));
    book.bid(bid(2, 100, 2));
    book.bid(bid(3, 101, 3));
    book.bid(bid(4, 100, 4));
    book.bid(bid(5, 99, 5));
    book.bid(bid(6, 101, 6));
    let users: Vec<u32> = book.bids.iter().map(|o| o.user_id).collect();
    assert_eq!(users, vec![3, 6, 1, 2, 4, 5]);
}

#[test]
fn asks_are_stored_highest_first_too() {
    let mut book = Orderbook::new(acme());
    book.ask(ask(1, 100, 1));
    book.ask(ask(2, 90, 1));
    book.ask(ask(3, 100, 1));
    book.ask(ask(4, 120, 1));
    let seen: Vec<(u32, u64)> = book.asks.iter().map(|o| (o.user_id, o.price)).collect();
    assert_eq!(seen, vec![(4, 120), (1, 100), (3, 100), (2, 90)]);
    assert!(book.bids.is_empty());
    assert!(book.is_well_formed());
}

#[test]
fn place_order_goes_by_the_side_of_the_order() {
    let mut book = Orderbook::new(acme());
    book.place_order(bid(1, 10, 1)).place_order(ask(2, 20, 2)).place_order(bid(3, 11, 3));
    assert_eq!(book.bids, vec![bid(3, 11, 3), bid(1, 10, 1)]);
    assert_eq!(book.asks, vec![ask(2, 20, 2)]);
}

#[test]
fn find_slot_is_behind_equal_prices() {
    let side = vec![bid(1, 30, 1), bid(2, 20, 1), bid(3, 20, 1), bid(4, 10, 1)];
    assert_eq!(find_slot(&side, 40), 0);
    assert_eq!(find_slot(&side, 30), 1);
    assert_eq!(find_slot(&side, 25), 1);
    assert_eq!(find_slot(&side, 20), 3);
    assert_eq!(find_slot(&side, 10), 4);
    assert_eq!(find_slot(&side, 5), 4);
    assert_eq!(find_slot(&Vec::new(), 5), 0);
}

#[test]
fn from_places_each_order_on_its_side_in_turn() {
    let orders = vec![
        ask(1, 100, 1),
        bid(2, 90, 2),
        ask(3, 105, 3),
        bid(4, 95, 4),
        bid(5, 90, 5),
        ask(6, 100, 6),
    ];
    let book = Orderbook::from(acme(), orders);
    assert_eq!(book.stock, acme());
    assert_eq!(book.bids, vec![bid(4, 95, 4), bid(2, 90, 2), bid(5, 90, 5)]);
    assert_eq!(book.asks, vec![ask(3, 105, 3), ask(1, 100, 1), ask(6, 100, 6)]);
    assert!(book.is_well_formed());
}

#[test]
fn from_leaves_out_what_may_not_rest() {
    let orders = vec![
        bid(1, 90, 0),
        bid(2, 0, 5),
        Order::new(8, 3, 90, 5, TransactionType::Bid),
        bid(4, 90, 5),
        ask(5, 0, 1),
        ask(6, 95, 0),
    ];
    let book = Orderbook::from(acme(), orders);
    assert_eq!(book.bids, vec![bid(4, 90, 5)]);
    assert!(book.asks.is_empty());
}

#[test]
fn can_rest_on_checks_instrument_side_quantity_and_price() {
    assert!(bid(1, 10, 1).can_rest_on(7, TransactionType::Bid));
    assert!(!bid(1, 10, 1).can_rest_on(8, TransactionType::Bid));
    assert!(!bid(1, 10, 1).can_rest_on(7, TransactionType::Ask));
    assert!(!bid(1, 10, 0).can_rest_on(7, TransactionType::Bid));
    assert!(!bid(1, 0, 1).can_rest_on(7, TransactionType::Bid));
}

#[test]
fn is_well_formed_sees_a_side_out_of_order() {
    let mut book = Orderbook::new(acme());
    book.bids = vec![bid(1, 10, 1), bid(2, 11, 1)];
    assert!(!book.is_well_formed());
    book.bids = vec![bid(2, 11, 1), bid(1, 10, 1)];
    assert!(book.is_well_formed());
    book.asks = vec![bid(1, 10, 1)];
    assert!(!book.is_well_formed());
    book.asks = vec![ask(1, 10, 0)];
    assert!(!book.is_well_formed());
}

#[test]
fn sortedness_and_resting_are_decided_per_side() {
    assert!(is_sorted_by_price(&Vec::new()));
    assert!(is_sorted_by_price(&vec![bid(1, 5, 1)]));
    assert!(is_sorted_by_price(&vec![bid(1, 5, 1), bid(2, 5, 1), bid(3, 4, 1)]));
    assert!(!is_sorted_by_price(&vec![bid(1, 5, 1), bid(2, 4, 1), bid(3, 5, 1)]));
    assert!(do_all_rest_on(&Vec::new(), 7, TransactionType::Ask));
    assert!(do_all_rest_on(&vec![bid(1, 5, 1), bid(2, 4, 1)], 7, TransactionType::Bid));
    assert!(!do_all_rest_on(&vec![bid(1, 5, 1), ask(2, 4, 1)], 7, TransactionType::Bid));
}
