use trading_system::db::{Stock, User};
use trading_system::error::OrderError;
use trading_system::order::matching::Trade;
use trading_system::order::settlement::{check_settlement, settle, settle_all};
use trading_system::order::Orderbook;

fn gadget() -> Stock {
    Stock { stock_id: 1, ticker: "GDGT".to_string(), price: 10, qty: 500 }
}

fn other_stock() -> Stock {
    Stock { stock_id: 2, ticker: "OTHR".to_string(), price: 20, qty: 600 }
}

fn party(user_id: u32, balance: u64, stocks: Vec<Stock>) -> User {
    User { user_id, balance, stocks }
}

fn held(stock: Stock, qty: u32) -> Stock {
    Stock { qty, ..stock }
}

#[test]
fn settlement_moves_cost_and_quantity() {
    let mut book = Orderbook::new(gadget());
    let mut buyer = party(1, 1_000, vec![]);
    let mut seller = party(2, 50, vec![held(gadget(), 10)]);
    let result = book.flip_balances(&mut buyer, &mut seller, gadget(), 100, 4);
    assert_eq!(result, Ok(()));
    assert_eq!(buyer, party(1, 600, vec![held(gadget(), 4)]));
    assert_eq!(seller, party(2, 450, vec![held(gadget(), 6)]));
    assert!(book.bids.is_empty() && book.asks.is_empty());
}

#[test]
fn settlement_adds_to_an_entry_that_is_there() {
    let mut book = Orderbook::new(gadget());
    let mut buyer = party(1, 1_000, vec![held(other_stock(), 3), held(gadget(), 7)]);
    let mut seller = party(2, 0, vec![held(gadget(), 4), held(other_stock(), 9)]);
    let result = book.flip_balances(&mut buyer, &mut seller, gadget(), 250, 4);
    assert_eq!(result, Ok(()));
    assert_eq!(buyer, party(1, 0, vec![held(other_stock(), 3), held(gadget(), 11)]));
    assert_eq!(seller, party(2, 1_000, vec![held(gadget(), 0), held(other_stock(), 9)]));
}

#[test]
fn settlement_goes_by_the_first_entry_for_an_instrument() {
    let mut book = Orderbook::new(gadget());
    let mut buyer = party(1, 100, vec![held(gadget(), 1), held(gadget(), 50)]);
    let mut seller = party(2, 0, vec![held(gadget(), 2), held(gadget(), 50)]);
    assert_eq!(seller.holding(1), 2);
    let result = book.flip_balances(&mut buyer, &mut seller, gadget(), 1, 3);
    assert_eq!(result, Err(OrderError::InsufficientHoldings));
    let result = book.flip_balances(&mut buyer, &mut seller, gadget(), 1, 2);
    assert_eq!(result, Ok(()));
    assert_eq!(buyer.stocks, vec![held(gadget(), 3), held(gadget(), 50)]);
    assert_eq!(seller.stocks, vec![held(gadget(), 0), held(gadget(), 50)]);
}

#[test]
fn settlement_refuses_a_buyer_who_cannot_pay() {
    let mut book = Orderbook::new(gadget());
    let mut buyer = party(1, 399, vec![]);
    let mut seller = party(2, 50, vec![held(gadget(), 10)]);
    let result = book.flip_balances(&mut buyer, &mut seller, gadget(), 100, 4);
    assert_eq!(result, Err(OrderError::InsufficientBalance));
    assert_eq!(buyer, party(1, 399, vec![]));
    assert_eq!(seller, party(2, 50, vec![held(gadget(), 10)]));
}

#[test]
fn settlement_refuses_a_seller_who_holds_too_little() {
    let mut book = Orderbook::new(gadget());
    let mut buyer = party(1, 400, vec![]);
    let mut seller = party(2, 50, vec![held(gadget(), 3), held(other_stock(), 100)]);
    let result = book.flip_balances(&mut buyer, &mut seller, gadget(), 100, 4);
    assert_eq!(result, Err(OrderError::InsufficientHoldings));
    assert_eq!(buyer, party(1, 400, vec![]));
    assert_eq!(seller, party(2, 50, vec![held(gadget(), 3), held(other_stock(), 100)]));
    let mut stranger = party(3, 0, vec![]);
    let result = book.flip_balances(&mut buyer, &mut stranger, gadget(), 100, 4);
    assert_eq!(result, Err(OrderError::InsufficientHoldings));
}

#[test]
fn settlement_checks_the_balance_before_the_holding() {
    let buyer = party(1, 0, vec![]);
    let seller = party(2, 0, vec![]);
    assert_eq!(check_settlement(&buyer, &seller, 1, 1, 1), Some(OrderError::InsufficientBalance));
    assert_eq!(check_settlement(&buyer, &seller, 1, 0, 1), Some(OrderError::InsufficientHoldings));
    assert_eq!(check_settlement(&buyer, &seller, 1, 1, 0), None);
}

#[test]
fn settlement_refuses_a_cost_beyond_any_balance() {
    let buyer = party(1, u64::MAX, vec![]);
    let seller = party(2, 0, vec![held(gadget(), u32::MAX)]);
    assert_eq!(
        check_settlement(&buyer, &seller, 1, u64::MAX, 2),
        Some(OrderError::InsufficientBalance)
    );
    assert_eq!(
        check_settlement(&buyer, &seller, 1, u64::MAX, u32::MAX),
        Some(OrderError::InsufficientBalance)
    );
    assert_eq!(check_settlement(&buyer, &seller, 1, u64::MAX, 1), None);
    assert_eq!(check_settlement(&buyer, &seller, 1, 1 << 32, u32::MAX), None);
}

#[test]
fn settlement_refuses_to_overflow_the_sellers_balance() {
    let mut book = Orderbook::new(gadget());
    let mut buyer = party(1, 10, vec![]);
    let mut seller = party(2, u64::MAX - 9, vec![held(gadget(), 1)]);
    let result = book.flip_balances(&mut buyer, &mut seller, gadget(), 10, 1);
    assert_eq!(result, Err(OrderError::BalanceOverflow));
    assert_eq!(buyer, party(1, 10, vec![]));
    assert_eq!(seller, party(2, u64::MAX - 9, vec![held(gadget(), 1)]));
    let result = book.flip_balances(&mut buyer, &mut seller, gadget(), 9, 1);
    assert_eq!(result, Ok(()));
    assert_eq!(seller.balance, u64::MAX);
    assert_eq!(buyer.balance, 1);
}

#[test]
fn settlement_refuses_to_overflow_the_buyers_holding() {
    let mut book = Orderbook::new(gadget());
    let mut buyer = party(1, 10, vec![held(gadget(), u32::MAX - 1)]);
    let mut seller = party(2, 0, vec![held(gadget(), 5)]);
    let result = book.flip_balances(&mut buyer, &mut seller, gadget(), 1, 2);
    assert_eq!(result, Err(OrderError::HoldingsOverflow));
    assert_eq!(buyer, party(1, 10, vec![held(gadget(), u32::MAX - 1)]));
    assert_eq!(seller, party(2, 0, vec![held(gadget(), 5)]));
    let result = book.flip_balances(&mut buyer, &mut seller, gadget(), 1, 1);
    assert_eq!(result, Ok(()));
    assert_eq!(buyer.holding(1), u32::MAX);
}

#[test]
fn settle_finds_both_parties_in_the_catalog() {
    let mut users = vec![
        party(5, 1_000, vec![]),
        party(6, 0, vec![held(gadget(), 10)]),
        party(7, 3, vec![]),
    ];
    let trade = Trade { buyer_id: 5, seller_id: 6, price: 100, qty: 4 };
    assert_eq!(settle(&mut users, &gadget(), &trade), Ok(()));
    assert_eq!(
        users,
        vec![
            party(5, 600, vec![held(gadget(), 4)]),
            party(6, 400, vec![held(gadget(), 6)]),
            party(7, 3, vec![]),
        ]
    );
}

#[test]
fn settle_refuses_an_unknown_party() {
    let mut users = vec![party(5, 1_000, vec![]), party(6, 0, vec![held(gadget(), 10)])];
    let before = users.clone();
    let trade = Trade { buyer_id: 9, seller_id: 6, price: 100, qty: 4 };
    assert_eq!(settle(&mut users, &gadget(), &trade), Err(OrderError::UnknownAccount));
    let trade = Trade { buyer_id: 5, seller_id: 9, price: 100, qty: 4 };
    assert_eq!(settle(&mut users, &gadget(), &trade), Err(OrderError::UnknownAccount));
    assert_eq!(users, before);
}

#[test]
fn settle_goes_by_the_first_account_under_an_identifier() {
    let mut users = vec![
        party(5, 10, vec![]),
        party(5, 1_000, vec![]),
        party(6, 0, vec![held(gadget(), 10)]),
    ];
    let trade = Trade { buyer_id: 5, seller_id: 6, price: 100, qty: 1 };
    assert_eq!(settle(&mut users, &gadget(), &trade), Err(OrderError::InsufficientBalance));
    let trade = Trade { buyer_id: 5, seller_id: 6, price: 10, qty: 1 };
    assert_eq!(settle(&mut users, &gadget(), &trade), Ok(()));
    assert_eq!(users[0], party(5, 0, vec![held(gadget(), 1)]));
    assert_eq!(users[1], party(5, 1_000, vec![]));
}

#[test]
fn a_party_that_trades_with_itself_ends_where_it_began() {
    let mut users = vec![party(5, 1_000, vec![held(gadget(), 10)])];
    let trade = Trade { buyer_id: 5, seller_id: 5, price: 100, qty: 4 };
    assert_eq!(settle(&mut users, &gadget(), &trade), Ok(()));
    assert_eq!(users, vec![party(5, 1_000, vec![held(gadget(), 10)])]);
    let trade = Trade { buyer_id: 5, seller_id: 5, price: 100, qty: 11 };
    assert_eq!(settle(&mut users, &gadget(), &trade), Err(OrderError::InsufficientBalance));
    let trade = Trade { buyer_id: 5, seller_id: 5, price: 1, qty: 11 };
    assert_eq!(settle(&mut users, &gadget(), &trade), Err(OrderError::InsufficientHoldings));
    assert_eq!(users, vec![party(5, 1_000, vec![held(gadget(), 10)])]);
}

#[test]
fn settle_all_settles_in_turn() {
    let mut users = vec![
        party(1, 100, vec![]),
        party(2, 0, vec![held(gadget(), 10)]),
        party(3, 0, vec![]),
    ];
    let trades = vec![
        Trade { buyer_id: 1, seller_id: 2, price: 10, qty: 10 },
        Trade { buyer_id: 2, seller_id: 1, price: 20, qty: 5 },
        Trade { buyer_id: 3, seller_id: 1, price: 0, qty: 5 },
    ];
    assert_eq!(settle_all(&mut users, &gadget(), &trades), Ok(()));
    assert_eq!(
        users,
        vec![
            party(1, 100, vec![held(gadget(), 0)]),
            party(2, 0, vec![held(gadget(), 5)]),
            party(3, 0, vec![held(gadget(), 5)]),
        ]
    );
}

#[test]
fn settle_all_is_all_or_nothing() {
    let mut users = vec![party(1, 100, vec![]), party(2, 0, vec![held(gadget(), 10)])];
    let before = users.clone();
    let trades = vec![
        Trade { buyer_id: 1, seller_id: 2, price: 10, qty: 5 },
        Trade { buyer_id: 1, seller_id: 2, price: 10, qty: 5 },
        Trade { buyer_id: 1, seller_id: 2, price: 10, qty: 1 },
    ];
    assert_eq!(settle_all(&mut users, &gadget(), &trades), Err(OrderError::InsufficientBalance));
    assert_eq!(users, before);
    assert_eq!(settle_all(&mut users, &gadget(), &Vec::new()), Ok(()));
    assert_eq!(users, before);
}
