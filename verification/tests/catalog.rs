use trading_system::db::mock_db::{db_orders, db_stocks, db_users};
use trading_system::db::{Stock, User};
use trading_system::exchange::Exchange;
use trading_system::order::{Order, TransactionType};

fn googl() -> Stock {
    Stock { stock_id: 1, ticker: "GOOGL".to_string(), price: 130, qty: 1 }
}

#[test]
fn one_instrument_is_on_file() {
    assert_eq!(db_stocks(), vec![googl()]);
}

#[test]
fn two_users_are_on_file() {
    assert_eq!(
        db_users(),
        vec![
            User { user_id: 1, balance: 50_000, stocks: vec![googl()] },
            User { user_id: 2, balance: 50_000, stocks: vec![] },
        ]
    );
}

#[test]
fn one_order_is_on_file() {
    assert_eq!(db_orders(), vec![Order::new(1, 1, 134, 1, TransactionType::Ask)]);
}

#[test]
fn get_stock_finds_what_is_on_file() {
    assert_eq!(Stock::get_stock(1), Some(googl()));
    assert_eq!(Stock::get_stock(0), None);
    assert_eq!(Stock::get_stock(2), None);
}

#[test]
fn get_user_finds_who_is_on_file() {
    assert_eq!(User::get_user(1), Some(User { user_id: 1, balance: 50_000, stocks: vec![googl()] }));
    assert_eq!(User::get_user(2), Some(User { user_id: 2, balance: 50_000, stocks: vec![] }));
    assert_eq!(User::get_user(0), None);
    assert_eq!(User::get_user(3), None);
}

#[test]
fn position_is_that_of_the_first_account() {
    let users = db_users();
    assert_eq!(User::position(&users, 1), Some(0));
    assert_eq!(User::position(&users, 2), Some(1));
    assert_eq!(User::position(&users, 3), None);
    assert_eq!(User::position(&Vec::new(), 1), None);
}

#[test]
fn holding_is_that_of_the_first_entry() {
    let user = User {
        user_id: 1,
        balance: 0,
        stocks: vec![
            Stock { stock_id: 4, ticker: "A".to_string(), price: 1, qty: 10 },
            Stock { stock_id: 5, ticker: "B".to_string(), price: 1, qty: 20 },
            Stock { stock_id: 4, ticker: "A".to_string(), price: 1, qty: 30 },
        ],
    };
    assert_eq!(user.holding_entry(4), Some(0));
    assert_eq!(user.holding_entry(5), Some(1));
    assert_eq!(user.holding_entry(6), None);
    assert_eq!(user.holding(4), 10);
    assert_eq!(user.holding(5), 20);
    assert_eq!(user.holding(6), 0);
}

#[test]
fn clones_are_equal_to_what_they_copy() {
    let user = User { user_id: 1, balance: 5, stocks: vec![googl(), googl()] };
    assert_eq!(user.clone(), user);
    assert_eq!(googl().clone(), googl());
}

#[test]
fn the_exchange_opens_on_what_is_on_file() {
    let stock = Stock::get_stock(1).unwrap();
    let mut exchange = Exchange::new(stock, db_orders(), db_users());
    assert_eq!(exchange.book.asks, db_orders());
    assert!(exchange.book.bids.is_empty());
    let buy = trading_system::api::req::OrderRequest {
        stock_id: 1,
        user_id: 2,
        price: 140,
        qty: 1,
        transaction_type: TransactionType::Bid,
    };
    let response = exchange.submit(buy, true).unwrap();
    assert_eq!(response.filled_qty, 1);
    assert_eq!(response.remaining_qty, 0);
    assert_eq!(exchange.users[0].balance, 50_134);
    assert_eq!(exchange.users[0].stocks, vec![Stock { qty: 0, ..googl() }]);
    assert_eq!(exchange.users[1].balance, 49_866);
    assert_eq!(exchange.users[1].stocks, vec![googl()]);
    assert!(exchange.book.asks.is_empty());
}
