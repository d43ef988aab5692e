//! The catalog that the exchange starts from: one instrument, two users, one
//! resting order.

use crate::db::{Account, Stock, User};
use crate::order::{Order, TransactionType};
use vstd::prelude::*;

verus! {

/// The one instrument on file.
pub open spec fn is_googl(stock: Stock) -> bool {
    &&& stock.stock_id == 1
    &&& stock.ticker@ == "GOOGL"@
    &&& stock.price == 130
    &&& stock.qty == 1
}

/// The first user on file: 50 000 in balance and one share of the
/// instrument.
pub open spec fn is_first_user(account: Account) -> bool {
    &&& account.user_id == 1
    &&& account.balance == 50_000
    &&& account.holdings.len() == 1
    &&& is_googl(account.holdings[0])
}

/// The second user on file: 50 000 in balance and no holdings.
pub open spec fn is_second_user(account: Account) -> bool {
    &&& account.user_id == 2
    &&& account.balance == 50_000
    &&& account.holdings.len() == 0
}

/// The one order on file: the first user sells one share at 134.
pub open spec fn order_on_file() -> Order {
    Order { stock_id: 1, user_id: 1, price: 134, qty: 1, transaction_type: TransactionType::Ask }
}

/// The instruments on file.
pub fn db_stocks() -> (stocks: Vec<Stock>)
    ensures
        stocks@.len() == 1,
        is_googl(stocks@[0]),
{
    vec![Stock { stock_id: 1, ticker: "GOOGL".to_owned(), price: 130, qty: 1 }]
}

/// The users on file.
pub fn db_users() -> (users: Vec<User>)
    ensures
        users@.len() == 2,
        is_first_user(users@[0]@),
        is_second_user(users@[1]@),
{
    vec![
        User { user_id: 1, balance: 50_000, stocks: db_stocks() },
        User { user_id: 2, balance: 50_000, stocks: vec![] },
    ]
}

/// The orders on file.
pub fn db_orders() -> (orders: Vec<Order>)
    ensures
        orders@ == seq![order_on_file()],
{
    let orders = vec![
        Order { user_id: 1, stock_id: 1, price: 134, qty: 1, transaction_type: TransactionType::Ask },
    ];
    assert(orders@ =~= seq![order_on_file()]);
    orders
}

} // verus!
