//! Responses.

use crate::db::{Account, Stock, User};
use crate::order::{Order, Orderbook};
use vstd::prelude::*;

verus! {

/// What became of a submitted order.
#[derive(Debug, Clone, Copy, PartialEq, Eq)]
pub struct OrderResponse {
    /// How much of it was traded.
    pub filled_qty: u32,
    /// How much of it was not, and now rests on the book.
    pub remaining_qty: u32,
}

/// A user's balance and holdings.
#[derive(Debug, PartialEq, Eq)]
pub struct BalanceResponse {
    pub user_id: u32,
    pub balance: u64,
    pub holdings: Vec<Stock>,
}

impl BalanceResponse {
    /// Whether the response shows `account`.
    pub open spec fn shows(self, account: Account) -> bool {
        &&& self.user_id == account.user_id
        &&& self.balance == account.balance
        &&& self.holdings@ == account.holdings
    }

    /// The response that shows `user`.
    pub fn from_user(user: User) -> (response: Self)
        ensures
            response.shows(user@),
            response.holdings == user.stocks,
    {
        BalanceResponse { user_id: user.user_id, balance: user.balance, holdings: user.stocks }
    }
}

/// The depth of a book: its instrument's ticker and both sides as they are
/// stored, highest price first.
#[derive(Debug, PartialEq, Eq)]
pub struct OrderbookResponse {
    pub stock: String,
    pub bids: Vec<Order>,
    pub asks: Vec<Order>,
}

impl OrderbookResponse {
    /// Whether the response shows `orderbook`.
    pub open spec fn shows(self, orderbook: Orderbook) -> bool {
        &&& self.stock == orderbook.stock.ticker
        &&& self.bids@ == orderbook.bids@
        &&& self.asks@ == orderbook.asks@
    }

    /// The response that shows `orderbook`.
    pub fn from_orderbook(orderbook: &Orderbook) -> (response: Self)
        ensures
            response.shows(*orderbook),
    {
        let bids = orderbook.bids.clone();
        let asks = orderbook.asks.clone();
        assert(bids@ =~= orderbook.bids@);
        assert(asks@ =~= orderbook.asks@);
        OrderbookResponse { stock: orderbook.stock.ticker.clone(), bids, asks }
    }
}

} // verus!
