//! An exchange that many callers share.
//!
//! The exchange sits behind a readers-writer lock. A submission holds the
//! lock exclusively from before the fill until after what remains has been
//! placed, so that no caller ever sees a book on which a match has been made
//! and not yet carried out. Queries hold it shared. The lock admits only
//! well-formed exchanges, so that a caller has nothing to establish; what a
//! call returns is stated of the exchange as it stood when the lock was had.

use crate::api::req::OrderRequest;
use crate::api::res::{BalanceResponse, OrderResponse, OrderbookResponse};
use crate::db::{account_index, has_account, Stock, User};
use crate::error::OrderError;
use crate::exchange::{inadmissible, response_to, submitted, Exchange};
use crate::order::priority::sorted_by_price;
use crate::order::Order;
use vstd::prelude::*;
use vstd::rwlock::{RwLock, RwLockPredicate};

verus! {

/// What the lock admits: a well-formed exchange for the instrument listed.
pub struct Listed {
    pub stock_id: u32,
}

impl RwLockPredicate<Exchange> for Listed {
    open spec fn inv(self, exchange: Exchange) -> bool {
        exchange.wf() && exchange.book.stock.stock_id == self.stock_id
    }
}

/// An exchange behind its lock.
pub struct SharedExchange {
    lock: RwLock<Exchange, Listed>,
}

impl SharedExchange {
    /// The instrument that the exchange trades.
    pub closed spec fn stock_id(self) -> u32 {
        self.lock.pred().stock_id
    }

    /// Whether `exchange` is a state that the shared exchange may be in: it
    /// is well-formed and trades the instrument listed.
    pub open spec fn admits(self, exchange: Exchange) -> bool {
        exchange.wf() && exchange.book.stock.stock_id == self.stock_id()
    }

    /// A shared exchange for `stock` that starts as `Exchange::new` makes it.
    pub fn new(stock: Stock, orders: Vec<Order>, users: Vec<User>) -> (shared: Self)
        ensures
            shared.stock_id() == stock.stock_id,
    {
        let exchange = Exchange::new(stock, orders, users);
        let ghost listed = Listed { stock_id: exchange.book.stock.stock_id };
        SharedExchange { lock: RwLock::new(exchange, Ghost(listed)) }
    }

    /// Submits `request` as one step: the fill and the placing of what
    /// remains happen while the lock is held exclusively. The answer is that
    /// of `Exchange::submit` on the exchange as it stood. A request that is
    /// inadmissible is refused whatever that state was.
    pub fn submit(&self, request: OrderRequest, authorized: bool) -> (result: Result<
        OrderResponse,
        OrderError,
    >)
        ensures
            exists|before: Exchange|
                self.admits(before) && result == response_to(
                    #[trigger] submitted(before.book, before.accounts(), request, authorized),
                    request,
                ),
            match inadmissible(self.stock_id(), request, authorized) {
                Some(e) => result == Err::<OrderResponse, OrderError>(e),
                None => true,
            },
            match result {
                Ok(response) => response.filled_qty + response.remaining_qty == request.qty,
                Err(_) => true,
            },
    {
        let (mut exchange, handle) = self.lock.acquire_write();
        let ghost before = exchange;
        let result = exchange.submit(request, authorized);
        handle.release_write(exchange);
        assert(self.admits(before));
        result
    }

    /// The depth of the book as it stood while the lock was held shared. Both
    /// sides come ordered by price, highest first.
    pub fn depth(&self) -> (response: OrderbookResponse)
        ensures
            exists|now: Exchange| self.admits(now) && #[trigger] response.shows(now.book),
            sorted_by_price(response.bids@),
            sorted_by_price(response.asks@),
    {
        let handle = self.lock.acquire_read();
        let response = handle.borrow().depth();
        assert(self.admits(handle.view()));
        handle.release_read();
        response
    }

    /// The balance and the holdings of the account of `user_id` as they stood
    /// while the lock was held shared, for a caller who is `authorized` to
    /// see them.
    pub fn balance(&self, user_id: u32, authorized: bool) -> (result: Result<
        BalanceResponse,
        OrderError,
    >)
        ensures
            !authorized ==> result == Err::<BalanceResponse, OrderError>(OrderError::Unauthorized),
            exists|now: Exchange|
                #![trigger self.admits(now)]
                self.admits(now) && match result {
                    Ok(response) => {
                        &&& authorized
                        &&& has_account(now.accounts(), user_id)
                        &&& response.user_id == user_id
                        &&& response.shows(now.accounts()[account_index(now.accounts(), user_id)])
                    },
                    Err(e) => {
                        &&& e == if authorized {
                            OrderError::UnknownAccount
                        } else {
                            OrderError::Unauthorized
                        }
                        &&& authorized ==> !has_account(now.accounts(), user_id)
                    },
                },
    {
        let handle = self.lock.acquire_read();
        let result = handle.borrow().balance(user_id, authorized);
        assert(self.admits(handle.view()));
        handle.release_read();
        result
    }
}

} // verus!
