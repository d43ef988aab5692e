//! The exchange: one book and the accounts that trade on it, behind the three
//! operations that it offers.
//!
//! An exchange is one exclusively owned value. A call that takes it by `&mut`
//! is the critical section of a submission: the fill and the placing of what
//! remains happen within it, and nothing can see the book between the two.

use crate::api::req::{order_of, OrderRequest};
use crate::api::res::{BalanceResponse, OrderResponse, OrderbookResponse};
use crate::db::{account_index, has_account, lemma_account_is_unique, Account, Stock, User};
use crate::error::OrderError;
use crate::order::matching::{as_stored, filled, with_qty, Walk};
use crate::order::priority::{admitted, placed, placed_in_turn};
use crate::order::{Order, Orderbook, TransactionType};
use vstd::prelude::*;

verus! {

/// A book and the accounts that settle on it.
#[derive(Debug)]
pub struct Exchange {
    pub book: Orderbook,
    pub users: Vec<User>,
}

/// Why a request is refused whatever the state of the exchange, if it is.
/// The conditions are tried in this order: the caller is authorized; the
/// instrument is the one that is traded; the quantity is not zero; the price
/// is not zero.
pub open spec fn inadmissible(stock_id: u32, request: OrderRequest, authorized: bool) -> Option<
    OrderError,
> {
    if !authorized {
        Some(OrderError::Unauthorized)
    } else if request.stock_id != stock_id {
        Some(OrderError::UnknownInstrument)
    } else if request.qty == 0 {
        Some(OrderError::InvalidQuantity)
    } else if request.price == 0 {
        Some(OrderError::InvalidPrice)
    } else {
        None
    }
}

/// Why a submission is refused before any matching, if it is: the request is
/// inadmissible, or else its account is not known.
pub open spec fn refusal(
    book: Orderbook,
    accounts: Seq<Account>,
    request: OrderRequest,
    authorized: bool,
) -> Option<OrderError> {
    match inadmissible(book.stock.stock_id, request, authorized) {
        Some(e) => Some(e),
        None => if has_account(accounts, request.user_id) {
            None
        } else {
            Some(OrderError::UnknownAccount)
        },
    }
}

/// The answer to a submission that comes to `outcome`: what was traded and
/// what remains of the quantity asked for, or the refusal.
pub open spec fn response_to(
    outcome: Result<(Walk, Seq<Account>), OrderError>,
    request: OrderRequest,
) -> Result<OrderResponse, OrderError> {
    match outcome {
        Err(e) => Err(e),
        Ok((w, _)) => Ok(
            OrderResponse {
                filled_qty: (request.qty - w.remaining) as u32,
                remaining_qty: w.remaining,
            },
        ),
    }
}

/// What a submission comes to: the walk of the order and the accounts after
/// it, or why the submission is refused, before any matching or because a
/// trade of the walk cannot settle.
pub open spec fn submitted(
    book: Orderbook,
    accounts: Seq<Account>,
    request: OrderRequest,
    authorized: bool,
) -> Result<(Walk, Seq<Account>), OrderError> {
    match refusal(book, accounts, request, authorized) {
        Some(e) => Err(e),
        None => filled(book, accounts, order_of(request)),
    }
}

impl Exchange {
    /// The exchange's invariant: its book is well-formed.
    pub open spec fn wf(self) -> bool {
        self.book.wf()
    }

    /// The accounts, as the contracts see them.
    pub open spec fn accounts(self) -> Seq<Account> {
        self.users.deep_view()
    }

    /// An exchange for `stock` with `users` as its accounts, on whose book
    /// the orders of `orders` that may rest there have been placed in turn.
    pub fn new(stock: Stock, orders: Vec<Order>, users: Vec<User>) -> (exchange: Self)
        ensures
            exchange.wf(),
            exchange.book.stock == stock,
            exchange.book.bids@ == placed_in_turn(
                admitted(orders@, stock.stock_id, TransactionType::Bid),
            ),
            exchange.book.asks@ == placed_in_turn(
                admitted(orders@, stock.stock_id, TransactionType::Ask),
            ),
            exchange.users == users,
    {
        Exchange { book: Orderbook::from(stock, orders), users }
    }

    /// Decides `wf`.
    pub fn is_well_formed(&self) -> (yes: bool)
        ensures
            yes == self.wf(),
    {
        self.book.is_well_formed()
    }

    /// Takes an order: fills it against the book, settles the trades, and
    /// places what remains on the order's own side.
    ///
    /// `authorized` is the answer to whether the caller may act for the
    /// request's account. A request that `refusal` names a reason for is
    /// refused with that reason; one whose fill cannot settle, with the
    /// failure of the settlement. A refusal changes nothing. What is traded
    /// and what remains make up the quantity asked for.
    pub fn submit(&mut self, request: OrderRequest, authorized: bool) -> (result: Result<
        OrderResponse,
        OrderError,
    >)
        requires
            old(self).wf(),
        ensures
            final(self).wf(),
            result == response_to(
                submitted(old(self).book, old(self).accounts(), request, authorized),
                request,
            ),
            match submitted(old(self).book, old(self).accounts(), request, authorized) {
                Err(e) => *final(self) == *old(self),
                Ok((w, accounts)) => {
                    let side = request.transaction_type;
                    &&& w.remaining <= request.qty
                    &&& final(self).accounts() == accounts
                    &&& final(self).book.stock == old(self).book.stock
                    &&& final(self).book.resting(side.other()) == as_stored(side, w.residue)
                    &&& final(self).book.resting(side) == if w.remaining > 0 {
                        placed(
                            old(self).book.resting(side),
                            with_qty(order_of(request), w.remaining),
                        )
                    } else {
                        old(self).book.resting(side)
                    }
                },
            },
    {
        if !authorized {
            return Err(OrderError::Unauthorized);
        }
        if request.stock_id != self.book.stock.stock_id {
            return Err(OrderError::UnknownInstrument);
        }
        if request.qty == 0 {
            return Err(OrderError::InvalidQuantity);
        }
        if request.price == 0 {
            return Err(OrderError::InvalidPrice);
        }
        if User::position(&self.users, request.user_id).is_none() {
            return Err(OrderError::UnknownAccount);
        }
        let mut order = request.order();
        let fill = match self.book.fill_order(order, &mut self.users) {
            Ok(fill) => fill,
            Err(e) => {
                return Err(e);
            },
        };
        let remaining_qty = fill.remaining_qty;
        if remaining_qty > 0 {
            order.qty = remaining_qty;
            self.book.place_order(order);
        }
        Ok(OrderResponse { filled_qty: request.qty - remaining_qty, remaining_qty })
    }

    /// The depth of the book.
    pub fn depth(&self) -> (response: OrderbookResponse)
        ensures
            response.shows(self.book),
    {
        OrderbookResponse::from_orderbook(&self.book)
    }

    /// The balance and the holdings of the account of `user_id`, for a caller
    /// who is `authorized` to see them.
    pub fn balance(&self, user_id: u32, authorized: bool) -> (result: Result<
        BalanceResponse,
        OrderError,
    >)
        ensures
            match result {
                Ok(response) => {
                    &&& authorized
                    &&& has_account(self.accounts(), user_id)
                    &&& response.user_id == user_id
                    &&& response.shows(self.accounts()[account_index(self.accounts(), user_id)])
                },
                Err(e) => e == if authorized {
                    OrderError::UnknownAccount
                } else {
                    OrderError::Unauthorized
                },
            },
            result is Ok <==> authorized && has_account(self.accounts(), user_id),
    {
        if !authorized {
            return Err(OrderError::Unauthorized);
        }
        match User::position(&self.users, user_id) {
            Some(i) => {
                proof {
                    lemma_account_is_unique(self.users.deep_view(), user_id, i as int);
                }
                Ok(BalanceResponse::from_user(self.users[i].clone()))
            },
            None => Err(OrderError::UnknownAccount),
        }
    }
}

} // verus!
