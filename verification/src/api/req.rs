//! Requests.

use crate::order::{Order, TransactionType};
use vstd::prelude::*;

verus! {

/// A request to buy or sell.
#[derive(Debug, Clone, Copy, PartialEq, Eq)]
pub struct OrderRequest {
    pub stock_id: u32,
    pub user_id: u32,
    pub price: u64,
    pub qty: u32,
    pub transaction_type: TransactionType,
}

/// The order that `request` asks for.
pub open spec fn order_of(request: OrderRequest) -> Order {
    Order {
        stock_id: request.stock_id,
        user_id: request.user_id,
        price: request.price,
        qty: request.qty,
        transaction_type: request.transaction_type,
    }
}

impl OrderRequest {
    /// The order that the request asks for.
    pub fn order(&self) -> (order: Order)
        ensures
            order == order_of(*self),
    {
        Order::new(self.stock_id, self.user_id, self.price, self.qty, self.transaction_type)
    }
}

} // verus!
