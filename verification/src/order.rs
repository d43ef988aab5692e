//! Orders and the book that holds the resting ones.
//!
//! Both sides of the book are stored highest price first; among equal prices
//! the order placed earlier stands earlier. The best bid is therefore the head
//! of `bids`, the best ask the tail of `asks`.

use crate::db::Stock;
use vstd::prelude::*;

pub mod matching;
pub mod priority;
pub mod settlement;

verus! {

/// The side of an order.
#[derive(Debug, Clone, Copy, PartialEq, Eq, Structural)]
pub enum TransactionType {
    /// An intent to buy.
    Bid,
    /// An intent to sell.
    Ask,
}

/// An intent to buy or sell `qty` of an instrument at a limit price. For a
/// resting order `qty` is what is still unfilled.
#[derive(Debug, Clone, Copy, PartialEq, Eq, Structural)]
pub struct Order {
    pub stock_id: u32,
    pub user_id: u32,
    pub price: u64,
    pub qty: u32,
    pub transaction_type: TransactionType,
}

impl TransactionType {
    /// The side that this one trades with.
    pub open spec fn other(self) -> TransactionType {
        match self {
            TransactionType::Bid => TransactionType::Ask,
            TransactionType::Ask => TransactionType::Bid,
        }
    }
}

impl Order {
    /// An order as given.
    pub fn new(
        stock_id: u32,
        user_id: u32,
        price: u64,
        qty: u32,
        transaction_type: TransactionType,
    ) -> (order: Self)
        ensures
            order == (Order { stock_id, user_id, price, qty, transaction_type }),
    {
        Order { stock_id, user_id, price, qty, transaction_type }
    }

    /// Whether the order may rest on `side` of a book that trades `stock_id`:
    /// it names that instrument and that side, and neither its quantity nor
    /// its price is zero.
    pub open spec fn rests_on(self, stock_id: u32, side: TransactionType) -> bool {
        &&& self.stock_id == stock_id
        &&& self.transaction_type == side
        &&& self.qty > 0
        &&& self.price > 0
    }

    /// Decides `rests_on`.
    pub fn can_rest_on(&self, stock_id: u32, side: TransactionType) -> (yes: bool)
        ensures
            yes == self.rests_on(stock_id, side),
    {
        self.stock_id == stock_id && self.transaction_type == side && self.qty > 0
            && self.price > 0
    }
}

/// The resting orders of one instrument.
#[derive(Debug)]
pub struct Orderbook {
    pub stock: Stock,
    pub bids: Vec<Order>,
    pub asks: Vec<Order>,
}

/// Whether every order of `side` may rest on `kind` of a book for `stock_id`.
pub open spec fn all_rest_on(side: Seq<Order>, stock_id: u32, kind: TransactionType) -> bool {
    forall|i: int| 0 <= i < side.len() ==> (#[trigger] side[i]).rests_on(stock_id, kind)
}

impl Orderbook {
    /// The book's invariant: each side is ordered by price, highest first, and
    /// holds only orders that may rest on it.
    pub open spec fn wf(self) -> bool {
        &&& priority::sorted_by_price(self.bids@)
        &&& priority::sorted_by_price(self.asks@)
        &&& all_rest_on(self.bids@, self.stock.stock_id, TransactionType::Bid)
        &&& all_rest_on(self.asks@, self.stock.stock_id, TransactionType::Ask)
    }

    /// A book for `stock` with nothing resting.
    pub fn new(stock: Stock) -> (book: Self)
        ensures
            book.stock == stock,
            book.bids@ == Seq::<Order>::empty(),
            book.asks@ == Seq::<Order>::empty(),
            book.wf(),
    {
        Orderbook { stock, bids: Vec::new(), asks: Vec::new() }
    }
}

} // verus!
