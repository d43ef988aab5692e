//! The ways in which the exchange refuses a request.

use vstd::prelude::*;

verus! {

/// Why a request was refused. Every refusal leaves the book and the accounts
/// as they were.
#[derive(Debug, Clone, Copy, PartialEq, Eq, Structural)]
pub enum OrderError {
    /// A party of a trade, or the party that submits, is not in the catalog.
    UnknownAccount,
    /// The order names an instrument that the book does not trade.
    UnknownInstrument,
    /// The caller may not act for the account.
    Unauthorized,
    /// The buyer's balance does not cover price times quantity.
    InsufficientBalance,
    /// The seller holds less than the traded quantity.
    InsufficientHoldings,
    /// The order's quantity is zero.
    InvalidQuantity,
    /// The order's limit price is zero.
    InvalidPrice,
    /// Crediting the seller would take the balance past `u64::MAX`.
    BalanceOverflow,
    /// Crediting the buyer would take the holding past `u32::MAX`.
    HoldingsOverflow,
}

} // verus!
