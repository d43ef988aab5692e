//! A single-instrument exchange core: a price-time ordered book of resting
//! orders, the matching walk that fills an incoming order against it, and the
//! settlement that moves money and holdings between the two parties of a trade.
//!
//! Every executable item is verified against the contract it carries; the
//! contracts are stated over the spec functions that each module defines next
//! to its types. The public proof functions whose names begin with `law_`
//! state what holds of those spec functions in general.

pub mod api;
pub mod db;
pub mod error;
pub mod exchange;
pub mod order;
pub mod shared;
