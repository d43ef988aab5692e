//! What the exchange takes from and hands to whatever carries requests to it.

pub mod req;
pub mod res;
