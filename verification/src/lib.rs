//! Verified core of a local multi-asset portfolio manager: the rules by which assets
//! are named and changed, trades are checked, imports are counted, adapter quotes are
//! stored, price history is selected and grouped, and the query parameters and client
//! fields are read.

pub mod asset;
pub mod client;
pub mod history;
pub mod number;
pub mod query;
pub mod quote;
pub mod text;
pub mod trade;

pub use query::{csv, AppState, QueryParams};
