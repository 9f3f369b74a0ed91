//! Backward pagination over a trading account's fill history and routing of the
//! fills to one sink per calendar day.
//!
//! The crate holds the decisions only: which fills of a fetched page are new, where the
//! next page ends, which sink a fill belongs to, how a request is signed and how a sink
//! is named. Fetching pages and writing sinks is left to the caller.

pub mod calendar;
pub mod cursor;
pub mod fill;
pub mod pagination;
pub mod request;
mod seq_facts;
pub mod signing;
pub mod sink;
pub mod text;
pub mod writer;
