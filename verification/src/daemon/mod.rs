//! The background daemon's logic: its wire messages, the query log, the
//! socket naming, and the dispatch of requests against an in-memory index.

pub mod client;
pub mod logger;
pub mod protocol;
pub mod server;
