//! Bounded-concurrency draining of a message queue into one aggregated collection.

pub mod aggregator;
pub mod channel;
pub mod config;
pub mod drain;
pub mod error;
pub mod laws;
pub mod model;
pub mod response;
