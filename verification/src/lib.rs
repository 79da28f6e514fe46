//! A single-venue order book kept consistent from a snapshot and a stream of
//! diffs, with a liquidity-imbalance signal and a paper-trading decision rule.

pub mod decimal;
pub mod level;
pub mod ladder;
pub mod messages;
pub mod imbalance;
pub mod orderbook;
pub mod engine;
pub mod driver;
pub mod storage;
pub mod laws;
