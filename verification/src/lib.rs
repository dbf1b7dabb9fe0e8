//! Order-book depth pressure signals.
//!
//! The crate ingests depth updates for a set of traded symbols, filters the
//! raw bid/ask levels, aggregates them into a directional pressure metric,
//! runs a sliding-window breakout detector per symbol, and fans the resulting
//! text messages out to subscribers through a lossy, lag-tolerant hub.
//!
//! All monetary values are carried as fixed-point integers: amounts (prices
//! and quantities) in units of 10^-8, percentages in units of 10^-6 of a
//! percentage point, and notionals (price times quantity) in units of 10^-16.

pub mod big_move_detector;
pub mod binance;
pub mod binance_depth;
pub mod config;
pub mod fixed;
pub mod fmt;
pub mod hub;
pub mod json_values;
pub mod pipeline;
pub mod text;
