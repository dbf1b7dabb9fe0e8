//! Process configuration, loaded once at startup (outside this crate) and
//! immutable afterwards. All thresholds are fixed-point values.

use vstd::prelude::*;

verus! {

/// Per-symbol thresholds.
#[derive(Debug)]
pub struct SymbolConfig {
    /// The symbol, lowercase.
    pub symbol: String,
    /// Quantity floor for a "big" trade or level, in `AMOUNT_SCALE` units.
    pub big_trade_qty: u64,
    /// Spike alert floor, in `PCT_SCALE` units per percentage point.
    pub spike_pct: u64,
}

/// Process-wide configuration.
#[derive(Debug)]
pub struct Config {
    pub symbols: Vec<SymbolConfig>,
    pub port: u16,
    pub broadcast_capacity: usize,
    /// Depth-level quantity floor, in `AMOUNT_SCALE` units; `0` disables it.
    pub big_depth_min_qty: u64,
    /// Depth-level notional floor, in `NOTIONAL_SCALE` units; `0` disables it.
    pub big_depth_min_notional: u128,
    /// Pressure floor, in `PCT_SCALE` units per point; `<= 0` disables it.
    pub big_depth_min_pressure_pct: i64,
    /// When `true`, depth streams are not subscribed and depth messages are
    /// not processed.
    pub disable_depth_stream: bool,
}

} // verus!
