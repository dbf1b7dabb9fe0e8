//! Aggregated trades: decoding and the price-spike metric.

use vstd::prelude::*;

use crate::fixed::PCT_100;
use crate::json_values::{json_get, json_parse};

verus! {

/// One aggregated trade, decoded from a combined-stream message. Field
/// names follow the wire format: `s` symbol, `p` price, `q` quantity,
/// `t` trade time, `m` whether the buyer was the maker.
#[derive(Clone, Debug, PartialEq, Eq)]
pub struct AggTrade {
    pub s: String,
    pub p: String,
    pub q: String,
    pub t: u64,
    pub m: bool,
}

/// Decodes a combined-stream aggregated-trade message.
///
/// Wire decoding is boundary work: the payload shape is validated here
/// (`data` object with symbol, price, quantity, trade time and maker
/// flag), but what a given JSON document holds is outside what this crate
/// states, so the result carries no further contract. Any payload of a
/// different shape, and any invalid JSON, yields `None`.
pub fn parse_agg_trade(msg: &str) -> (r: Option<AggTrade>) {
    let v = match json_parse(msg) {
        Some(v) => v,
        None => {
            return None;
        },
    };
    let data = match json_get(&v, "data") {
        Some(d) => d,
        None => {
            return None;
        },
    };
    let s = match json_get(data, "s") {
        Some(x) => match x.as_str() {
            Some(x) => x.to_owned(),
            None => {
                return None;
            },
        },
        None => {
            return None;
        },
    };
    let p = match json_get(data, "p") {
        Some(x) => match x.as_str() {
            Some(x) => x.to_owned(),
            None => {
                return None;
            },
        },
        None => {
            return None;
        },
    };
    let q = match json_get(data, "q") {
        Some(x) => match x.as_str() {
            Some(x) => x.to_owned(),
            None => {
                return None;
            },
        },
        None => {
            return None;
        },
    };
    let t = match json_get(data, "T") {
        Some(x) => match x.as_u64() {
            Some(x) => x,
            None => {
                return None;
            },
        },
        None => {
            return None;
        },
    };
    let m = match json_get(data, "m") {
        Some(x) => match x.as_bool() {
            Some(x) => x,
            None => {
                return None;
            },
        },
        None => {
            return None;
        },
    };
    Some(AggTrade { s, p, q, t, m })
}

/// The absolute price move from `prev` to `current`, as a percentage of
/// `prev` (in `PCT_SCALE` units per point, saturating at `u64::MAX`);
/// zero when there is no previous price or it was zero.
pub open spec fn spike_spec(prev: Option<u64>, current: u64) -> u64 {
    match prev {
        Option::None => 0u64,
        Option::Some(p) => if p == 0 {
            0u64
        } else {
            let diff: int = if current >= p {
                current - p
            } else {
                p - current
            };
            let raw: int = diff * PCT_100 / p as int;
            if raw > u64::MAX {
                u64::MAX
            } else {
                raw as u64
            }
        },
    }
}

/// Computes the spike percentage between the previous and current trade
/// price of a symbol.
pub fn calc_spike(prev: Option<u64>, current: u64) -> (r: u64)
    ensures
        r == spike_spec(prev, current),
{
    match prev {
        Option::None => 0,
        Option::Some(p) => {
            if p == 0 {
                return 0;
            }
            let diff = if current >= p {
                current - p
            } else {
                p - current
            };
            proof {
                assert(diff as u128 * (PCT_100 as u128) <= (u64::MAX as u128) * 100_000_000u128)
                    by (nonlinear_arith)
                    requires
                        diff <= u64::MAX,
                ;
            }
            let raw = diff as u128 * PCT_100 as u128 / p as u128;
            if raw > u64::MAX as u128 {
                u64::MAX
            } else {
                raw as u64
            }
        },
    }
}

} // verus!
