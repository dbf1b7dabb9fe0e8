//! Per-symbol orchestration: one sequential pipeline owns the
//! configuration, last trade price and breakout detector of every
//! configured symbol, and turns each incoming event into the text messages
//! to be fanned out.
//!
//! The processing functions return the messages instead of sending them:
//! delivery is I/O and lives with the caller.

use vstd::prelude::*;

use crate::big_move_detector::{
    pushed_window, window_signal, BigMoveDetector, BigMoveSignal, DepthSnapshot, DetectorModel,
};
use crate::binance::{calc_spike, spike_spec, AggTrade};
use crate::binance_depth::{
    collect_big_levels, collect_big_levels_spec, compact_notional_str, format_notional_compact,
    format_pressure_visual, is_big_depth_update, parse_depth_level, parse_level_spec,
    passes_pressure_filter, passes_pressure_filter_spec, pressure_bar, DepthUpdate, RawLevel,
};
use crate::config::{Config, SymbolConfig};
use crate::fixed::{cap_add, cap_add_spec, NOTIONAL_CAP, PCT_100};
use crate::fmt::{format_scaled, scaled_str};
use crate::text::{lower_of, to_lowercase, to_uppercase, upper_of};

verus! {

/// The state one symbol's pipeline owns exclusively.
pub struct SymbolState {
    pub cfg: SymbolConfig,
    /// Last trade price seen, in `AMOUNT_SCALE` units.
    pub last_price: Option<u64>,
    pub detector: BigMoveDetector,
}

/// All per-symbol pipelines, plus the process configuration.
pub struct AppState {
    pub config: Config,
    pub entries: Vec<SymbolState>,
}

/// Index of the first entry configured for `sym`, or `-1` if none is.
pub open spec fn find_entry(entries: Seq<SymbolState>, sym: Seq<char>) -> int
    decreases entries.len(),
{
    if entries.len() == 0 {
        -1
    } else if entries[0].cfg.symbol@ == sym {
        0
    } else {
        let r = find_entry(entries.drop_first(), sym);
        if r == -1 {
            -1
        } else {
            1 + r
        }
    }
}

proof fn lemma_find_entry_at(entries: Seq<SymbolState>, sym: Seq<char>, k: int)
    requires
        0 <= k <= entries.len(),
        forall|j: int| 0 <= j < k ==> #[trigger] entries[j].cfg.symbol@ != sym,
        k < entries.len() ==> entries[k].cfg.symbol@ == sym,
    ensures
        find_entry(entries, sym) == if k == entries.len() {
            -1int
        } else {
            k
        },
    decreases k,
{
    if entries.len() == 0 {
    } else if k == 0 {
    } else {
        assert(entries[0].cfg.symbol@ != sym);
        assert(forall|j: int|
            0 <= j < k - 1 ==> entries.drop_first()[j] == #[trigger] entries[j + 1]);
        lemma_find_entry_at(entries.drop_first(), sym, k - 1);
    }
}

/// A level counts as big when its quantity or its notional clears the
/// corresponding floor; with both floors disabled every level counts.
pub open spec fn is_level_big_spec(
    min_qty: u64,
    min_notional: u128,
    price: u64,
    qty: u64,
) -> bool {
    if min_qty == 0 && min_notional == 0 {
        true
    } else {
        (min_qty > 0 && qty >= min_qty) || (min_notional > 0 && price as u128 * qty as u128
            >= min_notional)
    }
}

/// The `(price, qty)` pairs of the levels that parse, validate, and count
/// as big, in input order.
pub open spec fn extract_spec(levels: Seq<RawLevel>, min_qty: u64, min_notional: u128) -> Seq<
    (u64, u64),
>
    decreases levels.len(),
{
    if levels.len() == 0 {
        Seq::<(u64, u64)>::empty()
    } else {
        let prefix = extract_spec(levels.drop_last(), min_qty, min_notional);
        match parse_level_spec(levels.last().price@, levels.last().qty@) {
            Some(l) => if is_level_big_spec(min_qty, min_notional, l.price, l.qty) {
                prefix.push((l.price, l.qty))
            } else {
                prefix
            },
            None => prefix,
        }
    }
}

/// Sum of the notionals of `(price, qty)` pairs, capped at `NOTIONAL_CAP`.
pub open spec fn capped_total(s: Seq<(u64, u64)>) -> u128
    decreases s.len(),
{
    if s.len() == 0 {
        0
    } else {
        cap_add_spec(
            capped_total(s.drop_last()),
            (s.last().0 as u128 * s.last().1 as u128) as u128,
        )
    }
}

pub proof fn lemma_capped_total_le(s: Seq<(u64, u64)>)
    ensures
        capped_total(s) <= NOTIONAL_CAP,
    decreases s.len(),
{
    if s.len() > 0 {
        lemma_capped_total_le(s.drop_last());
    }
}

/// The pressure reading of one update: bid and sell percentages (in
/// `PCT_SCALE` units) and the capped total notional. With no notional at
/// all, both percentages read zero.
pub open spec fn pressure_of(bids: Seq<(u64, u64)>, asks: Seq<(u64, u64)>) -> (u64, u64, u128) {
    let bid_total = capped_total(bids);
    let ask_total = capped_total(asks);
    let total = cap_add_spec(bid_total, ask_total);
    if total > 0 {
        let bid_pct = bid_total * PCT_100 / total as int;
        (bid_pct as u64, (PCT_100 - bid_pct) as u64, total)
    } else {
        (0u64, 0u64, total)
    }
}

/// The two percentages of a pressure reading lie in `[0, 100]` and, when
/// there is any notional, add up to exactly 100 percent; with none, both
/// read zero.
pub proof fn lemma_pressure_sums_to_100(bids: Seq<(u64, u64)>, asks: Seq<(u64, u64)>)
    ensures
        pressure_of(bids, asks).2 > 0 ==> pressure_of(bids, asks).0 + pressure_of(
            bids,
            asks,
        ).1 == PCT_100,
        pressure_of(bids, asks).2 == 0 ==> pressure_of(bids, asks).0 == 0 && pressure_of(
            bids,
            asks,
        ).1 == 0,
        pressure_of(bids, asks).0 <= PCT_100,
        pressure_of(bids, asks).1 <= PCT_100,
        pressure_of(bids, asks).2 <= NOTIONAL_CAP,
{
    let bid_total = capped_total(bids);
    let ask_total = capped_total(asks);
    let total = cap_add_spec(bid_total, ask_total);
    lemma_capped_total_le(bids);
    lemma_capped_total_le(asks);
    if total > 0 {
        assert(bid_total <= total);
        let bid_pct = bid_total * PCT_100 / total as int;
        assert(0 <= bid_pct <= PCT_100) by (nonlinear_arith)
            requires
                0 < total,
                0 <= bid_total <= total,
                bid_pct == bid_total * PCT_100 / total as int,
                PCT_100 == 100_000_000u64,
        ;
    }
}

/// The side label of a pressure reading: `BUY` when bids dominate, `SELL`
/// when asks do, `BALANCED` otherwise.
pub open spec fn dominant_side_str(b: u64, s: u64) -> Seq<char> {
    if b > s {
        "BUY"@
    } else if s > b {
        "SELL"@
    } else {
        "BALANCED"@
    }
}

/// `"{price:.2}x{qty:.3}"` for one big level.
pub open spec fn pair_str(p: (u64, u64)) -> Seq<char> {
    scaled_str(p.0 as u128, 8, 2) + "x"@ + scaled_str(p.1 as u128, 8, 3)
}

/// The best level of one side, or `"-"` when the side is empty.
pub open spec fn top_str(s: Seq<(u64, u64)>) -> Seq<char> {
    if s.len() == 0 {
        "-"@
    } else {
        pair_str(s[0])
    }
}

/// The depth line published for a qualifying update.
pub open spec fn depth_message_spec(
    symbol: Seq<char>,
    bids: Seq<(u64, u64)>,
    asks: Seq<(u64, u64)>,
    b: u64,
) -> Seq<char> {
    let sell = (PCT_100 - b) as u64;
    "[DEPTH] "@ + upper_of(symbol) + " "@ + dominant_side_str(b, sell) + " ["@ + pressure_bar(
        b,
        12,
    ) + "] B:"@ + scaled_str(b as u128, 6, 1) + "% S:"@ + scaled_str(sell as u128, 6, 1)
        + "% | notional "@ + compact_notional_str(capped_total(bids)) + " vs "@
        + compact_notional_str(capped_total(asks)) + " | top "@ + top_str(bids) + " / "@
        + top_str(asks)
}

/// The alert line published for a breakout signal, if any.
pub open spec fn alert_message_spec(symbol: Seq<char>, sig: BigMoveSignal) -> Option<Seq<char>> {
    match sig {
        BigMoveSignal::BullishBreakout { avg_pressure, total_notional } => Some(
            "[BIGMOVE] "@ + upper_of(symbol) + " BULLISH BREAKOUT likely! avg_pressure="@
                + scaled_str(avg_pressure as u128, 6, 1) + "% notional="@ + scaled_str(
                total_notional,
                16,
                0,
            ),
        ),
        BigMoveSignal::BearishBreakout { avg_pressure, total_notional } => Some(
            "[BIGMOVE] "@ + upper_of(symbol) + " BEARISH BREAKOUT likely! avg_pressure="@
                + scaled_str(avg_pressure as u128, 6, 1) + "% notional="@ + scaled_str(
                total_notional,
                16,
                0,
            ),
        ),
        BigMoveSignal::NoSignal => None,
    }
}

/// The value of a parsed amount, or zero when parsing failed — the
/// fallback the trade path uses for malformed numeric strings.
pub open spec fn or_zero(v: Option<u64>) -> u64 {
    match v {
        Option::Some(x) => x,
        Option::None => 0u64,
    }
}

/// A trade is logged when its quantity clears the big-trade floor, or the
/// spike alert is enabled and the spike clears its floor.
pub open spec fn trade_signal(qty: u64, spike: u64, cfg_qty: u64, cfg_spike: u64) -> bool {
    qty >= cfg_qty || (cfg_spike > 0 && spike >= cfg_spike)
}

/// The trade line published for a qualifying trade.
pub open spec fn trade_message_spec(
    sym: Seq<char>,
    p: Seq<char>,
    q: Seq<char>,
    spike: u64,
) -> Seq<char> {
    "[TRADE] "@ + upper_of(sym) + " "@ + p + " x "@ + q + " spike="@ + scaled_str(
        spike as u128,
        6,
        2,
    ) + "%"@
}

/// Finds the entry configured for `sym`.
fn find_entry_exec(entries: &Vec<SymbolState>, sym: &String) -> (r: Option<usize>)
    ensures
        match r {
            Option::Some(i) => find_entry(entries@, sym@) == i && i < entries@.len(),
            Option::None => find_entry(entries@, sym@) == -1,
        },
{
    let mut i: usize = 0;
    while i < entries.len()
        invariant
            i <= entries@.len(),
            forall|j: int| 0 <= j < i ==> #[trigger] entries@[j].cfg.symbol@ != sym@,
        decreases entries@.len() - i,
    {
        if entries[i].cfg.symbol == *sym {
            proof {
                lemma_find_entry_at(entries@, sym@, i as int);
            }
            return Some(i);
        }
        i = i + 1;
    }
    proof {
        lemma_find_entry_at(entries@, sym@, entries@.len() as int);
    }
    None
}

/// Renders the alert line for a signal, if the signal calls for one.
fn format_alert(display_symbol: &str, sig: &BigMoveSignal) -> (r: Option<String>)
    requires
        match *sig {
            BigMoveSignal::BullishBreakout { avg_pressure, total_notional } => total_notional
                <= NOTIONAL_CAP,
            BigMoveSignal::BearishBreakout { avg_pressure, total_notional } => total_notional
                <= NOTIONAL_CAP,
            BigMoveSignal::NoSignal => true,
        },
    ensures
        match alert_message_spec(display_symbol@, *sig) {
            Option::Some(a) => r is Some && r->Some_0@ == a,
            Option::None => r is None,
        },
{
    match sig {
        BigMoveSignal::BullishBreakout { avg_pressure, total_notional } => {
            let mut m = String::from_str("[BIGMOVE] ");
            m.append(to_uppercase(display_symbol).as_str());
            m.append(" BULLISH BREAKOUT likely! avg_pressure=");
            m.append(format_scaled(*avg_pressure as u128, 6, 1).as_str());
            m.append("% notional=");
            m.append(format_scaled(*total_notional, 16, 0).as_str());
            Some(m)
        },
        BigMoveSignal::BearishBreakout { avg_pressure, total_notional } => {
            let mut m = String::from_str("[BIGMOVE] ");
            m.append(to_uppercase(display_symbol).as_str());
            m.append(" BEARISH BREAKOUT likely! avg_pressure=");
            m.append(format_scaled(*avg_pressure as u128, 6, 1).as_str());
            m.append("% notional=");
            m.append(format_scaled(*total_notional, 16, 0).as_str());
            Some(m)
        },
        BigMoveSignal::NoSignal => None,
    }
}

impl AppState {
    /// Every per-symbol detector is well formed.
    pub open spec fn wf(&self) -> bool {
        forall|i: int| 0 <= i < self.entries@.len() ==> (#[trigger] self.entries@[i]).detector.wf()
    }

    /// Builds the per-symbol pipelines from the configuration: one entry
    /// per configured symbol, with no last price and a fresh detector
    /// (window capacity 5, threshold 75 percent, no notional floor, 3
    /// consecutive readings).
    pub fn new(config: Config) -> (r: AppState)
        ensures
            r.wf(),
            r.config == config,
            r.entries@.len() == config.symbols@.len(),
            forall|i: int|
                0 <= i < config.symbols@.len() ==> {
                    let e = #[trigger] r.entries@[i];
                    &&& e.cfg.symbol@ == config.symbols@[i].symbol@
                    &&& e.cfg.big_trade_qty == config.symbols@[i].big_trade_qty
                    &&& e.cfg.spike_pct == config.symbols@[i].spike_pct
                    &&& e.last_price is None
                    &&& e.detector@.window == Seq::<DepthSnapshot>::empty()
                    &&& e.detector@.window_size == 5
                    &&& e.detector@.pressure_threshold == 75_000_000u64
                    &&& e.detector@.min_total_notional == 0
                    &&& e.detector@.min_consecutive == 3
                },
    {
        let mut entries: Vec<SymbolState> = Vec::new();
        let mut i: usize = 0;
        while i < config.symbols.len()
            invariant
                i <= config.symbols@.len(),
                entries@.len() == i,
                forall|j: int|
                    0 <= j < i ==> {
                        let e = #[trigger] entries@[j];
                        &&& e.cfg.symbol@ == config.symbols@[j].symbol@
                        &&& e.cfg.big_trade_qty == config.symbols@[j].big_trade_qty
                        &&& e.cfg.spike_pct == config.symbols@[j].spike_pct
                        &&& e.last_price is None
                        &&& e.detector.wf()
                        &&& e.detector@.window == Seq::<DepthSnapshot>::empty()
                        &&& e.detector@.window_size == 5
                        &&& e.detector@.pressure_threshold == 75_000_000u64
                        &&& e.detector@.min_total_notional == 0
                        &&& e.detector@.min_consecutive == 3
                    },
            decreases config.symbols@.len() - i,
        {
            let sc = &config.symbols[i];
            let cfg = SymbolConfig {
                symbol: sc.symbol.clone(),
                big_trade_qty: sc.big_trade_qty,
                spike_pct: sc.spike_pct,
            };
            let detector = BigMoveDetector::new(5, 75_000_000, 0, 3);
            entries.push(SymbolState { cfg, last_price: Option::None, detector });
            i = i + 1;
        }
        AppState { config, entries }
    }

    /// A level is big when it clears the configured quantity floor or the
    /// configured notional floor (disabled floors pass everything).
    pub fn is_level_big(&self, price: u64, qty: u64) -> (r: bool)
        ensures
            r == is_level_big_spec(
                self.config.big_depth_min_qty,
                self.config.big_depth_min_notional,
                price,
                qty,
            ),
    {
        let min_qty = self.config.big_depth_min_qty;
        let min_notional = self.config.big_depth_min_notional;
        if min_qty == 0 && min_notional == 0 {
            return true;
        }
        let qty_ok = min_qty > 0 && qty >= min_qty;
        proof {
            crate::binance_depth::lemma_u64_product_fits(price, qty);
        }
        let notional_ok = min_notional > 0 && price as u128 * qty as u128 >= min_notional;
        qty_ok || notional_ok
    }

    /// Extracts the big `(price, qty)` levels of both sides of an update.
    pub fn extract_big_levels(&self, depth: &DepthUpdate) -> (r: (
        Vec<(u64, u64)>,
        Vec<(u64, u64)>,
    ))
        ensures
            r.0@ == extract_spec(
                depth.bids@,
                self.config.big_depth_min_qty,
                self.config.big_depth_min_notional,
            ),
            r.1@ == extract_spec(
                depth.asks@,
                self.config.big_depth_min_qty,
                self.config.big_depth_min_notional,
            ),
    {
        (self.extract_side(&depth.bids), self.extract_side(&depth.asks))
    }

    /// Extracts the big `(price, qty)` levels of one side.
    fn extract_side(&self, levels: &Vec<RawLevel>) -> (r: Vec<(u64, u64)>)
        ensures
            r@ == extract_spec(
                levels@,
                self.config.big_depth_min_qty,
                self.config.big_depth_min_notional,
            ),
    {
        let ghost lv = levels@;
        let ghost mq = self.config.big_depth_min_qty;
        let ghost mn = self.config.big_depth_min_notional;
        let mut out: Vec<(u64, u64)> = Vec::new();
        let mut i: usize = 0;
        while i < levels.len()
            invariant
                i <= lv.len(),
                lv == levels@,
                mq == self.config.big_depth_min_qty,
                mn == self.config.big_depth_min_notional,
                out@ == extract_spec(lv.take(i as int), mq, mn),
            decreases lv.len() - i,
        {
            proof {
                assert(lv.take(i + 1).drop_last() =~= lv.take(i as int));
                assert(lv.take(i + 1).last() == lv[i as int]);
            }
            match parse_depth_level(&levels[i]) {
                Some(l) => {
                    if self.is_level_big(l.price, l.qty) {
                        out.push((l.price, l.qty));
                    }
                },
                None => {},
            }
            i = i + 1;
        }
        proof {
            assert(lv.take(lv.len() as int) =~= lv);
        }
        out
    }

    /// Aggregates both sides into `(bid pct, sell pct, capped total
    /// notional)`. When there is any notional the two percentages add up
    /// to exactly 100; with none, both read zero.
    pub fn calculate_pressure(big_bids: &Vec<(u64, u64)>, big_asks: &Vec<(u64, u64)>) -> (r: (
        u64,
        u64,
        u128,
    ))
        ensures
            r == pressure_of(big_bids@, big_asks@),
            r.2 > 0 ==> r.0 + r.1 == PCT_100,
            r.2 == 0 ==> r.0 == 0 && r.1 == 0,
            r.0 <= PCT_100,
            r.1 <= PCT_100,
            r.2 <= NOTIONAL_CAP,
    {
        let bid_total = Self::capped_total_exec(big_bids);
        let ask_total = Self::capped_total_exec(big_asks);
        let total = cap_add(bid_total, ask_total);
        proof {
            lemma_pressure_sums_to_100(big_bids@, big_asks@);
            lemma_capped_total_le(big_bids@);
            assert(bid_total * (PCT_100 as u128) <= NOTIONAL_CAP * (PCT_100 as u128))
                by (nonlinear_arith)
                requires
                    bid_total <= NOTIONAL_CAP,
            ;
            assert(NOTIONAL_CAP * (PCT_100 as u128) <= u128::MAX) by (nonlinear_arith)
                requires
                    NOTIONAL_CAP == u128::MAX / 100_000_000,
                    PCT_100 == 100_000_000u64,
            ;
        }
        if total > 0 {
            let bid_pct = (bid_total * PCT_100 as u128 / total) as u64;
            (bid_pct, PCT_100 - bid_pct, total)
        } else {
            (0, 0, total)
        }
    }

    /// Sums the notionals of one side, capping at `NOTIONAL_CAP`.
    fn capped_total_exec(pairs: &Vec<(u64, u64)>) -> (r: u128)
        ensures
            r == capped_total(pairs@),
            r <= NOTIONAL_CAP,
    {
        let ghost pv = pairs@;
        let mut total: u128 = 0;
        let mut i: usize = 0;
        while i < pairs.len()
            invariant
                i <= pv.len(),
                pv == pairs@,
                total == capped_total(pv.take(i as int)),
                total <= NOTIONAL_CAP,
            decreases pv.len() - i,
        {
            proof {
                assert(pv.take(i + 1).drop_last() =~= pv.take(i as int));
                assert(pv.take(i + 1).last() == pv[i as int]);
            }
            let p = pairs[i].0;
            let q = pairs[i].1;
            proof {
                crate::binance_depth::lemma_u64_product_fits(p, q);
            }
            total = cap_add(total, p as u128 * q as u128);
            i = i + 1;
        }
        proof {
            assert(pv.take(pv.len() as int) =~= pv);
        }
        total
    }

    /// Renders the depth line for a qualifying update.
    pub fn format_depth_message(
        depth: &DepthUpdate,
        big_bids: &Vec<(u64, u64)>,
        big_asks: &Vec<(u64, u64)>,
        bid_pressure_pct: u64,
    ) -> (r: String)
        requires
            bid_pressure_pct <= PCT_100,
        ensures
            r@ == depth_message_spec(depth.symbol@, big_bids@, big_asks@, bid_pressure_pct),
    {
        let sell_pressure_pct = PCT_100 - bid_pressure_pct;
        let mut m = String::from_str("[DEPTH] ");
        m.append(to_uppercase(depth.symbol.as_str()).as_str());
        m.append(" ");
        if bid_pressure_pct > sell_pressure_pct {
            m.append("BUY");
        } else if sell_pressure_pct > bid_pressure_pct {
            m.append("SELL");
        } else {
            m.append("BALANCED");
        }
        m.append(" [");
        m.append(format_pressure_visual(bid_pressure_pct, 12).as_str());
        m.append("] B:");
        m.append(format_scaled(bid_pressure_pct as u128, 6, 1).as_str());
        m.append("% S:");
        m.append(format_scaled(sell_pressure_pct as u128, 6, 1).as_str());
        m.append("% | notional ");
        proof {
            lemma_capped_total_le(big_bids@);
            lemma_capped_total_le(big_asks@);
        }
        m.append(format_notional_compact(Self::capped_total_exec(big_bids)).as_str());
        m.append(" vs ");
        m.append(format_notional_compact(Self::capped_total_exec(big_asks)).as_str());
        m.append(" | top ");
        m.append(Self::format_top(big_bids).as_str());
        m.append(" / ");
        m.append(Self::format_top(big_asks).as_str());
        m
    }

    /// Renders the best level of one side, `"-"` when the side is empty.
    fn format_top(pairs: &Vec<(u64, u64)>) -> (r: String)
        ensures
            r@ == top_str(pairs@),
    {
        if pairs.len() == 0 {
            String::from_str("-")
        } else {
            let mut m = format_scaled(pairs[0].0 as u128, 8, 2);
            m.append("x");
            m.append(format_scaled(pairs[0].1 as u128, 8, 3).as_str());
            m
        }
    }

    /// Pushes a pressure snapshot into the symbol's detector and renders
    /// the alert line when a breakout fires.
    fn detect_big_move(
        &mut self,
        idx: usize,
        display_symbol: &str,
        bid_pressure_pct: u64,
        total_notional: u128,
    ) -> (r: Option<String>)
        requires
            old(self).wf(),
            idx < old(self).entries@.len(),
            bid_pressure_pct <= PCT_100,
            total_notional <= NOTIONAL_CAP,
        ensures
            final(self).wf(),
            final(self).config == old(self).config,
            final(self).entries@.len() == old(self).entries@.len(),
            forall|j: int|
                0 <= j < old(self).entries@.len() && j != idx ==> final(self).entries@[j]
                    == old(self).entries@[j],
            ({
                let e = old(self).entries@[idx as int];
                let snap = DepthSnapshot { bid_pressure_pct, total_notional };
                let neww = pushed_window(e.detector@.window, e.detector@.window_size, snap);
                let sig = window_signal(
                    neww,
                    e.detector@.pressure_threshold,
                    e.detector@.min_total_notional,
                    e.detector@.min_consecutive,
                );
                &&& final(self).entries@[idx as int].cfg == e.cfg
                &&& final(self).entries@[idx as int].last_price == e.last_price
                &&& final(self).entries@[idx as int].detector@ == (DetectorModel {
                    window: neww,
                    ..e.detector@
                })
                &&& match alert_message_spec(display_symbol@, sig) {
                    Option::Some(a) => r is Some && r->Some_0@ == a,
                    Option::None => r is None,
                }
            }),
    {
        let snap = DepthSnapshot { bid_pressure_pct, total_notional };
        let e = &mut self.entries[idx];
        let sig = e.detector.push(snap);
        format_alert(display_symbol, &sig)
    }

    /// Runs one depth update through the pipeline of its symbol: filter
    /// the levels, gate on the floors, compute the pressure, render the
    /// depth line, feed the detector, and render an alert when a breakout
    /// fires. Returns the lines to publish, in order; an update for an
    /// unconfigured symbol, or one suppressed by a gate, yields none and
    /// changes nothing.
    pub fn process_depth_update(&mut self, depth: &DepthUpdate) -> (r: Vec<String>)
        requires
            old(self).wf(),
        ensures
            final(self).wf(),
            final(self).config == old(self).config,
            final(self).entries@.len() == old(self).entries@.len(),
            ({
                let sym = lower_of(depth.symbol@);
                let idx = find_entry(old(self).entries@, sym);
                if idx == -1 {
                    final(self).entries@ == old(self).entries@ && r@.len() == 0
                } else {
                    let e = old(self).entries@[idx];
                    let matched_bids = collect_big_levels_spec(
                        depth.bids@,
                        e.cfg.big_trade_qty,
                        3,
                    );
                    let matched_asks = collect_big_levels_spec(
                        depth.asks@,
                        e.cfg.big_trade_qty,
                        3,
                    );
                    let big_bids = extract_spec(
                        depth.bids@,
                        old(self).config.big_depth_min_qty,
                        old(self).config.big_depth_min_notional,
                    );
                    let big_asks = extract_spec(
                        depth.asks@,
                        old(self).config.big_depth_min_qty,
                        old(self).config.big_depth_min_notional,
                    );
                    let pr = pressure_of(big_bids, big_asks);
                    if (matched_bids.len() == 0 && matched_asks.len() == 0) || (big_bids.len() == 0
                        && big_asks.len() == 0) || !passes_pressure_filter_spec(
                        pr.0 as i64,
                        pr.1 as i64,
                        old(self).config.big_depth_min_pressure_pct,
                    ) {
                        final(self).entries@ == old(self).entries@ && r@.len() == 0
                    } else {
                        let dm = depth_message_spec(depth.symbol@, big_bids, big_asks, pr.0);
                        let snap = DepthSnapshot {
                            bid_pressure_pct: pr.0,
                            total_notional: pr.2,
                        };
                        let neww = pushed_window(
                            e.detector@.window,
                            e.detector@.window_size,
                            snap,
                        );
                        let sig = window_signal(
                            neww,
                            e.detector@.pressure_threshold,
                            e.detector@.min_total_notional,
                            e.detector@.min_consecutive,
                        );
                        &&& forall|j: int|
                            0 <= j < old(self).entries@.len() && j != idx
                                ==> final(self).entries@[j] == old(self).entries@[j]
                        &&& final(self).entries@[idx].cfg == e.cfg
                        &&& final(self).entries@[idx].last_price == e.last_price
                        &&& final(self).entries@[idx].detector@ == (DetectorModel {
                            window: neww,
                            ..e.detector@
                        })
                        &&& match alert_message_spec(depth.symbol@, sig) {
                            Option::Some(a) => r@.len() == 2 && r@[0]@ == dm && r@[1]@ == a,
                            Option::None => r@.len() == 1 && r@[0]@ == dm,
                        }
                    }
                }
            }),
    {
        let symbol = to_lowercase(depth.symbol.as_str());
        let idx = match find_entry_exec(&self.entries, &symbol) {
            Some(i) => i,
            None => {
                return Vec::new();
            },
        };
        let big_trade_qty = self.entries[idx].cfg.big_trade_qty;
        let matched_bids = collect_big_levels(depth.bids.as_slice(), big_trade_qty, 3);
        let matched_asks = collect_big_levels(depth.asks.as_slice(), big_trade_qty, 3);
        if !is_big_depth_update(matched_bids.as_slice(), matched_asks.as_slice()) {
            return Vec::new();
        }
        let (big_bids, big_asks) = self.extract_big_levels(depth);
        if big_bids.len() == 0 && big_asks.len() == 0 {
            return Vec::new();
        }
        let (bid_pressure_pct, sell_pressure_pct, total_notional) = Self::calculate_pressure(
            &big_bids,
            &big_asks,
        );
        if !passes_pressure_filter(
            bid_pressure_pct as i64,
            sell_pressure_pct as i64,
            self.config.big_depth_min_pressure_pct,
        ) {
            return Vec::new();
        }
        let depth_msg = Self::format_depth_message(depth, &big_bids, &big_asks, bid_pressure_pct);
        let mut out: Vec<String> = Vec::new();
        out.push(depth_msg);
        let alert = self.detect_big_move(
            idx,
            depth.symbol.as_str(),
            bid_pressure_pct,
            total_notional,
        );
        match alert {
            Some(a) => {
                out.push(a);
            },
            None => {},
        }
        out
    }

    /// Runs one aggregated trade through the pipeline of its symbol:
    /// update the last price, compute the spike against the previous one,
    /// and render the trade line when the quantity clears the big-trade
    /// floor or the spike clears an enabled spike floor. A trade for an
    /// unconfigured symbol yields nothing and changes nothing.
    pub fn process_agg_trade(&mut self, agg: &AggTrade) -> (r: Option<String>)
        requires
            old(self).wf(),
        ensures
            final(self).wf(),
            final(self).config == old(self).config,
            final(self).entries@.len() == old(self).entries@.len(),
            ({
                let sym = lower_of(agg.s@);
                let idx = find_entry(old(self).entries@, sym);
                if idx == -1 {
                    final(self).entries@ == old(self).entries@ && r is None
                } else {
                    let e = old(self).entries@[idx];
                    let cur = or_zero(crate::fixed::parse_fixed_spec(agg.p@));
                    let qty = or_zero(crate::fixed::parse_fixed_spec(agg.q@));
                    let spike = spike_spec(e.last_price, cur);
                    &&& forall|j: int|
                        0 <= j < old(self).entries@.len() && j != idx ==> final(self).entries@[j]
                            == old(self).entries@[j]
                    &&& final(self).entries@[idx].cfg == e.cfg
                    &&& final(self).entries@[idx].last_price == Some(cur)
                    &&& final(self).entries@[idx].detector@ == e.detector@
                    &&& if trade_signal(qty, spike, e.cfg.big_trade_qty, e.cfg.spike_pct) {
                        r is Some && r->Some_0@ == trade_message_spec(agg.s@, agg.p@, agg.q@, spike)
                    } else {
                        r is None
                    }
                }
            }),
    {
        let symbol = to_lowercase(agg.s.as_str());
        let idx = match find_entry_exec(&self.entries, &symbol) {
            Some(i) => i,
            None => {
                return None;
            },
        };
        let current = match crate::fixed::parse_fixed(agg.p.as_str()) {
            Some(v) => v,
            None => 0,
        };
        let qty = match crate::fixed::parse_fixed(agg.q.as_str()) {
            Some(v) => v,
            None => 0,
        };
        let e = &mut self.entries[idx];
        let spike = calc_spike(e.last_price, current);
        let fires = qty >= e.cfg.big_trade_qty || (e.cfg.spike_pct > 0 && spike
            >= e.cfg.spike_pct);
        e.last_price = Some(current);
        if fires {
            let mut m = String::from_str("[TRADE] ");
            m.append(to_uppercase(agg.s.as_str()).as_str());
            m.append(" ");
            m.append(agg.p.as_str());
            m.append(" x ");
            m.append(agg.q.as_str());
            m.append(" spike=");
            m.append(format_scaled(spike as u128, 6, 2).as_str());
            m.append("%");
            Some(m)
        } else {
            None
        }
    }
}

} // verus!
