use feeder_service::binance::AggTrade;
use feeder_service::binance_depth::{DepthUpdate, RawLevel};
use feeder_service::config::{Config, SymbolConfig};
use feeder_service::pipeline::AppState;

const AMOUNT: u64 = 100_000_000;
const PCT: u64 = 1_000_000;

fn raw(price: &str, qty: &str) -> RawLevel {
    RawLevel { price: price.to_string(), qty: qty.to_string() }
}

fn btc_config() -> Config {
    Config {
        symbols: vec![SymbolConfig {
            symbol: "btcusdt".to_string(),
            big_trade_qty: 1 * AMOUNT,
            spike_pct: 400_000,
        }],
        port: 9001,
        broadcast_capacity: 16,
        big_depth_min_qty: 0,
        big_depth_min_notional: 0,
        big_depth_min_pressure_pct: 0,
        disable_depth_stream: false,
    }
}

fn depth(symbol: &str, bids: Vec<RawLevel>, asks: Vec<RawLevel>) -> DepthUpdate {
    DepthUpdate {
        symbol: symbol.to_string(),
        bids,
        asks,
        event_time: 1,
        first_update_id: 1,
        final_update_id: 2,
    }
}

#[test]
fn depth_update_renders_exact_depth_line() {
    let mut state = AppState::new(btc_config());
    let update = depth(
        "BTCUSDT",
        vec![raw("100.00", "2.00")],
        vec![raw("100.00", "1.00")],
    );
    let out = state.process_depth_update(&update);
    assert_eq!(
        out,
        vec![
            "[DEPTH] BTCUSDT BUY [████████░░░░] B:66.7% S:33.3% | notional 200 vs 100 | top 100.00x2.000 / 100.00x1.000"
                .to_string()
        ]
    );
}

#[test]
fn mixed_case_symbol_is_matched_lowercase_and_shown_uppercase() {
    let mut state = AppState::new(btc_config());
    let update = depth(
        "btcUsdt",
        vec![raw("100.00", "2.00")],
        vec![raw("100.00", "1.00")],
    );
    let out = state.process_depth_update(&update);
    assert_eq!(out.len(), 1);
    assert!(out[0].starts_with("[DEPTH] BTCUSDT BUY"));
}

#[test]
fn depth_update_for_unconfigured_symbol_is_dropped() {
    let mut state = AppState::new(btc_config());
    let update = depth(
        "ETHUSDT",
        vec![raw("100.00", "2.00")],
        vec![raw("100.00", "1.00")],
    );
    assert!(state.process_depth_update(&update).is_empty());
}

#[test]
fn depth_update_without_big_levels_is_dropped() {
    // Every level is below the configured big-trade quantity.
    let mut state = AppState::new(btc_config());
    let update = depth(
        "BTCUSDT",
        vec![raw("100.00", "0.50")],
        vec![raw("100.00", "0.25")],
    );
    assert!(state.process_depth_update(&update).is_empty());
}

#[test]
fn depth_update_below_pressure_floor_is_dropped() {
    let mut cfg = btc_config();
    cfg.big_depth_min_pressure_pct = 70 * PCT as i64;
    let mut state = AppState::new(cfg);
    // A balanced book: both sides read 50 percent, under the 70 floor.
    let update = depth(
        "BTCUSDT",
        vec![raw("100.00", "2.00")],
        vec![raw("100.00", "2.00")],
    );
    assert!(state.process_depth_update(&update).is_empty());
}

#[test]
fn sustained_one_sided_book_fires_breakout_on_third_update() {
    let mut state = AppState::new(btc_config());
    let expected_depth_line = "[DEPTH] BTCUSDT BUY [████████████] B:100.0% S:0.0% | notional 100 vs 0 | top 100.00x1.000 / -";
    for _ in 0..2 {
        let update = depth("BTCUSDT", vec![raw("100.00", "1.00")], vec![]);
        let out = state.process_depth_update(&update);
        assert_eq!(out, vec![expected_depth_line.to_string()]);
    }
    let update = depth("BTCUSDT", vec![raw("100.00", "1.00")], vec![]);
    let out = state.process_depth_update(&update);
    assert_eq!(
        out,
        vec![
            expected_depth_line.to_string(),
            "[BIGMOVE] BTCUSDT BULLISH BREAKOUT likely! avg_pressure=100.0% notional=100"
                .to_string(),
        ]
    );
}

#[test]
fn sustained_ask_side_book_fires_bearish_breakout() {
    let mut state = AppState::new(btc_config());
    for _ in 0..2 {
        let update = depth("BTCUSDT", vec![], vec![raw("100.00", "1.00")]);
        state.process_depth_update(&update);
    }
    let update = depth("BTCUSDT", vec![], vec![raw("100.00", "1.00")]);
    let out = state.process_depth_update(&update);
    assert_eq!(out.len(), 2);
    assert_eq!(
        out[1],
        "[BIGMOVE] BTCUSDT BEARISH BREAKOUT likely! avg_pressure=100.0% notional=100"
    );
}

#[test]
fn big_trade_is_logged_and_spike_tracks_last_price() {
    let mut state = AppState::new(btc_config());
    let big = AggTrade {
        s: "BTCUSDT".to_string(),
        p: "100.00".to_string(),
        q: "2.0".to_string(),
        t: 1,
        m: false,
    };
    assert_eq!(
        state.process_agg_trade(&big),
        Some("[TRADE] BTCUSDT 100.00 x 2.0 spike=0.00%".to_string())
    );

    // Small quantity, but a one-percent move over the 0.4 percent floor.
    let spiky = AggTrade {
        s: "BTCUSDT".to_string(),
        p: "101.00".to_string(),
        q: "0.5".to_string(),
        t: 2,
        m: false,
    };
    assert_eq!(
        state.process_agg_trade(&spiky),
        Some("[TRADE] BTCUSDT 101.00 x 0.5 spike=1.00%".to_string())
    );

    // Same price again: no spike, small quantity: nothing to log.
    let quiet = AggTrade {
        s: "BTCUSDT".to_string(),
        p: "101.00".to_string(),
        q: "0.5".to_string(),
        t: 3,
        m: false,
    };
    assert_eq!(state.process_agg_trade(&quiet), None);
}

#[test]
fn trade_for_unconfigured_symbol_is_dropped() {
    let mut state = AppState::new(btc_config());
    let trade = AggTrade {
        s: "ETHUSDT".to_string(),
        p: "100.00".to_string(),
        q: "9.0".to_string(),
        t: 1,
        m: true,
    };
    assert_eq!(state.process_agg_trade(&trade), None);
}

#[test]
fn pressure_percentages_always_sum_to_one_hundred() {
    let bids = vec![(100 * AMOUNT, 2 * AMOUNT)];
    let asks = vec![(100 * AMOUNT, 1 * AMOUNT)];
    let (b, s, total) = AppState::calculate_pressure(&bids, &asks);
    assert_eq!(b, 66_666_666);
    assert_eq!(s, 33_333_334);
    assert_eq!(b + s, 100 * PCT);
    assert_eq!(total, 300 * 10_000_000_000_000_000u128);
}

#[test]
fn pressure_with_no_notional_reads_zero_on_both_sides() {
    let none: Vec<(u64, u64)> = vec![];
    let (b, s, total) = AppState::calculate_pressure(&none, &none);
    assert_eq!((b, s, total), (0, 0, 0));
}
