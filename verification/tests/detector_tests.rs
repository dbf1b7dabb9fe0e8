use feeder_service::big_move_detector::{BigMoveDetector, BigMoveSignal, DepthSnapshot};

const PCT: u64 = 1_000_000;
const NOTIONAL: u128 = 10_000_000_000_000_000;

fn snap(pct_points: u64, notional_units: u128) -> DepthSnapshot {
    DepthSnapshot {
        bid_pressure_pct: pct_points * PCT,
        total_notional: notional_units * NOTIONAL,
    }
}

#[test]
fn consecutive_high_pressure_fires_bullish_on_third_push() {
    let mut d = BigMoveDetector::new(5, 75 * PCT, 10_000 * NOTIONAL, 3);
    assert_eq!(d.push(snap(98, 50_000)), BigMoveSignal::NoSignal);
    assert_eq!(d.push(snap(98, 50_000)), BigMoveSignal::NoSignal);
    assert_eq!(
        d.push(snap(98, 50_000)),
        BigMoveSignal::BullishBreakout {
            avg_pressure: 98 * PCT,
            total_notional: 50_000 * NOTIONAL,
        }
    );
}

#[test]
fn full_bid_pressure_run_fires_exactly_on_kth_push() {
    let mut d = BigMoveDetector::new(5, 75 * PCT, 1_000 * NOTIONAL, 3);
    assert_eq!(d.push(snap(100, 2_000)), BigMoveSignal::NoSignal);
    assert_eq!(d.push(snap(100, 2_000)), BigMoveSignal::NoSignal);
    assert_eq!(
        d.push(snap(100, 2_000)),
        BigMoveSignal::BullishBreakout {
            avg_pressure: 100 * PCT,
            total_notional: 2_000 * NOTIONAL,
        }
    );
}

#[test]
fn zero_bid_pressure_run_reports_sell_side_pressure() {
    let mut d = BigMoveDetector::new(5, 75 * PCT, 1_000 * NOTIONAL, 3);
    assert_eq!(d.push(snap(0, 2_000)), BigMoveSignal::NoSignal);
    assert_eq!(d.push(snap(0, 2_000)), BigMoveSignal::NoSignal);
    assert_eq!(
        d.push(snap(0, 2_000)),
        BigMoveSignal::BearishBreakout {
            avg_pressure: 100 * PCT,
            total_notional: 2_000 * NOTIONAL,
        }
    );
}

#[test]
fn window_stays_within_capacity() {
    let mut d = BigMoveDetector::new(4, 75 * PCT, 0, 3);
    for i in 0..50u64 {
        d.push(snap(50, 1 + i as u128));
        assert!(d.window_len() <= 4);
    }
    assert_eq!(d.window_len(), 4);
}

#[test]
fn thin_book_suppresses_signal() {
    // Extreme pressure, but the average notional stays below the floor.
    let mut d = BigMoveDetector::new(5, 75 * PCT, 10_000 * NOTIONAL, 3);
    assert_eq!(d.push(snap(100, 9_999)), BigMoveSignal::NoSignal);
    assert_eq!(d.push(snap(100, 9_999)), BigMoveSignal::NoSignal);
    assert_eq!(d.push(snap(100, 9_999)), BigMoveSignal::NoSignal);
}

#[test]
fn mixed_directions_yield_no_signal() {
    let mut d = BigMoveDetector::new(5, 75 * PCT, 0, 3);
    d.push(snap(100, 1_000));
    d.push(snap(0, 1_000));
    assert_eq!(d.push(snap(100, 1_000)), BigMoveSignal::NoSignal);
}

#[test]
fn breakout_averages_are_truncated_means() {
    // Pressures 80, 90, 100 average to 90 exactly; notionals 1000, 1001,
    // 1001 average to 1000.666..., truncated to the integer unit below.
    let mut d = BigMoveDetector::new(5, 75 * PCT, 0, 3);
    d.push(DepthSnapshot { bid_pressure_pct: 80 * PCT, total_notional: 1_000 });
    d.push(DepthSnapshot { bid_pressure_pct: 90 * PCT, total_notional: 1_001 });
    assert_eq!(
        d.push(DepthSnapshot { bid_pressure_pct: 100 * PCT, total_notional: 1_001 }),
        BigMoveSignal::BullishBreakout { avg_pressure: 90 * PCT, total_notional: 1_000 }
    );
}

#[test]
fn eviction_forgets_the_oldest_reading() {
    // Window of 3: an old low reading is evicted, leaving a full bullish run.
    let mut d = BigMoveDetector::new(3, 75 * PCT, 0, 3);
    d.push(snap(10, 1_000));
    d.push(snap(90, 1_000));
    d.push(snap(90, 1_000));
    assert_eq!(
        d.push(snap(90, 1_000)),
        BigMoveSignal::BullishBreakout {
            avg_pressure: 90 * PCT,
            total_notional: 1_000 * NOTIONAL,
        }
    );
}
