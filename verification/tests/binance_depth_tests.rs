use feeder_service::binance_depth::{
    build_depth_streams, build_diff_depth_streams, collect_big_levels, format_depth_levels,
    format_notional_compact, format_pressure_visual, is_big_depth_update, parse_depth_level,
    parse_depth_update, ParsedDepthLevel, RawLevel,
};

fn raw(price: &str, qty: &str) -> RawLevel {
    RawLevel { price: price.to_string(), qty: qty.to_string() }
}

#[test]
fn parse_depth_update_from_combined_stream() {
    let msg = r#"{"stream":"btcusdt@depth@100ms","data":{"e":"depthUpdate","E":1672515782136,"s":"BTCUSDT","U":157,"u":160,"b":[["24100.10","1.20"]],"a":[["24100.20","0.80"]]}}"#;
    let depth = parse_depth_update(msg).expect("depth should parse");

    assert_eq!(depth.symbol, "BTCUSDT");
    assert_eq!(depth.event_time, 1672515782136);
    assert_eq!(depth.first_update_id, 157);
    assert_eq!(depth.final_update_id, 160);
    assert_eq!(depth.bids[0], raw("24100.10", "1.20"));
    assert_eq!(depth.asks[0], raw("24100.20", "0.80"));
}

#[test]
fn parse_depth_level_rejects_non_finite_and_non_positive_values() {
    let invalid_nan = raw("NaN", "5.0");
    let invalid_inf = raw("24100.10", "inf");
    let invalid_zero = raw("24100.10", "0");
    let invalid_negative = raw("-1", "1.0");

    assert!(parse_depth_level(&invalid_nan).is_none());
    assert!(parse_depth_level(&invalid_inf).is_none());
    assert!(parse_depth_level(&invalid_zero).is_none());
    assert!(parse_depth_level(&invalid_negative).is_none());
}

#[test]
fn collect_big_levels_orders_by_notional_and_limits_matches() {
    let levels = vec![
        raw("24100.10", "1.0"),
        raw("24100.00", "2.0"),
        raw("24000.00", "5.0"),
    ];

    let matches = collect_big_levels(&levels, 1 * 100_000_000, 2);

    assert_eq!(matches.len(), 2);
    assert_eq!(matches[0].price, 24000 * 100_000_000);
    assert_eq!(matches[0].qty, 5 * 100_000_000);
    assert_eq!(matches[1].price, 24100 * 100_000_000);
    assert_eq!(matches[1].qty, 2 * 100_000_000);
}

#[test]
fn collect_big_levels_skips_malformed_levels() {
    let levels = vec![
        raw("oops", "2.0"),
        raw("24100.00", "bad"),
        raw("24100.50", "2.5"),
    ];

    let matches = collect_big_levels(&levels, 2 * 100_000_000, 10);

    assert_eq!(matches.len(), 1);
    assert_eq!(matches[0].price, 2_410_050_000_000);
    assert_eq!(matches[0].qty, 250_000_000);
}

#[test]
fn is_big_depth_update_requires_any_side_match() {
    let none: Vec<ParsedDepthLevel> = vec![];
    let some = vec![ParsedDepthLevel {
        price: 2_410_010_000_000,
        qty: 3 * 100_000_000,
        notional: 723_003_000_000_000_000_000,
    }];

    assert!(!is_big_depth_update(&none, &none));
    assert!(is_big_depth_update(&some, &none));
}

#[test]
fn format_depth_levels_uses_compact_representation() {
    let levels = vec![
        ParsedDepthLevel {
            price: 2_410_010_000_000,
            qty: 1_250_000_000,
            notional: 3_012_512_500_000_000_000_000,
        },
        ParsedDepthLevel {
            price: 2_410_020_000_000,
            qty: 10 * 100_000_000,
            notional: 2_410_020_000_000_000_000_000,
        },
    ];

    assert_eq!(
        format_depth_levels(&levels),
        "24100.10 x 12.5000,24100.20 x 10.0000"
    );
    assert_eq!(format_depth_levels(&[]), "-");
}

#[test]
fn format_pressure_visual_renders_balance_bar() {
    assert_eq!(format_pressure_visual(0, 10), "░░░░░░░░░░");
    assert_eq!(format_pressure_visual(50 * 1_000_000, 10), "█████░░░░░");
    assert_eq!(format_pressure_visual(100 * 1_000_000, 10), "██████████");
}

#[test]
fn format_notional_compact_uses_suffixes() {
    assert_eq!(
        format_notional_compact(980 * 10_000_000_000_000_000),
        "980"
    );
    assert_eq!(
        format_notional_compact(1_540 * 10_000_000_000_000_000),
        "1.5K"
    );
    assert_eq!(
        format_notional_compact(2_750_000 * 10_000_000_000_000_000),
        "2.75M"
    );
}

#[test]
fn build_depth_stream_names() {
    let symbols = vec!["btcusdt".to_string(), "ETHUSDT".to_string()];
    let streams = build_depth_streams(&symbols, 20, 100);

    assert_eq!(
        streams,
        vec![
            "btcusdt@depth20@100ms".to_string(),
            "ethusdt@depth20@100ms".to_string(),
        ]
    );
}

#[test]
fn build_diff_depth_stream_names() {
    let symbols = vec!["btcusdt".to_string(), "ETHUSDT".to_string()];
    let streams = build_diff_depth_streams(&symbols, 100);

    assert_eq!(
        streams,
        vec![
            "btcusdt@depth@100ms".to_string(),
            "ethusdt@depth@100ms".to_string(),
        ]
    );
}
