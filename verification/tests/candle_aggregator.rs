use chrono::{TimeZone, Utc};
use rustrade::candle_aggregator::CandleAggregator;
use rustrade::decimal::Dec;

fn ts(h: u32, m: u32, s: u32) -> i64 {
    Utc.with_ymd_and_hms(2024, 1, 1, h, m, s).unwrap().timestamp_millis()
}

fn d(n: i64) -> Dec {
    Dec::from_int(n)
}

#[test]
fn test_candle_aggregation_realistic_prices() {
    let mut agg = CandleAggregator::new();
    let symbol = "BTC/USD";
    assert!(agg.on_quote(symbol, d(68000), Dec::new(15, 1), ts(0, 0, 1)).is_none());
    assert!(agg.on_quote(symbol, d(68150), Dec::new(25, 1), ts(0, 0, 30)).is_none());
    assert!(agg.on_quote(symbol, d(68100), Dec::new(8, 1), ts(0, 0, 45)).is_none());
    assert!(agg.on_quote(symbol, d(67900), Dec::new(10, 1), ts(0, 0, 59)).is_none());
    let c4 = agg.on_quote(symbol, d(67950), Dec::new(5, 1), ts(0, 1, 5));
    assert!(c4.is_some());
    let candle = c4.unwrap();
    assert_eq!(candle.open, d(68000));
    assert_eq!(candle.high, d(68150));
    assert_eq!(candle.low, d(67900));
    assert_eq!(candle.close, d(67900));
    assert_eq!(candle.volume, Dec::new(58, 1));
    assert_eq!(candle.timestamp, ts(0, 0, 0));
}

#[test]
fn test_outlier_rejection_within_candle() {
    let mut agg = CandleAggregator::new();
    let symbol = "BTC/USD";
    let base_ts = ts(0, 0, 1);
    agg.on_quote(symbol, d(68000), d(1), base_ts);
    agg.on_quote(symbol, d(68050), d(1), base_ts + 5000);
    agg.on_quote(symbol, d(68020), d(1), base_ts + 10000);
    agg.on_quote(symbol, d(68030), d(1), base_ts + 15000);
    let result = agg.on_quote(symbol, d(69500), d(1), base_ts + 20000);
    assert!(result.is_none(), "Outlier should be silently rejected");
    let candle = agg.on_quote(symbol, d(68040), Dec::new(5, 1), ts(0, 1, 1));
    assert!(candle.is_some());
    let c = candle.unwrap();
    assert_eq!(c.high, d(68050));
    assert_eq!(c.low, d(68000));
    assert_eq!(c.close, d(68030));
}

#[test]
fn test_outlier_rejection_cross_candle() {
    let mut agg = CandleAggregator::new();
    let symbol = "ETH/USD";
    let t0 = ts(0, 0, 1);
    agg.on_quote(symbol, d(3500), d(1), t0);
    agg.on_quote(symbol, d(3510), d(1), t0 + 10000);
    agg.on_quote(symbol, d(3505), d(1), t0 + 20000);
    agg.on_quote(symbol, d(3502), d(1), t0 + 30000);
    let t1 = ts(0, 1, 1);
    let candle1 = agg.on_quote(symbol, d(3503), d(1), t1);
    assert!(candle1.is_some());
    assert_eq!(candle1.unwrap().close, d(3502));
    let result = agg.on_quote(symbol, d(3600), d(1), t1 + 5000);
    assert!(result.is_none(), "Cross-candle outlier should be rejected");
    let result = agg.on_quote(symbol, d(3508), d(1), t1 + 10000);
    assert!(result.is_none());
}

#[test]
fn test_normal_prices_not_rejected() {
    let mut agg = CandleAggregator::new();
    let symbol = "BTC/USD";
    let t0 = ts(0, 0, 1);
    let prices = vec![68000, 68050, 68100, 67980, 68020, 68150, 67950, 68000, 68080, 68030];
    for (i, price) in prices.iter().enumerate() {
        let result = agg.on_quote(symbol, d(*price), d(1), t0 + (i as i64 * 3000));
        assert!(result.is_none(), "Normal price {} should NOT be rejected", price);
    }
}

#[test]
fn outlier_does_not_enter_the_candle() {
    let mut agg = CandleAggregator::new();
    let symbol = "BTC/USD";
    let t0 = ts(0, 0, 1);
    for i in 0..3i64 {
        agg.on_quote(symbol, d(100), d(1), t0 + i * 1000);
    }
    assert!(agg.on_quote(symbol, d(102), d(1), t0 + 4000).is_none());
    assert!(agg.on_quote(symbol, Dec::new(1014, 1), d(1), t0 + 5000).is_none());
    let c = agg.on_quote(symbol, d(100), d(1), ts(0, 1, 0)).unwrap();
    assert_eq!(c.high, Dec::new(1014, 1));
    assert_eq!(c.volume, d(4));
}

#[test]
fn invalid_timestamp_is_dropped() {
    let mut agg = CandleAggregator::new();
    assert!(agg.on_quote("BTC/USD", d(100), d(1), i64::MAX).is_none());
    assert!(agg.on_quote("BTC/USD", d(100), d(1), ts(0, 0, 1)).is_none());
    assert!(agg.on_quote("BTC/USD", d(100), d(1), ts(0, 1, 1)).is_some());
}
