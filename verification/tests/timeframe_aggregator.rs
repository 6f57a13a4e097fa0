use rustrade::decimal::Dec;
use rustrade::market::{Candle, Timeframe};
use rustrade::timeframe_aggregator::TimeframeAggregator;

fn create_test_candle(symbol: &str, timestamp: i64, close: i64) -> Candle {
    Candle {
        symbol: symbol.to_string(),
        open: Dec::from_int(close),
        high: Dec::from_int(close + 1),
        low: Dec::from_int(close - 1),
        close: Dec::from_int(close),
        volume: Dec::from_int(1000),
        timestamp,
    }
}

#[test]
fn test_aggregate_5min_candles() {
    let mut aggregator = TimeframeAggregator::new();
    let timeframes = vec![Timeframe::FiveMin];
    let base = 1704067200000i64;
    for i in 0..5i64 {
        let timestamp = base + (i * 60 * 1000);
        let candle = create_test_candle("BTC/USD", timestamp, 100 + i);
        let completed = aggregator.process_candle(&candle, &timeframes);
        if i < 4 {
            assert_eq!(completed.len(), 0);
        } else {
            assert_eq!(completed.len(), 1);
            let tf_candle = &completed[0];
            assert_eq!(tf_candle.timeframe, Timeframe::FiveMin);
            assert_eq!(tf_candle.open, Dec::new(1000, 1));
            assert_eq!(tf_candle.close, Dec::new(1040, 1));
            assert_eq!(tf_candle.candle_count, 5);
        }
    }
}

#[test]
fn test_multiple_timeframes() {
    let mut aggregator = TimeframeAggregator::new();
    let timeframes = vec![Timeframe::FiveMin, Timeframe::FifteenMin];
    let base = 1704067200000i64;
    let mut completed_5min = 0;
    let mut completed_15min = 0;
    for i in 0..15i64 {
        let timestamp = base + (i * 60 * 1000);
        let candle = create_test_candle("BTC/USD", timestamp, 100);
        let completed = aggregator.process_candle(&candle, &timeframes);
        for tf_candle in completed {
            match tf_candle.timeframe {
                Timeframe::FiveMin => completed_5min += 1,
                Timeframe::FifteenMin => completed_15min += 1,
                _ => {}
            }
        }
    }
    assert_eq!(completed_5min, 3);
    assert_eq!(completed_15min, 1);
}

#[test]
fn test_period_boundary() {
    let mut aggregator = TimeframeAggregator::new();
    let timeframes = vec![Timeframe::FiveMin];
    let base = 1704067200000i64;
    for i in 0..4i64 {
        let timestamp = base + (i * 60 * 1000);
        let candle = create_test_candle("BTC/USD", timestamp, 100);
        aggregator.process_candle(&candle, &timeframes);
    }
    let candle = create_test_candle("BTC/USD", base + (10 * 60 * 1000), 100);
    let completed = aggregator.process_candle(&candle, &timeframes);
    assert_eq!(completed.len(), 1);
    assert_eq!(completed[0].candle_count, 4);
}

#[test]
fn test_flush() {
    let mut aggregator = TimeframeAggregator::new();
    let timeframes = vec![Timeframe::FiveMin];
    let base = 1704067200000i64;
    for i in 0..3i64 {
        let timestamp = base + (i * 60 * 1000);
        let candle = create_test_candle("BTC/USD", timestamp, 100);
        aggregator.process_candle(&candle, &timeframes);
    }
    let flushed = aggregator.flush(Some("BTC/USD"));
    assert_eq!(flushed.len(), 1);
    assert_eq!(flushed[0].candle_count, 3);
    assert!(!flushed[0].is_complete());
}

#[test]
fn flush_keeps_other_symbols_and_merges_bars() {
    let mut aggregator = TimeframeAggregator::new();
    let timeframes = vec![Timeframe::FiveMin];
    let base = 1704067200000i64;
    aggregator.process_candle(&create_test_candle("BTC/USD", base, 100), &timeframes);
    aggregator.process_candle(&create_test_candle("ETH/USD", base, 10), &timeframes);
    aggregator.process_candle(&create_test_candle("BTC/USD", base + 60_000, 105), &timeframes);
    let active = aggregator.get_active_candle("BTC/USD", Timeframe::FiveMin).unwrap();
    assert_eq!(active.high, Dec::from_int(106));
    assert_eq!(active.low, Dec::from_int(99));
    assert_eq!(active.close, Dec::from_int(105));
    assert_eq!(active.volume, Dec::from_int(2000));
    assert_eq!(active.timestamp, base);
    let flushed = aggregator.flush(Some("BTC/USD"));
    assert_eq!(flushed.len(), 1);
    assert!(aggregator.get_active_candle("BTC/USD", Timeframe::FiveMin).is_none());
    assert!(aggregator.get_active_candle("ETH/USD", Timeframe::FiveMin).is_some());
    let rest = aggregator.flush(None);
    assert_eq!(rest.len(), 1);
    assert!(aggregator.get_active_candle("ETH/USD", Timeframe::FiveMin).is_none());
}

#[test]
fn one_minute_timeframes_are_ignored() {
    let mut with_one_minute = TimeframeAggregator::new();
    let mut without = TimeframeAggregator::new();
    let base = 1704067200000i64;
    for i in 0..6i64 {
        let candle = create_test_candle("BTC/USD", base + i * 60_000, 100 + i);
        let a = with_one_minute.process_candle(&candle, &[Timeframe::OneMin, Timeframe::FiveMin, Timeframe::OneMin]);
        let b = without.process_candle(&candle, &[Timeframe::FiveMin]);
        assert_eq!(a.len(), b.len());
        for (x, y) in a.iter().zip(b.iter()) {
            assert_eq!(x.timeframe, Timeframe::FiveMin);
            assert_eq!(x.timestamp, y.timestamp);
            assert_eq!(x.close, y.close);
            assert_eq!(x.volume, y.volume);
        }
    }
    assert!(with_one_minute.get_active_candle("BTC/USD", Timeframe::OneMin).is_none());
    let a = with_one_minute.get_active_candle("BTC/USD", Timeframe::FiveMin).unwrap();
    let b = without.get_active_candle("BTC/USD", Timeframe::FiveMin).unwrap();
    assert_eq!(a.timestamp, b.timestamp);
    assert_eq!(a.close, b.close);
}

#[test]
fn a_new_period_returns_the_old_bar_and_opens_a_fresh_one() {
    let mut aggregator = TimeframeAggregator::new();
    let timeframes = vec![Timeframe::FiveMin, Timeframe::FifteenMin];
    let base = 1704067200000i64;
    aggregator.process_candle(&create_test_candle("BTC/USD", base, 100), &timeframes);
    aggregator.process_candle(&create_test_candle("ETH/USD", base, 10), &timeframes);
    aggregator.process_candle(&create_test_candle("BTC/USD", base + 60_000, 101), &timeframes);
    // seven minutes later: a new five-minute period, the same fifteen-minute period
    let completed =
        aggregator.process_candle(&create_test_candle("BTC/USD", base + 7 * 60_000, 120), &timeframes);
    assert_eq!(completed.len(), 1);
    assert_eq!(completed[0].timeframe, Timeframe::FiveMin);
    assert_eq!(completed[0].timestamp, base);
    assert_eq!(completed[0].candle_count, 2);
    assert_eq!(completed[0].close, Dec::from_int(101));
    assert!(!completed[0].is_complete());
    let fresh = aggregator.get_active_candle("BTC/USD", Timeframe::FiveMin).unwrap();
    assert_eq!(fresh.timestamp, base + 5 * 60_000);
    assert_eq!(fresh.candle_count, 1);
    assert_eq!(fresh.open, Dec::from_int(120));
    let quarter = aggregator.get_active_candle("BTC/USD", Timeframe::FifteenMin).unwrap();
    assert_eq!(quarter.timestamp, base);
    assert_eq!(quarter.candle_count, 3);
    // the other symbol's bars are untouched
    let eth = aggregator.get_active_candle("ETH/USD", Timeframe::FiveMin).unwrap();
    assert_eq!(eth.candle_count, 1);
    assert_eq!(eth.close, Dec::from_int(10));
}

#[test]
fn try_process_candle_refuses_a_volume_sum_out_of_range() {
    let mut aggregator = TimeframeAggregator::new();
    let timeframes = vec![Timeframe::FiveMin];
    let base = 1704067200000i64;
    let huge = Dec::from_parts(79_228_162_514_264_337_593_543_950_335, 0).unwrap();
    let mut first = create_test_candle("BTC/USD", base, 100);
    first.volume = huge;
    assert_eq!(aggregator.try_process_candle(&first, &timeframes).map(|v| v.len()), Some(0));
    let mut second = create_test_candle("BTC/USD", base + 60_000, 101);
    second.volume = Dec::from_int(1);
    assert!(aggregator.try_process_candle(&second, &timeframes).is_none());
    // nothing changed
    let bar = aggregator.get_active_candle("BTC/USD", Timeframe::FiveMin).unwrap();
    assert_eq!(bar.candle_count, 1);
    assert_eq!(bar.close, Dec::from_int(100));
    // a candle of the next period opens a fresh bar instead of adding to the full one
    let third = create_test_candle("BTC/USD", base + 5 * 60_000, 102);
    let completed = aggregator.try_process_candle(&third, &timeframes).unwrap();
    assert_eq!(completed.len(), 1);
    assert_eq!(completed[0].volume, huge);
}
