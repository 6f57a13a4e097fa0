use rustrade::benchmarking::{closed_trade_counts, orders_to_trades, BenchmarkReporter};
use rustrade::decimal::Dec;
use rustrade::trading::{Order, OrderSide, OrderStatus, OrderType};
use rustrade::win_rate::reconstruct_trades;

fn order(id: &str, side: OrderSide, price: i64, quantity: i64, timestamp: i64) -> Order {
    Order {
        id: id.to_string(),
        symbol: "AAPL".to_string(),
        side,
        price: Dec::from_int(price),
        quantity: Dec::from_int(quantity),
        order_type: OrderType::Market,
        status: OrderStatus::Filled,
        timestamp,
        stop_loss: None,
        correlation_id: None,
    }
}

#[test]
fn orders_pair_into_round_trip_trades() {
    let orders = vec![
        order("b1", OrderSide::Buy, 100, 10, 1),
        order("s1", OrderSide::Sell, 110, 10, 2),
        order("s0", OrderSide::Sell, 120, 5, 3), // nothing open
        order("b2", OrderSide::Buy, 50, 4, 4),
        order("b3", OrderSide::Buy, 60, 4, 5),   // replaces b2
        order("s2", OrderSide::Sell, 55, 4, 6),
    ];
    let trades = orders_to_trades(&orders);
    assert_eq!(trades.len(), 2);
    assert_eq!(trades[0].id, "s1");
    assert_eq!(trades[0].side, OrderSide::Buy);
    assert_eq!(trades[0].entry_price, Dec::from_int(100));
    assert_eq!(trades[0].exit_price, Some(Dec::from_int(110)));
    assert_eq!(trades[0].pnl, Dec::from_int(100));
    assert_eq!(trades[0].entry_timestamp, 1);
    assert_eq!(trades[0].exit_timestamp, Some(2));
    assert_eq!(trades[1].id, "s2");
    assert_eq!(trades[1].entry_price, Dec::from_int(60));
    assert_eq!(trades[1].pnl, Dec::from_int(-20));
    assert_eq!(trades[1].entry_timestamp, 5);
}

#[test]
fn closed_trades_match_the_latest_open_buy() {
    let orders = vec![
        order("b1", OrderSide::Buy, 100, 1, 1),
        order("b2", OrderSide::Buy, 200, 1, 2),
        order("s1", OrderSide::Sell, 150, 1, 3), // closes b2: loss
        order("s2", OrderSide::Sell, 150, 1, 4), // closes b1: win
        order("s3", OrderSide::Sell, 150, 1, 5), // nothing open
    ];
    assert_eq!(closed_trade_counts(&orders), (1, 2));
    assert_eq!(closed_trade_counts(&vec![]), (0, 0));
}

#[test]
fn summary_counts_gains_and_picks_best_and_worst() {
    let reporter = BenchmarkReporter::new("reports");
    assert_eq!(reporter.output_dir(), "reports");
    assert!(reporter.summarize_returns(&vec![]).is_none());
    let returns = vec![
        Dec::from_int(5),
        Dec::from_int(-3),
        Dec::from_int(5),
        Dec::from_int(-3),
        Dec::zero(),
    ];
    let s = reporter.summarize_returns(&returns).unwrap();
    assert_eq!(s.total_scenarios, 5);
    assert_eq!(s.profitable_scenarios, 2);
    assert_eq!(s.best, 2);
    assert_eq!(s.worst, 1);
}

#[test]
fn benchmark_trades_pair_orders_like_the_win_rate_provider() {
    let orders = vec![
        order("s0", OrderSide::Sell, 120, 5, 1),
        order("b1", OrderSide::Buy, 100, 10, 2),
        order("b2", OrderSide::Buy, 105, 3, 3),
        order("s1", OrderSide::Sell, 110, 3, 4),
        order("b3", OrderSide::Buy, 90, 2, 5),
        order("s2", OrderSide::Sell, 80, 2, 6),
        order("b4", OrderSide::Buy, 70, 1, 7),
    ];
    let records = orders_to_trades(&orders);
    let triples = reconstruct_trades(&orders);
    assert_eq!(records.len(), triples.len());
    for (record, (buy, sell, quantity)) in records.iter().zip(triples.iter()) {
        assert_eq!(record.entry_price, *buy);
        assert_eq!(record.exit_price, Some(*sell));
        assert_eq!(record.quantity, *quantity);
    }
}
