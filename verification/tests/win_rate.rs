use rustrade::decimal::Dec;
use rustrade::trading::{Order, OrderSide, OrderStatus, OrderType};
use rustrade::win_rate::{count_wins, overall_win_counts, reconstruct_trades, trade_averages, trade_totals};

fn order(symbol: &str, side: OrderSide, price: i64) -> Order {
    Order {
        id: "id".to_string(),
        symbol: symbol.to_string(),
        side,
        price: Dec::new(price * 10, 1),
        quantity: Dec::new(100, 1),
        order_type: OrderType::Market,
        status: OrderStatus::Filled,
        timestamp: 0,
        stop_loss: None,
        correlation_id: None,
    }
}

#[test]
fn buys_pair_with_the_next_sell() {
    let orders = vec![
        order("AAPL", OrderSide::Buy, 100),
        order("AAPL", OrderSide::Sell, 105),
        order("AAPL", OrderSide::Buy, 100),
        order("AAPL", OrderSide::Sell, 95),
        order("AAPL", OrderSide::Buy, 100),
        order("AAPL", OrderSide::Sell, 103),
    ];
    let trades = reconstruct_trades(&orders);
    assert_eq!(trades.len(), 3);
    assert_eq!(count_wins(&trades), 2);
}

#[test]
fn unmatched_sells_are_ignored_and_later_buys_replace_earlier() {
    let orders = vec![
        order("AAPL", OrderSide::Sell, 90),
        order("AAPL", OrderSide::Buy, 100),
        order("AAPL", OrderSide::Buy, 120),
        order("AAPL", OrderSide::Sell, 110),
    ];
    let trades = reconstruct_trades(&orders);
    assert_eq!(trades.len(), 1);
    assert_eq!(trades[0].0, Dec::from_int(120));
    assert_eq!(count_wins(&trades), 0);
}

#[test]
fn trade_statistics_totals() {
    let orders = vec![
        order("AAPL", OrderSide::Buy, 100),
        order("AAPL", OrderSide::Sell, 110),
        order("AAPL", OrderSide::Buy, 100),
        order("AAPL", OrderSide::Sell, 90),
        order("AAPL", OrderSide::Buy, 100),
        order("AAPL", OrderSide::Sell, 105),
    ];
    let totals = trade_totals(&reconstruct_trades(&orders));
    assert_eq!(totals.total_trades, 3);
    assert_eq!(totals.winning_trades, 2);
    assert_eq!(totals.losing_trades, 1);
    assert_eq!(totals.total_profit, Dec::from_int(150));
    assert_eq!(totals.total_loss, Dec::from_int(100));
}

#[test]
fn overall_counts_pair_each_symbol_on_its_own() {
    let orders = vec![
        order("AAPL", OrderSide::Buy, 100),
        order("MSFT", OrderSide::Buy, 200),
        order("AAPL", OrderSide::Sell, 110),
        order("MSFT", OrderSide::Sell, 190),
        order("TSLA", OrderSide::Sell, 50),
    ];
    assert_eq!(overall_win_counts(&orders), (2, 1));
}

/// The empirical win rate of a symbol's orders with the provider's fallback:
/// the default below `min_trades` completed trades.
fn win_rate_with_default(orders: &Vec<Order>, default_win_rate: f64, min_trades: usize) -> f64 {
    let trades = reconstruct_trades(orders);
    if trades.len() < min_trades {
        return default_win_rate;
    }
    count_wins(&trades) as f64 / trades.len() as f64
}

fn as_f64(d: Dec) -> f64 {
    d.mantissa() as f64 / 10f64.powi(d.scale() as i32)
}

#[test]
fn test_sufficient_data_returns_empirical_win_rate() {
    let orders = vec![
        order("AAPL", OrderSide::Buy, 100),
        order("AAPL", OrderSide::Sell, 105), // Win
        order("AAPL", OrderSide::Buy, 100),
        order("AAPL", OrderSide::Sell, 95), // Loss
        order("AAPL", OrderSide::Buy, 100),
        order("AAPL", OrderSide::Sell, 103), // Win
    ];
    let win_rate = win_rate_with_default(&orders, 0.50, 2);
    assert!((win_rate - 0.666).abs() < 0.01); // 2/3
}

#[test]
fn test_insufficient_data_returns_default() {
    let orders = vec![order("AAPL", OrderSide::Buy, 100), order("AAPL", OrderSide::Sell, 105)];
    let win_rate = win_rate_with_default(&orders, 0.50, 5);
    assert_eq!(win_rate, 0.50);
}

#[test]
fn test_statistics_calculation() {
    let orders = vec![
        order("AAPL", OrderSide::Buy, 100),
        order("AAPL", OrderSide::Sell, 110), // +100 profit
        order("AAPL", OrderSide::Buy, 100),
        order("AAPL", OrderSide::Sell, 90), // -100 loss
        order("AAPL", OrderSide::Buy, 100),
        order("AAPL", OrderSide::Sell, 105), // +50 profit
    ];
    let trades = reconstruct_trades(&orders);
    let totals = trade_totals(&trades);
    assert_eq!(totals.total_trades, 3);
    assert_eq!(totals.winning_trades, 2);
    assert_eq!(totals.losing_trades, 1);
    let win_rate = totals.winning_trades as f64 / totals.total_trades as f64;
    assert!((win_rate - 0.666).abs() < 0.01);
    let (avg_profit, avg_loss, profit_factor) = trade_averages(&totals);
    assert!((as_f64(avg_profit) - 75.0).abs() < 0.1); // (100 + 50) / 2
    assert!((as_f64(avg_loss) - 100.0).abs() < 0.1);
    assert!((as_f64(profit_factor) - 1.5).abs() < 0.01); // 150 / 100
    assert_eq!(avg_profit, Dec::from_int(75));
    assert_eq!(profit_factor, Dec::new(15, 1));
}

#[test]
fn averages_are_zero_without_their_trades() {
    let orders = vec![order("AAPL", OrderSide::Buy, 100), order("AAPL", OrderSide::Sell, 110)];
    let totals = trade_totals(&reconstruct_trades(&orders));
    let (avg_profit, avg_loss, profit_factor) = trade_averages(&totals);
    assert_eq!(avg_profit, Dec::from_int(100));
    assert_eq!(avg_loss, Dec::zero());
    assert_eq!(profit_factor, Dec::zero());
}
