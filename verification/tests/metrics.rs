use rustrade::decimal::Dec;
use rustrade::metrics::{
    calculate_total_value, calculate_trade_statistics, calculate_win_rate, find_mark_price,
    equity_curve, snapshot_drawdown, TrendDirection,
};
use rustrade::trading::{OrderSide, Portfolio, Position, Trade};

fn position(symbol: &str, quantity: i64, average: i64) -> Position {
    Position {
        symbol: symbol.to_string(),
        quantity: Dec::from_int(quantity),
        average_price: Dec::from_int(average),
    }
}

fn trade(side: OrderSide, entry: i64, exit: Option<i64>) -> Trade {
    Trade {
        id: "t".to_string(),
        symbol: "AAPL".to_string(),
        side,
        entry_price: Dec::from_int(entry),
        exit_price: exit.map(Dec::from_int),
        quantity: Dec::from_int(1),
        pnl: Dec::zero(),
        entry_timestamp: 0,
        exit_timestamp: None,
    }
}

#[test]
fn total_value_uses_listed_prices_then_average_prices() {
    let portfolio = Portfolio {
        cash: Dec::from_int(1000),
        positions: vec![position("AAPL", 10, 100), position("MSFT", 2, 300)],
    };
    let prices = vec![("AAPL".to_string(), Dec::from_int(110))];
    // 1000 + 10 * 110 + 2 * 300
    assert_eq!(calculate_total_value(&portfolio, &prices), Dec::from_int(2700));
    // without listed prices every position counts at its average price
    assert_eq!(calculate_total_value(&portfolio, &vec![]), Dec::from_int(2600));
}

#[test]
fn total_value_of_cash_only_portfolio_is_its_cash() {
    let portfolio = Portfolio { cash: Dec::new(12345, 2), positions: vec![] };
    assert_eq!(calculate_total_value(&portfolio, &vec![]), Dec::new(12345, 2));
}

#[test]
fn mark_price_takes_first_listed_price() {
    let prices = vec![
        ("AAPL".to_string(), Dec::from_int(1)),
        ("AAPL".to_string(), Dec::from_int(2)),
    ];
    assert_eq!(find_mark_price(&prices, "AAPL", Dec::from_int(9)), Dec::from_int(1));
    assert_eq!(find_mark_price(&prices, "MSFT", Dec::from_int(9)), Dec::from_int(9));
}

#[test]
fn win_rate_is_percentage_of_winning_trades() {
    assert_eq!(calculate_win_rate(0, 0), Dec::zero());
    assert_eq!(calculate_win_rate(3, 4), Dec::from_int(75));
    assert_eq!(calculate_win_rate(1, 3).round_dp(2), Dec::new(3333, 2));
}

#[test]
fn trade_statistics_average_wins_and_losses() {
    let trades = vec![
        trade(OrderSide::Buy, 100, Some(110)),  // +10%
        trade(OrderSide::Buy, 100, Some(130)),  // +30%
        trade(OrderSide::Buy, 100, Some(95)),   // -5%
        trade(OrderSide::Sell, 100, Some(90)),  // short: +10%
        trade(OrderSide::Buy, 100, None),       // open: ignored
        trade(OrderSide::Buy, 0, Some(10)),     // zero entry: ignored
    ];
    let (avg_win, avg_loss) = calculate_trade_statistics(&trades);
    // (0.1 + 0.3 + 0.1) / 3 and 0.05 / 1
    assert_eq!(avg_win.round_dp(4), Dec::new(1667, 4));
    assert_eq!(avg_loss, Dec::new(5, 2));
}

#[test]
fn trade_statistics_default_without_history() {
    let (avg_win, avg_loss) = calculate_trade_statistics(&vec![]);
    assert_eq!(avg_win, Dec::new(2, 2));
    assert_eq!(avg_loss, Dec::new(15, 3));
}

#[test]
fn trade_statistics_default_loss_when_only_wins() {
    let trades = vec![trade(OrderSide::Buy, 100, Some(120))];
    let (avg_win, avg_loss) = calculate_trade_statistics(&trades);
    assert_eq!(avg_win, Dec::new(2, 1));
    assert_eq!(avg_loss, Dec::new(15, 3));
}

#[test]
fn trend_direction_emoji() {
    assert_eq!(TrendDirection::Bullish.emoji(), "📈");
    assert_eq!(TrendDirection::Bearish.emoji(), "📉");
    assert_eq!(TrendDirection::Sideways.emoji(), "→");
}

#[test]
fn drawdown_is_measured_from_the_peak() {
    // peak 120: (120 - 90) / 120
    assert_eq!(snapshot_drawdown(Dec::from_int(90), Dec::from_int(100), Dec::from_int(120)), Dec::new(25, 2));
    // the starting cash is the peak when no higher equity was recorded
    assert_eq!(snapshot_drawdown(Dec::from_int(90), Dec::from_int(100), Dec::from_int(80)), Dec::new(1, 1));
    // an equity above the peak gives a negative drawdown
    assert_eq!(snapshot_drawdown(Dec::from_int(110), Dec::from_int(100), Dec::zero()), Dec::new(-1, 1));
    // at the peak there is no drawdown
    assert_eq!(snapshot_drawdown(Dec::from_int(120), Dec::from_int(100), Dec::from_int(120)), Dec::zero());
    // no starting cash: no drawdown
    assert_eq!(snapshot_drawdown(Dec::from_int(90), Dec::zero(), Dec::from_int(120)), Dec::zero());
}

fn closed(pnl: i64, exit: Option<i64>) -> Trade {
    Trade {
        id: "t".to_string(),
        symbol: "AAPL".to_string(),
        side: OrderSide::Buy,
        entry_price: Dec::from_int(100),
        exit_price: None,
        quantity: Dec::from_int(1),
        pnl: Dec::from_int(pnl),
        entry_timestamp: 0,
        exit_timestamp: exit,
    }
}

#[test]
fn equity_curve_accumulates_profits_at_exit_times() {
    let trades = vec![closed(100, Some(5)), closed(-50, None), closed(20, Some(9))];
    let (initial, points, current) = equity_curve(Dec::zero(), &trades);
    assert_eq!(initial, Dec::from_int(10000));
    assert_eq!(points, vec![(5, Dec::from_int(10100)), (9, Dec::from_int(10070))]);
    assert_eq!(current, Dec::from_int(10070));
    let (initial, points, current) = equity_curve(Dec::from_int(500), &vec![]);
    assert_eq!(initial, Dec::from_int(500));
    assert!(points.is_empty());
    assert_eq!(current, Dec::from_int(500));
}
