use rustrade::context::StopState;
use rustrade::cost_evaluator::ConstantFeeModel;
use rustrade::decimal::Dec;
use rustrade::executor::{
    order_fees, protective_stop, reconciled_status, settle_execution, update_portfolio, ActiveTrailingStop,
    StopUpdate, TrailingStopBook,
};
use rustrade::trading::{Order, OrderSide, OrderStatus, OrderType, Portfolio, Position};

fn order(side: OrderSide, price: i64, quantity: i64) -> Order {
    Order {
        id: "1".to_string(),
        symbol: "ABC".to_string(),
        side,
        price: Dec::from_int(price),
        quantity: Dec::from_int(quantity),
        order_type: OrderType::Limit,
        status: OrderStatus::New,
        timestamp: 0,
        stop_loss: None,
        correlation_id: None,
    }
}

#[test]
fn executor_test_buy_updates_portfolio() {
    let mut p = Portfolio { cash: Dec::from_int(1000), positions: Vec::new() };
    let o = order(OrderSide::Buy, 100, 2);
    let fees = order_fees(None, &ConstantFeeModel::new(Dec::zero(), Dec::zero()), &o);
    update_portfolio(&mut p, &o, false, fees);
    assert_eq!(p.cash, Dec::from_int(800));
    assert_eq!(p.positions.len(), 1);
    assert_eq!(p.positions[0].symbol, "ABC");
    assert_eq!(p.positions[0].quantity, Dec::from_int(2));
    assert_eq!(p.positions[0].average_price, Dec::from_int(100));
}

#[test]
fn buys_average_the_price_and_sells_reduce_the_position() {
    let mut p = Portfolio {
        cash: Dec::from_int(1000),
        positions: vec![Position { symbol: "ABC".to_string(), quantity: Dec::from_int(2), average_price: Dec::from_int(100) }],
    };
    update_portfolio(&mut p, &order(OrderSide::Buy, 130, 1), false, Dec::from_int(1));
    assert_eq!(p.cash, Dec::from_int(869));
    assert_eq!(p.positions[0].quantity, Dec::from_int(3));
    assert_eq!(p.positions[0].average_price, Dec::from_int(110));
    update_portfolio(&mut p, &order(OrderSide::Sell, 120, 2), false, Dec::from_int(1));
    assert_eq!(p.cash, Dec::from_int(1108));
    assert_eq!(p.positions[0].quantity, Dec::from_int(1));
    // undo the sell
    update_portfolio(&mut p, &order(OrderSide::Sell, 120, 2), true, Dec::from_int(1));
    assert_eq!(p.cash, Dec::from_int(869));
    assert_eq!(p.positions[0].quantity, Dec::from_int(3));
}

#[test]
fn fees_come_from_the_broker_or_the_model() {
    let o = order(OrderSide::Buy, 100, 10);
    let model = ConstantFeeModel::new(Dec::new(5, 3), Dec::new(1, 3));
    assert_eq!(order_fees(Some(Dec::from_int(2)), &model, &o), Dec::from_int(2));
    // 10 * 0.005 + 1000 * 0.001
    assert_eq!(order_fees(None, &model, &o), Dec::new(105, 2));
}

#[test]
fn reconciliation_confirms_orders_seen_on_the_exchange() {
    let open = vec![order(OrderSide::Buy, 1, 1)];
    let mut other = order(OrderSide::Buy, 1, 1);
    other.id = "2".to_string();
    let today = vec![other];
    assert_eq!(reconciled_status("1", &open, &today), OrderStatus::New);
    assert_eq!(reconciled_status("2", &open, &today), OrderStatus::New);
    assert_eq!(reconciled_status("3", &open, &today), OrderStatus::Rejected);
}

#[test]
fn a_buy_with_stop_loss_gets_a_protective_stop() {
    let mut o = order(OrderSide::Buy, 100, 3);
    o.stop_loss = Some(Dec::from_int(95));
    let (stop, active) = protective_stop(&o, "stop-1".to_string(), 77).unwrap();
    assert_eq!(stop.id, "stop-1");
    assert_eq!(stop.side, OrderSide::Sell);
    assert_eq!(stop.order_type, OrderType::Stop);
    assert_eq!(stop.status, OrderStatus::Pending);
    assert_eq!(stop.price, Dec::from_int(95));
    assert_eq!(stop.quantity, Dec::from_int(3));
    assert_eq!(stop.timestamp, 77);
    assert_eq!(active.trailing_distance, Dec::from_int(5));
    assert_eq!(active.stop_state.get_stop_price(), Some(Dec::from_int(95)));
    assert!(matches!(active.stop_state, StopState::ActiveStop { .. }));
    o.stop_loss = Some(Dec::from_int(100));
    assert!(protective_stop(&o, "x".to_string(), 0).is_none());
    let s = order(OrderSide::Sell, 100, 3);
    assert!(protective_stop(&s, "x".to_string(), 0).is_none());
}

fn active(id: &str) -> ActiveTrailingStop {
    ActiveTrailingStop {
        stop_order_id: id.to_string(),
        stop_state: StopState::NoPosition,
        quantity: Dec::from_int(1),
        trailing_distance: Dec::from_int(2),
        correlation_id: None,
    }
}

#[test]
fn trailing_stop_book_keeps_one_stop_per_symbol() {
    let mut book = TrailingStopBook::new();
    book.insert("AAPL", active("s1"));
    book.insert("MSFT", active("s2"));
    // a new stop for AAPL replaces the earlier one
    book.insert("AAPL", active("s3"));
    assert_eq!(book.remove_for_exit("AAPL"), Some("s3".to_string()));
    assert_eq!(book.remove_for_exit("AAPL"), None);
    assert_eq!(book.remove_for_exit("MSFT"), Some("s2".to_string()));
    assert_eq!(book.remove_for_exit("TSLA"), None);
}

#[test]
fn executor_test_failed_execution_does_not_update_portfolio() {
    let mut p = Portfolio { cash: Dec::from_int(1000), positions: Vec::new() };
    let o = order(OrderSide::Buy, 100, 2);
    let fees = order_fees(None, &ConstantFeeModel::new(Dec::zero(), Dec::zero()), &o);
    let status = settle_execution(&mut p, &o, false, fees);
    assert_eq!(status, OrderStatus::Rejected);
    assert_eq!(p.cash, Dec::from_int(1000)); // Unchanged
    assert!(p.positions.is_empty());
    let status = settle_execution(&mut p, &o, true, fees);
    assert_eq!(status, OrderStatus::New);
    assert_eq!(p.cash, Dec::from_int(800));
}

#[test]
fn test_executor_trailing_stop_loss() {
    // a buy at 100 with a stop loss at 90 places a sell stop at 90
    let mut buy = order(OrderSide::Buy, 100, 2);
    buy.id = "buy_order_1".to_string();
    buy.stop_loss = Some(Dec::from_int(90));
    let (stop, active) = protective_stop(&buy, "stop_1".to_string(), 0).unwrap();
    assert_eq!(stop.order_type, OrderType::Stop);
    assert_eq!(stop.price, Dec::from_int(90));
    assert_eq!(stop.side, OrderSide::Sell);
    let mut book = TrailingStopBook::new();
    book.insert("ABC", active);

    // a close at 110 raises the stop to 100: the old stop order is cancelled
    match book.on_candle("ABC", Dec::from_int(110), "stop_2".to_string(), 7) {
        StopUpdate::Moved { cancel_id, order } => {
            assert_eq!(cancel_id, "stop_1");
            assert_eq!(order.order_type, OrderType::Stop);
            assert_eq!(order.price, Dec::from_int(100)); // 110 - 10 trailing distance
            assert_eq!(order.side, OrderSide::Sell);
            assert_eq!(order.quantity, Dec::from_int(2));
            assert_eq!(order.id, "stop_2");
            assert_eq!(order.status, OrderStatus::Pending);
            assert_eq!(order.timestamp, 7);
        }
        other => panic!("expected a moved stop, got {:?}", other),
    }
    // a lower close does not lower the stop
    assert!(matches!(book.on_candle("ABC", Dec::from_int(105), "stop_3".to_string(), 8), StopUpdate::Unchanged));
    // other symbols are untouched
    assert!(matches!(book.on_candle("XYZ", Dec::from_int(1), "stop_4".to_string(), 9), StopUpdate::Unchanged));
    // a close at the stop triggers it and the entry leaves the book
    assert!(matches!(book.on_candle("ABC", Dec::from_int(100), "stop_5".to_string(), 10), StopUpdate::Triggered));
    assert_eq!(book.remove_for_exit("ABC"), None);
}

#[test]
fn trailing_stop_follows_the_price_and_never_falls() {
    let mut s = StopState::on_buy(Dec::from_int(100), Dec::from_int(10), Dec::from_int(1));
    assert_eq!(s.get_stop_price(), Some(Dec::from_int(90)));
    assert!(s.on_price_update(Dec::from_int(120), Dec::from_int(10), Dec::from_int(1)).is_none());
    assert_eq!(s.get_stop_price(), Some(Dec::from_int(110)));
    assert!(s.on_price_update(Dec::from_int(115), Dec::from_int(10), Dec::from_int(1)).is_none());
    assert_eq!(s.get_stop_price(), Some(Dec::from_int(110)));
    let t = s.on_price_update(Dec::from_int(109), Dec::from_int(10), Dec::from_int(1)).unwrap();
    assert_eq!(t.exit, Dec::from_int(109));
    assert_eq!(t.stop, Dec::from_int(110));
    assert_eq!(t.entry, Dec::from_int(100));
}
