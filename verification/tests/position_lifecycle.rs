use rustrade::context::{AnalystConfig, StopState, SymbolContext};
use rustrade::decimal::Dec;
use rustrade::position_lifecycle::{
    initialize_trailing_stop_if_needed, initialize_trailing_stop_on_buy, orphaned_order_ids,
    sync_position_state,
};
use rustrade::trading::{Order, OrderSide, OrderStatus, OrderType};

fn test_config() -> AnalystConfig {
    AnalystConfig {
        rsi_threshold: Dec::from_int(70),
        trailing_stop_atr_multiplier: Dec::from_int(3),
        take_profit_pct: Dec::new(5, 2),
        ensemble_voting_threshold: Dec::new(50, 2),
        risk_appetite_score: None,
        risk_per_trade_percent: Dec::new(1, 2),
        max_positions: 5,
        max_position_size_pct: Dec::new(10, 2),
        trade_quantity: Dec::from_int(1),
        order_cooldown_seconds: 60,
        min_profit_ratio: Dec::from_int(2),
        profit_target_multiplier: Dec::new(15, 1),
    }
}

fn create_test_context() -> SymbolContext {
    SymbolContext::new(test_config())
}

#[test]
fn test_sync_position_state_resets_taken_profit() {
    let mut context = create_test_context();
    context.taken_profit = true;
    sync_position_state(&mut context, "TEST", false);
    assert!(!context.taken_profit);
}

#[test]
fn test_sync_position_state_preserves_taken_profit_with_position() {
    let mut context = create_test_context();
    context.taken_profit = true;
    sync_position_state(&mut context, "TEST", true);
    assert!(context.taken_profit);
}

#[test]
fn test_initialize_trailing_stop_skips_if_active() {
    let mut context = create_test_context();
    context.position_manager.trailing_stop =
        StopState::on_buy(Dec::from_int(100), Dec::from_int(2), Dec::from_int(3));
    let stop_before = context.position_manager.trailing_stop.get_stop_price();
    initialize_trailing_stop_if_needed(&mut context, "TEST", Dec::from_int(200), Some(Dec::new(50, 1)));
    assert_eq!(context.position_manager.trailing_stop.get_stop_price(), stop_before);
}

#[test]
fn trailing_stop_defaults_to_an_atr_of_one() {
    let mut context = create_test_context();
    initialize_trailing_stop_if_needed(&mut context, "TEST", Dec::from_int(200), None);
    // 200 - 1.0 * 3
    assert_eq!(context.position_manager.trailing_stop.get_stop_price(), Some(Dec::from_int(197)));
}

#[test]
fn stop_on_buy_needs_a_positive_atr() {
    let mut context = create_test_context();
    initialize_trailing_stop_on_buy(&mut context, Dec::from_int(50));
    assert!(!context.position_manager.trailing_stop.is_active());
    context.last_features.atr = Some(Dec::from_int(2));
    initialize_trailing_stop_on_buy(&mut context, Dec::from_int(50));
    assert_eq!(context.position_manager.trailing_stop.get_stop_price(), Some(Dec::from_int(44)));
}

#[test]
fn pending_sell_confirmed_clears_stop() {
    let mut context = create_test_context();
    context.position_manager.trailing_stop =
        StopState::on_buy(Dec::from_int(100), Dec::from_int(2), Dec::from_int(3));
    context.position_manager.set_pending_order(OrderSide::Sell, 5);
    sync_position_state(&mut context, "TEST", true);
    assert_eq!(context.position_manager.pending_order, Some(OrderSide::Sell));
    sync_position_state(&mut context, "TEST", false);
    assert_eq!(context.position_manager.pending_order, None);
    assert!(!context.position_manager.trailing_stop.is_active());
}

fn order(id: &str, symbol: &str) -> Order {
    Order {
        id: id.to_string(),
        symbol: symbol.to_string(),
        side: OrderSide::Buy,
        price: Dec::from_int(1),
        quantity: Dec::from_int(1),
        order_type: OrderType::Limit,
        status: OrderStatus::New,
        timestamp: 0,
        stop_loss: None,
        correlation_id: None,
    }
}

#[test]
fn orphaned_orders_are_those_of_the_symbol() {
    let orders = vec![order("a", "AAPL"), order("b", "MSFT"), order("c", "AAPL")];
    assert_eq!(orphaned_order_ids(&orders, "AAPL"), vec!["a".to_string(), "c".to_string()]);
    assert!(orphaned_order_ids(&orders, "TSLA").is_empty());
}
