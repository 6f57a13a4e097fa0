use rustrade::context::{AnalystConfig, Signal, StopState, SymbolContext};
use rustrade::decimal::Dec;
use rustrade::signal_processor::{SignalProcessor, SizingConfig, SizingEngine};
use rustrade::trading::{OrderSide, OrderType, Portfolio, Position};
use std::sync::Arc;

fn test_config() -> AnalystConfig {
    AnalystConfig {
        rsi_threshold: Dec::from_int(70),
        trailing_stop_atr_multiplier: Dec::from_int(3),
        take_profit_pct: Dec::new(5, 2),
        ensemble_voting_threshold: Dec::new(50, 2),
        risk_appetite_score: None,
        risk_per_trade_percent: Dec::new(1, 2),
        max_positions: 5,
        max_position_size_pct: Dec::new(10, 2),
        trade_quantity: Dec::from_int(1),
        order_cooldown_seconds: 60,
        min_profit_ratio: Dec::from_int(2),
        profit_target_multiplier: Dec::new(15, 1),
    }
}

fn create_test_context() -> SymbolContext {
    SymbolContext::new(test_config())
}

#[test]
fn test_signal_processor_creation() {
    let sizing_engine = Arc::new(SizingEngine::new());
    let processor = SignalProcessor::new(sizing_engine);
    let _ = processor;
}

#[test]
fn test_rsi_filter_blocks_overbought() {
    let mut context = create_test_context();
    context.last_features.rsi = Some(Dec::new(750, 1));
    context.config.rsi_threshold = Dec::new(700, 1);
    let signal = Some(Signal::buy("Test".to_string()));
    let filtered = SignalProcessor::apply_rsi_filter(signal, &context, "BTC/USD");
    assert!(filtered.is_none());
}

#[test]
fn test_rsi_filter_allows_normal() {
    let mut context = create_test_context();
    context.last_features.rsi = Some(Dec::new(500, 1));
    context.config.rsi_threshold = Dec::new(700, 1);
    let signal = Some(Signal::buy("Test".to_string()));
    let filtered = SignalProcessor::apply_rsi_filter(signal, &context, "BTC/USD");
    assert_eq!(filtered.map(|s| s.side), Some(OrderSide::Buy));
}

#[test]
fn test_rsi_filter_ignores_sell() {
    let mut context = create_test_context();
    context.last_features.rsi = Some(Dec::new(750, 1));
    context.config.rsi_threshold = Dec::new(700, 1);
    let signal = Some(Signal::sell("Test".to_string()));
    let filtered = SignalProcessor::apply_rsi_filter(signal, &context, "BTC/USD");
    assert_eq!(filtered.map(|s| s.side), Some(OrderSide::Sell));
}

#[test]
fn test_trailing_stop_suppression() {
    let mut context = create_test_context();
    context.position_manager.trailing_stop =
        StopState::on_buy(Dec::from_int(50000), Dec::from_int(100), Dec::from_int(2));
    let signal = Some(Signal::sell("Test".to_string()));
    let filtered =
        SignalProcessor::suppress_sell_if_trailing_stop(signal, &context, "BTC/USD", false);
    assert!(filtered.is_none());
}

#[test]
fn test_trailing_stop_allows_when_triggered() {
    let mut context = create_test_context();
    context.position_manager.trailing_stop =
        StopState::on_buy(Dec::from_int(50000), Dec::from_int(100), Dec::from_int(2));
    let signal = Some(Signal::sell("Test".to_string()));
    let filtered =
        SignalProcessor::suppress_sell_if_trailing_stop(signal, &context, "BTC/USD", true);
    assert_eq!(filtered.map(|s| s.side), Some(OrderSide::Sell));
}

#[test]
fn on_buy_places_the_stop_atr_times_multiplier_below_entry() {
    let stop = StopState::on_buy(Dec::from_int(50000), Dec::from_int(100), Dec::from_int(2));
    assert_eq!(stop.get_stop_price(), Some(Dec::from_int(49800)));
    assert!(stop.is_active());
}

fn position(symbol: &str, quantity: Dec, average_price: Dec) -> Position {
    Position { symbol: symbol.to_string(), quantity, average_price }
}

#[test]
fn partial_take_profit_sells_half_above_the_target() {
    let context = create_test_context();
    let positions = vec![position("AAPL", Dec::from_int(3), Dec::from_int(100))];
    let proposal = SignalProcessor::check_partial_take_profit(
        &context,
        "AAPL",
        Dec::from_int(110),
        42,
        Some(&positions),
    )
    .unwrap();
    assert_eq!(proposal.side, OrderSide::Sell);
    assert_eq!(proposal.order_type, OrderType::Market);
    assert_eq!(proposal.quantity, Dec::new(15, 1));
    assert_eq!(proposal.price, Dec::from_int(110));
    assert_eq!(proposal.timestamp, 42);
    assert!(proposal.reason.starts_with("Partial Take-Profit (+10.0"));
    assert!(proposal.reason.ends_with("%)"));
}

#[test]
fn partial_take_profit_waits_below_target_and_after_taking() {
    let mut context = create_test_context();
    let positions = vec![position("AAPL", Dec::from_int(3), Dec::from_int(100))];
    assert!(SignalProcessor::check_partial_take_profit(
        &context,
        "AAPL",
        Dec::from_int(104),
        0,
        Some(&positions)
    )
    .is_none());
    assert!(SignalProcessor::check_partial_take_profit(&context, "MSFT", Dec::from_int(200), 0, Some(&positions)).is_none());
    assert!(SignalProcessor::check_partial_take_profit(&context, "AAPL", Dec::from_int(200), 0, None).is_none());
    context.taken_profit = true;
    assert!(SignalProcessor::check_partial_take_profit(
        &context,
        "AAPL",
        Dec::from_int(200),
        0,
        Some(&positions)
    )
    .is_none());
}

fn sizing(risk: Dec, max_positions: u64, cap: Dec) -> SizingConfig {
    SizingConfig {
        risk_per_trade_percent: risk,
        max_positions,
        max_position_size_pct: cap,
        static_trade_quantity: Dec::from_int(7),
    }
}

#[test]
fn sizing_allocates_risk_share_capped_by_bucket_and_position_limit() {
    let engine = SizingEngine::new();
    // 10% of 100000 = 10000, at 50 per share = 200 shares
    let q = engine.calculate_quantity(&sizing(Dec::new(10, 2), 0, Dec::zero()), Some(Dec::from_int(100000)), Dec::from_int(50));
    assert_eq!(q, Dec::from_int(200));
    // bucket cap: 100000 / 20 = 5000 -> 100 shares
    let q = engine.calculate_quantity(&sizing(Dec::new(10, 2), 20, Dec::zero()), Some(Dec::from_int(100000)), Dec::from_int(50));
    assert_eq!(q, Dec::from_int(100));
    // position cap 2% -> 2000 -> 40 shares
    let q = engine.calculate_quantity(&sizing(Dec::new(10, 2), 20, Dec::new(2, 2)), Some(Dec::from_int(100000)), Dec::from_int(50));
    assert_eq!(q, Dec::from_int(40));
    // rounding to 4 places: 1000 / 3 = 333.3333
    let q = engine.calculate_quantity(&sizing(Dec::new(1, 2), 0, Dec::zero()), Some(Dec::from_int(100000)), Dec::from_int(3));
    assert_eq!(q, Dec::new(3333333, 4));
}

#[test]
fn sizing_falls_back_to_static_quantity() {
    let engine = SizingEngine::new();
    assert_eq!(engine.calculate_quantity(&sizing(Dec::zero(), 5, Dec::zero()), Some(Dec::from_int(1000)), Dec::from_int(10)), Dec::from_int(7));
    assert_eq!(engine.calculate_quantity(&sizing(Dec::new(1, 1), 5, Dec::zero()), None, Dec::from_int(10)), Dec::from_int(7));
    assert_eq!(engine.calculate_quantity(&sizing(Dec::new(1, 1), 5, Dec::zero()), Some(Dec::zero()), Dec::from_int(10)), Dec::from_int(7));
}

fn signal(side: OrderSide) -> Signal {
    Signal {
        side,
        reason: "cross".to_string(),
        suggested_stop_loss: Some(Dec::from_int(90)),
        suggested_take_profit: None,
    }
}

#[test]
fn buy_quantity_sizes_by_total_equity_at_current_price() {
    let processor = SignalProcessor::new(Arc::new(SizingEngine::new()));
    let portfolio = Portfolio {
        cash: Dec::from_int(90000),
        positions: vec![position("AAPL", Dec::from_int(50), Dec::from_int(100))],
    };
    // equity = 90000 + 50 * 200 = 100000; 1% = 1000, bucket 20000, cap 10000 -> 5 shares at 200
    let q = processor.calculate_trade_quantity(&test_config(), Some(&portfolio), "AAPL", Dec::from_int(200));
    assert_eq!(q, Dec::from_int(5));
    // without a readable portfolio nothing is bought
    assert_eq!(processor.calculate_trade_quantity(&test_config(), None, "AAPL", Dec::from_int(200)), Dec::zero());
}

#[test]
fn build_proposal_buys_sized_quantity_at_market() {
    let processor = SignalProcessor::new(Arc::new(SizingEngine::new()));
    let portfolio = Portfolio { cash: Dec::from_int(100000), positions: vec![] };
    let p = processor
        .build_proposal(&test_config(), Some(&portfolio), "MSFT".to_string(), signal(OrderSide::Buy), Dec::from_int(100), 42)
        .unwrap();
    assert_eq!(p.symbol, "MSFT");
    assert_eq!(p.side, OrderSide::Buy);
    assert_eq!(p.quantity, Dec::from_int(10));
    assert_eq!(p.order_type, OrderType::Market);
    assert_eq!(p.reason, "cross");
    assert_eq!(p.timestamp, 42);
    assert_eq!(p.stop_loss, Some(Dec::from_int(90)));
    assert_eq!(p.take_profit, None);
    assert!(processor
        .build_proposal(&test_config(), None, "MSFT".to_string(), signal(OrderSide::Buy), Dec::from_int(100), 42)
        .is_none());
}

#[test]
fn build_proposal_sells_the_held_quantity() {
    let processor = SignalProcessor::new(Arc::new(SizingEngine::new()));
    let portfolio = Portfolio {
        cash: Dec::zero(),
        positions: vec![position("AAPL", Dec::new(25, 1), Dec::from_int(100))],
    };
    let p = processor
        .build_proposal(&test_config(), Some(&portfolio), "AAPL".to_string(), signal(OrderSide::Sell), Dec::from_int(120), 7)
        .unwrap();
    assert_eq!(p.side, OrderSide::Sell);
    assert_eq!(p.quantity, Dec::new(25, 1));
    assert!(processor
        .build_proposal(&test_config(), Some(&portfolio), "MSFT".to_string(), signal(OrderSide::Sell), Dec::from_int(120), 7)
        .is_none());
    let empty = Portfolio {
        cash: Dec::zero(),
        positions: vec![position("AAPL", Dec::zero(), Dec::from_int(100))],
    };
    assert!(processor
        .build_proposal(&test_config(), Some(&empty), "AAPL".to_string(), signal(OrderSide::Sell), Dec::from_int(120), 7)
        .is_none());
}
