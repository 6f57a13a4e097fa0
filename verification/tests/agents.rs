use rustrade::candle_pipeline::CandlePipeline;
use rustrade::context::{AnalystConfig, FeatureSet, Signal, StopState, SymbolContext};
use rustrade::cost_evaluator::{ConstantFeeModel, CostEvaluator};
use rustrade::decimal::Dec;
use rustrade::health::{
    analyst_health, market_data_online_after, resolves_pending, AgentStatusRegistry,
    ConnectionHealthService, ConnectionStatus, HealthStatus,
};
use rustrade::listener::{backoff_ms, listener_health, trigger_action, ListenerAction};
use rustrade::news_handler::NewsSentiment;
use rustrade::sentinel::{heartbeat_action, symbols_unchanged, HeartbeatAction};
use rustrade::signal_generator::SignalGenerator;
use rustrade::signal_processor::{SignalProcessor, SizingEngine};
use rustrade::trade_evaluator::TradeEvaluator;
use rustrade::trade_filter::TradeFilter;
use rustrade::trading::{OrderSide, OrderStatus, OrderType, Portfolio, Position};
use std::sync::Arc;

fn test_config() -> AnalystConfig {
    AnalystConfig {
        rsi_threshold: Dec::from_int(70),
        trailing_stop_atr_multiplier: Dec::from_int(3),
        take_profit_pct: Dec::new(5, 2),
        ensemble_voting_threshold: Dec::new(50, 2),
        risk_appetite_score: None,
        risk_per_trade_percent: Dec::new(1, 2),
        max_positions: 5,
        max_position_size_pct: Dec::new(10, 2),
        trade_quantity: Dec::from_int(1),
        order_cooldown_seconds: 60,
        min_profit_ratio: Dec::from_int(2),
        profit_target_multiplier: Dec::new(15, 1),
    }
}

fn create_test_pipeline() -> CandlePipeline {
    let cost_evaluator = CostEvaluator::new(ConstantFeeModel::new(Dec::zero(), Dec::zero()), Dec::from_int(5));
    let trade_filter = TradeFilter::new(cost_evaluator);
    let processor = SignalProcessor::new(Arc::new(SizingEngine::new()));
    CandlePipeline::new(TradeEvaluator::new(trade_filter, processor))
}

#[test]
fn test_pipeline_creation() {
    let pipeline = create_test_pipeline();
    let _ = pipeline;
}

#[test]
fn test_update_indicators() {
    let pipeline = create_test_pipeline();
    let mut context = SymbolContext::new(test_config());
    pipeline.update_indicators(&mut context, FeatureSet { rsi: Some(Dec::from_int(55)), atr: Some(Dec::from_int(2)), sma_50: None });
    assert!(context.last_features.rsi.is_some());
}

#[test]
fn test_sync_position_state_no_position() {
    let pipeline = create_test_pipeline();
    let mut context = SymbolContext::new(test_config());
    context.taken_profit = true;
    let has_position = pipeline.sync_position_state(&mut context, "BTC/USD", None);
    assert!(!has_position);
    assert!(!context.taken_profit);
}

#[test]
fn sync_with_a_held_position_starts_a_trailing_stop() {
    let pipeline = create_test_pipeline();
    let mut context = SymbolContext::new(test_config());
    context.last_features.atr = Some(Dec::from_int(2));
    let portfolio = Portfolio {
        cash: Dec::zero(),
        positions: vec![Position { symbol: "BTC/USD".to_string(), quantity: Dec::from_int(1), average_price: Dec::from_int(100) }],
    };
    assert!(pipeline.sync_position_state(&mut context, "BTC/USD", Some(&portfolio)));
    assert_eq!(context.position_manager.trailing_stop.get_stop_price(), Some(Dec::from_int(94)));
}

#[test]
fn test_generate_and_filter_signal() {
    let pipeline = create_test_pipeline();
    let mut context = SymbolContext::new(test_config());
    context.last_features.rsi = Some(Dec::from_int(80));
    assert_eq!(pipeline.generate_and_filter_signal(&context, "BTC/USD", Some(Signal::buy("x".to_string()))), None);
    assert_eq!(pipeline.generate_and_filter_signal(&context, "BTC/USD", Some(Signal::sell("x".to_string()))), Some(OrderSide::Sell));
    context.position_manager.trailing_stop = StopState::on_buy(Dec::from_int(100), Dec::from_int(1), Dec::from_int(2));
    assert_eq!(pipeline.generate_and_filter_signal(&context, "BTC/USD", Some(Signal::sell("x".to_string()))), None);
    assert_eq!(pipeline.generate_and_filter_signal(&context, "BTC/USD", None), None);
}

#[test]
fn recording_a_buy_proposal_marks_it_pending_and_starts_the_stop() {
    let pipeline = create_test_pipeline();
    let mut context = SymbolContext::new(test_config());
    context.last_features.atr = Some(Dec::from_int(1));
    pipeline.record_proposal(&mut context, OrderSide::Buy, 60_000, Dec::from_int(50));
    assert_eq!(context.position_manager.pending_order, Some(OrderSide::Buy));
    assert_eq!(context.position_manager.pending_since, 60_000);
    assert_eq!(context.last_entry_time, Some(60_000));
    assert_eq!(context.position_manager.trailing_stop.get_stop_price(), Some(Dec::from_int(47)));
}

#[test]
fn signals_pass_long_only_pending_and_cooldown_checks() {
    let pipeline = create_test_pipeline();
    let evaluator = pipeline.trade_evaluator();
    let mut context = SymbolContext::new(test_config());
    assert_eq!(evaluator.admit_signal(&mut context, OrderSide::Sell, "X", 100_000, false), None);
    assert_eq!(evaluator.admit_signal(&mut context, OrderSide::Buy, "X", 100_000, false), Some(OrderType::Limit));
    assert_eq!(context.position_manager.last_signal_time, 100_000);
    // cooldown of 60 s
    assert_eq!(evaluator.admit_signal(&mut context, OrderSide::Sell, "X", 130_000, true), None);
    assert_eq!(evaluator.admit_signal(&mut context, OrderSide::Sell, "X", 160_000, true), Some(OrderType::Market));
    context.position_manager.set_pending_order(OrderSide::Buy, 0);
    assert_eq!(evaluator.admit_signal(&mut context, OrderSide::Buy, "X", 999_000, true), None);
}

#[test]
fn crossover_signals_after_warm_up_and_alternate() {
    let mut generator = SignalGenerator::new();
    assert_eq!(generator.crossover_signal(false, true), None);
    assert_eq!(generator.last_was_above, Some(false));
    assert_eq!(generator.crossover_signal(false, false), None);
    assert_eq!(generator.crossover_signal(true, false), Some(OrderSide::Buy));
    assert_eq!(generator.crossover_signal(true, false), None);
    assert_eq!(generator.crossover_signal(false, true), Some(OrderSide::Sell));
}

#[test]
fn connection_status_changes_are_reported_once() {
    let mut health = ConnectionHealthService::new();
    assert!(health.set_market_data_status(ConnectionStatus::Online));
    assert!(!health.set_market_data_status(ConnectionStatus::Online));
    assert!(health.set_execution_status(ConnectionStatus::Degraded));
    assert_eq!(health.market_data, ConnectionStatus::Online);
}

#[test]
fn analyst_follows_market_data_health() {
    assert!(market_data_online_after(false, "MarketData", ConnectionStatus::Online));
    assert!(!market_data_online_after(true, "MarketData", ConnectionStatus::Offline));
    assert!(market_data_online_after(true, "MarketData", ConnectionStatus::Degraded));
    assert!(!market_data_online_after(false, "Execution", ConnectionStatus::Online));
    assert_eq!(analyst_health(true), HealthStatus::Healthy);
    assert_eq!(analyst_health(false), HealthStatus::Degraded);
    assert!(resolves_pending(OrderStatus::Filled));
    assert!(resolves_pending(OrderStatus::Rejected));
    assert!(!resolves_pending(OrderStatus::PartiallyFilled));
}

#[test]
fn agent_registry_records_heartbeats() {
    let mut registry = AgentStatusRegistry::new();
    registry.update_heartbeat("Analyst", HealthStatus::Starting, 10);
    registry.update_heartbeat("Executor", HealthStatus::Healthy, 11);
    registry.update_heartbeat("Analyst", HealthStatus::Healthy, 12);
    let status = registry.get_status("Analyst").unwrap();
    assert_eq!(status.health, HealthStatus::Healthy);
    assert_eq!(status.last_heartbeat, 12);
    assert_eq!(registry.get_all().len(), 2);
    assert!(registry.get_status("Listener").is_none());
}

#[test]
fn sentinel_heals_silent_streams_with_a_cooldown() {
    let s = 1_000_000_000u128;
    assert_eq!(heartbeat_action(false, 31 * s, None, ConnectionStatus::Online), HeartbeatAction::ReportSilence { resubscribe: true });
    assert_eq!(heartbeat_action(false, 20 * s, None, ConnectionStatus::Online), HeartbeatAction::ReportSilence { resubscribe: false });
    assert_eq!(heartbeat_action(false, 31 * s, Some(30 * s), ConnectionStatus::Offline), HeartbeatAction::ReportSilence { resubscribe: false });
    assert_eq!(heartbeat_action(true, 0, None, ConnectionStatus::Offline), HeartbeatAction::RestoreOnline);
    assert_eq!(heartbeat_action(true, 0, None, ConnectionStatus::Online), HeartbeatAction::Nothing);
    let a = vec!["BTC/USD".to_string(), "ETH/USD".to_string()];
    assert!(symbols_unchanged(&a, &a.clone()));
    assert!(!symbols_unchanged(&a, &vec!["BTC/USD".to_string()]));
}

#[test]
fn listener_backs_off_exponentially() {
    assert_eq!(backoff_ms(1), 1000);
    assert_eq!(backoff_ms(2), 2000);
    assert_eq!(backoff_ms(5), 16000);
    assert_eq!(backoff_ms(6), 32000);
    assert_eq!(backoff_ms(60), 32000);
    assert_eq!(listener_health(0), HealthStatus::Healthy);
    assert_eq!(listener_health(2), HealthStatus::Degraded);
}

#[test]
fn pending_orders_clear_and_profitability_uses_the_ratio() {
    let mut context = SymbolContext::new(test_config());
    context.position_manager.set_pending_order(OrderSide::Buy, 7);
    context.position_manager.clear_pending();
    assert_eq!(context.position_manager.pending_order, None);
    assert_eq!(context.position_manager.pending_since, 7);
    let cost_evaluator = CostEvaluator::new(ConstantFeeModel::new(Dec::new(5, 3), Dec::new(1, 3)), Dec::from_int(5));
    let filter = TradeFilter::new(cost_evaluator);
    let proposal = rustrade::trading::TradeProposal {
        symbol: "TEST".to_string(),
        side: OrderSide::Buy,
        price: Dec::from_int(100),
        quantity: Dec::from_int(10),
        order_type: OrderType::Limit,
        reason: "t".to_string(),
        timestamp: 0,
        stop_loss: None,
        take_profit: None,
    };
    let costs = filter.evaluate_costs(&proposal);
    assert_eq!(costs.total_cost, Dec::new(130, 2));
    assert!(filter.validate_profitability(&proposal, Dec::new(26, 1), costs.total_cost, Dec::from_int(2), "TEST"));
    assert!(!filter.validate_profitability(&proposal, Dec::new(259, 2), costs.total_cost, Dec::from_int(2), "TEST"));
}

#[test]
fn watch_list_adds_held_symbols_after_the_movers() {
    let movers = vec!["NVDA".to_string(), "TSLA".to_string()];
    let held = vec!["AAPL".to_string(), "TSLA".to_string(), "AAPL".to_string()];
    let list = rustrade::scanner::watch_list(movers, &held);
    assert_eq!(list, vec!["NVDA".to_string(), "TSLA".to_string(), "AAPL".to_string()]);
}

#[test]
fn matched_rules_send_news_signals_with_the_action_sentiment() {
    let signal = trigger_action(
        ListenerAction::NotifyAnalyst(NewsSentiment::Bullish),
        "TEST/USD",
        "Signal",
        "Test",
        &Some("https://example.com".to_string()),
    );
    assert_eq!(signal.symbol, "TEST/USD");
    assert_eq!(signal.sentiment, NewsSentiment::Bullish);
    assert_eq!(signal.headline, "Signal");
    assert_eq!(signal.source, "Test");
    assert_eq!(signal.url, Some("https://example.com".to_string()));
    let legacy = trigger_action(ListenerAction::SellImmediate, "AAPL", "Recall", "Wire", &None);
    assert_eq!(legacy.sentiment, NewsSentiment::Bearish);
    assert_eq!(legacy.url, None);
    assert_eq!(trigger_action(ListenerAction::BuyImmediate, "AAPL", "t", "s", &None).sentiment, NewsSentiment::Bullish);
}

#[test]
fn test_scanner_sends_update() {
    let movers = vec!["AAPL".to_string(), "GOOG".to_string()];
    // held positions; AAPL is also held, to test dedup
    let held = vec!["MSFT".to_string(), "AAPL".to_string()];
    let update = rustrade::scanner::watch_list(movers, &held);
    assert!(update.contains(&"AAPL".to_string()));
    assert!(update.contains(&"GOOG".to_string()));
    assert!(update.contains(&"MSFT".to_string()));
    assert_eq!(update.len(), 3);
}

fn costly_evaluator() -> TradeEvaluator {
    let cost_evaluator = CostEvaluator::new(ConstantFeeModel::new(Dec::new(5, 3), Dec::new(1, 3)), Dec::from_int(5));
    TradeEvaluator::new(TradeFilter::new(cost_evaluator), SignalProcessor::new(Arc::new(SizingEngine::new())))
}

fn buy_proposal() -> rustrade::trading::TradeProposal {
    rustrade::trading::TradeProposal {
        symbol: "AAPL".to_string(),
        side: OrderSide::Buy,
        price: Dec::from_int(100),
        quantity: Dec::from_int(10),
        order_type: OrderType::Market,
        reason: "cross".to_string(),
        timestamp: 1,
        stop_loss: None,
        take_profit: None,
    }
}

#[test]
fn cost_stage_keeps_proposals_whose_profit_covers_costs() {
    let evaluator = costly_evaluator();
    let mut context = SymbolContext::new(test_config());
    // costs are 1.30, so the expected profit must reach 2.60
    // expected value 1 per share: 10 >= 2.6
    let kept = evaluator.check_costs(&context, buy_proposal(), OrderType::Limit, Dec::from_int(1)).unwrap();
    assert_eq!(kept.order_type, OrderType::Limit);
    assert_eq!(kept.quantity, Dec::from_int(10));
    // no expectancy: ATR 0.1 * 1.5 * 10 = 1.5 < 2.6
    context.last_features.atr = Some(Dec::new(1, 1));
    assert!(evaluator.check_costs(&context, buy_proposal(), OrderType::Limit, Dec::zero()).is_none());
    // ATR 1 * 1.5 * 10 = 15 >= 2.6
    context.last_features.atr = Some(Dec::from_int(1));
    assert!(evaluator.check_costs(&context, buy_proposal(), OrderType::Limit, Dec::zero()).is_some());
    // unknown ATR: no expected profit
    context.last_features.atr = None;
    assert!(evaluator.check_costs(&context, buy_proposal(), OrderType::Limit, Dec::zero()).is_none());
}

#[test]
fn metrics_are_set_on_registered_agents_only() {
    let mut registry = AgentStatusRegistry::new();
    registry.update_metric("Analyst", "active_symbols", "3".to_string(), 10);
    assert!(registry.get_status("Analyst").is_none());
    registry.update_heartbeat("Analyst", HealthStatus::Healthy, 100);
    registry.update_metric("Analyst", "active_symbols", "3".to_string(), 200);
    registry.update_metric("Analyst", "queue", "0".to_string(), 250);
    registry.update_metric("Analyst", "active_symbols", "4".to_string(), 300);
    let status = registry.get_status("Analyst").unwrap();
    assert_eq!(status.last_heartbeat, 300);
    assert_eq!(status.metrics.len(), 2);
    assert_eq!(status.metrics[0].key, "active_symbols");
    assert_eq!(status.metrics[0].value, "4");
    assert_eq!(status.metrics[1].key, "queue");
    assert_eq!(status.health, HealthStatus::Healthy);
}
