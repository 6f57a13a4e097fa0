use rustrade::analyst::{analyst_step, PendingAction};
use rustrade::candle_pipeline::CandlePipeline;
use rustrade::context::{
    AnalystConfig, FeatureSet, MarketRegime, MarketRegimeType, RiskProfiles, RiskSettings, Signal, StopState,
    SymbolContext,
};
use rustrade::cost_evaluator::{ConstantFeeModel, CostEvaluator};
use rustrade::decimal::Dec;
use rustrade::market::Candle;
use rustrade::signal_processor::{SignalProcessor, SizingEngine};
use rustrade::trade_evaluator::TradeEvaluator;
use rustrade::trade_filter::TradeFilter;
use rustrade::trading::{OrderSide, OrderType, Portfolio, Position};
use std::sync::Arc;

fn base_config() -> AnalystConfig {
    AnalystConfig {
        rsi_threshold: Dec::from_int(70),
        trailing_stop_atr_multiplier: Dec::from_int(3),
        take_profit_pct: Dec::new(5, 2),
        ensemble_voting_threshold: Dec::new(50, 2),
        risk_appetite_score: None,
        risk_per_trade_percent: Dec::zero(),
        max_positions: 5,
        max_position_size_pct: Dec::zero(),
        trade_quantity: Dec::from_int(1),
        order_cooldown_seconds: 60,
        min_profit_ratio: Dec::from_int(2),
        profit_target_multiplier: Dec::new(15, 1),
    }
}

fn pipeline() -> CandlePipeline {
    let costs = CostEvaluator::new(ConstantFeeModel::new(Dec::zero(), Dec::zero()), Dec::from_int(5));
    CandlePipeline::new(TradeEvaluator::new(TradeFilter::new(costs), SignalProcessor::new(Arc::new(SizingEngine::new()))))
}

fn profiles() -> RiskProfiles {
    let settings = RiskSettings {
        risk_per_trade_percent: Dec::zero(),
        trailing_stop_atr_multiplier: Dec::from_int(3),
        rsi_threshold: Dec::from_int(70),
        max_position_size_pct: Dec::zero(),
        min_profit_ratio: Dec::from_int(2),
        profit_target_multiplier: Dec::new(15, 1),
        take_profit_pct: Dec::new(5, 2),
    };
    RiskProfiles::new(vec![settings; 9]).unwrap()
}

fn candle(close: i64, timestamp: i64) -> Candle {
    Candle {
        symbol: "ABC".to_string(),
        open: Dec::from_int(close),
        high: Dec::from_int(close),
        low: Dec::from_int(close),
        close: Dec::from_int(close),
        volume: Dec::from_int(100),
        timestamp,
    }
}

fn features() -> FeatureSet {
    FeatureSet { rsi: Some(Dec::from_int(50)), atr: Some(Dec::from_int(2)), sma_50: None }
}

fn ranging() -> MarketRegime {
    MarketRegime::new(MarketRegimeType::Ranging, Dec::zero(), Dec::zero(), Dec::zero())
}

fn cash(amount: i64) -> Portfolio {
    Portfolio { cash: Dec::from_int(amount), positions: Vec::new() }
}

#[test]
fn nothing_happens_while_market_data_is_offline() {
    let mut context = SymbolContext::new(base_config());
    let portfolio = cash(10_000);
    let (proposal, action) = analyst_step(
        &pipeline(),
        &mut context,
        base_config(),
        &profiles(),
        &ranging(),
        &candle(100, 600_000),
        features(),
        Some(&portfolio),
        Some(Signal::buy("cross".to_string())),
        "Strategy: Standard (Regime: Ranging)".to_string(),
        Dec::from_int(50),
        false,
    );
    assert!(proposal.is_none());
    assert_eq!(action, PendingAction::Keep);
    assert!(context.last_features.rsi.is_none());
    assert!(context.position_manager.pending_order.is_none());
}

#[test]
fn a_buy_signal_becomes_a_pending_limit_order_with_a_trailing_stop() {
    let p = pipeline();
    let mut context = SymbolContext::new(base_config());
    let portfolio = cash(10_000);
    let reason = "Strategy: Standard (Regime: Ranging)".to_string();
    let (proposal, action) = analyst_step(
        &p,
        &mut context,
        base_config(),
        &profiles(),
        &ranging(),
        &candle(100, 600_000),
        features(),
        Some(&portfolio),
        Some(Signal::buy("cross".to_string())),
        reason.clone(),
        Dec::from_int(50),
        true,
    );
    let proposal = proposal.unwrap();
    assert_eq!(proposal.symbol, "ABC");
    assert_eq!(proposal.side, OrderSide::Buy);
    assert_eq!(proposal.price, Dec::from_int(100));
    assert_eq!(proposal.quantity, Dec::from_int(1));
    assert_eq!(proposal.order_type, OrderType::Limit);
    assert_eq!(proposal.reason, reason);
    assert_eq!(proposal.timestamp, 600_000);
    assert_eq!(action, PendingAction::Keep);
    assert_eq!(context.position_manager.pending_order, Some(OrderSide::Buy));
    assert_eq!(context.position_manager.last_signal_time, 600_000);
    assert_eq!(context.last_entry_time, Some(600_000));
    assert_eq!(context.position_manager.trailing_stop.get_stop_price(), Some(Dec::from_int(94)));

    // the same signal ten seconds later: an order is pending, nothing is proposed
    let (again, action) = analyst_step(
        &p,
        &mut context,
        base_config(),
        &profiles(),
        &ranging(),
        &candle(101, 610_000),
        features(),
        Some(&portfolio),
        Some(Signal::buy("cross".to_string())),
        reason.clone(),
        Dec::from_int(50),
        true,
    );
    assert!(again.is_none());
    assert_eq!(action, PendingAction::Keep);

    // a minute and more later the pending order has timed out
    let (none, action) = analyst_step(
        &p,
        &mut context,
        base_config(),
        &profiles(),
        &ranging(),
        &candle(101, 661_000),
        features(),
        Some(&portfolio),
        None,
        reason,
        Dec::from_int(50),
        true,
    );
    assert!(none.is_none());
    assert_eq!(action, PendingAction::CheckOpenOrders);
}

#[test]
fn a_close_below_the_trailing_stop_sells_the_whole_position() {
    let mut context = SymbolContext::new(base_config());
    context.position_manager.trailing_stop = StopState::on_buy(Dec::from_int(100), Dec::from_int(2), Dec::from_int(3));
    let portfolio = Portfolio {
        cash: Dec::from_int(1_000),
        positions: vec![Position { symbol: "ABC".to_string(), quantity: Dec::from_int(2), average_price: Dec::from_int(100) }],
    };
    let (proposal, _) = analyst_step(
        &pipeline(),
        &mut context,
        base_config(),
        &profiles(),
        &ranging(),
        &candle(90, 600_000),
        features(),
        Some(&portfolio),
        None,
        "stop".to_string(),
        Dec::zero(),
        true,
    );
    let proposal = proposal.unwrap();
    assert_eq!(proposal.side, OrderSide::Sell);
    assert_eq!(proposal.quantity, Dec::from_int(2));
    assert_eq!(proposal.order_type, OrderType::Market);
    assert!(proposal.stop_loss.is_none());
    assert_eq!(context.position_manager.pending_order, Some(OrderSide::Sell));
}

#[test]
fn a_sell_signal_without_a_position_is_dropped() {
    let mut context = SymbolContext::new(base_config());
    let portfolio = cash(10_000);
    let (proposal, _) = analyst_step(
        &pipeline(),
        &mut context,
        base_config(),
        &profiles(),
        &ranging(),
        &candle(100, 600_000),
        features(),
        Some(&portfolio),
        Some(Signal::sell("cross".to_string())),
        "x".to_string(),
        Dec::from_int(50),
        true,
    );
    assert!(proposal.is_none());
    assert_eq!(context.position_manager.last_signal_time, 0);
}
