use rustrade::context::{AnalystConfig, StopState, SymbolContext};
use rustrade::decimal::Dec;
use rustrade::news_handler::{
    handle_news_signal, process_bearish_news, NewsAction, NewsHandler, NewsSentiment, NewsSignal,
};
use rustrade::signal_processor::{SignalProcessor, SizingEngine};
use rustrade::trading::{OrderType, Portfolio, Position};
use std::sync::Arc;
use rustrade::trading::OrderSide;

fn test_config() -> AnalystConfig {
    AnalystConfig {
        rsi_threshold: Dec::from_int(70),
        trailing_stop_atr_multiplier: Dec::from_int(3),
        take_profit_pct: Dec::new(5, 2),
        ensemble_voting_threshold: Dec::new(50, 2),
        risk_appetite_score: None,
        risk_per_trade_percent: Dec::new(1, 2),
        max_positions: 5,
        max_position_size_pct: Dec::new(10, 2),
        trade_quantity: Dec::from_int(1),
        order_cooldown_seconds: 60,
        min_profit_ratio: Dec::from_int(2),
        profit_target_multiplier: Dec::new(15, 1),
    }
}

fn create_test_context() -> SymbolContext {
    SymbolContext::new(test_config())
}

fn bearish() -> NewsSignal {
    NewsSignal {
        symbol: "TEST".to_string(),
        headline: "Test bearish news".to_string(),
        sentiment: NewsSentiment::Bearish,
        source: "test".to_string(),
        url: None,
    }
}

#[test]
fn test_bearish_news_action_profitable() {
    let mut context = create_test_context();
    context.last_features.atr = Some(Dec::from_int(1));
    context.position_manager.trailing_stop =
        StopState::on_buy(Dec::from_int(95), Dec::from_int(1), Dec::from_int(3));
    let action = process_bearish_news(
        &bearish(),
        &mut context,
        (Dec::from_int(10), Dec::from_int(100)),
        Dec::from_int(110),
        1000,
    );
    match action {
        NewsAction::TightenStop => (),
        _ => panic!("Expected TightenStop action for profitable position"),
    }
    // gap = max(110 * 0.005, 1 * 0.5) = 0.55; the stop rises from 92 to 109.45
    assert_eq!(context.position_manager.trailing_stop.get_stop_price(), Some(Dec::new(10945, 2)));
}

#[test]
fn test_bearish_news_action_losing() {
    let mut context = create_test_context();
    context.last_features.atr = Some(Dec::from_int(1));
    let action = process_bearish_news(
        &bearish(),
        &mut context,
        (Dec::from_int(10), Dec::from_int(100)),
        Dec::from_int(95),
        1000,
    );
    match action {
        NewsAction::PanicSell(proposal) => {
            assert_eq!(proposal.symbol, "TEST");
            assert_eq!(proposal.side, OrderSide::Sell);
            assert_eq!(proposal.quantity, Dec::from_int(10));
            assert_eq!(proposal.reason, "News Panic Sell (PnL: -5.00%): Test bearish news");
        }
        _ => panic!("Expected PanicSell action for losing position"),
    }
    assert!(!context.position_manager.trailing_stop.is_active());
}

#[test]
fn bearish_news_creates_a_tight_stop_when_none_is_active() {
    let mut context = create_test_context();
    let action = process_bearish_news(
        &bearish(),
        &mut context,
        (Dec::from_int(1), Dec::from_int(100)),
        Dec::from_int(200),
        0,
    );
    assert!(matches!(action, NewsAction::TightenStop));
    // without an ATR, 1% of the price (2) is assumed: gap = max(1, 1) = 1
    assert_eq!(context.position_manager.trailing_stop.get_stop_price(), Some(Dec::from_int(199)));
}

fn bullish() -> NewsSignal {
    NewsSignal {
        symbol: "TEST".to_string(),
        headline: "Great earnings".to_string(),
        sentiment: NewsSentiment::Bullish,
        source: "test".to_string(),
        url: None,
    }
}

fn handler() -> NewsHandler {
    NewsHandler::new(SignalProcessor::new(Arc::new(SizingEngine::new())))
}

#[test]
fn bullish_news_rejected_below_sma50() {
    let mut context = create_test_context();
    context.last_features.sma_50 = Some(Dec::from_int(105));
    let portfolio = Portfolio { cash: Dec::from_int(100000), positions: vec![] };
    let action = handler().process_bullish_news(&test_config(), Some(&portfolio), &bullish(), &context, Dec::from_int(100), 5);
    match action {
        NewsAction::Rejected(reason) => assert_eq!(reason, "Price (100.00) below SMA50 (105.00) - Bearish Trend"),
        _ => panic!("Expected rejection below the SMA50"),
    }
}

#[test]
fn bullish_news_rejected_when_overbought() {
    let mut context = create_test_context();
    context.last_features.sma_50 = Some(Dec::from_int(90));
    context.last_features.rsi = Some(Dec::new(805, 1));
    let action = handler().process_bullish_news(&test_config(), None, &bullish(), &context, Dec::from_int(100), 5);
    match action {
        NewsAction::Rejected(reason) => assert_eq!(reason, "RSI 80.5 indicates Overbought"),
        _ => panic!("Expected rejection when overbought"),
    }
}

#[test]
fn bullish_news_buys_at_market() {
    let mut context = create_test_context();
    context.last_features.sma_50 = Some(Dec::from_int(90));
    context.last_features.rsi = Some(Dec::from_int(60));
    let portfolio = Portfolio { cash: Dec::from_int(100000), positions: vec![] };
    let action = handler().process_bullish_news(&test_config(), Some(&portfolio), &bullish(), &context, Dec::from_int(100), 5);
    match action {
        NewsAction::Buy(p) => {
            assert_eq!(p.side, OrderSide::Buy);
            assert_eq!(p.order_type, OrderType::Market);
            assert_eq!(p.quantity, Dec::from_int(10));
            assert_eq!(p.timestamp, 5000);
            assert_eq!(p.reason, "News (Trend Correct & RSI OK): Great earnings");
        }
        _ => panic!("Expected a buy"),
    }
    // without a readable portfolio no quantity comes out
    let action = handler().process_bullish_news(&test_config(), None, &bullish(), &context, Dec::from_int(100), 5);
    assert!(matches!(action, NewsAction::NoAction));
}

#[test]
fn news_without_a_price_is_ignored() {
    let mut context = create_test_context();
    let portfolio = Portfolio { cash: Dec::from_int(100000), positions: vec![] };
    assert!(handle_news_signal(&handler(), &test_config(), Some(&portfolio), &bullish(), &mut context, None, 5).is_none());
    assert!(handle_news_signal(&handler(), &test_config(), Some(&portfolio), &bullish(), &mut context, Some(Dec::zero()), 5).is_none());
}

#[test]
fn bullish_news_signal_sends_a_buy() {
    let mut context = create_test_context();
    context.last_features.sma_50 = Some(Dec::from_int(90));
    let portfolio = Portfolio { cash: Dec::from_int(100000), positions: vec![] };
    let p = handle_news_signal(&handler(), &test_config(), Some(&portfolio), &bullish(), &mut context, Some(Dec::from_int(100)), 5).unwrap();
    assert_eq!(p.side, OrderSide::Buy);
    assert_eq!(p.quantity, Dec::from_int(10));
    assert_eq!(p.timestamp, 5000);
}

#[test]
fn bearish_news_signal_sells_a_losing_position_only() {
    let mut context = create_test_context();
    let held = Portfolio {
        cash: Dec::zero(),
        positions: vec![Position { symbol: "TEST".to_string(), quantity: Dec::from_int(3), average_price: Dec::from_int(100) }],
    };
    let p = handle_news_signal(&handler(), &test_config(), Some(&held), &bearish(), &mut context, Some(Dec::from_int(90)), 7).unwrap();
    assert_eq!(p.side, OrderSide::Sell);
    assert_eq!(p.quantity, Dec::from_int(3));
    assert_eq!(p.timestamp, 7);
    let empty = Portfolio { cash: Dec::zero(), positions: vec![] };
    assert!(handle_news_signal(&handler(), &test_config(), Some(&empty), &bearish(), &mut context, Some(Dec::from_int(90)), 7).is_none());
    // a profitable position only gets a tighter stop
    assert!(handle_news_signal(&handler(), &test_config(), Some(&held), &bearish(), &mut context, Some(Dec::from_int(120)), 7).is_none());
    assert!(context.position_manager.trailing_stop.is_active());
}
