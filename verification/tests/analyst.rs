use rustrade::context::{propagate_config, AnalystConfig, PositionManager, Signal, SymbolContext};
use rustrade::cost_evaluator::{ConstantFeeModel, CostEvaluator};
use rustrade::decimal::Dec;
use rustrade::signal_generator::SignalGenerator;
use rustrade::signal_processor::{SignalProcessor, SizingEngine};
use rustrade::trade_filter::TradeFilter;
use rustrade::trading::{find_position, OrderSide, Portfolio, Position, TradeProposal};
use std::collections::HashMap;
use std::sync::Arc;

fn config(risk: Dec, max_positions: u64, max_position_size_pct: Dec) -> AnalystConfig {
    AnalystConfig {
        rsi_threshold: Dec::from_int(55),
        trailing_stop_atr_multiplier: Dec::from_int(3),
        take_profit_pct: Dec::new(5, 2),
        ensemble_voting_threshold: Dec::new(50, 2),
        risk_appetite_score: None,
        risk_per_trade_percent: risk,
        max_positions,
        max_position_size_pct,
        trade_quantity: Dec::from_int(1),
        order_cooldown_seconds: 0,
        min_profit_ratio: Dec::from_int(2),
        profit_target_multiplier: Dec::new(15, 1),
    }
}

/// Per-symbol state of the dual moving-average analyst.
struct SymbolState {
    closes: Vec<f64>,
    generator: SignalGenerator,
    manager: PositionManager,
    had_averages: bool,
}

/// The dual moving-average analyst over candles: averages of the last `fast`
/// and `slow` closes, crossover signals, the long-only / pending / cooldown
/// checks, and sizing into a proposal.
struct DualSma {
    fast: usize,
    slow: usize,
    threshold: f64,
    config: AnalystConfig,
    states: HashMap<String, SymbolState>,
    filter: TradeFilter,
    processor: SignalProcessor,
}

fn sma(closes: &[f64], period: usize) -> f64 {
    let n = closes.len().min(period);
    closes[closes.len() - n..].iter().sum::<f64>() / n as f64
}

impl DualSma {
    fn new(fast: usize, slow: usize, config: AnalystConfig) -> Self {
        let fees = ConstantFeeModel::new(Dec::zero(), Dec::zero());
        DualSma {
            fast,
            slow,
            threshold: 0.0,
            config,
            states: HashMap::new(),
            filter: TradeFilter::new(CostEvaluator::new(fees, Dec::from_int(5))),
            processor: SignalProcessor::new(Arc::new(SizingEngine::new())),
        }
    }

    fn on_candle(&mut self, symbol: &str, close: i64, timestamp: i64, portfolio: &Portfolio) -> Option<TradeProposal> {
        let state = self.states.entry(symbol.to_string()).or_insert(SymbolState {
            closes: Vec::new(),
            generator: SignalGenerator::new(),
            manager: PositionManager::new(),
            had_averages: false,
        });
        state.closes.push(close as f64);
        let fast = sma(&state.closes, self.fast);
        let slow = sma(&state.closes, self.slow);
        if !state.had_averages {
            state.had_averages = true;
            return None;
        }
        let above = fast > slow * (1.0 + self.threshold);
        let below = fast < slow * (1.0 - self.threshold);
        let side = state.generator.crossover_signal(above, below)?;
        let has_position = match find_position(&portfolio.positions, symbol) {
            Some(i) => portfolio.positions[i].quantity.gt(&Dec::zero()),
            None => false,
        };
        let ts = timestamp * 1000;
        if !self.filter.validate_signal(side, symbol, &state.manager, &self.config, ts, has_position) {
            return None;
        }
        state.manager.last_signal_time = ts;
        let signal = match side {
            OrderSide::Buy => Signal::buy("Dual SMA crossover".to_string()),
            OrderSide::Sell => Signal::sell("Dual SMA crossover".to_string()),
        };
        let proposal = self.processor.build_proposal(&self.config, Some(portfolio), symbol.to_string(), signal, Dec::from_int(close), ts)?;
        state.manager.set_pending_order(side, ts);
        Some(proposal)
    }
}

fn cash(amount: i64) -> Portfolio {
    Portfolio { cash: Dec::from_int(amount), positions: vec![] }
}

#[test]
fn test_golden_cross() {
    let portfolio = cash(100000);
    let mut analyst = DualSma::new(2, 3, config(Dec::zero(), 1, Dec::zero()));
    let prices = [100, 100, 100, 90, 110, 120];
    let proposals: Vec<TradeProposal> = prices
        .iter()
        .enumerate()
        .filter_map(|(i, p)| analyst.on_candle("BTC", *p, i as i64, &portfolio))
        .collect();
    let proposal = proposals.first().expect("Should receive buy signal");
    assert_eq!(proposal.side, OrderSide::Buy);
    assert_eq!(proposal.quantity, Dec::from_int(1));
}

#[test]
fn test_prevent_short_selling() {
    let portfolio = cash(100000);
    let mut analyst = DualSma::new(2, 3, config(Dec::zero(), 1, Dec::new(1, 1)));
    let prices = [100, 100, 100, 120, 70];
    let sell_detected = prices
        .iter()
        .enumerate()
        .filter_map(|(i, p)| analyst.on_candle("AAPL", *p, i as i64, &portfolio))
        .any(|p| p.side == OrderSide::Sell);
    assert!(!sell_detected, "Should NOT receive sell signal on empty portfolio (Short Selling Prevented)");
}

#[test]
fn test_sell_signal_with_position() {
    let mut portfolio = cash(100000);
    portfolio.positions.push(Position { symbol: "BTC".to_string(), quantity: Dec::from_int(10), average_price: Dec::from_int(100) });
    let mut analyst = DualSma::new(2, 3, config(Dec::zero(), 1, Dec::new(1, 1)));
    let prices = [100, 100, 100, 120, 70];
    let sell_detected = prices
        .iter()
        .enumerate()
        .filter_map(|(i, p)| analyst.on_candle("BTC", *p, i as i64, &portfolio))
        .any(|p| p.side == OrderSide::Sell);
    assert!(sell_detected, "Should receive sell signal when holding position");
}

#[test]
fn test_dynamic_quantity_scaling() {
    let portfolio = cash(100000);
    let mut analyst = DualSma::new(1, 2, config(Dec::new(2, 2), 1, Dec::new(1, 1)));
    let prices = [110, 110, 90, 100];
    let proposal = prices
        .iter()
        .enumerate()
        .filter_map(|(i, p)| analyst.on_candle("AAPL", *p, i as i64, &portfolio))
        .next()
        .expect("Should receive buy signal");
    assert_eq!(proposal.side, OrderSide::Buy);
    // 2% of 100,000 = 2,000 at 100 per share
    assert_eq!(proposal.quantity, Dec::from_int(20));
}

#[test]
fn test_multi_symbol_isolation() {
    let mut portfolio = cash(0);
    portfolio.positions.push(Position { symbol: "ETH".to_string(), quantity: Dec::from_int(10), average_price: Dec::from_int(100) });
    let mut analyst = DualSma::new(2, 3, config(Dec::zero(), 2, Dec::new(1, 1)));
    let sequence = [
        ("BTC", 100),
        ("ETH", 100),
        ("BTC", 100),
        ("ETH", 100),
        ("BTC", 100),
        ("ETH", 100),
        ("BTC", 90),
        ("ETH", 120),
        ("BTC", 120),
        ("ETH", 70),
    ];
    let mut btc_buy = false;
    let mut eth_sell = false;
    for (i, (sym, p)) in sequence.iter().enumerate() {
        if let Some(proposal) = analyst.on_candle(sym, *p, i as i64, &portfolio) {
            if proposal.symbol == "BTC" && proposal.side == OrderSide::Buy {
                btc_buy = true;
            }
            if proposal.symbol == "ETH" && proposal.side == OrderSide::Sell {
                eth_sell = true;
            }
        }
    }
    assert!(btc_buy, "Should receive BTC buy signal");
    assert!(eth_sell, "Should receive ETH sell signal");
}

#[test]
fn a_configuration_update_reaches_every_symbol() {
    let old = config(Dec::zero(), 5, Dec::zero());
    let mut contexts = vec![SymbolContext::new(old), SymbolContext::new(old)];
    contexts[1].taken_profit = true;
    contexts[1].last_entry_time = Some(42);
    let new = config(Dec::new(2, 2), 3, Dec::new(1, 1));
    propagate_config(&mut contexts, new);
    assert_eq!(contexts.len(), 2);
    for c in &contexts {
        assert_eq!(c.config.max_positions, 3);
        assert_eq!(c.config.risk_per_trade_percent, Dec::new(2, 2));
    }
    assert!(!contexts[0].taken_profit);
    assert!(contexts[1].taken_profit);
    assert_eq!(contexts[1].last_entry_time, Some(42));
}
