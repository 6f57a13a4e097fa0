//! Verified core of a multi-agent trading system: decimal amounts, candle
//! aggregation, trading decisions, risk bookkeeping and monitoring state.
use vstd::prelude::*;

pub mod decimal;
pub mod heartbeat;
pub mod market;
pub mod system;
pub mod text;
pub mod trading;
pub mod context;
pub mod timeframe_aggregator;
pub mod signal_processor;
pub mod position_lifecycle;
pub mod regime_handler;
pub mod candle_aggregator;
pub mod cost_evaluator;
pub mod portfolio_state_manager;
pub mod executor;
pub mod health;
pub mod sentinel;
pub mod listener;
pub mod signal_generator;
pub mod trade_filter;
pub mod trade_evaluator;
pub mod candle_pipeline;
pub mod analyst;
pub mod news_handler;
pub mod scanner;
pub mod user_agent;
pub mod win_rate;
pub mod metrics;
pub mod benchmarking;

verus! {
} // verus!
