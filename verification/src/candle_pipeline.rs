//! The stages of processing a one-minute candle for a symbol.
use crate::context::{
    acknowledged, initial_stop, stop_units_in_range, FeatureSet, PositionManager, Signal, StopState,
    SymbolContext,
};
use crate::decimal::{one_units, Dec};
use crate::position_lifecycle;
use crate::signal_processor::{rsi_blocks, trailing_stop_suppresses, SignalProcessor};
use crate::trade_evaluator::TradeEvaluator;
use crate::trading::{find_position, first_position_index, holds_symbol, OrderSide, Portfolio};
use vstd::prelude::*;

verus! {

/// Whether the portfolio holds a positive quantity of `symbol`.
pub open spec fn holds_position(portfolio: Option<&Portfolio>, symbol: Seq<char>) -> bool {
    portfolio matches Some(p) && holds_symbol(p.positions@, symbol)
        && p.positions@[first_position_index(p.positions@, symbol)].quantity.units() > 0
}

/// The ATR a trailing stop is started with after synchronisation: the latest
/// one, or the default when none is known.
pub open spec fn sync_atr(context: SymbolContext) -> (int, nat) {
    match context.last_features.atr {
        Some(a) => a@,
        None => position_lifecycle::default_atr(),
    }
}

/// The context after synchronising with the portfolio: pending orders
/// acknowledged, partial profit taking re-allowed once no position is held, and
/// a trailing stop started from the average price for a held position without
/// one.
pub open spec fn synced_context(context: SymbolContext, portfolio: Option<&Portfolio>, symbol: Seq<char>) -> SymbolContext {
    let has = holds_position(portfolio, symbol);
    let ack = acknowledged(context.position_manager, has);
    let stop = if has && !context.position_manager.trailing_stop.spec_is_active() {
        let p = portfolio->0.positions@[first_position_index(portfolio->0.positions@, symbol)];
        StopState::ActiveStop {
            entry_price: p.average_price,
            stop_price: Dec::from_view(
                initial_stop(
                    p.average_price@,
                    sync_atr(context),
                    context.config.trailing_stop_atr_multiplier@,
                ),
            ),
        }
    } else {
        ack.trailing_stop
    };
    SymbolContext {
        position_manager: PositionManager { trailing_stop: stop, ..ack },
        taken_profit: has && context.taken_profit,
        ..context
    }
}

/// The context after a proposal for `signal` was made at `timestamp_ms` with the
/// close `close`: the order is pending; a buy also records the entry time and,
/// with a positive ATR, starts the trailing stop at the close.
pub open spec fn recorded_context(context: SymbolContext, signal: OrderSide, timestamp_ms: i64, close: Dec) -> SymbolContext {
    let pending = PositionManager {
        pending_order: Some(signal),
        pending_since: timestamp_ms,
        ..context.position_manager
    };
    if signal == OrderSide::Buy {
        let stop = if context.last_features.atr matches Some(a) && a.units() > 0 {
            StopState::ActiveStop {
                entry_price: close,
                stop_price: Dec::from_view(
                    initial_stop(
                        close@,
                        context.last_features.atr->0@,
                        context.config.trailing_stop_atr_multiplier@,
                    ),
                ),
            }
        } else {
            context.position_manager.trailing_stop
        };
        SymbolContext {
            position_manager: PositionManager { trailing_stop: stop, ..pending },
            last_entry_time: Some(timestamp_ms),
            ..context
        }
    } else {
        SymbolContext { position_manager: pending, ..context }
    }
}

/// Processes candles through regime, indicator, position, signal and evaluation
/// stages.
pub struct CandlePipeline {
    trade_evaluator: TradeEvaluator,
}

impl CandlePipeline {
    pub closed spec fn spec_trade_evaluator(self) -> TradeEvaluator {
        self.trade_evaluator
    }

    pub fn new(trade_evaluator: TradeEvaluator) -> (r: Self)
        ensures
            r.spec_trade_evaluator() == trade_evaluator,
    {
        CandlePipeline { trade_evaluator }
    }

    /// The evaluator of the last stage.
    pub fn trade_evaluator(&self) -> (r: &TradeEvaluator)
        ensures
            *r == self.spec_trade_evaluator(),
    {
        &self.trade_evaluator
    }

    /// Stage 2: take the indicator values computed for the candle.
    pub fn update_indicators(&self, context: &mut SymbolContext, features: FeatureSet)
        ensures
            *final(context) == (SymbolContext { last_features: features, ..*old(context) }),
    {
        context.last_features = features;
    }

    /// Stage 3: synchronise with the portfolio and report whether a position is
    /// held. Pending orders are acknowledged, a closed position re-allows partial
    /// profit taking, and a held position without a trailing stop gets one from
    /// its average price.
    pub fn sync_position_state(
        &self,
        context: &mut SymbolContext,
        symbol: &str,
        portfolio: Option<&Portfolio>,
    ) -> (r: bool)
        requires
            holds_position(portfolio, symbol@) ==> ({
                let p = portfolio->0.positions@[first_position_index(portfolio->0.positions@, symbol@)];
                stop_units_in_range(
                    p.average_price.units(),
                    match old(context).last_features.atr {
                        Some(a) => a.units(),
                        None => one_units(),
                    },
                    old(context).config.trailing_stop_atr_multiplier.units(),
                )
            }),
        ensures
            r == holds_position(portfolio, symbol@),
            *final(context) == synced_context(*old(context), portfolio, symbol@),
            *final(context) == (SymbolContext {
                position_manager: crate::context::PositionManager {
                    trailing_stop: final(context).position_manager.trailing_stop,
                    ..acknowledged(old(context).position_manager, r)
                },
                taken_profit: r && old(context).taken_profit,
                ..*old(context)
            }),
            !(r && !old(context).position_manager.trailing_stop.spec_is_active())
                ==> final(context).position_manager.trailing_stop == acknowledged(
                old(context).position_manager,
                r,
            ).trailing_stop,
            final(context).taken_profit == (r && old(context).taken_profit),
            final(context).config == old(context).config,
            final(context).last_features == old(context).last_features,
            (old(context).position_manager.pending_order == Some(OrderSide::Buy) && r)
                ==> final(context).position_manager.pending_order is None,
            (old(context).position_manager.pending_order == Some(OrderSide::Sell) && !r)
                ==> final(context).position_manager.pending_order is None
                && final(context).position_manager.trailing_stop is NoPosition,
            r ==> final(context).position_manager.trailing_stop is ActiveStop,
            (r && !old(context).position_manager.trailing_stop.spec_is_active()) ==> ({
                let p = portfolio->0.positions@[first_position_index(portfolio->0.positions@, symbol@)];
                final(context).position_manager.trailing_stop matches StopState::ActiveStop {
                    entry_price: e,
                    stop_price: s,
                } && e == p.average_price && s@ == initial_stop(
                    p.average_price@,
                    match old(context).last_features.atr {
                        Some(a) => a@,
                        None => position_lifecycle::default_atr(),
                    },
                    old(context).config.trailing_stop_atr_multiplier@,
                )
            }),
    {
        let mut average: Option<Dec> = None;
        let has_position = match portfolio {
            Some(p) => match find_position(&p.positions, symbol) {
                Some(i) => {
                    let pos = &p.positions[i];
                    if pos.quantity.gt(&Dec::zero()) {
                        average = Some(pos.average_price);
                        true
                    } else {
                        false
                    }
                },
                None => false,
            },
            None => false,
        };
        position_lifecycle::sync_position_state(context, symbol, has_position);
        if has_position && !context.position_manager.trailing_stop.is_active() {
            if let Some(avg) = average {
                let atr = context.last_features.atr;
                position_lifecycle::initialize_trailing_stop_if_needed(context, symbol, avg, atr);
            }
        }
        proof {
            if let StopState::ActiveStop { stop_price, .. } = context.position_manager.trailing_stop {
                Dec::lemma_from_own_view(stop_price);
            }
        }
        has_position
    }

    /// Stage 5: filter the strategy's signal (RSI filter on buys, sells left to
    /// an active trailing stop) and return its side.
    pub fn generate_and_filter_signal(
        &self,
        context: &SymbolContext,
        symbol: &str,
        signal: Option<Signal>,
    ) -> (r: Option<OrderSide>)
        ensures
            r == (if rsi_blocks(signal, *context) || trailing_stop_suppresses(
                signal,
                *context,
                false,
            ) {
                None
            } else {
                match signal {
                    Some(s) => Some(s.side),
                    None => None,
                }
            }),
    {
        let filtered = SignalProcessor::apply_rsi_filter(signal, context, symbol);
        let filtered = SignalProcessor::suppress_sell_if_trailing_stop(
            filtered,
            context,
            symbol,
            false,
        );
        match filtered {
            Some(s) => Some(s.side),
            None => None,
        }
    }

    /// After a proposal was made at candle time `timestamp_ms`: the order is
    /// pending; a buy also records the entry time and starts the trailing stop at
    /// the close.
    pub fn record_proposal(
        &self,
        context: &mut SymbolContext,
        signal: OrderSide,
        timestamp_ms: i64,
        close: Dec,
    )
        requires
            signal == OrderSide::Buy ==> (old(context).last_features.atr matches Some(a) ==> (a.units()
                > 0 ==> crate::context::stop_in_range(
                close,
                a,
                old(context).config.trailing_stop_atr_multiplier,
            ))),
        ensures
            *final(context) == recorded_context(*old(context), signal, timestamp_ms, close),
            final(context).position_manager.pending_order == Some(signal),
            final(context).position_manager.pending_since == timestamp_ms,
            final(context).last_entry_time == (if signal == OrderSide::Buy {
                Some(timestamp_ms)
            } else {
                old(context).last_entry_time
            }),
            signal == OrderSide::Sell ==> final(context).position_manager.trailing_stop
                == old(context).position_manager.trailing_stop,
            signal == OrderSide::Buy ==> (old(context).last_features.atr matches Some(a) ==> (a.units()
                > 0 ==> (final(context).position_manager.trailing_stop matches StopState::ActiveStop {
                entry_price: e,
                stop_price: s,
            } && e == close && s@ == initial_stop(
                close@,
                a@,
                old(context).config.trailing_stop_atr_multiplier@,
            )))),
    {
        context.position_manager.set_pending_order(signal, timestamp_ms);
        if signal == OrderSide::Buy {
            context.last_entry_time = Some(timestamp_ms);
            position_lifecycle::initialize_trailing_stop_on_buy(context, close);
        }
        proof {
            if let StopState::ActiveStop { stop_price, .. } = context.position_manager.trailing_stop {
                Dec::lemma_from_own_view(stop_price);
            }
        }
    }
}

} // verus!
