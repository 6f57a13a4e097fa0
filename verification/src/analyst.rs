//! The analyst's decision for one candle of a symbol: the stages of the candle
//! pipeline in order, the proposal they lead to and the pending-order check.
use crate::candle_pipeline::{holds_position, recorded_context, synced_context, CandlePipeline};
use crate::context::{
    stop_move, stop_units_in_range, AnalystConfig, FeatureSet, MarketRegime, PositionManager,
    RiskProfiles, Signal, StopMove, StopState, SymbolContext,
};
use crate::cost_evaluator::{cost_bound, cost_breakdown, costs_in_range};
use crate::decimal::{decimal_product, iabs, max_units, one_units, units_of, Dec};
use crate::market::Candle;
use crate::regime_handler::{apply_dynamic_risk_scaling, regime_rescales, risk_modifier, scaled_context, signed_score};
use crate::signal_processor::{proposal_quantity, quantity_in_range, rsi_blocks, trailing_stop_suppresses};
use crate::trade_evaluator::{
    expected_profit_in_range, expected_profit_of, known_atr, order_type_for,
};
use crate::trade_filter::signal_admitted;
use crate::trading::{first_position_index, OrderSide, Portfolio, TradeProposal};
use vstd::prelude::*;
use vstd::string::StringExecFns;

verus! {

/// What to do about the pending order after a candle.
#[derive(Clone, Copy, Debug, PartialEq, Eq, Structural)]
pub enum PendingAction {
    /// Nothing: no order is pending, or it is still within its time.
    Keep,
    /// The pending order timed out: look up the symbol's open orders on the
    /// exchange, cancel them, or clear the pending state when there are none.
    CheckOpenOrders,
}

/// How long an order may stay pending, in milliseconds.
pub open spec fn pending_timeout_ms() -> int {
    60_000
}

/// Whether the pending order has been waiting longer than the timeout at `now_ms`.
pub open spec fn pending_timed_out(manager: PositionManager, now_ms: int) -> bool {
    manager.pending_order is Some && now_ms - manager.pending_since > pending_timeout_ms()
}

/// The pending-order action for the context at `now_ms`.
pub open spec fn pending_action_for(context: SymbolContext, now_ms: int) -> PendingAction {
    if pending_timed_out(context.position_manager, now_ms) {
        PendingAction::CheckOpenOrders
    } else {
        PendingAction::Keep
    }
}

/// The context before the configuration is reset to `base`.
pub open spec fn reset_context(context: SymbolContext, base: AnalystConfig) -> SymbolContext {
    SymbolContext { config: base, ..context }
}

/// The context after the regime and indicator stages.
pub open spec fn updated_context(
    context: SymbolContext,
    base: AnalystConfig,
    profiles: RiskProfiles,
    regime: MarketRegime,
    features: FeatureSet,
) -> SymbolContext {
    SymbolContext {
        last_features: features,
        ..scaled_context(reset_context(context, base), regime, profiles)
    }
}

/// What the close does to the trailing stop of a held position (the ATR is zero
/// when unknown); without a position nothing happens.
pub open spec fn trail_outcome(context: SymbolContext, has_position: bool, close: Dec) -> StopMove {
    if has_position {
        stop_move(
            context.position_manager.trailing_stop,
            close,
            known_atr(context),
            context.config.trailing_stop_atr_multiplier@,
        )
    } else {
        StopMove::Kept
    }
}

/// The context after the trailing-stop stage.
pub open spec fn trailed_context(context: SymbolContext, has_position: bool, close: Dec) -> SymbolContext {
    match trail_outcome(context, has_position, close) {
        StopMove::Raised(v) => SymbolContext {
            position_manager: PositionManager {
                trailing_stop: StopState::ActiveStop {
                    entry_price: context.position_manager.trailing_stop->entry_price,
                    stop_price: Dec::from_view(v),
                },
                ..context.position_manager
            },
            ..context
        },
        _ => context,
    }
}

/// The side decided for the candle: a sell when the trailing stop fired,
/// otherwise the strategy's signal once the RSI and trailing-stop filters let it
/// through.
pub open spec fn decided_side(context: SymbolContext, triggered: bool, signal: Option<Signal>) -> Option<
    OrderSide,
> {
    if triggered {
        Some(OrderSide::Sell)
    } else if rsi_blocks(signal, context) || trailing_stop_suppresses(signal, context, false) {
        None
    } else {
        match signal {
            Some(s) => Some(s.side),
            None => None,
        }
    }
}

/// The stop loss and take profit a proposal carries: those the strategy
/// suggested, none for a trailing-stop exit.
pub open spec fn proposal_levels(triggered: bool, signal: Option<Signal>) -> (Option<Dec>, Option<Dec>) {
    if triggered {
        (None, None)
    } else {
        match signal {
            Some(s) => (s.suggested_stop_loss, s.suggested_take_profit),
            None => (None, None),
        }
    }
}

/// The context once the signal is acted on at `timestamp_ms`.
pub open spec fn admitted_context(context: SymbolContext, timestamp_ms: i64) -> SymbolContext {
    SymbolContext {
        position_manager: PositionManager { last_signal_time: timestamp_ms, ..context.position_manager },
        ..context
    }
}

/// Whether the expected profit covers the transaction costs `min_profit_ratio`
/// times over.
pub open spec fn covers_costs(
    pipeline: CandlePipeline,
    context: SymbolContext,
    symbol: Seq<char>,
    price: Dec,
    quantity: (int, nat),
    expected_value: Dec,
) -> bool {
    let evaluator = pipeline.spec_trade_evaluator().spec_trade_filter().spec_cost_evaluator();
    units_of(expected_profit_of(context, quantity, expected_value)) >= units_of(
        decimal_product(
            cost_breakdown(
                evaluator.spec_fee_model(),
                symbol,
                price@,
                quantity,
                evaluator.spec_default_spread()@,
            ).3,
            context.config.min_profit_ratio@,
        ),
    )
}

/// The outcome of one candle: the context afterwards and the side and quantity
/// of the proposal made, if any. Market data offline: nothing happens. Otherwise
/// the configuration is reset to `base`, the regime rescales the risk profile,
/// the indicators are taken, the position is synchronised, the trailing stop
/// follows the close, and the decided side (a stop exit or the filtered
/// strategy signal) is admitted (long-only, pending order, cooldown), sized,
/// and kept only when the expected profit covers the costs; a kept proposal
/// leaves the order pending.
pub open spec fn step_outcome(
    pipeline: CandlePipeline,
    context: SymbolContext,
    base: AnalystConfig,
    profiles: RiskProfiles,
    regime: MarketRegime,
    candle: Candle,
    features: FeatureSet,
    portfolio: Option<&Portfolio>,
    signal: Option<Signal>,
    expected_value: Dec,
    market_data_online: bool,
) -> (SymbolContext, Option<(OrderSide, (int, nat))>) {
    if !market_data_online {
        (context, None)
    } else {
        let symbol = candle.symbol@;
        let t = candle.timestamp;
        let has = holds_position(portfolio, symbol);
        let c3 = synced_context(updated_context(context, base, profiles, regime, features), portfolio, symbol);
        let c4 = trailed_context(c3, has, candle.close);
        let triggered = trail_outcome(c3, has, candle.close) is Triggered;
        match decided_side(c4, triggered, signal) {
            None => (c4, None),
            Some(side) => if !signal_admitted(
                side,
                c4.position_manager,
                c4.config.order_cooldown_seconds,
                t,
                has,
            ) {
                (c4, None)
            } else {
                let c5 = admitted_context(c4, t);
                match proposal_quantity(c5.config, portfolio, symbol, side, candle.close) {
                    Some(q) => if units_of(q) > 0 && covers_costs(
                        pipeline,
                        c5,
                        symbol,
                        candle.close,
                        q,
                        expected_value,
                    ) {
                        (recorded_context(c5, side, t, candle.close), Some((side, q)))
                    } else {
                        (c5, None)
                    },
                    None => (c5, None),
                }
            },
        }
    }
}

/// Inputs for which every stage of the candle stays within the decimal range.
pub open spec fn step_in_range(
    pipeline: CandlePipeline,
    context: SymbolContext,
    base: AnalystConfig,
    profiles: RiskProfiles,
    regime: MarketRegime,
    candle: Candle,
    features: FeatureSet,
    portfolio: Option<&Portfolio>,
    signal: Option<Signal>,
    expected_value: Dec,
) -> bool {
    let symbol = candle.symbol@;
    let t = candle.timestamp;
    let close = candle.close;
    let has = holds_position(portfolio, symbol);
    let c0 = reset_context(context, base);
    let c2 = updated_context(context, base, profiles, regime, features);
    let c3 = synced_context(c2, portfolio, symbol);
    let c4 = trailed_context(c3, has, close);
    let triggered = trail_outcome(c3, has, close) is Triggered;
    let c5 = admitted_context(c4, t);
    let evaluator = pipeline.spec_trade_evaluator().spec_trade_filter().spec_cost_evaluator();
    &&& regime_rescales(c0, regime) ==> signed_score(base.risk_appetite_score->0) + risk_modifier(
        regime.regime_type,
    ) >= -128
    &&& has ==> stop_units_in_range(
        portfolio->0.positions@[first_position_index(
            portfolio->0.positions@,
            symbol,
        )].average_price.units(),
        match c2.last_features.atr {
            Some(a) => a.units(),
            None => one_units(),
        },
        c2.config.trailing_stop_atr_multiplier.units(),
    )
    &&& (has && (c3.position_manager.trailing_stop matches StopState::ActiveStop { stop_price, .. }
        && close.units() > stop_price.units())) ==> stop_units_in_range(
        close.units(),
        units_of(known_atr(c3)),
        c3.config.trailing_stop_atr_multiplier.units(),
    )
    &&& decided_side(c4, triggered, signal) matches Some(side) ==> (signal_admitted(
        side,
        c4.position_manager,
        c4.config.order_cooldown_seconds,
        t,
        has,
    ) ==> {
        &&& side == OrderSide::Buy ==> quantity_in_range(c5.config, portfolio, symbol, close)
        &&& proposal_quantity(c5.config, portfolio, symbol, side, close) matches Some(q) ==> (
        units_of(q) > 0 ==> {
            let quantity = Dec::from_view(q);
            &&& costs_in_range(
                evaluator.spec_fee_model(),
                close,
                quantity,
                evaluator.spec_default_spread(),
            )
            &&& cost_bound(
                evaluator.spec_fee_model(),
                close,
                quantity,
                evaluator.spec_default_spread(),
            ) * iabs(c5.config.min_profit_ratio.units()) <= max_units() * one_units()
            &&& expected_profit_in_range(c5, quantity, expected_value)
            &&& side == OrderSide::Buy ==> (c5.last_features.atr matches Some(a) ==> (a.units()
                > 0 ==> stop_units_in_range(
                close.units(),
                a.units(),
                c5.config.trailing_stop_atr_multiplier.units(),
            )))
        })
    })
}

/// One candle of the analyst for `candle.symbol` (the candle's time is in
/// milliseconds). The strategy's `signal`, the indicator `features`, the market
/// `regime` and the `expected_value` of the market expectancy are computed for
/// this candle by the caller, which also sends the proposal and performs the
/// pending-order action. The proposal (a stop exit or the strategy's signal)
/// carries `reason`.
pub fn analyst_step(
    pipeline: &CandlePipeline,
    context: &mut SymbolContext,
    base: AnalystConfig,
    profiles: &RiskProfiles,
    regime: &MarketRegime,
    candle: &Candle,
    features: FeatureSet,
    portfolio: Option<&Portfolio>,
    signal: Option<Signal>,
    reason: String,
    expected_value: Dec,
    market_data_online: bool,
) -> (r: (Option<TradeProposal>, PendingAction))
    requires
        market_data_online ==> step_in_range(
            *pipeline,
            *old(context),
            base,
            *profiles,
            *regime,
            *candle,
            features,
            portfolio,
            signal,
            expected_value,
        ),
    ensures
        ({
            let outcome = step_outcome(
                *pipeline,
                *old(context),
                base,
                *profiles,
                *regime,
                *candle,
                features,
                portfolio,
                signal,
                expected_value,
                market_data_online,
            );
            let has = holds_position(portfolio, candle.symbol@);
            let c3 = synced_context(
                updated_context(*old(context), base, *profiles, *regime, features),
                portfolio,
                candle.symbol@,
            );
            let triggered = trail_outcome(c3, has, candle.close) is Triggered;
            &&& *final(context) == outcome.0
            &&& r.1 == (if market_data_online {
                pending_action_for(outcome.0, candle.timestamp as int)
            } else {
                PendingAction::Keep
            })
            &&& (r.0 is Some <==> outcome.1 is Some)
            &&& r.0 matches Some(p) ==> outcome.1 matches Some((side, q)) && p.symbol@
                == candle.symbol@ && p.side == side && p.price == candle.close && p.quantity@ == q
                && p.order_type == order_type_for(side) && p.reason@ == reason@ && p.timestamp
                == candle.timestamp && p.stop_loss == proposal_levels(triggered, signal).0
                && p.take_profit == proposal_levels(triggered, signal).1
        }),
{
    if !market_data_online {
        return (None, PendingAction::Keep);
    }
    let symbol = candle.symbol.as_str();
    let close = candle.close;
    let t = candle.timestamp;
    let ghost c0 = reset_context(*context, base);
    context.config = base;
    apply_dynamic_risk_scaling(context, regime, symbol, profiles);
    pipeline.update_indicators(context, features);
    let has = pipeline.sync_position_state(context, symbol, portfolio);
    let ghost c3 = *context;
    let mut triggered = false;
    if has {
        let atr = match context.last_features.atr {
            Some(a) => a,
            None => Dec::zero(),
        };
        let multiplier = context.config.trailing_stop_atr_multiplier;
        let fired = context.position_manager.trailing_stop.on_price_update(close, atr, multiplier);
        triggered = fired.is_some();
        proof {
            if let StopState::ActiveStop { stop_price, .. } = context.position_manager.trailing_stop {
                Dec::lemma_from_own_view(stop_price);
            }
        }
    }
    assert(*context == trailed_context(c3, has, close));
    let (stop_loss, take_profit) = match &signal {
        Some(s) => if triggered {
            (None, None)
        } else {
            (s.suggested_stop_loss, s.suggested_take_profit)
        },
        None => (None, None),
    };
    let side = if triggered {
        Some(OrderSide::Sell)
    } else {
        pipeline.generate_and_filter_signal(context, symbol, signal)
    };
    let mut proposal: Option<TradeProposal> = None;
    if let Some(s) = side {
        let evaluator = pipeline.trade_evaluator();
        let ghost c4 = *context;
        if let Some(order_type) = evaluator.admit_signal(context, s, symbol, t, has) {
            let ghost c5 = *context;
            let made = Signal {
                side: s,
                reason,
                suggested_stop_loss: stop_loss,
                suggested_take_profit: take_profit,
            };
            let built = evaluator.signal_processor().build_proposal(
                &context.config,
                portfolio,
                String::from_str(symbol),
                made,
                close,
                t,
            );
            if let Some(p) = built {
                proof {
                    Dec::lemma_from_own_view(p.quantity);
                }
                let kept = evaluator.check_costs(context, p, order_type, expected_value);
                if let Some(p) = kept {
                    pipeline.record_proposal(context, s, t, close);
                    proposal = Some(p);
                }
            }
        }
    }
    let action = match context.position_manager.pending_order {
        Some(_) => {
            if (t as i128) - (context.position_manager.pending_since as i128) > 60_000 {
                PendingAction::CheckOpenOrders
            } else {
                PendingAction::Keep
            }
        },
        None => PendingAction::Keep,
    };
    (proposal, action)
}

} // verus!
