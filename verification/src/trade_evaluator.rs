//! Turning an admitted signal into an order decision.
use crate::context::{PositionManager, SymbolContext};
use crate::cost_evaluator::{
    cost_bound, cost_breakdown, costs_in_range, lemma_scaled_within, product_bound,
};
use crate::decimal::{decimal_product, iabs, max_units, one_units, units_of, Dec};
use crate::signal_processor::{proposal_quantity, SignalProcessor};
use crate::trade_filter::{signal_admitted, TradeFilter};
use crate::trading::{first_position_index, holds_symbol, OrderSide, OrderType, Portfolio, TradeProposal};
use vstd::prelude::*;

verus! {

/// The order type for a signal: buys go out as limit orders, sells as market
/// orders.
pub open spec fn order_type_for(signal: OrderSide) -> OrderType {
    match signal {
        OrderSide::Buy => OrderType::Limit,
        OrderSide::Sell => OrderType::Market,
    }
}

/// The ATR of the latest features, zero when unknown.
pub open spec fn known_atr(context: SymbolContext) -> (int, nat) {
    match context.last_features.atr {
        Some(a) => a@,
        None => (0, 0),
    }
}

/// The profit a proposal of `quantity` is expected to make: the market
/// expectancy's expected value per unit times the quantity when it is positive,
/// else the ATR target `atr * profit_target_multiplier * quantity`.
pub open spec fn expected_profit_of(
    context: SymbolContext,
    quantity: (int, nat),
    expected_value: Dec,
) -> (int, nat) {
    if expected_value.units() > 0 {
        decimal_product(expected_value@, quantity)
    } else {
        decimal_product(
            decimal_product(known_atr(context), context.config.profit_target_multiplier@),
            quantity,
        )
    }
}

/// Inputs for which the expected profit of `quantity` stays within the decimal
/// range.
pub open spec fn expected_profit_in_range(
    context: SymbolContext,
    quantity: Dec,
    expected_value: Dec,
) -> bool {
    let atr = match context.last_features.atr {
        Some(a) => a.units(),
        None => 0,
    };
    let m = context.config.profit_target_multiplier.units();
    if expected_value.units() > 0 {
        iabs(expected_value.units() * quantity.units()) <= max_units() * one_units()
    } else {
        &&& iabs(atr * m) <= max_units() * one_units()
        &&& iabs(product_bound(atr, m) * quantity.units()) <= max_units() * one_units()
    }
}

/// Validates signals and prepares trade proposals.
pub struct TradeEvaluator {
    trade_filter: TradeFilter,
    signal_processor: SignalProcessor,
}

impl TradeEvaluator {
    pub closed spec fn spec_trade_filter(self) -> TradeFilter {
        self.trade_filter
    }

    pub closed spec fn spec_signal_processor(self) -> SignalProcessor {
        self.signal_processor
    }

    pub fn new(trade_filter: TradeFilter, signal_processor: SignalProcessor) -> (r: Self)
        ensures
            r.spec_trade_filter() == trade_filter,
            r.spec_signal_processor() == signal_processor,
    {
        TradeEvaluator { trade_filter, signal_processor }
    }

    /// The signal processor that builds proposals.
    pub fn signal_processor(&self) -> (r: &SignalProcessor)
        ensures
            *r == self.spec_signal_processor(),
    {
        &self.signal_processor
    }

    /// The first stage of evaluation: a signal that passes the long-only,
    /// pending-order and cooldown checks is acted on now (the time is recorded)
    /// and gets its order type; any other signal is dropped and nothing changes.
    pub fn admit_signal(
        &self,
        context: &mut SymbolContext,
        signal: OrderSide,
        symbol: &str,
        timestamp: i64,
        has_position: bool,
    ) -> (r: Option<OrderType>)
        ensures
            ({
                let admitted = signal_admitted(
                    signal,
                    old(context).position_manager,
                    old(context).config.order_cooldown_seconds,
                    timestamp,
                    has_position,
                );
                &&& admitted ==> r == Some(order_type_for(signal)) && *final(context) == (
                SymbolContext {
                    position_manager: crate::context::PositionManager {
                        last_signal_time: timestamp,
                        ..old(context).position_manager
                    },
                    ..*old(context)
                })
                &&& !admitted ==> r is None && *final(context) == *old(context)
            }),
    {
        if !self.trade_filter.validate_signal(
            signal,
            symbol,
            &context.position_manager,
            &context.config,
            timestamp,
            has_position,
        ) {
            return None;
        }
        context.position_manager.last_signal_time = timestamp;
        match signal {
            OrderSide::Buy => Some(OrderType::Limit),
            OrderSide::Sell => Some(OrderType::Market),
        }
    }

    /// The cost-aware last stage: the proposal built for an admitted signal
    /// takes the signal's order type and is kept only when its expected profit
    /// covers its transaction costs `min_profit_ratio` times over.
    pub fn check_costs(
        &self,
        context: &SymbolContext,
        proposal: TradeProposal,
        order_type: OrderType,
        expected_value: Dec,
    ) -> (r: Option<TradeProposal>)
        requires
            costs_in_range(
                self.spec_trade_filter().spec_cost_evaluator().spec_fee_model(),
                proposal.price,
                proposal.quantity,
                self.spec_trade_filter().spec_cost_evaluator().spec_default_spread(),
            ),
            cost_bound(
                self.spec_trade_filter().spec_cost_evaluator().spec_fee_model(),
                proposal.price,
                proposal.quantity,
                self.spec_trade_filter().spec_cost_evaluator().spec_default_spread(),
            ) * iabs(context.config.min_profit_ratio.units()) <= max_units() * one_units(),
            expected_profit_in_range(*context, proposal.quantity, expected_value),
        ensures
            r is Some <==> units_of(expected_profit_of(*context, proposal.quantity@, expected_value))
                >= units_of(
                decimal_product(
                    cost_breakdown(
                        self.spec_trade_filter().spec_cost_evaluator().spec_fee_model(),
                        proposal.symbol@,
                        proposal.price@,
                        proposal.quantity@,
                        self.spec_trade_filter().spec_cost_evaluator().spec_default_spread()@,
                    ).3,
                    context.config.min_profit_ratio@,
                ),
            ),
            r matches Some(p) ==> p == (TradeProposal { order_type, ..proposal }),
    {
        let mut proposal = proposal;
        proposal.order_type = order_type;
        let atr = match context.last_features.atr {
            Some(a) => a,
            None => Dec::zero(),
        };
        let expected_profit = if expected_value.gt(&Dec::zero()) {
            expected_value.mul(&proposal.quantity)
        } else {
            self.trade_filter.calculate_expected_profit(
                &proposal,
                atr,
                context.config.profit_target_multiplier,
            )
        };
        let costs = self.trade_filter.evaluate_costs(&proposal);
        proof {
            lemma_scaled_within(
                costs.total_cost.units(),
                cost_bound(
                    self.spec_trade_filter().spec_cost_evaluator().spec_fee_model(),
                    proposal.price,
                    proposal.quantity,
                    self.spec_trade_filter().spec_cost_evaluator().spec_default_spread(),
                ),
                context.config.min_profit_ratio.units(),
            );
        }
        if self.trade_filter.validate_profitability(
            &proposal,
            expected_profit,
            costs.total_cost,
            context.config.min_profit_ratio,
            proposal.symbol.as_str(),
        ) {
            Some(proposal)
        } else {
            None
        }
    }
}

/// Law: signals acted on for one symbol are at least the cooldown apart. Once a
/// signal is admitted at `t1` (which records `t1` as the last signal time), a
/// signal at `t2` is admitted only if `t2 - t1` is at least the cooldown.
pub proof fn lemma_admissions_respect_cooldown(
    manager: PositionManager,
    cooldown_seconds: u64,
    first: OrderSide,
    t1: i64,
    had_position: bool,
    second: OrderSide,
    t2: i64,
    has_position: bool,
)
    requires
        signal_admitted(first, manager, cooldown_seconds, t1, had_position),
    ensures
        signal_admitted(
            second,
            PositionManager { last_signal_time: t1, ..manager },
            cooldown_seconds,
            t2,
            has_position,
        ) ==> t2 - t1 >= cooldown_seconds * 1000,
{
}

/// Law: the strategy is long-only. A sell signal is admitted only with a position,
/// and a sell proposal is sized only from a held position, for its whole quantity.
pub proof fn lemma_long_only(
    manager: PositionManager,
    cooldown_seconds: u64,
    timestamp: i64,
    has_position: bool,
    config: crate::context::AnalystConfig,
    portfolio: Option<&Portfolio>,
    symbol: Seq<char>,
    price: Dec,
)
    ensures
        signal_admitted(OrderSide::Sell, manager, cooldown_seconds, timestamp, has_position)
            ==> has_position,
        proposal_quantity(config, portfolio, symbol, OrderSide::Sell, price) matches Some(q) ==> (
        portfolio matches Some(p) && holds_symbol(p.positions@, symbol) && q == p.positions@[first_position_index(
            p.positions@,
            symbol,
        )].quantity@),
{
}

} // verus!
