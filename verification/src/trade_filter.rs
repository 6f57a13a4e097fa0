//! Checks a signal must pass before it becomes a trade.
use crate::context::{AnalystConfig, PositionManager};
use crate::cost_evaluator::{
    cost_bound, cost_breakdown, costs_in_range, product_bound, CostEvaluator, TradeCost,
};
use crate::decimal::{decimal_product, iabs, max_units, one_units, units_of, Dec};
use crate::trading::{OrderSide, TradeProposal};
use vstd::prelude::*;

verus! {

/// Whether a signal passes the basic checks: no sell without a position (long
/// only), no second order in the direction of a pending one, and the cooldown
/// since the last acted-on signal has elapsed.
pub open spec fn signal_admitted(
    signal: OrderSide,
    manager: PositionManager,
    cooldown_seconds: u64,
    timestamp: i64,
    has_position: bool,
) -> bool {
    &&& !(signal == OrderSide::Sell && !has_position)
    &&& manager.pending_order != Some(signal)
    &&& timestamp - manager.last_signal_time >= cooldown_seconds * 1000
}

/// Signal and profitability checks.
#[derive(Clone, Copy, Debug)]
pub struct TradeFilter {
    cost_evaluator: CostEvaluator,
}

impl TradeFilter {
    pub closed spec fn spec_cost_evaluator(self) -> CostEvaluator {
        self.cost_evaluator
    }

    pub fn new(cost_evaluator: CostEvaluator) -> (r: Self)
        ensures
            r.spec_cost_evaluator() == cost_evaluator,
    {
        TradeFilter { cost_evaluator }
    }

    /// Long-only, pending-order and cooldown checks of a signal at `timestamp`
    /// (milliseconds).
    pub fn validate_signal(
        &self,
        signal: OrderSide,
        symbol: &str,
        manager: &PositionManager,
        config: &AnalystConfig,
        timestamp: i64,
        has_position: bool,
    ) -> (r: bool)
        ensures
            r == signal_admitted(
                signal,
                *manager,
                config.order_cooldown_seconds,
                timestamp,
                has_position,
            ),
    {
        if signal == OrderSide::Sell && !has_position {
            return false;
        }
        if let Some(pending) = manager.pending_order {
            if pending == signal {
                return false;
            }
        }
        let elapsed: i128 = timestamp as i128 - manager.last_signal_time as i128;
        let cooldown_ms: i128 = config.order_cooldown_seconds as i128 * 1000;
        elapsed >= cooldown_ms
    }

    /// The transaction costs of a proposal.
    pub fn evaluate_costs(&self, proposal: &TradeProposal) -> (r: TradeCost)
        requires
            costs_in_range(
                self.spec_cost_evaluator().spec_fee_model(),
                proposal.price,
                proposal.quantity,
                self.spec_cost_evaluator().spec_default_spread(),
            ),
        ensures
            (r.commission@, r.estimated_slippage@, r.spread_cost@, r.total_cost@) == cost_breakdown(
                self.spec_cost_evaluator().spec_fee_model(),
                proposal.symbol@,
                proposal.price@,
                proposal.quantity@,
                self.spec_cost_evaluator().spec_default_spread()@,
            ),
            iabs(r.total_cost.units()) <= cost_bound(
                self.spec_cost_evaluator().spec_fee_model(),
                proposal.price,
                proposal.quantity,
                self.spec_cost_evaluator().spec_default_spread(),
            ),
    {
        self.cost_evaluator.evaluate(proposal)
    }

    /// Expected profit of a proposal: `atr * profit_target_multiplier * quantity`.
    pub fn calculate_expected_profit(
        &self,
        proposal: &TradeProposal,
        atr: Dec,
        profit_target_multiplier: Dec,
    ) -> (r: Dec)
        requires
            iabs(atr.units() * profit_target_multiplier.units()) <= max_units() * one_units(),
            iabs(
                product_bound(atr.units(), profit_target_multiplier.units())
                    * proposal.quantity.units(),
            ) <= max_units() * one_units(),
        ensures
            r@ == decimal_product(
                decimal_product(atr@, profit_target_multiplier@),
                proposal.quantity@,
            ),
    {
        self.cost_evaluator.calculate_expected_profit(proposal, atr, profit_target_multiplier)
    }

    /// Whether the expected profit covers the costs `min_profit_ratio` times.
    pub fn validate_profitability(
        &self,
        proposal: &TradeProposal,
        expected_profit: Dec,
        total_cost: Dec,
        min_profit_ratio: Dec,
        symbol: &str,
    ) -> (r: bool)
        requires
            iabs(total_cost.units() * min_profit_ratio.units()) <= max_units() * one_units(),
        ensures
            r == (expected_profit.units() >= units_of(
                decimal_product(total_cost@, min_profit_ratio@),
            )),
    {
        let threshold = total_cost.mul(&min_profit_ratio);
        expected_profit.ge(&threshold)
    }
}

} // verus!
