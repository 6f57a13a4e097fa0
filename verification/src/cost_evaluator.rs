//! Transaction costs of a trade and cost-aware profitability checks.
use crate::decimal::{
    decimal_product, decimal_quotient, decimal_sum, iabs, lemma_pow10_28, max_mantissa, max_units,
    one_units, pow10, units_of, Dec,
};
use crate::text::str_contains_char;
use crate::trading::{OrderSide, TradeProposal};
use vstd::prelude::*;

verus! {

/// What a fee model charges for a trade.
#[derive(Clone, Copy, Debug)]
pub struct FeeEstimate {
    pub fee: Dec,
    pub slippage_cost: Dec,
}

/// A fee model with a fixed commission per share and slippage as a share of the
/// traded value.
#[derive(Clone, Copy, Debug)]
pub struct ConstantFeeModel {
    pub commission_per_share: Dec,
    pub slippage_pct: Dec,
}

/// An upper bound on the units of a product of decimals with these units.
pub open spec fn product_bound(u: int, v: int) -> int {
    (iabs(u * v) + one_units() * one_units()) / one_units() + 1
}

/// The commission: `quantity * commission_per_share`.
pub open spec fn fee_of(model: ConstantFeeModel, quantity: (int, nat)) -> (int, nat) {
    decimal_product(quantity, model.commission_per_share@)
}

/// The traded value: `price * quantity`.
pub open spec fn trade_value(price: (int, nat), quantity: (int, nat)) -> (int, nat) {
    decimal_product(price, quantity)
}

/// The slippage: `price * quantity * slippage_pct`.
pub open spec fn slippage_of(model: ConstantFeeModel, price: (int, nat), quantity: (int, nat)) -> (
    int,
    nat,
) {
    decimal_product(trade_value(price, quantity), model.slippage_pct@)
}

impl ConstantFeeModel {
    pub fn new(commission_per_share: Dec, slippage_pct: Dec) -> (r: Self)
        ensures
            r.commission_per_share == commission_per_share,
            r.slippage_pct == slippage_pct,
    {
        ConstantFeeModel { commission_per_share, slippage_pct }
    }

    /// The commission and the slippage of a trade of `quantity` at `price`.
    pub fn calculate_cost(&self, quantity: Dec, price: Dec, side: OrderSide) -> (r: FeeEstimate)
        requires
            iabs(quantity.units() * self.commission_per_share.units()) <= max_units()
                * one_units(),
            iabs(price.units() * quantity.units()) <= max_units() * one_units(),
            iabs(product_bound(price.units(), quantity.units()) * self.slippage_pct.units())
                <= max_units() * one_units(),
        ensures
            r.fee@ == fee_of(*self, quantity@),
            r.slippage_cost@ == slippage_of(*self, price@, quantity@),
            iabs(r.fee.units()) <= product_bound(
                quantity.units(),
                self.commission_per_share.units(),
            ),
            iabs(r.slippage_cost.units()) <= product_bound(
                product_bound(price.units(), quantity.units()),
                self.slippage_pct.units(),
            ),
    {
        let fee = quantity.mul(&self.commission_per_share);
        proof {
            lemma_product_bound(quantity.units(), self.commission_per_share.units(), fee.units());
        }
        let value = price.mul(&quantity);
        proof {
            lemma_product_bound(price.units(), quantity.units(), value.units());
            lemma_product_bound_mono(
                value.units(),
                product_bound(price.units(), quantity.units()),
                self.slippage_pct.units(),
            );
        }
        let slippage_cost = value.mul(&self.slippage_pct);
        proof {
            lemma_product_bound(value.units(), self.slippage_pct.units(), slippage_cost.units());
        }
        FeeEstimate { fee, slippage_cost }
    }
}

/// The bound on `|units|` of a product, from the accuracy `mul` guarantees.
pub(crate) proof fn lemma_product_bound(u: int, v: int, r: int)
    requires
        u * v - one_units() * one_units() <= r * one_units() <= u * v + one_units() * one_units(),
    ensures
        iabs(r) <= product_bound(u, v),
{
    let o = one_units();
    let q = (iabs(u * v) + o * o) / o;
    assert(iabs(r) * o <= iabs(u * v) + o * o) by (nonlinear_arith)
        requires
            u * v - o * o <= r * o <= u * v + o * o,
            o > 0,
    ;
    assert(iabs(u * v) + o * o < (q + 1) * o) by (nonlinear_arith)
        requires
            q == (iabs(u * v) + o * o) / o,
            o > 0,
    ;
    assert(iabs(r) < q + 1) by (nonlinear_arith)
        requires
            iabs(r) * o < (q + 1) * o,
            o > 0,
    ;
}

/// A larger first factor gives a larger bound.
proof fn lemma_product_bound_mono(u: int, big_u: int, v: int)
    requires
        iabs(u) <= big_u,
    ensures
        iabs(u * v) <= iabs(big_u * v),
        product_bound(u, v) <= product_bound(big_u, v),
{
    let o = one_units();
    assert(iabs(u * v) <= iabs(big_u * v)) by (nonlinear_arith)
        requires
            iabs(u) <= big_u,
    ;
    assert((iabs(u * v) + o * o) / o <= (iabs(big_u * v) + o * o) / o) by (nonlinear_arith)
        requires
            iabs(u * v) <= iabs(big_u * v),
            o > 0,
    ;
}

/// Breakdown of the transaction costs of a trade.
#[derive(Clone, Copy, Debug)]
pub struct TradeCost {
    /// Commission.
    pub commission: Dec,
    /// Estimated slippage (price impact).
    pub estimated_slippage: Dec,
    /// Estimated cost of crossing half the bid-ask spread.
    pub spread_cost: Dec,
    /// `commission + estimated_slippage + spread_cost`.
    pub total_cost: Dec,
}

/// The spread cap in basis points: 25 for crypto pairs (symbols with a `/`), 15
/// for stocks.
pub open spec fn max_spread_bps(symbol: Seq<char>) -> int {
    if symbol.contains('/') {
        25
    } else {
        15
    }
}

/// The spread used for a trade: the observed one (or the default), capped.
pub open spec fn effective_spread(symbol: Seq<char>, raw: (int, nat)) -> (int, nat) {
    if units_of(raw) > max_spread_bps(symbol) * one_units() {
        (max_spread_bps(symbol), 0)
    } else {
        raw
    }
}

/// The half-spread cost: `price * quantity * (spread / 2 / 10000)`.
pub open spec fn spread_cost_of(price: (int, nat), quantity: (int, nat), spread: (int, nat)) -> (
    int,
    nat,
) {
    decimal_product(
        trade_value(price, quantity),
        decimal_quotient(decimal_quotient(spread, (2, 0)), (10000, 0)),
    )
}

/// What [`CostEvaluator::evaluate`] computes for a trade, given the spread (in basis
/// points) before the cap.
pub open spec fn cost_breakdown(
    model: ConstantFeeModel,
    symbol: Seq<char>,
    price: (int, nat),
    quantity: (int, nat),
    raw_spread: (int, nat),
) -> ((int, nat), (int, nat), (int, nat), (int, nat)) {
    let commission = fee_of(model, quantity);
    let slippage = slippage_of(model, price, quantity);
    let spread = spread_cost_of(price, quantity, effective_spread(symbol, raw_spread));
    (commission, slippage, spread, decimal_sum(decimal_sum(commission, slippage), spread))
}

/// A magnitude below `b` keeps `|x * k|` below `b * |k|`.
pub(crate) proof fn lemma_scaled_within(x: int, b: int, k: int)
    requires
        iabs(x) <= b,
    ensures
        iabs(x * k) <= b * iabs(k),
{
    assert(iabs(x * k) == iabs(x) * iabs(k)) by (nonlinear_arith);
    assert(iabs(x) * iabs(k) <= b * iabs(k)) by (nonlinear_arith)
        requires
            iabs(x) <= b,
    ;
}

/// A bound on the magnitude of the total cost of a trade (in units).
pub open spec fn cost_bound(model: ConstantFeeModel, price: Dec, quantity: Dec, raw_spread: Dec) -> int {
    let o = one_units();
    let value = product_bound(price.units(), quantity.units());
    let rate = iabs(raw_spread.units()) + 27 * o;
    product_bound(quantity.units(), model.commission_per_share.units()) + product_bound(
        value,
        model.slippage_pct.units(),
    ) + product_bound(value, rate) + 2 * o
}

/// Inputs for which every step of the cost computation stays in the decimal range.
pub open spec fn costs_in_range(model: ConstantFeeModel, price: Dec, quantity: Dec, raw_spread: Dec) -> bool {
    let o = one_units();
    let value = product_bound(price.units(), quantity.units());
    let rate = iabs(raw_spread.units()) + 27 * o;
    &&& iabs(quantity.units() * model.commission_per_share.units()) <= max_units() * o
    &&& iabs(price.units() * quantity.units()) <= max_units() * o
    &&& iabs(value * model.slippage_pct.units()) <= max_units() * o
    &&& value * rate <= max_units() * o
    &&& product_bound(quantity.units(), model.commission_per_share.units()) + product_bound(
        value,
        model.slippage_pct.units(),
    ) + product_bound(value, rate) + 2 * o <= max_units()
}

/// Computes transaction costs and checks that trades stay profitable after them.
#[derive(Clone, Copy, Debug)]
pub struct CostEvaluator {
    fee_model: ConstantFeeModel,
    default_spread_bps: Dec,
}

impl CostEvaluator {
    pub closed spec fn spec_fee_model(self) -> ConstantFeeModel {
        self.fee_model
    }

    pub closed spec fn spec_default_spread(self) -> Dec {
        self.default_spread_bps
    }

    /// An evaluator charging `fee_model` and assuming a spread of `spread_bps`
    /// basis points.
    pub fn new(fee_model: ConstantFeeModel, spread_bps: Dec) -> (r: Self)
        ensures
            r.spec_fee_model() == fee_model,
            r.spec_default_spread() == spread_bps,
    {
        CostEvaluator { fee_model, default_spread_bps: spread_bps }
    }

    /// Costs of a trade at the default spread.
    pub fn evaluate(&self, proposal: &TradeProposal) -> (r: TradeCost)
        requires
            costs_in_range(
                self.spec_fee_model(),
                proposal.price,
                proposal.quantity,
                self.spec_default_spread(),
            ),
        ensures
            (r.commission@, r.estimated_slippage@, r.spread_cost@, r.total_cost@) == cost_breakdown(
                self.spec_fee_model(),
                proposal.symbol@,
                proposal.price@,
                proposal.quantity@,
                self.spec_default_spread()@,
            ),
            iabs(r.total_cost.units()) <= cost_bound(
                self.spec_fee_model(),
                proposal.price,
                proposal.quantity,
                self.spec_default_spread(),
            ),
    {
        self.evaluate_with_spread(proposal, None)
    }

    /// Costs of a trade, at the observed spread (in basis points) when one is known
    /// and at the default spread otherwise.
    pub fn evaluate_with_spread(&self, proposal: &TradeProposal, observed_spread_bps: Option<Dec>) -> (r:
        TradeCost)
        requires
            costs_in_range(
                self.spec_fee_model(),
                proposal.price,
                proposal.quantity,
                match observed_spread_bps {
                    Some(s) => s,
                    None => self.spec_default_spread(),
                },
            ),
        ensures
            (r.commission@, r.estimated_slippage@, r.spread_cost@, r.total_cost@) == cost_breakdown(
                self.spec_fee_model(),
                proposal.symbol@,
                proposal.price@,
                proposal.quantity@,
                match observed_spread_bps {
                    Some(s) => s@,
                    None => self.spec_default_spread()@,
                },
            ),
            iabs(r.total_cost.units()) <= cost_bound(
                self.spec_fee_model(),
                proposal.price,
                proposal.quantity,
                match observed_spread_bps {
                    Some(s) => s,
                    None => self.spec_default_spread(),
                },
            ),
    {
        let price = proposal.price;
        let quantity = proposal.quantity;
        let costs = self.fee_model.calculate_cost(quantity, price, proposal.side);
        let commission = costs.fee;
        let estimated_slippage = costs.slippage_cost;
        let is_crypto = str_contains_char(proposal.symbol.as_str(), '/');
        let max_spread = if is_crypto {
            Dec::from_int(25)
        } else {
            Dec::from_int(15)
        };
        let raw_spread = match observed_spread_bps {
            Some(s) => s,
            None => self.default_spread_bps,
        };
        let spread = if raw_spread.gt(&max_spread) {
            max_spread
        } else {
            raw_spread
        };
        spread.in_range();
        let two = Dec::from_int(2);
        proof {
            lemma_spread_division(spread.units(), 2);
        }
        let half = spread.div(&two);
        half.in_range();
        let ten_thousand = Dec::from_int(10000);
        proof {
            lemma_half_bound(spread.units(), half.units());
            lemma_spread_division(half.units(), 10000);
        }
        let rate = half.div(&ten_thousand);
        let value = price.mul(&quantity);
        let ghost o = one_units();
        let ghost vb = product_bound(price.units(), quantity.units());
        let ghost rb = iabs(raw_spread.units()) + 27 * o;
        proof {
            lemma_rate_bound(raw_spread.units(), spread.units(), half.units(), rate.units());
            lemma_product_bound(price.units(), quantity.units(), value.units());
            lemma_mul_fits(value.units(), rate.units(), vb, rb);
        }
        let spread_cost = value.mul(&rate);
        proof {
            lemma_product_bound(value.units(), rate.units(), spread_cost.units());
            lemma_product_bound_abs_mono(value.units(), rate.units(), vb, rb);
        }
        let partial = commission.add(&estimated_slippage);
        let total_cost = partial.add(&spread_cost);
        TradeCost { commission, estimated_slippage, spread_cost, total_cost }
    }

    /// Whether the expected profit covers the costs `min_profit_ratio` times over.
    pub fn is_profitable(
        &self,
        proposal: &TradeProposal,
        expected_profit: Dec,
        min_profit_ratio: Dec,
    ) -> (r: bool)
        requires
            costs_in_range(
                self.spec_fee_model(),
                proposal.price,
                proposal.quantity,
                self.spec_default_spread(),
            ),
            cost_bound(
                self.spec_fee_model(),
                proposal.price,
                proposal.quantity,
                self.spec_default_spread(),
            ) * iabs(min_profit_ratio.units()) <= max_units() * one_units(),
        ensures
            r == (expected_profit.units() >= units_of(
                decimal_product(
                    cost_breakdown(
                        self.spec_fee_model(),
                        proposal.symbol@,
                        proposal.price@,
                        proposal.quantity@,
                        self.spec_default_spread()@,
                    ).3,
                    min_profit_ratio@,
                ),
            )),
    {
        let costs = self.evaluate(proposal);
        proof {
            lemma_scaled_within(
                costs.total_cost.units(),
                cost_bound(
                    self.spec_fee_model(),
                    proposal.price,
                    proposal.quantity,
                    self.spec_default_spread(),
                ),
                min_profit_ratio.units(),
            );
        }
        let threshold = costs.total_cost.mul(&min_profit_ratio);
        expected_profit.ge(&threshold)
    }

    /// Expected profit of a trade: `atr * profit_target_multiplier * quantity`.
    pub fn calculate_expected_profit(
        &self,
        proposal: &TradeProposal,
        atr: Dec,
        profit_target_multiplier: Dec,
    ) -> (r: Dec)
        requires
            iabs(atr.units() * profit_target_multiplier.units()) <= max_units() * one_units(),
            iabs(
                product_bound(atr.units(), profit_target_multiplier.units())
                    * proposal.quantity.units(),
            ) <= max_units() * one_units(),
        ensures
            r@ == decimal_product(
                decimal_product(atr@, profit_target_multiplier@),
                proposal.quantity@,
            ),
    {
        let per_unit = atr.mul(&profit_target_multiplier);
        proof {
            lemma_product_bound(atr.units(), profit_target_multiplier.units(), per_unit.units());
            lemma_product_bound_mono(
                per_unit.units(),
                product_bound(atr.units(), profit_target_multiplier.units()),
                proposal.quantity.units(),
            );
        }
        per_unit.mul(&proposal.quantity)
    }

    /// The ratio of expected profit to total costs, or zero when the costs are not
    /// positive.
    pub fn get_profit_cost_ratio(&self, proposal: &TradeProposal, expected_profit: Dec) -> (r: Dec)
        requires
            costs_in_range(
                self.spec_fee_model(),
                proposal.price,
                proposal.quantity,
                self.spec_default_spread(),
            ),
            ({
                let total = units_of(
                    cost_breakdown(
                        self.spec_fee_model(),
                        proposal.symbol@,
                        proposal.price@,
                        proposal.quantity@,
                        self.spec_default_spread()@,
                    ).3,
                );
                total > 0 ==> iabs(expected_profit.units()) * one_units() <= max_units() * total
            }),
        ensures
            ({
                let total = cost_breakdown(
                    self.spec_fee_model(),
                    proposal.symbol@,
                    proposal.price@,
                    proposal.quantity@,
                    self.spec_default_spread()@,
                ).3;
                r@ == (if units_of(total) > 0 {
                    decimal_quotient(expected_profit@, total)
                } else {
                    (0, 0)
                })
            }),
    {
        let costs = self.evaluate(proposal);
        if costs.total_cost.le(&Dec::zero()) {
            return Dec::zero();
        }
        proof {
            assert(iabs(costs.total_cost.units()) == costs.total_cost.units());
            assert(iabs(expected_profit.units() * one_units()) == iabs(expected_profit.units())
                * one_units()) by (nonlinear_arith);
            assert((-max_units()) * costs.total_cost.units() == -(max_units()
                * costs.total_cost.units())) by (nonlinear_arith);
        }
        expected_profit.div(&costs.total_cost)
    }

    /// The profit-to-cost ratio when computing it stays within the decimal range
    /// (`None` when the expected profit is too large for the costs, where the
    /// division would overflow).
    pub fn profit_cost_ratio_checked(&self, proposal: &TradeProposal, expected_profit: Dec) -> (r:
        Option<Dec>)
        requires
            costs_in_range(
                self.spec_fee_model(),
                proposal.price,
                proposal.quantity,
                self.spec_default_spread(),
            ),
        ensures
            ({
                let total = cost_breakdown(
                    self.spec_fee_model(),
                    proposal.symbol@,
                    proposal.price@,
                    proposal.quantity@,
                    self.spec_default_spread()@,
                ).3;
                &&& r is None ==> units_of(total) > 0 && iabs(expected_profit.units()) + 4
                    * one_units() > units_of(total) * max_mantissa()
                &&& r matches Some(q) ==> q@ == (if units_of(total) > 0 {
                    decimal_quotient(expected_profit@, total)
                } else {
                    (0, 0)
                })
            }),
    {
        let costs = self.evaluate(proposal);
        let zero = Dec::zero();
        if costs.total_cost.le(&zero) {
            return Some(zero);
        }
        let one = Dec::from_int(1);
        let magnitude = expected_profit.abs();
        expected_profit.in_range();
        if costs.total_cost.ge(&one) {
            proof {
                lemma_pow10_28();
                lemma_ratio_fits(expected_profit.units(), costs.total_cost.units());
            }
            return Some(self.get_profit_cost_ratio(proposal, expected_profit));
        }
        let largest = match Dec::from_parts(0xFFFF_FFFF_FFFF_FFFF_FFFF_FFFF, 0) {
            Some(d) => d,
            None => {
                return None;
            },
        };
        proof {
            lemma_pow10_28();
            lemma_cap_in_range(costs.total_cost.units());
        }
        let cap = costs.total_cost.mul(&largest);
        proof {
            lemma_cap_bound(costs.total_cost.units(), cap.units());
        }
        let two = Dec::from_int(2);
        let limit = cap.sub(&two);
        if magnitude.le(&limit) {
            proof {
                lemma_margin_ratio_fits(expected_profit.units(), costs.total_cost.units(), cap.units());
            }
            Some(self.get_profit_cost_ratio(proposal, expected_profit))
        } else {
            proof {
                lemma_margin_exceeds(expected_profit.units(), costs.total_cost.units(), cap.units());
            }
            None
        }
    }
}

proof fn lemma_ratio_fits(e: int, t: int)
    requires
        -max_units() <= e <= max_units(),
        t >= one_units(),
    ensures
        iabs(e) * one_units() <= max_units() * t,
{
    let o = one_units();
    assert(iabs(e) * o <= max_units() * o) by (nonlinear_arith)
        requires
            iabs(e) <= max_units(),
            o > 0,
    ;
    assert(max_units() * o <= max_units() * t) by (nonlinear_arith)
        requires
            o <= t,
            max_units() > 0,
    ;
}

proof fn lemma_cap_in_range(t: int)
    requires
        0 < t < one_units(),
    ensures
        -max_units() * one_units() <= t * max_units() <= max_units() * one_units(),
{
    let o = one_units();
    assert(t * max_units() <= max_units() * o) by (nonlinear_arith)
        requires
            0 < t < o,
            max_units() > 0,
    ;
    assert(t * max_units() >= 0) by (nonlinear_arith)
        requires
            t > 0,
            max_units() > 0,
    ;
    assert(-max_units() * o <= 0) by (nonlinear_arith)
        requires
            o > 0,
            max_units() > 0,
    ;
}

proof fn lemma_cap_bound(t: int, c: int)
    requires
        0 < t < one_units(),
        t * max_units() - one_units() * one_units() <= c * one_units() <= t * max_units()
            + one_units() * one_units(),
    ensures
        c * one_units() <= t * max_units() + one_units() * one_units(),
        t * max_units() - one_units() * one_units() <= c * one_units(),
        -max_units() <= c - 2 * one_units() <= max_units(),
{
    let o = one_units();
    let m = max_units();
    assert(t * m < o * m) by (nonlinear_arith)
        requires
            0 < t < o,
            m > 0,
    ;
    assert(t * m > 0) by (nonlinear_arith)
        requires
            t > 0,
            m > 0,
    ;
    assert(c < m + o) by (nonlinear_arith)
        requires
            c * o <= t * m + o * o,
            t * m < o * m,
            o > 0,
    ;
    assert(c > -o) by (nonlinear_arith)
        requires
            t * m - o * o <= c * o,
            t * m > 0,
            o > 0,
    ;
}

proof fn lemma_margin_ratio_fits(e: int, t: int, c: int)
    requires
        t > 0,
        iabs(e) + one_units() <= c,
        c * one_units() <= t * max_units() + one_units() * one_units(),
    ensures
        iabs(e) * one_units() <= max_units() * t,
{
    let o = one_units();
    assert((iabs(e) + o) * o <= c * o) by (nonlinear_arith)
        requires
            iabs(e) + o <= c,
            o > 0,
    ;
    assert(iabs(e) * o + o * o <= t * max_units() + o * o) by (nonlinear_arith)
        requires
            (iabs(e) + o) * o <= c * o,
            c * o <= t * max_units() + o * o,
    ;
    assert(t * max_units() == max_units() * t) by (nonlinear_arith);
}

proof fn lemma_margin_exceeds(e: int, t: int, c: int)
    requires
        t > 0,
        c < iabs(e) + 3 * one_units(),
        t * max_units() - one_units() * one_units() <= c * one_units(),
    ensures
        iabs(e) + 4 * one_units() > t * max_mantissa(),
{
    let o = one_units();
    let m = max_mantissa();
    assert(c * o < (iabs(e) + 3 * o) * o) by (nonlinear_arith)
        requires
            c < iabs(e) + 3 * o,
            o > 0,
    ;
    assert(t * max_units() == (t * m) * o) by (nonlinear_arith)
        requires
            max_units() == m * o,
    ;
    assert((iabs(e) + 3 * o) * o + o * o == (iabs(e) + 4 * o) * o) by (nonlinear_arith);
    assert(t * m < iabs(e) + 4 * o) by (nonlinear_arith)
        requires
            (t * m) * o < (iabs(e) + 4 * o) * o,
            o > 0,
    ;
}

impl Default for CostEvaluator {
    /// $0.005 commission per share, 0.1% slippage and a 5 basis point spread.
    fn default() -> (r: Self)
        ensures
            r.spec_fee_model().commission_per_share@ == (5int, 3nat),
            r.spec_fee_model().slippage_pct@ == (1int, 3nat),
            r.spec_default_spread()@ == (5int, 0nat),
    {
        CostEvaluator::new(
            ConstantFeeModel::new(Dec::new(5, 3), Dec::new(1, 3)),
            Dec::from_int(5),
        )
    }
}

proof fn lemma_spread_division(s: int, d: int)
    requires
        -max_units() <= s <= max_units(),
        d >= 1,
    ensures
        -max_units() * iabs(d * one_units()) <= s * one_units() <= max_units() * iabs(
            d * one_units(),
        ),
        d * one_units() > 0,
{
    let o = one_units();
    let m = max_units();
    assert(d * o >= o) by (nonlinear_arith)
        requires
            d >= 1,
            o > 0,
    ;
    assert(iabs(s) * o <= m * (d * o)) by (nonlinear_arith)
        requires
            iabs(s) <= m,
            d * o >= o,
            o > 0,
    ;
    assert(iabs(s * o) == iabs(s) * o) by (nonlinear_arith)
        requires
            o > 0,
    ;
    assert(iabs(d * o) == d * o);
    assert((-m) * (d * o) == -(m * (d * o))) by (nonlinear_arith);
}

proof fn lemma_half_bound(s: int, h: int)
    requires
        iabs(h * (2 * one_units()) - s * one_units()) <= one_units() * iabs(2 * one_units()),
    ensures
        iabs(h) <= iabs(s) + one_units(),
{
    let o = one_units();
    assert(iabs(2 * o) == 2 * o);
    assert(iabs(h) * (2 * o) <= (iabs(s) + 2 * o) * o) by (nonlinear_arith)
        requires
            iabs(h * (2 * o) - s * o) <= o * (2 * o),
            o > 0,
    ;
    assert(iabs(h) <= iabs(s) + o) by (nonlinear_arith)
        requires
            iabs(h) * (2 * o) <= (iabs(s) + 2 * o) * o,
            o > 0,
    ;
}

proof fn lemma_rate_bound(raw: int, s: int, h: int, x: int)
    requires
        iabs(s) <= iabs(raw) + 25 * one_units(),
        iabs(h) <= iabs(s) + one_units(),
        iabs(x * (10000 * one_units()) - h * one_units()) <= one_units() * iabs(
            10000 * one_units(),
        ),
    ensures
        iabs(x) <= iabs(raw) + 27 * one_units(),
{
    let o = one_units();
    assert(iabs(10000 * o) == 10000 * o);
    assert(iabs(x) * (10000 * o) <= (iabs(h) + 10000 * o) * o) by (nonlinear_arith)
        requires
            iabs(x * (10000 * o) - h * o) <= o * (10000 * o),
            o > 0,
    ;
    assert(iabs(x) <= iabs(h) + o) by (nonlinear_arith)
        requires
            iabs(x) * (10000 * o) <= (iabs(h) + 10000 * o) * o,
            o > 0,
    ;
}

proof fn lemma_mul_fits(u: int, v: int, big_u: int, big_v: int)
    requires
        iabs(u) <= big_u,
        iabs(v) <= big_v,
        big_u * big_v <= max_units() * one_units(),
    ensures
        -max_units() * one_units() <= u * v <= max_units() * one_units(),
{
    assert(iabs(u * v) <= big_u * big_v) by (nonlinear_arith)
        requires
            iabs(u) <= big_u,
            iabs(v) <= big_v,
    ;
}

proof fn lemma_product_bound_abs_mono(u: int, v: int, big_u: int, big_v: int)
    requires
        iabs(u) <= big_u,
        iabs(v) <= big_v,
    ensures
        product_bound(u, v) <= product_bound(big_u, big_v),
{
    let o = one_units();
    assert(iabs(u * v) <= iabs(big_u * big_v)) by (nonlinear_arith)
        requires
            iabs(u) <= big_u,
            iabs(v) <= big_v,
    ;
    assert((iabs(u * v) + o * o) / o <= (iabs(big_u * big_v) + o * o) / o) by (nonlinear_arith)
        requires
            iabs(u * v) <= iabs(big_u * big_v),
            o > 0,
    ;
}

/// Law: profitability is judged against the evaluated cost. For the cost that
/// `evaluate` gives a proposal, the verdict of `is_profitable` on that proposal is
/// whether the expected profit reaches the evaluated total cost times the ratio.
pub proof fn lemma_profitable_against_evaluated_cost(
    evaluator: CostEvaluator,
    proposal: TradeProposal,
    cost: TradeCost,
    expected_profit: Dec,
    min_profit_ratio: Dec,
)
    requires
        (cost.commission@, cost.estimated_slippage@, cost.spread_cost@, cost.total_cost@)
            == cost_breakdown(
            evaluator.spec_fee_model(),
            proposal.symbol@,
            proposal.price@,
            proposal.quantity@,
            evaluator.spec_default_spread()@,
        ),
    ensures
        (expected_profit.units() >= units_of(
            decimal_product(
                cost_breakdown(
                    evaluator.spec_fee_model(),
                    proposal.symbol@,
                    proposal.price@,
                    proposal.quantity@,
                    evaluator.spec_default_spread()@,
                ).3,
                min_profit_ratio@,
            ),
        )) == (expected_profit.units() >= units_of(
            decimal_product(cost.total_cost@, min_profit_ratio@),
        )),
{
}

} // verus!
