//! Signal filtering, position sizing and trade proposals.
use crate::context::{AnalystConfig, Signal, SymbolContext};
use crate::metrics::{calculate_total_value, equity_bound, portfolio_value, price_views, value_in_range};
use crate::decimal::{
    decimal_difference, decimal_product, decimal_quotient, decimal_round_dp, decimal_text, iabs,
    lemma_pow10_28, max_units, one_units, opt_view, pow10, units_of, Dec,
};
use crate::trading::{
    find_position, first_position_index, holds_symbol, OrderSide, OrderType, Portfolio, Position,
    TradeProposal,
};
use std::sync::Arc;
use vstd::prelude::*;
use vstd::string::StringExecFns;

verus! {

/// The inputs of risk-based position sizing.
#[derive(Clone, Copy, Debug)]
pub struct SizingConfig {
    /// Share of equity allocated to one trade (0 or less: use the static quantity).
    pub risk_per_trade_percent: Dec,
    /// Number of equal buckets the equity is split into (0: no bucket cap).
    pub max_positions: u64,
    /// Hard cap on one position as a share of equity (0 or less: no cap).
    pub max_position_size_pct: Dec,
    /// The quantity used when no risk-based size applies.
    pub static_trade_quantity: Dec,
}

/// The amount allocated to one trade: `equity * risk`, capped by the bucket
/// `equity / max_positions` and by `equity * max_position_size_pct`.
pub open spec fn sizing_target(config: SizingConfig, equity: (int, nat)) -> (int, nat) {
    let base = decimal_product(equity, config.risk_per_trade_percent@);
    let bucket = decimal_quotient(equity, (config.max_positions as int, 0nat));
    let after_bucket = if config.max_positions > 0 && units_of(bucket) < units_of(base) {
        bucket
    } else {
        base
    };
    let cap = decimal_product(equity, config.max_position_size_pct@);
    if config.max_position_size_pct.units() > 0 && units_of(cap) < units_of(after_bucket) {
        cap
    } else {
        after_bucket
    }
}

/// Position sizing never allocates more than the risk share of the equity, nor
/// more than one bucket `equity / max_positions` when positions are capped, nor
/// more than `equity * max_position_size_pct` when that cap is set.
pub proof fn lemma_sizing_respects_caps(config: SizingConfig, equity: (int, nat))
    ensures
        units_of(sizing_target(config, equity)) <= units_of(
            decimal_product(equity, config.risk_per_trade_percent@),
        ),
        config.max_positions > 0 ==> units_of(sizing_target(config, equity)) <= units_of(
            decimal_quotient(equity, (config.max_positions as int, 0nat)),
        ),
        config.max_position_size_pct.units() > 0 ==> units_of(sizing_target(config, equity))
            <= units_of(decimal_product(equity, config.max_position_size_pct@)),
{
}

/// Whether risk-based sizing applies.
pub open spec fn uses_risk_sizing(config: SizingConfig, equity: Option<(int, nat)>, price: Dec) -> bool {
    config.risk_per_trade_percent.units() > 0 && equity is Some && units_of(equity->0) > 0
        && price.units() > 0
}

/// The quantity a trade gets: the static quantity, or the target amount divided
/// by the price and rounded to 4 decimal places.
pub open spec fn sized_quantity(config: SizingConfig, equity: Option<(int, nat)>, price: Dec) -> (
    int,
    nat,
) {
    if uses_risk_sizing(config, equity, price) {
        decimal_round_dp(decimal_quotient(sizing_target(config, equity->0), price@), 4)
    } else {
        config.static_trade_quantity@
    }
}

/// Whether every step of risk-based sizing stays in the decimal range for an
/// equity of magnitude `e` (in units): the allocation `e * max(risk,
/// max_position_size_pct)` and its quotient by the price.
pub open spec fn allocation_in_range(config: SizingConfig, e: int, price: Dec) -> bool {
    let k = iabs(config.risk_per_trade_percent.units()) + iabs(
        config.max_position_size_pct.units(),
    );
    &&& e * k <= max_units() * one_units()
    &&& (e * k + one_units() * one_units()) <= max_units() * price.units()
}

/// Inputs for which every step of risk-based sizing stays in the decimal range.
pub open spec fn sizing_in_range(config: SizingConfig, equity: Dec, price: Dec) -> bool {
    allocation_in_range(config, iabs(equity.units()), price)
}

/// A smaller equity magnitude keeps sizing in range.
proof fn lemma_allocation_in_range_mono(config: SizingConfig, e: int, big_e: int, price: Dec)
    requires
        0 <= e <= big_e,
        allocation_in_range(config, big_e, price),
    ensures
        allocation_in_range(config, e, price),
{
    let k = iabs(config.risk_per_trade_percent.units()) + iabs(
        config.max_position_size_pct.units(),
    );
    assert(e * k <= big_e * k) by (nonlinear_arith)
        requires
            0 <= e <= big_e,
            k >= 0,
    ;
}

/// Position sizing by risk allocation.
#[derive(Debug)]
pub struct SizingEngine {}

impl SizingEngine {
    pub fn new() -> (r: Self) {
        SizingEngine {  }
    }

    /// The quantity to trade at `price` given the account's total equity (`None`
    /// when the portfolio could not be read, which selects the static quantity).
    pub fn calculate_quantity(&self, config: &SizingConfig, total_equity: Option<Dec>, price: Dec) -> (r:
        Dec)
        requires
            uses_risk_sizing(*config, opt_view(total_equity), price) ==> sizing_in_range(
                *config,
                total_equity->0,
                price,
            ),
        ensures
            r@ == sized_quantity(*config, opt_view(total_equity), price),
    {
        let zero = Dec::zero();
        if !config.risk_per_trade_percent.gt(&zero) {
            return config.static_trade_quantity;
        }
        let equity = match total_equity {
            Some(e) => e,
            None => {
                return config.static_trade_quantity;
            },
        };
        if !(equity.gt(&zero) && price.gt(&zero)) {
            return config.static_trade_quantity;
        }
        let ghost e = equity.units();
        let ghost k = iabs(config.risk_per_trade_percent.units()) + iabs(
            config.max_position_size_pct.units(),
        );
        equity.in_range();
        proof {
            lemma_product_le(e, config.risk_per_trade_percent.units(), k);
        }
        let base = equity.mul(&config.risk_per_trade_percent);
        proof {
            lemma_allocation_bounds(e, config.risk_per_trade_percent.units(), k, base.units());
        }
        let mut target = base;
        if config.max_positions > 0 {
            let positions = Dec::from_u64(config.max_positions);
            proof {
                lemma_bucket_in_range(e, config.max_positions as int);
            }
            let bucket = equity.div(&positions);
            proof {
                lemma_bucket_lower(e, config.max_positions as int, bucket.units());
            }
            target = target.min(&bucket);
        }
        if config.max_position_size_pct.gt(&zero) {
            proof {
                lemma_product_le(e, config.max_position_size_pct.units(), k);
            }
            let cap = equity.mul(&config.max_position_size_pct);
            proof {
                lemma_allocation_bounds(e, config.max_position_size_pct.units(), k, cap.units());
            }
            target = target.min(&cap);
        }
        proof {
            lemma_target_in_range(e, k, target.units(), price.units());
        }
        let quantity = target.div(&price);
        quantity.round_dp(4)
    }
}

proof fn lemma_product_le(e: int, x: int, k: int)
    requires
        e > 0,
        iabs(x) <= k,
    ensures
        iabs(e * x) <= e * k,
{
    assert(iabs(e * x) <= e * k) by (nonlinear_arith)
        requires
            e > 0,
            iabs(x) <= k,
    ;
}

proof fn lemma_bucket_in_range(e: int, n: int)
    requires
        0 < e <= max_units(),
        n >= 1,
    ensures
        -max_units() * iabs(n * one_units()) <= e * one_units() <= max_units() * iabs(
            n * one_units(),
        ),
{
    let o = one_units();
    let m = max_units();
    let big_n = n * o;
    assert(big_n >= o) by (nonlinear_arith)
        requires
            big_n == n * o,
            n >= 1,
            o > 0,
    ;
    assert((-m) * big_n == -(m * big_n)) by (nonlinear_arith);
    assert(e * o <= m * o) by (nonlinear_arith)
        requires
            e <= m,
            o > 0,
    ;
    assert(m * o <= m * big_n) by (nonlinear_arith)
        requires
            o <= big_n,
            m > 0,
    ;
    assert(e * o > 0) by (nonlinear_arith)
        requires
            e > 0,
            o > 0,
    ;
    assert(m * big_n > 0) by (nonlinear_arith)
        requires
            big_n > 0,
            m > 0,
    ;
    assert(iabs(big_n) == big_n);
}

proof fn lemma_allocation_bounds(e: int, x: int, k: int, b: int)
    requires
        e > 0,
        0 < x <= k,
        e * x - one_units() * one_units() <= b * one_units() <= e * x + one_units() * one_units(),
    ensures
        -one_units() <= b,
        b * one_units() <= e * k + one_units() * one_units(),
{
    let o = one_units();
    assert(e * x > 0 && e * x <= e * k) by (nonlinear_arith)
        requires
            e > 0,
            0 < x <= k,
    ;
    assert(-o <= b) by (nonlinear_arith)
        requires
            b * o > -(o * o),
            o > 0,
    ;
}

proof fn lemma_bucket_lower(e: int, n: int, q: int)
    requires
        e > 0,
        n >= 1,
        iabs(q * (n * one_units()) - e * one_units()) <= one_units() * iabs(n * one_units()),
    ensures
        -one_units() <= q,
{
    let o = one_units();
    assert(n * o > 0) by (nonlinear_arith)
        requires
            n >= 1,
            o > 0,
    ;
    assert(e * o > 0) by (nonlinear_arith)
        requires
            e > 0,
            o > 0,
    ;
    assert(q * (n * o) > -(o * (n * o))) by (nonlinear_arith)
        requires
            iabs(q * (n * o) - e * o) <= o * (n * o),
            e * o > 0,
            n * o > 0,
    ;
    assert(-o <= q) by (nonlinear_arith)
        requires
            q * (n * o) > -(o * (n * o)),
            n * o > 0,
    ;
}

proof fn lemma_target_in_range(e: int, k: int, t: int, p: int)
    requires
        p > 0,
        e * k >= 0,
        e * k + one_units() * one_units() <= max_units() * p,
        -one_units() <= t,
        t * one_units() <= e * k + one_units() * one_units(),
    ensures
        -max_units() * iabs(p) <= t * one_units() <= max_units() * iabs(p),
{
    let o = one_units();
    let m = max_units();
    assert(-(o * o) <= t * o) by (nonlinear_arith)
        requires
            -o <= t,
            o > 0,
    ;
    assert(o * o > 0) by (nonlinear_arith)
        requires
            o > 0,
    ;
    assert(iabs(p) == p);
    assert((-m) * p == -(m * p)) by (nonlinear_arith);
    assert(-(m * p) <= t * o);
    assert(t * o <= m * p);
}

/// The sizing inputs of an analyst configuration.
pub open spec fn spec_sizing_config(config: AnalystConfig) -> SizingConfig {
    SizingConfig {
        risk_per_trade_percent: config.risk_per_trade_percent,
        max_positions: config.max_positions,
        max_position_size_pct: config.max_position_size_pct,
        static_trade_quantity: config.trade_quantity,
    }
}

/// The sizing inputs of an analyst configuration.
pub fn sizing_config_of(config: &AnalystConfig) -> (r: SizingConfig)
    ensures
        r == spec_sizing_config(*config),
{
    SizingConfig {
        risk_per_trade_percent: config.risk_per_trade_percent,
        max_positions: config.max_positions,
        max_position_size_pct: config.max_position_size_pct,
        static_trade_quantity: config.trade_quantity,
    }
}

/// The size of a buy: zero without a readable portfolio, else the sized
/// quantity for the portfolio's total value with `symbol` at `price`.
pub open spec fn trade_quantity_for(
    config: AnalystConfig,
    portfolio: Option<&Portfolio>,
    symbol: Seq<char>,
    price: Dec,
) -> (int, nat) {
    match portfolio {
        None => (0, 0),
        Some(p) => sized_quantity(
            spec_sizing_config(config),
            Some(portfolio_value(*p, seq![(symbol, price)])),
            price,
        ),
    }
}

/// Portfolios and prices for which sizing a buy stays within the decimal range.
pub open spec fn quantity_in_range(
    config: AnalystConfig,
    portfolio: Option<&Portfolio>,
    symbol: Seq<char>,
    price: Dec,
) -> bool {
    portfolio matches Some(p) ==> {
        &&& value_in_range(*p, seq![(symbol, price)])
        &&& (config.risk_per_trade_percent.units() > 0 && price.units() > 0) ==> allocation_in_range(
            spec_sizing_config(config),
            equity_bound(*p, seq![(symbol, price)]) + one_units(),
            price,
        )
    }
}

/// The quantity of the proposal for a signal: for a sell, the held quantity of
/// the symbol (none without a position or a readable portfolio); for a buy,
/// the sized quantity.
pub open spec fn proposal_quantity(
    config: AnalystConfig,
    portfolio: Option<&Portfolio>,
    symbol: Seq<char>,
    side: OrderSide,
    price: Dec,
) -> Option<(int, nat)> {
    match side {
        OrderSide::Buy => Some(trade_quantity_for(config, portfolio, symbol, price)),
        OrderSide::Sell => match portfolio {
            Some(p) => if holds_symbol(p.positions@, symbol) {
                Some(p.positions@[first_position_index(p.positions@, symbol)].quantity@)
            } else {
                None
            },
            None => None,
        },
    }
}

/// Generates, filters and turns trading signals into proposals.
pub struct SignalProcessor {
    sizing_engine: Arc<SizingEngine>,
}

/// What the RSI filter lets through: a buy is blocked while the RSI is above the
/// threshold; every other signal passes unchanged.
pub open spec fn rsi_blocks(signal: Option<Signal>, context: SymbolContext) -> bool {
    &&& signal matches Some(s) && s.side == OrderSide::Buy
    &&& context.last_features.rsi matches Some(rsi) && rsi.units()
        > context.config.rsi_threshold.units()
}

/// Whether a sell signal gives way to an active trailing stop that has not fired.
pub open spec fn trailing_stop_suppresses(
    signal: Option<Signal>,
    context: SymbolContext,
    trailing_stop_triggered: bool,
) -> bool {
    &&& signal matches Some(s) && s.side == OrderSide::Sell
    &&& context.position_manager.trailing_stop is ActiveStop
    &&& !trailing_stop_triggered
}

/// The gain of `price` over `average` as a ratio (zero for a non-positive average).
pub open spec fn gain_ratio(price: Dec, average: Dec) -> (int, nat) {
    if average.units() > 0 {
        decimal_quotient(decimal_difference(price@, average@), average@)
    } else {
        (0, 0)
    }
}

/// Inputs for which the gain ratio and its percentage stay in the decimal range.
pub open spec fn gain_in_range(price: Dec, average: Dec) -> bool {
    average.units() > 0 ==> {
        let d = iabs(price.units() - average.units()) + one_units();
        &&& -max_units() <= price.units() - average.units() <= max_units()
        &&& 100 * (d * one_units() + one_units() * average.units()) <= max_units()
            * average.units()
    }
}

/// The text of the partial take-profit reason for a gain ratio.
pub open spec fn take_profit_reason(gain: (int, nat)) -> Seq<char> {
    "Partial Take-Profit (+"@ + decimal_text(decimal_product(gain, (1000, 1))) + "%)"@
}

impl SignalProcessor {
    pub closed spec fn spec_sizing_engine(self) -> SizingEngine {
        *self.sizing_engine
    }

    pub fn new(sizing_engine: Arc<SizingEngine>) -> (r: Self)
        ensures
            r.spec_sizing_engine() == *sizing_engine,
    {
        SignalProcessor { sizing_engine }
    }

    /// The sizing engine this processor uses.
    pub fn sizing_engine(&self) -> (r: &SizingEngine)
        ensures
            *r == self.spec_sizing_engine(),
    {
        &self.sizing_engine
    }

    /// The quantity to buy at `price`: the sizing engine's answer for the
    /// portfolio's total equity (its positions valued at `price` for `symbol`
    /// and at their average price otherwise); zero when the portfolio could not
    /// be read (`None`).
    pub fn calculate_trade_quantity(
        &self,
        config: &AnalystConfig,
        portfolio: Option<&Portfolio>,
        symbol: &str,
        price: Dec,
    ) -> (r: Dec)
        requires
            quantity_in_range(*config, portfolio, symbol@, price),
        ensures
            r@ == trade_quantity_for(*config, portfolio, symbol@, price),
    {
        let p = match portfolio {
            Some(p) => p,
            None => {
                return Dec::zero();
            },
        };
        let mut prices: Vec<(String, Dec)> = Vec::new();
        prices.push((symbol.to_string(), price));
        proof {
            assert(price_views(prices@) =~= seq![(symbol@, price)]);
        }
        let total_equity = calculate_total_value(p, &prices);
        let sizing = sizing_config_of(config);
        proof {
            if uses_risk_sizing(sizing, Some(total_equity@), price) {
                lemma_allocation_in_range_mono(
                    sizing,
                    iabs(total_equity.units()),
                    equity_bound(*p, seq![(symbol@, price)]) + one_units(),
                    price,
                );
            }
        }
        self.sizing_engine.calculate_quantity(&sizing, Some(total_equity), price)
    }

    /// The proposal for a signal: a sell sells the whole held quantity (none
    /// without a positive position or a readable portfolio); a buy gets the
    /// size from `calculate_trade_quantity`. No proposal for a quantity of zero
    /// or less. Proposals are market orders carrying the signal's reason, stop
    /// loss and take profit.
    pub fn build_proposal(
        &self,
        config: &AnalystConfig,
        portfolio: Option<&Portfolio>,
        symbol: String,
        signal: Signal,
        price: Dec,
        timestamp: i64,
    ) -> (r: Option<TradeProposal>)
        requires
            signal.side == OrderSide::Buy ==> quantity_in_range(*config, portfolio, symbol@, price),
        ensures
            r is Some <==> (match proposal_quantity(*config, portfolio, symbol@, signal.side, price) {
                Some(q) => units_of(q) > 0,
                None => false,
            }),
            r matches Some(p) ==> {
                &&& Some(p.quantity@) == proposal_quantity(
                    *config,
                    portfolio,
                    symbol@,
                    signal.side,
                    price,
                )
                &&& p.symbol@ == symbol@
                &&& p.side == signal.side
                &&& p.price == price
                &&& p.order_type == OrderType::Market
                &&& p.reason@ == signal.reason@
                &&& p.timestamp == timestamp
                &&& p.stop_loss == signal.suggested_stop_loss
                &&& p.take_profit == signal.suggested_take_profit
            },
    {
        let quantity = match signal.side {
            OrderSide::Sell => {
                let p = match portfolio {
                    Some(p) => p,
                    None => {
                        return None;
                    },
                };
                match find_position(&p.positions, symbol.as_str()) {
                    Some(i) => {
                        if p.positions[i].quantity.gt(&Dec::zero()) {
                            p.positions[i].quantity
                        } else {
                            return None;
                        }
                    },
                    None => {
                        return None;
                    },
                }
            },
            OrderSide::Buy => self.calculate_trade_quantity(config, portfolio, symbol.as_str(), price),
        };
        if !quantity.gt(&Dec::zero()) {
            return None;
        }
        Some(
            TradeProposal {
                symbol,
                side: signal.side,
                price,
                quantity,
                order_type: OrderType::Market,
                reason: signal.reason,
                timestamp,
                stop_loss: signal.suggested_stop_loss,
                take_profit: signal.suggested_take_profit,
            },
        )
    }

    /// Block buy signals while the RSI is above the configured threshold.
    pub fn apply_rsi_filter(signal: Option<Signal>, context: &SymbolContext, symbol: &str) -> (r:
        Option<Signal>)
        ensures
            r == (if rsi_blocks(signal, *context) {
                None
            } else {
                signal
            }),
    {
        if let Some(s) = &signal {
            if s.side == OrderSide::Buy {
                if let Some(rsi) = context.last_features.rsi {
                    if rsi.gt(&context.config.rsi_threshold) {
                        return None;
                    }
                }
            }
        }
        signal
    }

    /// Suppress sell signals while a trailing stop manages the exit, unless the
    /// stop itself fired.
    pub fn suppress_sell_if_trailing_stop(
        signal: Option<Signal>,
        context: &SymbolContext,
        symbol: &str,
        trailing_stop_triggered: bool,
    ) -> (r: Option<Signal>)
        ensures
            r == (if trailing_stop_suppresses(signal, *context, trailing_stop_triggered) {
                None
            } else {
                signal
            }),
    {
        if let Some(s) = &signal {
            if s.side == OrderSide::Sell {
                if context.position_manager.trailing_stop.is_active() && !trailing_stop_triggered {
                    return None;
                }
            }
        }
        signal
    }

    /// A sell of half the position (rounded to 4 places) once the gain over the
    /// average price reaches the take-profit ratio, unless partial profit was
    /// already taken. `portfolio_positions` is `None` when no portfolio is known.
    #[verifier::rlimit(40)]
    pub fn check_partial_take_profit(
        context: &SymbolContext,
        symbol: &str,
        current_price: Dec,
        timestamp: i64,
        portfolio_positions: Option<&Vec<Position>>,
    ) -> (r: Option<TradeProposal>)
        requires
            portfolio_positions matches Some(ps) ==> forall|i: int|
                0 <= i < ps.len() ==> gain_in_range(current_price, (#[trigger] ps@[i]).average_price),
        ensures
            (context.taken_profit || portfolio_positions is None || !holds_symbol(
                portfolio_positions->0@,
                symbol@,
            )) ==> r is None,
            r is Some ==> !context.taken_profit && portfolio_positions is Some,
            portfolio_positions matches Some(ps) ==> !context.taken_profit ==> ({
                let pos = ps@[first_position_index(ps@, symbol@)];
                let gain = gain_ratio(current_price, pos.average_price);
                let qty = decimal_round_dp(decimal_product(pos.quantity@, (5, 1)), 4);
                holds_symbol(ps@, symbol@) ==> (if pos.quantity.units() > 0 && units_of(gain)
                    >= context.config.take_profit_pct.units() && units_of(qty) > 0 {
                    r matches Some(p) && p.symbol@ == symbol@ && p.side == OrderSide::Sell
                        && p.price == current_price && p.quantity@ == qty && p.order_type
                        == OrderType::Market && p.reason@ == take_profit_reason(gain)
                        && p.timestamp == timestamp && p.stop_loss is None && p.take_profit is None
                } else {
                    r is None
                })
            }),
    {
        if context.taken_profit {
            return None;
        }
        let positions = match portfolio_positions {
            Some(ps) => ps,
            None => {
                return None;
            },
        };
        let idx = match find_position(positions, symbol) {
            Some(i) => i,
            None => {
                return None;
            },
        };
        let pos = &positions[idx];
        let zero = Dec::zero();
        if pos.quantity.le(&zero) {
            return None;
        }
        let average = pos.average_price;
        let gain = if average.gt(&zero) {
            let diff = current_price.sub(&average);
            proof {
                lemma_gain_division(current_price.units(), average.units(), diff.units());
            }
            let g = diff.div(&average);
            proof {
                lemma_percent_in_range(average.units(), diff.units(), g.units());
            }
            g
        } else {
            zero
        };
        if gain.ge(&context.config.take_profit_pct) {
            let half = Dec::new(5, 1);
            pos.quantity.in_range();
            proof {
                lemma_pow10_28();
                assert(pow10(28) == 10 * pow10(27));
                assert(half.units() == 5 * pow10(27));
                lemma_half_product(pos.quantity.units(), half.units());
            }
            let quantity = pos.quantity.mul(&half).round_dp(4);
            if quantity.gt(&zero) {
                let hundred = Dec::new(1000, 1);
                proof {
                    assert(hundred.units() == 1000 * pow10(27));
                }
                let percent = gain.mul(&hundred);
                let mut reason = String::from_str("Partial Take-Profit (+");
                let text = percent.to_string();
                reason.append(text.as_str());
                reason.append("%)");
                return Some(
                    TradeProposal {
                        symbol: String::from_str(symbol),
                        side: OrderSide::Sell,
                        price: current_price,
                        quantity,
                        order_type: OrderType::Market,
                        reason,
                        timestamp,
                        stop_loss: None,
                        take_profit: None,
                    },
                );
            }
        }
        None
    }
}


proof fn lemma_half_product(q: int, h: int)
    requires
        -max_units() <= q <= max_units(),
        2 * h == one_units(),
    ensures
        -max_units() * one_units() <= q * h <= max_units() * one_units(),
{
    let o = one_units();
    let m = max_units();
    assert(iabs(q * h) <= m * h) by (nonlinear_arith)
        requires
            iabs(q) <= m,
            h > 0,
    ;
    assert(m * h <= m * o) by (nonlinear_arith)
        requires
            0 < h <= o,
            m > 0,
    ;
}


proof fn lemma_gain_division(c: int, a: int, d: int)
    requires
        a > 0,
        -max_units() <= c - a <= max_units(),
        c - a - one_units() <= d <= c - a + one_units(),
        100 * ((iabs(c - a) + one_units()) * one_units() + one_units() * a) <= max_units() * a,
    ensures
        -max_units() * iabs(a) <= d * one_units() <= max_units() * iabs(a),
        100 * (iabs(d) * one_units() + one_units() * a) <= max_units() * a,
{
    let o = one_units();
    let m = max_units();
    assert(iabs(d) * o <= (iabs(c - a) + o) * o) by (nonlinear_arith)
        requires
            iabs(d) <= iabs(c - a) + o,
            o > 0,
    ;
    assert(o * a > 0) by (nonlinear_arith)
        requires
            a > 0,
            o > 0,
    ;
    assert((iabs(c - a) + o) * o <= m * a);
    assert(iabs(d * o) == iabs(d) * o) by (nonlinear_arith)
        requires
            o > 0,
    ;
    assert(iabs(a) == a);
    assert((-m) * a == -(m * a)) by (nonlinear_arith);
    assert(-(m * a) <= d * o <= m * a);
}

proof fn lemma_percent_in_range(a: int, d: int, g: int)
    requires
        a > 0,
        100 * (iabs(d) * one_units() + one_units() * a) <= max_units() * a,
        iabs(g * a - d * one_units()) <= one_units() * iabs(a),
    ensures
        -max_units() * one_units() <= g * (100 * one_units()) <= max_units() * one_units(),
{
    let o = one_units();
    assert(iabs(g) * a <= iabs(d) * o + o * a) by (nonlinear_arith)
        requires
            iabs(g * a - d * o) <= o * a,
            a > 0,
    ;
    assert(100 * iabs(g) <= max_units()) by (nonlinear_arith)
        requires
            100 * (iabs(g) * a) <= max_units() * a,
            a > 0,
    ;
    assert(iabs(g * (100 * o)) == 100 * iabs(g) * o) by (nonlinear_arith)
        requires
            o > 0,
    ;
    assert(100 * iabs(g) * o <= max_units() * o) by (nonlinear_arith)
        requires
            100 * iabs(g) <= max_units(),
            o > 0,
    ;
}

} // verus!
