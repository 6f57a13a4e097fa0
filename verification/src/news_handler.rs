//! Trading reactions to news signals.
use crate::context::{AnalystConfig, Signal, StopState, SymbolContext};
use crate::decimal::{
    decimal_difference, decimal_product, decimal_quotient, decimal_text_fixed, iabs, lemma_pow10_28, max_units,
    one_units, pow10, units_of, Dec,
};
use crate::signal_processor::{proposal_quantity, quantity_in_range, SignalProcessor};
use crate::trading::{
    find_position, first_position_index, holds_symbol, OrderSide, OrderType, Portfolio,
    TradeProposal,
};
use vstd::prelude::*;
use vstd::string::StringExecFns;

verus! {

/// Sentiment of a news item.
#[derive(Clone, Copy, Debug, PartialEq, Eq, Structural)]
pub enum NewsSentiment {
    Bullish,
    Bearish,
}

/// A news item relevant to a symbol.
#[derive(Clone, Debug)]
pub struct NewsSignal {
    pub symbol: String,
    pub sentiment: NewsSentiment,
    pub headline: String,
    pub source: String,
    pub url: Option<String>,
}

/// Result of processing a news signal.
#[derive(Debug)]
pub enum NewsAction {
    /// Buy proposal generated.
    Buy(TradeProposal),
    /// The trailing stop was tightened (no proposal).
    TightenStop,
    /// Sell-everything proposal generated.
    PanicSell(TradeProposal),
    /// Signal rejected by a filter, with the reason.
    Rejected(String),
    /// No action taken.
    NoAction,
}

/// Processes news signals.
pub struct NewsHandler {
    signal_processor: SignalProcessor,
}

impl NewsHandler {
    pub closed spec fn spec_signal_processor(self) -> SignalProcessor {
        self.signal_processor
    }

    pub fn new(signal_processor: SignalProcessor) -> (r: Self)
        ensures
            r.spec_signal_processor() == signal_processor,
    {
        NewsHandler { signal_processor }
    }

    /// The signal processor used to build proposals.
    pub fn signal_processor(&self) -> (r: &SignalProcessor)
        ensures
            *r == self.spec_signal_processor(),
    {
        &self.signal_processor
    }

    /// React to bullish news with technical filters: no buy below the 50-period
    /// SMA (a falling trend) or above an RSI of 75 (overbought); otherwise a
    /// market buy sized like any other buy (`portfolio` is `None` when it could
    /// not be read), or no action when no quantity comes out.
    pub fn process_bullish_news(
        &self,
        config: &AnalystConfig,
        portfolio: Option<&Portfolio>,
        signal: &NewsSignal,
        context: &SymbolContext,
        price: Dec,
        timestamp: i64,
    ) -> (r: NewsAction)
        requires
            i64::MIN <= timestamp * 1000 <= i64::MAX,
            bullish_rejection(*context, price) is None ==> quantity_in_range(
                *config,
                portfolio,
                signal.symbol@,
                price,
            ),
        ensures
            bullish_rejection(*context, price) matches Some(text) ==> r matches NewsAction::Rejected(
                t,
            ) && t@ == text,
            bullish_rejection(*context, price) is None ==> match proposal_quantity(
                *config,
                portfolio,
                signal.symbol@,
                OrderSide::Buy,
                price,
            ) {
                Some(q) if units_of(q) > 0 => r matches NewsAction::Buy(p) && p.quantity@ == q
                    && p.symbol@ == signal.symbol@ && p.side == OrderSide::Buy && p.price == price
                    && p.order_type == OrderType::Market && p.reason@ == bullish_reason(signal.headline@)
                    && p.timestamp == timestamp * 1000 && p.stop_loss is None && p.take_profit is None,
                _ => r is NoAction,
            },
    {
        let sma_50 = match context.last_features.sma_50 {
            Some(s) => s,
            None => Dec::zero(),
        };
        if price.lt(&sma_50) {
            let mut reason = String::from_str("Price (");
            reason.append(price.to_string_fixed(2).as_str());
            reason.append(") below SMA50 (");
            reason.append(sma_50.to_string_fixed(2).as_str());
            reason.append(") - Bearish Trend");
            return NewsAction::Rejected(reason);
        }
        let rsi = match context.last_features.rsi {
            Some(v) => v,
            None => Dec::from_int(50),
        };
        if rsi.gt(&Dec::from_int(75)) {
            let mut reason = String::from_str("RSI ");
            reason.append(rsi.to_string_fixed(1).as_str());
            reason.append(" indicates Overbought");
            return NewsAction::Rejected(reason);
        }
        let mut reason = String::from_str("News (Trend Correct & RSI OK): ");
        reason.append(signal.headline.as_str());
        let buy = Signal::buy(reason);
        let symbol = String::from_str(signal.symbol.as_str());
        match self.signal_processor.build_proposal(config, portfolio, symbol, buy, price, timestamp * 1000) {
            Some(mut proposal) => {
                proposal.order_type = OrderType::Market;
                NewsAction::Buy(proposal)
            },
            None => NewsAction::NoAction,
        }
    }
}

/// The held position (quantity, average price) of `symbol`, when the portfolio
/// could be read and holds a positive quantity of it.
pub open spec fn held_position(portfolio: Option<&Portfolio>, symbol: Seq<char>) -> Option<(Dec, Dec)> {
    match portfolio {
        Some(p) => if holds_symbol(p.positions@, symbol) && p.positions@[first_position_index(
            p.positions@,
            symbol,
        )].quantity.units() > 0 {
            let pos = p.positions@[first_position_index(p.positions@, symbol)];
            Some((pos.quantity, pos.average_price))
        } else {
            None
        },
        None => None,
    }
}

/// The position held in `portfolio` for `symbol`, if its quantity is positive.
fn find_held_position(portfolio: Option<&Portfolio>, symbol: &str) -> (r: Option<(Dec, Dec)>)
    ensures
        r == held_position(portfolio, symbol@),
{
    match portfolio {
        Some(p) => match find_position(&p.positions, symbol) {
            Some(i) => {
                let pos = &p.positions[i];
                if pos.quantity.gt(&Dec::zero()) {
                    Some((pos.quantity, pos.average_price))
                } else {
                    None
                }
            },
            None => None,
        },
        None => None,
    }
}

/// Inputs for which handling a news signal stays within the decimal range.
pub open spec fn news_in_range(
    config: AnalystConfig,
    portfolio: Option<&Portfolio>,
    signal: NewsSignal,
    context: SymbolContext,
    price: Dec,
    now_secs: i64,
) -> bool {
    &&& signal.sentiment == NewsSentiment::Bullish ==> {
        &&& i64::MIN <= now_secs * 1000 <= i64::MAX
        &&& bullish_rejection(context, price) is None ==> quantity_in_range(
            config,
            portfolio,
            signal.symbol@,
            price,
        )
    }
    &&& signal.sentiment == NewsSentiment::Bearish ==> match held_position(portfolio, signal.symbol@) {
        Some((_, average)) => bearish_news_in_range(context, price, average),
        None => true,
    }
}

/// What to send for a news signal, given the latest close of the symbol (none
/// known, or zero: nothing happens). Bullish news goes through the bullish
/// filters and a resulting buy is sent; bearish news on a held position either
/// tightens its trailing stop (nothing is sent) or sells the whole position
/// (the sale is sent). `now_secs` is the current time in seconds.
pub fn handle_news_signal(
    handler: &NewsHandler,
    config: &AnalystConfig,
    portfolio: Option<&Portfolio>,
    signal: &NewsSignal,
    context: &mut SymbolContext,
    last_close: Option<Dec>,
    now_secs: i64,
) -> (r: Option<TradeProposal>)
    requires
        last_close matches Some(price) ==> news_in_range(
            *config,
            portfolio,
            *signal,
            *old(context),
            price,
            now_secs,
        ),
    ensures
        match last_close {
            Some(price) if price.units() != 0 => match signal.sentiment {
                NewsSentiment::Bullish => {
                    &&& *final(context) == *old(context)
                    &&& r is Some <==> news_buy_quantity(
                        *config,
                        portfolio,
                        signal.symbol@,
                        *old(context),
                        price,
                    ) is Some
                    &&& r matches Some(p) ==> Some(p.quantity@) == news_buy_quantity(
                        *config,
                        portfolio,
                        signal.symbol@,
                        *old(context),
                        price,
                    ) && p.side == OrderSide::Buy && p.symbol@ == signal.symbol@ && p.price == price
                        && p.order_type == OrderType::Market && p.timestamp == now_secs * 1000
                },
                NewsSentiment::Bearish => match held_position(portfolio, signal.symbol@) {
                    None => r is None && *final(context) == *old(context),
                    Some((quantity, average)) => {
                        &&& r is Some <==> !news_profitable(price, average)
                        &&& r matches Some(p) ==> p.side == OrderSide::Sell && p.symbol@
                            == signal.symbol@ && p.quantity == quantity && p.order_type
                            == OrderType::Market && p.timestamp == now_secs
                        &&& !news_profitable(price, average) ==> *final(context) == *old(context)
                    },
                },
            },
            _ => r is None && *final(context) == *old(context),
        },
{
    let price = match last_close {
        Some(c) => c,
        None => Dec::zero(),
    };
    if price.is_zero() {
        return None;
    }
    match signal.sentiment {
        NewsSentiment::Bullish => {
            match handler.process_bullish_news(config, portfolio, signal, context, price, now_secs) {
                NewsAction::Buy(p) => Some(p),
                _ => None,
            }
        },
        NewsSentiment::Bearish => {
            match find_held_position(portfolio, signal.symbol.as_str()) {
                Some(position) => match process_bearish_news(signal, context, position, price, now_secs) {
                    NewsAction::PanicSell(p) => Some(p),
                    _ => None,
                },
                None => None,
            }
        },
    }
}

/// The quantity bought on bullish news: none when a filter rejects the news or
/// the sized quantity is not positive.
pub open spec fn news_buy_quantity(
    config: AnalystConfig,
    portfolio: Option<&Portfolio>,
    symbol: Seq<char>,
    context: SymbolContext,
    price: Dec,
) -> Option<(int, nat)> {
    match proposal_quantity(config, portfolio, symbol, OrderSide::Buy, price) {
        Some(q) if bullish_rejection(context, price) is None && units_of(q) > 0 => Some(q),
        _ => None,
    }
}

/// The reason of a buy on bullish news.
pub open spec fn bullish_reason(headline: Seq<char>) -> Seq<char> {
    "News (Trend Correct & RSI OK): "@ + headline
}

/// Why bullish news is not bought, if a filter rejects it: a price below the
/// 50-period SMA (taken as zero when unknown), or an RSI (taken as 50 when
/// unknown) above 75.
pub open spec fn bullish_rejection(context: SymbolContext, price: Dec) -> Option<Seq<char>> {
    let sma = match context.last_features.sma_50 {
        Some(s) => s@,
        None => (0, 0),
    };
    if price.units() < units_of(sma) {
        Some(
            "Price ("@ + decimal_text_fixed(price@, 2) + ") below SMA50 ("@ + decimal_text_fixed(sma, 2)
                + ") - Bearish Trend"@,
        )
    } else {
        match context.last_features.rsi {
            Some(rsi) if rsi.units() > 75 * one_units() => Some(
                "RSI "@ + decimal_text_fixed(rsi@, 1) + " indicates Overbought"@,
            ),
            _ => None,
        }
    }
}

/// The gain of the position as a ratio `(price - average) / average`.
pub open spec fn news_gain(price: Dec, average: Dec) -> (int, nat) {
    decimal_quotient(decimal_difference(price@, average@), average@)
}

/// Whether the position is more than 5% in profit (with a zero average price, any
/// positive price counts as infinitely profitable).
pub open spec fn news_profitable(price: Dec, average: Dec) -> bool {
    if average.units() == 0 {
        price.units() > 0
    } else {
        units_of(news_gain(price, average)) > units_of((5, 2))
    }
}

/// The ATR used to tighten a stop: the known one, or 1% of the price.
pub open spec fn news_atr(context: SymbolContext, price: Dec) -> (int, nat) {
    match context.last_features.atr {
        Some(a) => a@,
        None => decimal_product(price@, (1, 2)),
    }
}

/// The distance of a tightened stop below the price: `atr * max(0.5%·price / atr,
/// 0.5)`, that is the larger of 0.5% of the price and half the ATR for a positive
/// ATR (the smaller for a negative one); zero without a usable ATR.
pub open spec fn news_gap(price: (int, nat), atr: (int, nat)) -> (int, nat) {
    let by_price = decimal_product(price, (5, 3));
    let by_atr = decimal_product(atr, (5, 1));
    if units_of(atr) > 0 {
        if units_of(by_price) > units_of(by_atr) {
            by_price
        } else {
            by_atr
        }
    } else if units_of(atr) < 0 {
        if units_of(by_atr) < units_of(by_price) {
            by_atr
        } else {
            by_price
        }
    } else {
        (0, 0)
    }
}

/// The trailing stop after bearish news on a profitable position: an active stop
/// moves up to `price - gap` when that is higher (with a zero ATR and a positive
/// price it stays); without one, a stop at `price - gap` is created.
pub open spec fn tightened_stop(stop: StopState, price: Dec, atr: (int, nat)) -> Option<(int, nat)> {
    let candidate = decimal_difference(price@, news_gap(price@, atr));
    match stop {
        StopState::ActiveStop { stop_price, .. } => if units_of(atr) == 0 && price.units() > 0 {
            None
        } else if units_of(candidate) > stop_price.units() {
            Some(candidate)
        } else {
            None
        },
        StopState::NoPosition => Some(candidate),
    }
}

/// The profit shown in a panic sell's reason: the gain in percent with two
/// decimals, `NaN` or `-inf` for a zero average price.
pub open spec fn panic_pnl_text(price: Dec, average: Dec) -> Seq<char> {
    if average.units() == 0 {
        if price.units() == 0 {
            "NaN"@
        } else {
            "-inf"@
        }
    } else {
        decimal_text_fixed(decimal_product(news_gain(price, average), (1000, 1)), 2)
    }
}

/// Inputs for which the bearish-news computations stay in the decimal range.
pub open spec fn bearish_news_in_range(context: SymbolContext, price: Dec, average: Dec) -> bool {
    let o = one_units();
    let a = iabs(average.units());
    let d = iabs(price.units() - average.units()) + o;
    &&& 2 * iabs(price.units()) + match context.last_features.atr {
        Some(x) => iabs(x.units()),
        None => 0,
    } + 3 * o <= max_units()
    &&& average.units() != 0 ==> -max_units() <= price.units() - average.units() <= max_units()
    &&& average.units() != 0 ==> 100 * (d * o + o * a) <= max_units() * a
}

/// React to bearish news on a held position of `quantity` at `average` price:
/// above 5% profit the trailing stop is tightened to protect the gain; otherwise
/// the whole position is sold at market.
pub fn process_bearish_news(
    signal: &NewsSignal,
    context: &mut SymbolContext,
    portfolio_position: (Dec, Dec),
    current_price: Dec,
    timestamp: i64,
) -> (r: NewsAction)
    requires
        bearish_news_in_range(*old(context), current_price, portfolio_position.1),
    ensures
        news_profitable(current_price, portfolio_position.1) ==> ({
            &&& r is TightenStop
            &&& match tightened_stop(
                old(context).position_manager.trailing_stop,
                current_price,
                news_atr(*old(context), current_price),
            ) {
                Some(s) => final(context).position_manager.trailing_stop matches StopState::ActiveStop {
                    stop_price,
                    ..
                } && stop_price@ == s,
                None => final(context).position_manager.trailing_stop
                    == old(context).position_manager.trailing_stop,
            }
        }),
        !news_profitable(current_price, portfolio_position.1) ==> ({
            &&& *final(context) == *old(context)
            &&& r matches NewsAction::PanicSell(p) && p.symbol@ == signal.symbol@ && p.side
                == OrderSide::Sell && p.price.units() == 0 && p.quantity == portfolio_position.0
                && p.order_type == OrderType::Market && p.timestamp == timestamp
                && p.stop_loss is None && p.take_profit is None && p.reason@ == "News Panic Sell (PnL: "@
                + panic_pnl_text(current_price, portfolio_position.1) + "%): "@ + signal.headline@
        }),
        final(context).config == old(context).config,
        final(context).taken_profit == old(context).taken_profit,
        final(context).position_manager.pending_order == old(context).position_manager.pending_order,
{
    let (quantity, average) = portfolio_position;
    let zero = Dec::zero();
    current_price.in_range();
    average.in_range();
    let mut percent_text = String::new();
    let profitable = if average.is_zero() {
        if current_price.is_zero() {
            percent_text.append("NaN");
        } else {
            percent_text.append("-inf");
        }
        current_price.gt(&zero)
    } else {
        let diff = current_price.sub(&average);
        proof {
            lemma_ratio_ready(current_price.units(), average.units(), diff.units());
        }
        let gain = diff.div(&average);
        let threshold = Dec::new(5, 2);
        let hundred = Dec::new(1000, 1);
        proof {
            lemma_pow10_28();
            assert(pow10(28) == 10 * pow10(27));
            assert(hundred.units() == 100 * one_units());
            lemma_percent_ready(average.units(), diff.units(), gain.units());
        }
        let percent = gain.mul(&hundred);
        percent_text = percent.to_string_fixed(2);
        gain.gt(&threshold)
    };
    if profitable {
        tighten_stop_on_bearish_news(context, current_price);
        return NewsAction::TightenStop;
    }
    let mut reason = String::from_str("News Panic Sell (PnL: ");
    reason.append(percent_text.as_str());
    reason.append("%): ");
    reason.append(signal.headline.as_str());
    NewsAction::PanicSell(
        TradeProposal {
            symbol: String::from_str(signal.symbol.as_str()),
            side: OrderSide::Sell,
            price: zero,
            quantity,
            order_type: OrderType::Market,
            reason,
            timestamp,
            stop_loss: None,
            take_profit: None,
        },
    )
}

/// Tighten (or create) the trailing stop of a profitable position on bearish
/// news.
fn tighten_stop_on_bearish_news(context: &mut SymbolContext, price: Dec)
    requires
        2 * iabs(price.units()) + match old(context).last_features.atr {
            Some(x) => iabs(x.units()),
            None => 0,
        } + 3 * one_units() <= max_units(),
    ensures
        match tightened_stop(
            old(context).position_manager.trailing_stop,
            price,
            news_atr(*old(context), price),
        ) {
            Some(s) => final(context).position_manager.trailing_stop matches StopState::ActiveStop {
                stop_price,
                ..
            } && stop_price@ == s,
            None => final(context).position_manager.trailing_stop
                == old(context).position_manager.trailing_stop,
        },
        final(context).config == old(context).config,
        final(context).taken_profit == old(context).taken_profit,
        final(context).position_manager.pending_order == old(context).position_manager.pending_order,
{
    let zero = Dec::zero();
    price.in_range();
    proof {
        lemma_pow10_28();
        assert(pow10(28) == 10 * pow10(27));
        assert(pow10(27) == 10 * pow10(26));
        assert(pow10(26) == 10 * pow10(25));
    }
    let atr = match context.last_features.atr {
        Some(a) => a,
        None => {
            let one_percent = Dec::new(1, 2);
            proof {
                assert(one_percent.units() == pow10(26));
                lemma_small_factor_ready(price.units(), one_percent.units());
            }
            let a = price.mul(&one_percent);
            proof {
                lemma_small_factor(price.units(), one_percent.units(), a.units());
            }
            a
        },
    };
    atr.in_range();
    let half_percent = Dec::new(5, 3);
    let half = Dec::new(5, 1);
    proof {
        assert(half_percent.units() == 5 * pow10(25));
        assert(half.units() == 5 * pow10(27));
        lemma_small_factor_ready(price.units(), half_percent.units());
        lemma_small_factor_ready(atr.units(), half.units());
    }
    let by_price = price.mul(&half_percent);
    let by_atr = atr.mul(&half);
    proof {
        lemma_small_factor(price.units(), half_percent.units(), by_price.units());
        lemma_small_factor(atr.units(), half.units(), by_atr.units());
    }
    let gap = if atr.gt(&zero) {
        if by_price.gt(&by_atr) {
            by_price
        } else {
            by_atr
        }
    } else if atr.lt(&zero) {
        if by_atr.lt(&by_price) {
            by_atr
        } else {
            by_price
        }
    } else {
        zero
    };
    match context.position_manager.trailing_stop {
        StopState::ActiveStop { entry_price, stop_price } => {
            if atr.is_zero() && price.gt(&zero) {
                return;
            }
            let candidate = price.sub(&gap);
            if candidate.gt(&stop_price) {
                context.position_manager.trailing_stop = StopState::ActiveStop {
                    entry_price,
                    stop_price: candidate,
                };
            }
        },
        StopState::NoPosition => {
            let candidate = price.sub(&gap);
            context.position_manager.trailing_stop = StopState::ActiveStop {
                entry_price: price,
                stop_price: candidate,
            };
        },
    }
}

proof fn lemma_small_factor_ready(u: int, v: int)
    requires
        iabs(u) <= max_units(),
        iabs(v) <= one_units(),
    ensures
        -max_units() * one_units() <= u * v <= max_units() * one_units(),
{
    let o = one_units();
    assert(iabs(u * v) <= max_units() * o) by (nonlinear_arith)
        requires
            iabs(u) <= max_units(),
            iabs(v) <= o,
    ;
}

proof fn lemma_small_factor(u: int, v: int, r: int)
    requires
        iabs(v) <= one_units(),
        u * v - one_units() * one_units() <= r * one_units() <= u * v + one_units() * one_units(),
    ensures
        iabs(r) <= iabs(u) + one_units(),
{
    let o = one_units();
    assert(iabs(u * v) <= iabs(u) * o) by (nonlinear_arith)
        requires
            iabs(v) <= o,
    ;
    assert(iabs(r) * o <= (iabs(u) + o) * o) by (nonlinear_arith)
        requires
            u * v - o * o <= r * o <= u * v + o * o,
            iabs(u * v) <= iabs(u) * o,
            o > 0,
    ;
    assert(iabs(r) <= iabs(u) + o) by (nonlinear_arith)
        requires
            iabs(r) * o <= (iabs(u) + o) * o,
            o > 0,
    ;
}

proof fn lemma_ratio_ready(c: int, a: int, d: int)
    requires
        a != 0,
        c - a - one_units() <= d <= c - a + one_units(),
        100 * ((iabs(c - a) + one_units()) * one_units() + one_units() * iabs(a)) <= max_units()
            * iabs(a),
    ensures
        -max_units() * iabs(a) <= d * one_units() <= max_units() * iabs(a),
        100 * (iabs(d) * one_units() + one_units() * iabs(a)) <= max_units() * iabs(a),
{
    let o = one_units();
    let m = max_units();
    assert(iabs(d) * o <= (iabs(c - a) + o) * o) by (nonlinear_arith)
        requires
            iabs(d) <= iabs(c - a) + o,
            o > 0,
    ;
    assert(o * iabs(a) > 0) by (nonlinear_arith)
        requires
            a != 0,
            o > 0,
    ;
    assert(iabs(d * o) == iabs(d) * o) by (nonlinear_arith)
        requires
            o > 0,
    ;
    assert((-m) * iabs(a) == -(m * iabs(a))) by (nonlinear_arith);
}

proof fn lemma_percent_ready(a: int, d: int, g: int)
    requires
        a != 0,
        100 * (iabs(d) * one_units() + one_units() * iabs(a)) <= max_units() * iabs(a),
        iabs(g * a - d * one_units()) <= one_units() * iabs(a),
    ensures
        -max_units() * one_units() <= g * (100 * one_units()) <= max_units() * one_units(),
{
    let o = one_units();
    let m = max_units();
    assert(iabs(g) * iabs(a) <= iabs(d) * o + o * iabs(a)) by (nonlinear_arith)
        requires
            iabs(g * a - d * o) <= o * iabs(a),
    ;
    assert(100 * iabs(g) <= m) by (nonlinear_arith)
        requires
            100 * (iabs(g) * iabs(a)) <= m * iabs(a),
            iabs(a) > 0,
    ;
    assert(iabs(g * (100 * o)) == 100 * iabs(g) * o) by (nonlinear_arith)
        requires
            o > 0,
    ;
    assert(100 * iabs(g) * o <= m * o) by (nonlinear_arith)
        requires
            100 * iabs(g) <= m,
            o > 0,
    ;
}

} // verus!
