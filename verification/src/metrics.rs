//! Dashboard metrics: portfolio value, win rate, average win and loss, trend.
use crate::cost_evaluator::{lemma_product_bound, product_bound};
use crate::decimal::{
    decimal_difference, decimal_product, decimal_quotient, decimal_sum, fits_at_scale, iabs,
    lemma_pow10_28, lemma_pow10_positive, max_mantissa, max_scale, max_units, one_units, pow10,
    units_of, Dec,
};
use crate::text::str_eq;
use crate::trading::{OrderSide, Portfolio, Position, Trade};
use vstd::prelude::*;

verus! {

/// A list of (symbol, price) as plain values.
pub open spec fn price_views(prices: Seq<(String, Dec)>) -> Seq<(Seq<char>, Dec)> {
    prices.map_values(|e: (String, Dec)| (e.0@, e.1))
}

/// The price a position is valued at: the first listed price of its symbol, or
/// else its average price.
pub open spec fn mark_price(prices: Seq<(Seq<char>, Dec)>, symbol: Seq<char>, average: Dec) -> Dec
    decreases prices.len(),
{
    if prices.len() == 0 {
        average
    } else if prices[0].0 == symbol {
        prices[0].1
    } else {
        mark_price(prices.drop_first(), symbol, average)
    }
}

/// The value of a position: quantity times its mark price.
pub open spec fn position_value(p: Position, prices: Seq<(Seq<char>, Dec)>) -> (int, nat) {
    decimal_product(p.quantity@, mark_price(prices, p.symbol@, p.average_price)@)
}

/// The value of the positions, summed from zero in order.
pub open spec fn held_value(positions: Seq<Position>, prices: Seq<(Seq<char>, Dec)>) -> (int, nat)
    decreases positions.len(),
{
    if positions.len() == 0 {
        (0, 0)
    } else {
        decimal_sum(held_value(positions.drop_last(), prices), position_value(positions.last(), prices))
    }
}

/// The total value of a portfolio: cash plus the value of its positions.
pub open spec fn portfolio_value(portfolio: Portfolio, prices: Seq<(Seq<char>, Dec)>) -> (int, nat) {
    decimal_sum(portfolio.cash@, held_value(portfolio.positions@, prices))
}

/// A bound on the magnitude of a position's value (in units).
pub open spec fn value_bound(p: Position, prices: Seq<(Seq<char>, Dec)>) -> int {
    product_bound(p.quantity.units(), mark_price(prices, p.symbol@, p.average_price).units())
}

/// The sum of the value bounds of the first `n` positions.
pub open spec fn value_bound_sum(positions: Seq<Position>, prices: Seq<(Seq<char>, Dec)>, n: int) -> int
    decreases n,
{
    if n <= 0 {
        0
    } else {
        value_bound_sum(positions, prices, n - 1) + value_bound(positions[n - 1], prices)
    }
}

/// A bound on the magnitude of the portfolio's total value (in units).
pub open spec fn equity_bound(portfolio: Portfolio, prices: Seq<(Seq<char>, Dec)>) -> int {
    iabs(portfolio.cash.units()) + value_bound_sum(
        portfolio.positions@,
        prices,
        portfolio.positions@.len() as int,
    ) + portfolio.positions@.len() * one_units()
}

/// Portfolios whose valuation stays within the decimal range.
pub open spec fn value_in_range(portfolio: Portfolio, prices: Seq<(Seq<char>, Dec)>) -> bool {
    &&& forall|i: int|
        0 <= i < portfolio.positions@.len() ==> {
            let p = #[trigger] portfolio.positions@[i];
            iabs(p.quantity.units() * mark_price(prices, p.symbol@, p.average_price).units())
                <= max_units() * one_units()
        }
    &&& equity_bound(portfolio, prices) + one_units() <= max_units()
}

proof fn lemma_value_bound_sum_monotone(
    positions: Seq<Position>,
    prices: Seq<(Seq<char>, Dec)>,
    a: int,
    b: int,
)
    requires
        0 <= a <= b <= positions.len(),
    ensures
        value_bound_sum(positions, prices, a) <= value_bound_sum(positions, prices, b),
    decreases b - a,
{
    if a < b {
        lemma_value_bound_sum_monotone(positions, prices, a, b - 1);
        let p = positions[b - 1];
        let u = p.quantity.units() * mark_price(prices, p.symbol@, p.average_price).units();
        assert((iabs(u) + one_units() * one_units()) / one_units() >= 0) by (nonlinear_arith)
            requires
                one_units() > 0,
        ;
    }
}

/// The price of `symbol` in `prices`, or `average` when it is not listed.
pub fn find_mark_price(prices: &Vec<(String, Dec)>, symbol: &str, average: Dec) -> (r: Dec)
    ensures
        r == mark_price(price_views(prices@), symbol@, average),
{
    let ghost views = price_views(prices@);
    let mut i: usize = 0;
    proof {
        assert(views.skip(0) =~= views);
    }
    while i < prices.len()
        invariant
            i <= prices.len(),
            views == price_views(prices@),
            mark_price(views, symbol@, average) == mark_price(views.skip(i as int), symbol@, average),
        decreases prices.len() - i,
    {
        proof {
            assert(views.skip(i as int)[0] == views[i as int]);
            assert(views.skip(i as int).drop_first() =~= views.skip(i + 1));
        }
        if str_eq(prices[i].0.as_str(), symbol) {
            return prices[i].1;
        }
        i = i + 1;
    }
    proof {
        assert(views.skip(i as int).len() == 0);
    }
    average
}

/// The total value of a portfolio: cash plus each position's quantity at its
/// listed price (its average price when none is listed).
pub fn calculate_total_value(portfolio: &Portfolio, prices: &Vec<(String, Dec)>) -> (r: Dec)
    requires
        value_in_range(*portfolio, price_views(prices@)),
    ensures
        r@ == portfolio_value(*portfolio, price_views(prices@)),
        iabs(r.units()) <= equity_bound(*portfolio, price_views(prices@)) + one_units(),
{
    let positions = &portfolio.positions;
    let mut held = Dec::zero();
    let mut i: usize = 0;
    while i < positions.len()
        invariant
            i <= positions.len(),
            positions == portfolio.positions,
            value_in_range(*portfolio, price_views(prices@)),
            held@ == held_value(positions@.take(i as int), price_views(prices@)),
            iabs(held.units()) <= value_bound_sum(positions@, price_views(prices@), i as int) + i
                * one_units(),
        decreases positions.len() - i,
    {
        proof {
            assert(positions@.take(i + 1).drop_last() =~= positions@.take(i as int));
            assert(positions@.take(i + 1).last() == positions@[i as int]);
            lemma_value_bound_sum_monotone(
                positions@,
                price_views(prices@),
                i + 1,
                positions@.len() as int,
            );
        }
        let pos = &positions[i];
        let price = find_mark_price(prices, pos.symbol.as_str(), pos.average_price);
        assert(iabs(pos.quantity.units() * price.units()) <= max_units() * one_units());
        let value = pos.quantity.mul(&price);
        proof {
            lemma_product_bound(pos.quantity.units(), price.units(), value.units());
        }
        held = held.add(&value);
        i = i + 1;
    }
    proof {
        assert(positions@.take(positions@.len() as int) =~= positions@);
    }
    portfolio.cash.add(&held)
}

/// The win rate as a percentage, `winning * 100 / total`; zero without trades.
pub open spec fn win_rate_percent(winning: nat, total: nat) -> (int, nat) {
    if total == 0 {
        (0, 0)
    } else {
        decimal_quotient(((winning * 100) as int, 0), (total as int, 0))
    }
}

/// The win rate as a percentage (0 to 100) of the closed trades.
pub fn calculate_win_rate(winning_trades: usize, total_trades: usize) -> (r: Dec)
    ensures
        r@ == win_rate_percent(winning_trades as nat, total_trades as nat),
{
    if total_trades == 0 {
        return Dec::zero();
    }
    let w = Dec::from_u64(winning_trades as u64);
    let hundred = Dec::from_u64(100);
    let t = Dec::from_u64(total_trades as u64);
    let ghost o = one_units();
    let ghost wi = winning_trades as int;
    let ghost ti = total_trades as int;
    proof {
        assert(wi * 100 <= max_mantissa());
        assert((wi * o) * (100 * o) == (wi * 100) * (o * o)) by (nonlinear_arith);
        assert((wi * 100) * (o * o) <= max_mantissa() * (o * o)) by (nonlinear_arith)
            requires
                0 <= wi * 100 <= max_mantissa(),
        ;
        assert(max_units() * o == max_mantissa() * (o * o)) by (nonlinear_arith)
            requires
                max_units() == max_mantissa() * o,
        ;
    }
    let scaled = w.mul(&hundred);
    proof {
        lemma_pow10_28();
        assert(scaled@ == (wi * 100, 0nat));
        assert(scaled.units() == (wi * 100) * o);
        assert(t.units() == ti * o);
        assert(((wi * 100) * o) * o <= max_units() * (ti * o)) by (nonlinear_arith)
            requires
                0 <= wi * 100 <= max_mantissa(),
                max_units() == max_mantissa() * o,
                ti >= 1,
                o > 0,
        ;
        assert(ti * o > 0) by (nonlinear_arith)
            requires
                ti >= 1,
                o > 0,
        ;
        assert(((wi * 100) * o) * o >= 0) by (nonlinear_arith)
            requires
                wi >= 0,
                o > 0,
        ;
    }
    scaled.div(&t)
}

/// Whether a trade enters the statistics: it is closed and its entry price is
/// not zero.
pub open spec fn counted(t: Trade) -> bool {
    t.exit_price is Some && t.entry_price.units() != 0
}

/// The exact price move of a counted trade in its favour (in units).
pub open spec fn favourable_move(t: Trade) -> int {
    if t.side == OrderSide::Buy {
        t.exit_price->0.units() - t.entry_price.units()
    } else {
        t.entry_price.units() - t.exit_price->0.units()
    }
}

/// A trade's return relative to its entry price: `(exit - entry) / entry` for a
/// long trade, `(entry - exit) / entry` for a short one.
pub open spec fn trade_return(t: Trade) -> (int, nat) {
    let x = t.exit_price->0;
    let pnl = if t.side == OrderSide::Buy {
        decimal_difference(x@, t.entry_price@)
    } else {
        decimal_difference(t.entry_price@, x@)
    };
    decimal_quotient(pnl, t.entry_price@)
}

/// Totals over the counted trades: the sum of the positive returns and their
/// number, and the sum of the magnitudes of the other returns and their number.
pub open spec fn return_totals(trades: Seq<Trade>) -> ((int, nat), nat, (int, nat), nat)
    decreases trades.len(),
{
    if trades.len() == 0 {
        ((0, 0), 0, (0, 0), 0)
    } else {
        let (ws, wn, ls, ln) = return_totals(trades.drop_last());
        let t = trades.last();
        if !counted(t) {
            (ws, wn, ls, ln)
        } else {
            let pct = trade_return(t);
            if units_of(pct) > 0 {
                (decimal_sum(ws, pct), wn + 1, ls, ln)
            } else {
                (ws, wn, decimal_sum(ls, (iabs(pct.0), pct.1)), ln + 1)
            }
        }
    }
}

/// `sum / n` (zero when `n` is zero), replaced by `default` when it is zero.
pub open spec fn average_or(sum: (int, nat), n: nat, default: (int, nat)) -> (int, nat) {
    let avg = if n > 0 {
        decimal_quotient(sum, (n as int, 0))
    } else {
        (0, 0)
    };
    if units_of(avg) == 0 {
        default
    } else {
        avg
    }
}

/// The average win and the average loss (as fractions of the entry price),
/// with 0.02 and 0.015 standing in for an average that comes out zero.
pub open spec fn trade_statistics(trades: Seq<Trade>) -> ((int, nat), (int, nat)) {
    let (ws, wn, ls, ln) = return_totals(trades);
    (average_or(ws, wn, (2, 2)), average_or(ls, ln, (15, 3)))
}

/// A bound on the magnitude of a counted trade's return (in units).
pub open spec fn return_bound(t: Trade) -> int {
    if counted(t) {
        ((iabs(favourable_move(t)) + one_units()) * one_units()) / iabs(t.entry_price.units())
            + one_units()
    } else {
        0
    }
}

/// The sum of the return bounds of the first `n` trades.
pub open spec fn return_bound_sum(trades: Seq<Trade>, n: int) -> int
    decreases n,
{
    if n <= 0 {
        0
    } else {
        return_bound_sum(trades, n - 1) + return_bound(trades[n - 1])
    }
}

/// Trade histories whose statistics stay within the decimal range.
pub open spec fn statistics_in_range(trades: Seq<Trade>) -> bool {
    &&& forall|i: int|
        0 <= i < trades.len() && counted(#[trigger] trades[i]) ==> {
            let t = trades[i];
            &&& -max_units() <= favourable_move(t) <= max_units()
            &&& (iabs(favourable_move(t)) + one_units()) * one_units() <= max_units() * iabs(
                t.entry_price.units(),
            )
        }
    &&& return_bound_sum(trades, trades.len() as int) + trades.len() * one_units() <= max_units()
}

proof fn lemma_return_bound_sum_monotone(trades: Seq<Trade>, a: int, b: int)
    requires
        0 <= a <= b <= trades.len(),
    ensures
        return_bound_sum(trades, a) <= return_bound_sum(trades, b),
    decreases b - a,
{
    if a < b {
        lemma_return_bound_sum_monotone(trades, a, b - 1);
        let t = trades[b - 1];
        if counted(t) {
            let x = (iabs(favourable_move(t)) + one_units()) * one_units();
            let e = iabs(t.entry_price.units());
            assert(x / e >= 0) by (nonlinear_arith)
                requires
                    x >= 0,
                    e > 0,
            ;
        }
    }
}

/// From `|q * e - a * one| <= one * |e|` with `|a| <= m`: `|q|` is at most
/// `(m * one) / |e| + one`.
proof fn lemma_quotient_bound(q: int, e: int, a: int, m: int)
    requires
        e != 0,
        iabs(a) <= m,
        iabs(q * e - a * one_units()) <= one_units() * iabs(e),
    ensures
        iabs(q) <= (m * one_units()) / iabs(e) + one_units(),
{
    let o = one_units();
    let be = iabs(e);
    let x = m * o;
    assert(iabs(q) * be <= x + o * be) by (nonlinear_arith)
        requires
            iabs(q * e - a * o) <= o * be,
            be == iabs(e),
            iabs(a) <= m,
            o > 0,
            x == m * o,
    ;
    let d = x / be;
    assert(x < (d + 1) * be) by (nonlinear_arith)
        requires
            d == x / be,
            be > 0,
    ;
    assert(iabs(q) * be < (d + 1 + o) * be) by (nonlinear_arith)
        requires
            iabs(q) * be <= x + o * be,
            x < (d + 1) * be,
    ;
    assert(iabs(q) < d + 1 + o) by (nonlinear_arith)
        requires
            iabs(q) * be < (d + 1 + o) * be,
            be > 0,
    ;
}

/// The average win and average loss of the closed trades, as fractions of the
/// entry price (0.05 for 5%); 0.02 and 0.015 stand in for an average that
/// comes out zero.
pub fn calculate_trade_statistics(trade_history: &Vec<Trade>) -> (r: (Dec, Dec))
    requires
        statistics_in_range(trade_history@),
    ensures
        (r.0@, r.1@) == trade_statistics(trade_history@),
{
    let mut win_sum = Dec::zero();
    let mut loss_sum = Dec::zero();
    let mut win_count: u64 = 0;
    let mut loss_count: u64 = 0;
    let mut i: usize = 0;
    while i < trade_history.len()
        invariant
            i <= trade_history.len(),
            statistics_in_range(trade_history@),
            win_count + loss_count <= i,
            (win_sum@, win_count as nat, loss_sum@, loss_count as nat) == return_totals(
                trade_history@.take(i as int),
            ),
            iabs(win_sum.units()) + iabs(loss_sum.units()) <= return_bound_sum(
                trade_history@,
                i as int,
            ) + i * one_units(),
        decreases trade_history.len() - i,
    {
        proof {
            assert(trade_history@.take(i + 1).drop_last() =~= trade_history@.take(i as int));
            assert(trade_history@.take(i + 1).last() == trade_history@[i as int]);
            lemma_return_bound_sum_monotone(trade_history@, i + 1, trade_history@.len() as int);
        }
        let trade = &trade_history[i];
        let ghost t = trade_history@[i as int];
        match trade.exit_price {
            None => {},
            Some(exit_price) => {
                if !trade.entry_price.is_zero() {
                    assert(counted(t));
                    let pnl = if trade.side == OrderSide::Buy {
                        exit_price.sub(&trade.entry_price)
                    } else {
                        trade.entry_price.sub(&exit_price)
                    };
                    let ghost m = iabs(favourable_move(t)) + one_units();
                    proof {
                        let o = one_units();
                        assert(iabs(pnl.units()) <= m);
                        assert(iabs(pnl.units() * o) <= m * o) by (nonlinear_arith)
                            requires
                                iabs(pnl.units()) <= m,
                                o > 0,
                        ;
                        let be = iabs(trade.entry_price.units());
                        assert(m * o <= max_units() * be);
                        assert(-max_units() * be <= pnl.units() * o <= max_units() * be) by (nonlinear_arith)
                            requires
                                iabs(pnl.units() * o) <= m * o,
                                m * o <= max_units() * be,
                        ;
                    }
                    let pct = pnl.div(&trade.entry_price);
                    proof {
                        lemma_quotient_bound(pct.units(), trade.entry_price.units(), pnl.units(), m);
                        assert(iabs(pct.units()) <= return_bound(t));
                    }
                    if pct.gt(&Dec::zero()) {
                        win_sum = win_sum.add(&pct);
                        win_count = win_count + 1;
                    } else {
                        let magnitude = pct.abs();
                        loss_sum = loss_sum.add(&magnitude);
                        loss_count = loss_count + 1;
                    }
                }
            },
        }
        i = i + 1;
    }
    proof {
        assert(trade_history@.take(trade_history@.len() as int) =~= trade_history@);
        lemma_pow10_28();
    }
    let zero = Dec::zero();
    let avg_win = if win_count > 0 {
        let n = Dec::from_u64(win_count);
        proof {
            lemma_average_in_range(win_sum.units(), win_count as int);
        }
        win_sum.div(&n)
    } else {
        zero
    };
    let avg_loss = if loss_count > 0 {
        let n = Dec::from_u64(loss_count);
        proof {
            lemma_average_in_range(loss_sum.units(), loss_count as int);
        }
        loss_sum.div(&n)
    } else {
        zero
    };
    let safe_win = if avg_win.is_zero() {
        Dec::new(2, 2)
    } else {
        avg_win
    };
    let safe_loss = if avg_loss.is_zero() {
        Dec::new(15, 3)
    } else {
        avg_loss
    };
    (safe_win, safe_loss)
}

proof fn lemma_average_in_range(s: int, n: int)
    requires
        iabs(s) <= max_units(),
        n >= 1,
    ensures
        -max_units() * iabs(n * one_units()) <= s * one_units() <= max_units() * iabs(
            n * one_units(),
        ),
{
    let o = one_units();
    let m = max_units();
    assert(iabs(s * o) <= m * (n * o)) by (nonlinear_arith)
        requires
            iabs(s) <= m,
            n >= 1,
            o > 0,
    ;
    assert(n * o > 0) by (nonlinear_arith)
        requires
            n >= 1,
            o > 0,
    ;
    assert((-m) * (n * o) == -(m * (n * o))) by (nonlinear_arith);
}

/// The peak used for drawdowns: the recorded highest equity, or the starting
/// cash when that is at least as high.
pub open spec fn equity_peak(starting_cash: Dec, max_equity: Dec) -> Dec {
    if max_equity.units() > starting_cash.units() {
        max_equity
    } else {
        starting_cash
    }
}

/// The drawdown of a performance snapshot, as a fraction of the peak:
/// `(peak - equity) / peak`; zero without positive starting cash or peak.
pub open spec fn drawdown_of(equity: Dec, starting_cash: Dec, max_equity: Dec) -> (int, nat) {
    let peak = equity_peak(starting_cash, max_equity);
    if starting_cash.units() > 0 && peak.units() > 0 {
        decimal_quotient(decimal_difference(peak@, equity@), peak@)
    } else {
        (0, 0)
    }
}

/// Inputs for which the drawdown stays within the decimal range.
pub open spec fn drawdown_in_range(equity: Dec, starting_cash: Dec, max_equity: Dec) -> bool {
    let peak = equity_peak(starting_cash, max_equity);
    (starting_cash.units() > 0 && peak.units() > 0) ==> {
        &&& -max_units() <= peak.units() - equity.units() <= max_units()
        &&& (iabs(peak.units() - equity.units()) + one_units()) * one_units() <= max_units()
            * peak.units()
    }
}

proof fn lemma_zero_fits(s: nat)
    ensures
        fits_at_scale(0, s),
{
    lemma_pow10_positive((28 - s) as nat);
    let p = pow10((28 - s) as nat);
    assert(max_mantissa() * p >= 0) by (nonlinear_arith)
        requires
            p >= 1,
    ;
}

/// The drawdown recorded in a performance snapshot: how far the equity is below
/// its peak, as a fraction of the peak.
pub fn snapshot_drawdown(equity: Dec, starting_cash: Dec, max_equity: Dec) -> (r: Dec)
    requires
        drawdown_in_range(equity, starting_cash, max_equity),
    ensures
        r@ == drawdown_of(equity, starting_cash, max_equity),
        equity.units() == equity_peak(starting_cash, max_equity).units() ==> r.units() == 0,
{
    let zero = Dec::zero();
    if !starting_cash.gt(&zero) {
        return zero;
    }
    let peak = max_equity.max(&starting_cash);
    if !peak.gt(&zero) {
        return zero;
    }
    let fall = peak.sub(&equity);
    proof {
        if equity.units() == peak.units() {
            assert(fits_at_scale(0, max_scale(peak@.1, equity@.1))) by {
                lemma_zero_fits(max_scale(peak@.1, equity@.1));
            }
        }
        let o = one_units();
        let m = iabs(peak.units() - equity.units()) + o;
        assert(iabs(fall.units()) <= m);
        assert(iabs(fall.units() * o) <= m * o) by (nonlinear_arith)
            requires
                iabs(fall.units()) <= m,
                o > 0,
        ;
        assert(-max_units() * peak.units() <= fall.units() * o <= max_units() * peak.units())
            by (nonlinear_arith)
            requires
                iabs(fall.units() * o) <= m * o,
                m * o <= max_units() * peak.units(),
        ;
    }
    fall.div(&peak)
}

/// The equity performance is measured from: the starting cash, or 10000
/// without positive starting cash.
pub open spec fn initial_equity(starting_cash: Dec) -> (int, nat) {
    if starting_cash.units() > 0 {
        starting_cash@
    } else {
        (10000, 0)
    }
}

/// The equity curve over the trade history: the equity after each trade
/// (the previous equity plus the trade's profit), with a point at the exit time
/// of each closed trade. The result is the final equity and the points.
pub open spec fn equity_points(initial: (int, nat), trades: Seq<Trade>) -> (
    (int, nat),
    Seq<(i64, (int, nat))>,
)
    decreases trades.len(),
{
    if trades.len() == 0 {
        (initial, Seq::empty())
    } else {
        let (equity, points) = equity_points(initial, trades.drop_last());
        let t = trades.last();
        let next = decimal_sum(equity, t.pnl@);
        match t.exit_timestamp {
            Some(ts) => (next, points.push((ts, next))),
            None => (next, points),
        }
    }
}

/// The sum of the profit magnitudes of the first `n` trades (in units).
pub open spec fn pnl_magnitude_sum(trades: Seq<Trade>, n: int) -> int
    decreases n,
{
    if n <= 0 {
        0
    } else {
        pnl_magnitude_sum(trades, n - 1) + iabs(trades[n - 1].pnl.units())
    }
}

/// Trade histories whose equity curve stays within the decimal range.
pub open spec fn curve_in_range(starting_cash: Dec, trades: Seq<Trade>) -> bool {
    iabs(units_of(initial_equity(starting_cash))) + pnl_magnitude_sum(trades, trades.len() as int)
        + trades.len() * one_units() <= max_units()
}

proof fn lemma_pnl_magnitude_sum_monotone(trades: Seq<Trade>, a: int, b: int)
    requires
        0 <= a <= b <= trades.len(),
    ensures
        pnl_magnitude_sum(trades, a) <= pnl_magnitude_sum(trades, b),
    decreases b - a,
{
    if a < b {
        lemma_pnl_magnitude_sum_monotone(trades, a, b - 1);
    }
}

/// The equity curve of the trade history for plotting: the initial equity,
/// the (exit time, equity) points of the closed trades, and the current equity.
pub fn equity_curve(starting_cash: Dec, trade_history: &Vec<Trade>) -> (r: (
    Dec,
    Vec<(i64, Dec)>,
    Dec,
))
    requires
        curve_in_range(starting_cash, trade_history@),
    ensures
        r.0@ == initial_equity(starting_cash),
        r.1@.map_values(|p: (i64, Dec)| (p.0, p.1@)) == equity_points(
            initial_equity(starting_cash),
            trade_history@,
        ).1,
        r.2@ == equity_points(initial_equity(starting_cash), trade_history@).0,
{
    let initial = if starting_cash.gt(&Dec::zero()) {
        starting_cash
    } else {
        Dec::from_int(10000)
    };
    proof {
        lemma_pow10_28();
    }
    let mut equity = initial;
    let mut points: Vec<(i64, Dec)> = Vec::new();
    let mut i: usize = 0;
    while i < trade_history.len()
        invariant
            i <= trade_history.len(),
            curve_in_range(starting_cash, trade_history@),
            initial@ == initial_equity(starting_cash),
            (equity@, points@.map_values(|p: (i64, Dec)| (p.0, p.1@))) == equity_points(
                initial@,
                trade_history@.take(i as int),
            ),
            iabs(equity.units()) <= iabs(initial.units()) + pnl_magnitude_sum(
                trade_history@,
                i as int,
            ) + i * one_units(),
        decreases trade_history.len() - i,
    {
        let ghost before = points@.map_values(|p: (i64, Dec)| (p.0, p.1@));
        proof {
            assert(trade_history@.take(i + 1).drop_last() =~= trade_history@.take(i as int));
            assert(trade_history@.take(i + 1).last() == trade_history@[i as int]);
            lemma_pnl_magnitude_sum_monotone(trade_history@, i + 1, trade_history@.len() as int);
        }
        let trade = &trade_history[i];
        equity = equity.add(&trade.pnl);
        match trade.exit_timestamp {
            Some(ts) => {
                points.push((ts, equity));
                proof {
                    assert(points@.map_values(|p: (i64, Dec)| (p.0, p.1@)) =~= before.push(
                        (ts, equity@),
                    ));
                }
            },
            None => {},
        }
        i = i + 1;
    }
    proof {
        assert(trade_history@.take(trade_history@.len() as int) =~= trade_history@);
    }
    (initial, points, equity)
}

/// Direction of the market trend for a symbol.
#[derive(Clone, Copy, PartialEq, Eq, Debug, Structural)]
pub enum TrendDirection {
    Bullish,
    Bearish,
    Sideways,
}

impl TrendDirection {
    /// The symbol shown for the trend.
    pub fn emoji(&self) -> (r: &'static str)
        ensures
            r@ == (match *self {
                TrendDirection::Bullish => "📈"@,
                TrendDirection::Bearish => "📉"@,
                TrendDirection::Sideways => "→"@,
            }),
    {
        match self {
            TrendDirection::Bullish => "📈",
            TrendDirection::Bearish => "📉",
            TrendDirection::Sideways => "→",
        }
    }
}

} // verus!
