//! Win rates from the order history: buys paired with the following sells.
use crate::cost_evaluator::product_bound;
use crate::decimal::{
    decimal_difference, decimal_product, decimal_quotient, decimal_sum, iabs, lemma_pow10_28,
    max_units, one_units, units_of, Dec,
};
use crate::text::str_eq;
use crate::trading::{Order, OrderSide};
use vstd::prelude::*;

verus! {

/// A completed round trip as plain values: buy price, sell price, quantity.
pub type TradeView = ((int, nat), (int, nat), (int, nat));

/// Pairing orders in sequence: a buy opens (or replaces) the open position; a
/// sell closes an open one into a trade at the sell's quantity; a sell with
/// nothing open is ignored. The result is the open buy price and the trades.
pub open spec fn pair_orders(orders: Seq<Order>) -> (Option<(int, nat)>, Seq<TradeView>)
    decreases orders.len(),
{
    if orders.len() == 0 {
        (None, Seq::empty())
    } else {
        let (open, trades) = pair_orders(orders.drop_last());
        let o = orders.last();
        match o.side {
            OrderSide::Buy => (Some(o.price@), trades),
            OrderSide::Sell => match open {
                Some(buy) => (None, trades.push((buy, o.price@, o.quantity@))),
                None => (None, trades),
            },
        }
    }
}

/// The trades of a symbol's orders.
pub open spec fn trades_of(orders: Seq<Order>) -> Seq<TradeView> {
    pair_orders(orders).1
}

/// The trades as plain values.
pub open spec fn trade_views(trades: Seq<(Dec, Dec, Dec)>) -> Seq<TradeView> {
    trades.map_values(|t: (Dec, Dec, Dec)| (t.0@, t.1@, t.2@))
}

/// Reconstruct the completed trades from a symbol's orders (in time order).
pub fn reconstruct_trades(orders: &Vec<Order>) -> (r: Vec<(Dec, Dec, Dec)>)
    ensures
        trade_views(r@) == trades_of(orders@),
{
    let mut trades: Vec<(Dec, Dec, Dec)> = Vec::new();
    let mut open: Option<Dec> = None;
    let mut i: usize = 0;
    while i < orders.len()
        invariant
            i <= orders.len(),
            trade_views(trades@) == pair_orders(orders@.take(i as int)).1,
            (match open {
                Some(p) => Some(p@),
                None => None,
            }) == pair_orders(orders@.take(i as int)).0,
        decreases orders.len() - i,
    {
        let ghost before = trade_views(trades@);
        proof {
            assert(orders@.take(i + 1).drop_last() =~= orders@.take(i as int));
            assert(orders@.take(i + 1).last() == orders@[i as int]);
        }
        let order = &orders[i];
        match order.side {
            OrderSide::Buy => {
                open = Some(order.price);
            },
            OrderSide::Sell => {
                if let Some(buy) = open {
                    trades.push((buy, order.price, order.quantity));
                    proof {
                        assert(trade_views(trades@) =~= before.push((buy@, order.price@, order.quantity@)));
                    }
                    open = None;
                }
            },
        }
        i = i + 1;
    }
    proof {
        assert(orders@.take(orders@.len() as int) =~= orders@);
    }
    trades
}

/// The number of trades sold above their buy price.
pub open spec fn wins(trades: Seq<TradeView>) -> nat
    decreases trades.len(),
{
    if trades.len() == 0 {
        0
    } else {
        wins(trades.drop_last()) + if units_of(trades.last().1) > units_of(trades.last().0) {
            1nat
        } else {
            0nat
        }
    }
}

proof fn lemma_wins_bounded(trades: Seq<TradeView>)
    ensures
        wins(trades) <= trades.len(),
    decreases trades.len(),
{
    if trades.len() > 0 {
        lemma_wins_bounded(trades.drop_last());
    }
}

/// The number of winning trades.
pub fn count_wins(trades: &Vec<(Dec, Dec, Dec)>) -> (r: usize)
    ensures
        r == wins(trade_views(trades@)),
{
    let mut count: usize = 0;
    let mut i: usize = 0;
    while i < trades.len()
        invariant
            i <= trades.len(),
            count == wins(trade_views(trades@).take(i as int)),
            count <= i,
        decreases trades.len() - i,
    {
        proof {
            let t = trade_views(trades@);
            assert(t.take(i + 1).drop_last() =~= t.take(i as int));
            assert(t.take(i + 1).last() == t[i as int]);
        }
        let (buy, sell, _quantity) = trades[i];
        if sell.gt(&buy) {
            count = count + 1;
        }
        i = i + 1;
    }
    proof {
        assert(trade_views(trades@).take(trades@.len() as int) =~= trade_views(trades@));
    }
    count
}

/// Win counting over all symbols at once: each symbol's orders are paired on
/// their own; the result counts (trades, winning trades).
pub open spec fn overall_counts(orders: Seq<Order>) -> (nat, nat)
    decreases orders.len(),
{
    if orders.len() == 0 {
        (0, 0)
    } else {
        let (total, won) = overall_counts(orders.drop_last());
        let o = orders.last();
        let earlier = orders.drop_last().filter(|p: Order| p.symbol@ == o.symbol@);
        match o.side {
            OrderSide::Buy => (total, won),
            OrderSide::Sell => match pair_orders(earlier).0 {
                Some(buy) => (total + 1, won + if units_of(o.price@) > units_of(buy) {
                    1nat
                } else {
                    0nat
                }),
                None => (total, won),
            },
        }
    }
}

/// Trade totals of one symbol.
#[derive(Clone, Copy, Debug)]
pub struct TradeTotals {
    pub total_trades: usize,
    pub winning_trades: usize,
    pub losing_trades: usize,
    /// Sum of the profits of winning trades.
    pub total_profit: Dec,
    /// Sum of the magnitudes of the losses of the other trades.
    pub total_loss: Dec,
}

/// The profit or loss of a trade: `(sell - buy) * quantity`.
pub open spec fn trade_pnl(t: TradeView) -> (int, nat) {
    decimal_product(decimal_difference(t.1, t.0), t.2)
}

/// Profit and loss totals: winning trades (positive profit) add their profit,
/// the others the magnitude of their loss.
pub open spec fn pnl_totals(trades: Seq<TradeView>) -> (nat, (int, nat), (int, nat))
    decreases trades.len(),
{
    if trades.len() == 0 {
        (0, (0, 0), (0, 0))
    } else {
        let (won, profit, loss) = pnl_totals(trades.drop_last());
        let p = trade_pnl(trades.last());
        if units_of(p) > 0 {
            (won + 1, decimal_sum(profit, p), loss)
        } else {
            (won, profit, decimal_sum(loss, (iabs(p.0), p.1)))
        }
    }
}

/// A bound on the magnitude of a trade's profit or loss (in units).
pub open spec fn pnl_bound(t: (Dec, Dec, Dec)) -> int {
    product_bound(iabs(t.1.units() - t.0.units()) + one_units(), iabs(t.2.units()))
}

/// The sum of the profit bounds of the first `n` trades.
pub open spec fn pnl_bound_sum(trades: Seq<(Dec, Dec, Dec)>, n: int) -> int
    decreases n,
{
    if n <= 0 {
        0
    } else {
        pnl_bound_sum(trades, n - 1) + pnl_bound(trades[n - 1])
    }
}

/// Trades whose totals stay within the decimal range.
pub open spec fn totals_in_range(trades: Seq<(Dec, Dec, Dec)>) -> bool {
    &&& forall|i: int|
        0 <= i < trades.len() ==> {
            let t = #[trigger] trades[i];
            &&& -max_units() <= t.1.units() - t.0.units() <= max_units()
            &&& (iabs(t.1.units() - t.0.units()) + one_units()) * iabs(t.2.units()) <= max_units()
                * one_units()
        }
    &&& pnl_bound_sum(trades, trades.len() as int) + trades.len() * one_units() <= max_units()
}

proof fn lemma_bound_sum_monotone(trades: Seq<(Dec, Dec, Dec)>, a: int, b: int)
    requires
        0 <= a <= b <= trades.len(),
    ensures
        pnl_bound_sum(trades, a) <= pnl_bound_sum(trades, b),
    decreases b - a,
{
    if a < b {
        lemma_bound_sum_monotone(trades, a, b - 1);
        assert(pnl_bound(trades[b - 1]) >= 0) by {
            let t = trades[b - 1];
            let u = iabs(t.1.units() - t.0.units()) + one_units();
            let v = iabs(t.2.units());
            assert((iabs(u * v) + one_units() * one_units()) / one_units() >= 0) by (nonlinear_arith)
                requires
                    one_units() > 0,
            ;
        }
    }
}

/// The totals of a symbol's trades.
pub fn trade_totals(trades: &Vec<(Dec, Dec, Dec)>) -> (r: TradeTotals)
    requires
        totals_in_range(trades@),
    ensures
        r.total_trades == trades@.len(),
        (r.winning_trades as nat, r.total_profit@, r.total_loss@) == pnl_totals(trade_views(trades@)),
        r.losing_trades == r.total_trades - r.winning_trades,
{
    let mut won: usize = 0;
    let mut profit = Dec::zero();
    let mut loss = Dec::zero();
    let mut i: usize = 0;
    while i < trades.len()
        invariant
            i <= trades.len(),
            totals_in_range(trades@),
            won <= i,
            (won as nat, profit@, loss@) == pnl_totals(trade_views(trades@).take(i as int)),
            iabs(profit.units()) + iabs(loss.units()) <= pnl_bound_sum(trades@, i as int) + i * one_units(),
        decreases trades.len() - i,
    {
        proof {
            let t = trade_views(trades@);
            assert(t.take(i + 1).drop_last() =~= t.take(i as int));
            assert(t.take(i + 1).last() == t[i as int]);
            lemma_bound_sum_monotone(trades@, i + 1, trades@.len() as int);
        }
        let (buy, sell, quantity) = trades[i];
        let ghost t = trades@[i as int];
        assert(-max_units() <= t.1.units() - t.0.units() <= max_units());
        let diff = sell.sub(&buy);
        proof {
            lemma_diff_times_quantity(sell.units() - buy.units(), diff.units(), quantity.units());
        }
        let pnl = diff.mul(&quantity);
        proof {
            crate::cost_evaluator::lemma_product_bound(diff.units(), quantity.units(), pnl.units());
            lemma_bound_mono(diff.units(), iabs(sell.units() - buy.units()) + one_units(), quantity.units());
        }
        if pnl.gt(&Dec::zero()) {
            won = won + 1;
            profit = profit.add(&pnl);
        } else {
            let magnitude = pnl.abs();
            loss = loss.add(&magnitude);
        }
        i = i + 1;
    }
    proof {
        assert(trade_views(trades@).take(trades@.len() as int) =~= trade_views(trades@));
    }
    TradeTotals {
        total_trades: trades.len(),
        winning_trades: won,
        losing_trades: trades.len() - won,
        total_profit: profit,
        total_loss: loss,
    }
}

pub(crate) proof fn lemma_diff_times_quantity(exact: int, d: int, q: int)
    requires
        exact - one_units() <= d <= exact + one_units(),
        (iabs(exact) + one_units()) * iabs(q) <= max_units() * one_units(),
    ensures
        -max_units() * one_units() <= d * q <= max_units() * one_units(),
{
    assert(iabs(d * q) <= (iabs(exact) + one_units()) * iabs(q)) by (nonlinear_arith)
        requires
            iabs(d) <= iabs(exact) + one_units(),
    ;
}

proof fn lemma_bound_mono(u: int, big_u: int, v: int)
    requires
        iabs(u) <= big_u,
    ensures
        product_bound(u, v) <= product_bound(big_u, iabs(v)),
{
    let o = one_units();
    assert(iabs(u * v) <= iabs(big_u * iabs(v))) by (nonlinear_arith)
        requires
            iabs(u) <= big_u,
    ;
    assert((iabs(u * v) + o * o) / o <= (iabs(big_u * iabs(v)) + o * o) / o) by (nonlinear_arith)
        requires
            iabs(u * v) <= iabs(big_u * iabs(v)),
            o > 0,
    ;
}

/// Averages of a symbol's trade totals: the average profit of the winning
/// trades, the average loss of the others, and the profit factor (total profit
/// over total loss); each zero when its divisor is zero.
pub open spec fn averages_of(t: TradeTotals) -> ((int, nat), (int, nat), (int, nat)) {
    (
        if t.winning_trades > 0 {
            decimal_quotient(t.total_profit@, (t.winning_trades as int, 0))
        } else {
            (0, 0)
        },
        if t.losing_trades > 0 {
            decimal_quotient(t.total_loss@, (t.losing_trades as int, 0))
        } else {
            (0, 0)
        },
        if t.total_loss.units() > 0 {
            decimal_quotient(t.total_profit@, t.total_loss@)
        } else {
            (0, 0)
        },
    )
}

/// Totals whose averages stay within the decimal range (the profit factor may
/// not exceed it).
pub open spec fn averages_in_range(t: TradeTotals) -> bool {
    t.total_loss.units() > 0 ==> iabs(t.total_profit.units() * one_units()) <= max_units()
        * t.total_loss.units()
}

/// The average profit, average loss and profit factor of a symbol's trade
/// totals.
pub fn trade_averages(totals: &TradeTotals) -> (r: (Dec, Dec, Dec))
    requires
        averages_in_range(*totals),
    ensures
        (r.0@, r.1@, r.2@) == averages_of(*totals),
{
    proof {
        lemma_pow10_28();
    }
    let zero = Dec::zero();
    let avg_profit = if totals.winning_trades > 0 {
        let n = Dec::from_u64(totals.winning_trades as u64);
        totals.total_profit.in_range();
        proof {
            lemma_divide_by_count(totals.total_profit.units(), totals.winning_trades as int);
        }
        totals.total_profit.div(&n)
    } else {
        zero
    };
    let avg_loss = if totals.losing_trades > 0 {
        let n = Dec::from_u64(totals.losing_trades as u64);
        totals.total_loss.in_range();
        proof {
            lemma_divide_by_count(totals.total_loss.units(), totals.losing_trades as int);
        }
        totals.total_loss.div(&n)
    } else {
        zero
    };
    let factor = if totals.total_loss.gt(&zero) {
        proof {
            lemma_factor_in_range(totals.total_profit.units(), totals.total_loss.units());
        }
        totals.total_profit.div(&totals.total_loss)
    } else {
        zero
    };
    (avg_profit, avg_loss, factor)
}

proof fn lemma_factor_in_range(p: int, l: int)
    requires
        l > 0,
        iabs(p * one_units()) <= max_units() * l,
    ensures
        -max_units() * (if l < 0 { -l } else { l }) <= p * one_units() <= max_units() * (if l < 0 {
            -l
        } else {
            l
        }),
{
    let x = p * one_units();
    let y = max_units() * l;
    assert(-max_units() * l == -y) by (nonlinear_arith)
        requires
            y == max_units() * l,
    ;
    assert(-y <= x <= y);
}

proof fn lemma_divide_by_count(s: int, n: int)
    requires
        -max_units() <= s <= max_units(),
        n >= 1,
    ensures
        -max_units() * iabs(n * one_units()) <= s * one_units() <= max_units() * iabs(
            n * one_units(),
        ),
{
    let o = one_units();
    let m = max_units();
    assert(iabs(s * o) <= m * (n * o)) by (nonlinear_arith)
        requires
            -m <= s <= m,
            n >= 1,
            o > 0,
    ;
    assert(n * o > 0) by (nonlinear_arith)
        requires
            n >= 1,
            o > 0,
    ;
    assert((-m) * (n * o) == -(m * (n * o))) by (nonlinear_arith);
}

/// The open buy price kept for a symbol in a list of (symbol, open price) slots
/// (none for a symbol without a slot).
pub open spec fn open_of(slots: Seq<(Seq<char>, Option<(int, nat)>)>, symbol: Seq<char>) -> Option<(int, nat)>
    decreases slots.len(),
{
    if slots.len() == 0 {
        None
    } else if slots.last().0 == symbol {
        slots.last().1
    } else {
        open_of(slots.drop_last(), symbol)
    }
}

/// The orders of one symbol.
pub open spec fn of_symbol(orders: Seq<Order>, symbol: Seq<char>) -> Seq<Order> {
    orders.filter(|p: Order| p.symbol@ == symbol)
}

fn slot_index(slots: &Vec<(String, Option<Dec>)>, symbol: &str) -> (r: Option<usize>)
    ensures
        r matches Some(i) ==> i < slots.len() && slots@[i as int].0@ == symbol@ && forall|j: int|
            i < j < slots.len() ==> (#[trigger] slots@[j]).0@ != symbol@,
        r is None ==> forall|j: int| 0 <= j < slots.len() ==> (#[trigger] slots@[j]).0@ != symbol@,
{
    let mut i: usize = slots.len();
    while i > 0
        invariant
            i <= slots.len(),
            forall|j: int| i <= j < slots.len() ==> (#[trigger] slots@[j]).0@ != symbol@,
        decreases i,
    {
        if str_eq(slots[i - 1].0.as_str(), symbol) {
            return Some(i - 1);
        }
        i = i - 1;
    }
    None
}

/// The slots as plain values.
pub open spec fn slot_views(slots: Seq<(String, Option<Dec>)>) -> Seq<(Seq<char>, Option<(int, nat)>)> {
    slots.map_values(
        |s: (String, Option<Dec>)|
            (
                s.0@,
                match s.1 {
                    Some(p) => Some(p@),
                    None => None,
                },
            ),
    )
}

proof fn lemma_open_of_last_match(
    slots: Seq<(Seq<char>, Option<(int, nat)>)>,
    i: int,
    symbol: Seq<char>,
)
    requires
        0 <= i < slots.len(),
        slots[i].0 == symbol,
        forall|j: int| i < j < slots.len() ==> (#[trigger] slots[j]).0 != symbol,
    ensures
        open_of(slots, symbol) == slots[i].1,
    decreases slots.len(),
{
    if i < slots.len() - 1 {
        lemma_open_of_last_match(slots.drop_last(), i, symbol);
    }
}

proof fn lemma_open_of_absent(slots: Seq<(Seq<char>, Option<(int, nat)>)>, symbol: Seq<char>)
    requires
        forall|j: int| 0 <= j < slots.len() ==> (#[trigger] slots[j]).0 != symbol,
    ensures
        open_of(slots, symbol) is None,
    decreases slots.len(),
{
    if slots.len() > 0 {
        lemma_open_of_absent(slots.drop_last(), symbol);
    }
}

proof fn lemma_open_of_update(
    slots: Seq<(Seq<char>, Option<(int, nat)>)>,
    i: int,
    value: Option<(int, nat)>,
    other: Seq<char>,
)
    requires
        0 <= i < slots.len(),
        other != slots[i].0,
    ensures
        open_of(slots.update(i, (slots[i].0, value)), other) == open_of(slots, other),
    decreases slots.len(),
{
    let t = slots.update(i, (slots[i].0, value));
    if i < slots.len() - 1 {
        assert(t.drop_last() =~= slots.drop_last().update(i, (slots[i].0, value)));
        lemma_open_of_update(slots.drop_last(), i, value, other);
    } else {
        assert(t.drop_last() =~= slots.drop_last());
    }
}

/// Trades and winning trades over all symbols, each symbol's orders paired on
/// their own (see [`overall_counts`]).
pub fn overall_win_counts(orders: &Vec<Order>) -> (r: (usize, usize))
    ensures
        (r.0 as nat, r.1 as nat) == overall_counts(orders@),
{
    let mut slots: Vec<(String, Option<Dec>)> = Vec::new();
    let mut total: usize = 0;
    let mut won: usize = 0;
    let mut i: usize = 0;
    while i < orders.len()
        invariant
            i <= orders.len(),
            won <= total <= i,
            (total as nat, won as nat) == overall_counts(orders@.take(i as int)),
            forall|s: Seq<char>|
                #[trigger] open_of(slot_views(slots@), s) == pair_orders(
                    of_symbol(orders@.take(i as int), s),
                ).0,
        decreases orders.len() - i,
    {
        let ghost prefix = orders@.take(i as int);
        let ghost slots0 = slot_views(slots@);
        let order = &orders[i];
        proof {
            assert(orders@.take(i + 1).drop_last() =~= prefix);
            assert(orders@.take(i + 1).last() == order);
            assert(orders@.take(i + 1) =~= prefix.push(*order));
            assert forall|s: Seq<char>| #[trigger] of_symbol(prefix.push(*order), s) == if order.symbol@ == s {
                of_symbol(prefix, s).push(*order)
            } else {
                of_symbol(prefix, s)
            } by {
                prefix.lemma_filter_push(*order, |p: Order| p.symbol@ == s);
            }
            assert(of_symbol(prefix.push(*order), order.symbol@).drop_last() =~= of_symbol(prefix, order.symbol@));
        }
        let found = slot_index(&slots, order.symbol.as_str());
        let current: Option<Dec> = match found {
            Some(k) => {
                proof {
                    lemma_open_of_last_match(slot_views(slots@), k as int, order.symbol@);
                }
                slots[k].1
            },
            None => {
                proof {
                    lemma_open_of_absent(slot_views(slots@), order.symbol@);
                }
                None
            },
        };
        let next: Option<Dec> = match order.side {
            OrderSide::Buy => Some(order.price),
            OrderSide::Sell => {
                if let Some(buy) = current {
                    total = total + 1;
                    if order.price.gt(&buy) {
                        won = won + 1;
                    }
                }
                None
            },
        };
        match found {
            Some(k) => {
                let entry = (String::from_str(order.symbol.as_str()), next);
                slots.set(k, entry);
                proof {
                    assert(slot_views(slots@) =~= slots0.update(
                        k as int,
                        (
                            slots0[k as int].0,
                            match next {
                                Some(p) => Some(p@),
                                None => None,
                            },
                        ),
                    ));
                    assert forall|s: Seq<char>| #[trigger] open_of(slot_views(slots@), s) == pair_orders(
                        of_symbol(prefix.push(*order), s),
                    ).0 by {
                        if s == order.symbol@ {
                            lemma_open_of_last_match(slot_views(slots@), k as int, s);
                        } else {
                            lemma_open_of_update(
                                slots0,
                                k as int,
                                match next {
                                    Some(p) => Some(p@),
                                    None => None,
                                },
                                s,
                            );
                        }
                    }
                }
            },
            None => {
                slots.push((String::from_str(order.symbol.as_str()), next));
                proof {
                    assert(slot_views(slots@) =~= slots0.push(
                        (
                            order.symbol@,
                            match next {
                                Some(p) => Some(p@),
                                None => None,
                            },
                        ),
                    ));
                    assert forall|s: Seq<char>| #[trigger] open_of(slot_views(slots@), s) == pair_orders(
                        of_symbol(prefix.push(*order), s),
                    ).0 by {
                        assert(slot_views(slots@).drop_last() =~= slots0);
                        assert(open_of(slots0, s) == pair_orders(of_symbol(prefix, s)).0);
                    }
                }
            },
        }
        proof {
            assert(of_symbol(prefix, order.symbol@) == prefix.filter(|p: Order| p.symbol@ == order.symbol@));
        }
        i = i + 1;
    }
    proof {
        assert(orders@.take(orders@.len() as int) =~= orders@);
    }
    (total, won)
}

} // verus!
