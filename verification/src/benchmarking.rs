//! Benchmark bookkeeping: trades from back-tested orders, win counts and the
//! choice of best and worst scenario.
use crate::decimal::{decimal_difference, decimal_product, iabs, max_units, one_units, units_of, Dec};
use crate::trading::{Order, OrderSide, Trade};
use crate::win_rate::{lemma_diff_times_quantity, pair_orders, trades_of, TradeView};
use vstd::prelude::*;

verus! {

/// Pairing back-tested orders by position: a buy opens (or replaces) the open
/// position; a sell closes an open one. The result is the index of the open
/// buy and the (buy, sell) index pairs of the round trips.
pub open spec fn round_trips(orders: Seq<Order>) -> (Option<int>, Seq<(int, int)>)
    decreases orders.len(),
{
    if orders.len() == 0 {
        (None, Seq::empty())
    } else {
        let (open, pairs) = round_trips(orders.drop_last());
        let k = orders.len() - 1;
        match orders.last().side {
            OrderSide::Buy => (Some(k), pairs),
            OrderSide::Sell => match open {
                Some(b) => (None, pairs.push((b, k))),
                None => (None, pairs),
            },
        }
    }
}

/// The trade record of a round trip: it carries the sell's id, symbol,
/// quantity and time, the buy's price and time, and the profit
/// `(sell price - buy price) * quantity`.
pub open spec fn is_round_trip_record(t: Trade, buy: Order, sell: Order) -> bool {
    &&& t.id@ == sell.id@
    &&& t.symbol@ == sell.symbol@
    &&& t.side == OrderSide::Buy
    &&& t.entry_price == buy.price
    &&& t.exit_price == Some(sell.price)
    &&& t.quantity == sell.quantity
    &&& t.pnl@ == decimal_product(decimal_difference(sell.price@, buy.price@), sell.quantity@)
    &&& t.entry_timestamp == buy.timestamp
    &&& t.exit_timestamp == Some(sell.timestamp)
}

/// A round trip whose profit stays within the decimal range.
pub open spec fn pnl_in_range(buy: Order, sell: Order) -> bool {
    let d = sell.price.units() - buy.price.units();
    &&& -max_units() <= d <= max_units()
    &&& (iabs(d) + one_units()) * iabs(sell.quantity.units()) <= max_units() * one_units()
}

proof fn lemma_round_trips_bounds(orders: Seq<Order>)
    ensures
        round_trips(orders).0 matches Some(b) ==> 0 <= b < orders.len() && orders[b].side
            == OrderSide::Buy,
        forall|k: int|
            0 <= k < round_trips(orders).1.len() ==> {
                let (b, s) = #[trigger] round_trips(orders).1[k];
                0 <= b < s < orders.len() && orders[b].side == OrderSide::Buy && orders[s].side
                    == OrderSide::Sell
            },
    decreases orders.len(),
{
    if orders.len() > 0 {
        let prev = orders.drop_last();
        lemma_round_trips_bounds(prev);
        assert forall|k: int| 0 <= k < round_trips(prev).1.len() implies {
            let (b, s) = #[trigger] round_trips(prev).1[k];
            orders[b] == prev[b] && orders[s] == prev[s]
        } by {}
    }
}

/// The round trips of a prefix of the orders are the first round trips of all
/// the orders.
proof fn lemma_round_trips_prefix(orders: Seq<Order>, i: int)
    requires
        0 <= i <= orders.len(),
    ensures
        round_trips(orders.take(i)).1.len() <= round_trips(orders).1.len(),
        forall|k: int|
            0 <= k < round_trips(orders.take(i)).1.len() ==> #[trigger] round_trips(
                orders.take(i),
            ).1[k] == round_trips(orders).1[k],
    decreases orders.len(),
{
    if i == orders.len() {
        assert(orders.take(i) =~= orders);
    } else {
        let prev = orders.drop_last();
        assert(prev.take(i) =~= orders.take(i));
        lemma_round_trips_prefix(prev, i);
    }
}

/// The (buy price, sell price, quantity) of each round trip.
pub open spec fn round_trip_views(orders: Seq<Order>) -> Seq<TradeView> {
    round_trips(orders).1.map_values(
        |p: (int, int)| (orders[p.0].price@, orders[p.1].price@, orders[p.1].quantity@),
    )
}

proof fn lemma_pairings_agree(orders: Seq<Order>)
    ensures
        pair_orders(orders).0 == (match round_trips(orders).0 {
            Some(b) => Some(orders[b].price@),
            None => None,
        }),
        pair_orders(orders).1 == round_trip_views(orders),
    decreases orders.len(),
{
    if orders.len() > 0 {
        let prev = orders.drop_last();
        lemma_pairings_agree(prev);
        lemma_round_trips_bounds(prev);
        let pairs = round_trips(prev).1;
        assert(round_trip_views(prev) =~= pairs.map_values(
            |p: (int, int)| (orders[p.0].price@, orders[p.1].price@, orders[p.1].quantity@),
        ));
        if let Some(b) = round_trips(prev).0 {
            assert(prev[b] == orders[b]);
        }
        assert(pair_orders(orders).1 =~= round_trip_views(orders));
    }
}

/// The trades of the benchmark and of the empirical win rate pair the same
/// orders: for any order sequence, the trade records of `orders_to_trades`
/// carry exactly the (buy price, sell price, quantity) triples that
/// `reconstruct_trades` returns, in the same order.
pub proof fn lemma_benchmark_trades_match_win_rate_trades(orders: Seq<Order>)
    ensures
        trades_of(orders) == round_trip_views(orders),
{
    lemma_pairings_agree(orders);
}

/// The trades of back-tested orders, one per round trip (for metrics).
pub fn orders_to_trades(orders: &Vec<Order>) -> (r: Vec<Trade>)
    requires
        forall|k: int|
            0 <= k < round_trips(orders@).1.len() ==> {
                let (b, s) = #[trigger] round_trips(orders@).1[k];
                pnl_in_range(orders@[b], orders@[s])
            },
    ensures
        r@.len() == round_trips(orders@).1.len(),
        forall|k: int|
            0 <= k < r@.len() ==> {
                let (b, s) = round_trips(orders@).1[k];
                is_round_trip_record(#[trigger] r@[k], orders@[b], orders@[s])
            },
{
    let mut trades: Vec<Trade> = Vec::new();
    let mut open: Option<usize> = None;
    let mut i: usize = 0;
    proof {
        assert(orders@.take(0) =~= Seq::<Order>::empty());
    }
    while i < orders.len()
        invariant
            i <= orders.len(),
            forall|k: int|
                0 <= k < round_trips(orders@).1.len() ==> {
                    let (b, s) = #[trigger] round_trips(orders@).1[k];
                    pnl_in_range(orders@[b], orders@[s])
                },
            (match open {
                Some(b) => Some(b as int),
                None => None,
            }) == round_trips(orders@.take(i as int)).0,
            trades@.len() == round_trips(orders@.take(i as int)).1.len(),
            forall|k: int|
                0 <= k < trades@.len() ==> {
                    let (b, s) = round_trips(orders@.take(i as int)).1[k];
                    is_round_trip_record(#[trigger] trades@[k], orders@[b], orders@[s])
                },
        decreases orders.len() - i,
    {
        let ghost prefix = orders@.take(i + 1);
        proof {
            assert(prefix.drop_last() =~= orders@.take(i as int));
            assert(prefix.last() == orders@[i as int]);
            lemma_round_trips_bounds(orders@.take(i as int));
            lemma_round_trips_prefix(orders@, i + 1);
        }
        let order = &orders[i];
        match order.side {
            OrderSide::Buy => {
                open = Some(i);
            },
            OrderSide::Sell => {
                if let Some(b) = open {
                    let buy = &orders[b];
                    let ghost k = trades@.len() as int;
                    proof {
                        assert(round_trips(prefix).1[k] == (b as int, i as int));
                        assert(round_trips(orders@).1[k] == (b as int, i as int));
                        assert(pnl_in_range(orders@[b as int], orders@[i as int]));
                    }
                    let diff = order.price.sub(&buy.price);
                    proof {
                        lemma_diff_times_quantity(
                            order.price.units() - buy.price.units(),
                            diff.units(),
                            order.quantity.units(),
                        );
                    }
                    let pnl = diff.mul(&order.quantity);
                    let trade = Trade {
                        id: order.id.clone(),
                        symbol: order.symbol.clone(),
                        side: OrderSide::Buy,
                        entry_price: buy.price,
                        exit_price: Some(order.price),
                        quantity: order.quantity,
                        pnl,
                        entry_timestamp: buy.timestamp,
                        exit_timestamp: Some(order.timestamp),
                    };
                    trades.push(trade);
                    open = None;
                }
            },
        }
        i = i + 1;
    }
    proof {
        assert(orders@.take(orders@.len() as int) =~= orders@);
    }
    trades
}

/// Counting closed trades the way the benchmark report does: each buy is kept
/// on a stack of open entries; a sell closes the latest open entry and wins if
/// its price is above that entry's; a sell with nothing open is ignored. The
/// result is the open entry prices, the wins and the closed trades.
pub open spec fn lifo_counts(orders: Seq<Order>) -> (Seq<(int, nat)>, nat, nat)
    decreases orders.len(),
{
    if orders.len() == 0 {
        (Seq::empty(), 0, 0)
    } else {
        let (open, wins, total) = lifo_counts(orders.drop_last());
        let o = orders.last();
        match o.side {
            OrderSide::Buy => (open.push(o.price@), wins, total),
            OrderSide::Sell => if open.len() > 0 {
                let entry = open.last();
                (
                    open.drop_last(),
                    if units_of(o.price@) > units_of(entry) {
                        wins + 1
                    } else {
                        wins
                    },
                    total + 1,
                )
            } else {
                (open, wins, total)
            },
        }
    }
}

/// The number of winning closed trades and of closed trades among back-tested
/// orders (the win rate of a benchmark entry is their ratio, zero without
/// closed trades).
pub fn closed_trade_counts(orders: &Vec<Order>) -> (r: (usize, usize))
    ensures
        r.0 as nat == lifo_counts(orders@).1,
        r.1 as nat == lifo_counts(orders@).2,
        r.0 <= r.1,
{
    let mut open_buys: Vec<Dec> = Vec::new();
    let mut wins: usize = 0;
    let mut total: usize = 0;
    let mut i: usize = 0;
    proof {
        assert(orders@.take(0) =~= Seq::<Order>::empty());
    }
    while i < orders.len()
        invariant
            i <= orders.len(),
            wins <= total <= i,
            open_buys@.map_values(|d: Dec| d@) == lifo_counts(orders@.take(i as int)).0,
            wins as nat == lifo_counts(orders@.take(i as int)).1,
            total as nat == lifo_counts(orders@.take(i as int)).2,
        decreases orders.len() - i,
    {
        let ghost prefix = orders@.take(i + 1);
        let ghost before = open_buys@;
        proof {
            assert(prefix.drop_last() =~= orders@.take(i as int));
            assert(prefix.last() == orders@[i as int]);
        }
        let order = &orders[i];
        match order.side {
            OrderSide::Buy => {
                open_buys.push(order.price);
                proof {
                    assert(open_buys@.map_values(|d: Dec| d@) =~= before.map_values(|d: Dec| d@).push(
                        order.price@,
                    ));
                }
            },
            OrderSide::Sell => {
                if let Some(entry) = open_buys.pop() {
                    proof {
                        assert(open_buys@ =~= before.drop_last());
                        assert(open_buys@.map_values(|d: Dec| d@) =~= before.map_values(
                            |d: Dec| d@,
                        ).drop_last());
                        assert(entry == before.last());
                    }
                    total = total + 1;
                    if order.price.gt(&entry) {
                        wins = wins + 1;
                    }
                }
            },
        }
        i = i + 1;
    }
    proof {
        assert(orders@.take(orders@.len() as int) =~= orders@);
    }
    (wins, total)
}

/// The number of return_pcts above zero.
pub open spec fn profitable_count(return_pcts: Seq<Dec>) -> nat
    decreases return_pcts.len(),
{
    if return_pcts.len() == 0 {
        0
    } else {
        profitable_count(return_pcts.drop_last()) + if return_pcts.last().units() > 0 {
            1nat
        } else {
            0nat
        }
    }
}

proof fn lemma_profitable_count_bounded(return_pcts: Seq<Dec>)
    ensures
        profitable_count(return_pcts) <= return_pcts.len(),
    decreases return_pcts.len(),
{
    if return_pcts.len() > 0 {
        lemma_profitable_count_bounded(return_pcts.drop_last());
    }
}

/// The counts and the chosen scenarios of a benchmark summary.
#[derive(Clone, Copy, Debug, PartialEq, Eq, Structural)]
pub struct ScenarioSummary {
    pub total_scenarios: usize,
    pub profitable_scenarios: usize,
    /// Index of the best scenario: the last of those with the highest return.
    pub best: usize,
    /// Index of the worst scenario: the first of those with the lowest return.
    pub worst: usize,
}

/// Whether, among the first `n` returns, `best` is the last index of a highest
/// return and `worst` the first index of a lowest one.
pub open spec fn best_and_worst_upto(return_pcts: Seq<Dec>, n: int, best: int, worst: int) -> bool {
    &&& 0 <= best < n
    &&& 0 <= worst < n
    &&& forall|j: int| 0 <= j < n ==> (#[trigger] return_pcts[j]).units() <= return_pcts[best].units()
    &&& forall|j: int| best < j < n ==> (#[trigger] return_pcts[j]).units() < return_pcts[best].units()
    &&& forall|j: int| 0 <= j < n ==> (#[trigger] return_pcts[j]).units() >= return_pcts[worst].units()
    &&& forall|j: int| 0 <= j < worst ==> (#[trigger] return_pcts[j]).units() > return_pcts[worst].units()
}

/// Whether `best` is the last index of a highest return and `worst` the first
/// index of a lowest one.
pub open spec fn is_best_and_worst(return_pcts: Seq<Dec>, best: int, worst: int) -> bool {
    best_and_worst_upto(return_pcts, return_pcts.len() as int, best, worst)
}

/// Writes benchmark reports into a directory.
pub struct BenchmarkReporter {
    output_dir: String,
}

impl BenchmarkReporter {
    pub closed spec fn spec_output_dir(self) -> Seq<char> {
        self.output_dir@
    }

    /// A reporter writing into `output_dir` (which the caller creates).
    pub fn new(output_dir: &str) -> (r: Self)
        ensures
            r.spec_output_dir() == output_dir@,
    {
        BenchmarkReporter { output_dir: output_dir.to_string() }
    }

    /// The directory reports are written into.
    pub fn output_dir(&self) -> (r: &str)
        ensures
            r@ == self.spec_output_dir(),
    {
        self.output_dir.as_str()
    }

    /// The summary of the scenarios' return_pcts (in percent): how many there are,
    /// how many gained, and which did best and worst. `None` without scenarios.
    pub fn summarize_returns(&self, return_pcts: &Vec<Dec>) -> (r: Option<ScenarioSummary>)
        ensures
            r is None <==> return_pcts@.len() == 0,
            r matches Some(s) ==> s.total_scenarios == return_pcts@.len() && s.profitable_scenarios
                == profitable_count(return_pcts@) && is_best_and_worst(
                return_pcts@,
                s.best as int,
                s.worst as int,
            ),
    {
        if return_pcts.len() == 0 {
            return None;
        }
        let zero = Dec::zero();
        let mut profitable: usize = if return_pcts[0].gt(&zero) {
            1
        } else {
            0
        };
        let mut best: usize = 0;
        let mut worst: usize = 0;
        let mut i: usize = 1;
        proof {
            assert(return_pcts@.take(1).drop_last() =~= Seq::<Dec>::empty());
            assert(return_pcts@.take(1).last() == return_pcts@[0]);
            assert(profitable_count(Seq::<Dec>::empty()) == 0);
            assert(profitable_count(return_pcts@.take(1)) == profitable as nat);
        }
        while i < return_pcts.len()
            invariant
                1 <= i <= return_pcts.len(),
                profitable as nat == profitable_count(return_pcts@.take(i as int)),
                profitable <= i,
                zero.units() == 0,
                best_and_worst_upto(return_pcts@, i as int, best as int, worst as int),
            decreases return_pcts.len() - i,
        {
            proof {
                assert(return_pcts@.take(i + 1).drop_last() =~= return_pcts@.take(i as int));
                assert(return_pcts@.take(i + 1).last() == return_pcts@[i as int]);
            }
            proof {
                lemma_profitable_count_bounded(return_pcts@.take(i as int));
            }
            if return_pcts[i].gt(&zero) {
                profitable = profitable + 1;
            }
            if return_pcts[i].ge(&return_pcts[best]) {
                best = i;
            }
            if return_pcts[i].lt(&return_pcts[worst]) {
                worst = i;
            }
            i = i + 1;
        }
        proof {
            assert(return_pcts@.take(return_pcts@.len() as int) =~= return_pcts@);
        }
        Some(
            ScenarioSummary {
                total_scenarios: return_pcts.len(),
                profitable_scenarios: profitable,
                best,
                worst,
            },
        )
    }
}

} // verus!
