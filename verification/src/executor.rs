//! Order execution bookkeeping: the optimistic portfolio update after a fill,
//! startup reconciliation and the protective stop placed after a buy.
use crate::context::{stop_move, stop_units_in_range, StopMove, StopState};
use crate::cost_evaluator::{product_bound, ConstantFeeModel};
use crate::decimal::{
    decimal_difference, decimal_product, decimal_quotient, decimal_sum, fits_at_scale, iabs,
    lemma_pow10_positive, max_mantissa, max_scale, max_units, one_units, pow10, units_of, Dec,
};
use crate::text::str_eq;
use crate::trading::{
    find_position, first_position_index, holds_symbol, Order, OrderSide, OrderStatus, OrderType,
    Portfolio, Position,
};
use vstd::prelude::*;
use vstd::string::StringExecFns;

verus! {

/// A position as plain values: symbol, quantity, average price.
pub type PositionView = (Seq<char>, (int, nat), (int, nat));

/// The positions of a portfolio as plain values.
pub open spec fn positions_view(positions: Seq<Position>) -> Seq<PositionView> {
    positions.map_values(|p: Position| (p.symbol@, p.quantity@, p.average_price@))
}


/// The cash after a fill of value `cost` with `fees`: a buy pays `cost + fees`,
/// a sell receives `cost - fees`; a reversal undoes either.
pub open spec fn cash_after_fill(
    cash: (int, nat),
    side: OrderSide,
    is_reversal: bool,
    cost: (int, nat),
    fees: (int, nat),
) -> (int, nat) {
    match side {
        OrderSide::Buy => if is_reversal {
            decimal_sum(cash, decimal_sum(cost, fees))
        } else {
            decimal_difference(cash, decimal_sum(cost, fees))
        },
        OrderSide::Sell => if is_reversal {
            decimal_difference(cash, decimal_difference(cost, fees))
        } else {
            decimal_sum(cash, decimal_difference(cost, fees))
        },
    }
}

/// A position after a buy of `quantity` worth `cost`: the quantities add up and
/// the average price becomes the total value over the new quantity (kept when
/// the new quantity is zero).
pub open spec fn position_after_buy(p: PositionView, quantity: (int, nat), cost: (int, nat)) -> PositionView {
    let total = decimal_sum(decimal_product(p.1, p.2), cost);
    let new_quantity = decimal_sum(p.1, quantity);
    (
        p.0,
        new_quantity,
        if units_of(new_quantity) != 0 {
            decimal_quotient(total, new_quantity)
        } else {
            p.2
        },
    )
}

/// The position after a fill of `quantity` (buy, sell or their reversal).
pub open spec fn position_after_fill(
    p: PositionView,
    side: OrderSide,
    is_reversal: bool,
    quantity: (int, nat),
    cost: (int, nat),
) -> PositionView {
    match side {
        OrderSide::Buy => if is_reversal {
            (p.0, decimal_difference(p.1, quantity), p.2)
        } else {
            position_after_buy(p, quantity, cost)
        },
        OrderSide::Sell => if is_reversal {
            (p.0, decimal_sum(p.1, quantity), p.2)
        } else {
            (p.0, decimal_difference(p.1, quantity), p.2)
        },
    }
}

/// The positions after a fill in `symbol`: the symbol's first position is
/// updated; a buy of a symbol not held opens a position from zero; a sell of a
/// symbol not held changes nothing.
pub open spec fn positions_after_fill(
    positions: Seq<Position>,
    symbol: Seq<char>,
    side: OrderSide,
    is_reversal: bool,
    quantity: (int, nat),
    cost: (int, nat),
) -> Seq<PositionView> {
    let view = positions_view(positions);
    if holds_symbol(positions, symbol) {
        let i = first_position_index(positions, symbol);
        view.update(i, position_after_fill(view[i], side, is_reversal, quantity, cost))
    } else if side == OrderSide::Buy {
        view.push(position_after_fill((symbol, (0, 0), (0, 0)), side, is_reversal, quantity, cost))
    } else {
        view
    }
}

/// A lower bound on the magnitude of the sum of decimals with units `a`, `b` and
/// scales `sa`, `sb` as `add` computes it: exact when the sum fits at the larger
/// scale, within one otherwise.
pub open spec fn sum_magnitude_floor(a: int, sa: nat, b: int, sb: nat) -> int {
    if fits_at_scale(a + b, max_scale(sa, sb)) {
        iabs(a + b)
    } else {
        iabs(a + b) - one_units()
    }
}

/// A position (quantity `q` at scale `qs`, average price `a`, in units) whose
/// update by `order` stays within the decimal range.
pub open spec fn position_in_range(q: int, qs: nat, a: int, order: Order, cost: int) -> bool {
    let o = one_units();
    let value = product_bound(q, a);
    let floor = sum_magnitude_floor(q, qs, order.quantity.units(), order.quantity@.1);
    &&& iabs(q) + iabs(order.quantity.units()) <= max_units()
    &&& iabs(q * a) <= max_units() * o
    &&& value + cost + o <= max_units()
    &&& floor > 0 ==> (value + cost + o) * o <= max_units() * floor
}

/// Fills whose bookkeeping stays within the decimal range.
pub open spec fn fill_in_range(portfolio: Portfolio, order: Order, fees: Dec) -> bool {
    let o = one_units();
    let cost = product_bound(order.price.units(), order.quantity.units());
    &&& iabs(order.price.units() * order.quantity.units()) <= max_units() * o
    &&& iabs(portfolio.cash.units()) + cost + iabs(fees.units()) + 2 * o <= max_units()
    &&& positions_in_range(portfolio.positions@, order, cost)
}

/// The fees charged for an order: the broker's when known, otherwise the fee
/// model's estimate (commission plus slippage).
pub open spec fn fees_for(real_fees: Option<Dec>, model: ConstantFeeModel, order: Order) -> (
    int,
    nat,
) {
    match real_fees {
        Some(f) => f@,
        None => decimal_sum(
            decimal_product(order.quantity@, model.commission_per_share@),
            decimal_product(decimal_product(order.price@, order.quantity@), model.slippage_pct@),
        ),
    }
}

/// The fees for an order (see [`fees_for`]).
pub fn order_fees(real_fees: Option<Dec>, model: &ConstantFeeModel, order: &Order) -> (r: Dec)
    requires
        real_fees is None ==> ({
            let o = one_units();
            let b = product_bound(order.quantity.units(), model.commission_per_share.units());
            let v = product_bound(order.price.units(), order.quantity.units());
            &&& iabs(order.quantity.units() * model.commission_per_share.units()) <= max_units() * o
            &&& iabs(order.price.units() * order.quantity.units()) <= max_units() * o
            &&& iabs(v * model.slippage_pct.units()) <= max_units() * o
            &&& b + product_bound(v, model.slippage_pct.units()) <= max_units()
        }),
    ensures
        r@ == fees_for(real_fees, *model, *order),
{
    match real_fees {
        Some(f) => f,
        None => {
            let estimate = model.calculate_cost(order.quantity, order.price, order.side);
            estimate.fee.add(&estimate.slippage_cost)
        },
    }
}

/// The held positions, and the position a buy would open, stay in range.
pub open spec fn positions_in_range(positions: Seq<Position>, order: Order, cost: int) -> bool {
    &&& forall|i: int|
        0 <= i < positions.len() ==> {
            let p = #[trigger] positions[i];
            position_in_range(p.quantity.units(), p.quantity@.1, p.average_price.units(), order, cost)
        }
    &&& !holds_symbol(positions, order.symbol@) ==> position_in_range(0, 0, 0, order, cost)
}

/// Update the portfolio optimistically after `order` was sent (or undo that
/// update when `is_reversal`): cash moves by the order's value and fees, and the
/// symbol's position changes by its quantity; a buy also updates the average
/// price.
pub fn update_portfolio(portfolio: &mut Portfolio, order: &Order, is_reversal: bool, fees: Dec)
    requires
        fill_in_range(*old(portfolio), *order, fees),
    ensures
        final(portfolio).cash@ == cash_after_fill(
            old(portfolio).cash@,
            order.side,
            is_reversal,
            decimal_product(order.price@, order.quantity@),
            fees@,
        ),
        positions_view(final(portfolio).positions@) == positions_after_fill(
            old(portfolio).positions@,
            order.symbol@,
            order.side,
            is_reversal,
            order.quantity@,
            decimal_product(order.price@, order.quantity@),
        ),
{
    let ghost c = product_bound(order.price.units(), order.quantity.units());
    let cost = order.price.mul(&order.quantity);
    proof {
        crate::cost_evaluator::lemma_product_bound(
            order.price.units(),
            order.quantity.units(),
            cost.units(),
        );
    }
    portfolio.cash = fill_cash(portfolio.cash, order.side, is_reversal, cost, fees);
    match order.side {
        OrderSide::Buy => buy_position(&mut portfolio.positions, order, is_reversal, cost),
        OrderSide::Sell => sell_position(&mut portfolio.positions, order, is_reversal),
    }
}

/// Settle an order once the exchange has answered: an executed order updates
/// the portfolio with `fees` (as `update_portfolio`) and is recorded as `New`,
/// now on the exchange; an order whose execution failed leaves the portfolio as
/// it was and is recorded as `Rejected`.
pub fn settle_execution(portfolio: &mut Portfolio, order: &Order, executed: bool, fees: Dec) -> (r:
    OrderStatus)
    requires
        executed ==> fill_in_range(*old(portfolio), *order, fees),
    ensures
        !executed ==> r == OrderStatus::Rejected && *final(portfolio) == *old(portfolio),
        executed ==> r == OrderStatus::New && final(portfolio).cash@ == cash_after_fill(
            old(portfolio).cash@,
            order.side,
            false,
            decimal_product(order.price@, order.quantity@),
            fees@,
        ) && positions_view(final(portfolio).positions@) == positions_after_fill(
            old(portfolio).positions@,
            order.symbol@,
            order.side,
            false,
            order.quantity@,
            decimal_product(order.price@, order.quantity@),
        ),
{
    if !executed {
        return OrderStatus::Rejected;
    }
    update_portfolio(portfolio, order, false, fees);
    OrderStatus::New
}

fn fill_cash(cash: Dec, side: OrderSide, is_reversal: bool, cost: Dec, fees: Dec) -> (r: Dec)
    requires
        iabs(cash.units()) + iabs(cost.units()) + iabs(fees.units()) + 2 * one_units()
            <= max_units(),
    ensures
        r@ == cash_after_fill(cash@, side, is_reversal, cost@, fees@),
{
    match side {
        OrderSide::Buy => {
            let charge = cost.add(&fees);
            if is_reversal {
                cash.add(&charge)
            } else {
                cash.sub(&charge)
            }
        },
        OrderSide::Sell => {
            let proceeds = cost.sub(&fees);
            if is_reversal {
                cash.sub(&proceeds)
            } else {
                cash.add(&proceeds)
            }
        },
    }
}

fn buy_position(positions: &mut Vec<Position>, order: &Order, is_reversal: bool, cost: Dec)
    requires
        order.side == OrderSide::Buy,
        positions_in_range(old(positions)@, *order, product_bound(order.price.units(), order.quantity.units())),
        iabs(cost.units()) <= product_bound(order.price.units(), order.quantity.units()),
    ensures
        positions_view(final(positions)@) == positions_after_fill(
            old(positions)@,
            order.symbol@,
            order.side,
            is_reversal,
            order.quantity@,
            cost@,
        ),
{
    let ghost c = product_bound(order.price.units(), order.quantity.units());
    let ghost view0 = positions_view(positions@);
    let ghost positions0 = positions@;
    let index = match find_position(positions, order.symbol.as_str()) {
        Some(i) => i,
        None => {
            let fresh = Position {
                symbol: String::from_str(order.symbol.as_str()),
                quantity: Dec::zero(),
                average_price: Dec::zero(),
            };
            positions.push(fresh);
            proof {
                assert(positions_view(positions@) =~= view0.push(
                    (order.symbol@, (0int, 0nat), (0int, 0nat)),
                ));
            }
            positions.len() - 1
        },
    };
    let ghost view1 = positions_view(positions@);
    let mut position = positions.remove(index);
    proof {
        if holds_symbol(positions0, order.symbol@) {
            let p = positions0[index as int];
            assert(position_in_range(
                p.quantity.units(),
                p.quantity@.1,
                p.average_price.units(),
                *order,
                c,
            ));
        } else {
            lemma_zero_units();
        }
    }
    if is_reversal {
        position.quantity = position.quantity.sub(&order.quantity);
    } else {
        position = bought(position, order, cost);
    }
    positions.insert(index, position);
    proof {
        assert(positions_view(positions@) =~= view1.update(
            index as int,
            (position.symbol@, position.quantity@, position.average_price@),
        ));
        if !holds_symbol(positions0, order.symbol@) {
            assert(view1 =~= view0.push((order.symbol@, (0int, 0nat), (0int, 0nat))));
            assert(view0.push((order.symbol@, (0int, 0nat), (0int, 0nat))).update(
                view0.len() as int,
                (position.symbol@, position.quantity@, position.average_price@),
            ) =~= view0.push((position.symbol@, position.quantity@, position.average_price@)));
        }
    }
}

/// The position after buying `order.quantity` worth `cost`.
fn bought(position: Position, order: &Order, cost: Dec) -> (r: Position)
    requires
        position_in_range(
            position.quantity.units(),
            position.quantity@.1,
            position.average_price.units(),
            *order,
            product_bound(order.price.units(), order.quantity.units()),
        ),
        iabs(cost.units()) <= product_bound(order.price.units(), order.quantity.units()),
    ensures
        (r.symbol@, r.quantity@, r.average_price@) == position_after_buy(
            (position.symbol@, position.quantity@, position.average_price@),
            order.quantity@,
            cost@,
        ),
{
    let ghost o = one_units();
    let ghost c = product_bound(order.price.units(), order.quantity.units());
    let mut position = position;
    let held = position.quantity.mul(&position.average_price);
    proof {
        crate::cost_evaluator::lemma_product_bound(
            position.quantity.units(),
            position.average_price.units(),
            held.units(),
        );
    }
    let total = held.add(&cost);
    let new_quantity = position.quantity.add(&order.quantity);
    if !new_quantity.is_zero() {
        proof {
            lemma_sum_floor(position.quantity, order.quantity, new_quantity);
            lemma_division_ready(
                total.units(),
                product_bound(position.quantity.units(), position.average_price.units()) + c + o,
                new_quantity.units(),
                sum_magnitude_floor(
                    position.quantity.units(),
                    position.quantity@.1,
                    order.quantity.units(),
                    order.quantity@.1,
                ),
            );
        }
        position.average_price = total.div(&new_quantity);
    }
    position.quantity = new_quantity;
    position
}

fn sell_position(positions: &mut Vec<Position>, order: &Order, is_reversal: bool)
    requires
        order.side == OrderSide::Sell,
        positions_in_range(old(positions)@, *order, product_bound(order.price.units(), order.quantity.units())),
    ensures
        positions_view(final(positions)@) == positions_after_fill(
            old(positions)@,
            order.symbol@,
            order.side,
            is_reversal,
            order.quantity@,
            decimal_product(order.price@, order.quantity@),
        ),
{
    let ghost c = product_bound(order.price.units(), order.quantity.units());
    let ghost view0 = positions_view(positions@);
    let ghost positions0 = positions@;
    if let Some(index) = find_position(positions, order.symbol.as_str()) {
        let mut position = positions.remove(index);
        proof {
            let p = positions0[index as int];
            assert(position_in_range(
                p.quantity.units(),
                p.quantity@.1,
                p.average_price.units(),
                *order,
                c,
            ));
        }
        if is_reversal {
            position.quantity = position.quantity.add(&order.quantity);
        } else {
            position.quantity = position.quantity.sub(&order.quantity);
        }
        positions.insert(index, position);
        proof {
            assert(positions_view(positions@) =~= view0.update(
                index as int,
                (position.symbol@, position.quantity@, position.average_price@),
            ));
        }
    }
}

proof fn lemma_zero_units()
    ensures
        units_of((0int, 0nat)) == 0,
{
    assert(0 * pow10(28) == 0) by (nonlinear_arith);
}

/// The magnitude of a sum that `add` returned is at least the floor, which is
/// positive when the sum is not zero.
proof fn lemma_sum_floor(a: Dec, b: Dec, r: Dec)
    requires
        fits_at_scale(a.units() + b.units(), max_scale(a@.1, b@.1)) ==> r.units() == a.units()
            + b.units(),
        a.units() + b.units() - one_units() <= r.units() <= a.units() + b.units() + one_units(),
        r.units() != 0,
    ensures
        sum_magnitude_floor(a.units(), a@.1, b.units(), b@.1) > 0,
        iabs(r.units()) >= sum_magnitude_floor(a.units(), a@.1, b.units(), b@.1),
{
    let s = max_scale(a@.1, b@.1);
    let u = a.units() + b.units();
    if !fits_at_scale(u, s) {
        lemma_pow10_positive((28 - s) as nat);
        let p = pow10((28 - s) as nat);
        assert(max_mantissa() * p >= max_mantissa()) by (nonlinear_arith)
            requires
                p >= 1,
        ;
        assert(iabs(u) > max_mantissa());
    }
}

/// A dividend bounded by `bound` over a divisor at least `floor` in magnitude
/// fits the division's range.
proof fn lemma_division_ready(t: int, bound: int, d: int, floor: int)
    requires
        iabs(t) <= bound,
        floor > 0,
        iabs(d) >= floor,
        bound * one_units() <= max_units() * floor,
    ensures
        -max_units() * iabs(d) <= t * one_units() <= max_units() * iabs(d),
{
    let o = one_units();
    let m = max_units();
    assert(iabs(t) * o <= bound * o) by (nonlinear_arith)
        requires
            iabs(t) <= bound,
            o > 0,
    ;
    assert(m * floor <= m * iabs(d)) by (nonlinear_arith)
        requires
            floor <= iabs(d),
            m > 0,
    ;
    assert(iabs(t * o) == iabs(t) * o) by (nonlinear_arith)
        requires
            o > 0,
    ;
    assert((-m) * iabs(d) == -(m * iabs(d))) by (nonlinear_arith);
}

/// Whether an order id occurs in a list of orders.
pub open spec fn lists_order(orders: Seq<Order>, id: Seq<char>) -> bool {
    exists|i: int| 0 <= i < orders.len() && (#[trigger] orders[i]).id@ == id
}

fn contains_order(orders: &Vec<Order>, id: &str) -> (r: bool)
    ensures
        r == lists_order(orders@, id@),
{
    let mut i: usize = 0;
    while i < orders.len()
        invariant
            i <= orders.len(),
            forall|j: int| 0 <= j < i ==> (#[trigger] orders@[j]).id@ != id@,
        decreases orders.len() - i,
    {
        if str_eq(orders[i].id.as_str(), id) {
            return true;
        }
        i = i + 1;
    }
    false
}

/// Startup reconciliation of an order persisted as pending: found among the
/// exchange's open or today's orders it is confirmed (`New`), otherwise it never
/// reached the exchange (`Rejected`).
pub fn reconciled_status(order_id: &str, open_orders: &Vec<Order>, today_orders: &Vec<Order>) -> (r:
    OrderStatus)
    ensures
        r == (if lists_order(open_orders@, order_id@) || lists_order(today_orders@, order_id@) {
            OrderStatus::New
        } else {
            OrderStatus::Rejected
        }),
{
    if contains_order(open_orders, order_id) || contains_order(today_orders, order_id) {
        OrderStatus::New
    } else {
        OrderStatus::Rejected
    }
}

/// A trailing stop order kept on the exchange for a position.
#[derive(Clone, Debug)]
pub struct ActiveTrailingStop {
    pub stop_order_id: String,
    pub stop_state: StopState,
    pub quantity: Dec,
    pub trailing_distance: Dec,
    pub correlation_id: Option<String>,
}

fn copy_text(s: &Option<String>) -> (r: Option<String>)
    ensures
        match s {
            Some(t) => r matches Some(u) && u@ == t@,
            None => r is None,
        },
{
    match s {
        Some(t) => Some(t.clone()),
        None => None,
    }
}

/// After a buy with a stop loss at a distance from its price, the stop to place:
/// a sell stop order at the stop-loss price for the bought quantity (id
/// `stop_id`, sent at `now_ms`), and the trailing stop that follows it at that
/// distance. Other orders get no stop.
pub fn protective_stop(order: &Order, stop_id: String, now_ms: i64) -> (r: Option<
    (Order, ActiveTrailingStop),
>)
    requires
        order.stop_loss matches Some(sl) ==> (order.side == OrderSide::Buy ==> (-max_units()
            <= order.price.units() - sl.units() <= max_units()
            && crate::context::stop_units_in_range(
            order.price.units(),
            iabs(order.price.units() - sl.units()) + one_units(),
            one_units(),
        ))),
    ensures
        !(order.side == OrderSide::Buy && order.stop_loss is Some) ==> r is None,
        order.stop_loss matches Some(sl) ==> (order.side == OrderSide::Buy ==> {
            let distance = decimal_difference(order.price@, sl@);
            let magnitude = (iabs(distance.0), distance.1);
            if units_of(distance) == 0 {
                r is None
            } else {
                r matches Some((stop, active)) && stop.id@ == stop_id@ && stop.symbol@
                    == order.symbol@ && stop.side == OrderSide::Sell && stop.price == sl
                    && stop.quantity == order.quantity && stop.order_type == OrderType::Stop
                    && stop.status == OrderStatus::Pending && stop.timestamp == now_ms
                    && stop.stop_loss is None && active.stop_order_id@ == stop_id@
                    && active.quantity == order.quantity && active.trailing_distance@ == magnitude
                    && (active.stop_state matches StopState::ActiveStop {
                    entry_price: e,
                    stop_price: sp,
                } && e == order.price && sp@ == crate::context::initial_stop(
                    order.price@,
                    magnitude,
                    (1, 0),
                ))
            }
        }),
{
    if order.side != OrderSide::Buy {
        return None;
    }
    let sl = match order.stop_loss {
        Some(sl) => sl,
        None => {
            return None;
        },
    };
    let distance = order.price.sub(&sl).abs();
    if !distance.gt(&Dec::zero()) {
        return None;
    }
    let one = Dec::from_int(1);
    proof {
        lemma_stop_distance(order.price.units(), sl.units(), distance.units());
    }
    let stop = Order {
        id: String::from_str(stop_id.as_str()),
        symbol: String::from_str(order.symbol.as_str()),
        side: OrderSide::Sell,
        price: sl,
        quantity: order.quantity,
        order_type: OrderType::Stop,
        status: OrderStatus::Pending,
        timestamp: now_ms,
        stop_loss: None,
        correlation_id: copy_text(&order.correlation_id),
    };
    let active = ActiveTrailingStop {
        stop_order_id: stop_id,
        stop_state: StopState::on_buy(order.price, distance, one),
        quantity: order.quantity,
        trailing_distance: distance,
        correlation_id: copy_text(&order.correlation_id),
    };
    Some((stop, active))
}

/// What a candle closing at `close` does to the stop kept at index `k` of
/// `before`: a close at or below the stop triggers it and the entry leaves the
/// book; a higher trailing stop (`close - trailing_distance`) replaces the stop
/// order by a sell stop at the new price (id `new_stop_id`, sent at `now_ms`);
/// otherwise nothing changes.
pub open spec fn candle_effect(
    before: TrailingStopBook,
    after: TrailingStopBook,
    k: int,
    close: Dec,
    new_stop_id: Seq<char>,
    now_ms: i64,
    r: StopUpdate,
) -> bool {
    let a = before.stops()[k];
    match stop_move(a.stop_state, close, a.trailing_distance@, (1, 0)) {
        StopMove::Kept => r is Unchanged && after.symbols() == before.symbols() && after.stops()
            == before.stops(),
        StopMove::Triggered => r is Triggered && after.symbols() == before.symbols().remove(k)
            && after.stops() == before.stops().remove(k),
        StopMove::Raised(c) => {
            &&& r matches StopUpdate::Moved { cancel_id, order }
            &&& cancel_id@ == a.stop_order_id@
            &&& order.id@ == new_stop_id
            &&& order.symbol@ == before.symbols()[k]
            &&& order.side == OrderSide::Sell
            &&& order.price@ == c
            &&& order.quantity == a.quantity
            &&& order.order_type == OrderType::Stop
            &&& order.status == OrderStatus::Pending
            &&& order.timestamp == now_ms
            &&& order.stop_loss is None
            &&& opt_text(order.correlation_id) == opt_text(a.correlation_id)
            &&& after.symbols() == before.symbols()
            &&& after.stops().len() == before.stops().len()
            &&& forall|j: int|
                0 <= j < before.stops().len() && j != k ==> #[trigger] after.stops()[j]
                    == before.stops()[j]
            &&& after.stops()[k].stop_order_id@ == new_stop_id
            &&& after.stops()[k].quantity == a.quantity
            &&& after.stops()[k].trailing_distance == a.trailing_distance
            &&& opt_text(after.stops()[k].correlation_id) == opt_text(a.correlation_id)
            &&& after.stops()[k].stop_state matches StopState::ActiveStop {
                entry_price,
                stop_price,
            }
            &&& entry_price == a.stop_state->entry_price
            &&& stop_price@ == c
        },
    }
}

proof fn lemma_remove_unique(s: Seq<Seq<char>>, i: int)
    requires
        s.no_duplicates(),
        0 <= i < s.len(),
    ensures
        s.remove(i).no_duplicates(),
        !s.remove(i).contains(s[i]),
        forall|t: Seq<char>| t != s[i] ==> (#[trigger] s.remove(i).contains(t) == s.contains(t)),
{
    let r = s.remove(i);
    assert forall|a: int, b: int| 0 <= a < b < r.len() implies r[a] != r[b] by {
        let a0 = if a < i { a } else { a + 1 };
        let b0 = if b < i { b } else { b + 1 };
        assert(r[a] == s[a0]);
        assert(r[b] == s[b0]);
    }
    if r.contains(s[i]) {
        let k = choose|k: int| 0 <= k < r.len() && r[k] == s[i];
        if k < i {
            assert(s[k] == s[i]);
        } else {
            assert(s[k + 1] == s[i]);
        }
    }
    assert forall|t: Seq<char>| t != s[i] implies (#[trigger] r.contains(t) == s.contains(t)) by {
        if s.contains(t) {
            let k = choose|k: int| 0 <= k < s.len() && s[k] == t;
            if k < i {
                assert(r[k] == t);
            } else {
                assert(r[k - 1] == t);
            }
        }
        if r.contains(t) {
            let k = choose|k: int| 0 <= k < r.len() && r[k] == t;
            if k < i {
                assert(s[k] == t);
            } else {
                assert(s[k + 1] == t);
            }
        }
    }
}

proof fn lemma_stop_distance(p: int, sl: int, d: int)
    requires
        iabs(d) <= iabs(p - sl) + one_units(),
        crate::context::stop_units_in_range(p, iabs(p - sl) + one_units(), one_units()),
    ensures
        crate::context::stop_units_in_range(p, d, one_units()),
{
    let o = one_units();
    let b = iabs(p - sl) + o;
    assert(iabs(d * o) <= iabs(b * o)) by (nonlinear_arith)
        requires
            iabs(d) <= b,
            o > 0,
    ;
}

/// An optional text as plain characters.
pub open spec fn opt_text(o: Option<String>) -> Option<Seq<char>> {
    match o {
        Some(t) => Some(t@),
        None => None,
    }
}

/// Prices at which following `stop` stays within the decimal range.
pub open spec fn follow_in_range(stop: ActiveTrailingStop, price: Dec) -> bool {
    stop.stop_state matches StopState::ActiveStop { stop_price, .. } && price.units()
        > stop_price.units() ==> stop_units_in_range(
        price.units(),
        stop.trailing_distance.units(),
        one_units(),
    )
}

/// What a candle did to the trailing stops.
#[derive(Debug)]
pub enum StopUpdate {
    /// The stop stays where it was (or the symbol has none).
    Unchanged,
    /// The close reached the stop; the stop is no longer tracked.
    Triggered,
    /// The stop rose: cancel the order `cancel_id` and place `order`.
    Moved { cancel_id: String, order: Order },
}

/// The trailing stops kept on the exchange, by symbol.
pub struct TrailingStopBook {
    entries: Vec<(String, ActiveTrailingStop)>,
}

/// The symbols of the book's entries.
pub open spec fn book_symbols(entries: Seq<(String, ActiveTrailingStop)>) -> Seq<Seq<char>> {
    entries.map_values(|e: (String, ActiveTrailingStop)| e.0@)
}

impl TrailingStopBook {
    /// The symbols with a trailing stop, in the order the stops were placed.
    pub closed spec fn symbols(self) -> Seq<Seq<char>> {
        book_symbols(self.entries@)
    }

    /// The stop order id kept for each entry.
    pub closed spec fn stop_ids(self) -> Seq<Seq<char>> {
        self.entries@.map_values(|e: (String, ActiveTrailingStop)| e.1.stop_order_id@)
    }

    /// The trailing stop kept for each entry, in the order of `symbols()`.
    pub closed spec fn stops(self) -> Seq<ActiveTrailingStop> {
        self.entries@.map_values(|e: (String, ActiveTrailingStop)| e.1)
    }

    /// Each symbol has one stop at most, listed with its symbol.
    pub open spec fn wf(self) -> bool {
        &&& self.symbols().no_duplicates()
        &&& self.stops().len() == self.symbols().len()
    }

    pub fn new() -> (r: Self)
        ensures
            r.symbols() == Seq::<Seq<char>>::empty(),
            r.wf(),
    {
        let r = TrailingStopBook { entries: Vec::new() };
        assert(r.symbols() =~= Seq::<Seq<char>>::empty());
        r
    }

    fn find(&self, symbol: &str) -> (r: Option<usize>)
        ensures
            r matches Some(i) ==> i < self.symbols().len() && self.symbols()[i as int] == symbol@,
            r is None ==> !self.symbols().contains(symbol@),
    {
        let mut i: usize = 0;
        while i < self.entries.len()
            invariant
                i <= self.entries.len(),
                forall|j: int| 0 <= j < i ==> (#[trigger] self.entries@[j]).0@ != symbol@,
            decreases self.entries.len() - i,
        {
            if str_eq(self.entries[i].0.as_str(), symbol) {
                proof {
                    assert(self.symbols()[i as int] == self.entries@[i as int].0@);
                }
                return Some(i);
            }
            i = i + 1;
        }
        proof {
            if self.symbols().contains(symbol@) {
                let k = choose|k: int| 0 <= k < self.symbols().len() && self.symbols()[k] == symbol@;
                assert(self.entries@[k].0@ == self.symbols()[k]);
            }
        }
        None
    }

    /// Track the trailing stop placed for `symbol`, replacing an earlier one.
    pub fn insert(&mut self, symbol: &str, stop: ActiveTrailingStop)
        requires
            old(self).wf(),
        ensures
            final(self).wf(),
            final(self).symbols().contains(symbol@),
            forall|s: Seq<char>| #[trigger] final(self).symbols().contains(s) <==> (old(self).symbols().contains(s) || s == symbol@),
            forall|k: int|
                0 <= k < final(self).symbols().len() && final(self).symbols()[k] == symbol@
                    ==> #[trigger] final(self).stops()[k] == stop,
    {
        let ghost before = self.symbols();
        match self.find(symbol) {
            Some(i) => {
                let ghost entries0 = self.entries@;
                self.entries.set(i, (String::from_str(symbol), stop));
                proof {
                    assert(self.symbols() =~= before.update(i as int, symbol@));
                    assert(before.update(i as int, symbol@) =~= before);
                }
            },
            None => {
                self.entries.push((String::from_str(symbol), stop));
                proof {
                    assert(self.symbols() =~= before.push(symbol@));
                    assert forall|s: Seq<char>| #[trigger] self.symbols().contains(s) <==> (before.contains(s) || s == symbol@) by {
                        if self.symbols().contains(s) {
                            let k = choose|k: int| 0 <= k < self.symbols().len() && self.symbols()[k] == s;
                            if k < before.len() {
                                assert(before[k] == s);
                            }
                        }
                        if before.contains(s) {
                            let k = choose|k: int| 0 <= k < before.len() && before[k] == s;
                            assert(self.symbols()[k] == s);
                        }
                        if s == symbol@ {
                            assert(self.symbols()[before.len() as int] == s);
                        }
                    }
                    assert forall|a: int, b: int| 0 <= a < b < self.symbols().len() implies self.symbols()[a] != self.symbols()[b] by {
                        if b == before.len() {
                            assert(before[a] == self.symbols()[a]);
                        }
                    }
                }
            },
        }
    }

    /// On a sell that exits the position, stop tracking the symbol's trailing
    /// stop and return its order id, which is then cancelled.
    pub fn remove_for_exit(&mut self, symbol: &str) -> (r: Option<String>)
        requires
            old(self).wf(),
        ensures
            final(self).wf(),
            !final(self).symbols().contains(symbol@),
            (r is Some) == old(self).symbols().contains(symbol@),
            forall|s: Seq<char>| s != symbol@ ==> (#[trigger] final(self).symbols().contains(s) == old(self).symbols().contains(s)),
            r matches Some(id) ==> exists|k: int|
                0 <= k < old(self).symbols().len() && old(self).symbols()[k] == symbol@ && #[trigger] old(
                    self,
                ).stop_ids()[k] == id@,
    {
        let ghost before = self.symbols();
        let ghost ids = self.stop_ids();
        match self.find(symbol) {
            Some(i) => {
                let (_, stop) = self.entries.remove(i);
                proof {
                    assert(self.symbols() =~= before.remove(i as int));
                    assert(ids[i as int] == stop.stop_order_id@);
                    assert forall|s: Seq<char>| s != symbol@ implies (#[trigger] self.symbols().contains(s) == before.contains(s)) by {
                        if before.contains(s) {
                            let k = choose|k: int| 0 <= k < before.len() && before[k] == s;
                            assert(k != i);
                            if k < i {
                                assert(self.symbols()[k] == s);
                            } else {
                                assert(self.symbols()[k - 1] == s);
                            }
                        }
                        if self.symbols().contains(s) {
                            let k = choose|k: int| 0 <= k < self.symbols().len() && self.symbols()[k] == s;
                            if k < i {
                                assert(before[k] == s);
                            } else {
                                assert(before[k + 1] == s);
                            }
                        }
                    }
                    if self.symbols().contains(symbol@) {
                        let k = choose|k: int| 0 <= k < self.symbols().len() && self.symbols()[k] == symbol@;
                        if k < i {
                            assert(before[k] == symbol@);
                        } else {
                            assert(before[k + 1] == symbol@);
                        }
                    }
                    assert forall|a: int, b: int| 0 <= a < b < self.symbols().len() implies self.symbols()[a] != self.symbols()[b] by {
                        let a0 = if a < i { a } else { a + 1 };
                        let b0 = if b < i { b } else { b + 1 };
                        assert(self.symbols()[a] == before[a0]);
                        assert(self.symbols()[b] == before[b0]);
                    }
                }
                Some(stop.stop_order_id)
            },
            None => None,
        }
    }
    /// Follow a candle's close with the symbol's trailing stop (the trailing
    /// distance as the stop's distance, multiplier one). A close at or below the
    /// stop triggers it and the entry is dropped; a higher stop replaces the stop
    /// order by a new sell stop order (id `new_stop_id`, sent at `now_ms`), whose
    /// id the entry then keeps. A symbol without an entry changes nothing.
    pub fn on_candle(&mut self, symbol: &str, close: Dec, new_stop_id: String, now_ms: i64) -> (r:
        StopUpdate)
        requires
            old(self).wf(),
            forall|k: int|
                0 <= k < old(self).symbols().len() && old(self).symbols()[k] == symbol@
                    ==> follow_in_range(#[trigger] old(self).stops()[k], close),
        ensures
            final(self).wf(),
            !old(self).symbols().contains(symbol@) ==> r is Unchanged && *final(self) == *old(
                self,
            ),
            forall|k: int|
                0 <= k < old(self).symbols().len() && #[trigger] old(self).symbols()[k] == symbol@
                    ==> candle_effect(*old(self), *final(self), k, close, new_stop_id@, now_ms, r),
    {
        let ghost before = self.symbols();
        let ghost stops0 = self.stops();
        match self.find(symbol) {
            None => StopUpdate::Unchanged,
            Some(i) => {
                proof {
                    assert(stops0[i as int] == self.entries@[i as int].1);
                    assert forall|k: int|
                        0 <= k < before.len() && #[trigger] before[k] == symbol@ implies k
                        == i by {
                        if k != i {
                            assert(before[k] == before[i as int]);
                        }
                    }
                }
                let one = Dec::from_int(1);
                let old_state = self.entries[i].1.stop_state;
                let distance = self.entries[i].1.trailing_distance;
                let mut state = old_state;
                let trigger = state.on_price_update(close, distance, one);
                if trigger.is_some() {
                    let _ = self.entries.remove(i);
                    proof {
                        assert(self.symbols() =~= before.remove(i as int));
                        assert(self.stops() =~= stops0.remove(i as int));
                        lemma_remove_unique(before, i as int);
                    }
                    return StopUpdate::Triggered;
                }
                let moved = match (old_state, state) {
                    (
                        StopState::ActiveStop { stop_price: s0, .. },
                        StopState::ActiveStop { stop_price: s1, .. },
                    ) => s1.gt(&s0),
                    _ => false,
                };
                if !moved {
                    return StopUpdate::Unchanged;
                }
                let new_price = match state {
                    StopState::ActiveStop { stop_price, .. } => stop_price,
                    StopState::NoPosition => close,
                };
                let quantity = self.entries[i].1.quantity;
                let cancel_id = self.entries[i].1.stop_order_id.clone();
                let correlation = copy_text(&self.entries[i].1.correlation_id);
                let order = Order {
                    id: new_stop_id.clone(),
                    symbol: String::from_str(symbol),
                    side: OrderSide::Sell,
                    price: new_price,
                    quantity,
                    order_type: OrderType::Stop,
                    status: OrderStatus::Pending,
                    timestamp: now_ms,
                    stop_loss: None,
                    correlation_id: copy_text(&correlation),
                };
                let updated = ActiveTrailingStop {
                    stop_order_id: new_stop_id,
                    stop_state: state,
                    quantity,
                    trailing_distance: distance,
                    correlation_id: correlation,
                };
                self.entries.set(i, (String::from_str(symbol), updated));
                proof {
                    assert(self.symbols() =~= before.update(i as int, symbol@));
                    assert(before.update(i as int, symbol@) =~= before);
                }
                StopUpdate::Moved { cancel_id, order }
            },
        }
    }
}

} // verus!
