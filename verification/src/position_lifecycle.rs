//! Position lifecycle: pending orders, trailing stop set-up and portfolio sync.
use crate::context::{acknowledged, initial_stop, stop_in_range, stop_units_in_range, StopState, SymbolContext};
use crate::decimal::{lemma_pow10_28, one_units, pow10, Dec};
use crate::text::str_eq;
use crate::trading::Order;
use vstd::prelude::*;

verus! {

/// Synchronise the symbol's state with the portfolio: acknowledge pending orders
/// and, once the position is gone, allow a new partial take-profit.
pub fn sync_position_state(context: &mut SymbolContext, symbol: &str, has_position: bool)
    ensures
        *final(context) == (SymbolContext {
            position_manager: acknowledged(old(context).position_manager, has_position),
            taken_profit: has_position && old(context).taken_profit,
            ..*old(context)
        }),
        (old(context).position_manager.pending_order == Some(crate::trading::OrderSide::Buy)
            && has_position) ==> (final(context).position_manager.pending_order is None
            && final(context).position_manager.trailing_stop
            == old(context).position_manager.trailing_stop),
        (old(context).position_manager.pending_order == Some(crate::trading::OrderSide::Sell)
            && !has_position) ==> (final(context).position_manager.pending_order is None
            && final(context).position_manager.trailing_stop is NoPosition),
        !((old(context).position_manager.pending_order == Some(crate::trading::OrderSide::Buy)
            && has_position) || (old(context).position_manager.pending_order == Some(
            crate::trading::OrderSide::Sell,
        ) && !has_position)) ==> final(context).position_manager
            == old(context).position_manager,
        final(context).taken_profit == (has_position && old(context).taken_profit),
        final(context).config == old(context).config,
        final(context).last_features == old(context).last_features,
        final(context).last_entry_time == old(context).last_entry_time,
        final(context).position_manager.last_signal_time
            == old(context).position_manager.last_signal_time,
        final(context).position_manager.pending_since
            == old(context).position_manager.pending_since,
{
    context.position_manager.ack_pending_orders(has_position, symbol);
    if !has_position {
        context.taken_profit = false;
    }
}

/// The ATR assumed when none is known yet.
pub open spec fn default_atr() -> (int, nat) {
    (10, 1)
}

/// Start a trailing stop for a position found in the portfolio (left over from
/// an earlier session or opened by hand), unless one is already active. Without
/// a known ATR, an ATR of 1.0 is assumed.
pub fn initialize_trailing_stop_if_needed(
    context: &mut SymbolContext,
    symbol: &str,
    entry_price: Dec,
    atr: Option<Dec>,
)
    requires
        !old(context).position_manager.trailing_stop.spec_is_active() ==> stop_units_in_range(
            entry_price.units(),
            match atr {
                Some(a) => a.units(),
                None => one_units(),
            },
            old(context).config.trailing_stop_atr_multiplier.units(),
        ),
    ensures
        old(context).position_manager.trailing_stop.spec_is_active() ==> *final(context)
            == *old(context),
        !old(context).position_manager.trailing_stop.spec_is_active() ==> ({
            let atr_view = match atr {
                Some(a) => a@,
                None => default_atr(),
            };
            &&& final(context).position_manager.trailing_stop matches StopState::ActiveStop {
                entry_price: e,
                stop_price: s,
            } && e == entry_price && s@ == initial_stop(
                entry_price@,
                atr_view,
                old(context).config.trailing_stop_atr_multiplier@,
            )
            &&& *final(context) == (SymbolContext {
                position_manager: crate::context::PositionManager {
                    trailing_stop: final(context).position_manager.trailing_stop,
                    ..old(context).position_manager
                },
                ..*old(context)
            })
        }),
{
    if context.position_manager.trailing_stop.is_active() {
        return;
    }
    let atr_value = match atr {
        Some(a) => a,
        None => {
            let one = Dec::new(10, 1);
            proof {
                lemma_pow10_28();
                assert(pow10(28) == 10 * pow10(27));
                assert(one.units() == one_units());
            }
            one
        },
    };
    let multiplier = context.config.trailing_stop_atr_multiplier;
    context.position_manager.trailing_stop = StopState::on_buy(entry_price, atr_value, multiplier);
}

/// Start the trailing stop right after a buy at `price`, when a positive ATR is
/// known; otherwise nothing changes.
pub fn initialize_trailing_stop_on_buy(context: &mut SymbolContext, price: Dec)
    requires
        old(context).last_features.atr matches Some(a) ==> (a.units() > 0 ==> stop_in_range(
            price,
            a,
            old(context).config.trailing_stop_atr_multiplier,
        )),
    ensures
        old(context).last_features.atr matches Some(a) ==> a.units() > 0 ==> ({
            &&& final(context).position_manager.trailing_stop matches StopState::ActiveStop {
                entry_price: e,
                stop_price: s,
            } && e == price && s@ == initial_stop(
                price@,
                a@,
                old(context).config.trailing_stop_atr_multiplier@,
            )
            &&& *final(context) == (SymbolContext {
                position_manager: crate::context::PositionManager {
                    trailing_stop: final(context).position_manager.trailing_stop,
                    ..old(context).position_manager
                },
                ..*old(context)
            })
        }),
        !(old(context).last_features.atr matches Some(a) && a.units() > 0) ==> *final(context)
            == *old(context),
{
    if let Some(atr) = context.last_features.atr {
        if atr.gt(&Dec::zero()) {
            let multiplier = context.config.trailing_stop_atr_multiplier;
            context.position_manager.trailing_stop = StopState::on_buy(price, atr, multiplier);
        }
    }
}

/// The ids of the open orders for `symbol`, in order: after a pending order timed
/// out, these are cancelled; when there are none, the pending state is cleared.
pub fn orphaned_order_ids(open_orders: &Vec<Order>, symbol: &str) -> (r: Vec<String>)
    ensures
        r@.map_values(|id: String| id@) == open_orders@.filter(
            |o: Order| o.symbol@ == symbol@,
        ).map_values(|o: Order| o.id@),
{
    let mut ids: Vec<String> = Vec::new();
    let mut i: usize = 0;
    while i < open_orders.len()
        invariant
            i <= open_orders.len(),
            ids@.map_values(|id: String| id@) == open_orders@.subrange(0, i as int).filter(
                |o: Order| o.symbol@ == symbol@,
            ).map_values(|o: Order| o.id@),
        decreases open_orders.len() - i,
    {
        let ghost prefix = open_orders@.subrange(0, i as int);
        proof {
            assert(open_orders@.subrange(0, i + 1) == prefix.push(open_orders@[i as int]));
            prefix.lemma_filter_push(open_orders@[i as int], |o: Order| o.symbol@ == symbol@);
        }
        let order = &open_orders[i];
        let ghost before = ids@;
        if str_eq(order.symbol.as_str(), symbol) {
            let id = order.id.clone();
            ids.push(id);
            proof {
                assert(ids@.map_values(|id: String| id@) =~= before.map_values(|id: String| id@).push(
                    order.id@,
                ));
                assert(prefix.push(open_orders@[i as int]).filter(|o: Order| o.symbol@ == symbol@).map_values(
                    |o: Order| o.id@,
                ) =~= prefix.filter(|o: Order| o.symbol@ == symbol@).map_values(|o: Order| o.id@).push(
                    order.id@,
                ));
            }
        }
        i = i + 1;
    }
    proof {
        assert(open_orders@.subrange(0, open_orders@.len() as int) == open_orders@);
    }
    ids
}

} // verus!
