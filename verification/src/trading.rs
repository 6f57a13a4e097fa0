//! Orders, proposals, positions and trades.
use crate::decimal::Dec;
use crate::text::str_eq;
use vstd::prelude::*;

verus! {

#[derive(Clone, Copy, Debug, PartialEq, Eq, Structural, Hash)]
pub enum OrderSide {
    Buy,
    Sell,
}

#[derive(Clone, Copy, Debug, PartialEq, Eq, Structural, Hash)]
pub enum OrderType {
    Market,
    Limit,
    Stop,
}

#[derive(Clone, Copy, Debug, PartialEq, Eq, Structural, Hash)]
pub enum OrderStatus {
    Pending,
    New,
    PartiallyFilled,
    Filled,
    Canceled,
    Expired,
    Rejected,
}

/// An order sent to (or received from) the exchange.
#[derive(Clone, Debug)]
pub struct Order {
    pub id: String,
    pub symbol: String,
    pub side: OrderSide,
    pub price: Dec,
    pub quantity: Dec,
    pub order_type: OrderType,
    pub status: OrderStatus,
    pub timestamp: i64,
    pub stop_loss: Option<Dec>,
    pub correlation_id: Option<String>,
}

/// A trade proposed to the risk manager.
#[derive(Clone, Debug)]
pub struct TradeProposal {
    pub symbol: String,
    pub side: OrderSide,
    pub price: Dec,
    pub quantity: Dec,
    pub order_type: OrderType,
    pub reason: String,
    pub timestamp: i64,
    pub stop_loss: Option<Dec>,
    pub take_profit: Option<Dec>,
}

/// A holding.
#[derive(Clone, Debug)]
pub struct Position {
    pub symbol: String,
    pub quantity: Dec,
    pub average_price: Dec,
}

/// Cash and holdings of an account.
#[derive(Clone, Debug)]
pub struct Portfolio {
    pub cash: Dec,
    pub positions: Vec<Position>,
}

/// Whether some position in `positions` is for `symbol`.
pub open spec fn holds_symbol(positions: Seq<Position>, symbol: Seq<char>) -> bool {
    exists|i: int| 0 <= i < positions.len() && (#[trigger] positions[i]).symbol@ == symbol
}

/// The index of the first position for `symbol` (meaningful when one is held).
pub open spec fn first_position_index(positions: Seq<Position>, symbol: Seq<char>) -> int {
    choose|i: int|
        0 <= i < positions.len() && positions[i].symbol@ == symbol && forall|j: int|
            0 <= j < i ==> (#[trigger] positions[j]).symbol@ != symbol
}

proof fn lemma_first_position_index(positions: Seq<Position>, symbol: Seq<char>, i: int)
    requires
        0 <= i < positions.len(),
        positions[i].symbol@ == symbol,
        forall|j: int| 0 <= j < i ==> (#[trigger] positions[j]).symbol@ != symbol,
    ensures
        first_position_index(positions, symbol) == i,
{
    let k = first_position_index(positions, symbol);
    assert(0 <= k < positions.len() && positions[k].symbol@ == symbol && forall|j: int|
        0 <= j < k ==> (#[trigger] positions[j]).symbol@ != symbol);
    if k < i {
        assert(positions[k].symbol@ != symbol);
    }
    if i < k {
        assert(positions[i].symbol@ != symbol);
    }
}

/// The index of the first position for `symbol`, if any.
pub fn find_position(positions: &Vec<Position>, symbol: &str) -> (r: Option<usize>)
    ensures
        r matches Some(i) ==> i < positions.len() && positions@[i as int].symbol@ == symbol@
            && i == first_position_index(positions@, symbol@),
        r is None <==> !holds_symbol(positions@, symbol@),
{
    let mut i: usize = 0;
    while i < positions.len()
        invariant
            i <= positions.len(),
            forall|j: int| 0 <= j < i ==> (#[trigger] positions@[j]).symbol@ != symbol@,
        decreases positions.len() - i,
    {
        if str_eq(positions[i].symbol.as_str(), symbol) {
            proof {
                lemma_first_position_index(positions@, symbol@, i as int);
            }
            return Some(i);
        }
        i = i + 1;
    }
    None
}

/// A completed (or open) round trip.
#[derive(Clone, Debug)]
pub struct Trade {
    pub id: String,
    pub symbol: String,
    pub side: OrderSide,
    pub entry_price: Dec,
    pub exit_price: Option<Dec>,
    pub quantity: Dec,
    pub pnl: Dec,
    pub entry_timestamp: i64,
    pub exit_timestamp: Option<i64>,
}

} // verus!
