//! One-minute candles built from quotes, with outlier rejection.
use crate::decimal::{
    decimal_difference, decimal_quotient, decimal_sum, iabs, lemma_pow10_28, max_units, one_units,
    pow10, units_of, Dec,
};
use crate::market::{view_max, view_min, Candle, CandleView};
use crate::text::str_eq;
use chrono::{TimeZone, Timelike};
use vstd::prelude::*;
use vstd::string::StringExecFns;

verus! {

/// Whether `chrono` represents the instant `ms` milliseconds after the epoch.
pub uninterp spec fn utc_millis_valid(ms: int) -> bool;

/// The start of the UTC minute holding `ms`.
pub open spec fn minute_floor(ms: int) -> int {
    ms - ms % 60_000
}

/// `chrono`: the UTC date-time of a millisecond timestamp
/// (`Utc.timestamp_millis_opt(ms).single()`, `None` outside its range), cut back
/// to the start of its minute (`and_hms_opt(hour, minute, 0)`), as milliseconds.
#[verifier::external_body]
fn minute_start(ms: i64) -> (r: Option<i64>)
    ensures
        r is Some <==> utc_millis_valid(ms as int),
        r matches Some(s) ==> s == minute_floor(ms as int),
{
    match chrono::Utc.timestamp_millis_opt(ms).single() {
        Some(t) => match t.date_naive().and_hms_opt(t.hour(), t.minute(), 0) {
            Some(d) => Some(d.and_utc().timestamp_millis()),
            None => None,
        },
        None => None,
    }
}

/// The largest accepted deviation from the reference price: 1.5%.
pub open spec fn max_price_deviation() -> (int, nat) {
    (15, 3)
}

/// Whether `price` deviates from a positive `reference` by more than 1.5%.
pub open spec fn deviates(price: (int, nat), reference: (int, nat)) -> bool {
    iabs(units_of(decimal_quotient(decimal_difference(price, reference), reference))) > units_of(
        max_price_deviation(),
    )
}

/// Inputs for which the deviation of `price` from `reference` is computed within
/// the decimal range.
pub open spec fn deviation_in_range(price: int, reference: int) -> bool {
    reference > 0 ==> {
        &&& -max_units() <= price - reference <= max_units()
        &&& (iabs(price - reference) + one_units()) * one_units() <= max_units() * reference
    }
}

/// The plain values of a candle under construction.
pub struct BuilderView {
    pub symbol: Seq<char>,
    pub open: (int, nat),
    pub high: (int, nat),
    pub low: (int, nat),
    pub close: (int, nat),
    pub volume: (int, nat),
    pub start_time: int,
    pub tick_count: nat,
}

/// The state kept for one symbol: the candle being built and the close of the
/// last completed candle.
pub struct SlotView {
    pub builder: BuilderView,
    pub last_close: Option<(int, nat)>,
}

impl BuilderView {
    /// A candle opened at `price` in the minute `start_time`, before any tick.
    pub open spec fn opened(symbol: Seq<char>, price: (int, nat), start_time: int) -> BuilderView {
        BuilderView {
            symbol,
            open: price,
            high: price,
            low: price,
            close: price,
            volume: (0, 0),
            start_time,
            tick_count: 0,
        }
    }

    /// The candle after a tick at `price` of `quantity`.
    pub open spec fn ticked(self, price: (int, nat), quantity: (int, nat)) -> BuilderView {
        BuilderView {
            high: view_max(self.high, price),
            low: view_min(self.low, price),
            close: price,
            volume: decimal_sum(self.volume, quantity),
            tick_count: self.tick_count + 1,
            ..self
        }
    }

    /// Within a candle, prices are filtered once it has three ticks and a
    /// positive close.
    pub open spec fn rejects(self, price: (int, nat)) -> bool {
        self.tick_count >= 3 && units_of(self.close) > 0 && deviates(price, self.close)
    }

    /// The completed candle.
    pub open spec fn built(self) -> CandleView {
        CandleView {
            symbol: self.symbol,
            open: self.open,
            high: self.high,
            low: self.low,
            close: self.close,
            volume: self.volume,
            timestamp: self.start_time,
        }
    }
}

impl SlotView {
    /// A quote at `price` is an outlier for this symbol.
    pub open spec fn rejects(self, price: (int, nat)) -> bool {
        ||| self.builder.rejects(price)
        ||| (self.last_close matches Some(l) && units_of(l) > 0 && deviates(price, l))
    }
}

/// Whether some slot is for `symbol`.
pub open spec fn has_slot(slots: Seq<SlotView>, symbol: Seq<char>) -> bool {
    exists|i: int| 0 <= i < slots.len() && (#[trigger] slots[i]).builder.symbol == symbol
}

/// The slot for `symbol`.
pub open spec fn slot_index(slots: Seq<SlotView>, symbol: Seq<char>) -> int {
    choose|i: int| 0 <= i < slots.len() && (#[trigger] slots[i]).builder.symbol == symbol
}

/// Each symbol has at most one slot.
pub open spec fn slots_unique(slots: Seq<SlotView>) -> bool {
    forall|i: int, j: int|
        0 <= i < slots.len() && 0 <= j < slots.len() && i != j ==> (#[trigger] slots[i]).builder.symbol
            != (#[trigger] slots[j]).builder.symbol
}

/// What a quote that passed the filters does: it updates the candle of its
/// minute; in a new minute it completes the previous candle (returned, and its
/// close kept as the reference price) and opens a new one at the quote's price
/// (that quote's quantity is not counted); the first quote of a symbol opens
/// its first candle and counts as its first tick.
pub open spec fn accept_quote(
    slots: Seq<SlotView>,
    symbol: Seq<char>,
    price: (int, nat),
    quantity: (int, nat),
    minute: int,
) -> (Seq<SlotView>, Option<CandleView>) {
    if has_slot(slots, symbol) {
        let i = slot_index(slots, symbol);
        let s = slots[i];
        if s.builder.start_time == minute {
            (
                slots.update(
                    i,
                    SlotView { builder: s.builder.ticked(price, quantity), last_close: s.last_close },
                ),
                None,
            )
        } else {
            (
                slots.update(
                    i,
                    SlotView {
                        builder: BuilderView::opened(symbol, price, minute),
                        last_close: Some(s.builder.close),
                    },
                ),
                Some(s.builder.built()),
            )
        }
    } else {
        (
            slots.push(
                SlotView {
                    builder: BuilderView::opened(symbol, price, minute).ticked(price, quantity),
                    last_close: None,
                },
            ),
            None,
        )
    }
}

/// What a quote does: one with an invalid timestamp or an outlier price is
/// dropped; otherwise it is accepted.
pub open spec fn quote_step(
    slots: Seq<SlotView>,
    symbol: Seq<char>,
    price: (int, nat),
    quantity: (int, nat),
    timestamp_ms: int,
) -> (Seq<SlotView>, Option<CandleView>) {
    if !utc_millis_valid(timestamp_ms) {
        (slots, None)
    } else if has_slot(slots, symbol) && slots[slot_index(slots, symbol)].rejects(price) {
        (slots, None)
    } else {
        accept_quote(slots, symbol, price, quantity, minute_floor(timestamp_ms))
    }
}

/// Inputs for which a quote is processed within the machine's ranges.
pub open spec fn quote_in_range(slots: Seq<SlotView>, symbol: Seq<char>, price: Dec, quantity: Dec) -> bool {
    has_slot(slots, symbol) ==> {
        let s = slots[slot_index(slots, symbol)];
        &&& deviation_in_range(price.units(), units_of(s.builder.close))
        &&& (s.last_close matches Some(l) ==> deviation_in_range(price.units(), units_of(l)))
        &&& -max_units() <= units_of(s.builder.volume) + quantity.units() <= max_units()
        &&& s.builder.tick_count < u32::MAX
    }
}

/// A candle under construction.
#[derive(Debug)]
struct CandleBuilder {
    symbol: String,
    open: Dec,
    high: Dec,
    low: Dec,
    close: Dec,
    volume: Dec,
    start_time: i64,
    tick_count: u32,
}

impl View for CandleBuilder {
    type V = BuilderView;

    closed spec fn view(&self) -> BuilderView {
        BuilderView {
            symbol: self.symbol@,
            open: self.open@,
            high: self.high@,
            low: self.low@,
            close: self.close@,
            volume: self.volume@,
            start_time: self.start_time as int,
            tick_count: self.tick_count as nat,
        }
    }
}

/// `|(price - reference) / reference| > 1.5%` for a positive reference.
fn deviation_exceeds(price: Dec, reference: Dec) -> (r: bool)
    requires
        reference.units() > 0,
        deviation_in_range(price.units(), reference.units()),
    ensures
        r == deviates(price@, reference@),
{
    let diff = price.sub(&reference);
    proof {
        lemma_quotient_in_range(price.units(), reference.units(), diff.units());
    }
    let ratio = diff.div(&reference).abs();
    let limit = Dec::new(15, 3);
    ratio.gt(&limit)
}

proof fn lemma_quotient_in_range(p: int, r: int, d: int)
    requires
        r > 0,
        -max_units() <= p - r <= max_units(),
        p - r - one_units() <= d <= p - r + one_units(),
        (iabs(p - r) + one_units()) * one_units() <= max_units() * r,
    ensures
        -max_units() * iabs(r) <= d * one_units() <= max_units() * iabs(r),
{
    let o = one_units();
    let m = max_units();
    assert(iabs(d) * o <= (iabs(p - r) + o) * o) by (nonlinear_arith)
        requires
            iabs(d) <= iabs(p - r) + o,
            o > 0,
    ;
    assert(iabs(d * o) == iabs(d) * o) by (nonlinear_arith)
        requires
            o > 0,
    ;
    assert(iabs(r) == r);
    assert((-m) * r == -(m * r)) by (nonlinear_arith);
}

impl CandleBuilder {
    fn new(symbol: String, price: Dec, start_time: i64) -> (r: Self)
        ensures
            r@ == BuilderView::opened(symbol@, price@, start_time as int),
    {
        CandleBuilder {
            symbol,
            open: price,
            high: price,
            low: price,
            close: price,
            volume: Dec::zero(),
            start_time,
            tick_count: 0,
        }
    }

    fn is_outlier(&self, price: Dec) -> (r: bool)
        requires
            deviation_in_range(price.units(), self.close.units()),
        ensures
            r == self@.rejects(price@),
    {
        if self.tick_count < 3 {
            return false;
        }
        if self.close.le(&Dec::zero()) {
            return false;
        }
        deviation_exceeds(price, self.close)
    }

    fn update(&mut self, price: Dec, quantity: Dec)
        requires
            old(self).tick_count < u32::MAX,
            -max_units() <= old(self).volume.units() + quantity.units() <= max_units(),
        ensures
            final(self)@ == old(self)@.ticked(price@, quantity@),
    {
        self.tick_count = self.tick_count + 1;
        if price.gt(&self.high) {
            self.high = price;
        }
        if price.lt(&self.low) {
            self.low = price;
        }
        self.close = price;
        self.volume = self.volume.add(&quantity);
    }

    fn build(&self) -> (r: Candle)
        ensures
            r@ == self@.built(),
    {
        Candle {
            symbol: self.symbol.clone(),
            open: self.open,
            high: self.high,
            low: self.low,
            close: self.close,
            volume: self.volume,
            timestamp: self.start_time,
        }
    }
}

struct SymbolSlot {
    builder: CandleBuilder,
    last_close: Option<Dec>,
}

impl View for SymbolSlot {
    type V = SlotView;

    closed spec fn view(&self) -> SlotView {
        SlotView {
            builder: self.builder@,
            last_close: match self.last_close {
                Some(l) => Some(l@),
                None => None,
            },
        }
    }
}

proof fn lemma_slot_replaced(
    old_slots: Seq<SymbolSlot>,
    new_slots: Seq<SymbolSlot>,
    i: int,
    s0: Seq<SlotView>,
)
    requires
        0 <= i < old_slots.len(),
        new_slots == old_slots.remove(i).insert(i, new_slots[i]),
        s0 == old_slots.map_values(|s: SymbolSlot| s@),
    ensures
        new_slots.map_values(|s: SymbolSlot| s@) == s0.update(i, new_slots[i]@),
{
    assert(new_slots.map_values(|s: SymbolSlot| s@) =~= s0.update(i, new_slots[i]@));
}

/// Builds one-minute candles per symbol from a stream of quotes.
pub struct CandleAggregator {
    slots: Vec<SymbolSlot>,
}

impl View for CandleAggregator {
    type V = Seq<SlotView>;

    closed spec fn view(&self) -> Seq<SlotView> {
        self.slots@.map_values(|s: SymbolSlot| s@)
    }
}

impl CandleAggregator {
    /// The aggregator's invariant: one slot per symbol.
    pub open spec fn wf(self) -> bool {
        slots_unique(self@)
    }

    pub fn new() -> (r: Self)
        ensures
            r.wf(),
            r@ == Seq::<SlotView>::empty(),
    {
        let r = CandleAggregator { slots: Vec::new() };
        assert(r@ =~= Seq::<SlotView>::empty());
        r
    }

    fn find(&self, symbol: &str) -> (r: Option<usize>)
        requires
            self.wf(),
        ensures
            r is None <==> !has_slot(self@, symbol@),
            r matches Some(i) ==> i < self@.len() && i == slot_index(self@, symbol@),
    {
        let mut i: usize = 0;
        while i < self.slots.len()
            invariant
                i <= self.slots.len(),
                self@.len() == self.slots.len(),
                self.wf(),
                forall|j: int| 0 <= j < i ==> (#[trigger] self@[j]).builder.symbol != symbol@,
            decreases self.slots.len() - i,
        {
            if str_eq(self.slots[i].builder.symbol.as_str(), symbol) {
                proof {
                    assert(self@[i as int].builder.symbol == symbol@);
                    let k = slot_index(self@, symbol@);
                    assert(self@[k].builder.symbol == symbol@);
                    if k != i {
                        assert(self@[k].builder.symbol != self@[i as int].builder.symbol);
                    }
                }
                return Some(i);
            }
            i = i + 1;
        }
        None
    }

    /// Process a quote. Returns the completed candle when the quote opens a new
    /// minute. Quotes with a timestamp outside `chrono`'s range, and quotes that
    /// deviate by more than 1.5% from the current candle's close (once it has three
    /// ticks) or from the last completed close, are dropped.
    pub fn on_quote(&mut self, symbol: &str, price: Dec, quantity: Dec, timestamp_ms: i64) -> (r:
        Option<Candle>)
        requires
            old(self).wf(),
            quote_in_range(old(self)@, symbol@, price, quantity),
        ensures
            final(self).wf(),
            final(self)@ == quote_step(old(self)@, symbol@, price@, quantity@, timestamp_ms as int).0,
            match r {
                Some(c) => quote_step(old(self)@, symbol@, price@, quantity@, timestamp_ms as int).1
                    == Some(c@),
                None => quote_step(old(self)@, symbol@, price@, quantity@, timestamp_ms as int).1
                    is None,
            },
    {
        let minute = match minute_start(timestamp_ms) {
            Some(m) => m,
            None => {
                return None;
            },
        };
        let found = self.find(symbol);
        match found {
            Some(i) => {
                let outlier = {
                    let slot = &self.slots[i];
                    if slot.builder.is_outlier(price) {
                        true
                    } else {
                        match slot.last_close {
                            Some(last) => {
                                if last.gt(&Dec::zero()) {
                                    deviation_exceeds(price, last)
                                } else {
                                    false
                                }
                            },
                            None => false,
                        }
                    }
                };
                if outlier {
                    return None;
                }
                let ghost s0 = self@;
                let ghost old_slots = self.slots@;
                let mut slot = self.slots.remove(i);
                if slot.builder.start_time == minute {
                    slot.builder.update(price, quantity);
                    self.slots.insert(i, slot);
                    proof {
                        lemma_slot_replaced(old_slots, self.slots@, i as int, s0);
                    }
                    None
                } else {
                    let completed = slot.builder.build();
                    slot.last_close = Some(completed.close);
                    slot.builder = CandleBuilder::new(String::from_str(symbol), price, minute);
                    self.slots.insert(i, slot);
                    proof {
                        lemma_slot_replaced(old_slots, self.slots@, i as int, s0);
                    }
                    Some(completed)
                }
            },
            None => {
                let mut builder = CandleBuilder::new(String::from_str(symbol), price, minute);
                quantity.in_range();
                proof {
                    assert(builder.volume@ == (0int, 0nat));
                    assert(units_of(builder.volume@) == 0 * pow10(28));
                    assert(0 * pow10(28) == 0) by (nonlinear_arith);
                    assert(builder.volume.units() == 0);
                }
                builder.update(price, quantity);
                let ghost s0 = self@;
                self.slots.push(SymbolSlot { builder, last_close: None });
                proof {
                    assert(self@ =~= s0.push(self.slots@.last()@));
                }
                None
            },
        }
    }
}

/// Whether a candle's low is its lowest price and its high its highest.
pub open spec fn bar_ordered(b: BuilderView) -> bool {
    &&& units_of(b.low) <= units_of(b.open) <= units_of(b.high)
    &&& units_of(b.low) <= units_of(b.close) <= units_of(b.high)
}

/// Every candle under construction is ordered.
pub open spec fn slots_ordered(slots: Seq<SlotView>) -> bool {
    forall|i: int| 0 <= i < slots.len() ==> bar_ordered(#[trigger] slots[i].builder)
}

proof fn lemma_ticked_ordered(b: BuilderView, price: (int, nat), quantity: (int, nat))
    requires
        bar_ordered(b),
    ensures
        bar_ordered(b.ticked(price, quantity)),
{
}

/// Candles stay consistent: in every candle the aggregator builds or completes,
/// the low is at most the open and the close, which are at most the high; a
/// dropped quote (bad time or outlier) changes nothing.
pub proof fn lemma_quote_keeps_bars_ordered(
    slots: Seq<SlotView>,
    symbol: Seq<char>,
    price: (int, nat),
    quantity: (int, nat),
    timestamp_ms: int,
)
    requires
        slots_ordered(slots),
    ensures
        slots_ordered(quote_step(slots, symbol, price, quantity, timestamp_ms).0),
        quote_step(slots, symbol, price, quantity, timestamp_ms).1 matches Some(c) ==> (units_of(c.low)
            <= units_of(c.open) <= units_of(c.high) && units_of(c.low) <= units_of(c.close)
            <= units_of(c.high)),
        (!utc_millis_valid(timestamp_ms) || (has_slot(slots, symbol) && slots[slot_index(slots, symbol)].rejects(
            price,
        ))) ==> quote_step(slots, symbol, price, quantity, timestamp_ms) == (slots, None::<CandleView>),
{
    let minute = minute_floor(timestamp_ms);
    let (after, out) = quote_step(slots, symbol, price, quantity, timestamp_ms);
    if utc_millis_valid(timestamp_ms) && !(has_slot(slots, symbol) && slots[slot_index(
        slots,
        symbol,
    )].rejects(price)) {
        if has_slot(slots, symbol) {
            let i = slot_index(slots, symbol);
            let b = slots[i].builder;
            assert(bar_ordered(b));
            if b.start_time == minute {
                lemma_ticked_ordered(b, price, quantity);
            }
            assert forall|j: int| 0 <= j < after.len() implies bar_ordered(#[trigger] after[j].builder) by {
                if j != i {
                    assert(after[j] == slots[j]);
                }
            }
        } else {
            lemma_ticked_ordered(BuilderView::opened(symbol, price, minute), price, quantity);
            assert forall|j: int| 0 <= j < after.len() implies bar_ordered(#[trigger] after[j].builder) by {
                if j < slots.len() {
                    assert(after[j] == slots[j]);
                }
            }
        }
    }
}


} // verus!
