//! Market data: one-minute candles, timeframes and higher-timeframe candles.
use crate::decimal::{decimal_sum, max_units, one_units, units_of, Dec};
use vstd::prelude::*;

verus! {

/// A price bar.
#[derive(Clone, Debug)]
pub struct Candle {
    pub symbol: String,
    pub open: Dec,
    pub high: Dec,
    pub low: Dec,
    pub close: Dec,
    pub volume: Dec,
    /// Start of the bar, in milliseconds since the epoch.
    pub timestamp: i64,
}

/// The plain values of a [`Candle`].
pub struct CandleView {
    pub symbol: Seq<char>,
    pub open: (int, nat),
    pub high: (int, nat),
    pub low: (int, nat),
    pub close: (int, nat),
    pub volume: (int, nat),
    pub timestamp: int,
}

impl View for Candle {
    type V = CandleView;

    open spec fn view(&self) -> CandleView {
        CandleView {
            symbol: self.symbol@,
            open: self.open@,
            high: self.high@,
            low: self.low@,
            close: self.close@,
            volume: self.volume@,
            timestamp: self.timestamp as int,
        }
    }
}

/// Bar durations.
#[derive(Clone, Copy, Debug, PartialEq, Eq, Structural, Hash)]
pub enum Timeframe {
    OneMin,
    FiveMin,
    FifteenMin,
    OneHour,
    FourHour,
    OneDay,
}

/// The length of the longest timeframe in milliseconds.
pub open spec fn longest_period_ms() -> int {
    86_400_000
}

impl Timeframe {
    /// Number of one-minute bars in a bar of this timeframe.
    pub open spec fn spec_minutes(self) -> nat {
        match self {
            Timeframe::OneMin => 1,
            Timeframe::FiveMin => 5,
            Timeframe::FifteenMin => 15,
            Timeframe::OneHour => 60,
            Timeframe::FourHour => 240,
            Timeframe::OneDay => 1440,
        }
    }

    /// The bar length in milliseconds.
    pub open spec fn spec_period_ms(self) -> int {
        (self.spec_minutes() * 60_000) as int
    }

    /// Start of the bar of this timeframe that contains `timestamp` (milliseconds):
    /// the timestamp rounded down to a multiple of the bar length.
    pub open spec fn spec_period_start(self, timestamp: int) -> int {
        timestamp - timestamp % self.spec_period_ms()
    }

    pub fn minutes(&self) -> (r: u32)
        ensures
            r == self.spec_minutes(),
    {
        match self {
            Timeframe::OneMin => 1,
            Timeframe::FiveMin => 5,
            Timeframe::FifteenMin => 15,
            Timeframe::OneHour => 60,
            Timeframe::FourHour => 240,
            Timeframe::OneDay => 1440,
        }
    }

    pub fn period_ms(&self) -> (r: i64)
        ensures
            r == self.spec_period_ms(),
    {
        self.minutes() as i64 * 60_000
    }

    /// Start of the bar that contains `timestamp`.
    pub fn period_start(&self, timestamp: i64) -> (r: i64)
        requires
            timestamp >= i64::MIN + longest_period_ms(),
        ensures
            r == self.spec_period_start(timestamp as int),
    {
        let ms = self.period_ms();
        let rem = timestamp.checked_rem_euclid(ms).unwrap();
        timestamp - rem
    }
}

/// A bar of a higher timeframe built from one-minute bars.
#[derive(Clone, Debug)]
pub struct TimeframeCandle {
    pub symbol: String,
    pub timeframe: Timeframe,
    pub open: Dec,
    pub high: Dec,
    pub low: Dec,
    pub close: Dec,
    pub volume: Dec,
    /// Start of the period (milliseconds).
    pub timestamp: i64,
    /// Number of one-minute bars merged into this bar.
    pub candle_count: u32,
}

/// The plain values of a [`TimeframeCandle`].
pub struct TimeframeCandleView {
    pub symbol: Seq<char>,
    pub timeframe: Timeframe,
    pub open: (int, nat),
    pub high: (int, nat),
    pub low: (int, nat),
    pub close: (int, nat),
    pub volume: (int, nat),
    pub timestamp: int,
    pub candle_count: nat,
}

impl View for TimeframeCandle {
    type V = TimeframeCandleView;

    open spec fn view(&self) -> TimeframeCandleView {
        TimeframeCandleView {
            symbol: self.symbol@,
            timeframe: self.timeframe,
            open: self.open@,
            high: self.high@,
            low: self.low@,
            close: self.close@,
            volume: self.volume@,
            timestamp: self.timestamp as int,
            candle_count: self.candle_count as nat,
        }
    }
}

/// The larger of two decimal values by numeric value (the first on a tie).
pub open spec fn view_max(a: (int, nat), b: (int, nat)) -> (int, nat) {
    if units_of(b) > units_of(a) {
        b
    } else {
        a
    }
}

/// The smaller of two decimal values by numeric value (the first on a tie).
pub open spec fn view_min(a: (int, nat), b: (int, nat)) -> (int, nat) {
    if units_of(b) < units_of(a) {
        b
    } else {
        a
    }
}

impl TimeframeCandleView {
    /// A bar reaches completion once it merged as many one-minute bars as its
    /// timeframe spans.
    pub open spec fn is_complete(self) -> bool {
        self.candle_count >= self.timeframe.spec_minutes()
    }

    /// The bar opened by the one-minute bar `c` in period `period_start`.
    pub open spec fn opened_by(
        c: CandleView,
        timeframe: Timeframe,
        period_start: int,
    ) -> TimeframeCandleView {
        TimeframeCandleView {
            symbol: c.symbol,
            timeframe,
            open: c.open,
            high: c.high,
            low: c.low,
            close: c.close,
            volume: c.volume,
            timestamp: period_start,
            candle_count: 1,
        }
    }

    /// The bar after merging a one-minute bar with these values: the highest high,
    /// the lowest low, the latest close, the summed volume, one more bar; the open is
    /// kept.
    pub open spec fn merged(
        self,
        high: (int, nat),
        low: (int, nat),
        close: (int, nat),
        volume: (int, nat),
    ) -> TimeframeCandleView {
        TimeframeCandleView {
            high: view_max(self.high, high),
            low: view_min(self.low, low),
            close: close,
            volume: decimal_sum(self.volume, volume),
            candle_count: self.candle_count + 1,
            ..self
        }
    }

    /// The bar after merging the one-minute bar `c`.
    pub open spec fn merged_with(self, c: CandleView) -> TimeframeCandleView {
        self.merged(c.high, c.low, c.close, c.volume)
    }
}

impl TimeframeCandle {
    /// A copy of the bar.
    pub fn duplicate(&self) -> (r: TimeframeCandle)
        ensures
            r@ == self@,
    {
        TimeframeCandle {
            symbol: self.symbol.clone(),
            timeframe: self.timeframe,
            open: self.open,
            high: self.high,
            low: self.low,
            close: self.close,
            volume: self.volume,
            timestamp: self.timestamp,
            candle_count: self.candle_count,
        }
    }

    #[allow(clippy::too_many_arguments)]
    pub fn new(
        symbol: String,
        timeframe: Timeframe,
        open: Dec,
        high: Dec,
        low: Dec,
        close: Dec,
        volume: Dec,
        timestamp: i64,
    ) -> (r: Self)
        ensures
            r@ == (TimeframeCandleView {
                symbol: symbol@,
                timeframe,
                open: open@,
                high: high@,
                low: low@,
                close: close@,
                volume: volume@,
                timestamp: timestamp as int,
                candle_count: 1,
            }),
    {
        TimeframeCandle {
            symbol,
            timeframe,
            open,
            high,
            low,
            close,
            volume,
            timestamp,
            candle_count: 1,
        }
    }

    /// Merge a one-minute bar into this bar (the `open` of later bars is ignored).
    pub fn update(&mut self, open: Dec, high: Dec, low: Dec, close: Dec, volume: Dec)
        requires
            old(self).candle_count < u32::MAX,
            -max_units() <= old(self).volume.units() + volume.units() <= max_units(),
        ensures
            final(self)@ == old(self)@.merged(high@, low@, close@, volume@),
            final(self).high.units() >= old(self).high.units(),
            final(self).high.units() >= high.units(),
            final(self).high == old(self).high || final(self).high == high,
            final(self).low.units() <= old(self).low.units(),
            final(self).low.units() <= low.units(),
            final(self).low == old(self).low || final(self).low == low,
            final(self).volume.units() - old(self).volume.units() - volume.units() <= one_units(),
            old(self).volume.units() + volume.units() - final(self).volume.units() <= one_units(),
    {
        if high.gt(&self.high) {
            self.high = high;
        }
        if low.lt(&self.low) {
            self.low = low;
        }
        self.close = close;
        self.volume = self.volume.add(&volume);
        self.candle_count = self.candle_count + 1;
    }

    pub fn is_complete(&self) -> (r: bool)
        ensures
            r == self@.is_complete(),
    {
        self.candle_count >= self.timeframe.minutes()
    }
}

/// Law: merging a one-minute bar keeps the extremes. The merged bar's high is
/// the larger of the bar's high and the candle's high (so at least both), its low
/// the smaller of the two lows; the open, symbol, timeframe and period stay, the
/// close is the candle's, and one more bar is counted.
pub proof fn lemma_merge_keeps_extremes(bar: TimeframeCandleView, c: CandleView)
    ensures
        ({
            let m = bar.merged_with(c);
            &&& units_of(m.high) >= units_of(bar.high)
            &&& units_of(m.high) >= units_of(c.high)
            &&& (m.high == bar.high || m.high == c.high)
            &&& units_of(m.low) <= units_of(bar.low)
            &&& units_of(m.low) <= units_of(c.low)
            &&& (m.low == bar.low || m.low == c.low)
            &&& m.open == bar.open
            &&& m.close == c.close
            &&& m.symbol == bar.symbol
            &&& m.timeframe == bar.timeframe
            &&& m.timestamp == bar.timestamp
            &&& m.candle_count == bar.candle_count + 1
        }),
{
}

} // verus!
