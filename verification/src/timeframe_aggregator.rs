//! Aggregation of one-minute candles into higher timeframes.
use crate::decimal::{max_units, sum_in_range, units_of};
use crate::text::str_eq;
use crate::market::{
    longest_period_ms, Candle, CandleView, Timeframe, TimeframeCandle,
    TimeframeCandleView,
};
use vstd::prelude::*;

verus! {

/// Whether `c` is the active bar for `symbol` and `timeframe`.
pub open spec fn key_matches(c: TimeframeCandleView, symbol: Seq<char>, timeframe: Timeframe) -> bool {
    c.symbol == symbol && c.timeframe == timeframe
}

/// Whether some bar in `s` is keyed by `symbol` and `timeframe`.
pub open spec fn has_key(s: Seq<TimeframeCandleView>, symbol: Seq<char>, timeframe: Timeframe) -> bool {
    exists|i: int| 0 <= i < s.len() && key_matches(#[trigger] s[i], symbol, timeframe)
}

/// The position of the bar keyed by `symbol` and `timeframe` (when there is one).
pub open spec fn index_of_key(s: Seq<TimeframeCandleView>, symbol: Seq<char>, timeframe: Timeframe) -> int {
    choose|i: int| 0 <= i < s.len() && key_matches(#[trigger] s[i], symbol, timeframe)
}

/// No two bars share a symbol and a timeframe.
pub open spec fn keys_unique(s: Seq<TimeframeCandleView>) -> bool {
    forall|i: int, j: int|
        #![trigger s[i], s[j]]
        0 <= i < s.len() && 0 <= j < s.len() && s[i].symbol == s[j].symbol && s[i].timeframe
            == s[j].timeframe ==> i == j
}

/// An in-progress bar: started by at least one bar, not yet complete and aligned to
/// its period.
pub open spec fn active_bar_ok(c: TimeframeCandleView) -> bool {
    &&& 1 <= c.candle_count < c.timeframe.spec_minutes()
    &&& c.timestamp % c.timeframe.spec_period_ms() == 0
}

/// One timeframe step of candle processing on the active bars `s`, with the bars
/// completed so far `out`.
pub open spec fn step(
    s: Seq<TimeframeCandleView>,
    out: Seq<TimeframeCandleView>,
    c: CandleView,
    timeframe: Timeframe,
) -> (Seq<TimeframeCandleView>, Seq<TimeframeCandleView>) {
    if timeframe == Timeframe::OneMin {
        (s, out)
    } else {
        let start = timeframe.spec_period_start(c.timestamp);
        if has_key(s, c.symbol, timeframe) {
            let i = index_of_key(s, c.symbol, timeframe);
            if s[i].timestamp == start {
                let merged = s[i].merged_with(c);
                if merged.is_complete() {
                    (s.remove(i), out.push(merged))
                } else {
                    (s.update(i, merged), out)
                }
            } else {
                (
                    s.remove(i).push(TimeframeCandleView::opened_by(c, timeframe, start)),
                    out.push(s[i]),
                )
            }
        } else {
            (s.push(TimeframeCandleView::opened_by(c, timeframe, start)), out)
        }
    }
}

/// Processing the candle `c` for each timeframe of `tfs` in order: the active bars
/// afterwards and the completed bars, in completion order.
pub open spec fn process_spec(
    s: Seq<TimeframeCandleView>,
    c: CandleView,
    tfs: Seq<Timeframe>,
) -> (Seq<TimeframeCandleView>, Seq<TimeframeCandleView>)
    decreases tfs.len(),
{
    if tfs.len() == 0 {
        (s, Seq::empty())
    } else {
        let prev = process_spec(s, c, tfs.drop_last());
        step(prev.0, prev.1, c, tfs.last())
    }
}

/// The step for `timeframe` adds the candle's volume to an active bar only when the
/// sum stays within the decimal range.
pub open spec fn merge_in_range(s: Seq<TimeframeCandleView>, c: CandleView, timeframe: Timeframe) -> bool {
    timeframe != Timeframe::OneMin && has_key(s, c.symbol, timeframe) && s[index_of_key(
        s,
        c.symbol,
        timeframe,
    )].timestamp == timeframe.spec_period_start(c.timestamp) ==> -max_units() <= units_of(
        s[index_of_key(s, c.symbol, timeframe)].volume,
    ) + units_of(c.volume) <= max_units()
}

/// Every volume sum made while processing `c` for the timeframes `tfs` stays within
/// the decimal range.
pub open spec fn process_in_range(s: Seq<TimeframeCandleView>, c: CandleView, tfs: Seq<Timeframe>) -> bool
    decreases tfs.len(),
{
    if tfs.len() == 0 {
        true
    } else {
        process_in_range(s, c, tfs.drop_last()) && merge_in_range(
            process_spec(s, c, tfs.drop_last()).0,
            c,
            tfs.last(),
        )
    }
}

proof fn lemma_in_range_prefix(s: Seq<TimeframeCandleView>, c: CandleView, tfs: Seq<Timeframe>, n: int)
    requires
        process_in_range(s, c, tfs),
        0 <= n <= tfs.len(),
    ensures
        process_in_range(s, c, tfs.take(n)),
    decreases tfs.len(),
{
    if n == tfs.len() {
        assert(tfs.take(n) =~= tfs);
    } else {
        assert(tfs.drop_last().take(n) =~= tfs.take(n));
        lemma_in_range_prefix(s, c, tfs.drop_last(), n);
    }
}

/// The timeframes of `tfs` other than one minute, in order.
pub open spec fn without_one_minute(tfs: Seq<Timeframe>) -> Seq<Timeframe> {
    tfs.filter(|t: Timeframe| t != Timeframe::OneMin)
}

/// Law: one-minute entries in the timeframe list change nothing. Processing a candle
/// for `tfs` leaves the same active bars and completes the same bars as processing
/// it for `tfs` with every one-minute timeframe removed.
pub proof fn lemma_one_minute_ignored(s: Seq<TimeframeCandleView>, c: CandleView, tfs: Seq<Timeframe>)
    ensures
        process_spec(s, c, tfs) == process_spec(s, c, without_one_minute(tfs)),
    decreases tfs.len(),
{
    reveal(Seq::filter);
    let f = without_one_minute(tfs);
    if tfs.len() == 0 {
        assert(f =~= tfs);
    } else {
        lemma_one_minute_ignored(s, c, tfs.drop_last());
        if tfs.last() == Timeframe::OneMin {
            assert(f == without_one_minute(tfs.drop_last()));
        } else {
            assert(f == without_one_minute(tfs.drop_last()).push(tfs.last()));
            assert(f.drop_last() =~= without_one_minute(tfs.drop_last()));
            assert(f.last() == tfs.last());
        }
    }
}

/// Law: no one-minute bar is ever active or completed. Starting from bars none of
/// which is a one-minute bar, processing a candle for any timeframes leaves and
/// completes only bars of other timeframes.
pub proof fn lemma_no_one_minute_bars(s: Seq<TimeframeCandleView>, c: CandleView, tfs: Seq<Timeframe>)
    requires
        forall|k: int| 0 <= k < s.len() ==> (#[trigger] s[k]).timeframe != Timeframe::OneMin,
    ensures
        forall|k: int|
            0 <= k < process_spec(s, c, tfs).0.len() ==> (#[trigger] process_spec(s, c, tfs).0[k]).timeframe
                != Timeframe::OneMin,
        forall|k: int|
            0 <= k < process_spec(s, c, tfs).1.len() ==> (#[trigger] process_spec(s, c, tfs).1[k]).timeframe
                != Timeframe::OneMin,
    decreases tfs.len(),
{
    if tfs.len() > 0 {
        lemma_no_one_minute_bars(s, c, tfs.drop_last());
        let prev = process_spec(s, c, tfs.drop_last());
        let a = prev.0;
        let out = prev.1;
        let tf = tfs.last();
        let next = step(a, out, c, tf);
        assert(next == process_spec(s, c, tfs));
        if tf != Timeframe::OneMin {
            let start = tf.spec_period_start(c.timestamp);
            if has_key(a, c.symbol, tf) {
                let i = index_of_key(a, c.symbol, tf);
                assert(key_matches(a[i], c.symbol, tf));
                assert forall|k: int| 0 <= k < next.0.len() implies (#[trigger] next.0[k]).timeframe
                    != Timeframe::OneMin by {
                    if a[i].timestamp == start {
                        if !a[i].merged_with(c).is_complete() {
                            if k != i {
                                assert(next.0[k] == a[k]);
                            }
                        } else {
                            let k0 = if k < i { k } else { k + 1 };
                            assert(next.0[k] == a[k0]);
                        }
                    } else {
                        if k < a.len() - 1 {
                            let k0 = if k < i { k } else { k + 1 };
                            assert(next.0[k] == a.remove(i)[k]);
                            assert(a.remove(i)[k] == a[k0]);
                        }
                    }
                }
                assert forall|k: int| 0 <= k < next.1.len() implies (#[trigger] next.1[k]).timeframe
                    != Timeframe::OneMin by {
                    if k < out.len() {
                        assert(next.1[k] == out[k]);
                    }
                }
            } else {
                assert forall|k: int| 0 <= k < next.0.len() implies (#[trigger] next.0[k]).timeframe
                    != Timeframe::OneMin by {
                    if k < a.len() {
                        assert(next.0[k] == a[k]);
                    }
                }
            }
        }
    }
}

/// The active bar keyed by `symbol` and `timeframe` in `s`, if there is one.
pub open spec fn keyed(s: Seq<TimeframeCandleView>, symbol: Seq<char>, timeframe: Timeframe) -> Option<
    TimeframeCandleView,
> {
    if has_key(s, symbol, timeframe) {
        Some(s[index_of_key(s, symbol, timeframe)])
    } else {
        None
    }
}

proof fn lemma_keyed_at(s: Seq<TimeframeCandleView>, k: int, symbol: Seq<char>, timeframe: Timeframe)
    requires
        keys_unique(s),
        0 <= k < s.len(),
        key_matches(s[k], symbol, timeframe),
    ensures
        has_key(s, symbol, timeframe),
        index_of_key(s, symbol, timeframe) == k,
        keyed(s, symbol, timeframe) == Some(s[k]),
{
    assert(has_key(s, symbol, timeframe));
    let i = index_of_key(s, symbol, timeframe);
    assert(key_matches(s[i], symbol, timeframe));
    assert(s[i].symbol == s[k].symbol && s[i].timeframe == s[k].timeframe);
}

/// Two lists of bars that hold the same bars apart from those of one key give the
/// same bar for every other key.
proof fn lemma_same_other_keys(
    s: Seq<TimeframeCandleView>,
    a: Seq<TimeframeCandleView>,
    ks: Seq<char>,
    kt: Timeframe,
    symbol: Seq<char>,
    timeframe: Timeframe,
)
    requires
        keys_unique(s),
        keys_unique(a),
        !(symbol == ks && timeframe == kt),
        forall|k: int|
            0 <= k < a.len() ==> key_matches(#[trigger] a[k], ks, kt) || exists|j: int|
                0 <= j < s.len() && s[j] == a[k],
        forall|j: int|
            0 <= j < s.len() ==> key_matches(#[trigger] s[j], ks, kt) || exists|k: int|
                0 <= k < a.len() && a[k] == s[j],
    ensures
        keyed(a, symbol, timeframe) == keyed(s, symbol, timeframe),
{
    if has_key(s, symbol, timeframe) {
        let j = index_of_key(s, symbol, timeframe);
        assert(key_matches(s[j], symbol, timeframe));
        assert(!key_matches(s[j], ks, kt));
        let k = choose|k: int| 0 <= k < a.len() && a[k] == s[j];
        lemma_keyed_at(a, k, symbol, timeframe);
    } else if has_key(a, symbol, timeframe) {
        let k = index_of_key(a, symbol, timeframe);
        assert(key_matches(a[k], symbol, timeframe));
        assert(!key_matches(a[k], ks, kt));
        let j = choose|j: int| 0 <= j < s.len() && s[j] == a[k];
        assert(key_matches(s[j], symbol, timeframe));
        assert(has_key(s, symbol, timeframe));
    }
}

/// A step keeps the keys unique, only adds completed bars, and leaves every bar
/// of another key as it was.
proof fn lemma_step_frame(
    s: Seq<TimeframeCandleView>,
    out: Seq<TimeframeCandleView>,
    c: CandleView,
    tf: Timeframe,
    symbol: Seq<char>,
    timeframe: Timeframe,
)
    requires
        keys_unique(s),
    ensures
        keys_unique(step(s, out, c, tf).0),
        out.len() <= step(s, out, c, tf).1.len(),
        forall|j: int| 0 <= j < out.len() ==> #[trigger] step(s, out, c, tf).1[j] == out[j],
        !(symbol == c.symbol && timeframe == tf) ==> keyed(step(s, out, c, tf).0, symbol, timeframe)
            == keyed(s, symbol, timeframe),
{
    let a = step(s, out, c, tf).0;
    if tf != Timeframe::OneMin {
        let start = tf.spec_period_start(c.timestamp);
        if has_key(s, c.symbol, tf) {
            let i = index_of_key(s, c.symbol, tf);
            assert(key_matches(s[i], c.symbol, tf));
            let r = s.remove(i);
            assert forall|x: int, y: int|
                #![trigger r[x], r[y]]
                0 <= x < r.len() && 0 <= y < r.len() && r[x].symbol == r[y].symbol && r[x].timeframe
                    == r[y].timeframe implies x == y by {
                let x0 = if x < i { x } else { x + 1 };
                let y0 = if y < i { y } else { y + 1 };
                assert(r[x] == s[x0]);
                assert(r[y] == s[y0]);
            }
            assert forall|x: int| 0 <= x < r.len() implies !key_matches(#[trigger] r[x], c.symbol, tf) by {
                let x0 = if x < i { x } else { x + 1 };
                assert(r[x] == s[x0]);
            }
            if s[i].timestamp == start {
                let m = s[i].merged_with(c);
                if m.is_complete() {
                    assert(a == r);
                    if !(symbol == c.symbol && timeframe == tf) {
                        assert forall|j: int|
                            0 <= j < s.len() implies key_matches(#[trigger] s[j], c.symbol, tf) || exists|x: int|
                                0 <= x < a.len() && a[x] == s[j] by {
                            if j != i {
                                let x = if j < i { j } else { j - 1 };
                                assert(a[x] == s[j]);
                            }
                        }
                        assert forall|x: int|
                            0 <= x < a.len() implies key_matches(#[trigger] a[x], c.symbol, tf) || exists|j: int|
                                0 <= j < s.len() && s[j] == a[x] by {
                            let x0 = if x < i { x } else { x + 1 };
                            assert(a[x] == s[x0]);
                        }
                        lemma_same_other_keys(s, a, c.symbol, tf, symbol, timeframe);
                    }
                } else {
                    assert(a == s.update(i, m));
                    assert forall|x: int, y: int|
                        #![trigger a[x], a[y]]
                        0 <= x < a.len() && 0 <= y < a.len() && a[x].symbol == a[y].symbol
                            && a[x].timeframe == a[y].timeframe implies x == y by {
                        assert(a[x].symbol == s[x].symbol && a[x].timeframe == s[x].timeframe);
                        assert(a[y].symbol == s[y].symbol && a[y].timeframe == s[y].timeframe);
                    }
                    if !(symbol == c.symbol && timeframe == tf) {
                        assert forall|j: int|
                            0 <= j < s.len() implies key_matches(#[trigger] s[j], c.symbol, tf) || exists|x: int|
                                0 <= x < a.len() && a[x] == s[j] by {
                            if j != i {
                                assert(a[j] == s[j]);
                            }
                        }
                        assert forall|x: int|
                            0 <= x < a.len() implies key_matches(#[trigger] a[x], c.symbol, tf) || exists|j: int|
                                0 <= j < s.len() && s[j] == a[x] by {
                            if x != i {
                                assert(a[x] == s[x]);
                            }
                        }
                        lemma_same_other_keys(s, a, c.symbol, tf, symbol, timeframe);
                    }
                }
            } else {
                let n = TimeframeCandleView::opened_by(c, tf, start);
                assert(a == r.push(n));
                assert forall|x: int, y: int|
                    #![trigger a[x], a[y]]
                    0 <= x < a.len() && 0 <= y < a.len() && a[x].symbol == a[y].symbol
                        && a[x].timeframe == a[y].timeframe implies x == y by {
                    if x < r.len() && y == r.len() {
                        assert(a[x] == r[x]);
                        assert(!key_matches(r[x], c.symbol, tf));
                    } else if y < r.len() && x == r.len() {
                        assert(a[y] == r[y]);
                        assert(!key_matches(r[y], c.symbol, tf));
                    } else if x < r.len() && y < r.len() {
                        assert(a[x] == r[x]);
                        assert(a[y] == r[y]);
                    }
                }
                if !(symbol == c.symbol && timeframe == tf) {
                    assert forall|j: int|
                        0 <= j < s.len() implies key_matches(#[trigger] s[j], c.symbol, tf) || exists|x: int|
                            0 <= x < a.len() && a[x] == s[j] by {
                        if j != i {
                            let x = if j < i { j } else { j - 1 };
                            assert(a[x] == s[j]);
                        }
                    }
                    assert forall|x: int|
                        0 <= x < a.len() implies key_matches(#[trigger] a[x], c.symbol, tf) || exists|j: int|
                            0 <= j < s.len() && s[j] == a[x] by {
                        if x < r.len() {
                            let x0 = if x < i { x } else { x + 1 };
                            assert(a[x] == s[x0]);
                        }
                    }
                    lemma_same_other_keys(s, a, c.symbol, tf, symbol, timeframe);
                }
            }
        } else {
            let n = TimeframeCandleView::opened_by(c, tf, start);
            assert(a == s.push(n));
            assert forall|x: int, y: int|
                #![trigger a[x], a[y]]
                0 <= x < a.len() && 0 <= y < a.len() && a[x].symbol == a[y].symbol && a[x].timeframe
                    == a[y].timeframe implies x == y by {
                if x < s.len() && y == s.len() {
                    assert(a[x] == s[x]);
                    assert(key_matches(s[x], c.symbol, tf));
                } else if y < s.len() && x == s.len() {
                    assert(a[y] == s[y]);
                    assert(key_matches(s[y], c.symbol, tf));
                } else if x < s.len() && y < s.len() {
                    assert(a[x] == s[x]);
                    assert(a[y] == s[y]);
                }
            }
            if !(symbol == c.symbol && timeframe == tf) {
                assert forall|j: int|
                    0 <= j < s.len() implies key_matches(#[trigger] s[j], c.symbol, tf) || exists|x: int|
                        0 <= x < a.len() && a[x] == s[j] by {
                    assert(a[j] == s[j]);
                }
                assert forall|x: int|
                    0 <= x < a.len() implies key_matches(#[trigger] a[x], c.symbol, tf) || exists|j: int|
                        0 <= j < s.len() && s[j] == a[x] by {
                    if x < s.len() {
                        assert(a[x] == s[x]);
                    }
                }
                lemma_same_other_keys(s, a, c.symbol, tf, symbol, timeframe);
            }
        }
    }
}

/// Processing keeps the keys unique.
proof fn lemma_process_unique(s: Seq<TimeframeCandleView>, c: CandleView, tfs: Seq<Timeframe>)
    requires
        keys_unique(s),
    ensures
        keys_unique(process_spec(s, c, tfs).0),
    decreases tfs.len(),
{
    if tfs.len() > 0 {
        lemma_process_unique(s, c, tfs.drop_last());
        let prev = process_spec(s, c, tfs.drop_last());
        lemma_step_frame(prev.0, prev.1, c, tfs.last(), c.symbol, tfs.last());
    }
}

/// Law: processing a candle touches only the candle's own bars of the listed
/// timeframes. The active bar of any other symbol, or of a timeframe not in the
/// list, is the same before and after.
pub proof fn lemma_other_bars_untouched(
    s: Seq<TimeframeCandleView>,
    c: CandleView,
    tfs: Seq<Timeframe>,
    symbol: Seq<char>,
    timeframe: Timeframe,
)
    requires
        keys_unique(s),
        symbol != c.symbol || !tfs.contains(timeframe),
    ensures
        keyed(process_spec(s, c, tfs).0, symbol, timeframe) == keyed(s, symbol, timeframe),
    decreases tfs.len(),
{
    if tfs.len() > 0 {
        let pre = tfs.drop_last();
        assert(symbol != c.symbol || !pre.contains(timeframe)) by {
            if symbol == c.symbol && pre.contains(timeframe) {
                let k = choose|k: int| 0 <= k < pre.len() && pre[k] == timeframe;
                assert(tfs[k] == timeframe);
            }
        }
        assert(symbol != c.symbol || tfs[tfs.len() - 1] != timeframe);
        lemma_other_bars_untouched(s, c, pre, symbol, timeframe);
        lemma_process_unique(s, c, pre);
        let prev = process_spec(s, c, pre);
        lemma_step_frame(prev.0, prev.1, c, tfs.last(), symbol, timeframe);
    }
}

/// Whether a bar's range holds the candle's: its high is at least the candle's
/// high and its low at most the candle's low.
pub open spec fn covers_candle(bar: TimeframeCandleView, c: CandleView) -> bool {
    units_of(bar.high) >= units_of(c.high) && units_of(bar.low) <= units_of(c.low)
}

/// After processing `c`, the bar of `timeframe` for the candle's symbol is in the
/// candle's period and its range holds the candle's: either it is still active,
/// or it completed and was returned.
pub open spec fn bar_current(
    active: Seq<TimeframeCandleView>,
    done: Seq<TimeframeCandleView>,
    c: CandleView,
    timeframe: Timeframe,
) -> bool {
    let start = timeframe.spec_period_start(c.timestamp);
    match keyed(active, c.symbol, timeframe) {
        Some(a) => a.timestamp == start && covers_candle(a, c),
        None => exists|k: int|
            0 <= k < done.len() && (#[trigger] done[k]).symbol == c.symbol && done[k].timeframe
                == timeframe && done[k].timestamp == start && done[k].is_complete() && covers_candle(
                done[k],
                c,
            ),
    }
}

/// Law: each listed timeframe ends up in the candle's period, with the candle
/// inside the bar's range. For every timeframe of the list other than one minute
/// (listed once), after processing a candle the candle's bar of that timeframe is
/// either active and starts at the candle's period start, or it completed in that
/// period and is among the returned bars; either way its high is at least the
/// candle's high and its low at most the candle's low.
pub proof fn lemma_bars_follow_candle_period(
    s: Seq<TimeframeCandleView>,
    c: CandleView,
    tfs: Seq<Timeframe>,
    timeframe: Timeframe,
)
    requires
        keys_unique(s),
        tfs.no_duplicates(),
        tfs.contains(timeframe),
        timeframe != Timeframe::OneMin,
    ensures
        bar_current(process_spec(s, c, tfs).0, process_spec(s, c, tfs).1, c, timeframe),
    decreases tfs.len(),
{
    let start = timeframe.spec_period_start(c.timestamp);
    let pre = tfs.drop_last();
    let prev = process_spec(s, c, pre);
    lemma_process_unique(s, c, pre);
    let a = prev.0;
    let next = step(a, prev.1, c, tfs.last());
    assert(next == process_spec(s, c, tfs));
    lemma_step_frame(a, prev.1, c, tfs.last(), c.symbol, timeframe);
    if tfs.last() == timeframe {
        if has_key(a, c.symbol, timeframe) {
            let i = index_of_key(a, c.symbol, timeframe);
            assert(key_matches(a[i], c.symbol, timeframe));
            if a[i].timestamp == start {
                let m = a[i].merged_with(c);
                crate::market::lemma_merge_keeps_extremes(a[i], c);
                if m.is_complete() {
                    assert(next.0 == a.remove(i));
                    assert(next.1 == prev.1.push(m));
                    assert(next.1[prev.1.len() as int] == m);
                    assert(!has_key(next.0, c.symbol, timeframe)) by {
                        if has_key(next.0, c.symbol, timeframe) {
                            let x = index_of_key(next.0, c.symbol, timeframe);
                            assert(key_matches(next.0[x], c.symbol, timeframe));
                            let x0 = if x < i { x } else { x + 1 };
                            assert(next.0[x] == a[x0]);
                            assert(a[x0].symbol == a[i].symbol && a[x0].timeframe == a[i].timeframe);
                        }
                    }
                } else {
                    assert(next.0 == a.update(i, m));
                    assert(next.0[i] == m);
                    lemma_keyed_at(next.0, i, c.symbol, timeframe);
                }
            } else {
                assert(next.0 == a.remove(i).push(TimeframeCandleView::opened_by(c, timeframe, start)));
                assert(key_matches(next.0[next.0.len() - 1], c.symbol, timeframe));
                lemma_keyed_at(next.0, next.0.len() - 1, c.symbol, timeframe);
            }
        } else {
            assert(next.0 == a.push(TimeframeCandleView::opened_by(c, timeframe, start)));
            assert(key_matches(next.0[next.0.len() - 1], c.symbol, timeframe));
            lemma_keyed_at(next.0, next.0.len() - 1, c.symbol, timeframe);
        }
    } else {
        assert(pre.contains(timeframe)) by {
            let k = choose|k: int| 0 <= k < tfs.len() && tfs[k] == timeframe;
            assert(k != tfs.len() - 1);
            assert(pre[k] == timeframe);
        }
        assert(pre.no_duplicates()) by {
            assert forall|x: int, y: int| 0 <= x < pre.len() && 0 <= y < pre.len() && x != y implies pre[x]
                != pre[y] by {
                assert(pre[x] == tfs[x] && pre[y] == tfs[y]);
            }
        }
        lemma_bars_follow_candle_period(s, c, pre, timeframe);
        if keyed(a, c.symbol, timeframe) is None {
            let k = choose|k: int|
                0 <= k < prev.1.len() && (#[trigger] prev.1[k]).symbol == c.symbol && prev.1[k].timeframe
                    == timeframe && prev.1[k].timestamp == start && prev.1[k].is_complete()
                    && covers_candle(prev.1[k], c);
            assert(next.1[k] == prev.1[k]);
        }
    }
}

/// Law: a candle completes only its own bars, at most one per listed timeframe.
/// With each timeframe listed once, every bar returned for a candle is of the
/// candle's symbol and of a listed timeframe other than one minute, and no two
/// returned bars share a timeframe.
pub proof fn lemma_completed_bars(s: Seq<TimeframeCandleView>, c: CandleView, tfs: Seq<Timeframe>)
    requires
        keys_unique(s),
        tfs.no_duplicates(),
    ensures
        forall|k: int|
            0 <= k < process_spec(s, c, tfs).1.len() ==> {
                let b = #[trigger] process_spec(s, c, tfs).1[k];
                &&& b.symbol == c.symbol
                &&& tfs.contains(b.timeframe)
                &&& b.timeframe != Timeframe::OneMin
            },
        forall|a: int, b: int|
            0 <= a < b < process_spec(s, c, tfs).1.len() ==> (#[trigger] process_spec(s, c, tfs).1[a]).timeframe
                != (#[trigger] process_spec(s, c, tfs).1[b]).timeframe,
    decreases tfs.len(),
{
    if tfs.len() > 0 {
        let pre = tfs.drop_last();
        let tf = tfs.last();
        assert(pre.no_duplicates()) by {
            assert forall|x: int, y: int| 0 <= x < pre.len() && 0 <= y < pre.len() && x != y implies pre[x]
                != pre[y] by {
                assert(pre[x] == tfs[x] && pre[y] == tfs[y]);
            }
        }
        assert(!pre.contains(tf)) by {
            if pre.contains(tf) {
                let k = choose|k: int| 0 <= k < pre.len() && pre[k] == tf;
                assert(tfs[k] == tfs[tfs.len() - 1]);
            }
        }
        lemma_completed_bars(s, c, pre);
        lemma_process_unique(s, c, pre);
        let prev = process_spec(s, c, pre);
        let out = prev.1;
        let next = step(prev.0, out, c, tf);
        assert(next == process_spec(s, c, tfs));
        assert forall|k: int| 0 <= k < out.len() implies tfs.contains(#[trigger] out[k].timeframe) by {
            let j = choose|j: int| 0 <= j < pre.len() && pre[j] == out[k].timeframe;
            assert(tfs[j] == pre[j]);
        }
        if next.1.len() > out.len() {
            assert(tf != Timeframe::OneMin);
            let a = prev.0;
            let i = index_of_key(a, c.symbol, tf);
            assert(has_key(a, c.symbol, tf));
            assert(key_matches(a[i], c.symbol, tf));
            let last = next.1[out.len() as int];
            assert(last.symbol == c.symbol && last.timeframe == tf);
            assert(tfs[tfs.len() - 1] == tf);
            assert forall|k: int| 0 <= k < out.len() implies (#[trigger] out[k]).timeframe != tf by {
                if out[k].timeframe == tf {
                    assert(pre.contains(tf)) by {
                        let j = choose|j: int| 0 <= j < pre.len() && pre[j] == out[k].timeframe;
                    }
                }
            }
            assert(next.1 == out.push(last));
        } else {
            assert(next.1 == out);
        }
    }
}

/// Law: when a new period has begun, the old bar is completed as it stood and a
/// fresh bar is opened. For a bar active for the candle's symbol and a timeframe
/// of the list (not one minute, listed once) whose period is not the candle's,
/// processing the candle returns that bar unchanged and leaves as the active bar
/// of that timeframe the one the candle opens at the start of its period.
pub proof fn lemma_new_period_completes_old_bar(
    s: Seq<TimeframeCandleView>,
    c: CandleView,
    tfs: Seq<Timeframe>,
    timeframe: Timeframe,
)
    requires
        keys_unique(s),
        tfs.no_duplicates(),
        tfs.contains(timeframe),
        timeframe != Timeframe::OneMin,
        has_key(s, c.symbol, timeframe),
        s[index_of_key(s, c.symbol, timeframe)].timestamp != timeframe.spec_period_start(c.timestamp),
    ensures
        process_spec(s, c, tfs).1.contains(s[index_of_key(s, c.symbol, timeframe)]),
        keyed(process_spec(s, c, tfs).0, c.symbol, timeframe) == Some(
            TimeframeCandleView::opened_by(c, timeframe, timeframe.spec_period_start(c.timestamp)),
        ),
    decreases tfs.len(),
{
    let old_bar = s[index_of_key(s, c.symbol, timeframe)];
    let start = timeframe.spec_period_start(c.timestamp);
    let fresh = TimeframeCandleView::opened_by(c, timeframe, start);
    let pre = tfs.drop_last();
    let prev = process_spec(s, c, pre);
    if tfs.last() == timeframe {
        assert(!pre.contains(timeframe)) by {
            if pre.contains(timeframe) {
                let k = choose|k: int| 0 <= k < pre.len() && pre[k] == timeframe;
                assert(tfs[k] == tfs[tfs.len() - 1]);
            }
        }
        lemma_other_bars_untouched(s, c, pre, c.symbol, timeframe);
        lemma_process_unique(s, c, pre);
        let a = prev.0;
        assert(has_key(a, c.symbol, timeframe));
        let i = index_of_key(a, c.symbol, timeframe);
        assert(a[i] == old_bar);
        let next = step(a, prev.1, c, timeframe);
        assert(next == process_spec(s, c, tfs));
        assert(next.1 == prev.1.push(old_bar));
        assert(next.1[prev.1.len() as int] == old_bar);
        assert(next.0 == a.remove(i).push(fresh));
        lemma_step_frame(a, prev.1, c, timeframe, c.symbol, timeframe);
        assert(key_matches(next.0[next.0.len() - 1], c.symbol, timeframe));
        lemma_keyed_at(next.0, next.0.len() - 1, c.symbol, timeframe);
    } else {
        assert(pre.contains(timeframe)) by {
            let k = choose|k: int| 0 <= k < tfs.len() && tfs[k] == timeframe;
            assert(k != tfs.len() - 1);
            assert(pre[k] == timeframe);
        }
        assert(pre.no_duplicates()) by {
            assert forall|x: int, y: int| 0 <= x < pre.len() && 0 <= y < pre.len() && x != y implies pre[x]
                != pre[y] by {
                assert(pre[x] == tfs[x] && pre[y] == tfs[y]);
            }
        }
        lemma_new_period_completes_old_bar(s, c, pre, timeframe);
        lemma_process_unique(s, c, pre);
        let k = choose|k: int| 0 <= k < prev.1.len() && prev.1[k] == old_bar;
        lemma_step_frame(prev.0, prev.1, c, tfs.last(), c.symbol, timeframe);
        let next = step(prev.0, prev.1, c, tfs.last());
        assert(next.1[k] == old_bar);
    }
}

/// The start of a period is a multiple of the period length.
pub proof fn lemma_period_start_aligned(timeframe: Timeframe, timestamp: int)
    ensures
        timeframe.spec_period_start(timestamp) % timeframe.spec_period_ms() == 0,
        timeframe.spec_period_start(timestamp) <= timestamp,
        timestamp - timeframe.spec_period_ms() < timeframe.spec_period_start(timestamp),
        timeframe.spec_period_ms() <= longest_period_ms(),
{
    let d = timeframe.spec_period_ms();
    vstd::arithmetic::div_mod::lemma_fundamental_div_mod(timestamp, d);
    vstd::arithmetic::div_mod::lemma_mod_multiples_basic(timestamp / d, d);
    assert(d * (timestamp / d) == (timestamp / d) * d) by (nonlinear_arith);
}

/// Aggregates 1-minute candles into higher timeframes, keeping one in-progress bar
/// per symbol and timeframe.
pub struct TimeframeAggregator {
    active_candles: Vec<TimeframeCandle>,
}

impl View for TimeframeAggregator {
    type V = Seq<TimeframeCandleView>;

    closed spec fn view(&self) -> Seq<TimeframeCandleView> {
        self.active_candles@.map_values(|c: TimeframeCandle| c@)
    }
}

impl TimeframeAggregator {
    proof fn lemma_wf_after_remove(&self, s0: Seq<TimeframeCandleView>, i: int)
        requires
            keys_unique(s0),
            forall|k: int| 0 <= k < s0.len() ==> active_bar_ok(#[trigger] s0[k]),
            0 <= i < s0.len(),
            self@ == s0.remove(i),
        ensures
            self.wf(),
    {
        assert forall|a: int, b: int|
            #![trigger self@[a], self@[b]]
            0 <= a < self@.len() && 0 <= b < self@.len() && self@[a].symbol == self@[b].symbol
                && self@[a].timeframe == self@[b].timeframe implies a == b by {
            let a0 = if a < i { a } else { a + 1 };
            let b0 = if b < i { b } else { b + 1 };
            assert(self@[a] == s0[a0]);
            assert(self@[b] == s0[b0]);
        }
        assert forall|k: int| 0 <= k < self@.len() implies active_bar_ok(#[trigger] self@[k]) by {
            let k0 = if k < i { k } else { k + 1 };
            assert(self@[k] == s0[k0]);
        }
    }

    proof fn lemma_wf_after_push(&self, s1: Seq<TimeframeCandleView>, c: TimeframeCandleView)
        requires
            keys_unique(s1),
            forall|k: int| 0 <= k < s1.len() ==> active_bar_ok(#[trigger] s1[k]),
            !has_key(s1, c.symbol, c.timeframe),
            active_bar_ok(c),
            self@ == s1.push(c),
        ensures
            self.wf(),
    {
        assert forall|a: int, b: int|
            #![trigger self@[a], self@[b]]
            0 <= a < self@.len() && 0 <= b < self@.len() && self@[a].symbol == self@[b].symbol
                && self@[a].timeframe == self@[b].timeframe implies a == b by {
            if a < s1.len() && b == s1.len() {
                assert(key_matches(s1[a], c.symbol, c.timeframe));
            } else if b < s1.len() && a == s1.len() {
                assert(key_matches(s1[b], c.symbol, c.timeframe));
            }
        }
        assert forall|k: int| 0 <= k < self@.len() implies active_bar_ok(#[trigger] self@[k]) by {
            if k < s1.len() {
                assert(self@[k] == s1[k]);
            }
        }
    }

    /// Well-formedness: unique keys and in-progress, aligned, bounded bars.
    pub open spec fn wf(self) -> bool {
        &&& keys_unique(self@)
        &&& forall|i: int| 0 <= i < self@.len() ==> active_bar_ok(#[trigger] self@[i])
    }

    pub fn new() -> (r: Self)
        ensures
            r.wf(),
            r@ == Seq::<TimeframeCandleView>::empty(),
    {
        let r = TimeframeAggregator { active_candles: Vec::new() };
        assert(r@ =~= Seq::<TimeframeCandleView>::empty());
        r
    }

    /// Process a 1-minute candle: for each timeframe of `timeframes` in order (the
    /// one-minute timeframe is skipped), merge it into the bar of its period, start a
    /// new bar when the period changed (completing the old one), and return the bars
    /// that completed.
    pub fn process_candle(&mut self, candle: &Candle, timeframes: &[Timeframe]) -> (r: Vec<
        TimeframeCandle,
    >)
        requires
            old(self).wf(),
            candle.timestamp >= i64::MIN + longest_period_ms(),
            process_in_range(old(self)@, candle@, timeframes@),
        ensures
            final(self).wf(),
            final(self)@ == process_spec(old(self)@, candle@, timeframes@).0,
            r@.map_values(|c: TimeframeCandle| c@) == process_spec(
                old(self)@,
                candle@,
                timeframes@,
            ).1,
    {
        match self.run(candle, timeframes) {
            Some(completed) => completed,
            None => Vec::new(),
        }
    }

    /// Process a 1-minute candle as `process_candle` does when every volume sum
    /// stays within the decimal range and the candle's time is not within a day of
    /// the earliest representable time; otherwise return `None` and change
    /// nothing.
    pub fn try_process_candle(&mut self, candle: &Candle, timeframes: &[Timeframe]) -> (r: Option<
        Vec<TimeframeCandle>,
    >)
        requires
            old(self).wf(),
        ensures
            final(self).wf(),
            r is Some <==> (candle.timestamp >= i64::MIN + longest_period_ms() && process_in_range(
                old(self)@,
                candle@,
                timeframes@,
            )),
            r is None ==> final(self)@ == old(self)@,
            r matches Some(completed) ==> final(self)@ == process_spec(
                old(self)@,
                candle@,
                timeframes@,
            ).0 && completed@.map_values(|c: TimeframeCandle| c@) == process_spec(
                old(self)@,
                candle@,
                timeframes@,
            ).1,
    {
        if candle.timestamp < i64::MIN + 86_400_000 {
            return None;
        }
        let mut work = self.duplicate();
        match work.run(candle, timeframes) {
            Some(completed) => {
                *self = work;
                Some(completed)
            },
            None => None,
        }
    }

    /// A copy holding the same bars.
    fn duplicate(&self) -> (r: Self)
        requires
            self.wf(),
        ensures
            r@ == self@,
            r.wf(),
    {
        let mut bars: Vec<TimeframeCandle> = Vec::new();
        let mut i: usize = 0;
        while i < self.active_candles.len()
            invariant
                i <= self.active_candles.len(),
                bars@.map_values(|c: TimeframeCandle| c@) == self@.take(i as int),
            decreases self.active_candles.len() - i,
        {
            let b = self.active_candles[i].duplicate();
            let ghost before = bars@.map_values(|c: TimeframeCandle| c@);
            bars.push(b);
            proof {
                assert(self@[i as int] == self.active_candles@[i as int]@);
                assert(bars@.map_values(|c: TimeframeCandle| c@) =~= before.push(b@));
                assert(self@.take(i + 1) =~= self@.take(i as int).push(self@[i as int]));
            }
            i = i + 1;
        }
        let r = TimeframeAggregator { active_candles: bars };
        assert(self@.take(self@.len() as int) =~= self@);
        assert(r@ =~= self@);
        r
    }

    /// The candle processing itself, checking each volume sum before it is made:
    /// `None` as soon as one would leave the decimal range (the bars are then left
    /// part way).
    fn run(&mut self, candle: &Candle, timeframes: &[Timeframe]) -> (r: Option<Vec<TimeframeCandle>>)
        requires
            old(self).wf(),
            candle.timestamp >= i64::MIN + longest_period_ms(),
        ensures
            final(self).wf(),
            r is Some <==> process_in_range(old(self)@, candle@, timeframes@),
            r matches Some(completed) ==> final(self)@ == process_spec(
                old(self)@,
                candle@,
                timeframes@,
            ).0 && completed@.map_values(|c: TimeframeCandle| c@) == process_spec(
                old(self)@,
                candle@,
                timeframes@,
            ).1,
    {
        let mut completed: Vec<TimeframeCandle> = Vec::new();
        let mut j: usize = 0;
        let ghost start_view = self@;
        assert(timeframes@.take(0) =~= Seq::<Timeframe>::empty());
        assert(completed@.map_values(|c: TimeframeCandle| c@) =~= Seq::<TimeframeCandleView>::empty());
        while j < timeframes.len()
            invariant
                self.wf(),
                0 <= j <= timeframes@.len(),
                candle.timestamp >= i64::MIN + longest_period_ms(),
                start_view == old(self)@,
                process_in_range(start_view, candle@, timeframes@.take(j as int)),
                self@ == process_spec(start_view, candle@, timeframes@.take(j as int)).0,
                completed@.map_values(|c: TimeframeCandle| c@) == process_spec(
                    start_view,
                    candle@,
                    timeframes@.take(j as int),
                ).1,
            decreases timeframes@.len() - j,
        {
            let timeframe = timeframes[j];
            proof {
                assert(timeframes@.take(j + 1).drop_last() =~= timeframes@.take(j as int));
                assert(timeframes@.take(j + 1).last() == timeframe);
            }
            let ghost s0 = self@;
            let ghost out0 = completed@.map_values(|c: TimeframeCandle| c@);
            if timeframe != Timeframe::OneMin {
                let start = timeframe.period_start(candle.timestamp);
                proof {
                    lemma_period_start_aligned(timeframe, candle.timestamp as int);
                }
                match self.find(candle.symbol.as_str(), timeframe) {
                    Some(i) => {
                        if self.active_candles[i].timestamp == start {
                            if !sum_in_range(self.active_candles[i].volume, candle.volume) {
                                proof {
                                    assert(self.active_candles@[i as int]@ == s0[i as int]);
                                    assert(!merge_in_range(s0, candle@, timeframe));
                                    assert(!process_in_range(start_view, candle@, timeframes@.take(j + 1)));
                                    if process_in_range(start_view, candle@, timeframes@) {
                                        lemma_in_range_prefix(start_view, candle@, timeframes@, j + 1);
                                    }
                                }
                                return None;
                            }
                            let mut active = self.active_candles.remove(i);
                            proof {
                                assert(active@ == s0[i as int]);
                                assert(active_bar_ok(s0[i as int]));
                            }
                            active.update(
                                candle.open,
                                candle.high,
                                candle.low,
                                candle.close,
                                candle.volume,
                            );
                            if active.is_complete() {
                                completed.push(active);
                                proof {
                                    assert(self@ =~= s0.remove(i as int));
                                    assert(completed@.map_values(|c: TimeframeCandle| c@) =~= out0.push(
                                        active@,
                                    ));
                                    self.lemma_wf_after_remove(s0, i as int);
                                }
                            } else {
                                self.active_candles.insert(i, active);
                                proof {
                                    assert(self@ =~= s0.update(i as int, active@));
                                    assert(completed@.map_values(|c: TimeframeCandle| c@) =~= out0);
                                    assert(active_bar_ok(active@));
                                    assert forall|k: int| 0 <= k < self@.len() implies active_bar_ok(
                                        #[trigger] self@[k],
                                    ) by {
                                        if k != i {
                                            assert(self@[k] == s0[k]);
                                        }
                                    }
                                }
                            }
                        } else {
                            let old_bar = self.active_candles.remove(i);
                            proof {
                                assert(old_bar@ == s0[i as int]);
                                assert(self@ =~= s0.remove(i as int));
                                self.lemma_wf_after_remove(s0, i as int);
                            }
                            completed.push(old_bar);
                            let fresh = TimeframeCandle::new(
                                candle.symbol.clone(),
                                timeframe,
                                candle.open,
                                candle.high,
                                candle.low,
                                candle.close,
                                candle.volume,
                                start,
                            );
                            let ghost s1 = self@;
                            self.active_candles.push(fresh);
                            proof {
                                assert(self@ =~= s1.push(fresh@));
                                assert(completed@.map_values(|c: TimeframeCandle| c@) =~= out0.push(
                                    old_bar@,
                                ));
                                assert(!has_key(s1, candle.symbol@, timeframe)) by {
                                    if has_key(s1, candle.symbol@, timeframe) {
                                        let k = index_of_key(s1, candle.symbol@, timeframe);
                                        let k0 = if k < i { k } else { k + 1 };
                                        assert(s1[k] == s0[k0]);
                                    }
                                }
                                self.lemma_wf_after_push(s1, fresh@);
                            }
                        }
                    },
                    None => {
                        let fresh = TimeframeCandle::new(
                            candle.symbol.clone(),
                            timeframe,
                            candle.open,
                            candle.high,
                            candle.low,
                            candle.close,
                            candle.volume,
                            start,
                        );
                        self.active_candles.push(fresh);
                        proof {
                            assert(self@ =~= s0.push(fresh@));
                            self.lemma_wf_after_push(s0, fresh@);
                        }
                    },
                }
            }
            proof {
                assert(process_in_range(start_view, candle@, timeframes@.take(j + 1)));
            }
            j = j + 1;
        }
        proof {
            assert(timeframes@.take(timeframes@.len() as int) =~= timeframes@);
        }
        Some(completed)
    }

    /// Complete the active bars early: those of `symbol` when one is given (the
    /// others stay active), otherwise all of them. The bars come back in the order
    /// they are held.
    pub fn flush(&mut self, symbol: Option<&str>) -> (r: Vec<TimeframeCandle>)
        requires
            old(self).wf(),
        ensures
            final(self).wf(),
            match symbol {
                Some(sym) => {
                    &&& r@.map_values(|c: TimeframeCandle| c@) == old(self)@.filter(
                        |c: TimeframeCandleView| c.symbol == sym@,
                    )
                    &&& final(self)@ == old(self)@.filter(
                        |c: TimeframeCandleView| c.symbol != sym@,
                    )
                },
                None => {
                    &&& r@.map_values(|c: TimeframeCandle| c@) == old(self)@
                    &&& final(self)@ == Seq::<TimeframeCandleView>::empty()
                },
            },
    {
        let mut held: Vec<TimeframeCandle> = Vec::new();
        std::mem::swap(&mut held, &mut self.active_candles);
        let ghost orig = held@.map_values(|c: TimeframeCandle| c@);
        proof {
            assert(orig =~= old(self)@);
        }
        match symbol {
            None => {
                assert(self@ =~= Seq::<TimeframeCandleView>::empty());
                held
            },
            Some(sym) => {
                let ghost keep = |c: TimeframeCandleView| c.symbol != sym@;
                let ghost take = |c: TimeframeCandleView| c.symbol == sym@;
                let mut removed: Vec<TimeframeCandle> = Vec::new();
                let n = held.len();
                let mut k: usize = 0;
                proof {
                    assert(orig.take(0) =~= Seq::<TimeframeCandleView>::empty());
                    reveal(Seq::filter);
                    assert(self@ =~= Seq::<TimeframeCandleView>::empty());
                    assert(removed@.map_values(|c: TimeframeCandle| c@) =~= Seq::<
                        TimeframeCandleView,
                    >::empty());
                }
                while k < n
                    invariant
                        n == orig.len(),
                        0 <= k <= n,
                        held@.map_values(|c: TimeframeCandle| c@) == orig.subrange(
                            k as int,
                            n as int,
                        ),
                        keys_unique(orig),
                        forall|a: int| 0 <= a < orig.len() ==> active_bar_ok(#[trigger] orig[a]),
                        self@ == orig.take(k as int).filter(keep),
                        removed@.map_values(|c: TimeframeCandle| c@) == orig.take(k as int).filter(
                            take,
                        ),
                        keys_unique(self@),
                        forall|a: int| 0 <= a < self@.len() ==> active_bar_ok(#[trigger] self@[a]),
                        forall|a: int|
                            0 <= a < self@.len() ==> exists|b: int|
                                0 <= b < k && #[trigger] orig[b] == #[trigger] self@[a],
                        keep == (|c: TimeframeCandleView| c.symbol != sym@),
                        take == (|c: TimeframeCandleView| c.symbol == sym@),
                    decreases n - k,
                {
                    let ghost before = self@;
                    proof {
                        assert(held@.map_values(|c: TimeframeCandle| c@).len() == n - k);
                        assert(held@.map_values(|c: TimeframeCandle| c@)[0] == orig[k as int]);
                    }
                    let ghost hv = held@;
                    let c = held.remove(0);
                    proof {
                        assert(c@ == orig[k as int]);
                        assert(orig.take(k + 1) =~= orig.take(k as int).push(c@));
                        orig.take(k as int).lemma_filter_push(c@, keep);
                        orig.take(k as int).lemma_filter_push(c@, take);
                        assert forall|idx: int|
                            0 <= idx < held@.len() implies #[trigger] held@[idx]@ == orig[k + 1
                            + idx] by {
                            assert(held@[idx] == hv[idx + 1]);
                            assert(hv.map_values(|c: TimeframeCandle| c@)[idx + 1] == orig[k + 1
                                + idx]);
                        }
                        assert(held@.map_values(|c: TimeframeCandle| c@) =~= orig.subrange(
                            k + 1,
                            n as int,
                        ));
                    }
                    if str_eq(c.symbol.as_str(), sym) {
                        removed.push(c);
                        proof {
                            assert(removed@.map_values(|c: TimeframeCandle| c@) =~= orig.take(
                                k as int,
                            ).filter(take).push(c@));
                            assert forall|a: int|
                                0 <= a < self@.len() implies exists|b: int|
                                    0 <= b < k + 1 && #[trigger] orig[b] == #[trigger] self@[a] by {
                                let b = choose|b: int| 0 <= b < k && #[trigger] orig[b] == #[trigger] self@[a];
                                assert(orig[b] == self@[a]);
                            }
                        }
                    } else {
                        self.active_candles.push(c);
                        proof {
                            assert(self@ =~= before.push(c@));
                            assert forall|a: int, b: int|
                                #![trigger self@[a], self@[b]]
                                0 <= a < self@.len() && 0 <= b < self@.len() && self@[a].symbol
                                    == self@[b].symbol && self@[a].timeframe == self@[b].timeframe
                                    implies a == b by {
                                if a < before.len() && b == before.len() {
                                    let a0 = choose|a0: int| 0 <= a0 < k && #[trigger] orig[a0] == #[trigger] before[a];
                                    assert(orig[a0] == before[a]);
                                    assert(orig[k as int] == self@[b]);
                                } else if b < before.len() && a == before.len() {
                                    let b0 = choose|b0: int| 0 <= b0 < k && #[trigger] orig[b0] == #[trigger] before[b];
                                    assert(orig[b0] == before[b]);
                                    assert(orig[k as int] == self@[a]);
                                } else if a < before.len() && b < before.len() {
                                    assert(self@[a] == before[a]);
                                    assert(self@[b] == before[b]);
                                }
                            }
                            assert forall|a: int| 0 <= a < self@.len() implies active_bar_ok(
                                #[trigger] self@[a],
                            ) by {
                                if a < before.len() {
                                    assert(self@[a] == before[a]);
                                } else {
                                    assert(self@[a] == orig[k as int]);
                                }
                            }
                            assert forall|a: int|
                                0 <= a < self@.len() implies exists|b: int|
                                    0 <= b < k + 1 && #[trigger] orig[b] == #[trigger] self@[a] by {
                                if a < before.len() {
                                    let b = choose|b: int| 0 <= b < k && #[trigger] orig[b] == #[trigger] before[a];
                                    assert(orig[b] == self@[a]);
                                } else {
                                    assert(orig[k as int] == self@[a]);
                                }
                            }
                        }
                    }
                    k = k + 1;
                }
                proof {
                    assert(orig.take(n as int) =~= orig);
                }
                removed
            },
        }
    }

    /// The active bar for `symbol` and `timeframe`, if there is one.
    pub fn get_active_candle(&self, symbol: &str, timeframe: Timeframe) -> (r: Option<
        &TimeframeCandle,
    >)
        requires
            self.wf(),
        ensures
            match r {
                Some(c) => has_key(self@, symbol@, timeframe) && c@ == self@[index_of_key(
                    self@,
                    symbol@,
                    timeframe,
                )],
                None => !has_key(self@, symbol@, timeframe),
            },
    {
        match self.find(symbol, timeframe) {
            Some(i) => Some(&self.active_candles[i]),
            None => None,
        }
    }

    /// Drop all active bars.
    pub fn clear(&mut self)
        ensures
            final(self).wf(),
            final(self)@ == Seq::<TimeframeCandleView>::empty(),
    {
        self.active_candles.clear();
        assert(self@ =~= Seq::<TimeframeCandleView>::empty());
    }

    /// Position of the active bar for `symbol` and `timeframe`.
    fn find(&self, symbol: &str, timeframe: Timeframe) -> (r: Option<usize>)
        requires
            self.wf(),
        ensures
            match r {
                Some(i) => has_key(self@, symbol@, timeframe) && i == index_of_key(
                    self@,
                    symbol@,
                    timeframe,
                ) && i < self@.len(),
                None => !has_key(self@, symbol@, timeframe),
            },
    {
        let n = self.active_candles.len();
        let mut i: usize = 0;
        while i < n
            invariant
                self.wf(),
                n == self.active_candles.len(),
                n == self@.len(),
                0 <= i <= n,
                forall|j: int| 0 <= j < i ==> !key_matches(#[trigger] self@[j], symbol@, timeframe),
            decreases n - i,
        {
            let c = &self.active_candles[i];
            assert(self@[i as int] == c@);
            if str_eq(c.symbol.as_str(), symbol) && c.timeframe == timeframe {
                assert(key_matches(self@[i as int], symbol@, timeframe));
                proof {
                    let k = index_of_key(self@, symbol@, timeframe);
                    assert(key_matches(self@[k], symbol@, timeframe));
                    assert(has_key(self@, symbol@, timeframe));
                    assert(k == i as int);
                }
                return Some(i);
            }
            i = i + 1;
        }
        None
    }
}

} // verus!
