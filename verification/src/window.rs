//! The buffer window on a loop.
//!
//! A loop of `period` sample units repeats forever. A buffer that starts at
//! loop position `start` and is `window` units long plays an event at loop
//! position `position` when the way forward from `start` to `position`, going
//! round the loop end if need be, is shorter than `window`. The window is
//! half-open: an event exactly `window` ahead belongs to the next buffer.

use vstd::prelude::*;
use vstd::arithmetic::div_mod::{lemma_fundamental_div_mod, lemma_fundamental_div_mod_converse, lemma_mod_bound};

verus! {

/// How far ahead of `start` the loop position `position` lies: directly when it
/// is not behind `start`, else over the loop end.
pub open spec fn distance_ahead(start: int, period: int, position: int) -> int {
    if position >= start {
        position - start
    } else {
        (period - start) + position
    }
}

/// Whether a buffer of `window` units that starts at `start` plays `position`.
pub open spec fn fires(start: int, period: int, window: int, position: int) -> bool {
    distance_ahead(start, period, position) < window
}

/// The absolute time at which the buffer that starts at absolute time `origin`
/// plays `position`, if it plays it.
pub open spec fn emission_time(origin: int, period: int, window: int, position: int) -> Option<
    int,
> {
    let start = origin % period;
    if fires(start, period, window, position) {
        Some(origin + distance_ahead(start, period, position))
    } else {
        None
    }
}

/// Whether the buffer at `origin` plays `position` at a time in `from .. from + period`.
pub open spec fn plays_within(
    origin: int,
    period: int,
    window: int,
    position: int,
    from: int,
) -> bool {
    match emission_time(origin, period, window, position) {
        Some(time) => from <= time < from + period,
        None => false,
    }
}

/// The offset from the buffer start at which `position` is played, or `None`
/// when it lies outside the window.
pub fn offset_in_window(start: u128, period: u128, window: u64, position: u128) -> (offset: Option<
    u64,
>)
    requires
        start < period,
        position < period,
    ensures
        offset is Some <==> fires(start as int, period as int, window as int, position as int),
        offset is Some ==> offset->0 == distance_ahead(
            start as int,
            period as int,
            position as int,
        ),
        offset is Some ==> offset->0 < window,
{
    let ahead: u128 = if position >= start {
        position - start
    } else {
        (period - start) + position
    };
    if ahead < window as u128 {
        Some(ahead as u64)
    } else {
        None
    }
}

/// A number that is `turns` periods and a remainder below the period has that remainder.
proof fn lemma_residue(x: int, period: int, turns: int, remainder: int)
    requires
        0 <= remainder < period,
        x == period * turns + remainder,
    ensures
        x % period == remainder,
        x / period == turns,
{
    assert(period * turns == turns * period) by (nonlinear_arith);
    lemma_fundamental_div_mod_converse(x, period, turns, remainder);
}

/// A time that a buffer plays lies inside the buffer and on the event's loop position.
pub proof fn lemma_emission_sound(origin: int, period: int, window: int, position: int)
    requires
        0 <= origin,
        0 <= position < period,
    ensures
        emission_time(origin, period, window, position) matches Some(time) ==> origin <= time
            < origin + window && time % period == position,
{
    let start = origin % period;
    lemma_mod_bound(origin, period);
    lemma_fundamental_div_mod(origin, period);
    if fires(start, period, window, position) {
        let time = origin + distance_ahead(start, period, position);
        let turns = origin / period;
        if position >= start {
            assert(time == period * turns + position);
            lemma_residue(time, period, turns, position);
        } else {
            assert(time == period * (turns + 1) + position) by (nonlinear_arith)
                requires
                    time == origin + (period - start) + position,
                    origin == period * turns + start,
            ;
            lemma_residue(time, period, turns + 1, position);
        }
    }
}

/// Every occurrence of an event inside a buffer no longer than the loop is played by it.
pub proof fn lemma_emission_complete(
    origin: int,
    period: int,
    window: int,
    position: int,
    time: int,
)
    requires
        0 <= origin <= time < origin + window,
        window <= period,
        0 <= position < period,
        time % period == position,
    ensures
        emission_time(origin, period, window, position) == Some(time),
{
    let start = origin % period;
    let turns = origin / period;
    let ahead = time - origin;
    lemma_mod_bound(origin, period);
    lemma_fundamental_div_mod(origin, period);
    if start + ahead < period {
        assert(time == period * turns + (start + ahead));
        lemma_residue(time, period, turns, start + ahead);
    } else {
        assert(time == period * (turns + 1) + (start + ahead - period)) by (nonlinear_arith)
            requires
                time == origin + ahead,
                origin == period * turns + start,
        ;
        lemma_residue(time, period, turns + 1, start + ahead - period);
    }
}

/// Two times less than a period apart that lie on the same loop position are one time.
pub proof fn lemma_one_occurrence_per_period(a: int, b: int, from: int, period: int)
    requires
        0 <= from <= a < from + period,
        from <= b < from + period,
        a % period == b % period,
    ensures
        a == b,
{
    lemma_fundamental_div_mod(a, period);
    lemma_fundamental_div_mod(b, period);
    let qa = a / period;
    let qb = b / period;
    assert(qa == qb) by (nonlinear_arith)
        requires
            a - b == period * qa - period * qb,
            -period < a - b < period,
            period > 0,
    ;
}

/// Buffers that follow one another without gap or overlap play every event
/// exactly once per loop period: of the buffers at `first`, `first + window`,
/// `first + 2 * window`, ... exactly one plays `position` at a time within the
/// period that begins at `from`, provided that a buffer is no longer than the loop.
pub proof fn law_contiguous_buffers_play_once(
    first: int,
    period: int,
    window: int,
    position: int,
    from: int,
)
    requires
        0 < window <= period,
        0 <= position < period,
        0 <= first <= from,
    ensures
        exists|k: nat|
            {
                &&& #[trigger] plays_within(first + k * window, period, window, position, from)
                &&& forall|j: nat| #[trigger]
                    plays_within(first + j * window, period, window, position, from) ==> j == k
            },
{
    // The one time in the period that lies on the event's loop position.
    let gap = (position - from) % period;
    lemma_mod_bound(position - from, period);
    lemma_fundamental_div_mod(position - from, period);
    let time = from + gap;
    let turns = -((position - from) / period);
    assert(time == period * turns + position) by (nonlinear_arith)
        requires
            time == from + gap,
            position - from == period * (-turns) + gap,
    ;
    lemma_residue(time, period, turns, position);
    // The buffer that holds it.
    let index = (time - first) / window;
    lemma_fundamental_div_mod(time - first, window);
    lemma_mod_bound(time - first, window);
    assert(index >= 0) by (nonlinear_arith)
        requires
            time - first == window * index + (time - first) % window,
            0 <= (time - first) % window < window,
            time - first >= 0,
    ;
    let k = index as nat;
    let origin = first + k * window;
    assert(origin == first + window * index) by (nonlinear_arith)
        requires
            origin == first + k * window,
            k == index,
    ;
    assert(origin >= 0) by (nonlinear_arith)
        requires
            origin == first + window * index,
            first >= 0,
            window > 0,
            index >= 0,
    ;
    lemma_emission_complete(origin, period, window, position, time);
    assert(plays_within(first + k * window, period, window, position, from));
    assert forall|j: nat| #[trigger]
        plays_within(first + j * window, period, window, position, from) implies j == k by {
        let other = first + j * window;
        assert(other >= 0) by (nonlinear_arith)
            requires
                other == first + j * window,
                first >= 0,
                window > 0,
                j >= 0,
        ;
        lemma_emission_sound(other, period, window, position);
        let played = emission_time(other, period, window, position)->0;
        lemma_one_occurrence_per_period(played, time, from, period);
        assert(j == k) by (nonlinear_arith)
            requires
                first + j * window <= time < first + j * window + window,
                first + k * window <= time < first + k * window + window,
                window > 0,
        ;
    }
}

/// The window by its two ends. A buffer that ends at or before the loop end
/// plays the positions from its start up to its end. A buffer that reaches
/// over the loop end plays the positions from its start up to the loop end,
/// and those from the loop start up to where the buffer ends in the next turn.
pub proof fn law_window_by_its_ends(start: int, period: int, window: int, position: int)
    requires
        0 <= start < period,
        0 <= position < period,
        0 < window <= period,
    ensures
        start + window <= period ==> (fires(start, period, window, position) <==> start
            <= position < start + window),
        start + window > period ==> (fires(start, period, window, position) <==> start
            <= position || position < (start + window) % period),
{
    if start + window > period {
        lemma_residue(start + window, period, 1, start + window - period);
    }
}

/// A buffer that is as long as the loop or longer plays every position, once.
pub proof fn law_long_buffer_plays_every_position(
    start: int,
    period: int,
    window: int,
    position: int,
)
    requires
        0 <= start < period,
        0 <= position < period,
        period <= window,
    ensures
        fires(start, period, window, position),
        0 <= distance_ahead(start, period, position) < period,
{
}

/// An event on the loop start is played by the buffer that holds the loop
/// start: at offset 0 when the buffer begins there, else at the distance from
/// the buffer start to the loop end.
pub proof fn law_loop_start_event(start: int, period: int, window: int)
    requires
        0 <= start < period,
        0 < window,
    ensures
        fires(start, period, window, 0) <==> (start == 0 || period - start < window),
        distance_ahead(start, period, 0) == (if start == 0 {
            0
        } else {
            period - start
        }),
{
}

/// An event exactly one window ahead of a buffer is not played by it, and is
/// played first thing by the buffer that follows.
pub proof fn law_window_end_is_open(start: int, period: int, window: int, position: int)
    requires
        0 <= start < period,
        0 <= position < period,
        0 < window,
        distance_ahead(start, period, position) == window,
    ensures
        !fires(start, period, window, position),
        fires((start + window) % period, period, window, position),
        distance_ahead((start + window) % period, period, position) == 0,
{
    if position >= start {
        lemma_residue(start + window, period, 0, position);
    } else {
        lemma_residue(start + window, period, 1, position);
    }
}

} // verus!
