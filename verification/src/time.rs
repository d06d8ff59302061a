//! Conversions between musical beats and audio samples.
//!
//! Beats and tempo are counted in millionths (`UNIT` per beat, `UNIT` per
//! beat-per-minute); sample positions are counted in millionths of a sample.
//! A quotient that is not a whole number of millionths is rounded down.

use vstd::prelude::*;
use vstd::arithmetic::div_mod::{
    lemma_div_is_ordered, lemma_div_plus_one, lemma_div_pos_is_pos, lemma_mod_multiples_vanish,
};

verus! {

/// Pulses (subticks) per quarter note.
pub const PPQ: u64 = 96;

/// Fixed-point scale: one beat, one beat per minute and one sample are `UNIT` units each.
pub const UNIT: u64 = 1_000_000;

/// Position, in millionths of a sample, of `beats` millionths of a beat at the
/// given tempo and sample rate: `beats / tempo * 60 * sample_rate`, rounded down.
pub open spec fn spec_beats_to_samples(beats: int, tempo: int, sample_rate: int) -> int {
    (beats * (60 * sample_rate * UNIT)) / tempo
}

/// Length of one beat in millionths of a sample: `sample_rate * 60 / tempo`, rounded down.
pub open spec fn spec_samples_per_beat(sample_rate: int, tempo: int) -> int {
    (sample_rate * 60 * UNIT * UNIT) / tempo
}

/// Length of one subtick in millionths of a sample.
pub open spec fn spec_samples_per_subtick(sample_rate: int, tempo: int) -> int {
    spec_samples_per_beat(sample_rate, tempo) / (PPQ as int)
}

/// Index of the subtick that a beat position lies in: the whole part of
/// `PPQ` times the fractional part of the position.
pub open spec fn spec_subtick_of_beat(beat_position: int) -> int {
    (PPQ * (beat_position % (UNIT as int))) / (UNIT as int)
}

/// Position inside a loop of `length` millionths of a beat, in millionths of a sample.
pub open spec fn spec_modular_position(beats: int, length: int, tempo: int, sample_rate: int) -> int {
    spec_beats_to_samples(beats, tempo, sample_rate) % spec_beats_to_samples(
        length,
        tempo,
        sample_rate,
    )
}

/// A tempo at which the conversion keeps distinct beat positions apart: positive,
/// and slow enough that a beat lasts at least one sample.
pub open spec fn tempo_resolves(tempo: int, sample_rate: int) -> bool {
    0 < tempo <= 60 * sample_rate * UNIT
}

/// The product under the quotient of `spec_beats_to_samples` fits in 128 bits.
proof fn lemma_numerator_bound(beats: u64, sample_rate: u32)
    ensures
        0 <= 60 * sample_rate * 1_000_000 <= 257_698_037_700_000_000,
        0 <= beats * (60 * sample_rate * 1_000_000) < 0x400_0000_0000_0000_0000_0000_0000_0000,
{
    let k: int = 60 * sample_rate * 1_000_000;
    assert(0 <= beats * k <= 0xffff_ffff_ffff_ffff * 257_698_037_700_000_000) by (nonlinear_arith)
        requires
            0 <= beats <= 0xffff_ffff_ffff_ffff,
            0 <= k <= 257_698_037_700_000_000,
    ;
}

/// Later beats lie at strictly later sample positions when the tempo resolves.
pub proof fn lemma_beats_to_samples_strict(a: int, b: int, tempo: int, sample_rate: int)
    requires
        0 <= a < b,
        sample_rate > 0,
        tempo_resolves(tempo, sample_rate),
    ensures
        spec_beats_to_samples(a, tempo, sample_rate) < spec_beats_to_samples(b, tempo, sample_rate),
        0 <= spec_beats_to_samples(a, tempo, sample_rate),
{
    let k: int = 60 * sample_rate * 1_000_000;
    assert(b * k >= a * k + tempo && a * k >= 0) by (nonlinear_arith)
        requires
            0 <= a < b,
            0 < tempo <= k,
    ;
    lemma_div_plus_one(a * k, tempo);
    lemma_div_is_ordered(a * k + tempo, b * k, tempo);
    lemma_div_pos_is_pos(a * k, tempo);
}

/// `beats / tempo * 60 * sample_rate` in millionths of a sample, rounded down.
pub fn beats_to_samples(beats: u64, tempo: u64, sample_rate: u32) -> (samples: u128)
    requires
        tempo > 0,
    ensures
        samples == spec_beats_to_samples(beats as int, tempo as int, sample_rate as int),
{
    proof {
        lemma_numerator_bound(beats, sample_rate);
    }
    let rate: u128 = 60u128 * (sample_rate as u128) * 1_000_000u128;
    (beats as u128) * rate / (tempo as u128)
}

/// `sample_rate * 60 / tempo` in millionths of a sample, rounded down.
pub fn samples_per_beat(sample_rate: u32, tempo: u64) -> (samples: u128)
    requires
        tempo > 0,
    ensures
        samples == spec_samples_per_beat(sample_rate as int, tempo as int),
{
    (sample_rate as u128) * 60u128 * 1_000_000u128 * 1_000_000u128 / (tempo as u128)
}

/// The length of a beat divided by `PPQ`, in millionths of a sample, rounded down.
pub fn samples_per_subtick(sample_rate: u32, tempo: u64) -> (samples: u128)
    requires
        tempo > 0,
    ensures
        samples == spec_samples_per_subtick(sample_rate as int, tempo as int),
{
    samples_per_beat(sample_rate, tempo) / (PPQ as u128)
}

/// The subtick, in `0..PPQ`, that a beat position lies in.
pub fn subtick_of_beat(beat_position: u64) -> (subtick: u64)
    ensures
        subtick == spec_subtick_of_beat(beat_position as int),
        subtick < PPQ,
{
    let fraction: u64 = beat_position % UNIT;
    PPQ * fraction / UNIT
}

/// Sample position of `beats` inside a loop of `length` beats.
pub fn modular_position(beats: u64, length: u64, tempo: u64, sample_rate: u32) -> (samples: u128)
    requires
        tempo > 0,
        spec_beats_to_samples(length as int, tempo as int, sample_rate as int) > 0,
    ensures
        samples == spec_modular_position(
            beats as int,
            length as int,
            tempo as int,
            sample_rate as int,
        ),
        samples < spec_beats_to_samples(length as int, tempo as int, sample_rate as int),
{
    let position: u128 = beats_to_samples(beats, tempo, sample_rate);
    let period: u128 = beats_to_samples(length, tempo, sample_rate);
    position % period
}

/// One whole beat converts to the length of a beat.
pub proof fn law_one_beat_is_samples_per_beat(tempo: int, sample_rate: int)
    requires
        tempo > 0,
        sample_rate > 0,
    ensures
        spec_beats_to_samples(UNIT as int, tempo, sample_rate) == spec_samples_per_beat(
            sample_rate,
            tempo,
        ),
{
    assert(1_000_000 * (60 * sample_rate * 1_000_000) == sample_rate * 60 * 1_000_000 * 1_000_000)
        by (nonlinear_arith);
}

/// Moving a beat position by whole beats leaves its subtick unchanged.
pub proof fn law_subtick_ignores_whole_beats(beat_position: int, whole_beats: int)
    ensures
        spec_subtick_of_beat(beat_position + whole_beats * UNIT) == spec_subtick_of_beat(
            beat_position,
        ),
{
    lemma_mod_multiples_vanish(whole_beats, beat_position, 1_000_000);
    assert(whole_beats * 1_000_000 + beat_position == beat_position + whole_beats * 1_000_000);
}

} // verus!
