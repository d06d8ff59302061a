use sequencer_rs::sequencer::{Sequencer, SequencerConfig};
use sequencer_rs::time::{
    beats_to_samples, modular_position, samples_per_beat, samples_per_subtick, subtick_of_beat,
    PPQ, UNIT,
};

/// A real number in millionths.
fn fixed(value: f64) -> u64 {
    (value * 1_000_000.0).round() as u64
}

/// A number of millionths as a real number.
fn as_real(value: u128) -> f64 {
    value as f64 / 1_000_000.0
}

#[test]
fn beat_to_samples_zero() {
    let config = SequencerConfig {
        tempo: fixed(120.),
        sample_rate: 44100,
        buffer_size: 512,
    };
    let sequencer = Sequencer::new(config);
    let result = sequencer.beat_to_samples(fixed(0.));
    assert_eq!(as_real(result), 0.);
}

#[test]
fn beat_to_samples_one() {
    let config = SequencerConfig {
        tempo: fixed(120.),
        sample_rate: 44100,
        buffer_size: 512,
    };
    let sequencer = Sequencer::new(config);
    let result = sequencer.beat_to_samples(fixed(1.));
    assert_eq!(as_real(result), 22050.);
}

#[test]
fn mod_position_zero() {
    let config = SequencerConfig {
        tempo: fixed(120.),
        sample_rate: 44100,
        buffer_size: 1024,
    };
    let sequencer = Sequencer::new(config);
    let result = sequencer.mod_position(fixed(0.), fixed(1.));
    assert_eq!(as_real(result), 0.);
}

#[test]
fn mod_position_one() {
    let config = SequencerConfig {
        tempo: fixed(120.),
        sample_rate: 44100,
        buffer_size: 1024,
    };
    let sequencer = Sequencer::new(config);
    let result = sequencer.mod_position(fixed(0.), fixed(1.));
    assert_eq!(as_real(result), 0.);
}

#[test]
fn mod_position_longer() {
    let config = SequencerConfig {
        tempo: fixed(120.),
        sample_rate: 44100,
        buffer_size: 1024,
    };
    let sequencer = Sequencer::new(config);
    let result = sequencer.mod_position(fixed(1.), fixed(2.));
    assert_eq!(as_real(result), 22050.);
}

#[test]
fn samples_per_beat_test() {
    let result = Sequencer::samples_per_beat(44100, fixed(120.));
    assert_eq!(as_real(result), 22050.);
}

#[test]
fn samples_per_subtick_test() {
    let result = Sequencer::samples_per_subtick(44100, fixed(120.));
    assert_eq!(as_real(result), 229.6875);
}

#[test]
fn subtick_position_test() {
    let result = Sequencer::subtick_position(fixed(0.5));
    assert_eq!(result, 48);
}

#[test]
fn units_are_millionths() {
    assert_eq!(UNIT, 1_000_000);
    assert_eq!(PPQ, 96);
    assert_eq!(fixed(120.), 120_000_000);
}

#[test]
fn beats_to_samples_exact_values() {
    assert_eq!(beats_to_samples(1_000_000, 120_000_000, 44100), 22_050_000_000);
    assert_eq!(beats_to_samples(0, 120_000_000, 44100), 0);
    assert_eq!(beats_to_samples(500_000, 120_000_000, 44100), 11_025_000_000);
    assert_eq!(beats_to_samples(62_500, 120_000_000, 44100), 1_378_125_000);
    // One millionth of a beat is 0.02205 samples.
    assert_eq!(beats_to_samples(1, 120_000_000, 44100), 22_050);
}

#[test]
fn beats_to_samples_rounds_down() {
    // 1 beat at 7 bpm and 1 Hz is 60 / 7 = 8.571428571... samples.
    assert_eq!(beats_to_samples(1_000_000, 7_000_000, 1), 8_571_428);
}

#[test]
fn beats_to_samples_takes_the_largest_inputs() {
    let samples = beats_to_samples(u64::MAX, 1, u32::MAX);
    assert_eq!(
        samples,
        (u64::MAX as u128) * 60 * (u32::MAX as u128) * 1_000_000
    );
}

#[test]
fn one_beat_is_samples_per_beat() {
    for (tempo, rate) in [
        (120_000_000u64, 44100u32),
        (90_500_000, 48000),
        (7_000_000, 1),
        (1, 96000),
        (333_333_333, 22050),
    ] {
        assert_eq!(
            beats_to_samples(UNIT, tempo, rate),
            samples_per_beat(rate, tempo)
        );
    }
}

#[test]
fn samples_per_beat_and_subtick_values() {
    assert_eq!(samples_per_beat(44100, 120_000_000), 22_050_000_000);
    assert_eq!(samples_per_subtick(44100, 120_000_000), 229_687_500);
    assert_eq!(samples_per_beat(48000, 60_000_000), 48_000_000_000);
    assert_eq!(samples_per_subtick(48000, 60_000_000), 500_000_000);
}

#[test]
fn subtick_of_beat_values() {
    assert_eq!(subtick_of_beat(500_000), 48);
    assert_eq!(subtick_of_beat(0), 0);
    assert_eq!(subtick_of_beat(999_999), 95);
    assert_eq!(subtick_of_beat(1_000_000), 0);
    assert_eq!(subtick_of_beat(250_000), 24);
    // 96 * 0.01 = 0.96, which is in subtick 0.
    assert_eq!(subtick_of_beat(10_000), 0);
    assert_eq!(subtick_of_beat(10_417), 1);
}

#[test]
fn subtick_ignores_whole_beats() {
    for beat in [0u64, 1, 10_416, 10_417, 500_000, 750_001, 999_999] {
        for whole in [1u64, 2, 7, 1000] {
            assert_eq!(subtick_of_beat(beat + whole * UNIT), subtick_of_beat(beat));
        }
    }
}

#[test]
fn modular_position_values() {
    assert_eq!(modular_position(1_000_000, 1_000_000, 120_000_000, 44100), 0);
    assert_eq!(
        modular_position(1_000_000, 2_000_000, 120_000_000, 44100),
        22_050_000_000
    );
    assert_eq!(
        modular_position(5_250_000, 2_000_000, 120_000_000, 44100),
        27_562_500_000
    );
    assert_eq!(modular_position(0, 1_000_000, 120_000_000, 44100), 0);
}

#[test]
fn config_validity() {
    assert!(SequencerConfig::new(120_000_000, 44100, 512).is_valid());
    assert!(!SequencerConfig::new(0, 44100, 512).is_valid());
    assert!(!SequencerConfig::new(120_000_000, 0, 512).is_valid());
    assert!(!SequencerConfig::new(120_000_000, 44100, 0).is_valid());
    // A beat must last a sample at least: at 1 Hz that is 60 bpm and no more.
    assert!(SequencerConfig::new(60_000_000, 1, 512).is_valid());
    assert!(!SequencerConfig::new(60_000_001, 1, 512).is_valid());
}
