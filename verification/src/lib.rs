//! Timeline scheduler of a looping MIDI step sequencer, in exact fixed-point
//! arithmetic: beats, tempo and sample positions are integers counted in
//! millionths, so every window decision is an integer comparison.

pub mod audio_engine;
pub mod midi;
pub mod schedule;
pub mod sequencer;
pub mod time;
pub mod window;
