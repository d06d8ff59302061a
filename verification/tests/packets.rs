use sequencer_rs::audio_engine::{
    latency_ticks, offset_ticks, packet_for, process_buffer, timestamp_ticks, AbsoluteMidiPacket,
    Timebase, UpdateSessionState,
};
use sequencer_rs::midi::{MidiMessage, NOTE_OFF, NOTE_ON};
use sequencer_rs::sequencer::{MidiEvent, Sequencer, SequencerConfig, SequencerEvent};

fn nanosecond_ticks() -> Timebase {
    Timebase { numer: 1, denom: 1 }
}

/// Ticks of 125 / 3 nanoseconds: 24000 in a millisecond.
fn slow_ticks() -> Timebase {
    Timebase { numer: 125, denom: 3 }
}

#[test]
fn wire_bytes_of_notes() {
    assert_eq!(NOTE_ON, 0x90);
    assert_eq!(NOTE_OFF, 0x80);
    let on = MidiMessage::NoteOn { channel: 1, note: 60, velocity: 100 };
    assert_eq!(on.wire_bytes(), Some([0x91, 60, 100]));
    let off = MidiMessage::NoteOff { channel: 15, note: 127, velocity: 64 };
    assert_eq!(off.wire_bytes(), Some([0x8f, 127, 0]));
    let first = MidiMessage::NoteOn { channel: 0, note: 0, velocity: 0 };
    assert_eq!(first.wire_bytes(), Some([0x90, 0, 0]));
}

#[test]
fn no_wire_bytes_for_other_or_out_of_range() {
    assert_eq!(MidiMessage::Other.wire_bytes(), None);
    assert!(MidiMessage::Other.is_valid());
    let channel = MidiMessage::NoteOn { channel: 16, note: 60, velocity: 100 };
    assert!(!channel.is_valid());
    assert_eq!(channel.wire_bytes(), None);
    let note = MidiMessage::NoteOff { channel: 0, note: 128, velocity: 0 };
    assert!(!note.is_valid());
    assert_eq!(note.wire_bytes(), None);
    let velocity = MidiMessage::NoteOn { channel: 0, note: 60, velocity: 128 };
    assert!(!velocity.is_valid());
    assert_eq!(velocity.wire_bytes(), None);
}

#[test]
fn offset_ticks_values() {
    // Half a second of samples in nanosecond ticks.
    assert_eq!(offset_ticks(22_050_000_000, 44100, nanosecond_ticks()), 500_000_000);
    // 256 samples at 44100 Hz are 5.80499 ms, or 139319.73 ticks of 24 MHz.
    assert_eq!(offset_ticks(256_000_000, 44100, slow_ticks()), 139_320);
    assert_eq!(offset_ticks(0, 44100, slow_ticks()), 0);
    // One sample at 48 kHz is 500 ticks of 24 MHz.
    assert_eq!(offset_ticks(1_000_000, 48000, slow_ticks()), 500);
    // A thousandth of a sample is half a tick: a half rounds up.
    assert_eq!(offset_ticks(1_000, 48000, slow_ticks()), 1);
    assert_eq!(offset_ticks(999, 48000, slow_ticks()), 0);
}

#[test]
fn latency_ticks_values() {
    assert_eq!(latency_ticks(1_000_000, slow_ticks()), 24_000);
    assert_eq!(latency_ticks(1_000_000, nanosecond_ticks()), 1_000_000);
    assert_eq!(latency_ticks(20, slow_ticks()), 0);
    assert_eq!(latency_ticks(21, slow_ticks()), 1);
}

#[test]
fn timestamp_is_now_plus_offset_less_latency() {
    assert_eq!(
        timestamp_ticks(1_000_000, 256_000_000, 1_000_000, 44100, slow_ticks()),
        Some(1_000_000 + 139_320 - 24_000)
    );
    assert_eq!(
        timestamp_ticks(24_000, 0, 1_000_000, 44100, slow_ticks()),
        Some(0)
    );
}

#[test]
fn timestamp_outside_the_clock_range() {
    assert_eq!(timestamp_ticks(23_999, 0, 1_000_000, 44100, slow_ticks()), None);
    assert_eq!(
        timestamp_ticks(u64::MAX, 1_000, 0, 48000, slow_ticks()),
        None
    );
    assert_eq!(
        timestamp_ticks(u64::MAX, 999, 0, 48000, slow_ticks()),
        Some(u64::MAX)
    );
}

#[test]
fn packet_of_an_event() {
    let event = MidiEvent {
        offset: 256_000_000,
        message: MidiMessage::NoteOn { channel: 2, note: 64, velocity: 90 },
    };
    assert_eq!(
        packet_for(&event, 5_000_000, 0, 44100, slow_ticks()),
        Some(AbsoluteMidiPacket { timestamp_ticks: 5_139_320, bytes: [0x92, 64, 90] })
    );
    let other = MidiEvent { offset: 0, message: MidiMessage::Other };
    assert_eq!(packet_for(&other, 5_000_000, 0, 44100, slow_ticks()), None);
    assert_eq!(packet_for(&event, 0, 1_000_000_000, 44100, slow_ticks()), None);
}

#[test]
fn buffer_of_a_playing_session() {
    let config = SequencerConfig::new(120_000_000, 44100, 512);
    let mut sequencer = Sequencer::empty(config);
    let index = sequencer.add_sequence(1_000_000).unwrap();
    let on = MidiMessage::NoteOn { channel: 0, note: 60, velocity: 100 };
    let off = MidiMessage::NoteOff { channel: 0, note: 60, velocity: 0 };
    sequencer.add_event(index, SequencerEvent::new(0, on)).unwrap();
    sequencer.add_event(index, SequencerEvent::new(2_000, MidiMessage::Other)).unwrap();
    sequencer.add_event(index, SequencerEvent::new(10_000, off)).unwrap();
    let stale = MidiEvent { offset: 1, message: MidiMessage::Other };
    let mut events: Vec<MidiEvent> = vec![stale];
    let mut packets: Vec<AbsoluteMidiPacket> =
        vec![AbsoluteMidiPacket { timestamp_ticks: 1, bytes: [0, 0, 0] }];
    let skipped = process_buffer(
        &sequencer,
        true,
        0,
        1_000_000_000,
        1_000_000,
        nanosecond_ticks(),
        &mut events,
        &mut packets,
    );
    assert_eq!(skipped, 1);
    assert_eq!(
        events,
        vec![
            MidiEvent { offset: 0, message: on },
            MidiEvent { offset: 44_100_000, message: MidiMessage::Other },
            MidiEvent { offset: 220_500_000, message: off },
        ]
    );
    assert_eq!(
        packets,
        vec![
            AbsoluteMidiPacket { timestamp_ticks: 999_000_000, bytes: [0x90, 60, 100] },
            AbsoluteMidiPacket { timestamp_ticks: 1_004_000_000, bytes: [0x80, 60, 0] },
        ]
    );
}

#[test]
fn buffer_of_a_stopped_session() {
    let sequencer = Sequencer::new(SequencerConfig::new(120_000_000, 44100, 512));
    let stale = MidiEvent { offset: 1, message: MidiMessage::Other };
    let mut events: Vec<MidiEvent> = vec![stale];
    let mut packets: Vec<AbsoluteMidiPacket> =
        vec![AbsoluteMidiPacket { timestamp_ticks: 1, bytes: [0, 0, 0] }];
    let skipped = process_buffer(
        &sequencer,
        false,
        0,
        1_000_000_000,
        0,
        nanosecond_ticks(),
        &mut events,
        &mut packets,
    );
    assert_eq!(skipped, 0);
    assert!(events.is_empty());
    assert!(packets.is_empty());
}

#[test]
fn timebase_validity() {
    assert!(slow_ticks().is_valid());
    assert!(!Timebase { numer: 0, denom: 1 }.is_valid());
    assert!(!Timebase { numer: 1, denom: 0 }.is_valid());
}

#[test]
fn session_updates_are_distinct() {
    assert_ne!(UpdateSessionState::TempoPlus, UpdateSessionState::TempoMinus);
    assert_ne!(UpdateSessionState::TempoMinus, UpdateSessionState::TogglePlaying);
    assert_eq!(UpdateSessionState::TogglePlaying, UpdateSessionState::TogglePlaying);
}
