//! MIDI channel-voice messages that the sequencer plays, and their wire form.

use vstd::prelude::*;

verus! {

/// Status nibble of a note-on message.
pub const NOTE_ON: u8 = 0x90;

/// Status nibble of a note-off message.
pub const NOTE_OFF: u8 = 0x80;

/// Passes a byte through wmidi's `U7::from_u8_lossy` and reads the `U7` back
/// as a byte: wmidi keeps the seven low bits and clears the eighth.
#[verifier::external_body]
fn seven_bits(data: u8) -> (kept: u8)
    ensures
        kept == data & 0x7f,
{
    u8::from(wmidi::U7::from_u8_lossy(data))
}

/// The number of wmidi's `Note::C4`, which its `Note` enum declares as 60.
#[verifier::external_body]
pub(crate) fn middle_c_number() -> (number: u8)
    ensures
        number == 60,
{
    u8::from(wmidi::Note::C4)
}

/// The index of wmidi's `Channel::Ch1`, which `Channel::index` maps to 0.
#[verifier::external_body]
pub(crate) fn first_channel_index() -> (index: u8)
    ensures
        index == 0,
{
    wmidi::Channel::Ch1.index()
}

/// A message carried by a sequence event.
#[derive(Clone, Copy, Debug, PartialEq, Eq, Structural)]
pub enum MidiMessage {
    NoteOn { channel: u8, note: u8, velocity: u8 },
    NoteOff { channel: u8, note: u8, velocity: u8 },
    Other,
}

impl MidiMessage {
    /// Channel in `0..=15`, note and velocity in `0..=127`.
    pub open spec fn wf(self) -> bool {
        match self {
            MidiMessage::NoteOn { channel, note, velocity } => channel <= 15 && note <= 127
                && velocity <= 127,
            MidiMessage::NoteOff { channel, note, velocity } => channel <= 15 && note <= 127
                && velocity <= 127,
            MidiMessage::Other => true,
        }
    }

    /// The three bytes on the wire: status, note, velocity. A note-off always
    /// carries velocity 0. A message of another kind, or one with a field out
    /// of range, has no wire form.
    pub open spec fn spec_wire_bytes(self) -> Option<Seq<u8>> {
        match self {
            MidiMessage::NoteOn { channel, note, velocity } => if self.wf() {
                Some(seq![(0x90 + channel) as u8, note, velocity])
            } else {
                None
            },
            MidiMessage::NoteOff { channel, note, velocity } => if self.wf() {
                Some(seq![(0x80 + channel) as u8, note, 0u8])
            } else {
                None
            },
            MidiMessage::Other => None,
        }
    }

    /// A note-on. The velocity keeps its seven low bits.
    pub fn note_on(channel: u8, note: u8, velocity: u8) -> (message: MidiMessage)
        ensures
            message == (MidiMessage::NoteOn { channel, note, velocity: velocity & 0x7f }),
            message->NoteOn_velocity <= 127,
    {
        let kept: u8 = seven_bits(velocity);
        assert(velocity & 0x7f <= 127) by (bit_vector);
        MidiMessage::NoteOn { channel, note, velocity: kept }
    }

    /// A note-off. The velocity keeps its seven low bits.
    pub fn note_off(channel: u8, note: u8, velocity: u8) -> (message: MidiMessage)
        ensures
            message == (MidiMessage::NoteOff { channel, note, velocity: velocity & 0x7f }),
            message->NoteOff_velocity <= 127,
    {
        let kept: u8 = seven_bits(velocity);
        assert(velocity & 0x7f <= 127) by (bit_vector);
        MidiMessage::NoteOff { channel, note, velocity: kept }
    }

    /// Whether the fields are in their MIDI ranges.
    pub fn is_valid(&self) -> (valid: bool)
        ensures
            valid == self.wf(),
    {
        match *self {
            MidiMessage::NoteOn { channel, note, velocity } => channel <= 15 && note <= 127
                && velocity <= 127,
            MidiMessage::NoteOff { channel, note, velocity } => channel <= 15 && note <= 127
                && velocity <= 127,
            MidiMessage::Other => true,
        }
    }

    /// Encodes the message as status byte and two data bytes.
    pub fn wire_bytes(&self) -> (bytes: Option<[u8; 3]>)
        ensures
            bytes is Some <==> self.spec_wire_bytes() is Some,
            bytes is Some ==> bytes->0@ == self.spec_wire_bytes()->0,
    {
        if !self.is_valid() {
            return None;
        }
        match *self {
            MidiMessage::NoteOn { channel, note, velocity } => {
                let status: u8 = NOTE_ON | channel;
                assert(status == 0x90 + channel) by (bit_vector)
                    requires
                        status == 0x90u8 | channel,
                        channel <= 15,
                ;
                let bytes: [u8; 3] = [status, note, velocity];
                assert(bytes@ =~= seq![status, note, velocity]);
                Some(bytes)
            },
            MidiMessage::NoteOff { channel, note, velocity: _ } => {
                let status: u8 = NOTE_OFF | channel;
                assert(status == 0x80 + channel) by (bit_vector)
                    requires
                        status == 0x80u8 | channel,
                        channel <= 15,
                ;
                let bytes: [u8; 3] = [status, note, 0u8];
                assert(bytes@ =~= seq![status, note, 0u8]);
                Some(bytes)
            },
            MidiMessage::Other => None,
        }
    }
}

} // verus!
