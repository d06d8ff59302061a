//! The sequence store and the timeline scheduler.
//!
//! The scheduler keeps no playhead. For the beat position of each audio buffer
//! it decides, sequence by sequence and event by event, which events the buffer
//! plays and at which offset from its start.

use vstd::prelude::*;
use crate::midi::{first_channel_index, middle_c_number, MidiMessage};
use crate::time::{
    beats_to_samples, lemma_beats_to_samples_strict, modular_position, samples_per_beat,
    samples_per_subtick, spec_beats_to_samples, spec_modular_position, spec_samples_per_beat,
    spec_samples_per_subtick, spec_subtick_of_beat, subtick_of_beat, tempo_resolves, PPQ, UNIT,
};
use crate::schedule::{
    first_up_to, lemma_played_of_all_len, played, played_of_all, played_of_sequence, room_after,
};
use crate::window::offset_in_window;

verus! {

/// Most sequences that a sequencer holds.
pub const SEQUENCE_COUNT_MAX: usize = 8;

/// Most events that a sequencer holds over all its sequences, and most events
/// that one buffer's output holds.
pub const MAX_EVENT_COUNT: usize = 2048;

/// Why the store or the scheduler could not do all that was asked.
#[derive(Clone, Copy, Debug, PartialEq, Eq, Structural)]
pub enum SequencerError {
    /// The store holds as much as it may.
    OutOfCapacity,
    /// The event does not lie before the end of its sequence.
    InvalidTimestamp,
    /// The output filled up before every played event was written.
    Truncated,
}

/// Tempo in millionths of a beat per minute, sample rate in Hz, buffer size in samples.
#[derive(Clone, Copy, Debug, PartialEq, Eq, Structural)]
pub struct SequencerConfig {
    pub tempo: u64,
    pub sample_rate: u32,
    pub buffer_size: u32,
}

impl SequencerConfig {
    /// All three are positive, and a beat lasts at least one sample.
    pub open spec fn wf(&self) -> bool {
        &&& self.sample_rate > 0
        &&& self.buffer_size > 0
        &&& tempo_resolves(self.tempo as int, self.sample_rate as int)
    }

    /// Length of a buffer in millionths of a sample.
    pub open spec fn window(&self) -> int {
        self.buffer_size * UNIT
    }

    /// A configuration of the three values as given; `is_valid` tells whether
    /// a sequencer can run on it.
    pub fn new(tempo: u64, sample_rate: u32, buffer_size: u32) -> (config: Self)
        ensures
            config == (SequencerConfig { tempo, sample_rate, buffer_size }),
    {
        Self { tempo, sample_rate, buffer_size }
    }

    /// Whether a sequencer can run on this configuration.
    pub fn is_valid(&self) -> (valid: bool)
        ensures
            valid == self.wf(),
    {
        let limit: u128 = 60u128 * (self.sample_rate as u128) * 1_000_000u128;
        self.sample_rate > 0 && self.buffer_size > 0 && self.tempo > 0 && self.tempo as u128
            <= limit
    }
}

/// An event of a sequence: a message at a beat position inside the loop, in
/// millionths of a beat.
#[derive(Clone, Copy, Debug, PartialEq, Eq, Structural)]
pub struct SequencerEvent {
    pub timestamp: u64,
    pub message: MidiMessage,
}

impl SequencerEvent {
    /// The event of `message` at `timestamp` millionths of a beat.
    pub fn new(timestamp: u64, message: MidiMessage) -> (event: Self)
        ensures
            event == (SequencerEvent { timestamp, message }),
    {
        Self { timestamp, message }
    }
}

/// An event that a buffer plays: a message at an offset from the buffer start,
/// in millionths of a sample.
#[derive(Clone, Copy, Debug, PartialEq, Eq, Structural)]
pub struct MidiEvent {
    pub offset: u64,
    pub message: MidiMessage,
}

impl MidiEvent {
    /// The offset from the buffer start in millionths of a sample.
    pub fn offset(&self) -> (offset: u64)
        ensures
            offset == self.offset,
    {
        self.offset
    }

    /// The message to send.
    pub fn message(&self) -> (message: &MidiMessage)
        ensures
            *message == self.message,
    {
        &self.message
    }
}

/// What a sequence holds: its loop length in millionths of a beat, and its
/// events in the order in which they were added.
pub struct SequenceView {
    pub length: u64,
    pub events: Seq<SequencerEvent>,
}

impl SequenceView {
    /// The loop has a length, every event lies inside it, and the events are
    /// no more than `MAX_EVENT_COUNT`.
    pub open spec fn wf(self) -> bool {
        &&& self.length > 0
        &&& self.events.len() <= MAX_EVENT_COUNT
        &&& forall|i: int| 0 <= i < self.events.len() ==> (#[trigger] self.events[i]).timestamp
            < self.length
    }
}

/// A looped sequence of events.
pub struct MIDISequence {
    length: u64,
    events: Vec<SequencerEvent>,
}

impl View for MIDISequence {
    type V = SequenceView;

    closed spec fn view(&self) -> SequenceView {
        SequenceView { length: self.length, events: self.events@ }
    }
}

impl MIDISequence {
    /// An empty loop of `length` millionths of a beat.
    pub fn new(length: u64) -> (sequence: MIDISequence)
        requires
            length > 0,
        ensures
            sequence@ == (SequenceView { length, events: Seq::empty() }),
            sequence@.wf(),
    {
        MIDISequence { length, events: Vec::new() }
    }

    /// Appends an event, unless the sequence is full or the event lies at or
    /// beyond the loop end; the sequence is then left as it was.
    pub fn add_event(&mut self, event: SequencerEvent) -> (result: Result<(), SequencerError>)
        requires
            old(self)@.wf(),
        ensures
            final(self)@.wf(),
            final(self)@.length == old(self)@.length,
            old(self)@.events.len() >= MAX_EVENT_COUNT ==> result == Err::<(), SequencerError>(
                SequencerError::OutOfCapacity,
            ),
            old(self)@.events.len() < MAX_EVENT_COUNT && event.timestamp >= old(self)@.length
                ==> result == Err::<(), SequencerError>(SequencerError::InvalidTimestamp),
            old(self)@.events.len() < MAX_EVENT_COUNT && event.timestamp < old(self)@.length
                ==> result is Ok,
            result is Ok ==> final(self)@.events == old(self)@.events.push(event),
            result is Err ==> final(self)@.events == old(self)@.events,
    {
        if self.events.len() >= MAX_EVENT_COUNT {
            return Err(SequencerError::OutOfCapacity);
        }
        if event.timestamp >= self.length {
            return Err(SequencerError::InvalidTimestamp);
        }
        self.events.push(event);
        Ok(())
    }

    /// The loop length in millionths of a beat.
    pub fn length(&self) -> (length: u64)
        ensures
            length == self@.length,
    {
        self.length
    }

    /// The number of events.
    pub fn event_count(&self) -> (count: usize)
        ensures
            count == self@.events.len(),
    {
        self.events.len()
    }

    /// The event at `index`, in the order of adding.
    pub fn event(&self, index: usize) -> (event: Option<SequencerEvent>)
        ensures
            index < self@.events.len() ==> event == Some(self@.events[index as int]),
            index >= self@.events.len() ==> event is None,
    {
        if index < self.events.len() {
            Some(self.events[index])
        } else {
            None
        }
    }
}

/// The event at `step` of the starting pattern: note-on of middle C at
/// velocity 100 on the even steps, its note-off on the odd ones.
pub open spec fn starting_pattern_event(step: int) -> SequencerEvent {
    SequencerEvent {
        timestamp: (step * 62_500) as u64,
        message: if step % 2 == 0 {
            MidiMessage::NoteOn { channel: 0, note: 60, velocity: 100 }
        } else {
            MidiMessage::NoteOff { channel: 0, note: 60, velocity: 0 }
        },
    }
}

/// The starting pattern: a loop of one beat with sixteen events a sixteenth apart.
pub open spec fn starting_pattern() -> SequenceView {
    SequenceView {
        length: 1_000_000,
        events: Seq::new(16, |step: int| starting_pattern_event(step)),
    }
}

/// What a sequencer holds: its configuration and its sequences in the order
/// in which they were added.
pub struct SequencerView {
    pub config: SequencerConfig,
    pub sequences: Seq<SequenceView>,
}

/// The number of events in all the sequences together.
pub open spec fn total_events(sequences: Seq<SequenceView>) -> nat
    decreases sequences.len(),
{
    if sequences.len() == 0 {
        0
    } else {
        total_events(sequences.drop_last()) + sequences.last().events.len()
    }
}

impl SequencerView {
    /// A valid configuration, no more than `SEQUENCE_COUNT_MAX` valid sequences,
    /// and no more than `MAX_EVENT_COUNT` events in all.
    pub open spec fn wf(self) -> bool {
        &&& self.config.wf()
        &&& self.sequences.len() <= SEQUENCE_COUNT_MAX
        &&& forall|i: int| 0 <= i < self.sequences.len() ==> (#[trigger] self.sequences[i]).wf()
        &&& total_events(self.sequences) <= MAX_EVENT_COUNT
    }

    /// Everything that the buffer at the sample position `origin` plays,
    /// sequence by sequence and event by event.
    pub open spec fn scheduled_at(self, origin: int) -> Seq<MidiEvent> {
        played_of_all(self.config, self.sequences, origin, self.sequences.len())
    }

    /// Everything that the buffer at `beat_position` plays.
    pub open spec fn scheduled(self, beat_position: int) -> Seq<MidiEvent> {
        self.scheduled_at(
            spec_beats_to_samples(
                beat_position,
                self.config.tempo as int,
                self.config.sample_rate as int,
            ),
        )
    }
}

/// Replacing one sequence changes the total by the difference of the two.
pub proof fn lemma_total_events_update(
    sequences: Seq<SequenceView>,
    index: int,
    sequence: SequenceView,
)
    requires
        0 <= index < sequences.len(),
    ensures
        total_events(sequences.update(index, sequence)) == total_events(sequences)
            - sequences[index].events.len() + sequence.events.len(),
    decreases sequences.len(),
{
    let updated = sequences.update(index, sequence);
    if index == sequences.len() - 1 {
        assert(updated.drop_last() =~= sequences.drop_last());
    } else {
        assert(updated.drop_last() =~= sequences.drop_last().update(index, sequence));
        lemma_total_events_update(sequences.drop_last(), index, sequence);
    }
}

/// Each sequence holds no more events than all of them together.
pub proof fn lemma_total_events_at_least(sequences: Seq<SequenceView>, index: int)
    requires
        0 <= index < sequences.len(),
    ensures
        sequences[index].events.len() <= total_events(sequences),
    decreases sequences.len(),
{
    if index < sequences.len() - 1 {
        lemma_total_events_at_least(sequences.drop_last(), index);
    }
}

/// A step sequencer: a configuration and a set of looped sequences.
pub struct Sequencer {
    config: SequencerConfig,
    sequences: Vec<MIDISequence>,
    event_count: usize,
}

impl View for Sequencer {
    type V = SequencerView;

    closed spec fn view(&self) -> SequencerView {
        SequencerView {
            config: self.config,
            sequences: Seq::new(self.sequences@.len(), |i: int| self.sequences@[i]@),
        }
    }
}

impl Sequencer {
    /// The view is valid and the stored count of events is right.
    pub closed spec fn wf(&self) -> bool {
        &&& self@.wf()
        &&& self.event_count == total_events(self@.sequences)
    }

    /// Validity as callers see it.
    pub proof fn lemma_wf_view(&self)
        requires
            self.wf(),
        ensures
            self@.wf(),
    {
    }

    /// A sequencer that holds the starting pattern: one loop of one beat with
    /// sixteen events a sixteenth of a beat apart, note-on and note-off of
    /// middle C in turn.
    pub fn new(config: SequencerConfig) -> (sequencer: Sequencer)
        requires
            config.wf(),
        ensures
            sequencer.wf(),
            sequencer@ == (SequencerView { config, sequences: seq![starting_pattern()] }),
            total_events(sequencer@.sequences) == 16,
    {
        let channel: u8 = first_channel_index();
        let note: u8 = middle_c_number();
        let mut sequence = MIDISequence::new(1_000_000);
        let mut step: u64 = 0;
        while step < 16
            invariant
                step <= 16,
                channel == 0,
                note == 60,
                sequence@.wf(),
                sequence@.length == 1_000_000,
                sequence@.events =~= Seq::new(step as nat, |k: int| starting_pattern_event(k)),
            decreases 16 - step,
        {
            let message = if step % 2 == 0 {
                assert(100u8 & 0x7f == 100) by (bit_vector);
                MidiMessage::note_on(channel, note, 100)
            } else {
                assert(0u8 & 0x7f == 0) by (bit_vector);
                MidiMessage::note_off(channel, note, 0)
            };
            let event = SequencerEvent::new(step * 62_500, message);
            assert(event == starting_pattern_event(step as int));
            let added = sequence.add_event(event);
            step = step + 1;
        }
        assert(sequence@ == starting_pattern());
        let mut sequences: Vec<MIDISequence> = Vec::new();
        sequences.push(sequence);
        let sequencer = Sequencer { config, sequences, event_count: 16 };
        proof {
            let held = seq![starting_pattern()];
            assert(sequencer@.sequences =~= held);
            assert(held.drop_last() =~= Seq::<SequenceView>::empty());
            assert(total_events(held.drop_last()) == 0);
            assert(total_events(held) == 16);
        }
        sequencer
    }

    /// A sequencer without sequences.
    pub fn empty(config: SequencerConfig) -> (sequencer: Sequencer)
        requires
            config.wf(),
        ensures
            sequencer.wf(),
            sequencer@ == (SequencerView { config, sequences: Seq::empty() }),
            total_events(sequencer@.sequences) == 0,
    {
        let sequencer = Sequencer { config, sequences: Vec::new(), event_count: 0 };
        assert(sequencer@.sequences =~= Seq::empty());
        sequencer
    }

    /// Adds an empty loop of `length` millionths of a beat and returns its
    /// index, unless the sequencer holds `SEQUENCE_COUNT_MAX` sequences already.
    pub fn add_sequence(&mut self, length: u64) -> (result: Result<usize, SequencerError>)
        requires
            old(self).wf(),
            length > 0,
        ensures
            final(self).wf(),
            final(self)@.config == old(self)@.config,
            total_events(final(self)@.sequences) == total_events(old(self)@.sequences),
            old(self)@.sequences.len() >= SEQUENCE_COUNT_MAX ==> result == Err::<
                usize,
                SequencerError,
            >(SequencerError::OutOfCapacity) && final(self)@ == old(self)@,
            old(self)@.sequences.len() < SEQUENCE_COUNT_MAX ==> result == Ok::<
                usize,
                SequencerError,
            >(old(self)@.sequences.len() as usize) && final(self)@.sequences == old(
                self,
            )@.sequences.push(SequenceView { length, events: Seq::empty() }),
    {
        if self.sequences.len() >= SEQUENCE_COUNT_MAX {
            return Err(SequencerError::OutOfCapacity);
        }
        let index: usize = self.sequences.len();
        let sequence = MIDISequence::new(length);
        self.sequences.push(sequence);
        proof {
            let added = SequenceView { length, events: Seq::<SequencerEvent>::empty() };
            assert(self@.sequences =~= old(self)@.sequences.push(added));
            assert(self@.sequences.drop_last() =~= old(self)@.sequences);
        }
        Ok(index)
    }

    /// Appends an event to the sequence at `sequence_index`, unless the
    /// sequencer holds `MAX_EVENT_COUNT` events already or the event lies at or
    /// beyond the loop end; the sequencer is then left as it was.
    pub fn add_event(&mut self, sequence_index: usize, event: SequencerEvent) -> (result: Result<
        (),
        SequencerError,
    >)
        requires
            old(self).wf(),
            sequence_index < old(self)@.sequences.len(),
        ensures
            final(self).wf(),
            total_events(old(self)@.sequences) >= MAX_EVENT_COUNT ==> result == Err::<
                (),
                SequencerError,
            >(SequencerError::OutOfCapacity),
            total_events(old(self)@.sequences) < MAX_EVENT_COUNT && event.timestamp >= old(
                self,
            )@.sequences[sequence_index as int].length ==> result == Err::<(), SequencerError>(
                SequencerError::InvalidTimestamp,
            ),
            total_events(old(self)@.sequences) < MAX_EVENT_COUNT && event.timestamp < old(
                self,
            )@.sequences[sequence_index as int].length ==> result is Ok,
            result is Ok ==> final(self)@ == (SequencerView {
                config: old(self)@.config,
                sequences: old(self)@.sequences.update(
                    sequence_index as int,
                    SequenceView {
                        length: old(self)@.sequences[sequence_index as int].length,
                        events: old(self)@.sequences[sequence_index as int].events.push(event),
                    },
                ),
            }),
            result is Ok ==> total_events(final(self)@.sequences) == total_events(
                old(self)@.sequences,
            ) + 1,
            result is Err ==> final(self)@ == old(self)@,
    {
        if self.event_count >= MAX_EVENT_COUNT {
            return Err(SequencerError::OutOfCapacity);
        }
        if event.timestamp >= self.sequences[sequence_index].length {
            return Err(SequencerError::InvalidTimestamp);
        }
        let ghost before = self@.sequences;
        proof {
            lemma_total_events_at_least(before, sequence_index as int);
        }
        let added = self.sequences[sequence_index].add_event(event);
        proof {
            let grown = SequenceView {
                length: before[sequence_index as int].length,
                events: before[sequence_index as int].events.push(event),
            };
            assert(self@.sequences =~= before.update(sequence_index as int, grown));
            lemma_total_events_update(before, sequence_index as int, grown);
        }
        self.event_count = self.event_count + 1;
        Ok(())
    }

    /// Writes what the buffer at the sample position `origin` (in millionths
    /// of a sample) plays behind what `midi` holds, in the order of the sequences and of their events, each event
    /// at most once and at an offset inside the buffer. An output that holds
    /// `MAX_EVENT_COUNT` events takes no more: what does not fit is left
    /// out and the call reports `Truncated`. Into an empty output everything fits.
    pub fn render_window(&self, origin: u128, midi: &mut Vec<MidiEvent>) -> (result: Result<
        (),
        SequencerError,
    >)
        requires
            self.wf(),
        ensures
            final(midi)@ == old(midi)@ + first_up_to(
                self@.scheduled_at(origin as int),
                room_after(old(midi)@.len() as int),
            ),
            result is Ok <==> self@.scheduled_at(origin as int).len() <= room_after(
                old(midi)@.len() as int,
            ),
            result is Err ==> result == Err::<(), SequencerError>(SequencerError::Truncated),
            old(midi)@.len() == 0 ==> result is Ok,
            forall|k: int|
                old(midi)@.len() <= k < final(midi)@.len() ==> (#[trigger] final(midi)@[k]).offset
                    < self@.config.window(),
    {
        let ghost held = midi@;
        let ghost room = room_after(held.len() as int);
        let ghost view = self@;
        let ghost at = origin as int;
        let tempo: u64 = self.config.tempo;
        let rate: u32 = self.config.sample_rate;
        let window: u64 = (self.config.buffer_size as u64) * UNIT;
        let mut truncated: bool = false;
        let mut i: usize = 0;
        while i < self.sequences.len()
            invariant
                self.wf(),
                view == self@,
                i <= self.sequences.len(),
                tempo == self.config.tempo,
                rate == self.config.sample_rate,
                window == view.config.window(),
                at == origin,
                room == room_after(held.len() as int),
                midi@ == held + first_up_to(
                    played_of_all(view.config, view.sequences, at, i as nat),
                    room,
                ),
                truncated <==> played_of_all(view.config, view.sequences, at, i as nat).len()
                    > room,
                forall|k: int|
                    held.len() <= k < midi@.len() ==> (#[trigger] midi@[k]).offset < window,
            decreases self.sequences.len() - i,
        {
            let sequence = &self.sequences[i];
            let ghost seq_view = view.sequences[i as int];
            let ghost done = played_of_all(view.config, view.sequences, at, i as nat);
            assert(seq_view == sequence@);
            assert(seq_view.wf());
            let period: u128 = beats_to_samples(sequence.length, tempo, rate);
            proof {
                lemma_beats_to_samples_strict(0, sequence.length as int, tempo as int, rate as int);
                assert(0 * (60 * rate * 1_000_000) == 0);
                assert(spec_beats_to_samples(0, tempo as int, rate as int) == 0);
            }
            let start: u128 = origin % period;
            let mut j: usize = 0;
            while j < sequence.events.len()
                invariant
                    self.wf(),
                    view == self@,
                    i < self.sequences.len(),
                    sequence == &self.sequences[i as int],
                    seq_view == view.sequences[i as int],
                    seq_view == sequence@,
                    seq_view.wf(),
                    j <= sequence.events.len(),
                    tempo == view.config.tempo,
                    rate == view.config.sample_rate,
                    view.config.wf(),
                    window == view.config.window(),
                    period == spec_beats_to_samples(
                        seq_view.length as int,
                        tempo as int,
                        rate as int,
                    ),
                    period > 0,
                    start == at % (period as int),
                    room == room_after(held.len() as int),
                    done == played_of_all(view.config, view.sequences, at, i as nat),
                    midi@ == held + first_up_to(
                        done + played_of_sequence(view.config, seq_view, at, j as nat),
                        room,
                    ),
                    truncated <==> (done + played_of_sequence(
                        view.config,
                        seq_view,
                        at,
                        j as nat,
                    )).len() > room,
                    forall|k: int|
                        held.len() <= k < midi@.len() ==> (#[trigger] midi@[k]).offset < window,
                decreases sequence.events.len() - j,
            {
                let event: SequencerEvent = sequence.events[j];
                let ghost sofar = done + played_of_sequence(view.config, seq_view, at, j as nat);
                assert(event == seq_view.events[j as int]);
                let position: u128 = beats_to_samples(event.timestamp, tempo, rate);
                proof {
                    lemma_beats_to_samples_strict(
                        event.timestamp as int,
                        seq_view.length as int,
                        tempo as int,
                        rate as int,
                    );
                }
                let ghost next = played_of_sequence(view.config, seq_view, at, (j + 1) as nat);
                match offset_in_window(start, period, window, position) {
                    Some(offset) => {
                        let ghost out = MidiEvent { offset, message: event.message };
                        assert(played(view.config, seq_view, at, event) == Some(out));
                        assert(done + next =~= sofar.push(out));
                        if midi.len() < MAX_EVENT_COUNT {
                            midi.push(MidiEvent { offset, message: event.message });
                            assert(midi@ =~= held + first_up_to(done + next, room));
                        } else {
                            truncated = true;
                            assert(first_up_to(done + next, room) =~= first_up_to(sofar, room));
                        }
                    },
                    None => {
                        assert(played(view.config, seq_view, at, event) is None);
                        assert(done + next =~= sofar);
                    },
                }
                j = j + 1;
            }
            i = i + 1;
        }
        proof {
            lemma_played_of_all_len(view.config, view.sequences, at, view.sequences.len());
            assert(view.sequences.take(view.sequences.len() as int) =~= view.sequences);
        }
        if truncated {
            Err(SequencerError::Truncated)
        } else {
            Ok(())
        }
    }

    /// Writes what the buffer at `beat_position` plays behind what `midi`
    /// holds: the buffer starts at the sample position of `beat_position`.
    /// Nothing but the sequencer, the beat position and what `midi` holds
    /// enters into the result.
    pub fn render_timeline(&self, beat_position: u64, midi: &mut Vec<MidiEvent>) -> (result: Result<
        (),
        SequencerError,
    >)
        requires
            self.wf(),
        ensures
            final(midi)@ == old(midi)@ + first_up_to(
                self@.scheduled(beat_position as int),
                room_after(old(midi)@.len() as int),
            ),
            result is Ok <==> self@.scheduled(beat_position as int).len() <= room_after(
                old(midi)@.len() as int,
            ),
            result is Err ==> result == Err::<(), SequencerError>(SequencerError::Truncated),
            old(midi)@.len() == 0 ==> result is Ok,
            forall|k: int|
                old(midi)@.len() <= k < final(midi)@.len() ==> (#[trigger] final(midi)@[k]).offset
                    < self@.config.window(),
    {
        let origin: u128 = beats_to_samples(beat_position, self.config.tempo, self.config.sample_rate);
        self.render_window(origin, midi)
    }

    /// Sample position of a beat position at this sequencer's tempo and rate.
    pub fn beat_to_samples(&self, beat: u64) -> (samples: u128)
        requires
            self.wf(),
        ensures
            samples == spec_beats_to_samples(
                beat as int,
                self@.config.tempo as int,
                self@.config.sample_rate as int,
            ),
    {
        beats_to_samples(beat, self.config.tempo, self.config.sample_rate)
    }

    /// Sample position of a beat position inside a loop of `length`.
    pub fn mod_position(&self, beat: u64, length: u64) -> (samples: u128)
        requires
            self.wf(),
            length > 0,
        ensures
            samples == spec_modular_position(
                beat as int,
                length as int,
                self@.config.tempo as int,
                self@.config.sample_rate as int,
            ),
    {
        proof {
            lemma_beats_to_samples_strict(
                0,
                length as int,
                self.config.tempo as int,
                self.config.sample_rate as int,
            );
            assert(0 * (60 * self.config.sample_rate * 1_000_000) == 0);
        }
        modular_position(beat, length, self.config.tempo, self.config.sample_rate)
    }

    /// Length of a beat in millionths of a sample.
    pub fn samples_per_beat(sample_rate: u32, tempo: u64) -> (samples: u128)
        requires
            tempo > 0,
        ensures
            samples == spec_samples_per_beat(sample_rate as int, tempo as int),
    {
        samples_per_beat(sample_rate, tempo)
    }

    /// Length of a subtick in millionths of a sample.
    pub fn samples_per_subtick(sample_rate: u32, tempo: u64) -> (samples: u128)
        requires
            tempo > 0,
        ensures
            samples == spec_samples_per_subtick(sample_rate as int, tempo as int),
    {
        samples_per_subtick(sample_rate, tempo)
    }

    /// The subtick, in `0..PPQ`, that a beat position lies in.
    pub fn subtick_position(beat_position: u64) -> (subtick: u64)
        ensures
            subtick == spec_subtick_of_beat(beat_position as int),
            subtick < PPQ,
    {
        subtick_of_beat(beat_position)
    }

    /// The number of events in all the sequences together.
    pub fn event_count(&self) -> (count: usize)
        requires
            self.wf(),
        ensures
            count == total_events(self@.sequences),
            count <= MAX_EVENT_COUNT,
    {
        self.event_count
    }

    /// The number of sequences.
    pub fn sequence_count(&self) -> (count: usize)
        ensures
            count == self@.sequences.len(),
    {
        self.sequences.len()
    }

    /// The sequence at `index`, in the order of adding.
    pub fn sequence(&self, index: usize) -> (sequence: Option<&MIDISequence>)
        ensures
            index < self@.sequences.len() ==> sequence is Some && sequence->0@
                == self@.sequences[index as int],
            index >= self@.sequences.len() ==> sequence is None,
    {
        if index < self.sequences.len() {
            Some(&self.sequences[index])
        } else {
            None
        }
    }

    /// The configuration.
    pub fn config(&self) -> (config: SequencerConfig)
        ensures
            config == self@.config,
    {
        self.config
    }
}

} // verus!
