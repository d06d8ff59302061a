//! What a buffer plays of the sequences: the decision on each event, the
//! output of a whole buffer, and what holds of both.

use vstd::prelude::*;
use crate::sequencer::{
    total_events, MidiEvent, SequenceView, SequencerConfig, SequencerEvent, MAX_EVENT_COUNT,
};
use crate::time::{lemma_beats_to_samples_strict, spec_beats_to_samples};
use crate::window::{
    distance_ahead, emission_time, fires, law_contiguous_buffers_play_once, law_loop_start_event,
    law_window_end_is_open, plays_within,
};

verus! {

/// What one buffer makes of one event: the event at its offset from the buffer
/// start when the buffer plays it, else nothing. The buffer starts at the
/// absolute sample position `origin`, in millionths of a sample.
pub open spec fn played(
    config: SequencerConfig,
    sequence: SequenceView,
    origin: int,
    event: SequencerEvent,
) -> Option<MidiEvent> {
    let tempo = config.tempo as int;
    let rate = config.sample_rate as int;
    let period = spec_beats_to_samples(sequence.length as int, tempo, rate);
    let start = origin % period;
    let position = spec_beats_to_samples(event.timestamp as int, tempo, rate);
    if fires(start, period, config.window(), position) {
        Some(
            MidiEvent {
                offset: distance_ahead(start, period, position) as u64,
                message: event.message,
            },
        )
    } else {
        None
    }
}

/// What one buffer plays of the first `count` events of a sequence, in their order.
pub open spec fn played_of_sequence(
    config: SequencerConfig,
    sequence: SequenceView,
    origin: int,
    count: nat,
) -> Seq<MidiEvent>
    decreases count,
{
    if count == 0 {
        Seq::empty()
    } else {
        let earlier = played_of_sequence(config, sequence, origin, (count - 1) as nat);
        match played(config, sequence, origin, sequence.events[count - 1]) {
            Some(event) => earlier.push(event),
            None => earlier,
        }
    }
}

/// What one buffer plays of the first `count` sequences, in their order.
pub open spec fn played_of_all(
    config: SequencerConfig,
    sequences: Seq<SequenceView>,
    origin: int,
    count: nat,
) -> Seq<MidiEvent>
    decreases count,
{
    if count == 0 {
        Seq::empty()
    } else {
        played_of_all(config, sequences, origin, (count - 1) as nat) + played_of_sequence(
            config,
            sequences[count - 1],
            origin,
            sequences[count - 1].events.len(),
        )
    }
}

/// The first `room` of `events`, or all of them where they are fewer.
pub open spec fn first_up_to(events: Seq<MidiEvent>, room: int) -> Seq<MidiEvent> {
    if events.len() <= room {
        events
    } else {
        events.take(room)
    }
}

/// How many more events an output that holds `held` events takes.
pub open spec fn room_after(held: int) -> int {
    if held >= MAX_EVENT_COUNT {
        0
    } else {
        MAX_EVENT_COUNT - held
    }
}

/// A buffer plays no more events of a sequence than the sequence holds.
pub proof fn lemma_played_of_sequence_len(
    config: SequencerConfig,
    sequence: SequenceView,
    origin: int,
    count: nat,
)
    ensures
        played_of_sequence(config, sequence, origin, count).len() <= count,
    decreases count,
{
    if count > 0 {
        lemma_played_of_sequence_len(config, sequence, origin, (count - 1) as nat);
    }
}

/// A buffer plays no more events than the sequences hold.
pub proof fn lemma_played_of_all_len(
    config: SequencerConfig,
    sequences: Seq<SequenceView>,
    origin: int,
    count: nat,
)
    requires
        count <= sequences.len(),
    ensures
        played_of_all(config, sequences, origin, count).len() <= total_events(
            sequences.take(count as int),
        ),
    decreases count,
{
    if count > 0 {
        let before = (count - 1) as nat;
        lemma_played_of_all_len(config, sequences, origin, before);
        lemma_played_of_sequence_len(
            config,
            sequences[count - 1],
            origin,
            sequences[count - 1].events.len(),
        );
        assert(sequences.take(count as int).drop_last() =~= sequences.take(before as int));
    }
}

/// Whether the buffer at `origin` plays `event` at an absolute sample time in
/// the loop period that begins at `from`.
pub open spec fn plays_event_within(
    config: SequencerConfig,
    sequence: SequenceView,
    origin: int,
    event: SequencerEvent,
    from: int,
) -> bool {
    match played(config, sequence, origin, event) {
        Some(out) => from <= origin + out.offset < from + spec_beats_to_samples(
            sequence.length as int,
            config.tempo as int,
            config.sample_rate as int,
        ),
        None => false,
    }
}

/// The scheduler's decision on one event is the window's decision on the
/// event's sample position.
pub proof fn lemma_played_is_emission(
    config: SequencerConfig,
    sequence: SequenceView,
    origin: int,
    event: SequencerEvent,
)
    requires
        config.wf(),
        sequence.wf(),
        event.timestamp < sequence.length,
        0 <= origin,
    ensures
        ({
            let tempo = config.tempo as int;
            let rate = config.sample_rate as int;
            let period = spec_beats_to_samples(sequence.length as int, tempo, rate);
            let position = spec_beats_to_samples(event.timestamp as int, tempo, rate);
            let time = emission_time(origin, period, config.window(), position);
            let out = played(config, sequence, origin, event);
            &&& 0 <= position < period
            &&& out is Some <==> time is Some
            &&& out is Some ==> origin + out->0.offset == time->0 && out->0.message
                == event.message && out->0.offset < config.window()
        }),
{
    let tempo = config.tempo as int;
    let rate = config.sample_rate as int;
    let period = spec_beats_to_samples(sequence.length as int, tempo, rate);
    lemma_beats_to_samples_strict(event.timestamp as int, sequence.length as int, tempo, rate);
    vstd::arithmetic::div_mod::lemma_mod_bound(origin, period);
}

/// Buffers that follow one another without gap or overlap play each event of
/// a sequence exactly once per loop period, provided that a buffer is shorter
/// than the loop: of the buffers at the sample positions `first`,
/// `first + window`, `first + 2 * window`, ... exactly one plays the event at
/// a time within the period that begins at `from`.
pub proof fn law_event_played_once_per_loop(
    config: SequencerConfig,
    sequence: SequenceView,
    event: SequencerEvent,
    first: int,
    from: int,
)
    requires
        config.wf(),
        sequence.wf(),
        event.timestamp < sequence.length,
        config.window() < spec_beats_to_samples(
            sequence.length as int,
            config.tempo as int,
            config.sample_rate as int,
        ),
        0 <= first <= from,
    ensures
        exists|k: nat|
            {
                &&& #[trigger] plays_event_within(
                    config,
                    sequence,
                    first + k * config.window(),
                    event,
                    from,
                )
                &&& forall|j: nat| #[trigger]
                    plays_event_within(config, sequence, first + j * config.window(), event, from)
                        ==> j == k
            },
{
    let tempo = config.tempo as int;
    let rate = config.sample_rate as int;
    let window = config.window();
    let period = spec_beats_to_samples(sequence.length as int, tempo, rate);
    let position = spec_beats_to_samples(event.timestamp as int, tempo, rate);
    lemma_beats_to_samples_strict(event.timestamp as int, sequence.length as int, tempo, rate);
    law_contiguous_buffers_play_once(first, period, window, position, from);
    let k = choose|k: nat|
        {
            &&& #[trigger] plays_within(first + k * window, period, window, position, from)
            &&& forall|j: nat| #[trigger]
                plays_within(first + j * window, period, window, position, from) ==> j == k
        };
    assert(first + k * window >= 0) by (nonlinear_arith)
        requires
            first >= 0,
            window > 0,
            k >= 0,
    ;
    lemma_played_is_emission(config, sequence, first + k * window, event);
    assert(plays_event_within(config, sequence, first + k * window, event, from));
    assert forall|j: nat| #[trigger]
        plays_event_within(config, sequence, first + j * window, event, from) implies j == k by {
        assert(first + j * window >= 0) by (nonlinear_arith)
            requires
                first >= 0,
                window > 0,
                j >= 0,
        ;
        lemma_played_is_emission(config, sequence, first + j * window, event);
        assert(plays_within(first + j * window, period, window, position, from));
    }
}

/// An event on the loop start is played by the buffer that holds a loop
/// start: at offset 0 when the buffer begins on it, else at the distance from
/// the buffer start to the loop end.
pub proof fn law_loop_start_event_played(
    config: SequencerConfig,
    sequence: SequenceView,
    origin: int,
    event: SequencerEvent,
)
    requires
        config.wf(),
        sequence.wf(),
        event.timestamp == 0,
        0 <= origin,
    ensures
        ({
            let period = spec_beats_to_samples(
                sequence.length as int,
                config.tempo as int,
                config.sample_rate as int,
            );
            let start = origin % period;
            let out = played(config, sequence, origin, event);
            &&& out is Some <==> start == 0 || period - start < config.window()
            &&& out is Some ==> out->0.offset == (if start == 0 {
                0
            } else {
                period - start
            })
        }),
{
    let tempo = config.tempo as int;
    let rate = config.sample_rate as int;
    let period = spec_beats_to_samples(sequence.length as int, tempo, rate);
    lemma_played_is_emission(config, sequence, origin, event);
    assert(0 * (60 * rate * 1_000_000) == 0);
    vstd::arithmetic::div_mod::lemma_mod_bound(origin, period);
    law_loop_start_event(origin % period, period, config.window());
}

/// An event that lies exactly one buffer length ahead of a buffer is not
/// played by it, and is played at offset 0 by the buffer that follows.
pub proof fn law_event_at_buffer_end_waits(
    config: SequencerConfig,
    sequence: SequenceView,
    origin: int,
    event: SequencerEvent,
)
    requires
        config.wf(),
        sequence.wf(),
        event.timestamp < sequence.length,
        0 <= origin,
        distance_ahead(
            origin % spec_beats_to_samples(
                sequence.length as int,
                config.tempo as int,
                config.sample_rate as int,
            ),
            spec_beats_to_samples(
                sequence.length as int,
                config.tempo as int,
                config.sample_rate as int,
            ),
            spec_beats_to_samples(
                event.timestamp as int,
                config.tempo as int,
                config.sample_rate as int,
            ),
        ) == config.window(),
    ensures
        played(config, sequence, origin, event) is None,
        played(config, sequence, origin + config.window(), event) == Some(
            MidiEvent { offset: 0, message: event.message },
        ),
{
    let tempo = config.tempo as int;
    let rate = config.sample_rate as int;
    let window = config.window();
    let period = spec_beats_to_samples(sequence.length as int, tempo, rate);
    let position = spec_beats_to_samples(event.timestamp as int, tempo, rate);
    lemma_played_is_emission(config, sequence, origin, event);
    lemma_played_is_emission(config, sequence, origin + window, event);
    vstd::arithmetic::div_mod::lemma_mod_bound(origin, period);
    law_window_end_is_open(origin % period, period, window, position);
    vstd::arithmetic::div_mod::lemma_add_mod_noop(origin, window, period);
    vstd::arithmetic::div_mod::lemma_add_mod_noop(origin % period, window, period);
    vstd::arithmetic::div_mod::lemma_mod_twice(origin, period);
}

} // verus!
