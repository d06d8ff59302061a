//! What the audio callback computes for one buffer: the events that the buffer
//! plays, and for each the packet that goes to the MIDI output, stamped with
//! the host-clock tick at which it is to sound.

use vstd::prelude::*;
use crate::sequencer::{MidiEvent, Sequencer};

verus! {

/// A change to the shared session that the front end asks for.
#[derive(Clone, Copy, Debug, PartialEq, Eq, Structural)]
pub enum UpdateSessionState {
    TempoPlus,
    TempoMinus,
    TogglePlaying,
}

/// The host clock's ratio: one tick lasts `numer / denom` nanoseconds.
#[derive(Clone, Copy, Debug, PartialEq, Eq, Structural)]
pub struct Timebase {
    pub numer: u32,
    pub denom: u32,
}

impl Timebase {
    /// Neither part of the ratio is zero.
    pub open spec fn wf(&self) -> bool {
        self.numer > 0 && self.denom > 0
    }

    /// Whether ticks can be counted by this ratio.
    pub fn is_valid(&self) -> (valid: bool)
        ensures
            valid == self.wf(),
    {
        self.numer > 0 && self.denom > 0
    }
}

/// A MIDI message of three bytes and the host tick at which it is to sound.
#[derive(Clone, Copy, Debug, PartialEq, Eq)]
pub struct AbsoluteMidiPacket {
    pub timestamp_ticks: u64,
    pub bytes: [u8; 3],
}

/// The quotient of two numbers rounded to the nearest whole number, a half upwards.
pub open spec fn rounded_quotient(dividend: int, divisor: int) -> int {
    (2 * dividend + divisor) / (2 * divisor)
}

/// Host ticks that an offset in millionths of a sample lasts: the offset in
/// milliseconds times the ticks in a millisecond, rounded once.
pub open spec fn spec_offset_ticks(offset: int, sample_rate: int, timebase: Timebase) -> int {
    rounded_quotient(offset * (1000 * timebase.denom), sample_rate * timebase.numer)
}

/// Host ticks that a latency in nanoseconds lasts, rounded once.
pub open spec fn spec_latency_ticks(latency_nanos: int, timebase: Timebase) -> int {
    rounded_quotient(latency_nanos * timebase.denom, timebase.numer as int)
}

/// The tick at which an event sounds: now, plus its offset, less the output latency.
pub open spec fn spec_timestamp_ticks(
    host_now: int,
    offset: int,
    latency_nanos: int,
    sample_rate: int,
    timebase: Timebase,
) -> int {
    host_now + spec_offset_ticks(offset, sample_rate, timebase) - spec_latency_ticks(
        latency_nanos,
        timebase,
    )
}

/// The packet of an event: its wire bytes at its tick. There is none where the
/// message has no wire form or the tick is not a 64-bit number.
pub open spec fn spec_packet(
    event: MidiEvent,
    host_now: int,
    latency_nanos: int,
    sample_rate: int,
    timebase: Timebase,
) -> Option<(int, Seq<u8>)> {
    let ticks = spec_timestamp_ticks(
        host_now,
        event.offset as int,
        latency_nanos,
        sample_rate,
        timebase,
    );
    match event.message.spec_wire_bytes() {
        Some(bytes) => if 0 <= ticks <= u64::MAX {
            Some((ticks, bytes))
        } else {
            None
        },
        None => None,
    }
}

/// The packets of the first `count` events, in their order.
pub open spec fn spec_packets(
    events: Seq<MidiEvent>,
    count: nat,
    host_now: int,
    latency_nanos: int,
    sample_rate: int,
    timebase: Timebase,
) -> Seq<(int, Seq<u8>)>
    decreases count,
{
    if count == 0 {
        Seq::empty()
    } else {
        let earlier = spec_packets(
            events,
            (count - 1) as nat,
            host_now,
            latency_nanos,
            sample_rate,
            timebase,
        );
        match spec_packet(events[count - 1], host_now, latency_nanos, sample_rate, timebase) {
            Some(packet) => earlier.push(packet),
            None => earlier,
        }
    }
}

/// The ticks and bytes that a list of packets holds.
pub open spec fn packets_view(packets: Seq<AbsoluteMidiPacket>) -> Seq<(int, Seq<u8>)> {
    Seq::new(packets.len(), |i: int| (packets[i].timestamp_ticks as int, packets[i].bytes@))
}

/// `dividend / divisor` rounded to the nearest whole number, a half upwards.
fn rounded_division(dividend: u128, divisor: u128) -> (quotient: u128)
    requires
        divisor > 0,
        2 * dividend + divisor <= u128::MAX,
        2 * divisor <= u128::MAX,
    ensures
        quotient == rounded_quotient(dividend as int, divisor as int),
{
    (2 * dividend + divisor) / (2 * divisor)
}

/// Host ticks from the buffer start to an offset in millionths of a sample.
pub fn offset_ticks(offset: u64, sample_rate: u32, timebase: Timebase) -> (ticks: u128)
    requires
        sample_rate > 0,
        timebase.wf(),
    ensures
        ticks == spec_offset_ticks(offset as int, sample_rate as int, timebase),
        ticks <= 0x1_0000_0000_0000_0000_0000_0000_0000,
{
    let scale: u128 = 1000u128 * (timebase.denom as u128);
    assert(0 < sample_rate * timebase.numer <= 0xffff_ffff * 0xffff_ffff) by (nonlinear_arith)
        requires
            0 < sample_rate <= 0xffff_ffff,
            0 < timebase.numer <= 0xffff_ffff,
    ;
    let divisor: u128 = (sample_rate as u128) * (timebase.numer as u128);
    assert(0 <= offset * scale <= 0xffff_ffff_ffff_ffff * (1000 * 0xffff_ffff)) by (nonlinear_arith)
        requires
            0 <= offset <= 0xffff_ffff_ffff_ffff,
            0 <= scale <= 1000 * 0xffff_ffff,
    ;
    let dividend: u128 = (offset as u128) * scale;
    let ticks: u128 = rounded_division(dividend, divisor);
    proof {
        vstd::arithmetic::div_mod::lemma_div_is_ordered_by_denominator(
            2 * dividend + divisor,
            1,
            2 * divisor,
        );
    }
    ticks
}

/// Host ticks that the output latency lasts.
pub fn latency_ticks(latency_nanos: u64, timebase: Timebase) -> (ticks: u128)
    requires
        timebase.wf(),
    ensures
        ticks == spec_latency_ticks(latency_nanos as int, timebase),
{
    assert(0 <= latency_nanos * timebase.denom <= 0xffff_ffff_ffff_ffff * 0xffff_ffff)
        by (nonlinear_arith)
        requires
            0 <= latency_nanos <= 0xffff_ffff_ffff_ffff,
            0 <= timebase.denom <= 0xffff_ffff,
    ;
    let dividend: u128 = (latency_nanos as u128) * (timebase.denom as u128);
    rounded_division(dividend, timebase.numer as u128)
}

/// The host tick at which an event at `offset` sounds, where it is a 64-bit number.
pub fn timestamp_ticks(
    host_now: u64,
    offset: u64,
    latency_nanos: u64,
    sample_rate: u32,
    timebase: Timebase,
) -> (ticks: Option<u64>)
    requires
        sample_rate > 0,
        timebase.wf(),
    ensures
        ({
            let exact = spec_timestamp_ticks(
                host_now as int,
                offset as int,
                latency_nanos as int,
                sample_rate as int,
                timebase,
            );
            &&& ticks is Some <==> 0 <= exact <= u64::MAX
            &&& ticks is Some ==> ticks->0 == exact
        }),
{
    let ahead: u128 = offset_ticks(offset, sample_rate, timebase);
    let behind: u128 = latency_ticks(latency_nanos, timebase);
    let late: u128 = (host_now as u128) + ahead;
    if late < behind {
        return None;
    }
    let exact: u128 = late - behind;
    if exact > u64::MAX as u128 {
        None
    } else {
        Some(exact as u64)
    }
}

/// The packet that carries an event to the MIDI output.
pub fn packet_for(
    event: &MidiEvent,
    host_now: u64,
    latency_nanos: u64,
    sample_rate: u32,
    timebase: Timebase,
) -> (packet: Option<AbsoluteMidiPacket>)
    requires
        sample_rate > 0,
        timebase.wf(),
    ensures
        ({
            let exact = spec_packet(
                *event,
                host_now as int,
                latency_nanos as int,
                sample_rate as int,
                timebase,
            );
            &&& packet is Some <==> exact is Some
            &&& packet is Some ==> (packet->0.timestamp_ticks as int, packet->0.bytes@)
                == exact->0
        }),
{
    match event.message.wire_bytes() {
        Some(bytes) => {
            match timestamp_ticks(host_now, event.offset, latency_nanos, sample_rate, timebase) {
                Some(ticks) => Some(AbsoluteMidiPacket { timestamp_ticks: ticks, bytes }),
                None => None,
            }
        },
        None => None,
    }
}

/// One audio buffer's work. Both outputs are emptied first. While the session
/// plays, `events` then takes what the buffer at `beat_position` plays and
/// `packets` takes the packet of each of them that has one, in the same
/// order; the result counts the events without a packet. While it does not
/// play, both stay empty.
pub fn process_buffer(
    sequencer: &Sequencer,
    playing: bool,
    beat_position: u64,
    host_now: u64,
    latency_nanos: u64,
    timebase: Timebase,
    events: &mut Vec<MidiEvent>,
    packets: &mut Vec<AbsoluteMidiPacket>,
) -> (skipped: usize)
    requires
        sequencer.wf(),
        timebase.wf(),
    ensures
        !playing ==> final(events)@.len() == 0 && final(packets)@.len() == 0 && skipped == 0,
        playing ==> final(events)@ == sequencer@.scheduled(beat_position as int),
        playing ==> packets_view(final(packets)@) == spec_packets(
            final(events)@,
            final(events)@.len(),
            host_now as int,
            latency_nanos as int,
            sequencer@.config.sample_rate as int,
            timebase,
        ),
        skipped == final(events)@.len() - final(packets)@.len(),
{
    events.clear();
    packets.clear();
    if !playing {
        return 0;
    }
    proof {
        sequencer.lemma_wf_view();
    }
    let rendered = sequencer.render_timeline(beat_position, events);
    assert(events@ =~= sequencer@.scheduled(beat_position as int));
    let sample_rate: u32 = sequencer.config().sample_rate;
    let mut skipped: usize = 0;
    let mut k: usize = 0;
    assert(packets_view(packets@) =~= Seq::empty());
    while k < events.len()
        invariant
            k <= events.len(),
            sample_rate > 0,
            sample_rate == sequencer@.config.sample_rate,
            timebase.wf(),
            events@ == sequencer@.scheduled(beat_position as int),
            packets_view(packets@) == spec_packets(
                events@,
                k as nat,
                host_now as int,
                latency_nanos as int,
                sample_rate as int,
                timebase,
            ),
            skipped == k - packets@.len(),
            packets@.len() <= k,
        decreases events.len() - k,
    {
        let ghost earlier = packets_view(packets@);
        match packet_for(&events[k], host_now, latency_nanos, sample_rate, timebase) {
            Some(packet) => {
                packets.push(packet);
                assert(packets_view(packets@) =~= earlier.push(
                    (packet.timestamp_ticks as int, packet.bytes@),
                ));
            },
            None => {
                skipped = skipped + 1;
            },
        }
        k = k + 1;
    }
    skipped
}

} // verus!
