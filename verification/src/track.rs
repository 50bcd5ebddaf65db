//! Track chunks: a tagged, length-prefixed run of timed messages.

use vstd::prelude::*;
use crate::bytes::{be_u32_at, has_tag, read_be_u32, tag_matches};
use crate::error::MidiError;
use crate::event::{event_at, lemma_event_bounds, parse_midi_event, MidiEvent};
use crate::vlq::{lemma_vlq_end_bounds, read_vlq, vlq_at};

verus! {

/// The tag `MTrk` that opens every track chunk.
pub const TRACK_TAG: [u8; 4] = [0x4D, 0x54, 0x72, 0x6B];

/// The messages of one track, in file order.
#[derive(Clone, Debug, PartialEq, Eq)]
pub struct MidiTrack {
    pub events: Vec<MidiEvent>,
}

impl View for MidiTrack {
    type V = Seq<MidiEvent>;

    open spec fn view(&self) -> Seq<MidiEvent> {
        self.events@
    }
}

/// No message of the track is `Unknown`, and each is well formed: its
/// channel lies in `0..16`, its key, velocity and program number lie in
/// `0..128`, and a note-on has a velocity above zero.
pub open spec fn retained_events(events: Seq<MidiEvent>) -> bool {
    forall|i: int|
        0 <= i < events.len() ==> (#[trigger] events[i]) !is Unknown && events[i].well_formed()
}

/// Every message of the sequence is well formed.
pub open spec fn well_formed_events(events: Seq<MidiEvent>) -> bool {
    forall|i: int| 0 <= i < events.len() ==> (#[trigger] events[i]).well_formed()
}

/// Every message of every track is well formed.
pub open spec fn well_formed_tracks(tracks: Seq<Seq<MidiEvent>>) -> bool {
    forall|t: int| 0 <= t < tracks.len() ==> well_formed_events(#[trigger] tracks[t])
}

/// The outcome of reading messages from some position on: the messages kept
/// and the position at which reading stopped.
pub struct TrackBody {
    pub events: Seq<MidiEvent>,
    pub pos: int,
}

/// How many bytes of the buffer lie at or after `pos`.
pub open spec fn bytes_left(data: Seq<u8>, pos: int) -> nat {
    if pos < data.len() {
        (data.len() - pos) as nat
    } else {
        0
    }
}

/// Reads `(delay, message)` pairs for as long as the position stays below
/// both `end` and the end of the buffer. A delay that the buffer cuts short
/// ends the track there; `Unknown` messages are read and dropped.
pub open spec fn track_body(data: Seq<u8>, pos: int, end: int, running: u8) -> TrackBody
    decreases bytes_left(data, pos),
{
    if 0 <= pos < end && pos < data.len() {
        match vlq_at(data, pos) {
            Some((delta, message)) => {
                let decoded = event_at(data, message, running, delta);
                proof {
                    lemma_vlq_end_bounds(data, pos);
                    lemma_event_bounds(data, message, running, delta);
                }
                let rest = track_body(data, decoded.pos, end, decoded.status);
                if decoded.event is Unknown {
                    rest
                } else {
                    TrackBody { events: seq![decoded.event] + rest.events, pos: rest.pos }
                }
            },
            None => TrackBody { events: Seq::empty(), pos: data.len() as int },
        }
    } else {
        TrackBody { events: Seq::empty(), pos }
    }
}

/// Where the buffer ends before the announced end of the chunk, the
/// announced end has no say: any end at or past the buffer's gives the same
/// track.
pub proof fn lemma_end_beyond_buffer(
    data: Seq<u8>,
    pos: int,
    end_a: int,
    end_b: int,
    running: u8,
)
    requires
        end_a >= data.len(),
        end_b >= data.len(),
    ensures
        track_body(data, pos, end_a, running) == track_body(data, pos, end_b, running),
    decreases bytes_left(data, pos),
{
    if 0 <= pos < data.len() {
        match vlq_at(data, pos) {
            Some((delta, message)) => {
                let decoded = event_at(data, message, running, delta);
                lemma_vlq_end_bounds(data, pos);
                lemma_event_bounds(data, message, running, delta);
                lemma_end_beyond_buffer(data, decoded.pos, end_a, end_b, decoded.status);
            },
            None => {},
        }
    }
}

/// The track chunk at `pos`, or `None` when fewer than eight bytes are left
/// there or they do not begin with `MTrk`.
pub open spec fn track_at(data: Seq<u8>, pos: int) -> Option<TrackBody> {
    if has_tag(data, pos, TRACK_TAG) && pos + 8 <= data.len() {
        Some(track_body(data, pos + 8, pos + 8 + be_u32_at(data, pos + 4), 0))
    } else {
        None
    }
}

/// Reads the track chunk at `*pos`.
///
/// On success `*pos` rests where the last message ended, which may lie past
/// the length that the chunk announced and past the end of the buffer. On
/// failure `*pos` is unchanged. Every message kept is well formed, whatever
/// the bytes of the chunk are.
pub fn read_midi_track(data: &[u8], pos: &mut usize) -> (r: Result<MidiTrack, MidiError>)
    ensures
        match track_at(data@, *old(pos) as int) {
            Some(body) => r matches Ok(track) && track@ == body.events && *final(pos) == body.pos,
            None => r matches Err(e) && e == MidiError::TrackReadFailure && *final(pos) == *old(
                pos,
            ),
        },
        r matches Ok(track) ==> retained_events(track@),
{
    if !tag_matches(data, *pos, &TRACK_TAG) || data.len() < 8 || *pos > data.len() - 8 {
        return Err(MidiError::TrackReadFailure);
    }
    *pos += 4;
    let chunk_length: u32 = read_be_u32(data, pos);
    let end_position: usize = pos.saturating_add(chunk_length as usize);
    proof {
        if *pos + chunk_length > usize::MAX {
            lemma_end_beyond_buffer(
                data@,
                *pos as int,
                end_position as int,
                *pos + chunk_length,
                0,
            );
        }
    }
    let mut events: Vec<MidiEvent> = Vec::new();
    let mut running_status: u8 = 0;
    let ghost whole = track_body(data@, *pos as int, *pos + chunk_length, 0);
    while *pos < end_position && *pos < data.len()
        invariant
            retained_events(events@),
            whole.events == events@ + track_body(
                data@,
                *pos as int,
                end_position as int,
                running_status,
            ).events,
            whole.pos == track_body(data@, *pos as int, end_position as int, running_status).pos,
        ensures
            retained_events(events@),
            whole.events == events@,
            whole.pos == *pos,
        decreases bytes_left(data@, *pos as int),
    {
        let ghost before = *pos as int;
        let ghost running = running_status;
        let ghost kept = events@;
        proof {
            lemma_vlq_end_bounds(data@, before);
        }
        match read_vlq(data, pos) {
            Ok(delta_time) => {
                let ghost decoded = event_at(data@, *pos as int, running, delta_time);
                let ghost rest = track_body(
                    data@,
                    decoded.pos,
                    end_position as int,
                    decoded.status,
                );
                proof {
                    lemma_event_bounds(data@, *pos as int, running, delta_time);
                }
                match parse_midi_event(data, pos, &mut running_status, delta_time) {
                    Ok(event) => {
                        match event {
                            MidiEvent::Unknown => {},
                            _ => {
                                events.push(event);
                                assert(events@ + rest.events == kept + (seq![event] + rest.events));
                            },
                        }
                    },
                    Err(_) => {},
                }
            },
            Err(_) => {
                assert(whole.events == events@ + Seq::<MidiEvent>::empty());
                break ;
            },
        }
    }
    Ok(MidiTrack { events })
}

} // verus!
