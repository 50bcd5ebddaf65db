//! The file as a whole: a header chunk followed by track chunks.

use vstd::prelude::*;
use crate::bytes::{be_u16_at, be_u32_at, has_tag, read_be_u16, read_be_u32, tag_matches};
use crate::error::MidiError;
use crate::event::MidiEvent;
use crate::track::{read_midi_track, retained_events, track_at, well_formed_tracks, MidiTrack};

verus! {

/// The tag `MThd` that opens the header chunk.
pub const HEADER_TAG: [u8; 4] = [0x4D, 0x54, 0x68, 0x64];

/// The number of bytes that the header chunk occupies.
pub const HEADER_LEN: usize = 14;

/// A decoded MIDI file.
#[derive(Clone, Debug, PartialEq, Eq)]
pub struct MidiFile {
    /// The file format: 0, 1 or 2 in a standard file; stored as read.
    pub format: u16,
    /// The number of tracks that the header announces. `tracks` may hold
    /// fewer, since an unreadable track is dropped.
    pub track_count: u16,
    /// The time resolution, in ticks per quarter note.
    pub ticks_per_quarter: u16,
    /// The tracks that could be read, in file order.
    pub tracks: Vec<MidiTrack>,
}

/// The mathematical content of a [`MidiFile`].
pub struct MidiFileView {
    pub format: u16,
    pub track_count: u16,
    pub ticks_per_quarter: u16,
    pub tracks: Seq<Seq<MidiEvent>>,
}

impl View for MidiFile {
    type V = MidiFileView;

    open spec fn view(&self) -> MidiFileView {
        MidiFileView {
            format: self.format,
            track_count: self.track_count,
            ticks_per_quarter: self.ticks_per_quarter,
            tracks: Seq::new(self.tracks@.len(), |i: int| self.tracks@[i]@),
        }
    }
}

/// The three fields of the header chunk at `pos`: format, track count and
/// ticks per quarter note. `None` when the chunk is cut short, does not begin
/// with `MThd`, or announces a length other than 6.
pub open spec fn header_at(data: Seq<u8>, pos: int) -> Option<(u16, u16, u16)> {
    if has_tag(data, pos, HEADER_TAG) && pos + HEADER_LEN <= data.len() && be_u32_at(data, pos + 4)
        == 6 {
        Some(
            (
                be_u16_at(data, pos + 8) as u16,
                be_u16_at(data, pos + 10) as u16,
                be_u16_at(data, pos + 12) as u16,
            ),
        )
    } else {
        None
    }
}

/// Where the read position rests after a header was rejected: before the
/// tag if the tag is wrong or missing, after the tag if the length field is
/// missing, and after the length field otherwise.
pub open spec fn header_stop(data: Seq<u8>, pos: int) -> int {
    if !has_tag(data, pos, HEADER_TAG) {
        pos
    } else if pos + 8 > data.len() {
        pos + 4
    } else {
        pos + 8
    }
}

/// Reads the header chunk at `*pos` and returns format, track count and
/// ticks per quarter note.
///
/// Fails with `InvalidHeader` when the chunk does not begin with `MThd`, when
/// its length field is not 6, and when the buffer ends inside it.
pub fn read_midi_header(data: &[u8], pos: &mut usize) -> (r: Result<(u16, u16, u16), MidiError>)
    ensures
        match header_at(data@, *old(pos) as int) {
            Some(fields) => r == Ok::<(u16, u16, u16), MidiError>(fields) && *final(pos) == *old(
                pos,
            ) + HEADER_LEN,
            None => r == Err::<(u16, u16, u16), MidiError>(MidiError::InvalidHeader) && *final(pos)
                == header_stop(data@, *old(pos) as int),
        },
{
    let len: usize = data.len();
    if !tag_matches(data, *pos, &HEADER_TAG) {
        return Err(MidiError::InvalidHeader);
    }
    *pos += 4;
    if len - *pos < 4 {
        return Err(MidiError::InvalidHeader);
    }
    let chunk_length: u32 = read_be_u32(data, pos);
    if chunk_length != 6 || len - *pos < 6 {
        return Err(MidiError::InvalidHeader);
    }
    let format: u16 = read_be_u16(data, pos);
    let track_count: u16 = read_be_u16(data, pos);
    let ticks_per_quarter: u16 = read_be_u16(data, pos);
    Ok((format, track_count, ticks_per_quarter))
}

/// The tracks found by `count` successive attempts to read a track chunk,
/// the first of them at `pos`. An attempt that fails yields no track and
/// leaves the position where it was.
pub open spec fn tracks_from(data: Seq<u8>, pos: int, count: nat) -> Seq<Seq<MidiEvent>>
    decreases count,
{
    if count == 0 {
        Seq::empty()
    } else {
        match track_at(data, pos) {
            Some(body) => seq![body.events] + tracks_from(data, body.pos, (count - 1) as nat),
            None => tracks_from(data, pos, (count - 1) as nat),
        }
    }
}

/// No more tracks are read than attempts are made.
pub proof fn lemma_tracks_at_most_count(data: Seq<u8>, pos: int, count: nat)
    ensures
        tracks_from(data, pos, count).len() <= count,
    decreases count,
{
    if count > 0 {
        match track_at(data, pos) {
            Some(body) => lemma_tracks_at_most_count(data, body.pos, (count - 1) as nat),
            None => lemma_tracks_at_most_count(data, pos, (count - 1) as nat),
        }
    }
}

/// A failed attempt does not move the position, so once one track chunk
/// cannot be read, none after it is.
pub proof fn lemma_no_track_after_failure(data: Seq<u8>, pos: int, count: nat)
    requires
        track_at(data, pos) is None,
    ensures
        tracks_from(data, pos, count) == Seq::<Seq<MidiEvent>>::empty(),
    decreases count,
{
    if count > 0 {
        lemma_no_track_after_failure(data, pos, (count - 1) as nat);
    }
}

/// Decodes a whole MIDI file held in memory.
///
/// Fails only on a bad header. Track chunks are then read one after another,
/// as many times as the header announces; each that cannot be read is left
/// out of the result. Every message of every track is well formed.
pub fn parse_midi_file(data: &[u8]) -> (r: Result<MidiFile, MidiError>)
    ensures
        match header_at(data@, 0) {
            Some((format, track_count, ticks_per_quarter)) => r matches Ok(file) && file@
                == (MidiFileView {
                format,
                track_count,
                ticks_per_quarter,
                tracks: tracks_from(data@, HEADER_LEN as int, track_count as nat),
            }),
            None => r matches Err(e) && e == MidiError::InvalidHeader,
        },
        r matches Ok(file) ==> file@.tracks.len() <= file.track_count && forall|t: int|
            0 <= t < file@.tracks.len() ==> retained_events(#[trigger] file@.tracks[t]),
        r matches Ok(file) ==> well_formed_tracks(file@.tracks),
{
    let mut pos: usize = 0;
    let (format, track_count, ticks_per_quarter) = match read_midi_header(data, &mut pos) {
        Ok(fields) => fields,
        Err(e) => {
            return Err(e);
        },
    };
    let mut tracks: Vec<MidiTrack> = Vec::new();
    let ghost whole = tracks_from(data@, HEADER_LEN as int, track_count as nat);
    let mut attempt: u16 = 0;
    while attempt < track_count
        invariant
            attempt <= track_count,
            whole == Seq::new(tracks@.len(), |i: int| tracks@[i]@) + tracks_from(
                data@,
                pos as int,
                (track_count - attempt) as nat,
            ),
            forall|t: int| 0 <= t < tracks@.len() ==> retained_events(#[trigger] tracks@[t]@),
        decreases track_count - attempt,
    {
        let ghost read = Seq::new(tracks@.len(), |i: int| tracks@[i]@);
        let ghost rest = tracks_from(data@, pos as int, (track_count - attempt) as nat);
        match read_midi_track(data, &mut pos) {
            Ok(track) => {
                let ghost events = track@;
                tracks.push(track);
                assert(Seq::new(tracks@.len(), |i: int| tracks@[i]@) == read + seq![events]);
                assert(whole == (read + seq![events]) + tracks_from(
                    data@,
                    pos as int,
                    (track_count - attempt - 1) as nat,
                ));
            },
            Err(_) => {},
        }
        attempt += 1;
    }
    assert(whole == Seq::new(tracks@.len(), |i: int| tracks@[i]@));
    proof {
        lemma_tracks_at_most_count(data@, HEADER_LEN as int, track_count as nat);
    }
    Ok(MidiFile { format, track_count, ticks_per_quarter, tracks })
}

} // verus!
