//! Pairing of note-on and note-off messages into notes with absolute times.
//!
//! Times are kept in ticks. A track's tick counter starts at zero and grows
//! by the delay of every message of the track. Each track is assembled on
//! its own: a key pressed in one track is never released by another.

use std::collections::HashMap;
use vstd::prelude::*;
use crate::event::MidiEvent;
use crate::file::MidiFile;
use crate::track::{well_formed_events, well_formed_tracks, MidiTrack};

verus! {

/// A note with its place in time. In every note that the assembler makes,
/// `end_tick` lies after `start_tick`.
///
/// Ticks are 128 bits wide so that no sum of 32-bit delays that a track can
/// hold overflows them.
#[derive(Clone, Copy, Debug, PartialEq, Eq, Structural)]
pub struct Note {
    /// The key, as the note-off message named it.
    pub midi_note: u8,
    /// The channel, which later selects the voice.
    pub channel: u8,
    /// The tick at which the key went down.
    pub start_tick: u128,
    /// The tick at which the key came up.
    pub end_tick: u128,
    /// The velocity of the note-on message.
    pub velocity: u8,
}

/// A [`Note`] with its ticks as natural numbers.
pub struct NoteView {
    pub midi_note: u8,
    pub channel: u8,
    pub start_tick: nat,
    pub end_tick: nat,
    pub velocity: u8,
}

impl NoteView {
    /// The channel lies in `0..16`, the key in `0..128` and the velocity in
    /// `1..128`.
    pub open spec fn in_range(self) -> bool {
        self.channel < 16 && self.midi_note < 0x80 && 0 < self.velocity < 0x80
    }
}

impl View for Note {
    type V = NoteView;

    open spec fn view(&self) -> NoteView {
        NoteView {
            midi_note: self.midi_note,
            channel: self.channel,
            start_tick: self.start_tick as nat,
            end_tick: self.end_tick as nat,
            velocity: self.velocity,
        }
    }
}

/// The views of a sequence of notes, in the same order.
pub open spec fn note_views(notes: Seq<Note>) -> Seq<NoteView> {
    Seq::new(notes.len(), |i: int| notes[i]@)
}

/// The tick count once the first `count` messages of a track have passed:
/// the sum of their delays.
pub open spec fn ticks_after(events: Seq<MidiEvent>, count: int) -> nat
    decreases count,
{
    if count <= 0 {
        0
    } else {
        ticks_after(events, count - 1) + events[count - 1].delta()
    }
}

/// The index of the note-on that is waiting for its note-off on
/// `(channel, note)` once the first `count` messages have passed.
///
/// A note-on takes the place of any earlier one on the same pair; a
/// note-off on the pair clears it.
pub open spec fn pending_on(events: Seq<MidiEvent>, count: int, channel: u8, note: u8) -> Option<
    int,
>
    decreases count,
{
    if count <= 0 {
        None
    } else {
        let earlier = pending_on(events, count - 1, channel, note);
        match events[count - 1] {
            MidiEvent::NoteOn { channel: c, note: n, .. } => if c == channel && n == note {
                Some(count - 1)
            } else {
                earlier
            },
            MidiEvent::NoteOff { channel: c, note: n, .. } => if c == channel && n == note {
                None
            } else {
                earlier
            },
            _ => earlier,
        }
    }
}

/// Whether a message presses or releases the key `note` on `channel`.
pub open spec fn touches(event: MidiEvent, channel: u8, note: u8) -> bool {
    match event {
        MidiEvent::NoteOn { channel: c, note: n, .. } => c == channel && n == note,
        MidiEvent::NoteOff { channel: c, note: n, .. } => c == channel && n == note,
        _ => false,
    }
}

/// The note that message `index` completes: it is a note-off, a note-on is
/// pending on its pair, and time has passed since that note-on.
pub open spec fn note_closed_at(events: Seq<MidiEvent>, index: int) -> Option<NoteView> {
    match events[index] {
        MidiEvent::NoteOff { channel, note, .. } => match pending_on(events, index, channel, note) {
            Some(on) => if ticks_after(events, on + 1) < ticks_after(events, index + 1) {
                Some(
                    NoteView {
                        midi_note: note,
                        channel,
                        start_tick: ticks_after(events, on + 1),
                        end_tick: ticks_after(events, index + 1),
                        velocity: events[on]->velocity,
                    },
                )
            } else {
                None
            },
            None => None,
        },
        _ => None,
    }
}

/// The notes completed by the first `count` messages of a track, in the
/// order of their note-off messages.
pub open spec fn track_notes(events: Seq<MidiEvent>, count: int) -> Seq<NoteView>
    decreases count,
{
    if count <= 0 {
        Seq::empty()
    } else {
        match note_closed_at(events, count - 1) {
            Some(note) => track_notes(events, count - 1).push(note),
            None => track_notes(events, count - 1),
        }
    }
}

/// The notes of the first `count` tracks, track after track.
pub open spec fn file_notes(tracks: Seq<Seq<MidiEvent>>, count: int) -> Seq<NoteView>
    decreases count,
{
    if count <= 0 {
        Seq::empty()
    } else {
        file_notes(tracks, count - 1) + track_notes(
            tracks[count - 1],
            tracks[count - 1].len() as int,
        )
    }
}

/// The key under which the pending note-on of `(channel, note)` is stored.
spec fn pending_key(channel: u8, note: u8) -> u16 {
    (channel * 0x100 + note) as u16
}

/// The store of pending note-ons holds, for every pair, exactly the note-on
/// that `pending_on` names, with its velocity and its tick.
spec fn store_matches(store: Map<u16, (u8, u128)>, events: Seq<MidiEvent>, count: int) -> bool {
    forall|channel: u8, note: u8|
        match #[trigger] pending_on(events, count, channel, note) {
            Some(on) => store.contains_key(pending_key(channel, note)) && store[pending_key(
                channel,
                note,
            )] == (events[on]->velocity, ticks_after(events, on + 1) as u128),
            None => !store.contains_key(pending_key(channel, note)),
        }
}

/// The store after message `index`, given the store before it.
spec fn store_after(store: Map<u16, (u8, u128)>, events: Seq<MidiEvent>, index: int) -> Map<
    u16,
    (u8, u128),
> {
    match events[index] {
        MidiEvent::NoteOn { channel, note, velocity, .. } => store.insert(
            pending_key(channel, note),
            (velocity, ticks_after(events, index + 1) as u128),
        ),
        MidiEvent::NoteOff { channel, note, .. } => store.remove(pending_key(channel, note)),
        _ => store,
    }
}

proof fn lemma_store_step(store: Map<u16, (u8, u128)>, events: Seq<MidiEvent>, index: int)
    requires
        0 <= index < events.len(),
        store_matches(store, events, index),
    ensures
        store_matches(store_after(store, events, index), events, index + 1),
{
    let after = store_after(store, events, index);
    assert forall|c: u8, n: u8|
        match #[trigger] pending_on(events, index + 1, c, n) {
            Some(on) => after.contains_key(pending_key(c, n)) && after[pending_key(c, n)] == (
                events[on]->velocity,
                ticks_after(events, on + 1) as u128,
            ),
            None => !after.contains_key(pending_key(c, n)),
        } by {
        let _ = pending_on(events, index, c, n);
    }
}

/// A pending note-on is a note-on of that pair among the messages passed.
pub proof fn lemma_pending_is_note_on(events: Seq<MidiEvent>, count: int, channel: u8, note: u8)
    requires
        count <= events.len(),
    ensures
        pending_on(events, count, channel, note) matches Some(on) ==> {
            &&& 0 <= on < count
            &&& events[on] matches MidiEvent::NoteOn { channel: c, note: n, .. }
            &&& c == channel
            &&& n == note
        },
    decreases count,
{
    if count > 0 {
        lemma_pending_is_note_on(events, count - 1, channel, note);
    }
}

/// Last writer wins: the pending note-on of a pair is the latest message
/// that touched the pair, provided that message is a note-on. An earlier
/// note-on of the same pair that was never released is forgotten.
pub proof fn lemma_pending_is_latest(
    events: Seq<MidiEvent>,
    count: int,
    channel: u8,
    note: u8,
    on: int,
)
    requires
        count <= events.len(),
    ensures
        pending_on(events, count, channel, note) == Some(on) <==> {
            &&& 0 <= on < count
            &&& events[on] is NoteOn
            &&& touches(events[on], channel, note)
            &&& forall|k: int| on < k < count ==> !touches(#[trigger] events[k], channel, note)
        },
    decreases count,
{
    if count > 0 {
        lemma_pending_is_latest(events, count - 1, channel, note, on);
        lemma_pending_is_note_on(events, count - 1, channel, note);
        if touches(events[count - 1], channel, note) {
            if on < count - 1 {
                assert(!(forall|k: int|
                    on < k < count ==> !touches(#[trigger] events[k], channel, note)));
            }
        } else {
            if 0 <= on < count - 1 {
                assert((forall|k: int|
                    on < k < count ==> !touches(#[trigger] events[k], channel, note)) <==> (forall|
                    k: int,
                | on < k < count - 1 ==> !touches(#[trigger] events[k], channel, note)));
            }
        }
    }
}

/// A note-off completes the latest note-on of its pair, whatever came before
/// that note-on: the note starts at its tick and has its velocity.
pub proof fn lemma_note_starts_at_latest_note_on(events: Seq<MidiEvent>, on: int, off: int)
    requires
        0 <= on < off < events.len(),
        events[on] is NoteOn,
        events[off] matches MidiEvent::NoteOff { channel, note, .. } && touches(
            events[on],
            channel,
            note,
        ) && forall|k: int| on < k < off ==> !touches(#[trigger] events[k], channel, note),
        ticks_after(events, on + 1) < ticks_after(events, off + 1),
    ensures
        note_closed_at(events, off) matches Some(made) && made.start_tick == ticks_after(
            events,
            on + 1,
        ) && made.end_tick == ticks_after(events, off + 1) && made.velocity
            == events[on]->velocity && touches(events[off], made.channel, made.midi_note),
{
    match events[off] {
        MidiEvent::NoteOff { channel, note, .. } => {
            lemma_pending_is_latest(events, off, channel, note, on);
        },
        _ => {},
    }
}

/// Every note of the sequence has its channel, key and velocity in range.
pub open spec fn all_in_range(notes: Seq<NoteView>) -> bool {
    forall|i: int| 0 <= i < notes.len() ==> (#[trigger] notes[i]).in_range()
}

/// Notes made from well-formed messages are in range: the key and channel
/// come from a note-off, the velocity from a note-on.
pub proof fn lemma_track_notes_in_range(events: Seq<MidiEvent>, count: int)
    requires
        count <= events.len(),
        well_formed_events(events),
    ensures
        all_in_range(track_notes(events, count)),
    decreases count,
{
    if count > 0 {
        lemma_track_notes_in_range(events, count - 1);
        let earlier = track_notes(events, count - 1);
        let all = track_notes(events, count);
        match events[count - 1] {
            MidiEvent::NoteOff { channel, note, .. } => {
                lemma_pending_is_note_on(events, count - 1, channel, note);
            },
            _ => {},
        }
        assert forall|i: int| 0 <= i < all.len() implies (#[trigger] all[i]).in_range() by {
            if i < earlier.len() {
                assert(all[i] == earlier[i]);
            }
        }
    }
}

/// Notes made from the well-formed tracks of a file are in range.
pub proof fn lemma_file_notes_in_range(tracks: Seq<Seq<MidiEvent>>, count: int)
    requires
        count <= tracks.len(),
        well_formed_tracks(tracks),
    ensures
        all_in_range(file_notes(tracks, count)),
    decreases count,
{
    if count > 0 {
        lemma_file_notes_in_range(tracks, count - 1);
        let last = tracks[count - 1];
        lemma_track_notes_in_range(last, last.len() as int);
        let earlier = file_notes(tracks, count - 1);
        let added = track_notes(last, last.len() as int);
        let all = file_notes(tracks, count);
        assert forall|i: int| 0 <= i < all.len() implies (#[trigger] all[i]).in_range() by {
            if i < earlier.len() {
                assert(all[i] == earlier[i]);
            } else {
                assert(all[i] == added[i - earlier.len()]);
            }
        }
    }
}

/// Every note of the sequence lasts at least one tick.
pub open spec fn all_have_duration(notes: Seq<NoteView>) -> bool {
    forall|i: int| 0 <= i < notes.len() ==> (#[trigger] notes[i]).start_tick < notes[i].end_tick
}

/// Every note of a track lasts at least one tick.
pub proof fn lemma_track_notes_have_duration(events: Seq<MidiEvent>, count: int)
    ensures
        all_have_duration(track_notes(events, count)),
    decreases count,
{
    if count > 0 {
        lemma_track_notes_have_duration(events, count - 1);
        let earlier = track_notes(events, count - 1);
        let all = track_notes(events, count);
        assert forall|i: int| 0 <= i < all.len() implies (#[trigger] all[i]).start_tick
            < all[i].end_tick by {
            if i < earlier.len() {
                assert(all[i] == earlier[i]);
            }
        }
    }
}

/// Every note of a file lasts at least one tick.
pub proof fn lemma_file_notes_have_duration(tracks: Seq<Seq<MidiEvent>>, count: int)
    ensures
        all_have_duration(file_notes(tracks, count)),
    decreases count,
{
    if count > 0 {
        lemma_file_notes_have_duration(tracks, count - 1);
        let last = tracks[count - 1];
        lemma_track_notes_have_duration(last, last.len() as int);
        let earlier = file_notes(tracks, count - 1);
        let added = track_notes(last, last.len() as int);
        let all = file_notes(tracks, count);
        assert forall|i: int| 0 <= i < all.len() implies (#[trigger] all[i]).start_tick
            < all[i].end_tick by {
            if i < earlier.len() {
                assert(all[i] == earlier[i]);
            } else {
                assert(all[i] == added[i - earlier.len()]);
            }
        }
    }
}

/// Ticks never run backward, and `count` messages span at most
/// `count * (2^32 - 1)` ticks.
pub proof fn lemma_ticks_monotonic(events: Seq<MidiEvent>, earlier: int, later: int)
    requires
        earlier <= later,
    ensures
        ticks_after(events, earlier) <= ticks_after(events, later),
        later >= 0 ==> ticks_after(events, later) <= later * 0xFFFF_FFFF,
    decreases later,
{
    if later > 0 {
        if earlier < later {
            lemma_ticks_monotonic(events, earlier, later - 1);
        } else {
            lemma_ticks_monotonic(events, later - 1, later - 1);
        }
    }
}

fn store_key(channel: u8, note: u8) -> (key: u16)
    ensures
        key == pending_key(channel, note),
{
    channel as u16 * 0x100 + note as u16
}

/// Appends to `notes` the notes of one track.
pub fn append_track_notes(track: &MidiTrack, notes: &mut Vec<Note>)
    ensures
        note_views(final(notes)@) == note_views(old(notes)@) + track_notes(
            track@,
            track@.len() as int,
        ),
{
    broadcast use vstd::std_specs::hash::group_hash_axioms;

    let ghost earlier = note_views(notes@);
    let mut pending: HashMap<u16, (u8, u128)> = HashMap::new();
    let mut current_tick: u128 = 0;
    let mut i: usize = 0;
    while i < track.events.len()
        invariant
            i <= track@.len(),
            track@ == track.events@,
            current_tick == ticks_after(track@, i as int),
            current_tick <= i * 0xFFFF_FFFF,
            store_matches(pending@, track@, i as int),
            note_views(notes@) == earlier + track_notes(track@, i as int),
        decreases track@.len() - i,
    {
        let event: MidiEvent = track.events[i];
        let ghost made = notes@;
        proof {
            lemma_store_step(pending@, track@, i as int);
        }
        match event {
            MidiEvent::NoteOn { channel, note, velocity, time } => {
                current_tick = current_tick + time as u128;
                pending.insert(store_key(channel, note), (velocity, current_tick));
            },
            MidiEvent::NoteOff { channel, note, time } => {
                current_tick = current_tick + time as u128;
                match pending.remove(&store_key(channel, note)) {
                    Some((velocity, start_tick)) => {
                        if current_tick > start_tick {
                            let made_note = Note {
                                midi_note: note,
                                channel,
                                start_tick,
                                end_tick: current_tick,
                                velocity,
                            };
                            notes.push(made_note);
                            proof {
                                let on = pending_on(track@, i as int, channel, note)->0;
                                lemma_pending_is_note_on(track@, i as int, channel, note);
                                lemma_ticks_monotonic(track@, on + 1, i as int);
                                assert(note_views(notes@) == note_views(made).push(made_note@));
                            }
                        }
                    },
                    None => {},
                }
            },
            MidiEvent::ProgramChange { time, .. } => {
                current_tick = current_tick + time as u128;
            },
            MidiEvent::Unknown => {},
        }
        i += 1;
    }
}

/// Assembles the notes of every track of the file.
///
/// Within a track, a note-off completes the latest note-on of the same
/// channel and key that no note-off has completed yet; the pair becomes a
/// note if at least one tick lies between them. Note-ons left without a
/// note-off at the end of their track are dropped.
///
/// Where the messages are well formed, as those of a decoded file are, every
/// note has its channel in `0..16`, its key in `0..128` and its velocity in
/// `1..128`.
pub fn events_to_notes(midi_file: &MidiFile) -> (notes: Vec<Note>)
    ensures
        note_views(notes@) == file_notes(midi_file@.tracks, midi_file@.tracks.len() as int),
        forall|i: int|
            0 <= i < notes@.len() ==> (#[trigger] notes@[i]).start_tick < notes@[i].end_tick,
        well_formed_tracks(midi_file@.tracks) ==> forall|i: int|
            0 <= i < notes@.len() ==> (#[trigger] notes@[i]).channel < 16 && notes@[i].midi_note
                < 0x80 && 0 < notes@[i].velocity < 0x80,
{
    let mut notes: Vec<Note> = Vec::new();
    let mut t: usize = 0;
    assert(note_views(notes@) == Seq::<NoteView>::empty());
    while t < midi_file.tracks.len()
        invariant
            t <= midi_file.tracks@.len(),
            note_views(notes@) == file_notes(midi_file@.tracks, t as int),
        decreases midi_file.tracks@.len() - t,
    {
        append_track_notes(&midi_file.tracks[t], &mut notes);
        t += 1;
    }
    proof {
        lemma_file_notes_have_duration(midi_file@.tracks, t as int);
        assert forall|i: int| 0 <= i < notes@.len() implies (#[trigger] notes@[i]).start_tick
            < notes@[i].end_tick by {
            assert(note_views(notes@)[i] == notes@[i]@);
        }
        if well_formed_tracks(midi_file@.tracks) {
            lemma_file_notes_in_range(midi_file@.tracks, t as int);
            assert forall|i: int| 0 <= i < notes@.len() implies (#[trigger] notes@[i]).channel < 16
                && notes@[i].midi_note < 0x80 && 0 < notes@[i].velocity < 0x80 by {
                assert(note_views(notes@)[i] == notes@[i]@);
                assert(note_views(notes@)[i].in_range());
            }
        }
    }
    notes
}

} // verus!
