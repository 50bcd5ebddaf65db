//! Decoding of a single MIDI channel or meta message.

use vstd::prelude::*;
use crate::error::MidiError;
use crate::vlq::{lemma_vlq_end_bounds, read_vlq, vlq_at, vlq_stop};

verus! {

/// One message of a track. `time` is the delay in ticks since the message
/// before it, not an absolute time.
#[derive(Clone, Copy, Debug, PartialEq, Eq, Structural)]
pub enum MidiEvent {
    /// A key was pressed.
    NoteOn { channel: u8, note: u8, velocity: u8, time: u32 },
    /// A key was released.
    NoteOff { channel: u8, note: u8, time: u32 },
    /// The channel switched instruments.
    ProgramChange { channel: u8, program: u8, time: u32 },
    /// Any other message, or one cut short by the end of the buffer.
    Unknown,
}

impl MidiEvent {
    /// Key, velocity and program number lie in `0..128`.
    pub open spec fn in_data_range(self) -> bool {
        match self {
            MidiEvent::NoteOn { note, velocity, .. } => note < 0x80 && velocity < 0x80,
            MidiEvent::NoteOff { note, .. } => note < 0x80,
            MidiEvent::ProgramChange { program, .. } => program < 0x80,
            MidiEvent::Unknown => true,
        }
    }

    /// The channel lies in `0..16`; key, velocity and program number lie in
    /// `0..128`; and a note-on has a velocity above zero.
    pub open spec fn well_formed(self) -> bool {
        &&& self.in_data_range()
        &&& match self {
            MidiEvent::NoteOn { channel, velocity, .. } => channel < 16 && velocity > 0,
            MidiEvent::NoteOff { channel, .. } => channel < 16,
            MidiEvent::ProgramChange { channel, .. } => channel < 16,
            MidiEvent::Unknown => true,
        }
    }

    /// The delay in ticks that the message carries; `Unknown` carries none.
    pub open spec fn delta(self) -> nat {
        match self {
            MidiEvent::NoteOn { time, .. } => time as nat,
            MidiEvent::NoteOff { time, .. } => time as nat,
            MidiEvent::ProgramChange { time, .. } => time as nat,
            MidiEvent::Unknown => 0,
        }
    }
}

/// What decoding one message yields: the message, the position after it, and
/// the status byte that a following message may reuse.
pub struct Decoded {
    pub event: MidiEvent,
    pub pos: int,
    pub status: u8,
}

/// How many data bytes are skipped for a message that is neither a note, a
/// program change nor a meta event, when `available` bytes are left: one
/// where the status lies in `0xC0..=0xDF`, which leaves channel pressure
/// here, two for every other status, and never more than there are.
pub open spec fn skipped_data_bytes(status: u8, available: int) -> int {
    let wanted: int = if 0xC0 <= status <= 0xDF {
        1
    } else {
        2
    };
    if available < wanted {
        available
    } else {
        wanted
    }
}

/// The value that a data byte carries: its low seven bits. The high bit of
/// a proper data byte is clear; where a stray byte has it set, the bit is
/// dropped, so that every value lies in `0..128`.
pub open spec fn data_value(byte: u8) -> u8 {
    byte % 0x80
}

/// The position `count` bytes after `pos`, except that a skip stops at the
/// largest position that the machine can hold.
pub open spec fn skip_to(pos: int, count: int) -> int {
    if pos + count <= usize::MAX {
        pos + count
    } else if pos <= usize::MAX {
        usize::MAX as int
    } else {
        pos
    }
}

/// The message that starts at `pos`, given the running status and the delay
/// that was read in front of it.
///
/// A first byte with its high bit set is the status byte and is consumed;
/// otherwise `running` is the status and the byte is the first data byte.
/// Key, velocity and program number are the values of their data bytes, and
/// a note-on whose velocity has the value zero is a note-off.
pub open spec fn event_at(data: Seq<u8>, pos: int, running: u8, delta: u32) -> Decoded {
    if pos < 0 || pos >= data.len() {
        Decoded { event: MidiEvent::Unknown, pos, status: running }
    } else {
        let status = if data[pos] >= 0x80 {
            data[pos]
        } else {
            running
        };
        let p = if data[pos] >= 0x80 {
            pos + 1
        } else {
            pos
        };
        let channel = status % 16;
        let cut_short = Decoded { event: MidiEvent::Unknown, pos: p, status };
        if 0x90 <= status <= 0x9F {
            if p + 1 >= data.len() {
                cut_short
            } else if data_value(data[p + 1]) == 0 {
                Decoded {
                    event: MidiEvent::NoteOff { channel, note: data_value(data[p]), time: delta },
                    pos: p + 2,
                    status,
                }
            } else {
                Decoded {
                    event: MidiEvent::NoteOn {
                        channel,
                        note: data_value(data[p]),
                        velocity: data_value(data[p + 1]),
                        time: delta,
                    },
                    pos: p + 2,
                    status,
                }
            }
        } else if 0x80 <= status <= 0x8F {
            if p + 1 >= data.len() {
                cut_short
            } else {
                Decoded {
                    event: MidiEvent::NoteOff { channel, note: data_value(data[p]), time: delta },
                    pos: p + 2,
                    status,
                }
            }
        } else if 0xC0 <= status <= 0xCF {
            if p >= data.len() {
                cut_short
            } else {
                Decoded {
                    event: MidiEvent::ProgramChange {
                        channel,
                        program: data_value(data[p]),
                        time: delta,
                    },
                    pos: p + 1,
                    status,
                }
            }
        } else if status == 0xFF {
            if p >= data.len() {
                cut_short
            } else {
                let after = match vlq_at(data, p + 1) {
                    Some((length, body)) => skip_to(body, length as int),
                    None => vlq_stop(data, p + 1),
                };
                Decoded { event: MidiEvent::Unknown, pos: after, status }
            }
        } else if status >= 0x80 {
            Decoded {
                event: MidiEvent::Unknown,
                pos: p + skipped_data_bytes(status, data.len() - p),
                status,
            }
        } else {
            cut_short
        }
    }
}

proof fn lemma_data_value(byte: u8)
    ensures
        (byte & 0x7F) == data_value(byte),
        data_value(byte) < 0x80,
{
    assert((byte & 0x7F) == byte % 0x80) by (bit_vector);
}

proof fn lemma_status_classes(status: u8)
    ensures
        (status & 0xF0) == 0x90 <==> 0x90 <= status <= 0x9F,
        (status & 0xF0) == 0x80 <==> 0x80 <= status <= 0x8F,
        (status & 0xF0) == 0xC0 <==> 0xC0 <= status <= 0xCF,
        (status & 0x0F) == status % 16,
        (status & 0xE0) == 0xC0 <==> 0xC0 <= status <= 0xDF,
        (status & 0xE0) != 0xD0,
{
    assert((status & 0xF0) == 0x90 <==> 0x90 <= status <= 0x9F) by (bit_vector);
    assert((status & 0xF0) == 0x80 <==> 0x80 <= status <= 0x8F) by (bit_vector);
    assert((status & 0xF0) == 0xC0 <==> 0xC0 <= status <= 0xCF) by (bit_vector);
    assert((status & 0x0F) == status % 16) by (bit_vector);
    assert((status & 0xE0) == 0xC0 <==> 0xC0 <= status <= 0xDF) by (bit_vector);
    assert((status & 0xE0) != 0xD0) by (bit_vector);
}

/// Decoding never moves the position backward, and whatever the bytes are
/// it yields a well-formed message that carries the given delay.
pub proof fn lemma_event_bounds(data: Seq<u8>, pos: int, running: u8, delta: u32)
    ensures
        event_at(data, pos, running, delta).pos >= pos,
        event_at(data, pos, running, delta).event.well_formed(),
        event_at(data, pos, running, delta).event !is Unknown ==> event_at(
            data,
            pos,
            running,
            delta,
        ).event.delta() == delta,
{
    if 0 <= pos < data.len() {
        let p = if data[pos] >= 0x80 {
            pos + 1
        } else {
            pos
        };
        lemma_vlq_end_bounds(data, p + 1);
    }
}

/// Decodes the message at `*pos`, advancing `*pos` past it and recording its
/// status byte in `*running_status` when it brings one.
///
/// The result is always `Ok`: a message that the buffer cuts short, and every
/// message that is not a note or a program change, comes back as `Unknown`.
/// Of each data byte the low seven bits are taken, so key, velocity and
/// program number never leave `0..128`.
pub fn parse_midi_event(
    data: &[u8],
    pos: &mut usize,
    running_status: &mut u8,
    delta_time: u32,
) -> (r: Result<MidiEvent, MidiError>)
    ensures
        r == Ok::<MidiEvent, MidiError>(
            event_at(data@, *old(pos) as int, *old(running_status), delta_time).event,
        ),
        *final(pos) == event_at(data@, *old(pos) as int, *old(running_status), delta_time).pos,
        *final(running_status) == event_at(
            data@,
            *old(pos) as int,
            *old(running_status),
            delta_time,
        ).status,
        r matches Ok(event) && event.well_formed(),
{
    proof {
        lemma_event_bounds(data@, *pos as int, *running_status, delta_time);
    }
    if *pos >= data.len() {
        return Ok(MidiEvent::Unknown);
    }
    let first_byte: u8 = data[*pos];
    if first_byte >= 0x80 {
        *running_status = first_byte;
        *pos += 1;
    }
    let status: u8 = *running_status;
    let event_type: u8 = status & 0xF0;
    let channel: u8 = status & 0x0F;
    proof {
        lemma_status_classes(status);
    }
    if event_type == 0x90 {
        if data.len() - *pos < 2 {
            return Ok(MidiEvent::Unknown);
        }
        let note: u8 = data[*pos] & 0x7F;
        let velocity: u8 = data[*pos + 1] & 0x7F;
        proof {
            lemma_data_value(data@[*pos as int]);
            lemma_data_value(data@[*pos + 1]);
        }
        *pos += 2;
        if velocity == 0 {
            Ok(MidiEvent::NoteOff { channel, note, time: delta_time })
        } else {
            Ok(MidiEvent::NoteOn { channel, note, velocity, time: delta_time })
        }
    } else if event_type == 0x80 {
        if data.len() - *pos < 2 {
            return Ok(MidiEvent::Unknown);
        }
        let note: u8 = data[*pos] & 0x7F;
        proof {
            lemma_data_value(data@[*pos as int]);
        }
        *pos += 2;
        Ok(MidiEvent::NoteOff { channel, note, time: delta_time })
    } else if event_type == 0xC0 {
        if *pos >= data.len() {
            return Ok(MidiEvent::Unknown);
        }
        let program: u8 = data[*pos] & 0x7F;
        proof {
            lemma_data_value(data@[*pos as int]);
        }
        *pos += 1;
        Ok(MidiEvent::ProgramChange { channel, program, time: delta_time })
    } else {
        if status == 0xFF {
            if *pos >= data.len() {
                return Ok(MidiEvent::Unknown);
            }
            *pos += 1;
            proof {
                lemma_vlq_end_bounds(data@, *pos as int);
            }
            match read_vlq(data, pos) {
                Ok(length) => {
                    *pos = pos.saturating_add(length as usize);
                },
                Err(_) => {},
            }
        } else if status >= 0x80 {
            if *pos < data.len() {
                *pos += 1;
                if (status & 0xE0) != 0xC0 && (status & 0xE0) != 0xD0 {
                    if *pos < data.len() {
                        *pos += 1;
                    }
                }
            }
        }
        Ok(MidiEvent::Unknown)
    }
}

} // verus!
