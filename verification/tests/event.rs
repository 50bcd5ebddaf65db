use midi2chiptune::event::{parse_midi_event, MidiEvent};

fn decode(data: &[u8], start: usize, running: u8, delta: u32) -> (MidiEvent, usize, u8) {
    let mut pos = start;
    let mut status = running;
    let event = parse_midi_event(data, &mut pos, &mut status, delta).unwrap();
    (event, pos, status)
}

#[test]
fn note_on_with_status_byte() {
    let data = [0x93u8, 60, 100];
    assert_eq!(
        decode(&data, 0, 0, 7),
        (MidiEvent::NoteOn { channel: 3, note: 60, velocity: 100, time: 7 }, 3, 0x93)
    );
}

#[test]
fn note_on_with_zero_velocity_is_a_note_off() {
    let data = [0x90u8, 60, 0];
    assert_eq!(
        decode(&data, 0, 0, 10),
        (MidiEvent::NoteOff { channel: 0, note: 60, time: 10 }, 3, 0x90)
    );
}

#[test]
fn note_off_discards_its_velocity() {
    let data = [0x8Fu8, 72, 64, 0xAA];
    assert_eq!(
        decode(&data, 0, 0, 480),
        (MidiEvent::NoteOff { channel: 15, note: 72, time: 480 }, 3, 0x8F)
    );
}

#[test]
fn program_change_has_one_data_byte() {
    let data = [0xC2u8, 5, 99];
    assert_eq!(
        decode(&data, 0, 0, 0),
        (MidiEvent::ProgramChange { channel: 2, program: 5, time: 0 }, 2, 0xC2)
    );
}

#[test]
fn running_status_reuses_the_previous_status() {
    let data = [64u8, 90];
    assert_eq!(
        decode(&data, 0, 0x91, 3),
        (MidiEvent::NoteOn { channel: 1, note: 64, velocity: 90, time: 3 }, 2, 0x91)
    );
    let data = [64u8, 0];
    assert_eq!(
        decode(&data, 0, 0x91, 3),
        (MidiEvent::NoteOff { channel: 1, note: 64, time: 3 }, 2, 0x91)
    );
    let data = [9u8];
    assert_eq!(
        decode(&data, 0, 0xC4, 1),
        (MidiEvent::ProgramChange { channel: 4, program: 9, time: 1 }, 1, 0xC4)
    );
}

#[test]
fn data_bytes_give_their_low_seven_bits() {
    // A byte with its high bit set in the place of a data byte loses that bit.
    let data = [0x90u8, 0x90, 0x40];
    assert_eq!(
        decode(&data, 0, 0, 0),
        (MidiEvent::NoteOn { channel: 0, note: 0x10, velocity: 0x40, time: 0 }, 3, 0x90)
    );
    let data = [0x90u8, 0xFF, 0x40];
    assert_eq!(
        decode(&data, 0, 0, 7),
        (MidiEvent::NoteOn { channel: 0, note: 127, velocity: 0x40, time: 7 }, 3, 0x90)
    );
    let data = [0x95u8, 60, 0xFF];
    assert_eq!(
        decode(&data, 0, 0, 0),
        (MidiEvent::NoteOn { channel: 5, note: 60, velocity: 127, time: 0 }, 3, 0x95)
    );
    let data = [0x81u8, 0x80, 0xFF];
    assert_eq!(
        decode(&data, 0, 0, 0),
        (MidiEvent::NoteOff { channel: 1, note: 0, time: 0 }, 3, 0x81)
    );
    let data = [0xC3u8, 0xFF];
    assert_eq!(
        decode(&data, 0, 0, 0),
        (MidiEvent::ProgramChange { channel: 3, program: 127, time: 0 }, 2, 0xC3)
    );
    let data = [0xC3u8, 0x80];
    assert_eq!(
        decode(&data, 0, 0, 0),
        (MidiEvent::ProgramChange { channel: 3, program: 0, time: 0 }, 2, 0xC3)
    );
}

#[test]
fn velocity_without_low_bits_is_a_note_off() {
    let data = [0x92u8, 60, 0x80];
    assert_eq!(
        decode(&data, 0, 0, 4),
        (MidiEvent::NoteOff { channel: 2, note: 60, time: 4 }, 3, 0x92)
    );
    // The nearest velocities on either side stay note-ons.
    let data = [0x92u8, 60, 0x81];
    assert_eq!(
        decode(&data, 0, 0, 4),
        (MidiEvent::NoteOn { channel: 2, note: 60, velocity: 1, time: 4 }, 3, 0x92)
    );
    let data = [0x92u8, 60, 0x7F];
    assert_eq!(
        decode(&data, 0, 0, 4),
        (MidiEvent::NoteOn { channel: 2, note: 60, velocity: 127, time: 4 }, 3, 0x92)
    );
}

#[test]
fn largest_proper_data_bytes_are_kept_whole() {
    let data = [0x9Fu8, 127, 127];
    assert_eq!(
        decode(&data, 0, 0, 0),
        (MidiEvent::NoteOn { channel: 15, note: 127, velocity: 127, time: 0 }, 3, 0x9F)
    );
    let data = [0x8Fu8, 127, 127];
    assert_eq!(
        decode(&data, 0, 0, 0),
        (MidiEvent::NoteOff { channel: 15, note: 127, time: 0 }, 3, 0x8F)
    );
    let data = [0xCFu8, 127];
    assert_eq!(
        decode(&data, 0, 0, 0),
        (MidiEvent::ProgramChange { channel: 15, program: 127, time: 0 }, 2, 0xCF)
    );
}

#[test]
fn every_decoded_message_is_in_range() {
    // All statuses against all pairs of data bytes that have their high bits set
    // or clear at the extremes.
    let extremes = [0x00u8, 0x01, 0x7F, 0x80, 0x81, 0xFF];
    for status in 0x80..=0xFFu8 {
        for &first in &extremes {
            for &second in &extremes {
                let data = [status, first, second];
                let (event, pos, _) = decode(&data, 0, 0, 9);
                assert!(pos <= 3 + 0xFF);
                match event {
                    MidiEvent::NoteOn { channel, note, velocity, time } => {
                        assert!(channel <= 15 && note <= 127 && time == 9);
                        assert!((1..=127).contains(&velocity));
                        assert_eq!(channel, status & 0x0F);
                    }
                    MidiEvent::NoteOff { channel, note, time } => {
                        assert!(channel <= 15 && note <= 127 && time == 9);
                        assert_eq!(channel, status & 0x0F);
                    }
                    MidiEvent::ProgramChange { channel, program, time } => {
                        assert!(channel <= 15 && program <= 127 && time == 9);
                        assert_eq!(channel, status & 0x0F);
                    }
                    MidiEvent::Unknown => {}
                }
            }
        }
    }
}

#[test]
fn meta_event_is_skipped_with_its_payload() {
    // Tempo meta event: FF 51 03 tt tt tt.
    let data = [0xFFu8, 0x51, 0x03, 0x07, 0xA1, 0x20, 0x90];
    assert_eq!(decode(&data, 0, 0x90, 0), (MidiEvent::Unknown, 6, 0xFF));
    // End of track: FF 2F 00.
    let data = [0xFFu8, 0x2F, 0x00];
    assert_eq!(decode(&data, 0, 0, 0), (MidiEvent::Unknown, 3, 0xFF));
}

#[test]
fn meta_event_length_may_point_past_the_buffer() {
    let data = [0xFFu8, 0x01, 0x7F, 0x00];
    assert_eq!(decode(&data, 0, 0, 0), (MidiEvent::Unknown, 3 + 127, 0xFF));
    let data = [0xFFu8, 0x01, 0xFF, 0xFF, 0xFF, 0xFF, 0x7F];
    assert_eq!(decode(&data, 0, 0, 0), (MidiEvent::Unknown, 7 + 0xFFFF_FFFF, 0xFF));
}

#[test]
fn meta_event_cut_short() {
    // No type byte.
    let data = [0xFFu8];
    assert_eq!(decode(&data, 0, 0, 0), (MidiEvent::Unknown, 1, 0xFF));
    // Type byte, no length.
    let data = [0xFFu8, 0x51];
    assert_eq!(decode(&data, 0, 0, 0), (MidiEvent::Unknown, 2, 0xFF));
    // Length never terminates.
    let data = [0xFFu8, 0x51, 0x81, 0x82];
    assert_eq!(decode(&data, 0, 0, 0), (MidiEvent::Unknown, 4, 0xFF));
}

#[test]
fn two_data_bytes_are_skipped_for_other_classes() {
    for status in [0xA0u8, 0xB7, 0xE3, 0xF0, 0xF7, 0xFE] {
        let data = [status, 1, 2, 3];
        assert_eq!(decode(&data, 0, 0, 0), (MidiEvent::Unknown, 3, status));
        let data = [status, 1];
        assert_eq!(decode(&data, 0, 0, 0), (MidiEvent::Unknown, 2, status));
        let data = [status];
        assert_eq!(decode(&data, 0, 0, 0), (MidiEvent::Unknown, 1, status));
    }
}

#[test]
fn channel_pressure_skips_one_data_byte() {
    let data = [0xD5u8, 1, 2, 3];
    assert_eq!(decode(&data, 0, 0, 0), (MidiEvent::Unknown, 2, 0xD5));
    let data = [0xD5u8];
    assert_eq!(decode(&data, 0, 0, 0), (MidiEvent::Unknown, 1, 0xD5));
    // The same under running status: the first byte is the data byte.
    let data = [1u8, 2, 3];
    assert_eq!(decode(&data, 0, 0xD5, 0), (MidiEvent::Unknown, 1, 0xD5));
}

#[test]
fn running_status_of_an_other_class_skips_from_the_first_byte() {
    let data = [1u8, 2, 3];
    assert_eq!(decode(&data, 0, 0xB0, 0), (MidiEvent::Unknown, 2, 0xB0));
}

#[test]
fn data_byte_without_any_status_consumes_nothing() {
    let data = [0x40u8, 0x41];
    assert_eq!(decode(&data, 0, 0, 0), (MidiEvent::Unknown, 0, 0));
    assert_eq!(decode(&data, 1, 0x7F, 0), (MidiEvent::Unknown, 1, 0x7F));
}

#[test]
fn notes_cut_short_are_unknown() {
    let data = [0x90u8, 60];
    assert_eq!(decode(&data, 0, 0, 0), (MidiEvent::Unknown, 1, 0x90));
    let data = [0x90u8];
    assert_eq!(decode(&data, 0, 0, 0), (MidiEvent::Unknown, 1, 0x90));
    let data = [0x80u8, 60];
    assert_eq!(decode(&data, 0, 0, 0), (MidiEvent::Unknown, 1, 0x80));
    let data = [0xC0u8];
    assert_eq!(decode(&data, 0, 0, 0), (MidiEvent::Unknown, 1, 0xC0));
    // Under running status nothing at all is consumed.
    let data = [60u8];
    assert_eq!(decode(&data, 0, 0x90, 0), (MidiEvent::Unknown, 0, 0x90));
}

#[test]
fn position_at_or_past_the_end_changes_nothing() {
    let data = [0x90u8, 60, 100];
    assert_eq!(decode(&data, 3, 0x85, 9), (MidiEvent::Unknown, 3, 0x85));
    assert_eq!(decode(&data, 10, 0x85, 9), (MidiEvent::Unknown, 10, 0x85));
}

#[test]
fn decoding_starts_at_the_given_position() {
    let data = [0xFFu8, 0xFF, 0x82, 61, 0x30, 0x00];
    assert_eq!(
        decode(&data, 2, 0, 0xFFFF_FFFF),
        (MidiEvent::NoteOff { channel: 2, note: 61, time: 0xFFFF_FFFF }, 5, 0x82)
    );
}
