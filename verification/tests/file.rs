use midi2chiptune::error::MidiError;
use midi2chiptune::event::MidiEvent;
use midi2chiptune::file::{parse_midi_file, read_midi_header};

fn header(format: u16, tracks: u16, ticks: u16) -> Vec<u8> {
    let mut data = b"MThd".to_vec();
    data.extend_from_slice(&6u32.to_be_bytes());
    data.extend_from_slice(&format.to_be_bytes());
    data.extend_from_slice(&tracks.to_be_bytes());
    data.extend_from_slice(&ticks.to_be_bytes());
    data
}

fn track(body: &[u8]) -> Vec<u8> {
    let mut data = b"MTrk".to_vec();
    data.extend_from_slice(&(body.len() as u32).to_be_bytes());
    data.extend_from_slice(body);
    data
}

#[test]
fn header_fields_are_read_in_order() {
    let data = header(1, 3, 480);
    let mut pos = 0usize;
    assert_eq!(read_midi_header(&data, &mut pos), Ok((1, 3, 480)));
    assert_eq!(pos, 14);
}

#[test]
fn header_fields_keep_all_sixteen_bits() {
    let data = header(0xFFFE, 0x8001, 0x1234);
    let mut pos = 0usize;
    assert_eq!(read_midi_header(&data, &mut pos), Ok((0xFFFE, 0x8001, 0x1234)));
}

#[test]
fn header_is_read_from_the_given_position() {
    let mut data = vec![0u8; 5];
    data.extend_from_slice(&header(0, 1, 96));
    let mut pos = 5usize;
    assert_eq!(read_midi_header(&data, &mut pos), Ok((0, 1, 96)));
    assert_eq!(pos, 19);
}

#[test]
fn header_with_wrong_tag_is_invalid() {
    let mut data = header(0, 1, 480);
    data[3] = b'x';
    let mut pos = 0usize;
    assert_eq!(read_midi_header(&data, &mut pos), Err(MidiError::InvalidHeader));
    assert_eq!(pos, 0);
    // A track tag is no header tag.
    let mut data = header(0, 1, 480);
    data[..4].copy_from_slice(b"MTrk");
    let mut pos = 0usize;
    assert_eq!(read_midi_header(&data, &mut pos), Err(MidiError::InvalidHeader));
    assert_eq!(pos, 0);
}

#[test]
fn header_with_wrong_length_is_invalid() {
    for length in [0u32, 5, 7, 0x0600_0000, 0xFFFF_FFFF] {
        let mut data = header(0, 1, 480);
        data[4..8].copy_from_slice(&length.to_be_bytes());
        let mut pos = 0usize;
        assert_eq!(read_midi_header(&data, &mut pos), Err(MidiError::InvalidHeader));
        assert_eq!(pos, 8);
    }
}

#[test]
fn header_cut_short_is_invalid() {
    let whole = header(0, 1, 480);
    for len in 0..14 {
        let mut pos = 0usize;
        assert_eq!(read_midi_header(&whole[..len], &mut pos), Err(MidiError::InvalidHeader));
        let expected = if len < 4 {
            0
        } else if len < 8 {
            4
        } else {
            8
        };
        assert_eq!(pos, expected);
    }
    let mut pos = usize::MAX;
    assert_eq!(read_midi_header(&whole, &mut pos), Err(MidiError::InvalidHeader));
    assert_eq!(pos, usize::MAX);
}

#[test]
fn file_with_two_tracks() {
    let mut data = header(1, 2, 96);
    data.extend_from_slice(&track(&[0x00, 0x90, 60, 100, 0x60, 0x80, 60, 0]));
    data.extend_from_slice(&track(&[0x00, 0xC5, 3]));
    let file = parse_midi_file(&data).unwrap();
    assert_eq!(file.format, 1);
    assert_eq!(file.track_count, 2);
    assert_eq!(file.ticks_per_quarter, 96);
    assert_eq!(file.tracks.len(), 2);
    assert_eq!(
        file.tracks[0].events,
        vec![
            MidiEvent::NoteOn { channel: 0, note: 60, velocity: 100, time: 0 },
            MidiEvent::NoteOff { channel: 0, note: 60, time: 0x60 },
        ]
    );
    assert_eq!(
        file.tracks[1].events,
        vec![MidiEvent::ProgramChange { channel: 5, program: 3, time: 0 }]
    );
}

#[test]
fn file_with_bad_header_is_rejected() {
    let mut data = header(1, 1, 96);
    data[0] = b'X';
    data.extend_from_slice(&track(&[0x00, 0x90, 60, 100]));
    assert_eq!(parse_midi_file(&data).unwrap_err(), MidiError::InvalidHeader);
    assert_eq!(parse_midi_file(&[]).unwrap_err(), MidiError::InvalidHeader);
    assert_eq!(parse_midi_file(b"MThd").unwrap_err(), MidiError::InvalidHeader);
}

#[test]
fn file_announcing_more_tracks_than_it_holds() {
    let mut data = header(1, 5, 96);
    data.extend_from_slice(&track(&[0x00, 0xC0, 1]));
    let file = parse_midi_file(&data).unwrap();
    assert_eq!(file.track_count, 5);
    assert_eq!(file.tracks.len(), 1);
}

#[test]
fn file_announcing_fewer_tracks_than_it_holds() {
    let mut data = header(1, 1, 96);
    data.extend_from_slice(&track(&[0x00, 0xC0, 1]));
    data.extend_from_slice(&track(&[0x00, 0xC0, 2]));
    let file = parse_midi_file(&data).unwrap();
    assert_eq!(file.tracks.len(), 1);
    assert_eq!(
        file.tracks[0].events,
        vec![MidiEvent::ProgramChange { channel: 0, program: 1, time: 0 }]
    );
}

#[test]
fn file_without_tracks() {
    let data = header(0, 0, 480);
    let file = parse_midi_file(&data).unwrap();
    assert!(file.tracks.is_empty());
}

#[test]
fn unreadable_track_is_dropped_and_blocks_those_behind_it() {
    let mut data = header(1, 3, 96);
    data.extend_from_slice(&track(&[0x00, 0xC0, 1]));
    data.extend_from_slice(b"Junk\x00\x00\x00\x03\x00\xC0\x02");
    data.extend_from_slice(&track(&[0x00, 0xC0, 3]));
    let file = parse_midi_file(&data).unwrap();
    assert_eq!(file.track_count, 3);
    assert_eq!(file.tracks.len(), 1);
    assert_eq!(
        file.tracks[0].events,
        vec![MidiEvent::ProgramChange { channel: 0, program: 1, time: 0 }]
    );
}

#[test]
fn next_track_is_sought_where_the_last_message_ended() {
    // The first chunk announces more than its messages fill: one stray byte follows
    // them. It is read as a delay with nothing behind it, so the second chunk is
    // found right after.
    let mut data = header(1, 2, 96);
    let mut first = track(&[0x00, 0xC0, 1]);
    first[7] = 3;
    data.extend_from_slice(&first);
    data.extend_from_slice(&track(&[0x00, 0xC0, 2]));
    let file = parse_midi_file(&data).unwrap();
    assert_eq!(file.tracks.len(), 2);

    // A chunk that announces less than it holds leaves the position inside itself.
    let mut data = header(1, 2, 96);
    let mut first = track(&[0x00, 0xC0, 1, 0x00, 0xC0, 9]);
    first[7] = 3;
    data.extend_from_slice(&first);
    data.extend_from_slice(&track(&[0x00, 0xC0, 2]));
    let file = parse_midi_file(&data).unwrap();
    assert_eq!(file.tracks.len(), 1);
    assert_eq!(
        file.tracks[0].events,
        vec![MidiEvent::ProgramChange { channel: 0, program: 1, time: 0 }]
    );
}
