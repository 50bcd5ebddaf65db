use midi2chiptune::placement::place_samples;

#[test]
fn note_in_the_middle() {
    let wave = [1.0f64, 2.0, 3.0];
    assert_eq!(
        place_samples(&wave, 0.0, 2, 3, 7),
        vec![0.0, 0.0, 1.0, 2.0, 3.0, 0.0, 0.0]
    );
}

#[test]
fn note_at_the_start() {
    let wave = [5i16, 6];
    assert_eq!(place_samples(&wave, 0, 0, 2, 4), vec![5, 6, 0, 0]);
}

#[test]
fn note_is_cut_at_the_end_of_the_buffer() {
    let wave = [1u8, 2, 3, 4];
    assert_eq!(place_samples(&wave, 9, 3, 4, 5), vec![9, 9, 9, 1, 2]);
}

#[test]
fn note_that_starts_at_or_past_the_end_leaves_silence() {
    let wave = [1u8, 2, 3];
    assert_eq!(place_samples(&wave, 0, 4, 3, 4), vec![0, 0, 0, 0]);
    assert_eq!(place_samples(&wave, 0, 100, 3, 4), vec![0, 0, 0, 0]);
    assert_eq!(place_samples(&wave, 0, usize::MAX, usize::MAX, 4), vec![0, 0, 0, 0]);
}

#[test]
fn note_length_limits_what_is_copied() {
    let wave = [1u8, 2, 3, 4];
    assert_eq!(place_samples(&wave, 0, 1, 2, 6), vec![0, 1, 2, 0, 0, 0]);
    assert_eq!(place_samples(&wave, 0, 1, 0, 6), vec![0, 0, 0, 0, 0, 0]);
}

#[test]
fn waveform_length_limits_what_is_copied() {
    let wave = [1u8, 2];
    assert_eq!(place_samples(&wave, 0, 1, 4, 6), vec![0, 1, 2, 0, 0, 0]);
    assert_eq!(place_samples(&wave, 0, 1, usize::MAX, 6), vec![0, 1, 2, 0, 0, 0]);
    let nothing: [u8; 0] = [];
    assert_eq!(place_samples(&nothing, 7, 0, 4, 3), vec![7, 7, 7]);
}

#[test]
fn empty_buffer() {
    let wave = [1u8, 2];
    assert_eq!(place_samples(&wave, 0, 0, 2, 0), Vec::<u8>::new());
}
