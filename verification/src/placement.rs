//! Placing a rendered note inside a buffer that spans the whole piece.

use vstd::prelude::*;

verus! {

/// Whether sample `index` of the piece is written by a note that begins at
/// sample `start`, lasts `note_samples` samples and has `rendered` samples
/// of waveform to offer.
pub open spec fn in_note_span(index: int, start: int, note_samples: int, rendered: int) -> bool {
    start <= index < start + note_samples && index - start < rendered
}

/// A buffer of `total` samples that holds the waveform from sample `start`
/// on, for at most `note_samples` samples, and `silence` everywhere else.
/// What would fall beyond `total` is cut off.
pub open spec fn placed<T>(
    waveform: Seq<T>,
    silence: T,
    start: int,
    note_samples: int,
    total: int,
) -> Seq<T> {
    Seq::new(
        total as nat,
        |i: int|
            if in_note_span(i, start, note_samples, waveform.len() as int) {
                waveform[i - start]
            } else {
                silence
            },
    )
}

/// Builds the buffer of one note: `total_samples` long, silent but for the
/// note's waveform at its offset.
pub fn place_samples<T: Copy>(
    waveform: &[T],
    silence: T,
    start_sample: usize,
    note_samples: usize,
    total_samples: usize,
) -> (buffer: Vec<T>)
    ensures
        buffer@ == placed(
            waveform@,
            silence,
            start_sample as int,
            note_samples as int,
            total_samples as int,
        ),
        buffer@.len() == total_samples,
{
    let mut buffer: Vec<T> = Vec::new();
    let mut i: usize = 0;
    while i < total_samples
        invariant
            i <= total_samples,
            buffer@ == placed(
                waveform@,
                silence,
                start_sample as int,
                note_samples as int,
                i as int,
            ),
        decreases total_samples - i,
    {
        if i >= start_sample && i - start_sample < note_samples && i - start_sample
            < waveform.len() {
            buffer.push(waveform[i - start_sample]);
        } else {
            buffer.push(silence);
        }
        i += 1;
    }
    buffer
}

} // verus!
