//! Failures reported while decoding a MIDI byte stream.

use vstd::prelude::*;

verus! {

/// Why a MIDI byte stream, or one part of it, could not be decoded.
#[derive(Clone, Copy, Debug, PartialEq, Eq, Structural)]
pub enum MidiError {
    /// The header chunk does not start with `MThd`, its length field is not 6,
    /// or the buffer ends inside it. Nothing of the file can be used.
    InvalidHeader,
    /// A track chunk header is missing or does not start with `MTrk`. The
    /// track is dropped; the tracks after it are still read.
    TrackReadFailure,
    /// The buffer ended in the middle of a variable-length quantity.
    UnexpectedEof,
}

} // verus!
