//! Conversion of Standard MIDI Files into console-style chiptune audio.
//!
//! The library covers the integer side of the pipeline: decoding the MIDI
//! container, pairing note-on and note-off events into timed notes, choosing
//! a voice for each channel, the shift-register noise source, placing a
//! rendered note inside the master buffer, and framing 16-bit PCM samples as
//! a WAV file. Every function carries a contract over a mathematical model of
//! its data.

pub mod error;
pub mod bytes;
pub mod vlq;
pub mod event;
pub mod track;
pub mod file;
pub mod notes;
pub mod voice;
pub mod placement;
pub mod wave;
