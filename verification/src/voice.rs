//! The four voices of the sound chip and the rule that assigns one to each
//! MIDI channel, with the shift-register noise source.

use vstd::prelude::*;

verus! {

/// The fraction of each period during which a pulse wave is high.
#[derive(Clone, Copy, Debug, PartialEq, Eq, Structural)]
pub enum DutyCycle {
    /// High for 12.5% of the period.
    Duty12_5,
    /// High for 25% of the period.
    Duty25,
    /// High for 50% of the period.
    Duty50,
    /// High for 75% of the period.
    Duty75,
}

impl DutyCycle {
    /// The duty fraction as a number of eighths of the period.
    pub open spec fn spec_eighths(self) -> int {
        match self {
            DutyCycle::Duty12_5 => 1,
            DutyCycle::Duty25 => 2,
            DutyCycle::Duty50 => 4,
            DutyCycle::Duty75 => 6,
        }
    }

    /// The duty fraction as a number of eighths of the period: dividing the
    /// result by eight gives 0.125, 0.25, 0.5 or 0.75.
    pub fn eighths(&self) -> (e: u8)
        ensures
            e == self.spec_eighths(),
    {
        match self {
            DutyCycle::Duty12_5 => 1,
            DutyCycle::Duty25 => 2,
            DutyCycle::Duty50 => 4,
            DutyCycle::Duty75 => 6,
        }
    }
}

/// The waveform that renders a note.
#[derive(Clone, Copy, Debug, PartialEq, Eq, Structural)]
pub enum Timbre {
    /// A pulse wave with the given duty cycle.
    Pulse(DutyCycle),
    /// A triangle wave.
    Triangle,
    /// Shift-register noise, in the short-period or the long-period mode.
    Noise { is_short: bool },
}

/// The voice of a channel: channels are dealt round-robin to a 50% pulse, a
/// 25% pulse, the triangle and the noise generator in its long-period mode.
pub open spec fn timbre_of(channel: u8) -> Timbre {
    if channel % 4 == 0 {
        Timbre::Pulse(DutyCycle::Duty50)
    } else if channel % 4 == 1 {
        Timbre::Pulse(DutyCycle::Duty25)
    } else if channel % 4 == 2 {
        Timbre::Triangle
    } else {
        Timbre::Noise { is_short: false }
    }
}

/// Chooses the voice for a MIDI channel.
pub fn select_timbre(channel: u8) -> (timbre: Timbre)
    ensures
        timbre == timbre_of(channel),
{
    match channel % 4 {
        0 => Timbre::Pulse(DutyCycle::Duty50),
        1 => Timbre::Pulse(DutyCycle::Duty25),
        2 => Timbre::Triangle,
        _ => Timbre::Noise { is_short: false },
    }
}

/// The value that the noise register holds before the first sample.
pub const NOISE_SEED: u16 = 1;

/// One clock of the 15-bit feedback shift register: the register moves one
/// bit to the right, and bit 14 receives bit 0 xor-ed with bit 6 in short
/// mode, with bit 1 otherwise.
pub open spec fn lfsr_step(register: u16, is_short: bool) -> u16 {
    let bit0 = register & 1;
    let bit1 = if is_short {
        (register >> 6) & 1
    } else {
        (register >> 1) & 1
    };
    (register >> 1) | ((bit0 ^ bit1) << 14)
}

/// The register after `steps` clocks from the seed.
pub open spec fn lfsr_state(is_short: bool, steps: nat) -> u16
    decreases steps,
{
    if steps == 0 {
        NOISE_SEED
    } else {
        lfsr_step(lfsr_state(is_short, (steps - 1) as nat), is_short)
    }
}

/// The sample that a register value emits: `+1` when bit 0 is set, else `-1`.
pub open spec fn noise_sample(register: u16) -> i8 {
    if register & 1 == 1 {
        1i8
    } else {
        -1i8
    }
}

/// The first `len` samples of the noise generator.
pub open spec fn noise_sequence(is_short: bool, len: nat) -> Seq<i8> {
    Seq::new(len, |i: int| noise_sample(lfsr_state(is_short, i as nat)))
}

/// The register never leaves its 15 bits and never becomes zero, the one
/// state from which the generator could not recover.
pub proof fn lemma_lfsr_register_bounds(is_short: bool, steps: nat)
    ensures
        0 < lfsr_state(is_short, steps) < 0x8000,
    decreases steps,
{
    if steps > 0 {
        lemma_lfsr_register_bounds(is_short, (steps - 1) as nat);
        let register = lfsr_state(is_short, (steps - 1) as nat);
        assert(0 < register < 0x8000 ==> 0 < ((register >> 1) | (((register & 1) ^ ((register >> 6)
            & 1)) << 14)) < 0x8000) by (bit_vector);
        assert(0 < register < 0x8000 ==> 0 < ((register >> 1) | (((register & 1) ^ ((register >> 1)
            & 1)) << 14)) < 0x8000) by (bit_vector);
    }
}

/// The generator always starts over: a shorter run is the beginning of a
/// longer one, so all notes of the noise voice share one sequence.
pub proof fn lemma_noise_prefix(is_short: bool, shorter: nat, longer: nat)
    requires
        shorter <= longer,
    ensures
        noise_sequence(is_short, shorter) == noise_sequence(is_short, longer).take(shorter as int),
{
}

/// Generates `samples` samples of noise, each `+1` or `-1`.
///
/// The register starts from the seed on every call, so the result depends on
/// the arguments alone.
pub fn generate_noise(is_short: bool, samples: usize) -> (out: Vec<i8>)
    ensures
        out@ == noise_sequence(is_short, samples as nat),
        out@.len() == samples,
        forall|i: int| 0 <= i < out@.len() ==> (#[trigger] out@[i]) == 1 || out@[i] == -1,
{
    let mut out: Vec<i8> = Vec::new();
    let mut shift: u16 = NOISE_SEED;
    let mut i: usize = 0;
    while i < samples
        invariant
            i <= samples,
            shift == lfsr_state(is_short, i as nat),
            out@ == noise_sequence(is_short, i as nat),
        decreases samples - i,
    {
        let bit0: u16 = shift & 1;
        let bit1: u16 = if is_short {
            (shift >> 6) & 1
        } else {
            (shift >> 1) & 1
        };
        let feedback: u16 = bit0 ^ bit1;
        out.push(if bit0 == 1 { 1 } else { -1 });
        shift = (shift >> 1) | (feedback << 14);
        i += 1;
    }
    out
}

} // verus!
