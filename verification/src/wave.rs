//! Framing of 16-bit mono PCM samples as a canonical WAV file.

use vstd::prelude::*;

verus! {

/// The number of bytes that the header occupies in the file.
pub const WAVE_HEADER_LEN: usize = 44;

/// The fixed-layout descriptor that opens a PCM WAV file.
#[derive(Clone, Copy, Debug, PartialEq, Eq)]
pub struct WaveHeader {
    /// `RIFF`.
    pub chunk_id: [u8; 4],
    /// The size of everything after this field: 36 plus the data size.
    pub chunk_size: u32,
    /// `WAVE`.
    pub format: [u8; 4],
    /// `fmt ` with its trailing space.
    pub subchunk1_id: [u8; 4],
    /// The size of the format block, 16 for PCM.
    pub subchunk1_size: u32,
    /// 1 for uncompressed PCM.
    pub audio_format: u16,
    pub num_channels: u16,
    pub sample_rate: u32,
    /// Bytes per second of audio.
    pub byte_rate: u32,
    /// Bytes per sample frame.
    pub block_align: u16,
    pub bits_per_sample: u16,
    /// `data`.
    pub subchunk2_id: [u8; 4],
    /// The size of the sample data in bytes.
    pub subchunk2_size: u32,
}

/// The number of bytes that one second of audio takes.
pub open spec fn byte_rate_of(sample_rate: u32, num_channels: u16, bits_per_sample: u16) -> int {
    sample_rate * num_channels * bits_per_sample / 8
}

/// The number of bytes that one sample frame takes.
pub open spec fn block_align_of(num_channels: u16, bits_per_sample: u16) -> int {
    num_channels * bits_per_sample / 8
}

/// Whether the header fields computed from these parameters fit their
/// widths.
pub open spec fn header_fits(
    sample_rate: u32,
    num_channels: u16,
    bits_per_sample: u16,
    data_size: u32,
) -> bool {
    &&& byte_rate_of(sample_rate, num_channels, bits_per_sample) <= u32::MAX
    &&& block_align_of(num_channels, bits_per_sample) <= u16::MAX
    &&& 36 + data_size <= u32::MAX
}

/// The header of a PCM file with the given parameters.
pub open spec fn wave_header(
    sample_rate: u32,
    num_channels: u16,
    bits_per_sample: u16,
    data_size: u32,
) -> WaveHeader {
    WaveHeader {
        chunk_id: [0x52, 0x49, 0x46, 0x46],
        chunk_size: (36 + data_size) as u32,
        format: [0x57, 0x41, 0x56, 0x45],
        subchunk1_id: [0x66, 0x6D, 0x74, 0x20],
        subchunk1_size: 16,
        audio_format: 1,
        num_channels,
        sample_rate,
        byte_rate: byte_rate_of(sample_rate, num_channels, bits_per_sample) as u32,
        block_align: block_align_of(num_channels, bits_per_sample) as u16,
        bits_per_sample,
        subchunk2_id: [0x64, 0x61, 0x74, 0x61],
        subchunk2_size: data_size,
    }
}

/// Fills in the header of a PCM file.
pub fn create_wave_header(
    sample_rate: u32,
    num_channels: u16,
    bits_per_sample: u16,
    data_size: u32,
) -> (header: WaveHeader)
    requires
        header_fits(sample_rate, num_channels, bits_per_sample, data_size),
    ensures
        header == wave_header(sample_rate, num_channels, bits_per_sample, data_size),
{
    assert(num_channels * bits_per_sample <= 0xFFFF * 0xFFFF) by (nonlinear_arith);
    let frame_bits: u32 = num_channels as u32 * bits_per_sample as u32;
    assert(sample_rate * frame_bits <= 0xFFFF_FFFF * 0xFFFF_FFFF) by (nonlinear_arith);
    assert(sample_rate * frame_bits == sample_rate * num_channels * bits_per_sample)
        by (nonlinear_arith)
        requires
            frame_bits == num_channels * bits_per_sample,
    ;
    let byte_rate: u64 = sample_rate as u64 * frame_bits as u64 / 8;
    let block_align: u32 = frame_bits / 8;
    WaveHeader {
        chunk_id: [0x52, 0x49, 0x46, 0x46],
        chunk_size: 36 + data_size,
        format: [0x57, 0x41, 0x56, 0x45],
        subchunk1_id: [0x66, 0x6D, 0x74, 0x20],
        subchunk1_size: 16,
        audio_format: 1,
        num_channels,
        sample_rate,
        byte_rate: byte_rate as u32,
        block_align: block_align as u16,
        bits_per_sample,
        subchunk2_id: [0x64, 0x61, 0x74, 0x61],
        subchunk2_size: data_size,
    }
}

/// The two bytes of `value`, least significant first.
pub open spec fn le_u16(value: u16) -> Seq<u8> {
    seq![(value % 0x100) as u8, (value / 0x100) as u8]
}

/// The four bytes of `value`, least significant first.
pub open spec fn le_u32(value: u32) -> Seq<u8> {
    seq![
        (value % 0x100) as u8,
        (value / 0x100 % 0x100) as u8,
        (value / 0x1_0000 % 0x100) as u8,
        (value / 0x100_0000) as u8,
    ]
}

/// The number that `bytes` spell, least significant byte first.
pub open spec fn le_value(bytes: Seq<u8>) -> nat
    decreases bytes.len(),
{
    if bytes.len() == 0 {
        0
    } else {
        bytes[0] as nat + 0x100 * le_value(bytes.subrange(1, bytes.len() as int))
    }
}

/// The little-endian bytes of an integer spell that integer.
pub proof fn lemma_le_bytes_spell_value(half: u16, word: u32)
    ensures
        le_u16(half).len() == 2,
        le_value(le_u16(half)) == half,
        le_u32(word).len() == 4,
        le_value(le_u32(word)) == word,
{
    let h = le_u16(half);
    let h1 = h.subrange(1, 2);
    assert(le_value(h1.subrange(1, 1)) == 0);
    assert(le_value(h1) == h[1]);
    let w = le_u32(word);
    let w1 = w.subrange(1, 4);
    let w2 = w1.subrange(1, 3);
    let w3 = w2.subrange(1, 2);
    assert(le_value(w3.subrange(1, 1)) == 0);
    assert(le_value(w3) == w[3]);
    assert(le_value(w2) == w[2] + 0x100 * w[3]);
    assert(le_value(w1) == w[1] + 0x100 * (w[2] + 0x100 * w[3]));
}

/// The 16-bit two's-complement pattern of a sample.
pub open spec fn sample_word(sample: i16) -> u16 {
    if sample < 0 {
        (sample + 0x1_0000) as u16
    } else {
        sample as u16
    }
}

/// The samples as bytes: two per sample, least significant first.
pub open spec fn pcm_bytes(samples: Seq<i16>) -> Seq<u8>
    decreases samples.len(),
{
    if samples.len() == 0 {
        Seq::empty()
    } else {
        pcm_bytes(samples.drop_last()) + le_u16(sample_word(samples.last()))
    }
}

impl WaveHeader {
    /// The header as it stands in the file: the thirteen fields in order,
    /// integers least significant byte first.
    pub open spec fn bytes(self) -> Seq<u8> {
        self.chunk_id@ + le_u32(self.chunk_size) + self.format@ + self.subchunk1_id@ + le_u32(
            self.subchunk1_size,
        ) + le_u16(self.audio_format) + le_u16(self.num_channels) + le_u32(self.sample_rate)
            + le_u32(self.byte_rate) + le_u16(self.block_align) + le_u16(self.bits_per_sample)
            + self.subchunk2_id@ + le_u32(self.subchunk2_size)
    }

    /// Serializes the header into its 44 bytes.
    pub fn to_bytes(&self) -> (out: Vec<u8>)
        ensures
            out@ == self.bytes(),
            out@.len() == WAVE_HEADER_LEN,
    {
        let mut out: Vec<u8> = Vec::new();
        push_tag(&mut out, &self.chunk_id);
        push_le_u32(&mut out, self.chunk_size);
        push_tag(&mut out, &self.format);
        push_tag(&mut out, &self.subchunk1_id);
        push_le_u32(&mut out, self.subchunk1_size);
        push_le_u16(&mut out, self.audio_format);
        push_le_u16(&mut out, self.num_channels);
        push_le_u32(&mut out, self.sample_rate);
        push_le_u32(&mut out, self.byte_rate);
        push_le_u16(&mut out, self.block_align);
        push_le_u16(&mut out, self.bits_per_sample);
        push_tag(&mut out, &self.subchunk2_id);
        push_le_u32(&mut out, self.subchunk2_size);
        out
    }
}

fn push_tag(out: &mut Vec<u8>, tag: &[u8; 4])
    ensures
        final(out)@ == old(out)@ + tag@,
{
    out.push(tag[0]);
    out.push(tag[1]);
    out.push(tag[2]);
    out.push(tag[3]);
    assert(out@ == old(out)@ + tag@);
}

fn push_le_u16(out: &mut Vec<u8>, value: u16)
    ensures
        final(out)@ == old(out)@ + le_u16(value),
{
    out.push((value % 0x100) as u8);
    out.push((value / 0x100) as u8);
    assert(out@ == old(out)@ + le_u16(value));
}

fn push_le_u32(out: &mut Vec<u8>, value: u32)
    ensures
        final(out)@ == old(out)@ + le_u32(value),
{
    out.push((value % 0x100) as u8);
    out.push((value / 0x100 % 0x100) as u8);
    out.push((value / 0x1_0000 % 0x100) as u8);
    out.push((value / 0x100_0000) as u8);
    assert(out@ == old(out)@ + le_u32(value));
}

fn word_of(sample: i16) -> (word: u16)
    ensures
        word == sample_word(sample),
{
    if sample < 0 {
        (sample as i32 + 0x1_0000) as u16
    } else {
        sample as u16
    }
}

/// Whether `count` samples at `sample_rate` can be framed: the data size and
/// the sizes derived from it fit their 32-bit fields.
pub open spec fn wave_fits(count: nat, sample_rate: u32) -> bool {
    2 * count + 36 <= u32::MAX && 2 * sample_rate <= u32::MAX
}

/// The bytes of a mono 16-bit PCM WAV file that holds `samples`.
pub open spec fn wave_file_bytes(samples: Seq<i16>, sample_rate: u32) -> Seq<u8> {
    wave_header(sample_rate, 1, 16, (2 * samples.len()) as u32).bytes() + pcm_bytes(samples)
}

/// Each sample occupies two bytes, at twice its index.
pub proof fn lemma_pcm_layout(samples: Seq<i16>)
    ensures
        pcm_bytes(samples).len() == 2 * samples.len(),
        forall|k: int|
            0 <= k < samples.len() ==> #[trigger] pcm_bytes(samples).subrange(2 * k, 2 * k + 2)
                == le_u16(sample_word(samples[k])),
    decreases samples.len(),
{
    if samples.len() > 0 {
        let front = samples.drop_last();
        lemma_pcm_layout(front);
        let all = pcm_bytes(samples);
        assert forall|k: int| 0 <= k < samples.len() implies #[trigger] all.subrange(
            2 * k,
            2 * k + 2,
        ) == le_u16(sample_word(samples[k])) by {
            if k < front.len() {
                assert(all.subrange(2 * k, 2 * k + 2) == pcm_bytes(front).subrange(
                    2 * k,
                    2 * k + 2,
                ));
                assert(front[k] == samples[k]);
            } else {
                assert(all.subrange(2 * k, 2 * k + 2) == le_u16(sample_word(samples.last())));
            }
        }
    }
}

/// The sizes that a WAV file announces agree with its length: the file is
/// 44 bytes of header and two bytes per sample, the RIFF size field counts
/// everything after itself, and the data size field counts the sample bytes.
pub proof fn lemma_wave_file_layout(samples: Seq<i16>, sample_rate: u32)
    requires
        wave_fits(samples.len(), sample_rate),
    ensures
        wave_file_bytes(samples, sample_rate).len() == WAVE_HEADER_LEN + 2 * samples.len(),
        wave_file_bytes(samples, sample_rate).subrange(0, 4) == seq![0x52u8, 0x49, 0x46, 0x46],
        le_value(wave_file_bytes(samples, sample_rate).subrange(4, 8)) == wave_file_bytes(
            samples,
            sample_rate,
        ).len() - 8,
        le_value(wave_file_bytes(samples, sample_rate).subrange(24, 28)) == sample_rate,
        le_value(wave_file_bytes(samples, sample_rate).subrange(40, 44)) == 2 * samples.len(),
        wave_file_bytes(samples, sample_rate).subrange(
            WAVE_HEADER_LEN as int,
            WAVE_HEADER_LEN + 2 * samples.len(),
        ) == pcm_bytes(samples),
{
    let data_size = (2 * samples.len()) as u32;
    let header = wave_header(sample_rate, 1, 16, data_size);
    let bytes = wave_file_bytes(samples, sample_rate);
    lemma_pcm_layout(samples);
    lemma_le_bytes_spell_value(0, header.chunk_size);
    lemma_le_bytes_spell_value(0, header.sample_rate);
    lemma_le_bytes_spell_value(0, header.subchunk2_size);
    assert(header.bytes().len() == 44);
    assert(bytes.subrange(0, 4) == seq![0x52u8, 0x49, 0x46, 0x46]);
    assert(bytes.subrange(4, 8) == le_u32(header.chunk_size));
    assert(bytes.subrange(24, 28) == le_u32(header.sample_rate));
    assert(bytes.subrange(40, 44) == le_u32(header.subchunk2_size));
    assert(bytes.subrange(44, 44 + 2 * samples.len() as int) == pcm_bytes(samples));
}

/// Frames `samples` as a mono 16-bit PCM WAV file: the 44-byte header, then
/// the samples, least significant byte first.
pub fn encode_wave_file(samples: &[i16], sample_rate: u32) -> (out: Vec<u8>)
    requires
        wave_fits(samples@.len(), sample_rate),
    ensures
        out@ == wave_file_bytes(samples@, sample_rate),
        out@.len() == WAVE_HEADER_LEN + 2 * samples@.len(),
{
    let count: usize = samples.len();
    let data_size: u32 = (count * 2) as u32;
    let header = create_wave_header(sample_rate, 1, 16, data_size);
    let mut out: Vec<u8> = header.to_bytes();
    let mut i: usize = 0;
    assert(samples@.subrange(0, 0) == Seq::<i16>::empty());
    while i < count
        invariant
            i <= count,
            count == samples@.len(),
            out@ == header.bytes() + pcm_bytes(samples@.subrange(0, i as int)),
            out@.len() == WAVE_HEADER_LEN + 2 * i,
        decreases count - i,
    {
        assert(samples@.subrange(0, i + 1).drop_last() == samples@.subrange(0, i as int));
        push_le_u16(&mut out, word_of(samples[i]));
        i += 1;
    }
    assert(samples@.subrange(0, count as int) == samples@);
    out
}

} // verus!
