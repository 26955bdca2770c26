//! Decoded sample buffers and the framing of the file they come from.
use vstd::prelude::*;
use vstd::slice::slice_subrange;
use vstd::string::StringExecFns;
use crate::text::{decimal, push_decimal};

verus! {

/// The size in bytes of the header that precedes the sample data.
pub const WAV_HEADER_SIZE: usize = 44;

/// A decoded mono track: 16-bit samples and the rate they were recorded at.
/// Once a buffer is in a store it is never changed, only replaced.
#[derive(Debug)]
pub struct Wav {
    pub samples: Vec<i16>,
    /// Samples per second; at least 1.
    pub sample_rate: u32,
    /// Bytes per sample, as the header states them.
    pub sample_size: u32,
}

/// Why a byte string is not a track.
#[derive(Debug, Clone, Copy, PartialEq, Eq, Structural)]
pub enum ParseWavError {
    /// Fewer bytes than a header takes; holds how many there were.
    HeaderTooSmall(usize),
    /// The header gives a sample rate of 0.
    ZeroSampleRate,
}

impl ParseWavError {
    /// The error in words.
    pub open spec fn text(self) -> Seq<char> {
        match self {
            ParseWavError::HeaderTooSmall(found) => "Expected "@ + decimal(WAV_HEADER_SIZE as nat)
                + " bytes in header but only found "@ + decimal(found as nat),
            ParseWavError::ZeroSampleRate => "Sample rate in header is zero"@,
        }
    }

    /// The error in words, for a log.
    pub fn message(&self) -> (message: String)
        ensures
            message@ == self.text(),
    {
        match self {
            ParseWavError::HeaderTooSmall(found) => {
                let mut message = String::from_str("Expected ");
                push_decimal(&mut message, WAV_HEADER_SIZE);
                message.append(" bytes in header but only found ");
                push_decimal(&mut message, *found);
                message
            },
            ParseWavError::ZeroSampleRate => String::from_str("Sample rate in header is zero"),
        }
    }
}

/// The unsigned number that four bytes from `at` on spell, low byte first.
pub open spec fn le_u32(bytes: Seq<u8>, at: int) -> int {
    bytes[at] + 0x100 * bytes[at + 1] + 0x1_0000 * bytes[at + 2] + 0x100_0000 * bytes[at + 3]
}

/// The signed 16-bit number that two bytes spell, low byte first, in two's
/// complement.
pub open spec fn le_i16(lo: u8, hi: u8) -> int {
    let unsigned = lo + 0x100 * hi;
    if unsigned >= 0x8000 {
        unsigned - 0x1_0000
    } else {
        unsigned
    }
}

/// The samples that a run of data bytes holds: one per pair of bytes, a
/// trailing odd byte being ignored.
pub open spec fn decode_samples(bytes: Seq<u8>) -> Seq<i16> {
    Seq::new((bytes.len() / 2) as nat, |i: int| le_i16(bytes[2 * i], bytes[2 * i + 1]) as i16)
}

/// The length of the sample data in a file of `len` bytes whose header
/// announces `announced` bytes of it: what is announced, as far as it is
/// there.
pub open spec fn data_len(len: int, announced: int) -> int {
    if announced <= len - WAV_HEADER_SIZE {
        announced
    } else {
        len - WAV_HEADER_SIZE
    }
}

fn read_u32(bytes: &[u8], at: usize) -> (value: u32)
    requires
        at + 4 <= bytes@.len(),
    ensures
        value == le_u32(bytes@, at as int),
{
    let b0: u32 = bytes[at] as u32;
    let b1: u32 = bytes[at + 1] as u32;
    let b2: u32 = bytes[at + 2] as u32;
    let b3: u32 = bytes[at + 3] as u32;
    b0 + 0x100 * b1 + 0x1_0000 * b2 + 0x100_0000 * b3
}

fn read_i16(lo: u8, hi: u8) -> (value: i16)
    ensures
        value == le_i16(lo, hi),
{
    let unsigned: u16 = lo as u16 + 0x100 * (hi as u16);
    if unsigned >= 0x8000 {
        let low: i16 = (unsigned - 0x8000) as i16;
        low - 0x4000 - 0x4000
    } else {
        unsigned as i16
    }
}

/// Decodes 16-bit little-endian samples.
pub fn parse_samples(bytes: &[u8]) -> (samples: Vec<i16>)
    ensures
        samples@ == decode_samples(bytes@),
{
    let num_samples: usize = bytes.len() / 2;
    let mut samples: Vec<i16> = Vec::with_capacity(num_samples);
    let mut i: usize = 0;
    while i < num_samples
        invariant
            bytes@.len() <= usize::MAX,
            num_samples == bytes@.len() / 2,
            i <= num_samples,
            samples@.len() == i,
            forall|j: int| 0 <= j < i ==> samples@[j] == decode_samples(bytes@)[j],
        decreases num_samples - i,
    {
        let pos: usize = i * 2;
        samples.push(read_i16(bytes[pos], bytes[pos + 1]));
        i += 1;
    }
    samples
}

impl Wav {
    /// A buffer has a sample rate of at least one sample per second.
    pub open spec fn wf(&self) -> bool {
        self.sample_rate > 0
    }

    /// What decoding the bytes of a file comes to.
    ///
    /// * Fewer than 44 bytes: `HeaderTooSmall` with their number.
    /// * A sample rate of 0 in the header: `ZeroSampleRate`.
    /// * Otherwise a track with the sample rate of the header, the bytes per
    ///   second divided by the sample rate as its sample size, and the
    ///   samples of the data: the bytes from offset 44 on, as many as the
    ///   header announces and the file holds.
    pub open spec fn decoded_from(bytes: Seq<u8>, decoded: Result<Wav, ParseWavError>) -> bool {
        if bytes.len() < WAV_HEADER_SIZE {
            decoded == Err::<Wav, ParseWavError>(
                ParseWavError::HeaderTooSmall(bytes.len() as usize),
            )
        } else if le_u32(bytes, 24) == 0 {
            decoded == Err::<Wav, ParseWavError>(ParseWavError::ZeroSampleRate)
        } else {
            &&& decoded is Ok
            &&& decoded->Ok_0.wf()
            &&& decoded->Ok_0.sample_rate == le_u32(bytes, 24)
            &&& decoded->Ok_0.sample_size == le_u32(bytes, 28) / le_u32(bytes, 24)
            &&& decoded->Ok_0.samples@ == decode_samples(
                bytes.subrange(
                    WAV_HEADER_SIZE as int,
                    WAV_HEADER_SIZE + data_len(bytes.len() as int, le_u32(bytes, 40)),
                ),
            )
        }
    }

    /// Decodes a track from the bytes of its file: a header of 44 bytes, then
    /// the sample data.
    ///
    /// The header gives the sample rate at offset 24, the bytes per second at
    /// offset 28 and the length of the data at offset 40, each as 4 bytes,
    /// low byte first. Data bytes beyond the announced length are ignored,
    /// and a file that ends early yields the samples that are there.
    pub fn new(bytes: &[u8]) -> (decoded: Result<Wav, ParseWavError>)
        ensures
            Wav::decoded_from(bytes@, decoded),
    {
        if bytes.len() < WAV_HEADER_SIZE {
            return Err(ParseWavError::HeaderTooSmall(bytes.len()));
        }
        let sample_rate = read_u32(bytes, 24);
        let bytes_per_second = read_u32(bytes, 28);
        let data_size = read_u32(bytes, 40);
        if sample_rate == 0 {
            return Err(ParseWavError::ZeroSampleRate);
        }
        let available: usize = bytes.len() - WAV_HEADER_SIZE;
        let data_end: usize = if (data_size as u64) <= (available as u64) {
            WAV_HEADER_SIZE + data_size as usize
        } else {
            bytes.len()
        };
        let samples = parse_samples(slice_subrange(bytes, WAV_HEADER_SIZE, data_end));
        Ok(Wav { samples, sample_rate, sample_size: bytes_per_second / sample_rate })
    }
}

} // verus!
