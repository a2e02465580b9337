//! WAV decoding and encoding around the speech engine's output, through
//! the `hound` crate, and the sample rate of the written file.

use vstd::prelude::*;

use crate::settings::ResamplingQuality;
use crate::RiamifyError;

verus! {

#[verifier::external_type_specification]
#[verifier::external_body]
pub struct ExWavError(hound::Error);

/// Whether `hound::WavReader::new` reads a WAV header from `bytes`.
pub uninterp spec fn wav_reader_accepts(bytes: Seq<u8>) -> bool;

/// The 16-bit samples that `WavReader::samples::<i16>` reads from `bytes`
/// after the header; `None` when one of them fails.
pub uninterp spec fn wav_i16_samples(bytes: Seq<u8>) -> Option<Seq<i16>>;

/// The bytes of an integer-sample WAV file with `channels` channels, at
/// `sample_rate`, with `bits_per_sample` bits, holding `samples`, as
/// `hound::WavWriter` writes them to memory; `None` when the writer fails.
pub uninterp spec fn wav_i16_bytes(
    samples: Seq<i16>,
    channels: u16,
    sample_rate: u32,
    bits_per_sample: u16,
) -> Option<Seq<u8>>;

/// The `k` low bytes of `n`, least significant first.
pub open spec fn le_bytes(n: int, k: nat) -> Seq<u8>
    decreases k,
{
    if k == 0 {
        Seq::empty()
    } else {
        seq![(n % 256) as u8] + le_bytes(n / 256, (k - 1) as nat)
    }
}

/// The 16-bit samples as little-endian two's-complement bytes.
pub open spec fn samples_le(samples: Seq<i16>) -> Seq<u8>
    decreases samples.len(),
{
    if samples.len() == 0 {
        Seq::empty()
    } else {
        samples_le(samples.drop_last()) + le_bytes(samples.last() as int % 0x10000, 2)
    }
}

/// The bytes of an ASCII chunk tag.
pub open spec fn tag_bytes(tag: Seq<char>) -> Seq<u8> {
    tag.map_values(|c: char| c as u8)
}

/// A mono 16-bit PCM WAV file as `hound::WavWriter` writes it: the 44-byte
/// header (the RIFF size, the plain `fmt ` chunk of 16 bytes and the `data`
/// chunk header) followed by the samples.
pub open spec fn mono16_wav_bytes(samples: Seq<i16>, sample_rate: u32) -> Seq<u8> {
    let data_len: int = 2 * samples.len() as int;
    tag_bytes("RIFF"@) + le_bytes(36 + data_len, 4) + tag_bytes("WAVE"@) + tag_bytes("fmt "@)
        + le_bytes(16, 4) + le_bytes(1, 2) + le_bytes(1, 2)
        + le_bytes(sample_rate as int, 4) + le_bytes(2 * sample_rate, 4) + le_bytes(2, 2)
        + le_bytes(16, 2) + tag_bytes("data"@) + le_bytes(data_len, 4) + samples_le(
        samples,
    )
}

/// The bytes per sample that `hound` uses for `bits_per_sample`.
pub open spec fn wav_sample_bytes(bits_per_sample: u16) -> int {
    (bits_per_sample + 7) / 8
}

/// The part of the header that `hound` counts in the RIFF size: 36 bytes for
/// the plain format chunk, 60 for the extensible one (more than two channels
/// or more than 16 bits).
pub open spec fn wav_header_size(channels: u16, bits_per_sample: u16) -> int {
    if channels > 2 || bits_per_sample > 16 {
        60
    } else {
        36
    }
}

/// Whether `hound` writes these samples without a panic: at least one
/// channel, a bit count whose byte width it can compute in a `u16`, a sample
/// rate that is not 0, a byte rate that fits in a `u32`,
/// and a data size that, with the header, fits in a `u32` (hound adds these
/// in `u32` arithmetic).
pub open spec fn wav_write_fits(
    sample_count: int,
    channels: u16,
    sample_rate: u32,
    bits_per_sample: u16,
) -> bool {
    &&& channels > 0
    &&& bits_per_sample + 7 <= u16::MAX
    &&& sample_rate > 0
    &&& sample_rate * wav_sample_bytes(bits_per_sample) * channels <= u32::MAX
    &&& sample_count * wav_sample_bytes(bits_per_sample) + wav_header_size(channels, bits_per_sample)
        <= u32::MAX
}

/// Reads `bytes` with `hound::WavReader::new`, then collects its samples as
/// `i16`. The outer error is the reader's, the inner one that of a sample.
/// The contract names both results.
#[verifier::external_body]
fn read_wav_i16(bytes: &[u8]) -> (r: Result<Result<Vec<i16>, hound::Error>, hound::Error>)
    ensures
        match r {
            Err(_) => !wav_reader_accepts(bytes@),
            Ok(Err(_)) => wav_reader_accepts(bytes@) && wav_i16_samples(bytes@) is None,
            Ok(Ok(v)) => wav_reader_accepts(bytes@) && wav_i16_samples(bytes@) == Some(v@),
        },
{
    match hound::WavReader::new(bytes) {
        Ok(mut reader) => Ok(reader.samples::<i16>().collect()),
        Err(e) => Err(e),
    }
}

/// Writes `samples` with a `hound::WavWriter` into memory: `WavWriter::new`
/// with the given channels, rate and bits and integer samples (the samples
/// are integers), one `write_sample` per sample, `finalize`. The contract
/// names the bytes, and claims what they are for one channel of 16 bits
/// (`mono16_wav_bytes`): `hound` writes the plain format chunk then, one
/// little-endian `i16` per sample, and `finalize` fills in the two sizes.
/// `hound` keeps the data size in `u32` arithmetic and divides by the sample
/// rate, so `requires` keeps those in range.
#[verifier::external_body]
fn write_wav_i16(samples: &[i16], channels: u16, sample_rate: u32, bits_per_sample: u16) -> (r:
    Result<Vec<u8>, hound::Error>)
    requires
        wav_write_fits(samples@.len() as int, channels, sample_rate, bits_per_sample),
    ensures
        match r {
            Ok(v) => wav_i16_bytes(samples@, channels, sample_rate, bits_per_sample) == Some(v@),
            Err(_) => wav_i16_bytes(samples@, channels, sample_rate, bits_per_sample) is None,
        },
        channels == 1 && bits_per_sample == 16 ==> (r matches Ok(v) ==> v@ == mono16_wav_bytes(
            samples@,
            sample_rate,
        )),
{
    let spec = hound::WavSpec {
        channels,
        sample_rate,
        bits_per_sample,
        sample_format: hound::SampleFormat::Int,
    };
    let mut out = std::io::Cursor::new(Vec::new());
    let mut writer = hound::WavWriter::new(&mut out, spec)?;
    for s in samples {
        writer.write_sample(*s)?;
    }
    writer.finalize()?;
    Ok(out.into_inner())
}

/// The message of a WAV file that cannot be read.
pub open spec fn wav_read_failed() -> Seq<char> {
    ".WAVファイルの読み込みに失敗しました"@
}

/// The message of WAV samples that cannot be read.
pub open spec fn wav_samples_failed() -> Seq<char> {
    ".WAVファイルの生成に失敗しました"@
}

/// The message of a WAV file that cannot be written.
pub open spec fn wav_write_failed() -> Seq<char> {
    ".WAVファイルの書き込みに失敗しました"@
}

/// The 16-bit samples of the WAV file `bytes` that the speech engine made.
pub fn decode_wav(bytes: &[u8]) -> (r: Result<Vec<i16>, RiamifyError>)
    ensures
        !wav_reader_accepts(bytes@) ==> (r matches Err(RiamifyError::Custom(m)) && m@
            == wav_read_failed()),
        wav_reader_accepts(bytes@) && wav_i16_samples(bytes@) is None ==> (r matches Err(
            RiamifyError::Custom(m),
        ) && m@ == wav_samples_failed()),
        wav_reader_accepts(bytes@) && wav_i16_samples(bytes@) is Some ==> (r matches Ok(v) && Some(
            v@,
        ) == wav_i16_samples(bytes@)),
{
    match read_wav_i16(bytes) {
        Ok(Ok(v)) => Ok(v),
        Ok(Err(_)) => Err(RiamifyError::Custom(String::from_str(".WAVファイルの生成に失敗しました"))),
        Err(_) => Err(RiamifyError::Custom(String::from_str(".WAVファイルの読み込みに失敗しました"))),
    }
}

/// The channels of the written file: one.
pub const OUTPUT_CHANNELS: u16 = 1;

/// The bits per sample of the written file: sixteen.
pub const OUTPUT_BITS: u16 = 16;

/// A mono 16-bit WAV file of `samples` at `sample_rate`. The sample rate
/// must not be 0, twice it must fit in a `u32`, and so must twice the number
/// of samples plus 36: the WAV writer panics otherwise.
pub fn encode_wav(samples: &[i16], sample_rate: u32) -> (r: Result<Vec<u8>, RiamifyError>)
    requires
        sample_rate > 0,
        sample_rate * 2 <= u32::MAX,
        samples@.len() * 2 + 36 <= u32::MAX,
    ensures
        match wav_i16_bytes(samples@, OUTPUT_CHANNELS, sample_rate, OUTPUT_BITS) {
            Some(b) => r matches Ok(v) && v@ == b,
            None => r matches Err(RiamifyError::Custom(m)) && m@ == wav_write_failed(),
        },
        r matches Ok(v) ==> v@ == mono16_wav_bytes(samples@, sample_rate),
{
    match write_wav_i16(samples, OUTPUT_CHANNELS, sample_rate, OUTPUT_BITS) {
        Ok(v) => Ok(v),
        Err(_) => Err(RiamifyError::Custom(String::from_str(".WAVファイルの書き込みに失敗しました"))),
    }
}

/// The sample rate of the written file: 44100 Hz after resampling; without
/// resampling, 80 Hz per point of pitch, that is `(80.0 * pitch as f64) as
/// u32`: 0 for a pitch of 0 or less, capped at `u32::MAX`.
pub fn output_sample_rate(quality: ResamplingQuality, pitch: i32) -> (rate: u32)
    ensures
        rate == if quality == ResamplingQuality::Raw {
            if pitch <= 0 {
                0
            } else if 80 * pitch > u32::MAX {
                u32::MAX as int
            } else {
                80 * pitch
            }
        } else {
            44100
        },
{
    if quality == ResamplingQuality::Raw {
        if pitch <= 0 {
            0
        } else {
            let p = pitch as u64;
            let r = 80 * p;
            if r > u32::MAX as u64 {
                u32::MAX
            } else {
                r as u32
            }
        }
    } else {
        44100
    }
}

} // verus!
