//! Mono PCM16 audio files: WAV, or headerless raw samples.
use hound::Error as WavError;
use hound::WavReader;
use vstd::prelude::*;
use vstd::string::StringExecFns;

use crate::error::Error;
use crate::text::{decimal, lowered, same, to_decimal, to_lower};

verus! {

/// What `hound::WavReader::new` reads of a file's header: channels, bits per sample and sample
/// rate. Where it refuses the bytes: whether that is an I/O failure, and the error's text.
pub uninterp spec fn wav_header(bytes: Seq<u8>) -> Result<(u16, u16, u32), (bool, Seq<char>)>;

/// The samples that `hound::WavReader::into_samples` yields as 16-bit integers. Where it fails on
/// any: whether the first failure is one of I/O, and the error's text.
pub uninterp spec fn wav_samples(bytes: Seq<u8>) -> Result<Seq<i16>, (bool, Seq<char>)>;

/// `hound::WavReader::new`, and its `spec`: reads the header of a WAV file held in memory. A
/// `hound::Error` comes as whether it is `IoError`, and its text. The result depends on the bytes
/// alone.
#[verifier::external_body]
fn read_header(bytes: &[u8]) -> (r: Result<(u16, u16, u32), (bool, String)>)
    ensures
        match r {
            Ok(h) => wav_header(bytes@) == Ok::<(u16, u16, u32), (bool, Seq<char>)>(h),
            Err((io, text)) => wav_header(bytes@) == Err::<(u16, u16, u32), (bool, Seq<char>)>(
                (io, text@),
            ),
        },
{
    match WavReader::new(bytes) {
        Ok(reader) => {
            let spec = reader.spec();
            Ok((spec.channels, spec.bits_per_sample, spec.sample_rate))
        },
        Err(e) => Err((matches!(e, WavError::IoError(_)), e.to_string())),
    }
}

/// `hound::WavReader::into_samples`: all the samples of a WAV file held in memory, or the first
/// failure. A `hound::Error` comes as whether it is `IoError`, and its text. The result depends on
/// the bytes alone.
#[verifier::external_body]
fn read_samples(bytes: &[u8]) -> (r: Result<Vec<i16>, (bool, String)>)
    ensures
        match r {
            Ok(s) => wav_samples(bytes@) == Ok::<Seq<i16>, (bool, Seq<char>)>(s@),
            Err((io, text)) => wav_samples(bytes@) == Err::<Seq<i16>, (bool, Seq<char>)>(
                (io, text@),
            ),
        },
{
    match WavReader::new(bytes).and_then(|r| r.into_samples::<i16>().collect()) {
        Ok(samples) => Ok(samples),
        Err(e) => Err((matches!(e, WavError::IoError(_)), e.to_string())),
    }
}

/// Whether `e` is the error for a file that was refused so.
pub open spec fn refused(e: Error, fault: (bool, Seq<char>)) -> bool {
    if fault.0 {
        e is Io && e->Io_0@ == fault.1
    } else {
        e is Config && e->Config_0@ == fault.1
    }
}

/// The error for a file that was refused: an I/O failure as such, anything else as a
/// configuration error.
pub fn wav_error(io: bool, text: String) -> (r: Error)
    ensures
        refused(r, (io, text@)),
{
    if io {
        Error::Io(text)
    } else {
        Error::Config(text)
    }
}

/// Whether a file's extension says WAV; anything else is headerless raw PCM16.
pub fn is_wav(extension: Option<&str>) -> (r: bool)
    ensures
        r == (extension is Some && lowered(extension->Some_0@) == "wav"@),
{
    match extension {
        Some(e) => {
            let w: String = to_lower(e);
            same(w.as_str(), "wav")
        },
        None => false,
    }
}

/// Why a WAV header is refused: only mono PCM16 at the expected rate is taken.
pub open spec fn refusal(
    channels: u16,
    bits_per_sample: u16,
    sample_rate: u32,
    expected_rate: u32,
) -> Option<Seq<char>> {
    if channels != 1 || bits_per_sample != 16 {
        Some(
            "expected mono PCM16, got "@ + decimal(channels as int) + " channels / "@ + decimal(
                bits_per_sample as int,
            ) + " bits"@,
        )
    } else if sample_rate != expected_rate {
        Some(
            "expected "@ + decimal(expected_rate as int) + " Hz, got "@ + decimal(
                sample_rate as int,
            ) + " Hz (resampling is not this layer's job)"@,
        )
    } else {
        None
    }
}

/// Checks a WAV header: mono PCM16 at the expected rate. Resampling is not done here.
pub fn check_spec(channels: u16, bits_per_sample: u16, sample_rate: u32, expected_rate: u32) -> (r:
    Result<(), Error>)
    ensures
        match refusal(channels, bits_per_sample, sample_rate, expected_rate) {
            Some(text) => r is Err && r->Err_0 is Config && r->Err_0->Config_0@ == text,
            None => r is Ok,
        },
{
    if channels != 1 || bits_per_sample != 16 {
        let mut s: String = "expected mono PCM16, got ".to_owned();
        s.append(to_decimal(channels as u64).as_str());
        s.append(" channels / ");
        s.append(to_decimal(bits_per_sample as u64).as_str());
        s.append(" bits");
        return Err(Error::Config(s));
    }
    if sample_rate != expected_rate {
        let mut s: String = "expected ".to_owned();
        s.append(to_decimal(expected_rate as u64).as_str());
        s.append(" Hz, got ");
        s.append(to_decimal(sample_rate as u64).as_str());
        s.append(" Hz (resampling is not this layer's job)");
        return Err(Error::Config(s));
    }
    Ok(())
}

/// The sample whose little-endian bytes are `low` and `high`.
pub open spec fn sample_at(low: u8, high: u8) -> int {
    let v = low + 256 * high;
    if v < 0x8000 {
        v
    } else {
        v - 0x10000
    }
}

/// What headerless little-endian PCM16 reads as: one sample for every two bytes, or an error for
/// an odd length.
pub open spec fn decoded(bytes: Seq<u8>, r: Result<Vec<i16>, Error>) -> bool {
    if bytes.len() % 2 != 0 {
        r is Err && r->Err_0 is Config && r->Err_0->Config_0@ == "raw PCM file has odd byte length"@
    } else {
        r is Ok && r->Ok_0@.len() == bytes.len() / 2 && forall|i: int|
            0 <= i < r->Ok_0@.len() ==> #[trigger] r->Ok_0@[i] == sample_at(
                bytes[2 * i],
                bytes[2 * i + 1],
            )
    }
}

/// Reads headerless little-endian PCM16.
pub fn decode_raw(bytes: &[u8]) -> (r: Result<Vec<i16>, Error>)
    ensures
        decoded(bytes@, r),
{
    if bytes.len() % 2 != 0 {
        return Err(Error::Config("raw PCM file has odd byte length".to_owned()));
    }
    let mut out: Vec<i16> = Vec::with_capacity(bytes.len() / 2);
    let mut i: usize = 0;
    while i < bytes.len()
        invariant
            bytes@.len() % 2 == 0,
            i % 2 == 0,
            i <= bytes@.len(),
            out@.len() == i / 2,
            forall|j: int|
                0 <= j < out@.len() ==> #[trigger] out@[j] == sample_at(
                    bytes@[2 * j],
                    bytes@[2 * j + 1],
                ),
        decreases bytes@.len() - i,
    {
        let v: i32 = bytes[i] as i32 + 256 * (bytes[i + 1] as i32);
        let s: i32 = if v < 0x8000 {
            v
        } else {
            v - 0x10000
        };
        out.push(s as i16);
        i = i + 2;
    }
    Ok(out)
}

/// Read a mono PCM16 file held in memory. With the extension `wav` it is parsed and checked
/// against `expected_rate`; with any other it is taken for headerless raw PCM16 at that rate.
pub fn read_pcm16(extension: Option<&str>, bytes: &[u8], expected_rate: u32) -> (r: Result<
    Vec<i16>,
    Error,
>)
    ensures
        if extension is Some && lowered(extension->Some_0@) == "wav"@ {
            match wav_header(bytes@) {
                Err(fault) => r is Err && refused(r->Err_0, fault),
                Ok((channels, bits, rate)) => match refusal(channels, bits, rate, expected_rate) {
                    Some(text) => r is Err && r->Err_0 is Config && r->Err_0->Config_0@ == text,
                    None => match wav_samples(bytes@) {
                        Err(fault) => r is Err && refused(r->Err_0, fault),
                        Ok(s) => r is Ok && r->Ok_0@ == s,
                    },
                },
            }
        } else {
            decoded(bytes@, r)
        },
{
    if is_wav(extension) {
        match read_header(bytes) {
            Ok((channels, bits, rate)) => {
                match check_spec(channels, bits, rate, expected_rate) {
                    Ok(_) => match read_samples(bytes) {
                        Ok(s) => Ok(s),
                        Err((io, text)) => Err(wav_error(io, text)),
                    },
                    Err(e) => Err(e),
                }
            },
            Err((io, text)) => Err(wav_error(io, text)),
        }
    } else {
        decode_raw(bytes)
    }
}

/// Raw samples read back: little-endian, low byte first, in two's complement.
pub proof fn raw_samples_read_back(samples: Seq<i16>, bytes: Seq<u8>, r: Result<Vec<i16>, Error>)
    requires
        bytes.len() == 2 * samples.len(),
        forall|i: int|
            0 <= i < samples.len() ==> bytes[2 * i] == (#[trigger] samples[i]) as int % 256
                && bytes[2 * i + 1] == (samples[i] as int % 0x10000) / 256,
        decoded(bytes, r),
    ensures
        r is Ok,
        r->Ok_0@ == samples,
{
    let out = r->Ok_0@;
    assert forall|i: int| 0 <= i < samples.len() implies out[i] == samples[i] by {
        let x = samples[i] as int;
        assert(bytes[2 * i] == x % 256);
        assert(bytes[2 * i + 1] == (x % 0x10000) / 256);
        assert(out[i] == sample_at(bytes[2 * i], bytes[2 * i + 1]));
        assert(x % 256 + 256 * ((x % 0x10000) / 256) == x % 0x10000);
    }
    assert(out =~= samples);
}

/// Raw bytes of an odd number are refused, whatever they hold.
pub proof fn odd_raw_length_is_refused(bytes: Seq<u8>, r: Result<Vec<i16>, Error>)
    requires
        decoded(bytes, r),
    ensures
        r is Err <==> bytes.len() % 2 == 1,
{
}

/// A header passes exactly where it says one channel, 16 bits and the expected rate.
pub proof fn only_mono_pcm16_passes(channels: u16, bits: u16, rate: u32, expected_rate: u32)
    ensures
        refusal(channels, bits, rate, expected_rate) is None <==> channels == 1 && bits == 16
            && rate == expected_rate,
{
}

} // verus!
