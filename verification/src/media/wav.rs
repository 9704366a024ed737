//! Reading WAV data through the `hound` crate.

use vstd::prelude::*;

verus! {

/// Sample encoding of a WAV stream.
#[derive(Debug, Clone, Copy, PartialEq, Eq, Structural)]
pub enum SampleFormat {
    Float,
    Int,
}

/// The format fields of a WAV header that the SDK reads.
#[derive(Debug, Clone, Copy)]
pub struct WavHeader {
    pub channels: u16,
    pub sample_rate: u32,
    pub bits_per_sample: u16,
    pub sample_format: SampleFormat,
}

/// The header `hound::WavReader::new` reads from `bytes`, or `None` when it
/// rejects them.
pub uninterp spec fn wav_header_of(bytes: Seq<u8>) -> Option<WavHeader>;

/// All samples of `bytes` read as `i16` through `hound::WavReader::samples`,
/// or `None` when the reader or any sample read fails.
pub uninterp spec fn wav_samples_of(bytes: Seq<u8>) -> Option<Seq<i16>>;

/// `hound::WavReader::new` over the bytes, then `spec()`: the result is
/// `wav_header_of(bytes)`. The crate rejects a header with zero channels, so
/// an accepted header has at least one.
#[verifier::external_body]
pub fn read_wav_header(bytes: &[u8]) -> (r: Option<WavHeader>)
    ensures
        r == wav_header_of(bytes@),
        r matches Some(h) ==> h.channels >= 1,
{
    let reader = hound::WavReader::new(std::io::Cursor::new(bytes)).ok()?;
    let spec = reader.spec();
    let sample_format = match spec.sample_format {
        hound::SampleFormat::Float => SampleFormat::Float,
        hound::SampleFormat::Int => SampleFormat::Int,
    };
    Some(WavHeader {
        channels: spec.channels,
        sample_rate: spec.sample_rate,
        bits_per_sample: spec.bits_per_sample,
        sample_format,
    })
}

/// `hound::WavReader::new` over the bytes, then `samples::<i16>()` collected:
/// the result is `wav_samples_of(bytes)`. The reader only accepts data whose
/// sample count is a multiple of the channel count, and yields exactly that
/// many samples.
#[verifier::external_body]
pub fn read_wav_samples_i16(bytes: &[u8]) -> (r: Option<Vec<i16>>)
    ensures
        match r {
            Some(v) => wav_samples_of(bytes@) == Some(v@),
            None => wav_samples_of(bytes@) is None,
        },
        r matches Some(v) ==> wav_header_of(bytes@) matches Some(h) && v@.len() % (h.channels as nat) == 0,
{
    let mut reader = hound::WavReader::new(std::io::Cursor::new(bytes)).ok()?;
    reader.samples::<i16>().collect::<Result<Vec<i16>, hound::Error>>().ok()
}

} // verus!
