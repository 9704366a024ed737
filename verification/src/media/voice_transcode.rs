//! Voice container handling around SILK transcoding: SILK detection, the WAV
//! container written around decoded PCM, and the PCM prepared from a WAV file
//! for the SILK encoder.

use vstd::prelude::*;
use crate::media::wav::{read_wav_header, read_wav_samples_i16, wav_header_of, wav_samples_of, SampleFormat, WavHeader};

verus! {

/// Result of a transcode operation.
pub struct TranscodeResult {
    /// Transcoded audio data (WAV format).
    pub data: Vec<u8>,
    /// Output format string, e.g., "wav".
    pub format: String,
}

/// The magic `#!SILK_V3` that follows the first byte of a SILK V3 stream.
pub open spec fn silk_magic() -> Seq<u8> {
    seq![35u8, 33, 83, 73, 76, 75, 95, 86, 51]
}

/// More than 10 bytes, and bytes 1..10 are `#!SILK_V3`.
pub open spec fn is_silk(data: Seq<u8>) -> bool {
    data.len() > 10 && data.subrange(1, 10) == silk_magic()
}

/// Detect whether the provided data is a SILK V3 format.
pub fn is_silk_format(data: &[u8]) -> (r: bool)
    ensures
        r == is_silk(data@),
{
    if data.len() <= 10 {
        return false;
    }
    let magic: [u8; 9] = [35u8, 33, 83, 73, 76, 75, 95, 86, 51];
    assert(magic@ =~= silk_magic());
    let mut k: usize = 0;
    while k < 9
        invariant
            data@.len() > 10,
            magic@ == silk_magic(),
            k <= 9,
            forall|j: int| 0 <= j < k ==> data@[1 + j] == magic@[j],
        decreases 9 - k,
    {
        if data[1 + k] != magic[k] {
            assert(data@.subrange(1, 10)[k as int] != silk_magic()[k as int]);
            return false;
        }
        k = k + 1;
    }
    assert(data@.subrange(1, 10) =~= silk_magic());
    true
}

// ---------------------------------------------------------------------------
// WAV container
// ---------------------------------------------------------------------------

/// Little-endian bytes of the low 16 bits of `x`.
pub open spec fn le16(x: int) -> Seq<u8> {
    seq![(x % 256) as u8, ((x / 256) % 256) as u8]
}

/// Little-endian bytes of the low 32 bits of `x`.
pub open spec fn le32(x: int) -> Seq<u8> {
    seq![
        (x % 256) as u8,
        ((x / 256) % 256) as u8,
        ((x / 65536) % 256) as u8,
        ((x / 16777216) % 256) as u8,
    ]
}

/// `x` as its unsigned two's-complement value on `bits` bits (for |x| < 2^bits).
pub open spec fn twos(x: int, modulus: int) -> int {
    if x >= 0 {
        x
    } else {
        x + modulus
    }
}

/// A signed value converted with `try_from`, 0 when negative.
pub open spec fn non_negative_or_zero(x: int) -> int {
    if x >= 0 {
        x
    } else {
        0
    }
}

/// `v` when it fits under `limit`, otherwise 0 (a failed checked operation).
pub open spec fn within_or_zero(v: int, limit: int) -> int {
    if v <= limit {
        v
    } else {
        0
    }
}

/// Length field of the data chunk: the PCM length, 0 when it does not fit in 32 bits.
pub open spec fn wav_data_len(pcm_len: nat) -> int {
    within_or_zero(pcm_len as int, u32::MAX as int)
}

pub open spec fn wav_byte_rate(sample_rate: i32, bits_per_sample: i32, channels: i16) -> int {
    let sr = non_negative_or_zero(sample_rate as int);
    let ch = non_negative_or_zero(channels as int);
    let bytes = non_negative_or_zero(bits_per_sample as int) / 8;
    let partial = sr * ch;
    if partial > u32::MAX {
        0
    } else {
        within_or_zero(partial * bytes, u32::MAX as int)
    }
}

pub open spec fn wav_block_align(bits_per_sample: i32, channels: i16) -> int {
    let ch = non_negative_or_zero(channels as int);
    let bytes = within_or_zero(non_negative_or_zero(bits_per_sample as int) / 8, u16::MAX as int);
    within_or_zero(ch * bytes, u16::MAX as int)
}

/// A canonical 44-byte RIFF/WAVE header (PCM format tag) followed by `pcm`.
pub open spec fn wav_file(pcm: Seq<u8>, sample_rate: i32, bits_per_sample: i32, channels: i16) -> Seq<u8> {
    let data_len = wav_data_len(pcm.len());
    seq![82u8, 73, 70, 70] + le32(36 + data_len) + seq![87u8, 65, 86, 69] + seq![102u8, 109, 116, 32]
        + le32(16) + le16(1) + le16(twos(channels as int, 65536)) + le32(
        twos(sample_rate as int, 4294967296),
    ) + le32(wav_byte_rate(sample_rate, bits_per_sample, channels)) + le16(
        wav_block_align(bits_per_sample, channels),
    ) + le16(within_or_zero(non_negative_or_zero(bits_per_sample as int), u16::MAX as int))
        + seq![100u8, 97, 116, 97] + le32(data_len) + pcm
}

fn push4(v: &mut Vec<u8>, a: u8, b: u8, c: u8, d: u8)
    ensures
        final(v)@ == old(v)@ + seq![a, b, c, d],
{
    v.push(a);
    v.push(b);
    v.push(c);
    v.push(d);
    assert(v@ =~= old(v)@ + seq![a, b, c, d]);
}

/// The container adds exactly 44 header bytes in front of the PCM.
pub proof fn lemma_wav_file_len(pcm: Seq<u8>, sample_rate: i32, bits_per_sample: i32, channels: i16)
    ensures
        wav_file(pcm, sample_rate, bits_per_sample, channels).len() == 44 + pcm.len(),
        wav_file(pcm, sample_rate, bits_per_sample, channels).subrange(44, 44 + pcm.len() as int) == pcm,
{
    let w = wav_file(pcm, sample_rate, bits_per_sample, channels);
    assert(w.subrange(44, 44 + pcm.len() as int) =~= pcm);
}

/// The value of four bytes read little-endian.
pub open spec fn le32_value(b0: u8, b1: u8, b2: u8, b3: u8) -> int {
    b0 + 256 * b1 + 65536 * b2 + 16777216 * b3
}

/// The value of two bytes read little-endian.
pub open spec fn le16_value(b0: u8, b1: u8) -> int {
    b0 + 256 * b1
}

proof fn lemma_le32_reads_back(x: int)
    requires
        0 <= x <= u32::MAX,
    ensures
        le32_value(le32(x)[0], le32(x)[1], le32(x)[2], le32(x)[3]) == x,
{
    let y = x as u32;
    assert(y % 256 + 256 * ((y / 256) % 256) + 65536 * ((y / 65536) % 256) + 16777216 * ((y
        / 16777216) % 256) == y) by (bit_vector);
}

proof fn lemma_le16_reads_back(x: int)
    requires
        0 <= x <= u16::MAX,
    ensures
        le16_value(le16(x)[0], le16(x)[1]) == x,
{
    let y = x as u16;
    assert(y % 256 + 256 * ((y / 256) % 256) == y) by (bit_vector);
}

/// The size fields of the WAV container: read little-endian, the RIFF size
/// (bytes 4..8) is 36 plus the PCM length and the data chunk size (bytes
/// 40..44) is the PCM length, for PCM whose length fits. The channel count
/// (bytes 22..24) and the sample rate (bytes 24..28) are the ones given,
/// when not negative.
pub proof fn lemma_wav_header_fields(pcm: Seq<u8>, sample_rate: i32, bits_per_sample: i32, channels: i16)
    requires
        pcm.len() + 36 <= u32::MAX,
    ensures
        ({
            let w = wav_file(pcm, sample_rate, bits_per_sample, channels);
            &&& le32_value(w[4], w[5], w[6], w[7]) == 36 + pcm.len()
            &&& le32_value(w[40], w[41], w[42], w[43]) == pcm.len()
            &&& (sample_rate >= 0 ==> le32_value(w[24], w[25], w[26], w[27]) == sample_rate)
            &&& (channels >= 0 ==> le16_value(w[22], w[23]) == channels)
        }),
{
    let w = wav_file(pcm, sample_rate, bits_per_sample, channels);
    let n = pcm.len() as int;
    assert(wav_data_len(pcm.len()) == n);
    assert(w.subrange(4, 8) =~= le32(36 + n));
    assert(w.subrange(40, 44) =~= le32(n));
    assert(w.subrange(24, 28) =~= le32(twos(sample_rate as int, 4294967296)));
    assert(w.subrange(22, 24) =~= le16(twos(channels as int, 65536)));
    lemma_le32_reads_back(36 + n);
    lemma_le32_reads_back(n);
    assert(w[4] == w.subrange(4, 8)[0] && w[5] == w.subrange(4, 8)[1] && w[6] == w.subrange(4, 8)[2]
        && w[7] == w.subrange(4, 8)[3]);
    assert(w[40] == w.subrange(40, 44)[0] && w[41] == w.subrange(40, 44)[1] && w[42]
        == w.subrange(40, 44)[2] && w[43] == w.subrange(40, 44)[3]);
    if sample_rate >= 0 {
        lemma_le32_reads_back(sample_rate as int);
        assert(w[24] == w.subrange(24, 28)[0] && w[25] == w.subrange(24, 28)[1] && w[26]
            == w.subrange(24, 28)[2] && w[27] == w.subrange(24, 28)[3]);
    }
    if channels >= 0 {
        lemma_le16_reads_back(channels as int);
        assert(w[22] == w.subrange(22, 24)[0] && w[23] == w.subrange(22, 24)[1]);
    }
}

fn push_le16(v: &mut Vec<u8>, x: u16)
    ensures
        final(v)@ == old(v)@ + le16(x as int),
{
    v.push((x % 256) as u8);
    v.push(((x / 256) % 256) as u8);
    assert(v@ =~= old(v)@ + le16(x as int));
}

fn push_le32(v: &mut Vec<u8>, x: u32)
    ensures
        final(v)@ == old(v)@ + le32(x as int),
{
    v.push((x % 256) as u8);
    v.push(((x / 256) % 256) as u8);
    v.push(((x / 65536) % 256) as u8);
    v.push(((x / 16777216) % 256) as u8);
    assert(v@ =~= old(v)@ + le32(x as int));
}

fn push_all(v: &mut Vec<u8>, bytes: &[u8])
    ensures
        final(v)@ == old(v)@ + bytes@,
{
    let mut k: usize = 0;
    while k < bytes.len()
        invariant
            k <= bytes@.len(),
            v@ == old(v)@ + bytes@.subrange(0, k as int),
        decreases bytes@.len() - k,
    {
        v.push(bytes[k]);
        k = k + 1;
        assert(v@ =~= old(v)@ + bytes@.subrange(0, k as int));
    }
    assert(bytes@.subrange(0, bytes@.len() as int) =~= bytes@);
}

fn byte_rate_of(sample_rate: i32, bits_per_sample: i32, channels: i16) -> (r: u32)
    ensures
        r as int == wav_byte_rate(sample_rate, bits_per_sample, channels),
{
    let sr: u32 = if sample_rate >= 0 {
        sample_rate as u32
    } else {
        0
    };
    let ch: u32 = if channels >= 0 {
        channels as u32
    } else {
        0
    };
    let bytes: u32 = if bits_per_sample >= 0 {
        bits_per_sample as u32 / 8
    } else {
        0
    };
    if ch != 0 && sr > u32::MAX / ch {
        assert(sr as int * ch as int > u32::MAX) by (nonlinear_arith)
            requires
                ch > 0,
                sr > (u32::MAX as int) / (ch as int),
        ;
        return 0;
    }
    assert(sr as int * ch as int <= u32::MAX) by (nonlinear_arith)
        requires
            ch == 0 || sr <= (u32::MAX as int) / (ch as int),
    ;
    let partial = sr * ch;
    if bytes != 0 && partial > u32::MAX / bytes {
        assert(partial as int * bytes as int > u32::MAX) by (nonlinear_arith)
            requires
                bytes > 0,
                partial > (u32::MAX as int) / (bytes as int),
        ;
        return 0;
    }
    assert(partial as int * bytes as int <= u32::MAX) by (nonlinear_arith)
        requires
            bytes == 0 || partial <= (u32::MAX as int) / (bytes as int),
    ;
    partial * bytes
}

fn block_align_of(bits_per_sample: i32, channels: i16) -> (r: u16)
    ensures
        r as int == wav_block_align(bits_per_sample, channels),
{
    let ch: u32 = if channels >= 0 {
        channels as u32
    } else {
        0
    };
    let bytes: u32 = if bits_per_sample >= 0 && bits_per_sample as u32 / 8 <= u16::MAX as u32 {
        bits_per_sample as u32 / 8
    } else {
        0
    };
    assert(ch as int * bytes as int <= 32767 * 65535) by (nonlinear_arith)
        requires
            ch <= 32767,
            bytes <= 65535,
    ;
    let product = ch * bytes;
    if product > u16::MAX as u32 {
        0
    } else {
        product as u16
    }
}

/// Wrap raw little-endian PCM into a WAV container. A PCM length whose data
/// chunk size would not leave room for the RIFF size field (within 36 bytes
/// of the 32-bit limit) is refused, as the size sum overflows there.
pub fn pcm_to_wav(pcm: &[u8], sample_rate: i32, bits_per_sample: i32, channels: i16) -> (r: Vec<u8>)
    requires
        pcm@.len() > u32::MAX || pcm@.len() + 36 <= u32::MAX,
    ensures
        r@ == wav_file(pcm@, sample_rate, bits_per_sample, channels),
{
    let data_len: u32 = if pcm.len() <= u32::MAX as usize {
        pcm.len() as u32
    } else {
        0
    };
    let byte_rate = byte_rate_of(sample_rate, bits_per_sample, channels);
    let block_align = block_align_of(bits_per_sample, channels);
    let bps16: u16 = if bits_per_sample >= 0 && bits_per_sample <= u16::MAX as i32 {
        bits_per_sample as u16
    } else {
        0
    };
    let channels_raw: u16 = if channels >= 0 {
        channels as u16
    } else {
        (channels as i32 + 65536) as u16
    };
    let rate_raw: u32 = if sample_rate >= 0 {
        sample_rate as u32
    } else {
        (sample_rate as i64 + 4294967296) as u32
    };
    let mut wav: Vec<u8> = Vec::new();
    push4(&mut wav, 82u8, 73u8, 70u8, 70u8);
    assert(wav@ =~= seq![82u8, 73, 70, 70]);
    push_le32(&mut wav, 36u32 + data_len);
    push4(&mut wav, 87u8, 65u8, 86u8, 69u8);
    push4(&mut wav, 102u8, 109u8, 116u8, 32u8);
    push_le32(&mut wav, 16u32);
    push_le16(&mut wav, 1u16);
    push_le16(&mut wav, channels_raw);
    push_le32(&mut wav, rate_raw);
    push_le32(&mut wav, byte_rate);
    push_le16(&mut wav, block_align);
    push_le16(&mut wav, bps16);
    push4(&mut wav, 100u8, 97u8, 116u8, 97u8);
    push_le32(&mut wav, data_len);
    push_all(&mut wav, pcm);
    wav
}

/// Sample rate, bit depth and channel count of the WAV written around
/// decoded SILK audio (16 kHz, 16-bit, mono).
pub const DECODED_SAMPLE_RATE: i32 = 16000;

/// The transcode result for SILK audio decoded to 16 kHz mono 16-bit PCM:
/// `None` when decoding failed, otherwise the PCM in a WAV container.
pub fn wav_from_decoded_silk(decoded_pcm: Option<Vec<u8>>) -> (r: Option<TranscodeResult>)
    requires
        decoded_pcm matches Some(p) ==> (p@.len() > u32::MAX || p@.len() + 36 <= u32::MAX),
    ensures
        match decoded_pcm {
            None => r is None,
            Some(p) => r matches Some(t) && t.data@ == wav_file(p@, 16000, 16, 1)
                && t.format@ == "wav"@,
        },
{
    match decoded_pcm {
        None => None,
        Some(pcm) => {
            let wav = pcm_to_wav(pcm.as_slice(), DECODED_SAMPLE_RATE, 16, 1);
            Some(TranscodeResult { data: wav, format: String::from_str("wav") })
        },
    }
}

// ---------------------------------------------------------------------------
// PCM for the SILK encoder
// ---------------------------------------------------------------------------

/// Sum of the `c` samples of the frame starting at `start`.
pub open spec fn frame_sum(s: Seq<i16>, start: int, c: nat) -> int
    decreases c,
{
    if c == 0 {
        0
    } else {
        frame_sum(s, start, (c - 1) as nat) + s[start + c - 1] as int
    }
}

/// Integer division rounding toward zero (Rust's `/`).
pub open spec fn trunc_div(a: int, b: int) -> int {
    if a >= 0 {
        a / b
    } else {
        -((-a) / b)
    }
}

/// Mono samples: each frame of `c` interleaved samples replaced by their
/// average (rounded toward zero); a single channel is kept as is.
pub open spec fn downmix(s: Seq<i16>, c: nat) -> Seq<i16> {
    if c == 1 {
        s
    } else {
        Seq::new(s.len() / c, |i: int| trunc_div(frame_sum(s, i * c, c), c as int) as i16)
    }
}

/// Little-endian bytes of each sample.
pub open spec fn pcm_bytes(s: Seq<i16>) -> Seq<u8>
    decreases s.len(),
{
    if s.len() == 0 {
        seq![]
    } else {
        pcm_bytes(s.drop_last()) + le16(twos(s.last() as int, 65536))
    }
}

/// SILK encoder bit rate used for outgoing voice.
pub const SILK_BIT_RATE: i32 = 24000;

/// What the SILK encoder is called with: little-endian mono 16-bit PCM, its
/// sample rate, the bit rate, and the Tencent flavour flag.
pub struct SilkEncoderInput {
    pub pcm: Vec<u8>,
    pub sample_rate: i32,
    pub bit_rate: i32,
    pub tencent: bool,
}

/// The WAV sample rate as `i32`, 16000 when it does not fit.
pub open spec fn encoder_rate(h: WavHeader) -> i32 {
    if h.sample_rate <= i32::MAX {
        h.sample_rate as i32
    } else {
        16000
    }
}

/// 16-bit integer samples, the only WAV sample format the encoder takes.
pub open spec fn is_pcm16(h: WavHeader) -> bool {
    h.bits_per_sample == 16 && h.sample_format == SampleFormat::Int
}

/// Whether `r` is the encoder input for the samples `s` of a WAV stream with
/// header `h`: the down-mixed PCM at the stream's sample rate, 24 kbps,
/// Tencent flavour.
pub open spec fn encoder_input_of(h: WavHeader, s: Seq<i16>, r: Option<SilkEncoderInput>) -> bool {
    r matches Some(input) && input.pcm@ == pcm_bytes(downmix(s, h.channels as nat))
        && input.sample_rate == encoder_rate(h) && input.bit_rate == 24000 && input.tencent
}

/// Whether the encoder input for `wav` is `r`: `None` unless the WAV header
/// reads, says 16-bit integer samples and all samples read; otherwise the
/// encoder input of the header and samples.
pub open spec fn encoder_input_for(wav: Seq<u8>, r: Option<SilkEncoderInput>) -> bool {
    match wav_header_of(wav) {
        None => r is None,
        Some(h) => if !is_pcm16(h) {
            r is None
        } else {
            match wav_samples_of(wav) {
                None => r is None,
                Some(s) => encoder_input_of(h, s, r),
            }
        },
    }
}

/// Each 16-bit sample as two little-endian bytes, in order.
proof fn lemma_pcm_bytes_layout(s: Seq<i16>)
    ensures
        pcm_bytes(s).len() == 2 * s.len(),
        forall|k: int| 0 <= k < s.len() ==> le16_value(#[trigger] pcm_bytes(s)[2 * k], pcm_bytes(s)[2 * k + 1])
            == twos(s[k] as int, 65536),
    decreases s.len(),
{
    if s.len() > 0 {
        let p = s.drop_last();
        lemma_pcm_bytes_layout(p);
        let x = twos(s.last() as int, 65536);
        lemma_le16_reads_back(x);
        let b = pcm_bytes(s);
        assert(b == pcm_bytes(p) + le16(x));
        assert forall|k: int| 0 <= k < s.len() implies le16_value(#[trigger] b[2 * k], b[2 * k + 1])
            == twos(s[k] as int, 65536) by {
            if k < p.len() {
                assert(s[k] == p[k]);
                assert(b[2 * k] == pcm_bytes(p)[2 * k]);
                assert(b[2 * k + 1] == pcm_bytes(p)[2 * k + 1]);
            } else {
                assert(b[2 * k] == le16(x)[0]);
                assert(b[2 * k + 1] == le16(x)[1]);
            }
        }
    }
}

/// What the SILK encoder gets from a 16-bit integer WAV: the stream's own
/// sample rate whenever it fits in `i32` (16000 only when it does not),
/// 24 kbps, the Tencent flavour, and one 16-bit little-endian sample per
/// frame; mono samples are passed through unchanged.
pub proof fn lemma_encoder_input_fields(h: WavHeader, s: Seq<i16>, r: Option<SilkEncoderInput>)
    requires
        h.channels >= 1,
        encoder_input_of(h, s, r),
    ensures
        r matches Some(input) && {
            &&& h.sample_rate <= i32::MAX ==> input.sample_rate == h.sample_rate
            &&& h.sample_rate > i32::MAX ==> input.sample_rate == 16000
            &&& input.bit_rate == 24000
            &&& input.tencent
            &&& input.pcm@.len() == 2 * (s.len() / (h.channels as nat))
            &&& h.channels == 1 ==> forall|k: int| 0 <= k < s.len() ==> le16_value(
                #[trigger] input.pcm@[2 * k],
                input.pcm@[2 * k + 1],
            ) == twos(s[k] as int, 65536)
            &&& h.channels == 2 ==> forall|k: int| 0 <= k < s.len() / 2 ==> le16_value(
                #[trigger] input.pcm@[2 * k],
                input.pcm@[2 * k + 1],
            ) == twos(
                {
                    let t = s[2 * k] + s[2 * k + 1];
                    if t >= 0 {
                        t / 2
                    } else {
                        -((-t) / 2)
                    }
                },
                65536,
            )
        },
{
    let c = h.channels as nat;
    let m = downmix(s, c);
    lemma_pcm_bytes_layout(m);
    if c == 1 {
        assert(s.len() / 1 == s.len());
    }
    if c == 2 {
        assert forall|k: int| 0 <= k < s.len() / 2 implies m[k] as int == trunc_div(
            s[2 * k] + s[2 * k + 1],
            2,
        ) by {
            assert(k * 2 + 1 < s.len()) by (nonlinear_arith)
                requires
                    0 <= k < s.len() / 2,
            ;
            assert(k * 2 == 2 * k);
            assert(frame_sum(s, k * 2, 0) == 0);
            assert(frame_sum(s, k * 2, 1) == s[2 * k]);
            assert(frame_sum(s, k * 2, 2) == s[2 * k] + s[2 * k + 1]);
            lemma_average_fits(s[2 * k] + s[2 * k + 1], 2);
        }
    }
}

proof fn lemma_frame_sum_bounds(s: Seq<i16>, start: int, c: nat)
    requires
        0 <= start,
        start + c <= s.len(),
    ensures
        -32768 * c <= frame_sum(s, start, c) <= 32767 * c,
    decreases c,
{
    if c > 0 {
        lemma_frame_sum_bounds(s, start, (c - 1) as nat);
    }
}

proof fn lemma_average_fits(sum: int, c: int)
    requires
        c >= 1,
        -32768 * c <= sum <= 32767 * c,
    ensures
        -32768 <= trunc_div(sum, c) <= 32767,
{
    if sum >= 0 {
        assert(sum / c <= 32767) by (nonlinear_arith)
            requires
                c >= 1,
                0 <= sum <= 32767 * c,
        ;
        assert(sum / c >= 0) by (nonlinear_arith)
            requires
                c >= 1,
                0 <= sum,
        ;
    } else {
        assert((-sum) / c <= 32768) by (nonlinear_arith)
            requires
                c >= 1,
                0 < -sum <= 32768 * c,
        ;
        assert((-sum) / c >= 0) by (nonlinear_arith)
            requires
                c >= 1,
                0 < -sum,
        ;
    }
}

/// Average each frame of `c` interleaved samples.
fn downmix_samples(s: &Vec<i16>, c: u16) -> (r: Vec<i16>)
    requires
        c >= 1,
    ensures
        r@ == downmix(s@, c as nat),
{
    if c == 1 {
        return s.clone();
    }
    let cc = c as usize;
    let frames = s.len() / cc;
    let mut out: Vec<i16> = Vec::new();
    let mut i: usize = 0;
    while i < frames
        invariant
            cc == c as usize,
            cc >= 2,
            frames == (s@.len() as int) / (cc as int),
            i <= frames,
            out@.len() == i,
            forall|f: int| 0 <= f < i ==> #[trigger] out@[f] == trunc_div(frame_sum(s@, f * cc, cc as nat), cc as int) as i16,
        decreases frames - i,
    {
        assert(i * cc + cc <= s.len()) by (nonlinear_arith)
            requires
                i < frames,
                frames == (s.len() as int) / (cc as int),
                cc >= 2,
        ;
        let base = i * cc;
        let mut sum: i32 = 0;
        let mut j: usize = 0;
        while j < cc
            invariant
                cc == c as usize,
                cc >= 2,
                base == i * cc,
                base + cc <= s.len(),
                j <= cc,
                sum as int == frame_sum(s@, base as int, j as nat),
            decreases cc - j,
        {
            proof {
                lemma_frame_sum_bounds(s@, base as int, j as nat);
                assert(32767 * (j as int) <= 32767 * 65535) by (nonlinear_arith)
                    requires
                        j < 65535,
                ;
                assert(-32768 * (j as int) >= -32768 * 65535) by (nonlinear_arith)
                    requires
                        j < 65535,
                ;
            }
            let x = s[base + j];
            assert(-2147483648 <= sum + x <= 2147483647);
            sum = sum + x as i32;
            j = j + 1;
        }
        proof {
            lemma_frame_sum_bounds(s@, base as int, cc as nat);
            lemma_average_fits(sum as int, cc as int);
        }
        let divisor = cc as i32;
        let avg: i32 = if sum >= 0 {
            sum / divisor
        } else {
            -((-sum) / divisor)
        };
        out.push(avg as i16);
        i = i + 1;
    }
    assert(out@ =~= downmix(s@, c as nat));
    out
}

fn pcm_le_bytes(s: &Vec<i16>) -> (r: Vec<u8>)
    ensures
        r@ == pcm_bytes(s@),
{
    let mut out: Vec<u8> = Vec::new();
    let mut k: usize = 0;
    while k < s.len()
        invariant
            k <= s@.len(),
            out@ == pcm_bytes(s@.subrange(0, k as int)),
        decreases s@.len() - k,
    {
        let x = s[k];
        let raw: u16 = if x >= 0 {
            x as u16
        } else {
            (x as i32 + 65536) as u16
        };
        push_le16(&mut out, raw);
        proof {
            let next = s@.subrange(0, k + 1);
            assert(next.drop_last() =~= s@.subrange(0, k as int));
            assert(next.last() == x);
        }
        k = k + 1;
    }
    assert(s@.subrange(0, s@.len() as int) =~= s@);
    out
}

fn pcm16(h: &WavHeader) -> (r: bool)
    ensures
        r == is_pcm16(*h),
{
    h.bits_per_sample == 16 && h.sample_format == SampleFormat::Int
}

/// The SILK encoder input from a WAV header and the samples read after it:
/// `None` unless the header says 16-bit integer samples; otherwise the
/// samples mixed down to mono by averaging, as little-endian PCM, at the
/// stream's sample rate.
pub fn encoder_input(header: WavHeader, samples: &Vec<i16>) -> (r: Option<SilkEncoderInput>)
    requires
        header.channels >= 1,
    ensures
        !is_pcm16(header) ==> r is None,
        is_pcm16(header) ==> encoder_input_of(header, samples@, r),
{
    if !pcm16(&header) {
        return None;
    }
    let mono = downmix_samples(samples, header.channels);
    let pcm = pcm_le_bytes(&mono);
    let sample_rate: i32 = if header.sample_rate <= i32::MAX as u32 {
        header.sample_rate as i32
    } else {
        16000
    };
    Some(SilkEncoderInput { pcm, sample_rate, bit_rate: SILK_BIT_RATE, tencent: true })
}

/// Prepare the SILK encoder input from WAV bytes: 16-bit integer PCM only,
/// multi-channel audio mixed down to mono by averaging.
pub fn silk_encoder_input(wav_data: &[u8]) -> (r: Option<SilkEncoderInput>)
    ensures
        encoder_input_for(wav_data@, r),
{
    let header = match read_wav_header(wav_data) {
        Some(h) => h,
        None => return None,
    };
    if !pcm16(&header) {
        return None;
    }
    let samples = match read_wav_samples_i16(wav_data) {
        Some(s) => s,
        None => return None,
    };
    encoder_input(header, &samples)
}

} // verus!
