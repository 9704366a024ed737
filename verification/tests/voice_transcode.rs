use weixin_agent::client::WeixinClientBuilder;
use weixin_agent::error::Error;
use weixin_agent::media::remote_download::{check_download_size, check_download_status, MAX_DOWNLOAD_SIZE};
use weixin_agent::media::voice_transcode::{
    encoder_input, is_silk_format, pcm_to_wav, silk_encoder_input, wav_from_decoded_silk,
};
use weixin_agent::media::wav::{SampleFormat, WavHeader};

fn wav_bytes(channels: u16, rate: u32, samples: &[i16]) -> Vec<u8> {
    let mut v = Vec::new();
    let data_len = (samples.len() * 2) as u32;
    v.extend_from_slice(b"RIFF");
    v.extend_from_slice(&(36 + data_len).to_le_bytes());
    v.extend_from_slice(b"WAVEfmt ");
    v.extend_from_slice(&16u32.to_le_bytes());
    v.extend_from_slice(&1u16.to_le_bytes());
    v.extend_from_slice(&channels.to_le_bytes());
    v.extend_from_slice(&rate.to_le_bytes());
    v.extend_from_slice(&(rate * channels as u32 * 2).to_le_bytes());
    v.extend_from_slice(&(channels * 2).to_le_bytes());
    v.extend_from_slice(&16u16.to_le_bytes());
    v.extend_from_slice(b"data");
    v.extend_from_slice(&data_len.to_le_bytes());
    for s in samples {
        v.extend_from_slice(&s.to_le_bytes());
    }
    v
}

#[test]
fn silk_header_detection() {
    assert!(is_silk_format(b"\x02#!SILK_V3\x00"));
    assert!(is_silk_format(b"x#!SILK_V3abc"));
    assert!(!is_silk_format(b"\x02#!SILK_V3"));
    assert!(!is_silk_format(b"\x02#!SILK_V2\x00"));
    assert!(!is_silk_format(b""));
}

#[test]
fn pcm_to_wav_header_layout() {
    let pcm = [1u8, 2, 3, 4];
    let wav = pcm_to_wav(&pcm, 16000, 16, 1);
    assert_eq!(wav.len(), 48);
    assert_eq!(&wav[0..4], b"RIFF");
    assert_eq!(&wav[4..8], &40u32.to_le_bytes());
    assert_eq!(&wav[8..16], b"WAVEfmt ");
    assert_eq!(&wav[16..20], &16u32.to_le_bytes());
    assert_eq!(&wav[20..22], &1u16.to_le_bytes());
    assert_eq!(&wav[22..24], &1u16.to_le_bytes());
    assert_eq!(&wav[24..28], &16000u32.to_le_bytes());
    assert_eq!(&wav[28..32], &32000u32.to_le_bytes());
    assert_eq!(&wav[32..34], &2u16.to_le_bytes());
    assert_eq!(&wav[34..36], &16u16.to_le_bytes());
    assert_eq!(&wav[36..40], b"data");
    assert_eq!(&wav[40..44], &4u32.to_le_bytes());
    assert_eq!(&wav[44..], &pcm);
}

#[test]
fn pcm_to_wav_odd_parameters() {
    let wav = pcm_to_wav(&[], -1, -8, -2);
    assert_eq!(&wav[22..24], &(-2i16).to_le_bytes());
    assert_eq!(&wav[24..28], &(-1i32).to_le_bytes());
    assert_eq!(&wav[28..32], &0u32.to_le_bytes());
    assert_eq!(&wav[32..34], &0u16.to_le_bytes());
    assert_eq!(&wav[34..36], &0u16.to_le_bytes());
    let big = pcm_to_wav(&[], i32::MAX, 16, 2);
    assert_eq!(&big[28..32], &0u32.to_le_bytes());
}

#[test]
fn decoded_silk_becomes_wav() {
    assert!(wav_from_decoded_silk(None).is_none());
    let r = wav_from_decoded_silk(Some(vec![0, 0, 1, 0])).unwrap();
    assert_eq!(r.format, "wav");
    assert_eq!(r.data, pcm_to_wav(&[0, 0, 1, 0], 16000, 16, 1));
}

#[test]
fn encoder_input_from_mono_wav() {
    let wav = wav_bytes(1, 24000, &[1, -2, 300]);
    let input = silk_encoder_input(&wav).unwrap();
    assert_eq!(input.pcm, vec![1, 0, 0xfe, 0xff, 44, 1]);
    assert_eq!(input.sample_rate, 24000);
    assert_eq!(input.bit_rate, 24000);
    assert!(input.tencent);
}

#[test]
fn encoder_input_mixes_stereo_down() {
    let wav = wav_bytes(2, 16000, &[10, 20, -3, -4, 32767, 32767, -32768, -32768]);
    let input = silk_encoder_input(&wav).unwrap();
    let mono: Vec<i16> = input.pcm.chunks(2).map(|c| i16::from_le_bytes([c[0], c[1]])).collect();
    assert_eq!(mono, vec![15, -3, 32767, -32768]);
}

#[test]
fn encoder_input_rejects_non_wav_and_other_depths() {
    assert!(silk_encoder_input(b"not a wav").is_none());
    let mut eight_bit = wav_bytes(1, 8000, &[]);
    eight_bit[34] = 8;
    eight_bit[32] = 1;
    eight_bit[28..32].copy_from_slice(&8000u32.to_le_bytes());
    assert!(silk_encoder_input(&eight_bit).is_none());
}

#[test]
fn download_checks() {
    assert!(check_download_status(true, "200 OK").is_ok());
    match check_download_status(false, "404 Not Found") {
        Err(Error::CdnUpload(m)) => assert_eq!(m, "failed to download remote file: status 404 Not Found"),
        other => panic!("unexpected {other:?}"),
    }
    assert!(check_download_size(MAX_DOWNLOAD_SIZE).is_ok());
    assert!(matches!(check_download_size(MAX_DOWNLOAD_SIZE + 1), Err(Error::CdnUpload(_))));
}

#[test]
fn builder_requires_a_handler() {
    let built = WeixinClientBuilder::<u32, &str>::new(7).on_message("h").build();
    assert_eq!(built.ok(), Some((7, "h")));
    match WeixinClientBuilder::<u32, &str>::new(7).build() {
        Err(Error::Config(m)) => assert_eq!(m, "message handler is required"),
        other => panic!("unexpected {other:?}"),
    }
}

#[test]
fn encoder_input_mixes_down_and_keeps_rate() {
    let header = WavHeader { channels: 2, sample_rate: 16000, bits_per_sample: 16, sample_format: SampleFormat::Int };
    let input = encoder_input(header, &vec![100, 300, -5, -6]).expect("16-bit integer samples");
    // (100 + 300) / 2 = 200 and (-5 + -6) / 2 = -5, rounded toward zero.
    assert_eq!(input.pcm, vec![200, 0, 0xfb, 0xff]);
    assert_eq!(input.sample_rate, 16000);
    assert_eq!(input.bit_rate, 24000);
    assert!(input.tencent);
    let huge = WavHeader { sample_rate: u32::MAX, ..header };
    assert_eq!(encoder_input(huge, &vec![]).unwrap().sample_rate, 16000);
}

#[test]
fn encoder_input_refuses_other_sample_formats() {
    let float = WavHeader { channels: 1, sample_rate: 8000, bits_per_sample: 32, sample_format: SampleFormat::Float };
    assert!(encoder_input(float, &vec![1, 2]).is_none());
    let eight = WavHeader { channels: 1, sample_rate: 8000, bits_per_sample: 8, sample_format: SampleFormat::Int };
    assert!(encoder_input(eight, &vec![1, 2]).is_none());
}
