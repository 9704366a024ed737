use weixin_agent::media::mime::get_mime_from_filename;
use weixin_agent::messaging::error_notice::{error_notice_message, ErrorNoticeKind};
use weixin_agent::messaging::send_media::{
    build_file_item, media_send_steps, MediaSendStep, build_image_item, build_media_item, build_video_item, build_voice_item,
    media_upload_type, upload_file_name, voice_encode_type, voice_encode_type_from_filename,
    voice_source, voice_temp_file_name, CdnUploadResult, MessageItemType, UploadMediaType, VoiceEncodeType,
    VoiceSource,
};

fn fake_upload() -> CdnUploadResult {
    CdnUploadResult {
        encrypt_query_param: "q".to_string(),
        aes_key_base64: "k".to_string(),
        aes_key_hex: "6b6579".to_string(),
        file_size: 1234,
        file_size_ciphertext: 1248,
        filekey: "fk".to_string(),
    }
}

#[test]
fn voice_encode_type_inferred_from_extension() {
    assert_eq!(voice_encode_type_from_filename("clip.mp3"), VoiceEncodeType::Mp3);
    assert_eq!(voice_encode_type_from_filename("clip.ogg"), VoiceEncodeType::OggSpeex);
    assert_eq!(voice_encode_type_from_filename("clip.wav"), VoiceEncodeType::Pcm);
    assert_eq!(voice_encode_type_from_filename("clip.xyz"), VoiceEncodeType::Mp3);
    assert_eq!(voice_encode_type_from_filename("clip.amr"), VoiceEncodeType::Mp3);
}

#[test]
fn build_voice_item_sets_voice_type_and_fields() {
    let item = build_voice_item(&fake_upload(), VoiceEncodeType::Mp3, Some(3500));
    assert_eq!(item.item_type, Some(MessageItemType::Voice));
    let voice = item.voice_item.expect("voice_item present");
    assert_eq!(voice.encode_type, Some(VoiceEncodeType::Mp3.code()));
    assert_eq!(voice.playtime, Some(3500));
    assert!(voice.media.is_some());
    assert!(item.image_item.is_none());
    assert!(item.file_item.is_none());
}

#[test]
fn build_voice_item_allows_unknown_duration() {
    let item = build_voice_item(&fake_upload(), VoiceEncodeType::Mp3, None);
    let voice = item.voice_item.expect("voice_item present");
    assert_eq!(voice.playtime, None);
}

#[test]
fn media_items_carry_base64_of_hex_key() {
    let image = build_image_item(&fake_upload()).image_item.unwrap();
    assert_eq!(image.mid_size, Some(1248));
    let media = image.media.unwrap();
    assert_eq!(media.aes_key.as_deref(), Some("NmI2NTc5"));
    assert_eq!(media.encrypt_query_param.as_deref(), Some("q"));
    assert_eq!(media.encrypt_type, Some(1));
    let video = build_video_item(&fake_upload());
    assert_eq!(video.item_type, Some(MessageItemType::Video));
    assert_eq!(video.video_item.unwrap().video_size, Some(1248));
    let file = build_file_item("doc.pdf", &fake_upload());
    let f = file.file_item.unwrap();
    assert_eq!(f.file_name.as_deref(), Some("doc.pdf"));
    assert_eq!(f.len.as_deref(), Some("1234"));
}

#[test]
fn huge_ciphertext_size_wraps() {
    let mut up = fake_upload();
    up.file_size_ciphertext = u64::MAX;
    assert_eq!(build_image_item(&up).image_item.unwrap().mid_size, Some(-1));
}

#[test]
fn media_routing_by_mime() {
    assert_eq!(media_upload_type("a.MP4"), UploadMediaType::Video);
    assert_eq!(media_upload_type("a.jpeg"), UploadMediaType::Image);
    assert_eq!(media_upload_type("a.pdf"), UploadMediaType::File);
    assert_eq!(media_upload_type("noext"), UploadMediaType::File);
    let item = build_media_item(UploadMediaType::Image, "a.png", &fake_upload());
    assert_eq!(item.item_type, Some(MessageItemType::Image));
    assert_eq!(upload_file_name(None), "file.bin");
    assert_eq!(upload_file_name(Some("x.png")), "x.png");
}

#[test]
fn mime_from_filename() {
    assert_eq!(get_mime_from_filename("clip.mp3"), "audio/mpeg");
    assert_eq!(get_mime_from_filename("photo.JPG"), "image/jpeg");
    assert_eq!(get_mime_from_filename("dir.v2/archive.tar.gz"), "application/gzip");
    assert_eq!(get_mime_from_filename(".png"), "application/octet-stream");
    assert_eq!(get_mime_from_filename("dir.png/file"), "application/octet-stream");
    assert_eq!(get_mime_from_filename("file."), "application/octet-stream");
}

#[test]
fn voice_encode_type_by_source() {
    assert_eq!(voice_encode_type(VoiceSource::AlreadySilk, "a.mp3"), VoiceEncodeType::Silk);
    assert_eq!(voice_encode_type(VoiceSource::Transcoded, "a.wav"), VoiceEncodeType::Silk);
    assert_eq!(voice_encode_type(VoiceSource::AsGiven, "a.wav"), VoiceEncodeType::Pcm);
    assert_eq!(VoiceEncodeType::Silk.code(), 6);
    assert_eq!(VoiceEncodeType::OggSpeex.code(), 8);
}

#[test]
fn voice_temp_file_name_format() {
    assert_eq!(voice_temp_file_name(0xab), "weixin-voice-00000000000000ab.silk");
    assert_eq!(voice_temp_file_name(u64::MAX), format!("weixin-voice-{:016x}.silk", u64::MAX));
}

#[test]
fn error_notice_texts() {
    assert_eq!(error_notice_message(ErrorNoticeKind::MediaDownload, "x"), "[系统提示] 媒体文件处理失败: x");
    assert_eq!(error_notice_message(ErrorNoticeKind::CdnUpload, "y"), "[系统提示] 文件上传失败: y");
    assert_eq!(error_notice_message(ErrorNoticeKind::General, "z"), "[系统提示] 处理出错: z");
}

#[test]
fn voice_source_three_way_choice() {
    let mut silk = vec![2u8];
    silk.extend_from_slice(b"#!SILK_V3");
    silk.push(0);
    assert_eq!(voice_source(&silk, false), VoiceSource::AlreadySilk);
    assert_eq!(voice_source(&silk, true), VoiceSource::AlreadySilk);
    let wav = b"RIFF....WAVEfmt ".to_vec();
    assert_eq!(voice_source(&wav, true), VoiceSource::Transcoded);
    assert_eq!(voice_source(&wav, false), VoiceSource::AsGiven);
    // The magic alone, without a byte after it, is not SILK.
    assert_eq!(voice_source(&silk[..10], false), VoiceSource::AsGiven);
}

#[test]
fn media_send_puts_text_first_then_one_media_item() {
    let item = build_file_item("a.pdf", &fake_upload());
    let steps = media_send_steps("", item.clone());
    assert_eq!(steps.len(), 1);
    assert!(matches!(&steps[0], MediaSendStep::Media(m) if m.file_item.is_some()));
    let steps = media_send_steps("看这个", item);
    assert_eq!(steps.len(), 2);
    assert!(matches!(&steps[0], MediaSendStep::Text(t) if t == "看这个"));
    assert!(matches!(&steps[1], MediaSendStep::Media(m) if m.file_item.is_some()));
}
