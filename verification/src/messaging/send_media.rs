//! Media messages: routing a file by MIME type, the message items that
//! describe an uploaded file, and the voice encoding to declare.

use vstd::prelude::*;
use vstd::utf8::encode_utf8;
use vstd::string::StringSliceAdditionalSpecFns;
use crate::codec::{base64_encode, base64_standard};
use crate::media::mime::{get_mime_from_filename, mime_of};
use crate::media::voice_transcode::{is_silk, is_silk_format};
use crate::text::{chars_of, chars_equal, decimal, has_prefix, hex_digits, push_decimal, push_hex, starts_with};

verus! {

/// Kind of an item in a message.
#[derive(Debug, Clone, Copy, PartialEq, Eq, Structural)]
pub enum MessageItemType {
    Text,
    Image,
    Voice,
    File,
    Video,
}

/// Protocol code of an item kind.
pub open spec fn item_type_code(t: MessageItemType) -> i32 {
    match t {
        MessageItemType::Text => 1,
        MessageItemType::Image => 2,
        MessageItemType::Voice => 3,
        MessageItemType::File => 4,
        MessageItemType::Video => 5,
    }
}

impl MessageItemType {
    pub fn code(&self) -> (r: i32)
        ensures
            r == item_type_code(*self),
    {
        match self {
            MessageItemType::Text => 1,
            MessageItemType::Image => 2,
            MessageItemType::Voice => 3,
            MessageItemType::File => 4,
            MessageItemType::Video => 5,
        }
    }
}

/// Media category of a CDN upload.
#[derive(Debug, Clone, Copy, PartialEq, Eq, Structural)]
pub enum UploadMediaType {
    Image,
    Video,
    File,
    Voice,
}

pub open spec fn upload_type_code(t: UploadMediaType) -> i32 {
    match t {
        UploadMediaType::Image => 1,
        UploadMediaType::Video => 2,
        UploadMediaType::File => 3,
        UploadMediaType::Voice => 4,
    }
}

impl UploadMediaType {
    pub fn code(&self) -> (r: i32)
        ensures
            r == upload_type_code(*self),
    {
        match self {
            UploadMediaType::Image => 1,
            UploadMediaType::Video => 2,
            UploadMediaType::File => 3,
            UploadMediaType::Voice => 4,
        }
    }
}

/// Voice `encode_type` values.
#[derive(Debug, Clone, Copy, PartialEq, Eq, Structural)]
pub enum VoiceEncodeType {
    Pcm,
    Adpcm,
    Feature,
    Speex,
    Amr,
    Silk,
    Mp3,
    OggSpeex,
}

pub open spec fn encode_type_code(t: VoiceEncodeType) -> i32 {
    match t {
        VoiceEncodeType::Pcm => 1,
        VoiceEncodeType::Adpcm => 2,
        VoiceEncodeType::Feature => 3,
        VoiceEncodeType::Speex => 4,
        VoiceEncodeType::Amr => 5,
        VoiceEncodeType::Silk => 6,
        VoiceEncodeType::Mp3 => 7,
        VoiceEncodeType::OggSpeex => 8,
    }
}

impl VoiceEncodeType {
    /// The protocol's `encode_type` number.
    pub fn code(&self) -> (r: i32)
        ensures
            r == encode_type_code(*self),
    {
        match self {
            VoiceEncodeType::Pcm => 1,
            VoiceEncodeType::Adpcm => 2,
            VoiceEncodeType::Feature => 3,
            VoiceEncodeType::Speex => 4,
            VoiceEncodeType::Amr => 5,
            VoiceEncodeType::Silk => 6,
            VoiceEncodeType::Mp3 => 7,
            VoiceEncodeType::OggSpeex => 8,
        }
    }
}

/// What the CDN upload reports about an uploaded file.
#[derive(Debug, Clone)]
pub struct CdnUploadResult {
    pub encrypt_query_param: String,
    pub aes_key_base64: String,
    pub aes_key_hex: String,
    pub file_size: u64,
    pub file_size_ciphertext: u64,
    pub filekey: String,
}

/// Reference to encrypted media on the CDN.
#[derive(Debug, Clone)]
pub struct CdnMedia {
    pub encrypt_query_param: Option<String>,
    pub aes_key: Option<String>,
    pub encrypt_type: Option<i32>,
}

#[derive(Debug, Clone)]
pub struct ImageItem {
    pub media: Option<CdnMedia>,
    pub mid_size: Option<i64>,
}

#[derive(Debug, Clone)]
pub struct VideoItem {
    pub media: Option<CdnMedia>,
    pub video_size: Option<i64>,
}

#[derive(Debug, Clone)]
pub struct FileItem {
    pub media: Option<CdnMedia>,
    pub file_name: Option<String>,
    pub len: Option<String>,
}

#[derive(Debug, Clone)]
pub struct VoiceItem {
    pub media: Option<CdnMedia>,
    pub encode_type: Option<i32>,
    pub playtime: Option<i64>,
}

/// One item of a message; exactly the field matching `item_type` is set.
#[derive(Debug, Clone)]
pub struct MessageItem {
    pub item_type: Option<MessageItemType>,
    pub image_item: Option<ImageItem>,
    pub voice_item: Option<VoiceItem>,
    pub file_item: Option<FileItem>,
    pub video_item: Option<VideoItem>,
}

// ---------------------------------------------------------------------------
// Routing
// ---------------------------------------------------------------------------

/// Upload category of a MIME type: video, image, or a generic file.
pub open spec fn upload_type_for_mime(mime: Seq<char>) -> UploadMediaType {
    if starts_with(mime, "video/"@) {
        UploadMediaType::Video
    } else if starts_with(mime, "image/"@) {
        UploadMediaType::Image
    } else {
        UploadMediaType::File
    }
}

/// Upload category of a file, routed by the MIME type of its name.
pub fn media_upload_type(filename: &str) -> (r: UploadMediaType)
    ensures
        r == upload_type_for_mime(mime_of(filename@)),
{
    let mime = chars_of(get_mime_from_filename(filename));
    if has_prefix(&mime, &chars_of("video/")) {
        UploadMediaType::Video
    } else if has_prefix(&mime, &chars_of("image/")) {
        UploadMediaType::Image
    } else {
        UploadMediaType::File
    }
}

/// Media routing by MIME type: a file whose MIME type starts with "image/"
/// is uploaded as an image, one whose MIME type starts with "video/" as a
/// video, and any other as a generic file (audio included).
pub proof fn lemma_routing_by_mime(filename: Seq<char>)
    ensures
        starts_with(mime_of(filename), "image/"@) ==> upload_type_for_mime(mime_of(filename))
            == UploadMediaType::Image,
        starts_with(mime_of(filename), "video/"@) ==> upload_type_for_mime(mime_of(filename))
            == UploadMediaType::Video,
        !starts_with(mime_of(filename), "image/"@) && !starts_with(mime_of(filename), "video/"@)
            ==> upload_type_for_mime(mime_of(filename)) == UploadMediaType::File,
{
    let m = mime_of(filename);
    reveal_strlit("image/");
    reveal_strlit("video/");
    if starts_with(m, "image/"@) {
        assert(m.subrange(0, 6)[0] == 'i');
        assert(!starts_with(m, "video/"@));
    }
}

/// The name under which a media file is uploaded: its own, or `file.bin`.
pub fn upload_file_name<'a>(name: Option<&'a str>) -> (r: &'a str)
    ensures
        match name {
            Some(n) => r@ == n@,
            None => r@ == "file.bin"@,
        },
{
    match name {
        Some(n) => n,
        None => "file.bin",
    }
}

/// The name under which a voice file is uploaded: its own, or `voice.silk`.
pub fn voice_file_name<'a>(name: Option<&'a str>) -> (r: &'a str)
    ensures
        match name {
            Some(n) => r@ == n@,
            None => r@ == "voice.silk"@,
        },
{
    match name {
        Some(n) => n,
        None => "voice.silk",
    }
}

// ---------------------------------------------------------------------------
// Voice encoding
// ---------------------------------------------------------------------------

/// Encode type declared for an audio MIME type (fallback mapping).
pub open spec fn encode_type_for_mime(mime: Seq<char>) -> VoiceEncodeType {
    if mime == "audio/amr"@ {
        VoiceEncodeType::Amr
    } else if mime == "audio/ogg"@ {
        VoiceEncodeType::OggSpeex
    } else if mime == "audio/wav"@ {
        VoiceEncodeType::Pcm
    } else {
        VoiceEncodeType::Mp3
    }
}

/// Map an audio filename to its voice `encode_type`; only a fallback, as the
/// voice bubble is shown for SILK audio.
pub fn voice_encode_type_from_filename(filename: &str) -> (r: VoiceEncodeType)
    ensures
        r == encode_type_for_mime(mime_of(filename@)),
{
    let mime = chars_of(get_mime_from_filename(filename));
    if chars_equal(&mime, &chars_of("audio/amr")) {
        VoiceEncodeType::Amr
    } else if chars_equal(&mime, &chars_of("audio/ogg")) {
        VoiceEncodeType::OggSpeex
    } else if chars_equal(&mime, &chars_of("audio/wav")) {
        VoiceEncodeType::Pcm
    } else {
        VoiceEncodeType::Mp3
    }
}

/// Where the bytes uploaded as a voice message come from.
#[derive(Debug, Clone, Copy, PartialEq, Eq, Structural)]
pub enum VoiceSource {
    /// The file already holds SILK V3 audio.
    AlreadySilk,
    /// The file was transcoded from WAV to SILK.
    Transcoded,
    /// Neither: the file is uploaded as given.
    AsGiven,
}

/// Encode type declared for a voice upload: SILK for SILK bytes (as given or
/// transcoded), otherwise the fallback from the file name.
pub open spec fn voice_encode_type_for(source: VoiceSource, filename: Seq<char>) -> VoiceEncodeType {
    match source {
        VoiceSource::AsGiven => encode_type_for_mime(mime_of(filename)),
        _ => VoiceEncodeType::Silk,
    }
}

pub fn voice_encode_type(source: VoiceSource, filename: &str) -> (r: VoiceEncodeType)
    ensures
        r == voice_encode_type_for(source, filename@),
{
    match source {
        VoiceSource::AsGiven => voice_encode_type_from_filename(filename),
        _ => VoiceEncodeType::Silk,
    }
}

/// Where the voice bytes come from: SILK input is uploaded as is; otherwise
/// the transcoded SILK file when transcoding and writing it succeeded, and
/// the input as given when not.
pub open spec fn voice_source_for(bytes: Seq<u8>, silk_written: bool) -> VoiceSource {
    if is_silk(bytes) {
        VoiceSource::AlreadySilk
    } else if silk_written {
        VoiceSource::Transcoded
    } else {
        VoiceSource::AsGiven
    }
}

/// The three-way choice of the voice upload. `silk_written` tells whether a
/// WAV-to-SILK transcode of non-SILK input succeeded and its file was written.
pub fn voice_source(bytes: &[u8], silk_written: bool) -> (r: VoiceSource)
    ensures
        r == voice_source_for(bytes@, silk_written),
{
    if is_silk_format(bytes) {
        VoiceSource::AlreadySilk
    } else if silk_written {
        VoiceSource::Transcoded
    } else {
        VoiceSource::AsGiven
    }
}

/// Temporary file name for transcoded voice: `weixin-voice-<16 hex digits>.silk`.
pub fn voice_temp_file_name(n: u64) -> (r: String)
    ensures
        r@ == "weixin-voice-"@ + hex_digits(n as nat, 16) + ".silk"@,
{
    let mut s = String::from_str("weixin-voice-");
    push_hex(&mut s, n, 16);
    s.append(".silk");
    s
}

// ---------------------------------------------------------------------------
// Message items
// ---------------------------------------------------------------------------

/// The AES key as sent in a message: Base64 of the hex key's bytes.
pub open spec fn aes_key_text(u: CdnUploadResult) -> Seq<char> {
    base64_standard(encode_utf8(u.aes_key_hex@))
}

/// The hex key's byte length leaves Base64 encoding room (a machine bound).
pub open spec fn key_encodable(u: CdnUploadResult) -> bool {
    encode_utf8(u.aes_key_hex@).len() <= usize::MAX / 2
}

/// Media reference to an uploaded file, with packed metadata (`encrypt_type` 1).
pub open spec fn is_cdn_media_of(m: CdnMedia, u: CdnUploadResult) -> bool {
    &&& m.encrypt_query_param is Some
    &&& m.encrypt_query_param->0@ == u.encrypt_query_param@
    &&& m.aes_key is Some
    &&& m.aes_key->0@ == aes_key_text(u)
    &&& m.encrypt_type == Some(1i32)
}

/// A `u64` size as `i64`, wrapping above `i64::MAX`.
pub open spec fn size_as_i64(x: u64) -> i64 {
    if x <= i64::MAX {
        x as i64
    } else {
        (x - 18446744073709551616) as i64
    }
}

fn wrap_size(x: u64) -> (r: i64)
    ensures
        r == size_as_i64(x),
{
    if x <= i64::MAX as u64 {
        x as i64
    } else {
        ((x - 9223372036854775808u64) as i64) + i64::MIN
    }
}

fn cdn_media(u: &CdnUploadResult) -> (r: CdnMedia)
    requires
        key_encodable(*u),
    ensures
        is_cdn_media_of(r, *u),
{
    let key = base64_encode(u.aes_key_hex.as_str().as_bytes());
    CdnMedia {
        encrypt_query_param: Some(u.encrypt_query_param.clone()),
        aes_key: Some(key),
        encrypt_type: Some(1),
    }
}

pub open spec fn is_voice_item_of(
    item: MessageItem,
    u: CdnUploadResult,
    encode_type: VoiceEncodeType,
    duration_ms: Option<i64>,
) -> bool {
    &&& item.item_type == Some(MessageItemType::Voice)
    &&& item.voice_item is Some
    &&& item.voice_item->0.media is Some
    &&& is_cdn_media_of(item.voice_item->0.media->0, u)
    &&& item.voice_item->0.encode_type == Some(encode_type_code(encode_type))
    &&& item.voice_item->0.playtime == duration_ms
    &&& item.image_item is None && item.file_item is None && item.video_item is None
}

pub open spec fn is_image_item_of(item: MessageItem, u: CdnUploadResult) -> bool {
    &&& item.item_type == Some(MessageItemType::Image)
    &&& item.image_item is Some
    &&& item.image_item->0.media is Some
    &&& is_cdn_media_of(item.image_item->0.media->0, u)
    &&& item.image_item->0.mid_size == Some(size_as_i64(u.file_size_ciphertext))
    &&& item.voice_item is None && item.file_item is None && item.video_item is None
}

pub open spec fn is_video_item_of(item: MessageItem, u: CdnUploadResult) -> bool {
    &&& item.item_type == Some(MessageItemType::Video)
    &&& item.video_item is Some
    &&& item.video_item->0.media is Some
    &&& is_cdn_media_of(item.video_item->0.media->0, u)
    &&& item.video_item->0.video_size == Some(size_as_i64(u.file_size_ciphertext))
    &&& item.voice_item is None && item.file_item is None && item.image_item is None
}

pub open spec fn is_file_item_of(item: MessageItem, filename: Seq<char>, u: CdnUploadResult) -> bool {
    &&& item.item_type == Some(MessageItemType::File)
    &&& item.file_item is Some
    &&& item.file_item->0.media is Some
    &&& is_cdn_media_of(item.file_item->0.media->0, u)
    &&& item.file_item->0.file_name is Some
    &&& item.file_item->0.file_name->0@ == filename
    &&& item.file_item->0.len is Some
    &&& item.file_item->0.len->0@ == decimal(u.file_size as nat)
    &&& item.voice_item is None && item.image_item is None && item.video_item is None
}

/// Voice item for an uploaded audio file.
pub fn build_voice_item(uploaded: &CdnUploadResult, encode_type: VoiceEncodeType, duration_ms: Option<i64>) -> (r: MessageItem)
    requires
        key_encodable(*uploaded),
    ensures
        is_voice_item_of(r, *uploaded, encode_type, duration_ms),
{
    MessageItem {
        item_type: Some(MessageItemType::Voice),
        voice_item: Some(VoiceItem {
            media: Some(cdn_media(uploaded)),
            encode_type: Some(encode_type.code()),
            playtime: duration_ms,
        }),
        image_item: None,
        file_item: None,
        video_item: None,
    }
}

/// Image item for an uploaded image.
pub fn build_image_item(uploaded: &CdnUploadResult) -> (r: MessageItem)
    requires
        key_encodable(*uploaded),
    ensures
        is_image_item_of(r, *uploaded),
{
    MessageItem {
        item_type: Some(MessageItemType::Image),
        image_item: Some(ImageItem {
            media: Some(cdn_media(uploaded)),
            mid_size: Some(wrap_size(uploaded.file_size_ciphertext)),
        }),
        voice_item: None,
        file_item: None,
        video_item: None,
    }
}

/// Video item for an uploaded video.
pub fn build_video_item(uploaded: &CdnUploadResult) -> (r: MessageItem)
    requires
        key_encodable(*uploaded),
    ensures
        is_video_item_of(r, *uploaded),
{
    MessageItem {
        item_type: Some(MessageItemType::Video),
        video_item: Some(VideoItem {
            media: Some(cdn_media(uploaded)),
            video_size: Some(wrap_size(uploaded.file_size_ciphertext)),
        }),
        voice_item: None,
        file_item: None,
        image_item: None,
    }
}

/// File attachment item for an uploaded file.
pub fn build_file_item(filename: &str, uploaded: &CdnUploadResult) -> (r: MessageItem)
    requires
        key_encodable(*uploaded),
    ensures
        is_file_item_of(r, filename@, *uploaded),
{
    let mut len = String::new();
    push_decimal(&mut len, uploaded.file_size);
    assert(len@ =~= decimal(uploaded.file_size as nat));
    MessageItem {
        item_type: Some(MessageItemType::File),
        file_item: Some(FileItem {
            media: Some(cdn_media(uploaded)),
            file_name: Some(filename.to_owned()),
            len: Some(len),
        }),
        voice_item: None,
        image_item: None,
        video_item: None,
    }
}

/// The item for an uploaded media file of the given upload category.
pub fn build_media_item(media_type: UploadMediaType, filename: &str, uploaded: &CdnUploadResult) -> (r: MessageItem)
    requires
        key_encodable(*uploaded),
    ensures
        media_type == UploadMediaType::Video ==> is_video_item_of(r, *uploaded),
        media_type == UploadMediaType::Image ==> is_image_item_of(r, *uploaded),
        media_type == UploadMediaType::File || media_type == UploadMediaType::Voice
            ==> is_file_item_of(r, filename@, *uploaded),
{
    match media_type {
        UploadMediaType::Video => build_video_item(uploaded),
        UploadMediaType::Image => build_image_item(uploaded),
        _ => build_file_item(filename, uploaded),
    }
}

// ---------------------------------------------------------------------------
// Sending
// ---------------------------------------------------------------------------

/// One request of a media send.
#[derive(Debug, Clone)]
pub enum MediaSendStep {
    /// A text message carrying the accompanying text.
    Text(String),
    /// A message whose only item is the uploaded media.
    Media(MessageItem),
}

/// The requests of a media send, in order: the accompanying text as a text
/// message of its own when it is not empty, then a message holding the
/// media item alone.
pub fn media_send_steps(text: &str, media_item: MessageItem) -> (r: Vec<MediaSendStep>)
    ensures
        text@.len() == 0 ==> r@ == seq![MediaSendStep::Media(media_item)],
        text@.len() > 0 ==> r@.len() == 2 && (r@[0] matches MediaSendStep::Text(t) && t@
            == text@) && r@[1] == MediaSendStep::Media(media_item),
{
    let mut steps: Vec<MediaSendStep> = Vec::new();
    if !text.is_empty() {
        steps.push(MediaSendStep::Text(text.to_owned()));
    }
    steps.push(MediaSendStep::Media(media_item));
    steps
}

} // verus!
