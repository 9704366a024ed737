//! Media helpers: MIME types, voice transcoding containers, remote downloads.

pub mod mime;
pub mod remote_download;
pub mod voice_transcode;
pub mod wav;
