//! Verified core of a Weixin (iLink) bot SDK: markdown cleanup of outbound
//! text, protocol helpers, media routing and audio container handling.

pub mod api;
pub mod client;
pub mod codec;
pub mod text;
pub mod error;
pub mod media;
pub mod messaging;
