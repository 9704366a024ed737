//! Outbound message shaping: markdown cleanup, slash commands, debug timing
//! and error notices.

pub mod debug_mode;
pub mod error_notice;
pub mod markdown_filter;
pub mod send_media;
pub mod slash_commands;
