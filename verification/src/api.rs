//! iLink Bot API protocol helpers.

pub mod client;
mod json;
