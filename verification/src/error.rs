//! Error type of the SDK.

use vstd::prelude::*;

verus! {

/// What the SDK needs to know of a failed HTTP transport operation.
#[derive(Debug, Clone)]
pub struct TransportError {
    /// The request timed out on the client side.
    pub is_timeout: bool,
    /// The connection could not be established.
    pub is_connect: bool,
    /// Human-readable description of the failure.
    pub message: String,
}

/// Errors reported by the SDK.
#[derive(Debug)]
pub enum Error {
    /// HTTP transport failure (timeout, connection, protocol).
    Http(TransportError),
    /// The API refused the request: non-2xx status, or a non-zero business code.
    Api { errcode: i32, errmsg: String },
    /// JSON (de)serialization failure.
    Json(String),
    /// Local I/O failure.
    Io(String),
    /// Encryption or decryption failure.
    Crypto(String),
    /// Invalid configuration.
    Config(String),
    /// An operation did not complete in time.
    Timeout(String),
    /// CDN upload or remote download failure.
    CdnUpload(String),
}

} // verus!
