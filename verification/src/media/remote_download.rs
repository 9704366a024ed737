//! Limits and checks applied when downloading a remote media file.

use vstd::prelude::*;
use crate::error::Error;
use crate::text::{hex_digits, push_hex};

verus! {

/// Maximum allowed download size (100 MB).
pub const MAX_DOWNLOAD_SIZE: u64 = 100 * 1024 * 1024;

/// Download timeout, in seconds.
pub const DOWNLOAD_TIMEOUT_SECS: u64 = 60;

/// A non-success HTTP status aborts the download; `status_text` is how the
/// status is displayed.
pub fn check_download_status(success: bool, status_text: &str) -> (r: Result<(), Error>)
    ensures
        success ==> r is Ok,
        !success ==> (r matches Err(Error::CdnUpload(m)) && m@
            == "failed to download remote file: status "@ + status_text@),
{
    if success {
        Ok(())
    } else {
        let mut m = String::from_str("failed to download remote file: status ");
        m.append(status_text);
        Err(Error::CdnUpload(m))
    }
}

/// A body larger than `MAX_DOWNLOAD_SIZE` bytes is refused.
pub fn check_download_size(len: u64) -> (r: Result<(), Error>)
    ensures
        len <= MAX_DOWNLOAD_SIZE ==> r is Ok,
        len > MAX_DOWNLOAD_SIZE ==> (r matches Err(Error::CdnUpload(m)) && m@
            == "download exceeds max size"@),
{
    if len > MAX_DOWNLOAD_SIZE {
        Err(Error::CdnUpload(String::from_str("download exceeds max size")))
    } else {
        Ok(())
    }
}

/// Name of a downloaded file: `<prefix>-<16 hex digits of n><ext>`.
pub fn temp_file_name(prefix: &str, ext: &str, n: u64) -> (r: String)
    ensures
        r@ == prefix@ + "-"@ + hex_digits(n as nat, 16) + ext@,
{
    let mut s = prefix.to_owned();
    s.append("-");
    push_hex(&mut s, n, 16);
    s.append(ext);
    s
}

} // verus!
