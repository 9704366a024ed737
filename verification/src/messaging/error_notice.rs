//! Error notices sent to a user when processing their message failed.

use vstd::prelude::*;

verus! {

/// Types of error notices.
#[derive(Debug, Clone, Copy)]
pub enum ErrorNoticeKind {
    MediaDownload,
    CdnUpload,
    General,
}

/// The fixed text that introduces a notice of the given kind.
pub open spec fn notice_prefix(kind: ErrorNoticeKind) -> Seq<char> {
    match kind {
        ErrorNoticeKind::MediaDownload => "[系统提示] 媒体文件处理失败: "@,
        ErrorNoticeKind::CdnUpload => "[系统提示] 文件上传失败: "@,
        ErrorNoticeKind::General => "[系统提示] 处理出错: "@,
    }
}

/// The message sent to the user for a notice of `kind` with `detail`.
pub fn error_notice_message(kind: ErrorNoticeKind, detail: &str) -> (r: String)
    ensures
        r@ == notice_prefix(kind) + detail@,
{
    let mut message = match kind {
        ErrorNoticeKind::MediaDownload => String::from_str("[系统提示] 媒体文件处理失败: "),
        ErrorNoticeKind::CdnUpload => String::from_str("[系统提示] 文件上传失败: "),
        ErrorNoticeKind::General => String::from_str("[系统提示] 处理出错: "),
    };
    message.append(detail);
    message
}

} // verus!
