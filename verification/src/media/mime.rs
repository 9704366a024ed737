//! MIME types and file extensions.
//!
//! The extension table covers common document, archive, audio, video and
//! image types; anything else is `application/octet-stream`.

use vstd::prelude::*;
use crate::text::{chars_of, chars_equal, push_chars, string_of, trim, trim_chars};

verus! {

/// ASCII lower-casing of one character.
pub open spec fn ascii_lower(c: char) -> char {
    if 'A' <= c <= 'Z' {
        ((c as u32 + 32) as u8) as char
    } else {
        c
    }
}

pub open spec fn lower(s: Seq<char>) -> Seq<char> {
    s.map_values(|c: char| ascii_lower(c))
}

/// Index of the last occurrence of `c` in `s[..end]`, or -1.
pub open spec fn last_index_of(s: Seq<char>, c: char, end: int) -> int
    decreases end,
{
    if end <= 0 || end > s.len() {
        -1
    } else if s[end - 1] == c {
        end - 1
    } else {
        last_index_of(s, c, end - 1)
    }
}

/// The last '/'-separated part of a path.
pub open spec fn file_name_part(path: Seq<char>) -> Seq<char> {
    path.subrange(last_index_of(path, '/', path.len() as int) + 1, path.len() as int)
}

/// Extension of a file name (`Path::extension`): the text after its last
/// '.', unless there is no '.' or the only one starts the name.
pub open spec fn extension_of(path: Seq<char>) -> Option<Seq<char>> {
    let name = file_name_part(path);
    let dot = last_index_of(name, '.', name.len() as int);
    if dot <= 0 {
        None
    } else {
        Some(name.subrange(dot + 1, name.len() as int))
    }
}

/// Lower-case extension (without the dot) and its MIME type.
pub open spec fn mime_table() -> Seq<(Seq<char>, Seq<char>)> {
    seq![
        ("pdf"@, "application/pdf"@),
        ("doc"@, "application/msword"@),
        ("docx"@, "application/vnd.openxmlformats-officedocument.wordprocessingml.document"@),
        ("xls"@, "application/vnd.ms-excel"@),
        ("xlsx"@, "application/vnd.openxmlformats-officedocument.spreadsheetml.sheet"@),
        ("ppt"@, "application/vnd.ms-powerpoint"@),
        ("pptx"@, "application/vnd.openxmlformats-officedocument.presentationml.presentation"@),
        ("txt"@, "text/plain"@),
        ("csv"@, "text/csv"@),
        ("zip"@, "application/zip"@),
        ("tar"@, "application/x-tar"@),
        ("gz"@, "application/gzip"@),
        ("mp3"@, "audio/mpeg"@),
        ("ogg"@, "audio/ogg"@),
        ("wav"@, "audio/wav"@),
        ("mp4"@, "video/mp4"@),
        ("mov"@, "video/quicktime"@),
        ("webm"@, "video/webm"@),
        ("mkv"@, "video/x-matroska"@),
        ("avi"@, "video/x-msvideo"@),
        ("png"@, "image/png"@),
        ("jpg"@, "image/jpeg"@),
        ("jpeg"@, "image/jpeg"@),
        ("gif"@, "image/gif"@),
        ("webp"@, "image/webp"@),
        ("bmp"@, "image/bmp"@),
    ]
}

/// Index of the first entry whose extension is `ext`, or -1.
pub open spec fn find_extension(table: Seq<(Seq<char>, Seq<char>)>, ext: Seq<char>, i: int) -> int
    decreases table.len() - i,
{
    if i < 0 || i >= table.len() {
        -1
    } else if table[i].0 == ext {
        i
    } else {
        find_extension(table, ext, i + 1)
    }
}

/// Index of the first entry whose MIME type is `mime`, or -1.
pub open spec fn find_mime(table: Seq<(Seq<char>, Seq<char>)>, mime: Seq<char>, i: int) -> int
    decreases table.len() - i,
{
    if i < 0 || i >= table.len() {
        -1
    } else if table[i].1 == mime {
        i
    } else {
        find_mime(table, mime, i + 1)
    }
}

pub open spec fn default_mime() -> Seq<char> {
    "application/octet-stream"@
}

/// MIME type of a lower-case extension, or the default.
pub open spec fn mime_for_extension(ext: Seq<char>) -> Seq<char> {
    let k = find_extension(mime_table(), ext, 0);
    if k >= 0 {
        mime_table()[k].1
    } else {
        default_mime()
    }
}

/// MIME type of a file name, from its extension in any case.
pub open spec fn mime_of(filename: Seq<char>) -> Seq<char> {
    match extension_of(filename) {
        Some(ext) => mime_for_extension(lower(ext)),
        None => default_mime(),
    }
}

fn table() -> (r: [(&'static str, &'static str); 26])
    ensures
        r@.map_values(|p: (&'static str, &'static str)| (p.0@, p.1@)) == mime_table(),
{
    let t: [(&'static str, &'static str); 26] = [
        ("pdf", "application/pdf"),
        ("doc", "application/msword"),
        ("docx", "application/vnd.openxmlformats-officedocument.wordprocessingml.document"),
        ("xls", "application/vnd.ms-excel"),
        ("xlsx", "application/vnd.openxmlformats-officedocument.spreadsheetml.sheet"),
        ("ppt", "application/vnd.ms-powerpoint"),
        ("pptx", "application/vnd.openxmlformats-officedocument.presentationml.presentation"),
        ("txt", "text/plain"),
        ("csv", "text/csv"),
        ("zip", "application/zip"),
        ("tar", "application/x-tar"),
        ("gz", "application/gzip"),
        ("mp3", "audio/mpeg"),
        ("ogg", "audio/ogg"),
        ("wav", "audio/wav"),
        ("mp4", "video/mp4"),
        ("mov", "video/quicktime"),
        ("webm", "video/webm"),
        ("mkv", "video/x-matroska"),
        ("avi", "video/x-msvideo"),
        ("png", "image/png"),
        ("jpg", "image/jpeg"),
        ("jpeg", "image/jpeg"),
        ("gif", "image/gif"),
        ("webp", "image/webp"),
        ("bmp", "image/bmp"),
    ];
    assert(t@.map_values(|p: (&'static str, &'static str)| (p.0@, p.1@)) =~= mime_table());
    t
}

fn lower_char(c: char) -> (r: char)
    ensures
        r == ascii_lower(c),
{
    if 'A' <= c && c <= 'Z' {
        ((c as u8) + 32) as char
    } else {
        c
    }
}

fn lower_chars(v: &Vec<char>, from: usize, to: usize) -> (r: Vec<char>)
    requires
        from <= to <= v@.len(),
    ensures
        r@ == lower(v@.subrange(from as int, to as int)),
{
    let mut r: Vec<char> = Vec::new();
    let mut k = from;
    while k < to
        invariant
            from <= k <= to <= v@.len(),
            r@ == lower(v@.subrange(from as int, k as int)),
        decreases to - k,
    {
        r.push(lower_char(v[k]));
        k = k + 1;
        assert(r@ =~= lower(v@.subrange(from as int, k as int)));
    }
    r
}

fn last_index(v: &Vec<char>, c: char, from: usize, end: usize) -> (r: Option<usize>)
    requires
        from <= end <= v@.len(),
    ensures
        match r {
            Some(k) => from <= k < end && k as int - from == last_index_of(
                v@.subrange(from as int, end as int),
                c,
                end - from,
            ),
            None => last_index_of(v@.subrange(from as int, end as int), c, end - from) == -1,
        },
{
    let ghost s = v@.subrange(from as int, end as int);
    let mut e = end;
    while e > from
        invariant
            from <= e <= end <= v@.len(),
            s == v@.subrange(from as int, end as int),
            last_index_of(s, c, e - from) == last_index_of(s, c, end - from),
        decreases e,
    {
        assert(s[e - 1 - from] == v@[e - 1]);
        if v[e - 1] == c {
            return Some(e - 1);
        }
        e = e - 1;
    }
    None
}

/// Position in the table of a lower-case extension.
fn lookup_extension(ext: &Vec<char>) -> (r: Option<&'static str>)
    ensures
        match r {
            Some(m) => find_extension(mime_table(), ext@, 0) >= 0 && m@ == mime_table()[find_extension(
                mime_table(),
                ext@,
                0,
            )].1,
            None => find_extension(mime_table(), ext@, 0) == -1,
        },
{
    let t = table();
    let ghost tv = mime_table();
    let mut k: usize = 0;
    while k < 26
        invariant
            k <= 26,
            tv == mime_table(),
            tv.len() == 26,
            t@.map_values(|p: (&'static str, &'static str)| (p.0@, p.1@)) == tv,
            find_extension(tv, ext@, k as int) == find_extension(tv, ext@, 0),
        decreases 26 - k,
    {
        let key = chars_of(t[k].0);
        assert(tv[k as int].0 == t@[k as int].0@);
        if chars_equal(&key, ext) {
            return Some(t[k].1);
        }
        k = k + 1;
    }
    None
}

/// MIME type from a file name's extension.
pub fn get_mime_from_filename(filename: &str) -> (r: &'static str)
    ensures
        r@ == mime_of(filename@),
{
    let cs = chars_of(filename);
    let n = cs.len();
    let slash = last_index(&cs, '/', 0, n);
    let start: usize = match slash {
        Some(k) => k + 1,
        None => 0,
    };
    assert(cs@.subrange(0, n as int) =~= cs@);
    let ghost name = file_name_part(cs@);
    assert(name =~= cs@.subrange(start as int, n as int));
    let dot = last_index(&cs, '.', start, n);
    match dot {
        Some(d) if d > start => {
            let ext = lower_chars(&cs, d + 1, n);
            assert(name.subrange(d - start + 1, name.len() as int) =~= cs@.subrange(d + 1, n as int));
            match lookup_extension(&ext) {
                Some(m) => m,
                None => "application/octet-stream",
            }
        },
        _ => "application/octet-stream",
    }
}

// ---------------------------------------------------------------------------
// Extensions for downloaded files
// ---------------------------------------------------------------------------

/// Extension used when none can be inferred.
pub open spec fn unknown_extension() -> Seq<char> {
    ".bin"@
}

/// Index of the first character of `s[i..]` that is one of `a`, `b`, or `s.len()`.
pub open spec fn first_of(s: Seq<char>, a: char, b: char, i: int) -> int
    decreases s.len() - i,
{
    if i < 0 || i >= s.len() {
        s.len() as int
    } else if s[i] == a || s[i] == b {
        i
    } else {
        first_of(s, a, b, i + 1)
    }
}

/// Index of the first "://" in `s[i..]`, or -1.
pub open spec fn scheme_separator(s: Seq<char>, i: int) -> int
    decreases s.len() - i,
{
    if i < 0 || i + 3 > s.len() {
        -1
    } else if s[i] == ':' && s[i + 1] == '/' && s[i + 2] == '/' {
        i
    } else {
        scheme_separator(s, i + 1)
    }
}

/// The path of a URL: the part before any '?' or '#', after the scheme and
/// authority when there is a "://".
pub open spec fn url_path(url: Seq<char>) -> Seq<char> {
    let u = url.subrange(0, first_of(url, '?', '#', 0));
    let sep = scheme_separator(u, 0);
    if sep < 0 {
        u
    } else {
        u.subrange(first_of(u, '/', '/', sep + 3), u.len() as int)
    }
}

/// Extension of a MIME type (parameters after ';' ignored, any case): the
/// first table entry with that type, or `.bin`.
pub open spec fn extension_for_mime(content_type: Seq<char>) -> Seq<char> {
    let base = lower(trim(content_type.subrange(0, first_of(content_type, ';', ';', 0))));
    let k = find_mime(mime_table(), base, 0);
    if k >= 0 {
        seq!['.'] + mime_table()[k].0
    } else {
        unknown_extension()
    }
}

/// Extension of a URL's path when it is a known one, or `.bin`.
pub open spec fn extension_for_url(url: Seq<char>) -> Seq<char> {
    match extension_of(url_path(url)) {
        Some(ext) => if find_extension(mime_table(), lower(ext), 0) >= 0 {
            seq!['.'] + lower(ext)
        } else {
            unknown_extension()
        },
        None => unknown_extension(),
    }
}

/// Extension for a downloaded file: from the Content-Type when it names a
/// known type, otherwise from the URL.
pub open spec fn download_extension(content_type: Option<Seq<char>>, url: Seq<char>) -> Seq<char> {
    match content_type {
        Some(ct) => if extension_for_mime(ct) != unknown_extension() {
            extension_for_mime(ct)
        } else {
            extension_for_url(url)
        },
        None => extension_for_url(url),
    }
}

fn find_first_of(v: &Vec<char>, a: char, b: char, i: usize) -> (e: usize)
    requires
        i <= v@.len(),
    ensures
        e as int == first_of(v@, a, b, i as int),
        i <= e <= v@.len(),
{
    let mut e = i;
    while e < v.len() && v[e] != a && v[e] != b
        invariant
            i <= e <= v@.len(),
            first_of(v@, a, b, e as int) == first_of(v@, a, b, i as int),
        decreases v@.len() - e,
    {
        e = e + 1;
    }
    e
}

fn find_scheme_separator(v: &Vec<char>, end: usize) -> (r: Option<usize>)
    requires
        end <= v@.len(),
    ensures
        match r {
            Some(k) => k + 3 <= end && k as int == scheme_separator(v@.subrange(0, end as int), 0),
            None => scheme_separator(v@.subrange(0, end as int), 0) == -1,
        },
{
    let ghost u = v@.subrange(0, end as int);
    if end < 3 {
        return None;
    }
    let mut i: usize = 0;
    while i <= end - 3
        invariant
            3 <= end <= v.len(),
            u == v@.subrange(0, end as int),
            scheme_separator(u, i as int) == scheme_separator(u, 0),
        decreases end - i,
    {
        if v[i] == ':' && v[i + 1] == '/' && v[i + 2] == '/' {
            return Some(i);
        }
        i = i + 1;
    }
    None
}

fn dotted(ext: &Vec<char>) -> (r: String)
    ensures
        r@ == seq!['.'] + ext@,
{
    let mut s = String::from_str(".");
    push_chars(&mut s, ext, 0, ext.len());
    assert(ext@.subrange(0, ext@.len() as int) =~= ext@);
    proof {
        reveal_strlit(".");
    }
    assert(s@ =~= seq!['.'] + ext@);
    s
}

fn lookup_mime(mime: &Vec<char>) -> (r: Option<&'static str>)
    ensures
        match r {
            Some(e) => find_mime(mime_table(), mime@, 0) >= 0 && e@ == mime_table()[find_mime(
                mime_table(),
                mime@,
                0,
            )].0,
            None => find_mime(mime_table(), mime@, 0) == -1,
        },
{
    let t = table();
    let ghost tv = mime_table();
    let mut k: usize = 0;
    while k < 26
        invariant
            k <= 26,
            tv == mime_table(),
            tv.len() == 26,
            t@.map_values(|p: (&'static str, &'static str)| (p.0@, p.1@)) == tv,
            find_mime(tv, mime@, k as int) == find_mime(tv, mime@, 0),
        decreases 26 - k,
    {
        let value = chars_of(t[k].1);
        assert(tv[k as int].1 == t@[k as int].1@);
        assert(tv[k as int].0 == t@[k as int].0@);
        if chars_equal(&value, mime) {
            return Some(t[k].0);
        }
        k = k + 1;
    }
    None
}

/// Extension of a MIME type, or `.bin`.
pub fn extension_from_mime(content_type: &str) -> (r: String)
    ensures
        r@ == extension_for_mime(content_type@),
{
    let cs = chars_of(content_type);
    let end = find_first_of(&cs, ';', ';', 0);
    let trimmed = trim_chars(&copy_chars(&cs, end));
    let base = lower_chars(&trimmed, 0, trimmed.len());
    assert(trimmed@.subrange(0, trimmed@.len() as int) =~= trimmed@);
    match lookup_mime(&base) {
        Some(ext) => {
            let e = chars_of(ext);
            dotted(&e)
        },
        None => String::from_str(".bin"),
    }
}

fn copy_chars(v: &Vec<char>, end: usize) -> (r: Vec<char>)
    requires
        end <= v@.len(),
    ensures
        r@ == v@.subrange(0, end as int),
{
    let mut r: Vec<char> = Vec::new();
    let mut k: usize = 0;
    while k < end
        invariant
            k <= end <= v@.len(),
            r@ == v@.subrange(0, k as int),
        decreases end - k,
    {
        r.push(v[k]);
        k = k + 1;
        assert(r@ =~= v@.subrange(0, k as int));
    }
    r
}

/// Extension of a URL's path when known, or `.bin`.
pub fn extension_from_url(url: &str) -> (r: String)
    ensures
        r@ == extension_for_url(url@),
{
    let cs = chars_of(url);
    let end = find_first_of(&cs, '?', '#', 0);
    let u = copy_chars(&cs, end);
    let start: usize = match find_scheme_separator(&cs, end) {
        Some(sep) => {
            assert(u@ =~= cs@.subrange(0, end as int));
            find_first_of(&u, '/', '/', sep + 3)
        },
        None => 0,
    };
    let path = string_of(&u, start, u.len());
    proof {
        if scheme_separator(u@, 0) < 0 {
            assert(u@.subrange(0, u@.len() as int) =~= u@);
        }
    }
    assert(path@ == url_path(url@));
    let pcs = chars_of(path.as_str());
    let n = pcs.len();
    let slash = last_index(&pcs, '/', 0, n);
    let name_start: usize = match slash {
        Some(k) => k + 1,
        None => 0,
    };
    assert(pcs@.subrange(0, n as int) =~= pcs@);
    let ghost name = file_name_part(pcs@);
    assert(name =~= pcs@.subrange(name_start as int, n as int));
    match last_index(&pcs, '.', name_start, n) {
        Some(d) if d > name_start => {
            let ext = lower_chars(&pcs, d + 1, n);
            assert(name.subrange(d - name_start + 1, name.len() as int) =~= pcs@.subrange(
                d + 1,
                n as int,
            ));
            match lookup_extension(&ext) {
                Some(_) => dotted(&ext),
                None => String::from_str(".bin"),
            }
        },
        _ => String::from_str(".bin"),
    }
}

/// Extension for a downloaded file, from its Content-Type or its URL.
pub fn get_extension_from_content_type_or_url(content_type: Option<&str>, url: &str) -> (r: String)
    ensures
        r@ == download_extension(
            match content_type {
                Some(ct) => Some(ct@),
                None => None,
            },
            url@,
        ),
{
    if let Some(ct) = content_type {
        let ext = extension_from_mime(ct);
        let ext_chars = chars_of(ext.as_str());
        let unknown = chars_of(".bin");
        if !chars_equal(&ext_chars, &unknown) {
            return ext;
        }
    }
    extension_from_url(url)
}

} // verus!
