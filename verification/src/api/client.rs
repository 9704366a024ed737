//! Protocol decisions of the HTTP API client: client-version encoding, base
//! URL normalisation, request headers, response classification (including
//! business codes carried in HTTP-200 bodies) and the retry policy.

use vstd::prelude::*;
use crate::api::json::{int_field, json_int_field, json_str_field, str_field};
use crate::codec::{base64_encode, base64_standard, random_u32};
use crate::error::Error;
use crate::text::{chars_of, decimal, digit_char, push_char, push_decimal, trim, trim_chars, string_of};

verus! {

// ---------------------------------------------------------------------------
// Client version
// ---------------------------------------------------------------------------

pub open spec fn is_ascii_digit(c: char) -> bool {
    '0' <= c <= '9'
}

/// Value of a string of decimal digits.
pub open spec fn digits_value(s: Seq<char>) -> nat
    decreases s.len(),
{
    if s.len() == 0 {
        0
    } else {
        digits_value(s.drop_last()) * 10 + ((s.last() as u32) - 48) as nat
    }
}

/// The part of `s` that must be digits: `s` without a leading '+', unless
/// the '+' stands alone.
pub open spec fn unsigned_digits(s: Seq<char>) -> Seq<char> {
    if s.len() > 1 && s[0] == '+' {
        s.drop_first()
    } else {
        s
    }
}

pub open spec fn all_digits(s: Seq<char>) -> bool {
    forall|k: int| 0 <= k < s.len() ==> is_ascii_digit(#[trigger] s[k])
}

/// `str::parse::<u32>`: an optional '+' (not alone) and one or more decimal
/// digits whose value fits in `u32`.
pub open spec fn parse_u32(s: Seq<char>) -> Option<u32> {
    let digits = unsigned_digits(s);
    if digits.len() > 0 && all_digits(digits) && digits_value(digits) <= u32::MAX {
        Some(digits_value(digits) as u32)
    } else {
        None
    }
}

/// First index at or after `i` holding `c`, or `s.len()`.
pub open spec fn next_sep(s: Seq<char>, c: char, i: int) -> int
    decreases s.len() - i,
{
    if i < 0 || i >= s.len() {
        s.len() as int
    } else if s[i] == c {
        i
    } else {
        next_sep(s, c, i + 1)
    }
}

pub proof fn lemma_next_sep_bounds(s: Seq<char>, c: char, i: int)
    requires
        0 <= i <= s.len(),
    ensures
        i <= next_sep(s, c, i) <= s.len(),
    decreases s.len() - i,
{
    if i < s.len() && s[i] != c {
        lemma_next_sep_bounds(s, c, i + 1);
    }
}

/// The pieces of `s[i..]` between occurrences of `c`.
pub open spec fn split_from(s: Seq<char>, c: char, i: int) -> Seq<Seq<char>>
    decreases s.len() + 1 - i,
{
    if i < 0 || i > s.len() {
        seq![]
    } else {
        proof {
            lemma_next_sep_bounds(s, c, i);
        }
        let e = next_sep(s, c, i);
        if e >= s.len() {
            seq![s.subrange(i, s.len() as int)]
        } else {
            seq![s.subrange(i, e)] + split_from(s, c, e + 1)
        }
    }
}

/// `str::split(c)`: always at least one piece.
pub open spec fn split_on(s: Seq<char>, c: char) -> Seq<Seq<char>> {
    split_from(s, c, 0)
}

/// The pieces that parse as `u32`, in order, parsed.
pub open spec fn parsed_numbers(parts: Seq<Seq<char>>) -> Seq<u32>
    decreases parts.len(),
{
    if parts.len() == 0 {
        seq![]
    } else {
        match parse_u32(parts[0]) {
            Some(v) => seq![v] + parsed_numbers(parts.drop_first()),
            None => parsed_numbers(parts.drop_first()),
        }
    }
}

/// Low byte of the `i`-th number, 0 when there is none.
pub open spec fn version_component(numbers: Seq<u32>, i: int) -> int {
    if 0 <= i < numbers.len() {
        (numbers[i] % 256) as int
    } else {
        0
    }
}

/// `(major << 16) | (minor << 8) | patch` of the numeric dot-separated parts.
pub open spec fn client_version_code(version: Seq<char>) -> int {
    let numbers = parsed_numbers(split_on(version, '.'));
    version_component(numbers, 0) * 65536 + version_component(numbers, 1) * 256
        + version_component(numbers, 2)
}

fn is_digit(c: char) -> (r: bool)
    ensures
        r == is_ascii_digit(c),
{
    '0' <= c && c <= '9'
}

/// `str::parse::<u32>` on `v[a..b]`.
fn parse_u32_range(v: &Vec<char>, a: usize, b: usize) -> (r: Option<u32>)
    requires
        a <= b <= v@.len(),
    ensures
        r == parse_u32(v@.subrange(a as int, b as int)),
{
    let ghost s = v@.subrange(a as int, b as int);
    let mut start = a;
    if b - a > 1 && v[a] == '+' {
        start = a + 1;
    }
    let ghost digits = v@.subrange(start as int, b as int);
    proof {
        if b - a > 1 && v@[a as int] == '+' {
            assert(digits =~= s.drop_first());
        } else {
            assert(digits =~= s);
        }
    }
    if start == b {
        return None;
    }
    let mut acc: u32 = 0;
    let mut overflowed = false;
    let mut k = start;
    while k < b
        invariant
            a <= start <= k <= b <= v@.len(),
            s == v@.subrange(a as int, b as int),
            digits == v@.subrange(start as int, b as int),
            digits == unsigned_digits(s),
            forall|j: int| 0 <= j < k - start ==> is_ascii_digit(#[trigger] digits[j]),
            overflowed ==> digits_value(v@.subrange(start as int, k as int)) > u32::MAX,
            !overflowed ==> acc as nat == digits_value(v@.subrange(start as int, k as int)),
        decreases b - k,
    {
        let c = v[k];
        assert(digits[k - start] == c);
        if !is_digit(c) {
            assert(!is_ascii_digit(digits[k - start]));
            return None;
        }
        let ghost prefix = v@.subrange(start as int, k as int);
        let ghost next = v@.subrange(start as int, k + 1);
        assert(next.drop_last() =~= prefix);
        assert(next.last() == c);
        let d = (c as u32) - 48;
        if !overflowed {
            if acc > (u32::MAX - d) / 10 {
                overflowed = true;
            } else {
                acc = acc * 10 + d;
            }
        }
        k = k + 1;
    }
    assert(v@.subrange(start as int, b as int) =~= digits);
    if overflowed {
        None
    } else {
        Some(acc)
    }
}

proof fn lemma_parsed_numbers_cons(x: Seq<char>, rest: Seq<Seq<char>>)
    ensures
        parsed_numbers(seq![x] + rest) == match parse_u32(x) {
            Some(v) => seq![v] + parsed_numbers(rest),
            None => parsed_numbers(rest),
        },
{
    let l = seq![x] + rest;
    assert(l[0] == x);
    assert(l.drop_first() =~= rest);
}

fn find_sep(v: &Vec<char>, c: char, i: usize) -> (e: usize)
    requires
        i <= v@.len(),
    ensures
        e as int == next_sep(v@, c, i as int),
        i <= e <= v@.len(),
{
    let mut e = i;
    while e < v.len() && v[e] != c
        invariant
            i <= e <= v@.len(),
            next_sep(v@, c, e as int) == next_sep(v@, c, i as int),
        decreases v@.len() - e,
    {
        e = e + 1;
    }
    e
}

/// Encode version string as `(major<<16)|(minor<<8)|patch`.
pub fn build_client_version(version: &str) -> (r: u32)
    ensures
        r as int == client_version_code(version@),
{
    let cs = chars_of(version);
    let n = cs.len();
    let mut numbers: Vec<u32> = Vec::new();
    let mut start: usize = 0;
    loop
        invariant_except_break
            n == cs@.len(),
            start <= n,
            numbers@ + parsed_numbers(split_from(cs@, '.', start as int)) == parsed_numbers(
                split_on(cs@, '.'),
            ),
        ensures
            numbers@ == parsed_numbers(split_on(cs@, '.')),
        decreases n - start,
    {
        let e = find_sep(&cs, '.', start);
        let parsed = parse_u32_range(&cs, start, e);
        let ghost rest = if e >= n {
            Seq::<Seq<char>>::empty()
        } else {
            split_from(cs@, '.', e + 1)
        };
        proof {
            assert(split_from(cs@, '.', start as int) =~= seq![cs@.subrange(start as int, e as int)]
                + rest);
            lemma_parsed_numbers_cons(cs@.subrange(start as int, e as int), rest);
        }
        let ghost before = numbers@;
        if let Some(value) = parsed {
            numbers.push(value);
            assert(numbers@ + parsed_numbers(rest) =~= before + (seq![value] + parsed_numbers(
                rest,
            )));
        }
        if e >= n {
            assert(numbers@ =~= numbers@ + parsed_numbers(rest));
            break;
        }
        start = e + 1;
    }
    assert(numbers@ =~= parsed_numbers(split_on(cs@, '.')));
    let major: u32 = if numbers.len() > 0 {
        numbers[0] % 256
    } else {
        0
    };
    let minor: u32 = if numbers.len() > 1 {
        numbers[1] % 256
    } else {
        0
    };
    let patch: u32 = if numbers.len() > 2 {
        numbers[2] % 256
    } else {
        0
    };
    major * 65536 + minor * 256 + patch
}

// ---------------------------------------------------------------------------
// Base URL
// ---------------------------------------------------------------------------

/// `url` with a '/' appended unless it already ends with one.
pub open spec fn with_trailing_slash(url: Seq<char>) -> Seq<char> {
    if url.len() > 0 && url.last() == '/' {
        url
    } else {
        url.push('/')
    }
}

pub fn ensure_trailing_slash(url: &str) -> (r: String)
    ensures
        r@ == with_trailing_slash(url@),
{
    let cs = chars_of(url);
    let mut r = url.to_owned();
    if cs.len() > 0 && cs[cs.len() - 1] == '/' {
        r
    } else {
        push_char(&mut r, '/');
        r
    }
}

/// Normalising the base URL twice changes nothing more.
pub proof fn lemma_trailing_slash_idempotent(url: Seq<char>)
    ensures
        with_trailing_slash(with_trailing_slash(url)) == with_trailing_slash(url),
{
}

/// Full URL of an API endpoint: the base URL followed by the endpoint path.
pub fn endpoint_url(base_url: &str, endpoint: &str) -> (r: String)
    ensures
        r@ == base_url@ + endpoint@,
{
    let mut r = base_url.to_owned();
    r.append(endpoint);
    r
}

// ---------------------------------------------------------------------------
// Headers
// ---------------------------------------------------------------------------

/// Views of a list of header name/value pairs.
pub open spec fn header_views(h: Seq<(String, String)>) -> Seq<(Seq<char>, Seq<char>)> {
    h.map_values(|p: (String, String)| (p.0@, p.1@))
}

/// Headers sent with every request.
pub open spec fn common_header_list(app_id: Seq<char>, client_version: u32, route_tag: Option<u32>) -> Seq<
    (Seq<char>, Seq<char>),
> {
    seq![("iLink-App-Id"@, app_id), ("iLink-App-ClientVersion"@, decimal(client_version as nat))]
        + match route_tag {
        Some(tag) => seq![("SKRouteTag"@, decimal(tag as nat))],
        None => seq![],
    }
}

/// Headers sent with every POST: content and authorization headers, then the
/// common ones. The bearer token is sent trimmed, and only when non-empty.
pub open spec fn post_header_list(
    token: Seq<char>,
    uin: Seq<char>,
    app_id: Seq<char>,
    client_version: u32,
    route_tag: Option<u32>,
) -> Seq<(Seq<char>, Seq<char>)> {
    seq![
        ("Content-Type"@, "application/json"@),
        ("AuthorizationType"@, "ilink_bot_token"@),
        ("X-WECHAT-UIN"@, uin),
    ] + (if token.len() > 0 {
        seq![("Authorization"@, "Bearer "@ + trim(token))]
    } else {
        seq![]
    }) + common_header_list(app_id, client_version, route_tag)
}

fn header(name: &str, value: String) -> (r: (String, String))
    ensures
        r.0@ == name@,
        r.1@ == value@,
{
    (name.to_owned(), value)
}

fn decimal_string(n: u32) -> (r: String)
    ensures
        r@ == decimal(n as nat),
{
    let mut s = String::new();
    push_decimal(&mut s, n as u64);
    assert(s@ =~= decimal(n as nat));
    s
}

/// Headers sent with every request.
pub fn common_headers(app_id: &str, client_version: u32, route_tag: Option<u32>) -> (r: Vec<
    (String, String),
>)
    ensures
        header_views(r@) == common_header_list(app_id@, client_version, route_tag),
{
    let mut h: Vec<(String, String)> = Vec::new();
    h.push(header("iLink-App-Id", app_id.to_owned()));
    h.push(header("iLink-App-ClientVersion", decimal_string(client_version)));
    if let Some(tag) = route_tag {
        h.push(header("SKRouteTag", decimal_string(tag)));
    }
    assert(header_views(h@) =~= common_header_list(app_id@, client_version, route_tag));
    h
}

/// Headers sent with every POST, given the `X-WECHAT-UIN` value to use.
pub fn post_headers(
    token: &str,
    uin: String,
    app_id: &str,
    client_version: u32,
    route_tag: Option<u32>,
) -> (r: Vec<(String, String)>)
    ensures
        header_views(r@) == post_header_list(token@, uin@, app_id@, client_version, route_tag),
{
    let mut h: Vec<(String, String)> = Vec::new();
    h.push(header("Content-Type", "application/json".to_owned()));
    h.push(header("AuthorizationType", "ilink_bot_token".to_owned()));
    let ghost uin_view = uin@;
    h.push(header("X-WECHAT-UIN", uin));
    let token_chars = chars_of(token);
    if token_chars.len() > 0 {
        let trimmed = trim_chars(&token_chars);
        let mut value = String::from_str("Bearer ");
        let t = string_of(&trimmed, 0, trimmed.len());
        assert(trimmed@.subrange(0, trimmed@.len() as int) =~= trimmed@);
        value.append(t.as_str());
        h.push(header("Authorization", value));
    }
    let ghost first = h@;
    let common = common_headers(app_id, client_version, route_tag);
    let mut k: usize = 0;
    while k < common.len()
        invariant
            k <= common@.len(),
            h@ == first + common@.subrange(0, k as int),
        decreases common@.len() - k,
    {
        let pair = (common[k].0.clone(), common[k].1.clone());
        h.push(pair);
        k = k + 1;
        assert(h@ =~= first + common@.subrange(0, k as int));
    }
    assert(common@.subrange(0, common@.len() as int) =~= common@);
    assert(header_views(h@) =~= post_header_list(token@, uin_view, app_id@, client_version, route_tag));
    h
}

// ---------------------------------------------------------------------------
// X-WECHAT-UIN
// ---------------------------------------------------------------------------

/// ASCII bytes of the decimal rendering of `n`.
pub open spec fn decimal_bytes(n: nat) -> Seq<u8> {
    decimal(n).map_values(|c: char| c as u8)
}

fn push_decimal_bytes(v: &mut Vec<u8>, n: u32)
    ensures
        final(v)@ == old(v)@ + decimal_bytes(n as nat),
    decreases n,
{
    if n >= 10 {
        push_decimal_bytes(v, n / 10);
    }
    v.push(48u8 + (n % 10) as u8);
    proof {
        if n >= 10 {
            assert(decimal(n as nat) == decimal((n / 10) as nat).push(digit_char((n % 10) as nat)));
        }
    }
    assert(v@ =~= old(v)@ + decimal_bytes(n as nat));
}

/// The `X-WECHAT-UIN` header value for the number `n`: Base64 of its decimal
/// rendering.
pub fn wechat_uin(n: u32) -> (r: String)
    ensures
        r@ == base64_standard(decimal_bytes(n as nat)),
{
    let mut bytes: Vec<u8> = Vec::new();
    push_decimal_bytes(&mut bytes, n);
    assert(bytes@ =~= decimal_bytes(n as nat));
    proof {
        lemma_decimal_len(n as nat);
    }
    base64_encode(bytes.as_slice())
}

proof fn lemma_decimal_len(n: nat)
    ensures
        n <= u32::MAX ==> decimal(n).len() <= 10,
        decimal(n).len() >= 1,
    decreases n,
{
    if n >= 10 {
        lemma_decimal_len(n / 10);
        assert(n / 10 < 1000000000 ==> decimal(n / 10).len() <= 9) by {
            lemma_decimal_len_bound(n / 10);
        }
    }
}

proof fn lemma_decimal_len_bound(n: nat)
    ensures
        n < 1000000000 ==> decimal(n).len() <= 9,
        n < 100000000 ==> decimal(n).len() <= 8,
        n < 10000000 ==> decimal(n).len() <= 7,
        n < 1000000 ==> decimal(n).len() <= 6,
        n < 100000 ==> decimal(n).len() <= 5,
        n < 10000 ==> decimal(n).len() <= 4,
        n < 1000 ==> decimal(n).len() <= 3,
        n < 100 ==> decimal(n).len() <= 2,
        n < 10 ==> decimal(n).len() <= 1,
    decreases n,
{
    if n >= 10 {
        lemma_decimal_len_bound(n / 10);
    }
}

/// A random `X-WECHAT-UIN` header value: Base64 of the decimal rendering of
/// some `u32`.
pub fn random_wechat_uin() -> (r: String)
    ensures
        exists|n: u32| r@ == base64_standard(decimal_bytes(n as nat)),
{
    let n = random_u32();
    wechat_uin(n)
}

// ---------------------------------------------------------------------------
// Responses and retries
// ---------------------------------------------------------------------------

/// Retry budget for transient transport errors.
pub const POST_MAX_RETRIES: u32 = 2;

/// Fixed backoff between retries, in milliseconds.
pub const POST_RETRY_DELAY_MS: u64 = 500;

/// Transport errors worth retrying: client-side timeouts and connection failures.
pub open spec fn retryable(err: Error) -> bool {
    match err {
        Error::Http(t) => t.is_timeout || t.is_connect,
        _ => false,
    }
}

/// True for transport errors worth retrying. API errors (non-2xx) and decode
/// errors are not retried.
pub fn is_retryable_transport(err: &Error) -> (r: bool)
    ensures
        r == retryable(*err),
{
    match err {
        Error::Http(t) => t.is_timeout || t.is_connect,
        _ => false,
    }
}

/// Whether a failed attempt number `attempt` (counted from 0) is followed by
/// another one.
pub fn should_retry(attempt: u32, err: &Error) -> (r: bool)
    ensures
        r == (attempt < POST_MAX_RETRIES && retryable(*err)),
{
    attempt < POST_MAX_RETRIES && is_retryable_transport(err)
}

/// Number of retries made when the attempts numbered from `attempt` on fail
/// with `failures`, in order, while `should_retry` allows another attempt.
pub open spec fn retries_taken(failures: Seq<Error>, attempt: nat) -> nat
    decreases failures.len(),
{
    if failures.len() > 0 && attempt < POST_MAX_RETRIES && retryable(failures[0]) {
        retries_taken(failures.drop_first(), attempt + 1)
    } else {
        attempt
    }
}

proof fn lemma_retries_bounded(failures: Seq<Error>, attempt: nat)
    requires
        attempt <= POST_MAX_RETRIES,
    ensures
        retries_taken(failures, attempt) <= POST_MAX_RETRIES,
    decreases failures.len(),
{
    if failures.len() > 0 && attempt < POST_MAX_RETRIES && retryable(failures[0]) {
        lemma_retries_bounded(failures.drop_first(), attempt + 1);
    }
}

/// Retry budget: whatever the failures, a request starting at attempt 0 is
/// retried at most `POST_MAX_RETRIES` times.
pub proof fn lemma_retry_budget(failures: Seq<Error>)
    ensures
        retries_taken(failures, 0) <= POST_MAX_RETRIES,
{
    lemma_retries_bounded(failures, 0);
}

/// The first non-zero code among `ret` and `errcode`, if any.
pub open spec fn first_nonzero_code(ret: Option<i64>, errcode: Option<i64>) -> Option<i64> {
    match (ret, errcode) {
        (Some(c), _) if c != 0 => Some(c),
        (_, Some(c)) if c != 0 => Some(c),
        _ => None,
    }
}

/// The business code of a response body: the first non-zero one among its
/// integer `ret` and `errcode` fields, if any.
pub open spec fn business_code(raw: Seq<char>) -> Option<i64> {
    first_nonzero_code(json_int_field(raw, "ret"@), json_int_field(raw, "errcode"@))
}

/// A code as `i32`, or `i32::MAX` when it does not fit.
pub open spec fn code_as_i32(code: i64) -> i32 {
    if i32::MIN <= code <= i32::MAX {
        code as i32
    } else {
        i32::MAX
    }
}

/// The `errmsg` text, or empty text when there is none.
pub open spec fn message_or_empty(errmsg: Option<Seq<char>>) -> Seq<char> {
    match errmsg {
        Some(m) => m,
        None => seq![],
    }
}

/// The `errmsg` field, or empty text.
pub open spec fn error_message(raw: Seq<char>) -> Seq<char> {
    message_or_empty(json_str_field(raw, "errmsg"@))
}

/// Success when `code` is `None`, else the `Api` error carrying the code and
/// `message`.
pub open spec fn code_outcome(code: Option<i64>, message: Seq<char>, r: Result<(), Error>) -> bool {
    match code {
        None => r is Ok,
        Some(c) => r matches Err(Error::Api { errcode, errmsg }) && errcode == code_as_i32(c)
            && errmsg@ == message,
    }
}

/// Success, or the `Api` error carrying `code` and the body's `errmsg`.
pub open spec fn business_outcome(raw: Seq<char>, r: Result<(), Error>) -> bool {
    code_outcome(business_code(raw), error_message(raw), r)
}

/// The business check over the fields read from a response body: a non-zero
/// `ret`, else a non-zero `errcode`, is an `Api` error with that code (as
/// `i32`, `i32::MAX` when it does not fit) and `errmsg` (empty when absent);
/// otherwise success.
pub fn business_result(ret: Option<i64>, errcode: Option<i64>, errmsg: Option<String>) -> (r: Result<(), Error>)
    ensures
        code_outcome(
            first_nonzero_code(ret, errcode),
            message_or_empty(
                match errmsg {
                    Some(m) => Some(m@),
                    None => None,
                },
            ),
            r,
        ),
{
    let code = match ret {
        Some(c) if c != 0 => Some(c),
        _ => match errcode {
            Some(c) if c != 0 => Some(c),
            _ => None,
        },
    };
    match code {
        None => Ok(()),
        Some(c) => {
            let errcode: i32 = if i32::MIN as i64 <= c && c <= i32::MAX as i64 {
                c as i32
            } else {
                i32::MAX
            };
            let errmsg = match errmsg {
                Some(m) => m,
                None => String::new(),
            };
            Err(Error::Api { errcode, errmsg })
        },
    }
}

/// The API signals business failures with HTTP 200: the status lives in the
/// body's `ret` / `errcode`, with `errmsg` giving the reason. A body without
/// these fields, or one that is not JSON, is treated as success here.
pub fn check_business_code(raw: &str) -> (r: Result<(), Error>)
    ensures
        business_outcome(raw@, r),
{
    let ret = int_field(raw, "ret");
    let errcode = int_field(raw, "errcode");
    let errmsg = str_field(raw, "errmsg");
    business_result(ret, errcode, errmsg)
}

/// The long poll's answer when sending it failed on the client side with a
/// timeout: success (`ret` 0), no messages, and the sync buffer unchanged.
pub struct EmptyUpdates {
    pub ret: i32,
    pub get_updates_buf: String,
}

/// After a failed long-poll send: a client-side timeout yields an empty
/// successful batch keeping `sync_buf`; any other failure is reported.
pub fn updates_after_send_failure(is_timeout: bool, sync_buf: &str) -> (r: Option<EmptyUpdates>)
    ensures
        is_timeout ==> (r matches Some(u) && u.ret == 0 && u.get_updates_buf@ == sync_buf@),
        !is_timeout ==> r is None,
{
    if is_timeout {
        Some(EmptyUpdates { ret: 0, get_updates_buf: sync_buf.to_owned() })
    } else {
        None
    }
}

/// HTTP success: a 2xx status.
pub open spec fn is_success_status(status: u16) -> bool {
    200 <= status <= 299
}

/// What `check_status` returns: success for a 2xx status, otherwise the
/// `Api` error carrying the status and the body.
pub open spec fn status_checked(status: u16, raw: Seq<char>, r: Result<(), Error>) -> bool {
    &&& is_success_status(status) ==> r is Ok
    &&& !is_success_status(status) ==> (r matches Err(Error::Api { errcode, errmsg }) && errcode
        == status as i32 && errmsg@ == raw)
}

/// A non-2xx status is an `Api` error carrying the status and the body.
pub fn check_status(status: u16, raw: &str) -> (r: Result<(), Error>)
    ensures
        status_checked(status, raw@, r),
{
    if 200 <= status && status <= 299 {
        Ok(())
    } else {
        Err(Error::Api { errcode: status as i32, errmsg: raw.to_owned() })
    }
}

/// What `classify_response` returns: the `Api` error of a non-2xx status,
/// otherwise the outcome of the business check on the body.
pub open spec fn response_classified(status: u16, raw: Seq<char>, r: Result<(), Error>) -> bool {
    &&& !is_success_status(status) ==> (r matches Err(Error::Api { errcode, errmsg }) && errcode
        == status as i32 && errmsg@ == raw)
    &&& is_success_status(status) ==> business_outcome(raw, r)
}

/// Outcome of one POST given the HTTP status and raw body: a non-2xx status is
/// an `Api` error carrying the status and the body; otherwise the business
/// code decides.
pub fn classify_response(status: u16, raw: &str) -> (r: Result<(), Error>)
    ensures
        response_classified(status, raw@, r),
{
    match check_status(status, raw) {
        Ok(()) => check_business_code(raw),
        Err(e) => Err(e),
    }
}

/// Only 2xx is success: whatever the body, a status below 200 or above 299
/// is the `Api` error carrying that status and the body, from the status
/// check and from the response classification alike; a status in 200..=299
/// passes the status check, and the classification then succeeds exactly
/// when the body carries no business code.
pub proof fn lemma_only_2xx_succeeds(status: u16, raw: Seq<char>, r: Result<(), Error>, q: Result<(), Error>)
    requires
        status_checked(status, raw, r),
        response_classified(status, raw, q),
    ensures
        (status < 200 || status > 299) ==> (r matches Err(Error::Api { errcode, errmsg })
            && errcode == status as i32 && errmsg@ == raw),
        (status < 200 || status > 299) ==> (q matches Err(Error::Api { errcode, errmsg })
            && errcode == status as i32 && errmsg@ == raw),
        200 <= status <= 299 ==> r is Ok,
        200 <= status <= 299 ==> (q is Ok <==> business_code(raw) is None),
{
}

} // verus!
