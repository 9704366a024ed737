use base64::Engine;
use weixin_agent::api::client::{
    build_client_version, business_result, check_business_code, classify_response, common_headers, endpoint_url,
    ensure_trailing_slash, is_retryable_transport, post_headers, random_wechat_uin, should_retry,
    updates_after_send_failure, wechat_uin,
};
use weixin_agent::error::{Error, TransportError};

#[test]
fn build_client_version_encoding() {
    assert_eq!(build_client_version("2.1.1"), (2 << 16) | (1 << 8) | 1);
    assert_eq!(build_client_version("1.0.0"), 1 << 16);
    assert_eq!(build_client_version("0.0.1"), 1);
    assert_eq!(build_client_version(""), 0);
}

#[test]
fn build_client_version_skips_unparsable_parts_and_masks_bytes() {
    // Non-numeric parts are dropped, later numbers move up.
    assert_eq!(build_client_version("x.2.3"), (2 << 16) | (3 << 8));
    // Each component keeps its low byte only.
    assert_eq!(build_client_version("257.1.300"), (1 << 16) | (1 << 8) | 44);
    // A leading '+' is accepted by `parse`, a lone one is not.
    assert_eq!(build_client_version("+2.+.4"), (2 << 16) | (4 << 8));
    // Values beyond u32 do not parse.
    assert_eq!(build_client_version("4294967296.5"), 5 << 16);
    assert_eq!(build_client_version("2.1.8.9"), (2 << 16) | (1 << 8) | 8);
}

#[test]
fn ensure_trailing_slash_adds() {
    assert_eq!(ensure_trailing_slash("https://example.com"), "https://example.com/");
}

#[test]
fn ensure_trailing_slash_noop() {
    assert_eq!(ensure_trailing_slash("https://example.com/"), "https://example.com/");
}

#[test]
fn ensure_trailing_slash_of_empty() {
    assert_eq!(ensure_trailing_slash(""), "/");
}

#[test]
fn endpoint_url_concatenates() {
    assert_eq!(
        endpoint_url("https://example.com/", "ilink/bot/getupdates"),
        "https://example.com/ilink/bot/getupdates"
    );
}

#[test]
fn random_wechat_uin_format() {
    let uin = random_wechat_uin();
    let decoded = base64::engine::general_purpose::STANDARD.decode(&uin).unwrap();
    let s = std::str::from_utf8(&decoded).unwrap();
    assert!(s.parse::<u32>().is_ok());
}

#[test]
fn wechat_uin_is_base64_of_decimal() {
    assert_eq!(wechat_uin(0), "MA==");
    assert_eq!(wechat_uin(123), "MTIz");
    assert_eq!(wechat_uin(4294967295), base64::engine::general_purpose::STANDARD.encode("4294967295"));
}

#[test]
fn is_retryable_transport_rejects_non_transport_errors() {
    assert!(!is_retryable_transport(&Error::Api {
        errcode: 500,
        errmsg: "boom".into(),
    }));
    assert!(!is_retryable_transport(&Error::Crypto("bad".into())));
    assert!(!is_retryable_transport(&Error::Config("bad".into())));
    assert!(!is_retryable_transport(&Error::Timeout("slow".into())));
}

fn transport(is_timeout: bool, is_connect: bool) -> Error {
    Error::Http(TransportError { is_timeout, is_connect, message: "x".into() })
}

#[test]
fn is_retryable_transport_accepts_timeouts_and_connect_failures() {
    assert!(is_retryable_transport(&transport(true, false)));
    assert!(is_retryable_transport(&transport(false, true)));
    assert!(!is_retryable_transport(&transport(false, false)));
}

#[test]
fn retry_budget_is_two_retries() {
    let err = transport(true, false);
    assert!(should_retry(0, &err));
    assert!(should_retry(1, &err));
    assert!(!should_retry(2, &err));
    assert!(!should_retry(0, &Error::Api { errcode: 500, errmsg: String::new() }));
}

fn api_error(r: Result<(), Error>) -> (i32, String) {
    match r {
        Err(Error::Api { errcode, errmsg }) => (errcode, errmsg),
        other => panic!("expected an Api error, got {other:?}"),
    }
}

#[test]
fn business_code_rejects_nonzero_ret() {
    let (code, msg) = api_error(check_business_code(r#"{"ret":-3,"errmsg":"user not in active session"}"#));
    assert_eq!(code, -3);
    assert!(msg.contains("user not in active session"));
}

#[test]
fn business_code_rejects_nonzero_errcode() {
    let (code, msg) = api_error(check_business_code(
        r#"{"errcode":45015,"errmsg":"response out of time limit"}"#,
    ));
    assert_eq!(code, 45015);
    assert!(msg.contains("out of time limit"));
}

#[test]
fn business_code_accepts_success() {
    assert!(check_business_code(r#"{"ret":0,"errcode":0,"msg_id":"m1"}"#).is_ok());
}

#[test]
fn business_code_accepts_response_without_code_fields() {
    assert!(check_business_code(r#"{"msg_id":"m2"}"#).is_ok());
}

#[test]
fn business_code_accepts_non_json() {
    assert!(check_business_code("not json").is_ok());
    assert!(check_business_code("").is_ok());
}

#[test]
fn business_code_prefers_ret_and_clamps() {
    let (code, msg) = api_error(check_business_code(r#"{"ret":0,"errcode":7}"#));
    assert_eq!(code, 7);
    assert_eq!(msg, "");
    let (code, _) = api_error(check_business_code(r#"{"ret":5,"errcode":7}"#));
    assert_eq!(code, 5);
    let (code, _) = api_error(check_business_code(r#"{"ret":9999999999}"#));
    assert_eq!(code, i32::MAX);
    let (code, _) = api_error(check_business_code(r#"{"ret":-9999999999}"#));
    assert_eq!(code, i32::MAX);
}

#[test]
fn classify_response_reports_http_status() {
    let (code, msg) = api_error(classify_response(503, "busy"));
    assert_eq!(code, 503);
    assert_eq!(msg, "busy");
    assert!(classify_response(200, r#"{"ret":0}"#).is_ok());
    let (code, _) = api_error(classify_response(200, r#"{"ret":-3}"#));
    assert_eq!(code, -3);
}

#[test]
fn headers_are_built_in_order() {
    let common = common_headers("bot", 131329, Some(7));
    assert_eq!(
        common,
        vec![
            ("iLink-App-Id".to_string(), "bot".to_string()),
            ("iLink-App-ClientVersion".to_string(), "131329".to_string()),
            ("SKRouteTag".to_string(), "7".to_string()),
        ]
    );
    let post = post_headers("  tok \n", "VUlO".to_string(), "bot", 1, None);
    assert_eq!(
        post,
        vec![
            ("Content-Type".to_string(), "application/json".to_string()),
            ("AuthorizationType".to_string(), "ilink_bot_token".to_string()),
            ("X-WECHAT-UIN".to_string(), "VUlO".to_string()),
            ("Authorization".to_string(), "Bearer tok".to_string()),
            ("iLink-App-Id".to_string(), "bot".to_string()),
            ("iLink-App-ClientVersion".to_string(), "1".to_string()),
        ]
    );
    let anonymous = post_headers("", "VUlO".to_string(), "bot", 1, None);
    assert_eq!(anonymous.len(), 5);
}

#[test]
fn long_poll_timeout_gives_empty_success_with_same_buffer() {
    let u = updates_after_send_failure(true, "buf-123").expect("timeout is not an error");
    assert_eq!(u.ret, 0);
    assert_eq!(u.get_updates_buf, "buf-123");
    assert!(updates_after_send_failure(false, "buf-123").is_none());
}

#[test]
fn business_result_over_parsed_fields() {
    assert!(business_result(None, None, None).is_ok());
    assert!(business_result(Some(0), Some(0), Some("ok".to_string())).is_ok());
    assert_eq!(api_error(business_result(Some(0), Some(-14), Some("session timeout".to_string()))), (-14, "session timeout".to_string()));
    assert_eq!(api_error(business_result(Some(3), Some(-14), None)), (3, String::new()));
    assert_eq!(api_error(business_result(Some(5_000_000_000), None, None)), (i32::MAX, String::new()));
}
