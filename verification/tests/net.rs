//! Tests of the fetch-side decision logic: classification, decoding, URL
//! validation, blocking rules, rate limiting and certificate pinning.

use rusty_browser::fetch::{classify_resource, decode_html, detect_type, FetchError as FetchLogicError, ResourceType};
use rusty_browser::http::{
    cert_matches, filter_headers, is_blocked_ip, is_dangerous_mime, validate_url, FetchError,
    IpModel, RateLimiter,
};
use rusty_browser::request::RequestType;

fn chars(s: &str) -> Vec<char> {
    s.chars().collect()
}

fn string_of(v: &Vec<char>) -> String {
    v.iter().collect()
}

#[test]
fn detect_type_by_content_type() {
    assert_eq!(detect_type("text/html; charset=utf-8"), ResourceType::Html);
    assert_eq!(detect_type("TEXT/CSS"), ResourceType::Css);
    assert_eq!(detect_type("application/javascript"), ResourceType::Script);
    assert_eq!(detect_type("image/png"), ResourceType::Image);
    assert_eq!(detect_type("application/json"), ResourceType::Json);
    assert_eq!(detect_type("text/xml"), ResourceType::Xml);
    assert_eq!(detect_type("font/woff2"), ResourceType::Font);
    assert_eq!(detect_type("application/pdf"), ResourceType::Other);
}

#[test]
fn classify_defaults_missing_content_type() {
    let r = classify_resource("http://example.com/x", None, vec![1, 2, 3]);
    assert_eq!(string_of(&r.content_type), "application/octet-stream");
    assert_eq!(r.resource_type, ResourceType::Other);
    assert_eq!(r.data, vec![1, 2, 3]);
    let h = classify_resource("http://example.com/", Some("text/html"), Vec::new());
    assert_eq!(h.resource_type, ResourceType::Html);
}

#[test]
fn decode_html_utf8_and_fallback() {
    assert_eq!(
        decode_html(&b"<p>ok</p>".to_vec()).unwrap(),
        chars("<p>ok</p>")
    );
    // invalid UTF-8 falls back to a byte-preserving reinterpretation
    let fallback = decode_html(&vec![0xff, b'a']).unwrap();
    assert_eq!(fallback, vec!['\u{ff}', 'a']);
    // an empty payload decodes as the empty document
    assert_eq!(decode_html(&Vec::new()).unwrap(), Vec::<char>::new());
    let _ = FetchLogicError::DecodeError;
}

#[test]
fn accept_headers_per_request_type() {
    assert_eq!(RequestType::Document.accept_header(), "text/html,application/xhtml+xml");
    assert_eq!(RequestType::Other.accept_header(), "*/*");
    assert_eq!(RequestType::Fetch.accept_header(), "application/json,text/plain,*/*");
}

#[test]
fn preloadable_request_types() {
    assert!(RequestType::Stylesheet.is_preloadable());
    assert!(RequestType::Script.is_preloadable());
    assert!(RequestType::Font.is_preloadable());
    assert!(!RequestType::Document.is_preloadable());
    assert!(!RequestType::Image.is_preloadable());
    assert_eq!(RequestType::Document.label(), "Document");
}

#[test]
fn url_validation() {
    assert_eq!(validate_url("https://example.com/", true), Ok(()));
    assert_eq!(validate_url("http://example.com/", false), Ok(()));
    assert_eq!(validate_url("http://example.com/", true), Err(FetchError::InsecureScheme));
    assert_eq!(validate_url("ftp://example.com/", false), Err(FetchError::InvalidUrl));
    assert_eq!(validate_url("not a url", false), Err(FetchError::InvalidUrl));
}

#[test]
fn blocked_addresses() {
    assert!(is_blocked_ip(&IpModel::V4(127, 0, 0, 1)));
    assert!(is_blocked_ip(&IpModel::V4(10, 1, 2, 3)));
    assert!(is_blocked_ip(&IpModel::V4(172, 16, 0, 1)));
    assert!(is_blocked_ip(&IpModel::V4(192, 168, 1, 1)));
    assert!(is_blocked_ip(&IpModel::V4(169, 254, 0, 1)));
    assert!(is_blocked_ip(&IpModel::V4(224, 0, 0, 1)));
    assert!(!is_blocked_ip(&IpModel::V4(93, 184, 216, 34)));
    assert!(is_blocked_ip(&IpModel::V6(0, 0, 0, 0, 0, 0, 0, 1)));
    assert!(is_blocked_ip(&IpModel::V6(0xfe80, 0, 0, 0, 0, 0, 0, 1)));
    assert!(is_blocked_ip(&IpModel::V6(0xff02, 0, 0, 0, 0, 0, 0, 1)));
    assert!(!is_blocked_ip(&IpModel::V6(0x2606, 0x2800, 0, 0, 0, 0, 0, 1)));
}

#[test]
fn dangerous_mime_detection() {
    assert!(is_dangerous_mime("application/octet-stream"));
    assert!(is_dangerous_mime("application/x-msdownload; charset=binary"));
    assert!(is_dangerous_mime("application/x-sh"));
    assert!(is_dangerous_mime("text/x-script"));
    assert!(!is_dangerous_mime("text/html"));
}

#[test]
fn header_filtering_is_case_insensitive() {
    let headers = vec![
        (chars("Content-Type"), chars("text/html")),
        (chars("X-Secret"), chars("nope")),
        (chars("SERVER"), chars("tiny")),
        (chars("content-length"), chars("12")),
    ];
    let kept = filter_headers(headers);
    assert_eq!(kept.len(), 3);
    assert_eq!(string_of(&kept[0].0), "Content-Type");
    assert_eq!(string_of(&kept[1].0), "SERVER");
    assert_eq!(string_of(&kept[2].0), "content-length");
}

#[test]
fn rate_limiter_window() {
    let mut rl = RateLimiter::new(10, 2);
    assert_eq!(rl.check(0), Ok(()));
    assert_eq!(rl.check(1), Ok(()));
    assert_eq!(rl.check(2), Err(FetchError::RateLimitExceeded));
    // once the early requests fall out of the window, new ones are allowed
    assert_eq!(rl.check(20), Ok(()));
}

#[test]
fn certificate_fingerprint_comparison() {
    // SHA-256 of the empty byte string, base64-encoded with padding
    let empty_fingerprint = "47DEQpj8HBSa+/TImW+5JCeuQeRkm5NMpJWZG3hSuFU=";
    assert!(cert_matches(&Vec::new(), empty_fingerprint));
    assert!(!cert_matches(&Vec::new(), "AAAAAAAAAAAAAAAAAAAAAAAAAAAAAAAAAAAAAAAAAAA="));
    assert!(!cert_matches(&vec![1, 2, 3], empty_fingerprint));
}
