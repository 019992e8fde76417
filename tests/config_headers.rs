use actix_web::http::header::{HeaderMap, HeaderName, HeaderValue};
use whoiser::config::{parse_u32, Config, DEFAULT_TTL};
use whoiser::headers::get_first_header;

#[test]
fn parse_u32_accepts_std_forms() {
    assert_eq!(parse_u32("0"), Some(0));
    assert_eq!(parse_u32("3600"), Some(3600));
    assert_eq!(parse_u32("+15"), Some(15));
    assert_eq!(parse_u32("007"), Some(7));
    assert_eq!(parse_u32("4294967295"), Some(u32::MAX));
}

#[test]
fn parse_u32_rejects_bad_text() {
    assert_eq!(parse_u32(""), None);
    assert_eq!(parse_u32("+"), None);
    assert_eq!(parse_u32("-1"), None);
    assert_eq!(parse_u32("12a"), None);
    assert_eq!(parse_u32(" 1"), None);
    assert_eq!(parse_u32("4294967296"), None);
    assert_eq!(parse_u32("99999999999999999999x"), None);
}

#[test]
fn config_defaults_and_values() {
    let c = Config::from_vars(None, None);
    assert_eq!(c.cache_ttl, 86400);
    assert_eq!(DEFAULT_TTL, 86400);
    assert_eq!(c.port, "8080");
    let c = Config::from_vars(Some("120"), Some("9000".to_string()));
    assert_eq!(c.cache_ttl, 120);
    assert_eq!(c.port, "9000");
    let c = Config::from_vars(Some("soon"), None);
    assert_eq!(c.cache_ttl, 86400);
}

#[test]
fn first_header_in_given_order() {
    let mut map = HeaderMap::new();
    map.insert(HeaderName::from_static("x-forwarded-for"), HeaderValue::from_static("10.0.0.2"));
    map.insert(HeaderName::from_static("x-real-ip"), HeaderValue::from_static("10.0.0.1"));
    let names = ["cf-connecting-ip", "x-real-ip", "x-forwarded-for"];
    assert_eq!(get_first_header(&map, &names), Some("10.0.0.1".to_string()));
    let names = ["x-forwarded-for", "x-real-ip"];
    assert_eq!(get_first_header(&map, &names), Some("10.0.0.2".to_string()));
}

#[test]
fn first_header_skips_non_text_and_missing() {
    let mut map = HeaderMap::new();
    map.insert(HeaderName::from_static("x-real-ip"), HeaderValue::from_bytes(b"\xff\xfe").unwrap());
    map.insert(HeaderName::from_static("x-client-ip"), HeaderValue::from_static("192.0.2.7"));
    let names = ["true-client-ip", "x-real-ip", "x-client-ip"];
    assert_eq!(get_first_header(&map, &names), Some("192.0.2.7".to_string()));
    let names = ["forwarded"];
    assert_eq!(get_first_header(&map, &names), None);
    assert_eq!(get_first_header(&HeaderMap::new(), &[]), None);
}
