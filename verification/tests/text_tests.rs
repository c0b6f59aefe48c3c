use dsh_gate::text::{chars_of, cookie_values, eq_ignore_ascii_case_lower, is_space_char, same_text, text_after_last};
use dsh_gate::token::{hex_encode, random_hex};

#[test]
fn cookie_values_finds_named_cookie() {
    let v = cookie_values("a=b; dsh_rs_session=abc ; x=y", "dsh_rs_session");
    assert_eq!(v, vec!["abc".to_string()]);
}

#[test]
fn cookie_values_in_order_and_empty() {
    let v = cookie_values("s=1;s=2;t=3;  s=  ;s", "s");
    assert_eq!(v, vec!["1".to_string(), "2".to_string(), "".to_string()]);
}

#[test]
fn cookie_values_none() {
    assert!(cookie_values("", "s").is_empty());
    assert!(cookie_values("session=1", "s").is_empty());
    assert!(cookie_values("xs=1", "s").is_empty());
}

#[test]
fn cookie_values_trims_unicode_space() {
    let v = cookie_values("\t\u{3000}s=v\u{a0}", "s");
    assert_eq!(v, vec!["v".to_string()]);
}

#[test]
fn after_last_colon() {
    assert_eq!(text_after_last("host.docker.internal:3080", ':'), "3080");
    assert_eq!(text_after_last("user:pw@host:81", ':'), "81");
    assert_eq!(text_after_last("example.com", ':'), "example.com");
    assert_eq!(text_after_last("host:", ':'), "");
    assert_eq!(text_after_last("", ':'), "");
}

#[test]
fn ascii_case_fold() {
    assert!(eq_ignore_ascii_case_lower("WebSocket", "websocket"));
    assert!(eq_ignore_ascii_case_lower("websocket", "websocket"));
    assert!(!eq_ignore_ascii_case_lower("websockets", "websocket"));
    assert!(!eq_ignore_ascii_case_lower("h2c", "websocket"));
    assert!(eq_ignore_ascii_case_lower("", ""));
}

#[test]
fn whitespace_matches_std() {
    for c in ['\t', '\n', ' ', '\u{85}', '\u{a0}', '\u{2000}', '\u{3000}', 'a', '\u{200b}', '\u{feff}', 'é'] {
        assert_eq!(is_space_char(c), c.is_whitespace(), "{:?}", c);
    }
}

#[test]
fn text_equality_and_chars() {
    assert!(same_text("/login", "/login"));
    assert!(!same_text("/login", "/logout"));
    assert_eq!(chars_of("héllo"), vec!['h', 'é', 'l', 'l', 'o']);
}

#[test]
fn hex_encoding_exact() {
    assert_eq!(hex_encode(&[0x00, 0xab, 0xff, 0x10]), "00abff10");
    assert_eq!(hex_encode(&[]), "");
}

#[test]
fn random_hex_shape() {
    let t = random_hex(24);
    assert_eq!(t.len(), 48);
    assert!(t.chars().all(|ch| ch.is_ascii_digit() || ('a'..='f').contains(&ch)));
    assert_eq!(random_hex(0), "");
    assert_ne!(random_hex(16), random_hex(16));
}
