use borehole::callback::{hex_val, parse_callback, percent_decode};

#[test]
fn parses_token_and_expires() {
    let line = "GET /?token=abc123&expires=2026-06-08T00%3A00%3A00Z HTTP/1.1";
    let (token, expires) = parse_callback(line).expect("should parse");
    assert_eq!(token, "abc123");
    assert_eq!(expires.as_deref(), Some("2026-06-08T00:00:00Z"));
}

#[test]
fn parses_token_without_expires() {
    let line = "GET /?token=xyz HTTP/1.1";
    let (token, expires) = parse_callback(line).expect("should parse");
    assert_eq!(token, "xyz");
    assert!(expires.is_none());
}

#[test]
fn missing_token_yields_none() {
    assert!(parse_callback("GET /?foo=bar HTTP/1.1").is_none());
}

#[test]
fn percent_decode_handles_escapes_and_plus() {
    assert_eq!(percent_decode("a%2Bb+c"), "a+b c");
}

#[test]
fn later_token_wins_and_keys_are_exact() {
    let line = "GET /cb?tokenx=1&token=first&token=second HTTP/1.1";
    let (token, expires) = parse_callback(line).expect("should parse");
    assert_eq!(token, "second");
    assert!(expires.is_none());
}

#[test]
fn request_line_without_target_yields_none() {
    assert!(parse_callback("GET").is_none());
    assert!(parse_callback("   ").is_none());
}

#[test]
fn target_without_query_yields_none() {
    assert!(parse_callback("GET /path HTTP/1.1").is_none());
}

#[test]
fn percent_decode_keeps_incomplete_escapes() {
    assert_eq!(percent_decode("100%"), "100%");
    assert_eq!(percent_decode("%zz"), "%zz");
    assert_eq!(percent_decode("%4"), "%4");
    assert_eq!(percent_decode("%41%62"), "Ab");
}

#[test]
fn percent_decode_replaces_invalid_utf8() {
    assert_eq!(percent_decode("%FF"), "\u{FFFD}");
}

#[test]
fn hex_val_reads_all_digit_cases() {
    assert_eq!(hex_val(b'0'), Some(0));
    assert_eq!(hex_val(b'9'), Some(9));
    assert_eq!(hex_val(b'a'), Some(10));
    assert_eq!(hex_val(b'F'), Some(15));
    assert_eq!(hex_val(b'g'), None);
}
