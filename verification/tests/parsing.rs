use webserv::request::{parse_request_head, BodyKind};
use webserv::HttpError;

fn parse_block(block: &[u8]) -> webserv::request::RequestHead {
    parse_request_head(block).expect("block should parse")
}

#[test]
fn header_line_is_folded_and_trimmed() {
    // "X-Foo:  bar  " parses to key "x-foo", value "bar".
    let head = parse_block(b"GET / HTTP/1.1\r\nX-Foo:  bar  \r\n\r\n");
    let v = head.headers.get(b"x-foo").expect("key should be folded to x-foo");
    assert_eq!(v.as_slice(), b"bar");
}

#[test]
fn repeated_header_name_overwrites() {
    // "A: 1\r\nA: 2\r\n" yields {"a": "2"}.
    let head = parse_block(b"GET / HTTP/1.1\r\nA: 1\r\nA: 2\r\n\r\n");
    let v = head.headers.get(b"a").expect("key a should be present");
    assert_eq!(v.as_slice(), b"2");
    assert_eq!(head.headers.len(), 1);
}

#[test]
fn request_line_splits_into_three_fields() {
    let head = parse_block(b"POST /upload HTTP/1.1\r\n\r\n");
    assert_eq!(head.method.as_slice(), b"POST");
    assert_eq!(head.uri.as_slice(), b"/upload");
    assert_eq!(head.version.as_slice(), b"HTTP/1.1");
}

#[test]
fn missing_request_line_fields_become_sentinels() {
    // Fewer than three tokens must not crash: the missing fields are
    // the literal sentinel.
    let head = parse_block(b"GET\r\n\r\n");
    assert_eq!(head.method.as_slice(), b"GET");
    assert_eq!(head.uri.as_slice(), b"error");
    assert_eq!(head.version.as_slice(), b"error");

    let head = parse_block(b"GET /x\r\n\r\n");
    assert_eq!(head.method.as_slice(), b"GET");
    assert_eq!(head.uri.as_slice(), b"/x");
    assert_eq!(head.version.as_slice(), b"error");

    let head = parse_block(b"\r\n\r\n");
    assert_eq!(head.method.as_slice(), b"");
    assert_eq!(head.uri.as_slice(), b"error");
    assert_eq!(head.version.as_slice(), b"error");
}

#[test]
fn extra_request_line_fields_are_ignored() {
    let head = parse_block(b"GET / HTTP/1.1 junk\r\n\r\n");
    assert_eq!(head.version.as_slice(), b"HTTP/1.1");
}

#[test]
fn undecodable_first_line_is_the_hard_error() {
    let r = parse_request_head(b"\xff\xfe\r\n\r\n");
    match r {
        Err(HttpError::MalformedInput) => {}
        _ => panic!("an undecodable first line must be MalformedInput"),
    }
    // Valid multi-byte UTF-8 in the first line is fine.
    let head = parse_block("GET /caf\u{e9} HTTP/1.1\r\n\r\n".as_bytes());
    assert_eq!(head.method.as_slice(), b"GET");
}

#[test]
fn header_line_without_colon_is_skipped() {
    let head = parse_block(b"GET / HTTP/1.1\r\nnocolonhere\r\nB: 2\r\n\r\n");
    assert!(head.headers.get(b"nocolonhere").is_none());
    assert_eq!(head.headers.get(b"b").unwrap().as_slice(), b"2");
    assert_eq!(head.headers.len(), 1);
}

#[test]
fn header_value_keeps_text_after_first_colon() {
    let head = parse_block(b"GET / HTTP/1.1\r\nHost: a:8080\r\n\r\n");
    assert_eq!(head.headers.get(b"host").unwrap().as_slice(), b"a:8080");
}

#[test]
fn content_length_reads_decimal_value() {
    let head = parse_block(b"POST / HTTP/1.1\r\nContent-Length: 17\r\n\r\n");
    assert_eq!(head.content_length(), Some(17));
}

#[test]
fn content_length_absent_or_bad_is_none() {
    let head = parse_block(b"GET / HTTP/1.1\r\n\r\n");
    assert_eq!(head.content_length(), None);
    let head = parse_block(b"GET / HTTP/1.1\r\nContent-Length: abc\r\n\r\n");
    assert_eq!(head.content_length(), None);
    let head = parse_block(b"GET / HTTP/1.1\r\nContent-Length: 99999999999999999999999999\r\n\r\n");
    assert_eq!(head.content_length(), None);
}

#[test]
fn content_type_classifies_multipart_with_boundary() {
    let head =
        parse_block(b"POST / HTTP/1.1\r\nContent-Type: multipart/form-data; boundary=xyz\r\n\r\n");
    match head.content_type() {
        BodyKind::MultipartBody(b) => assert_eq!(b.as_slice(), b"xyz"),
        _ => panic!("expected a multipart body with its boundary"),
    }
}

#[test]
fn content_type_plain_and_absent() {
    let head = parse_block(b"POST / HTTP/1.1\r\nContent-Type: text/plain\r\n\r\n");
    assert!(matches!(head.content_type(), BodyKind::PlainBody));
    // multipart without a boundary token stays opaque
    let head = parse_block(b"POST / HTTP/1.1\r\nContent-Type: multipart/form-data\r\n\r\n");
    assert!(matches!(head.content_type(), BodyKind::PlainBody));
    let head = parse_block(b"GET / HTTP/1.1\r\n\r\n");
    assert!(matches!(head.content_type(), BodyKind::NoBody));
}

#[test]
fn scan_parse_dec_exact_values() {
    assert_eq!(webserv::scan::parse_dec(b"0"), Some(0));
    assert_eq!(webserv::scan::parse_dec(b"5"), Some(5));
    assert_eq!(webserv::scan::parse_dec(b"00042"), Some(42));
    assert_eq!(webserv::scan::parse_dec(b""), None);
    assert_eq!(webserv::scan::parse_dec(b"1x"), None);
    assert_eq!(webserv::scan::parse_dec(b"18446744073709551616"), None);
}

#[test]
fn scan_trim_and_lower() {
    assert_eq!(webserv::scan::trim(b"  AbC\t ").as_slice(), b"AbC");
    assert_eq!(webserv::scan::trim(b" \t ").as_slice(), b"");
    assert_eq!(webserv::scan::trim(b"x").as_slice(), b"x");
    assert_eq!(webserv::scan::to_lower(b"X-Foo9[").as_slice(), b"x-foo9[");
}

#[test]
fn scan_utf8_checker() {
    assert!(webserv::scan::check_utf8(b"plain ascii"));
    assert!(webserv::scan::check_utf8("héllo wörld €".as_bytes()));
    assert!(!webserv::scan::check_utf8(b"\xff"));
    assert!(!webserv::scan::check_utf8(b"\xc0\xaf")); // overlong
    assert!(!webserv::scan::check_utf8(b"\xed\xa0\x80")); // surrogate
    assert!(!webserv::scan::check_utf8(b"\xe2\x82")); // truncated
}

#[test]
fn scan_dec_to_bytes_renders() {
    assert_eq!(webserv::scan::dec_to_bytes(0).as_slice(), b"0");
    assert_eq!(webserv::scan::dec_to_bytes(7).as_slice(), b"7");
    assert_eq!(webserv::scan::dec_to_bytes(1234).as_slice(), b"1234");
    assert_eq!(
        webserv::scan::dec_to_bytes(u64::MAX).as_slice(),
        b"18446744073709551615"
    );
}
