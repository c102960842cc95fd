use bytes::BytesMut;
use webserv::multipart::{get_parts, MultiPart, Part};
use webserv::HttpError;

#[test]
fn single_part_with_disposition_and_payload() {
    // The boundary splits leave one part: disposition {name: "\"a\""}
    // and payload "hello".
    let body = BytesMut::from(
        &b"--B\r\nContent-Disposition: form-data; name=\"a\"\r\n\r\nhello\r\n--B--\r\n"[..],
    );
    let m = MultiPart::new(body, b"--B").expect("decode should succeed");
    assert_eq!(m.parts.len(), 1);
    let part = &m.parts[0];
    let name = part
        .content_disposition
        .get(b"name")
        .expect("disposition should carry name");
    assert_eq!(name.as_slice(), b"\"a\"");
    assert_eq!(part.data.as_slice(), b"hello");
    assert!(part.content_type.is_none());
    assert_eq!(part.content_disposition.len(), 1);
}

#[test]
fn part_with_content_type_line() {
    // A content-type line is its own block between two blank-line
    // separators; it is extracted and the true payload follows the
    // next separator.
    let body = b"--B\r\nContent-Disposition: form-data; name=\"f\"\r\n\r\nContent-Type: text/plain\r\n\r\npayload bytes\r\n--B--\r\n";
    let parts = get_parts(body, b"--B").expect("decode should succeed");
    assert_eq!(parts.len(), 1);
    let part = &parts[0];
    assert_eq!(part.content_type.as_ref().unwrap().as_slice(), b"text/plain");
    assert_eq!(part.data.as_slice(), b"payload bytes");
}

#[test]
fn two_parts_in_order() {
    let body = b"--B\r\nContent-Disposition: form-data; name=\"a\"\r\n\r\none\r\n--B\r\nContent-Disposition: form-data; name=\"b\"\r\n\r\ntwo\r\n--B--\r\n";
    let parts = get_parts(body, b"--B").expect("decode should succeed");
    assert_eq!(parts.len(), 2);
    assert_eq!(parts[0].data.as_slice(), b"one");
    assert_eq!(parts[1].data.as_slice(), b"two");
    assert_eq!(
        parts[0].content_disposition.get(b"name").unwrap().as_slice(),
        b"\"a\""
    );
    assert_eq!(
        parts[1].content_disposition.get(b"name").unwrap().as_slice(),
        b"\"b\""
    );
}

#[test]
fn split_without_blank_line_is_decode_failure() {
    // A split lacking the disposition block reports the decode error
    // and does not panic.
    let body = b"--B\r\nno blank line here\r\n--B--\r\n";
    match get_parts(body, b"--B") {
        Err(HttpError::DecodeFailure) => {}
        _ => panic!("a split without the separator must be DecodeFailure"),
    }
}

#[test]
fn part_new_parses_one_segment() {
    let part = Part::new(b"\r\nContent-Disposition: form-data; name=\"x\"\r\n\r\ndata\r\n")
        .expect("segment should parse");
    assert_eq!(
        part.content_disposition.get(b"name").unwrap().as_slice(),
        b"\"x\""
    );
    assert_eq!(part.data.as_slice(), b"data");
}

#[test]
fn build_attributes_divides_block_and_payload() {
    let (disp, ct, data) =
        webserv::multipart::build_attributes(b"a=1; b=2\r\n\r\nrest of it").expect("should split");
    assert_eq!(disp.get(b"a").unwrap().as_slice(), b"1");
    assert_eq!(disp.get(b"b").unwrap().as_slice(), b"2");
    assert!(ct.is_none());
    assert_eq!(data.as_slice(), b"rest of it");
}

#[test]
fn content_disposition_attributes_split_on_semicolon_and_equals() {
    let disp = webserv::multipart::get_content_disposition(
        b"form-data; name=\"a\"; filename=\"f.txt\"",
    );
    assert_eq!(disp.get(b"name").unwrap().as_slice(), b"\"a\"");
    assert_eq!(disp.get(b"filename").unwrap().as_slice(), b"\"f.txt\"");
    assert!(disp.get(b"form-data").is_none());
}

#[test]
fn missing_closing_delimiter_keeps_last_split() {
    // Without the closing "--\r\n" split nothing is dropped at the
    // end; the trailing split still needs its blank line.
    let body = b"--B\r\nContent-Disposition: form-data; name=\"a\"\r\n\r\nhi\r\n";
    let parts = get_parts(body, b"--B").expect("decode should succeed");
    assert_eq!(parts.len(), 1);
    assert_eq!(parts[0].data.as_slice(), b"hi");
}
