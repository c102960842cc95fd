use webserv::clock::DateParts;
use webserv::response::{
    create_response, error_page, format_http_date, get_content_type, get_month, get_status_code,
    get_time, get_weekday, render_response, resource_path,
};

fn sample_date() -> DateParts {
    DateParts {
        year: 2024,
        month: 1,
        day: 4,
        weekday: 3,
        hour: 5,
        minute: 9,
        second: 3,
    }
}

#[test]
fn response_bytes_in_fixed_order() {
    let r = render_response(200, 5, true, b"text/html; charset=utf-8", &sample_date());
    assert_eq!(
        r.as_slice(),
        &b"HTTP/1.1 200 OK\r\nDate: Thu, 04 Jan 2024 05:09:03 GMT\r\nContent-Length: 5\r\nContent-Type: text/html; charset=utf-8\r\nConnection: keep-alive\r\nServer: rust-webserv\r\n\r\n"[..]
    );
}

#[test]
fn close_response_says_close() {
    let r = render_response(404, 0, false, b"text/html; charset=utf-8", &sample_date());
    let text = String::from_utf8(r).unwrap();
    assert!(text.starts_with("HTTP/1.1 404 Not Found\r\n"));
    assert!(text.contains("\r\nConnection: close\r\n"));
    assert!(text.ends_with("\r\n\r\n"));
}

#[test]
fn date_line_is_padded_and_gmt() {
    let d = format_http_date(&sample_date());
    assert_eq!(d.as_slice(), b"Thu, 04 Jan 2024 05:09:03 GMT");
    let late = DateParts {
        year: 1999,
        month: 12,
        day: 31,
        weekday: 4,
        hour: 23,
        minute: 59,
        second: 59,
    };
    assert_eq!(
        format_http_date(&late).as_slice(),
        b"Fri, 31 Dec 1999 23:59:59 GMT"
    );
}

#[test]
fn month_names_are_exact() {
    assert_eq!(get_month(1).as_slice(), b"Jan");
    assert_eq!(get_month(3).as_slice(), b"Mar");
    assert_eq!(get_month(12).as_slice(), b"Dec");
    assert_eq!(get_month(13).as_slice(), b"Error month");
}

#[test]
fn weekday_names_are_exact() {
    assert_eq!(get_weekday(0).as_slice(), b"Mon");
    assert_eq!(get_weekday(6).as_slice(), b"Sun");
}

#[test]
fn status_lines_carry_reason_phrases() {
    assert_eq!(get_status_code(200).as_slice(), b"200 OK");
    assert_eq!(get_status_code(400).as_slice(), b"400 Bad Request");
    assert_eq!(get_status_code(404).as_slice(), b"404 Not Found");
    assert_eq!(get_status_code(415).as_slice(), b"415 Unsupported Media");
    assert_eq!(get_status_code(500).as_slice(), b"500 Internal Error");
    assert_eq!(get_status_code(999).as_slice(), b"500 Internal Error");
}

#[test]
fn content_type_by_extension() {
    assert_eq!(get_content_type(b"/").as_slice(), b"text/html; charset=utf-8");
    assert_eq!(
        get_content_type(b"/notes.txt").as_slice(),
        b"text/plain; charset=utf-8"
    );
    assert_eq!(
        get_content_type(b"/page.html").as_slice(),
        b"text/html; charset=utf-8"
    );
    assert_eq!(get_content_type(b"/pic.png").as_slice(), b"image/png;");
    assert_eq!(get_content_type(b"/pic.jpg").as_slice(), b"image/jpg;");
    assert_eq!(get_content_type(b"/pic.jpeg").as_slice(), b"image/jpg;");
    assert_eq!(
        get_content_type(b"/app.js").as_slice(),
        b"text/javascript; charset=utf-8"
    );
    assert_eq!(get_content_type(b"/fav.ico").as_slice(), b"image/icone");
    assert_eq!(get_content_type(b"/archive.zip").as_slice(), b"none");
    assert_eq!(get_content_type(b"nodots").as_slice(), b"none");
    // The extension is what follows the last dot.
    assert_eq!(
        get_content_type(b"/a.min.js").as_slice(),
        b"text/javascript; charset=utf-8"
    );
}

#[test]
fn error_pages_by_status() {
    assert_eq!(error_page(400).as_slice(), b"400.html");
    assert_eq!(error_page(404).as_slice(), b"404.html");
    assert_eq!(error_page(415).as_slice(), b"415.html");
    assert_eq!(error_page(500).as_slice(), b"500.html");
    assert_eq!(error_page(999).as_slice(), b"500.html");
}

#[test]
fn resource_paths_under_document_root() {
    assert_eq!(resource_path(b"/").as_slice(), b"./html/index.html");
    assert_eq!(resource_path(b"/page.html").as_slice(), b"./html//page.html");
}

#[test]
fn live_time_renders_a_date_line() {
    // Exercises the real clock behind the trusted reading.
    let t = String::from_utf8(get_time()).unwrap();
    assert!(t.ends_with(" GMT"));
    let weekdays = ["Mon", "Tue", "Wed", "Thu", "Fri", "Sat", "Sun"];
    assert!(weekdays.iter().any(|w| t.starts_with(w)));
    assert_eq!(t.as_bytes()[3], b',');
}

#[test]
fn live_response_is_framed() {
    let r = String::from_utf8(create_response(200, 0, true, b"none")).unwrap();
    assert!(r.starts_with("HTTP/1.1 200 OK\r\nDate: "));
    assert!(r.contains("\r\nContent-Length: 0\r\n"));
    assert!(r.contains("\r\nServer: rust-webserv\r\n\r\n"));
}

#[test]
fn header_map_inserts_and_overwrites() {
    let mut m = webserv::headers::HeaderMap::new();
    assert_eq!(m.len(), 0);
    m.insert(b"a".to_vec(), b"1".to_vec());
    m.insert(b"b".to_vec(), b"x".to_vec());
    m.insert(b"a".to_vec(), b"2".to_vec());
    assert_eq!(m.len(), 2);
    assert_eq!(m.get(b"a").unwrap().as_slice(), b"2");
    assert_eq!(m.get(b"b").unwrap().as_slice(), b"x");
    assert!(m.get(b"c").is_none());
}

#[test]
fn response_head_and_frame_carry_their_parts() {
    let mut headers = webserv::headers::HeaderMap::new();
    headers.insert(b"connection".to_vec(), b"close".to_vec());
    let head = webserv::response::ResponseHead::new(200, b"HTTP/1.1".to_vec(), headers);
    assert_eq!(head.status, 200);
    assert_eq!(head.version.as_slice(), b"HTTP/1.1");
    let frame = webserv::frame::HttpFrame::ResponseHead(head);
    match frame {
        webserv::frame::HttpFrame::ResponseHead(h) => {
            assert_eq!(h.headers.get(b"connection").unwrap().as_slice(), b"close");
        }
        _ => panic!("frame should hold the response head"),
    }
}

#[test]
fn packet_parses_request_line_and_headers() {
    let p = webserv::packet::HttpPacket::new(b"GET /idx HTTP/1.1\r\nHost: Example\r\n\r\n");
    assert_eq!(p.request_line.get(b"method").unwrap().as_slice(), b"GET");
    assert_eq!(p.request_line.get(b"path").unwrap().as_slice(), b"/idx");
    assert_eq!(
        p.request_line.get(b"protocol").unwrap().as_slice(),
        b"HTTP/1.1"
    );
    assert_eq!(p.headers.get(b"host").unwrap().as_slice(), b"example");
    assert!(p.body.is_empty());
}

#[test]
fn packet_request_line_sentinels() {
    let rl = webserv::packet::get_request_line(b"GET");
    assert_eq!(rl.get(b"method").unwrap().as_slice(), b"GET");
    assert_eq!(rl.get(b"path").unwrap().as_slice(), b"error");
    assert_eq!(rl.get(b"protocol").unwrap().as_slice(), b"error");
}

#[test]
fn packet_headers_overwrite_and_skip() {
    let (_rl, headers) = webserv::packet::parse_header(b"GET / HTTP/1.1\nA: 1\nA: 2\nplain\n");
    assert_eq!(headers.get(b"a").unwrap().as_slice(), b"2");
    assert!(headers.get(b"plain").is_none());
    assert_eq!(headers.len(), 1);
}

#[test]
fn packet_headers_stop_at_blank_line() {
    // The first empty line ends the headers: body text after it is
    // never parsed into the mapping.
    let (_rl, headers) = webserv::packet::parse_header(b"X\n\nB: 2\n");
    assert_eq!(headers.len(), 0);
    assert!(headers.get(b"b").is_none());

    let p = webserv::packet::HttpPacket::new(b"GET / HTTP/1.1\r\nHost: a\r\n\r\nkey: body text\r\n");
    assert_eq!(p.headers.get(b"host").unwrap().as_slice(), b"a");
    assert!(p.headers.get(b"key").is_none());
    assert_eq!(p.headers.len(), 1);
}
