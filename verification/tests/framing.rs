use webserv::engine::{dispatch, keep_alive, ConnState, ConnectionEngine, Dispatch, Poll};
use webserv::frame::find_header_end;

#[test]
fn detector_needs_four_bytes() {
    assert_eq!(find_header_end(b""), None);
    assert_eq!(find_header_end(b"\r\n\r"), None);
    assert_eq!(find_header_end(b"GET"), None);
}

#[test]
fn detector_requires_the_terminator() {
    assert_eq!(find_header_end(b"GET / HTTP/1.1\r\n"), None);
    assert_eq!(find_header_end(b"GET / HTTP/1.1\r\n\r"), None);
    assert_eq!(find_header_end(b"no terminator at all"), None);
}

#[test]
fn detector_reports_length_including_terminator() {
    assert_eq!(find_header_end(b"\r\n\r\n"), Some(4));
    assert_eq!(find_header_end(b"ab\r\n\r\n"), Some(6));
    // Bytes after the terminator do not move the block end.
    assert_eq!(find_header_end(b"ab\r\n\r\nmore bytes"), Some(6));
    // The first terminator wins.
    assert_eq!(find_header_end(b"a\r\n\r\nb\r\n\r\n"), Some(5));
}

fn run_to_request(engine: &mut ConnectionEngine) -> (webserv::request::RequestHead, bytes::BytesMut) {
    match engine.poll() {
        Poll::Request(head, body) => (head, body),
        _ => panic!("expected a complete request"),
    }
}

#[test]
fn split_feeding_yields_the_same_request() {
    // Feeding B in two pieces (B[..k], B[k..]) must parse the same
    // head and body as feeding B whole, for every split point k.
    let whole: &[u8] = b"POST /up HTTP/1.1\r\nContent-Length: 5\r\n\r\nhelloGET";
    let mut reference = ConnectionEngine::new();
    reference.feed(whole);
    let (ref_head, ref_body) = run_to_request(&mut reference);
    let ref_left = reference.buffered();

    for k in 0..=whole.len() {
        let mut engine = ConnectionEngine::new();
        engine.feed(&whole[..k]);
        let first = engine.poll();
        let (head, body) = match first {
            Poll::Request(head, body) => {
                engine.feed(&whole[k..]);
                (head, body)
            }
            Poll::NeedMoreData => {
                engine.feed(&whole[k..]);
                run_to_request(&mut engine)
            }
            Poll::Malformed => panic!("split {} must not be malformed", k),
        };
        assert_eq!(head.method, ref_head.method, "split {}", k);
        assert_eq!(head.uri, ref_head.uri, "split {}", k);
        assert_eq!(head.version, ref_head.version, "split {}", k);
        assert_eq!(&body[..], &ref_body[..], "split {}", k);
        assert_eq!(engine.buffered(), ref_left, "split {}", k);
    }
}

#[test]
fn keep_alive_leaves_next_request_buffered() {
    // content-length 5 with a 5-byte body and keep-alive must leave
    // the engine ready to parse a second request from what is already
    // buffered, without another read.
    let mut engine = ConnectionEngine::new();
    engine.feed(b"POST / HTTP/1.1\r\nContent-Length: 5\r\nConnection: keep-alive\r\n\r\nhelloGET /next HTTP/1.1\r\n\r\n");
    let (head, body) = run_to_request(&mut engine);
    assert_eq!(head.method.as_slice(), b"POST");
    assert_eq!(&body[..], b"hello");
    assert!(keep_alive(&head));
    engine.finish_response(true);
    assert_eq!(engine.state(), ConnState::Idle);
    // No further feed: the second request is already there.
    let (head2, body2) = run_to_request(&mut engine);
    assert_eq!(head2.method.as_slice(), b"GET");
    assert_eq!(head2.uri.as_slice(), b"/next");
    assert_eq!(&body2[..], b"");
}

#[test]
fn connection_close_ends_after_one_response() {
    let mut engine = ConnectionEngine::new();
    engine.feed(b"GET / HTTP/1.1\r\nConnection: close\r\n\r\n");
    let (head, _body) = run_to_request(&mut engine);
    assert!(!keep_alive(&head));
    engine.finish_response(keep_alive(&head));
    assert_eq!(engine.state(), ConnState::Closed);
}

#[test]
fn absent_connection_header_closes_http_1_0() {
    let mut engine = ConnectionEngine::new();
    engine.feed(b"GET / HTTP/1.0\r\n\r\n");
    let (head, _body) = run_to_request(&mut engine);
    assert!(!keep_alive(&head));
    engine.finish_response(keep_alive(&head));
    assert_eq!(engine.state(), ConnState::Closed);
}

#[test]
fn absent_connection_header_keeps_http_1_1() {
    let mut engine = ConnectionEngine::new();
    engine.feed(b"GET / HTTP/1.1\r\n\r\n");
    let (head, _body) = run_to_request(&mut engine);
    assert!(keep_alive(&head));
}

#[test]
fn connection_header_close_is_case_insensitive() {
    let mut engine = ConnectionEngine::new();
    engine.feed(b"GET / HTTP/1.1\r\nConnection: Close\r\n\r\n");
    let (head, _body) = run_to_request(&mut engine);
    assert!(!keep_alive(&head));
}

#[test]
fn body_waits_until_declared_length_arrives() {
    let mut engine = ConnectionEngine::new();
    engine.feed(b"POST / HTTP/1.1\r\nContent-Length: 5\r\n\r\nhel");
    assert!(matches!(engine.poll(), Poll::NeedMoreData));
    assert_eq!(engine.state(), ConnState::AwaitingBody);
    engine.feed(b"lo");
    let (_head, body) = run_to_request(&mut engine);
    assert_eq!(&body[..], b"hello");
    assert_eq!(engine.buffered(), 0);
}

#[test]
fn malformed_header_block_closes_connection() {
    let mut engine = ConnectionEngine::new();
    engine.feed(b"\xff\xfe bad\r\n\r\n");
    assert!(matches!(engine.poll(), Poll::Malformed));
    assert_eq!(engine.state(), ConnState::Closing);
}

#[test]
fn clean_eof_closes_and_partial_eof_is_protocol_error() {
    let mut engine = ConnectionEngine::new();
    assert!(engine.on_eof());
    assert_eq!(engine.state(), ConnState::Closed);

    let mut engine = ConnectionEngine::new();
    engine.feed(b"GET / HT");
    assert!(!engine.on_eof());
    assert_eq!(engine.state(), ConnState::Closing);
}

#[test]
fn shutdown_while_awaiting_body_reaches_closing() {
    // The decision half of cooperative shutdown: a connection blocked
    // on body bytes moves to Closing on the signal and can then send
    // its close notice and be torn down.
    let mut engine = ConnectionEngine::new();
    engine.feed(b"POST / HTTP/1.1\r\nContent-Length: 10\r\n\r\nxx");
    assert!(matches!(engine.poll(), Poll::NeedMoreData));
    assert_eq!(engine.state(), ConnState::AwaitingBody);
    engine.on_shutdown();
    assert_eq!(engine.state(), ConnState::Closing);
    let notice = webserv::response::create_response(200, 0, false, b"text/html; charset=utf-8");
    let text = String::from_utf8(notice).unwrap();
    assert!(text.contains("Connection: close"));
    engine.mark_closed();
    assert_eq!(engine.state(), ConnState::Closed);
}

#[test]
fn oversized_content_length_is_treated_as_no_body() {
    let mut engine = ConnectionEngine::new();
    engine.feed(b"POST / HTTP/1.1\r\nContent-Length: 99999999999999999999999\r\n\r\n");
    let (head, body) = run_to_request(&mut engine);
    assert_eq!(head.content_length(), None);
    assert_eq!(&body[..], b"");
}

#[test]
fn dispatch_sends_payload_or_error_page() {
    match dispatch(Ok(b"index bytes".to_vec())) {
        Dispatch::SendPayload(code, body) => {
            assert_eq!(code, 200);
            assert_eq!(body.as_slice(), b"index bytes");
        }
        _ => panic!("a handler success is sent as the payload"),
    }
    match dispatch(Err(404)) {
        Dispatch::SendErrorPage(code, page) => {
            assert_eq!(code, 404);
            assert_eq!(page.as_slice(), b"404.html");
        }
        _ => panic!("a handler miss is sent as its error page"),
    }
    match dispatch(Err(999)) {
        Dispatch::SendErrorPage(code, page) => {
            assert_eq!(code, 999);
            assert_eq!(page.as_slice(), b"500.html");
        }
        _ => panic!("an unknown status falls back to the internal error page"),
    }
}
