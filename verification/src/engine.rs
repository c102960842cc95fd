//! The connection engine: one accepted connection's receive buffer
//! and lifecycle state.
//!
//! The caller owns the socket and the loop; the engine owns every
//! decision. Bytes read from the peer are handed in with [`ConnectionEngine::feed`];
//! [`ConnectionEngine::poll`] then either asks for more bytes, reports a malformed
//! request, or yields one complete request (head and body), consuming
//! exactly that request's bytes and keeping the remainder buffered
//! for the next request. End of stream, the keep-alive decision and
//! cooperative shutdown are separate entry points, so the surrounding
//! loop contains no protocol logic at all.

use vstd::prelude::*;

use crate::ascii_bytes;
use crate::buffer::{buf_advance, buf_bytes, buf_extend, buf_len, buf_slice, buf_split_to, buf_with_capacity};
use crate::frame;
use crate::request::{parse_head, spec_content_length, RequestHead, RequestHeadView};

verus! {

/// Lifecycle of one connection. `Responding` is the stretch between
/// a request being handed out and its response being finished;
/// `Idle` is a keep-alive connection between two exchanges.
#[derive(Clone, Copy, Debug, PartialEq, Eq, Structural)]
pub enum ConnState {
    AwaitingHeader,
    AwaitingBody,
    Responding,
    Idle,
    Closing,
    Closed,
}

/// Body bytes a parsed head calls for: its declared `content-length`
/// when that is readable and representable, otherwise zero.
pub open spec fn spec_body_need(h: RequestHeadView) -> nat {
    match spec_content_length(h) {
        Some(n) => if n <= usize::MAX {
            n
        } else {
            0
        },
        None => 0,
    }
}

/// What a buffer's contents yield: no complete header block yet, a
/// block whose body has not fully arrived, a malformed block, or one
/// whole request together with the bytes left over after it.
#[verifier::ext_equal]
pub enum Extraction {
    NeedHeader,
    NeedBody(RequestHeadView),
    Malformed,
    Complete(RequestHeadView, Seq<u8>, Seq<u8>),
}

/// The request, if any, framed by the front of `buf`.
pub open spec fn extract_request(buf: Seq<u8>) -> Extraction {
    match frame::header_end(buf) {
        None => Extraction::NeedHeader,
        Some(e) => match parse_head(buf.take(e)) {
            Err(_) => Extraction::Malformed,
            Ok(h) => {
                let need = spec_body_need(h);
                if buf.len() >= e + need {
                    Extraction::Complete(h, buf.subrange(e, e + need), buf.skip(e + need))
                } else {
                    Extraction::NeedBody(h)
                }
            },
        },
    }
}

/// Whether the connection stays open after a response to `h`: a
/// `connection` header other than `close` keeps it alive; without
/// the header, any version except `HTTP/1.0` keeps it alive.
pub open spec fn spec_keep_alive(h: RequestHeadView) -> bool {
    let key = ascii_bytes("connection"@);
    if h.headers.contains_key(key) {
        h.headers[key] != ascii_bytes("close"@)
    } else {
        h.version != ascii_bytes("HTTP/1.0"@)
    }
}

/// What one poll of the engine produced.
pub enum Poll {
    /// No complete request is buffered; read more bytes and poll
    /// again.
    NeedMoreData,
    /// The buffered header block is unparseable; the connection is
    /// closing.
    Malformed,
    /// One complete request: its head and exactly its body bytes.
    Request(RequestHead, bytes::BytesMut),
}

/// One connection's receive buffer and lifecycle state.
pub struct ConnectionEngine {
    buf: bytes::BytesMut,
    state: ConnState,
}

impl ConnectionEngine {
    /// The bytes currently buffered and not yet consumed.
    pub closed spec fn contents(&self) -> Seq<u8> {
        buf_bytes(self.buf)
    }

    /// The lifecycle state.
    pub closed spec fn state_spec(&self) -> ConnState {
        self.state
    }

    /// States in which the engine reads and frames requests.
    pub open spec fn live(&self) -> bool {
        self.state_spec() == ConnState::AwaitingHeader || self.state_spec()
            == ConnState::AwaitingBody || self.state_spec() == ConnState::Idle
    }

    /// A fresh engine: empty buffer, awaiting the first header.
    pub fn new() -> (r: ConnectionEngine)
        ensures
            r.contents() == Seq::<u8>::empty(),
            r.state_spec() == ConnState::AwaitingHeader,
    {
        ConnectionEngine { buf: buf_with_capacity(4096), state: ConnState::AwaitingHeader }
    }

    /// The lifecycle state, for the surrounding loop to branch on.
    pub fn state(&self) -> (r: ConnState)
        ensures
            r == self.state_spec(),
    {
        self.state
    }

    /// Number of bytes currently buffered.
    pub fn buffered(&self) -> (r: usize)
        ensures
            r == self.contents().len(),
    {
        buf_len(&self.buf)
    }

    /// Appends bytes read from the peer to the receive buffer.
    pub fn feed(&mut self, data: &[u8])
        requires
            old(self).contents().len() + data@.len() <= isize::MAX,
        ensures
            final(self).contents() == old(self).contents() + data@,
            final(self).state_spec() == old(self).state_spec(),
    {
        buf_extend(&mut self.buf, data);
    }

    /// Tries to frame one request out of the buffered bytes.
    ///
    /// Exactly mirrors [`extract_request`] on the buffer: when a
    /// whole request is buffered it is consumed, its head and body
    /// are returned and the leftover stays for the next request;
    /// while bytes are missing nothing is consumed; a malformed
    /// header block moves the connection to `Closing`.
    pub fn poll(&mut self) -> (r: Poll)
        requires
            old(self).live(),
        ensures
            match extract_request(old(self).contents()) {
                Extraction::NeedHeader => {
                    &&& r is NeedMoreData
                    &&& final(self).contents() == old(self).contents()
                    &&& final(self).state_spec() == ConnState::AwaitingHeader
                },
                Extraction::NeedBody(h) => {
                    &&& r is NeedMoreData
                    &&& final(self).contents() == old(self).contents()
                    &&& final(self).state_spec() == ConnState::AwaitingBody
                },
                Extraction::Malformed => {
                    &&& r is Malformed
                    &&& final(self).contents() == old(self).contents()
                    &&& final(self).state_spec() == ConnState::Closing
                },
                Extraction::Complete(h, body, rest) => {
                    &&& r matches Poll::Request(head, b) ==> head.wf() && head@ == h && buf_bytes(
                        b,
                    ) == body
                    &&& r is Request
                    &&& final(self).contents() == rest
                    &&& final(self).state_spec() == ConnState::Responding
                },
            },
    {
        let ghost c = buf_bytes(self.buf);
        let e_opt = {
            let slice = buf_slice(&self.buf);
            frame::find_header_end(slice)
        };
        let e = match e_opt {
            None => {
                self.state = ConnState::AwaitingHeader;
                return Poll::NeedMoreData;
            },
            Some(e) => e,
        };
        let parsed = {
            let slice = buf_slice(&self.buf);
            let block = vstd::slice::slice_subrange(slice, 0, e);
            proof {
                assert(block@ =~= c.take(e as int));
            }
            crate::request::parse_request_head(block)
        };
        let head = match parsed {
            Err(_) => {
                self.state = ConnState::Closing;
                return Poll::Malformed;
            },
            Ok(h) => h,
        };
        let need: usize = match head.content_length() {
            Some(n) => n,
            None => 0,
        };
        let total = buf_len(&self.buf);
        if total - e >= need {
            buf_advance(&mut self.buf, e);
            let body = buf_split_to(&mut self.buf, need);
            proof {
                assert(buf_bytes(body) =~= c.subrange(e as int, e + need));
                assert(buf_bytes(self.buf) =~= c.skip(e + need));
            }
            self.state = ConnState::Responding;
            Poll::Request(head, body)
        } else {
            self.state = ConnState::AwaitingBody;
            Poll::NeedMoreData
        }
    }

    /// Ends the current exchange after its response has been sent:
    /// keep-alive returns the connection to `Idle` with the leftover
    /// bytes still buffered; otherwise the connection is closed.
    pub fn finish_response(&mut self, keep_alive: bool)
        requires
            old(self).state_spec() == ConnState::Responding,
        ensures
            final(self).contents() == old(self).contents(),
            final(self).state_spec() == (if keep_alive {
                ConnState::Idle
            } else {
                ConnState::Closed
            }),
    {
        if keep_alive {
            self.state = ConnState::Idle;
        } else {
            self.state = ConnState::Closed;
        }
    }

    /// Records end of stream from the peer. A clean end — nothing
    /// left buffered — closes the connection; bytes of an incomplete
    /// request left behind are a protocol error and move it to
    /// `Closing`.
    pub fn on_eof(&mut self) -> (clean: bool)
        requires
            old(self).live(),
        ensures
            clean == (old(self).contents().len() == 0),
            final(self).contents() == old(self).contents(),
            final(self).state_spec() == (if clean {
                ConnState::Closed
            } else {
                ConnState::Closing
            }),
    {
        if buf_len(&self.buf) == 0 {
            self.state = ConnState::Closed;
            true
        } else {
            self.state = ConnState::Closing;
            false
        }
    }

    /// Records a cooperative shutdown request: from any state the
    /// connection moves to `Closing`.
    pub fn on_shutdown(&mut self)
        ensures
            final(self).contents() == old(self).contents(),
            final(self).state_spec() == ConnState::Closing,
    {
        self.state = ConnState::Closing;
    }

    /// Releases the connection: `Closing` ends in `Closed`.
    pub fn mark_closed(&mut self)
        ensures
            final(self).contents() == old(self).contents(),
            final(self).state_spec() == ConnState::Closed,
    {
        self.state = ConnState::Closed;
    }
}

/// Whether the connection stays alive after responding to `head`:
/// the `connection` header decides; in its absence an `HTTP/1.0`
/// version closes and anything else keeps alive.
pub fn keep_alive(head: &RequestHead) -> (r: bool)
    requires
        head.wf(),
    ensures
        r == spec_keep_alive(head@),
{
    proof {
        reveal_strlit("connection");
        reveal_strlit("close");
        reveal_strlit("HTTP/1.0");
    }
    let key = crate::scan::lit_bytes("connection");
    match head.headers.get(key.as_slice()) {
        Some(v) => {
            let close_tok = crate::scan::lit_bytes("close");
            !crate::scan::bytes_eq(v.as_slice(), close_tok.as_slice())
        },
        None => {
            let v10 = crate::scan::lit_bytes("HTTP/1.0");
            !crate::scan::bytes_eq(head.version.as_slice(), v10.as_slice())
        },
    }
}

/// What the dispatch step sends for one handler outcome: the
/// produced payload, or a static error page to be served in its
/// place.
pub enum Dispatch {
    /// Send this status with the handler's payload.
    SendPayload(u32, Vec<u8>),
    /// Send this status with the body read from this error page.
    SendErrorPage(u32, Vec<u8>),
}

/// Decides the response for a handler outcome: success is sent as
/// `200` with the produced payload; a handler-reported status is
/// sent as-is with its corresponding static error page.
pub fn dispatch(outcome: Result<Vec<u8>, u32>) -> (r: Dispatch)
    ensures
        match outcome {
            Ok(payload) => r matches Dispatch::SendPayload(code, b) && code == 200 && b@
                == payload@,
            Err(code) => r matches Dispatch::SendErrorPage(c, page) && c == code && page@
                == crate::response::error_page_bytes(code),
        },
{
    match outcome {
        Ok(payload) => Dispatch::SendPayload(200, payload),
        Err(code) => Dispatch::SendErrorPage(code, crate::response::error_page(code)),
    }
}

/// A `connection: close` header always ends the connection after
/// its response, and so does the header's absence on an HTTP/1.0
/// request; with the header present, any other value keeps the
/// connection alive.
pub proof fn lemma_close_terminates(h: RequestHeadView)
    ensures
        h.headers.contains_key(ascii_bytes("connection"@)) && h.headers[ascii_bytes("connection"@)]
            == ascii_bytes("close"@) ==> !spec_keep_alive(h),
        !h.headers.contains_key(ascii_bytes("connection"@)) && h.version == ascii_bytes("HTTP/1.0"@)
            ==> !spec_keep_alive(h),
        h.headers.contains_key(ascii_bytes("connection"@)) && h.headers[ascii_bytes("connection"@)]
            != ascii_bytes("close"@) ==> spec_keep_alive(h),
{
}

/// A whole request framed by a prefix stays the same request when
/// more bytes arrive: the appended bytes only extend the leftover.
pub proof fn lemma_extract_append(p: Seq<u8>, t: Seq<u8>)
    requires
        extract_request(p) is Complete,
    ensures
        ({
            let c = extract_request(p);
            extract_request(p + t) == Extraction::Complete(
                c->Complete_0,
                c->Complete_1,
                c->Complete_2 + t,
            )
        }),
{
    let e = frame::header_end(p)->Some_0;
    frame::lemma_header_end_append(p, t);
    frame::lemma_first_term_from_spec(p, 0);
    assert((p + t).take(e) =~= p.take(e));
    let h = parse_head(p.take(e))->Ok_0;
    let need = spec_body_need(h);
    assert(p.len() >= e + need);
    assert((p + t).subrange(e, e + need) =~= p.subrange(e, e + need));
    assert((p + t).skip(e + need) =~= p.skip(e + need) + t);
}

/// Feeding a byte stream in two pieces frames the same request as
/// feeding it whole, for every split point: a request completed by
/// the first piece survives the second unchanged, a malformed block
/// stays malformed, and a header block awaiting its body yields the
/// same head once the rest arrives. (Splitting can never change what
/// is parsed, because the engine's outcome is a function of the
/// accumulated bytes alone.)
pub proof fn lemma_split_feed(b: Seq<u8>, k: int)
    requires
        0 <= k <= b.len(),
    ensures
        extract_request(b.take(k)) matches Extraction::Complete(h, body, rest) ==> extract_request(
            b,
        ) == Extraction::Complete(h, body, rest + b.skip(k)),
        extract_request(b.take(k)) is Malformed ==> extract_request(b) is Malformed,
        extract_request(b.take(k)) matches Extraction::NeedBody(h) ==> {
            ||| extract_request(b) matches Extraction::Complete(h2, body, rest) && h2 == h
            ||| extract_request(b) == Extraction::NeedBody(h)
        },
{
    let p = b.take(k);
    let t = b.skip(k);
    assert(p + t =~= b);
    match extract_request(p) {
        Extraction::NeedHeader => {
        },
        Extraction::Complete(h, body, rest) => {
            lemma_extract_append(p, t);
        },
        Extraction::Malformed => {
            let e = frame::header_end(p)->Some_0;
            frame::lemma_first_term_from_spec(p, 0);
            frame::lemma_header_end_append(p, t);
            assert((p + t).take(e) =~= p.take(e));
        },
        Extraction::NeedBody(h) => {
            let e = frame::header_end(p)->Some_0;
            frame::lemma_first_term_from_spec(p, 0);
            frame::lemma_header_end_append(p, t);
            assert((p + t).take(e) =~= p.take(e));
        },
    }
}

} // verus!
