//! Parsing a complete header block into a structured request head,
//! and reading the body metadata out of it.
//!
//! The input is the byte range that the frame detector reported: one
//! header block including its CR LF CR LF terminator. The first line
//! splits on single spaces into method, target and version; a missing
//! token degrades to the literal sentinel `error` instead of failing.
//! Each later line splits once on its first `:`; name and value are
//! trimmed and ASCII-lowercased, a repeated name overwrites (last
//! write wins), and a line with no `:` is skipped. The one hard parse
//! error is a first line that is not well-formed UTF-8.

use vstd::prelude::*;

use crate::ascii_bytes;
use crate::headers::HeaderMap;
use crate::scan;
use crate::HttpError;

verus! {

/// Abstract value of a parsed request head.
#[verifier::ext_equal]
pub struct RequestHeadView {
    pub method: Seq<u8>,
    pub uri: Seq<u8>,
    pub version: Seq<u8>,
    pub headers: Map<Seq<u8>, Seq<u8>>,
}

/// The sentinel substituted for a missing request-line token.
pub open spec fn sentinel() -> Seq<u8> {
    ascii_bytes("error"@)
}

/// Method, target and version of a request line: the first three
/// fields under splitting on single spaces, missing ones replaced by
/// the sentinel.
pub open spec fn request_line_fields(l: Seq<u8>) -> (Seq<u8>, Seq<u8>, Seq<u8>) {
    match scan::find_byte_from(l, 32, 0) {
        None => (l, sentinel(), sentinel()),
        Some(p1) => {
            let m = l.take(p1);
            match scan::find_byte_from(l, 32, p1 + 1) {
                None => (m, l.skip(p1 + 1), sentinel()),
                Some(p2) => {
                    let u = l.subrange(p1 + 1, p2);
                    let v = match scan::find_byte_from(l, 32, p2 + 1) {
                        None => l.skip(p2 + 1),
                        Some(p3) => l.subrange(p2 + 1, p3),
                    };
                    (m, u, v)
                },
            }
        },
    }
}

/// A request line with no space at all parses to the whole line as
/// the method and the sentinel for target and version — a sentinel
/// substitution, never a failure.
pub proof fn lemma_no_fields_sentinel(l: Seq<u8>)
    requires
        scan::find_byte_from(l, 32, 0) is None,
    ensures
        request_line_fields(l) == (l, sentinel(), sentinel()),
{
}

/// A request line with a single space, at `p1`, parses to the text
/// around it as method and target and the sentinel as version.
pub proof fn lemma_two_fields_sentinel(l: Seq<u8>, p1: int)
    requires
        scan::find_byte_from(l, 32, 0) == Some(p1),
        scan::find_byte_from(l, 32, p1 + 1) is None,
    ensures
        request_line_fields(l) == (l.take(p1), l.skip(p1 + 1), sentinel()),
{
}

/// Folds one header line into the mapping: split at the first `:`,
/// trim and lowercase both sides, insert; without a `:` the line is
/// skipped.
pub open spec fn line_insert(acc: Map<Seq<u8>, Seq<u8>>, line: Seq<u8>) -> Map<Seq<u8>, Seq<u8>> {
    match scan::find_byte_from(line, 58, 0) {
        Some(c) => acc.insert(
            scan::lower_bytes(scan::trim_bytes(line.take(c))),
            scan::lower_bytes(scan::trim_bytes(line.skip(c + 1))),
        ),
        None => acc,
    }
}

/// Folds the header lines of `s` into `acc`, line by line, stopping
/// at an empty line or when no full line is left.
pub open spec fn header_lines_map(s: Seq<u8>, acc: Map<Seq<u8>, Seq<u8>>) -> Map<Seq<u8>, Seq<u8>>
    decreases s.len(),
{
    match scan::find_crlf_from(s, 0) {
        Some(e) => if 0 <= e && e + 2 <= s.len() {
            if e == 0 {
                acc
            } else {
                header_lines_map(s.skip(e + 2), line_insert(acc, s.take(e)))
            }
        } else {
            acc
        },
        None => acc,
    }
}

/// Meaning of a complete header block: the parsed head, or the one
/// hard error when the first line is not well-formed UTF-8.
pub open spec fn parse_head(s: Seq<u8>) -> Result<RequestHeadView, HttpError> {
    let fl_end = match scan::find_crlf_from(s, 0) {
        Some(i) => i,
        None => s.len() as int,
    };
    let fl = s.take(fl_end);
    if !scan::valid_utf8(fl) {
        Err(HttpError::MalformedInput)
    } else {
        let rest = if scan::find_crlf_from(s, 0) is Some {
            s.skip(fl_end + 2)
        } else {
            Seq::<u8>::empty()
        };
        Ok(
            RequestHeadView {
                method: request_line_fields(fl).0,
                uri: request_line_fields(fl).1,
                version: request_line_fields(fl).2,
                headers: header_lines_map(rest, Map::empty()),
            },
        )
    }
}

/// A parsed request head: method, target and protocol version as the
/// request line carried them, and the header mapping with lowercased
/// names and trimmed values.
pub struct RequestHead {
    pub method: Vec<u8>,
    pub uri: Vec<u8>,
    pub version: Vec<u8>,
    pub headers: HeaderMap,
}

impl View for RequestHead {
    type V = RequestHeadView;

    open spec fn view(&self) -> RequestHeadView {
        RequestHeadView {
            method: self.method@,
            uri: self.uri@,
            version: self.version@,
            headers: self.headers@,
        }
    }
}

impl RequestHead {
    /// Well-formed: the header mapping holds each name once.
    pub open spec fn wf(&self) -> bool {
        self.headers.wf()
    }

    /// Builds a head from its parts.
    pub fn new(method: Vec<u8>, uri: Vec<u8>, version: Vec<u8>, headers: HeaderMap) -> (r:
        RequestHead)
        requires
            headers.wf(),
        ensures
            r.wf(),
            r@ == (RequestHeadView {
                method: method@,
                uri: uri@,
                version: version@,
                headers: headers@,
            }),
    {
        RequestHead { method, uri, version, headers }
    }
}

/// Content classification of a request body, read from the
/// `content-type` header: a `multipart/...; boundary=...` value
/// carries its boundary token, any other value is an opaque plain
/// body, and without the header there is no classified body.
pub enum BodyKind {
    NoBody,
    PlainBody,
    MultipartBody(Vec<u8>),
}

/// The declared body length of a head: the value of its
/// `content-length` header read as a decimal number, `None` when the
/// header is absent or not a plain run of digits.
pub open spec fn spec_content_length(h: RequestHeadView) -> Option<nat> {
    let key = ascii_bytes("content-length"@);
    if h.headers.contains_key(key) {
        let v = h.headers[key];
        if v.len() > 0 && scan::all_digits(v) {
            Some(scan::dec_value(v))
        } else {
            None
        }
    } else {
        None
    }
}

/// Whether a `content-type` value declares a multipart body with a
/// boundary token.
pub open spec fn spec_is_multipart(v: Seq<u8>) -> bool {
    &&& v.len() >= 10
    &&& v.take(10) == ascii_bytes("multipart/"@)
    &&& scan::find_sub_from(v, ascii_bytes("boundary="@), 0) is Some
}

/// The boundary token of a multipart `content-type` value: what
/// follows the first `boundary=`.
pub open spec fn spec_boundary(v: Seq<u8>) -> Seq<u8> {
    match scan::find_sub_from(v, ascii_bytes("boundary="@), 0) {
        Some(i) => v.skip(i + 9),
        None => Seq::<u8>::empty(),
    }
}

impl RequestHead {
    /// Reads the `content-length` header as an unsigned decimal
    /// number; `None` means no body is expected. A value that is not
    /// a plain run of digits, or that does not fit in `usize`, is
    /// treated as absent, as the draft parsers did.
    pub fn content_length(&self) -> (r: Option<usize>)
        requires
            self.wf(),
        ensures
            match r {
                Some(len) => spec_content_length(self@) == Some(len as nat),
                None => spec_content_length(self@) is None || spec_content_length(self@)->Some_0
                    > usize::MAX,
            },
    {
        proof {
            reveal_strlit("content-length");
        }
        let key = scan::lit_bytes("content-length");
        match self.headers.get(key.as_slice()) {
            Some(v) => scan::parse_dec(v.as_slice()),
            None => None,
        }
    }

    /// Classifies the body from the `content-type` header: multipart
    /// with its boundary token, plain, or none when the header is
    /// absent.
    pub fn content_type(&self) -> (r: BodyKind)
        requires
            self.wf(),
        ensures
            ({
                let key = ascii_bytes("content-type"@);
                match r {
                    BodyKind::NoBody => !self@.headers.contains_key(key),
                    BodyKind::PlainBody => self@.headers.contains_key(key) && !spec_is_multipart(
                        self@.headers[key],
                    ),
                    BodyKind::MultipartBody(b) => self@.headers.contains_key(key)
                        && spec_is_multipart(self@.headers[key]) && b@ == spec_boundary(
                        self@.headers[key],
                    ),
                }
            }),
    {
        proof {
            reveal_strlit("content-type");
            reveal_strlit("multipart/");
            reveal_strlit("boundary=");
        }
        let key = scan::lit_bytes("content-type");
        let v = match self.headers.get(key.as_slice()) {
            Some(v) => v,
            None => {
                return BodyKind::NoBody;
            },
        };
        if v.len() < 10 {
            return BodyKind::PlainBody;
        }
        let prefix = scan::lit_bytes("multipart/");
        let head10 = vstd::slice::slice_subrange(v.as_slice(), 0, 10);
        proof {
            assert(head10@ =~= v@.take(10));
        }
        if !scan::bytes_eq(head10, prefix.as_slice()) {
            return BodyKind::PlainBody;
        }
        let marker = scan::lit_bytes("boundary=");
        match scan::find_sub(v.as_slice(), marker.as_slice(), 0) {
            Some(i) => {
                let b = vstd::slice::slice_to_vec(
                    vstd::slice::slice_subrange(v.as_slice(), i + 9, v.len()),
                );
                proof {
                    assert(b@ =~= v@.skip(i + 9));
                }
                BodyKind::MultipartBody(b)
            },
            None => BodyKind::PlainBody,
        }
    }
}

/// Parses one complete header block, terminator included, into a
/// request head.
///
/// Returns `Ok` for every block whose first line is well-formed
/// UTF-8, however irregular the rest; returns `MalformedInput`
/// exactly when it is not.
pub fn parse_request_head(block: &[u8]) -> (r: Result<RequestHead, HttpError>)
    ensures
        match r {
            Ok(h) => h.wf() && parse_head(block@) == Ok::<RequestHeadView, HttpError>(h@),
            Err(e) => parse_head(block@) == Err::<RequestHeadView, HttpError>(e),
        },
{
    let n = block.len();
    let fl_crlf = scan::find_crlf(block, 0);
    let fl_end: usize = match fl_crlf {
        Some(i) => i,
        None => n,
    };
    let fl = vstd::slice::slice_subrange(block, 0, fl_end);
    proof {
        assert(fl@ =~= block@.take(fl_end as int));
    }
    if !scan::check_utf8(fl) {
        return Err(HttpError::MalformedInput);
    }
    // Request line: split on single spaces, sentinel for what is
    // missing.
    proof {
        reveal_strlit("error");
    }
    let (method, uri, version) = match scan::find_byte(fl, 32, 0) {
        None => (vstd::slice::slice_to_vec(fl), scan::lit_bytes("error"), scan::lit_bytes("error")),
        Some(p1) => {
            let m = vstd::slice::slice_to_vec(vstd::slice::slice_subrange(fl, 0, p1));
            match scan::find_byte(fl, 32, p1 + 1) {
                None => (
                    m,
                    vstd::slice::slice_to_vec(vstd::slice::slice_subrange(fl, p1 + 1, fl.len())),
                    scan::lit_bytes("error"),
                ),
                Some(p2) => {
                    let u = vstd::slice::slice_to_vec(vstd::slice::slice_subrange(fl, p1 + 1, p2));
                    let v = match scan::find_byte(fl, 32, p2 + 1) {
                        None => vstd::slice::slice_to_vec(
                            vstd::slice::slice_subrange(fl, p2 + 1, fl.len()),
                        ),
                        Some(p3) => vstd::slice::slice_to_vec(
                            vstd::slice::slice_subrange(fl, p2 + 1, p3),
                        ),
                    };
                    (m, u, v)
                },
            }
        },
    };
    proof {
        let l = fl@;
        assert(l.skip(0) =~= l);
        match scan::find_byte_from(l, 32, 0) {
            None => {
                assert(method@ =~= request_line_fields(l).0);
            },
            Some(p1) => {
                assert(method@ =~= l.take(p1));
                match scan::find_byte_from(l, 32, p1 + 1) {
                    None => {
                        assert(uri@ =~= l.skip(p1 + 1));
                    },
                    Some(p2) => {
                        assert(uri@ =~= l.subrange(p1 + 1, p2));
                        match scan::find_byte_from(l, 32, p2 + 1) {
                            None => {
                                assert(version@ =~= l.skip(p2 + 1));
                            },
                            Some(p3) => {
                                assert(version@ =~= l.subrange(p2 + 1, p3));
                            },
                        }
                    },
                }
            },
        }
    }
    // Header lines, last write wins.
    let mut headers = HeaderMap::new();
    let ghost rest0: Seq<u8> = if fl_crlf is Some {
        block@.skip(fl_end + 2)
    } else {
        Seq::<u8>::empty()
    };
    let mut pos: usize = match fl_crlf {
        Some(_) => fl_end + 2,
        None => n,
    };
    proof {
        if fl_crlf is None {
            assert(block@.skip(pos as int) =~= Seq::<u8>::empty());
        }
    }
    let ghost target: Map<Seq<u8>, Seq<u8>> = header_lines_map(rest0, Map::empty());
    proof {
        if fl_crlf is Some {
            assert(rest0 == block@.skip(pos as int));
        } else {
            assert(header_lines_map(block@.skip(pos as int), headers@) == target);
        }
    }
    loop
        invariant
            pos <= n,
            n == block@.len(),
            headers.wf(),
            header_lines_map(block@.skip(pos as int), headers@) == target,
        ensures
            headers.wf(),
            headers@ == target,
        decreases n - pos,
    {
        let rest = vstd::slice::slice_subrange(block, pos, n);
        let ghost rs = block@.skip(pos as int);
        proof {
            assert(rest@ =~= rs);
        }
        match scan::find_crlf(rest, 0) {
            None => {
                proof {
                    assert(header_lines_map(rs, headers@) == headers@);
                }
                break ;
            },
            Some(e) => {
                if e == 0 {
                    proof {
                        assert(header_lines_map(rs, headers@) == headers@);
                    }
                    break ;
                }
                let line = vstd::slice::slice_subrange(rest, 0, e);
                proof {
                    assert(line@ =~= rs.take(e as int));
                }
                match scan::find_byte(line, 58, 0) {
                    Some(c) => {
                        let key_raw = vstd::slice::slice_subrange(line, 0, c);
                        let val_raw = vstd::slice::slice_subrange(line, c + 1, line.len());
                        proof {
                            assert(key_raw@ =~= line@.take(c as int));
                            assert(val_raw@ =~= line@.skip(c + 1));
                        }
                        let key = scan::to_lower(scan::trim(key_raw).as_slice());
                        let value = scan::to_lower(scan::trim(val_raw).as_slice());
                        headers.insert(key, value);
                    },
                    None => {},
                }
                proof {
                    assert(rs.skip(e + 2) =~= block@.skip(pos + e + 2));
                }
                pos = pos + e + 2;
            },
        }
    }
    let head = RequestHead { method, uri, version, headers };
    proof {
        let ph = parse_head(block@);
        assert(ph is Ok);
        assert(head@ =~= ph->Ok_0);
    }
    Ok(head)
}

} // verus!
