//! A lighter one-shot header parser over an already complete block
//! of text, kept beside the incremental engine: it splits the block
//! into lines, reads the request line into a small keyed mapping and
//! folds the header lines into another.
//!
//! Lines end at a line feed, with a carriage return before it
//! shed; the first empty line ends the headers, as the blank line
//! before a body does. The request line maps the keys
//! `method`, `path` and `protocol` to its first three
//! space-separated fields, the literal `error` standing in for a
//! missing field. Header lines split once at the first `:`, both
//! sides trimmed and ASCII-lowercased, a repeated name overwritten.

use vstd::prelude::*;

use crate::ascii_bytes;
use crate::headers::HeaderMap;
use crate::scan;

verus! {

/// The lines of `s`: split at each line feed, one trailing carriage
/// return shed per line.
pub open spec fn lines_of(s: Seq<u8>) -> Seq<Seq<u8>>
    decreases s.len(),
{
    match scan::find_byte_from(s, 10, 0) {
        Some(i) => if 0 <= i && i < s.len() {
            seq![shed_cr(s.take(i))] + lines_of(s.skip(i + 1))
        } else {
            seq![shed_cr(s)]
        },
        None => seq![shed_cr(s)],
    }
}

/// Sheds one trailing carriage return.
pub open spec fn shed_cr(l: Seq<u8>) -> Seq<u8> {
    if l.len() > 0 && l.last() == 13 {
        l.drop_last()
    } else {
        l
    }
}

/// The request-line mapping: keys `method`, `path` and `protocol`
/// carry the line's first three space-separated fields, with the
/// sentinel `error` for a missing field.
pub open spec fn request_line_map(l: Seq<u8>) -> Map<Seq<u8>, Seq<u8>> {
    let f = crate::request::request_line_fields(l);
    Map::empty().insert(ascii_bytes("method"@), f.0).insert(ascii_bytes("path"@), f.1).insert(
        ascii_bytes("protocol"@),
        f.2,
    )
}

/// Folds header lines into a mapping, stopping at the first empty
/// line: each line up to there splits once at its first `:` with
/// both sides trimmed and lowercased, and a line with no `:` is
/// skipped.
pub open spec fn packet_headers(ls: Seq<Seq<u8>>, acc: Map<Seq<u8>, Seq<u8>>) -> Map<
    Seq<u8>,
    Seq<u8>,
>
    decreases ls.len(),
{
    if ls.len() == 0 || ls[0].len() == 0 {
        acc
    } else {
        packet_headers(ls.drop_first(), crate::request::line_insert(acc, ls[0]))
    }
}

/// What parsing a whole packet yields: the request-line mapping of
/// its first line and the header mapping of the rest.
pub open spec fn parse_header_spec(s: Seq<u8>) -> (Map<Seq<u8>, Seq<u8>>, Map<Seq<u8>, Seq<u8>>) {
    let ls = lines_of(s);
    (request_line_map(ls[0]), packet_headers(ls.drop_first(), Map::empty()))
}

/// A parsed packet: request-line fields and headers as keyed
/// mappings, and the body bytes (empty at construction).
pub struct HttpPacket {
    pub request_line: HeaderMap,
    pub headers: HeaderMap,
    pub body: Vec<u8>,
}

impl HttpPacket {
    /// Well-formed: both mappings hold each key once.
    pub open spec fn wf(&self) -> bool {
        self.request_line.wf() && self.headers.wf()
    }

    /// Parses a whole packet.
    pub fn new(packet: &[u8]) -> (r: HttpPacket)
        ensures
            r.wf(),
            r.request_line@ == parse_header_spec(packet@).0,
            r.headers@ == parse_header_spec(packet@).1,
            r.body@ == Seq::<u8>::empty(),
    {
        let (request_line, headers) = parse_header(packet);
        HttpPacket { request_line, headers, body: Vec::new() }
    }
}

/// The lines of `s`, materialized.
fn split_lines(s: &[u8]) -> (r: Vec<Vec<u8>>)
    ensures
        r@.map_values(|v: Vec<u8>| v@) == lines_of(s@),
        r@.len() >= 1,
{
    let mut out: Vec<Vec<u8>> = Vec::new();
    let n = s.len();
    let mut pos: usize = 0;
    proof {
        assert(s@.skip(0) =~= s@);
        assert(out@.map_values(|v: Vec<u8>| v@) =~= Seq::<Seq<u8>>::empty());
    }
    loop
        invariant_except_break
            lines_of(s@) == out@.map_values(|v: Vec<u8>| v@) + lines_of(s@.skip(pos as int)),
        invariant
            pos <= n,
            n == s@.len(),
        ensures
            out@.map_values(|v: Vec<u8>| v@) == lines_of(s@),
            out@.len() >= 1,
        decreases n - pos,
    {
        let rest = vstd::slice::slice_subrange(s, pos, n);
        let ghost rs = s@.skip(pos as int);
        proof {
            assert(rest@ =~= rs);
        }
        let ghost pre = out@.map_values(|v: Vec<u8>| v@);
        match scan::find_byte(rest, 10, 0) {
            None => {
                out.push(strip_cr(rest));
                proof {
                    assert(out@.map_values(|v: Vec<u8>| v@) =~= pre + seq![shed_cr(rs)]);
                    assert(lines_of(rs) == seq![shed_cr(rs)]);
                }
                break ;
            },
            Some(i) => {
                let line = vstd::slice::slice_subrange(rest, 0, i);
                proof {
                    assert(line@ =~= rs.take(i as int));
                }
                out.push(strip_cr(line));
                proof {
                    assert(lines_of(rs) == seq![shed_cr(rs.take(i as int))] + lines_of(
                        rs.skip(i + 1),
                    ));
                    assert(rs.skip(i + 1) =~= s@.skip(pos + i + 1));
                    assert(out@.map_values(|v: Vec<u8>| v@) =~= pre + seq![
                        shed_cr(rs.take(i as int)),
                    ]);
                    assert((pre + seq![shed_cr(rs.take(i as int))]) + lines_of(
                        s@.skip(pos + i + 1),
                    ) =~= pre + (seq![shed_cr(rs.take(i as int))] + lines_of(rs.skip(i + 1))));
                }
                pos = pos + i + 1;
            },
        }
    }
    out
}

/// Copy of a line with one trailing carriage return shed.
fn strip_cr(l: &[u8]) -> (r: Vec<u8>)
    ensures
        r@ == shed_cr(l@),
{
    let n = l.len();
    if n > 0 && l[n - 1] == 13 {
        let r = vstd::slice::slice_to_vec(vstd::slice::slice_subrange(l, 0, n - 1));
        proof {
            assert(r@ =~= l@.drop_last());
        }
        r
    } else {
        vstd::slice::slice_to_vec(l)
    }
}

/// The request-line mapping of one line: `method`, `path` and
/// `protocol`, the sentinel `error` standing in for missing fields.
pub fn get_request_line(line: &[u8]) -> (r: HeaderMap)
    ensures
        r.wf(),
        r@ == request_line_map(line@),
{
    proof {
        reveal_strlit("method");
        reveal_strlit("path");
        reveal_strlit("protocol");
        reveal_strlit("error");
    }
    let l = line;
    let n = l.len();
    let (method, path, protocol) = match scan::find_byte(l, 32, 0) {
        None => (vstd::slice::slice_to_vec(l), scan::lit_bytes("error"), scan::lit_bytes("error")),
        Some(p1) => {
            let m = vstd::slice::slice_to_vec(vstd::slice::slice_subrange(l, 0, p1));
            match scan::find_byte(l, 32, p1 + 1) {
                None => (
                    m,
                    vstd::slice::slice_to_vec(vstd::slice::slice_subrange(l, p1 + 1, n)),
                    scan::lit_bytes("error"),
                ),
                Some(p2) => {
                    let u = vstd::slice::slice_to_vec(vstd::slice::slice_subrange(l, p1 + 1, p2));
                    let v = match scan::find_byte(l, 32, p2 + 1) {
                        None => vstd::slice::slice_to_vec(
                            vstd::slice::slice_subrange(l, p2 + 1, n),
                        ),
                        Some(p3) => vstd::slice::slice_to_vec(
                            vstd::slice::slice_subrange(l, p2 + 1, p3),
                        ),
                    };
                    (m, u, v)
                },
            }
        },
    };
    proof {
        let lv = l@;
        let f = crate::request::request_line_fields(lv);
        match scan::find_byte_from(lv, 32, 0) {
            None => {
                assert(method@ =~= f.0);
            },
            Some(p1) => {
                assert(method@ =~= lv.take(p1));
                match scan::find_byte_from(lv, 32, p1 + 1) {
                    None => {
                        assert(path@ =~= lv.skip(p1 + 1));
                    },
                    Some(p2) => {
                        assert(path@ =~= lv.subrange(p1 + 1, p2));
                        match scan::find_byte_from(lv, 32, p2 + 1) {
                            None => {
                                assert(protocol@ =~= lv.skip(p2 + 1));
                            },
                            Some(p3) => {
                                assert(protocol@ =~= lv.subrange(p2 + 1, p3));
                            },
                        }
                    },
                }
            },
        }
    }
    let mut r = HeaderMap::new();
    r.insert(scan::lit_bytes("method"), method);
    r.insert(scan::lit_bytes("path"), path);
    r.insert(scan::lit_bytes("protocol"), protocol);
    r
}

/// Parses a whole packet into its request-line mapping and its
/// header mapping.
pub fn parse_header(packet: &[u8]) -> (r: (HeaderMap, HeaderMap))
    ensures
        r.0.wf(),
        r.1.wf(),
        r.0@ == parse_header_spec(packet@).0,
        r.1@ == parse_header_spec(packet@).1,
{
    let lines = split_lines(packet);
    let ghost lv = lines@.map_values(|v: Vec<u8>| v@);
    let request_line = get_request_line(lines[0].as_slice());
    let mut headers = HeaderMap::new();
    let ghost rest = lv.drop_first();
    let ghost target: Map<Seq<u8>, Seq<u8>> = packet_headers(rest, Map::empty());
    let mut j: usize = 1;
    proof {
        assert(rest.skip(0) =~= lv.skip(1));
        assert(lv.skip(j as int) == rest.skip(0));
        assert(rest.skip(0) =~= rest);
    }
    loop
        invariant_except_break
            1 <= j <= lines@.len(),
            lv == lines@.map_values(|v: Vec<u8>| v@),
            headers.wf(),
            target == packet_headers(lv.skip(j as int), headers@),
        ensures
            headers.wf(),
            headers@ == target,
        decreases lines@.len() - j,
    {
        if j >= lines.len() {
            proof {
                assert(lv.skip(j as int) =~= Seq::<Seq<u8>>::empty());
            }
            break ;
        }
        let line = &lines[j];
        proof {
            assert(lv.skip(j as int)[0] == line@);
            assert(lv.skip(j as int).drop_first() =~= lv.skip(j + 1));
        }
        if line.len() == 0 {
            // The blank line before any body ends the headers.
            break ;
        }
        let m = line.len();
        match scan::find_byte(line.as_slice(), 58, 0) {
            Some(c) => {
                let key_raw = vstd::slice::slice_subrange(line.as_slice(), 0, c);
                let val_raw = vstd::slice::slice_subrange(line.as_slice(), c + 1, m);
                proof {
                    assert(key_raw@ =~= line@.take(c as int));
                    assert(val_raw@ =~= line@.skip(c + 1));
                }
                let key = scan::to_lower(scan::trim(key_raw).as_slice());
                let value = scan::to_lower(scan::trim(val_raw).as_slice());
                headers.insert(key, value);
            },
            None => {},
        }
        j += 1;
    }
    (request_line, headers)
}

} // verus!
