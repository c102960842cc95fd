//! Multipart body decomposition: splitting a fully buffered body on
//! a boundary token into ordered parts with per-part disposition
//! attributes, optional content type and payload.
//!
//! The body splits on the literal boundary token. What precedes the
//! first boundary is preamble and is dropped; a final split equal to
//! the closing delimiter `--` CR LF is dropped too. Each remaining
//! split sheds the CR LF that framed it, then divides once at the
//! blank-line separator into a disposition block and a remainder; a
//! split without that separator is the one decode error. The
//! disposition block splits on `;` and then once on `=` into
//! attributes; a remainder that itself begins with a
//! `content-type:` line gives up that line, and the true payload is
//! what follows the next blank-line separator.

use vstd::prelude::*;

use crate::ascii_bytes;
use crate::headers::HeaderMap;
use crate::scan;
use crate::HttpError;

verus! {

/// The four-byte blank-line separator CR LF CR LF.
pub open spec fn blank_sep() -> Seq<u8> {
    seq![13u8, 10u8, 13u8, 10u8]
}

/// The two-byte line break CR LF.
pub open spec fn line_break() -> Seq<u8> {
    seq![13u8, 10u8]
}

/// Splits `s` on non-overlapping occurrences of `tok`, leftmost
/// first. An absent or empty token leaves `s` whole.
pub open spec fn split_on(s: Seq<u8>, tok: Seq<u8>) -> Seq<Seq<u8>>
    decreases s.len(),
{
    if tok.len() == 0 {
        seq![s]
    } else {
        match scan::find_sub_from(s, tok, 0) {
            Some(i) => if 0 <= i && i + tok.len() <= s.len() {
                seq![s.take(i)] + split_on(s.skip(i + tok.len()), tok)
            } else {
                seq![s]
            },
            None => seq![s],
        }
    }
}

/// One split of `s` at the first occurrence of `tok`: the part
/// before and the part after, or nothing when `tok` does not occur.
pub open spec fn split_once(s: Seq<u8>, tok: Seq<u8>) -> Option<(Seq<u8>, Seq<u8>)> {
    match scan::find_sub_from(s, tok, 0) {
        Some(i) => Some((s.take(i), s.skip(i + tok.len()))),
        None => None,
    }
}

/// Sheds the CR LF pairs that frame a split: one leading and one
/// trailing.
pub open spec fn shed_breaks(s: Seq<u8>) -> Seq<u8> {
    let a = if s.len() >= 2 && s.take(2) == line_break() {
        s.skip(2)
    } else {
        s
    };
    if a.len() >= 2 && a.skip(a.len() - 2) == line_break() {
        a.take(a.len() - 2)
    } else {
        a
    }
}

/// Folds one `;`-separated segment into the attribute mapping:
/// split once at `=`, trim the name; a segment without `=` is
/// skipped.
pub open spec fn attr_insert(acc: Map<Seq<u8>, Seq<u8>>, seg: Seq<u8>) -> Map<Seq<u8>, Seq<u8>> {
    match scan::find_byte_from(seg, 61, 0) {
        Some(p) => acc.insert(scan::trim_bytes(seg.take(p)), seg.skip(p + 1)),
        None => acc,
    }
}

/// Folds `;`-separated segments into the attribute mapping in order.
pub open spec fn attrs_from(segs: Seq<Seq<u8>>, acc: Map<Seq<u8>, Seq<u8>>) -> Map<Seq<u8>, Seq<u8>>
    decreases segs.len(),
{
    if segs.len() == 0 {
        acc
    } else {
        attrs_from(segs.drop_first(), attr_insert(acc, segs[0]))
    }
}

/// The attribute mapping of a disposition block.
pub open spec fn disposition_map(block: Seq<u8>) -> Map<Seq<u8>, Seq<u8>> {
    attrs_from(split_on(block, ascii_bytes(";"@)), Map::empty())
}

/// Abstract value of one decoded part.
#[verifier::ext_equal]
pub struct PartView {
    pub content_disposition: Map<Seq<u8>, Seq<u8>>,
    pub content_type: Option<Seq<u8>>,
    pub data: Seq<u8>,
}

/// Meaning of one boundary split: shed the framing line breaks,
/// divide at the blank-line separator into disposition block and
/// remainder — a split without the separator is the decode error —
/// then take a leading `content-type:` line off the remainder when
/// one is there and a further blank-line separator follows it.
pub open spec fn parse_part(seg: Seq<u8>) -> Result<PartView, HttpError> {
    let c = shed_breaks(seg);
    match split_once(c, blank_sep()) {
        None => Err(HttpError::DecodeFailure),
        Some((block, rem)) => {
            let disp = disposition_map(block);
            if rem.len() >= 13 && scan::lower_bytes(rem.take(13)) == ascii_bytes("content-type:"@)
                && scan::find_sub_from(rem, blank_sep(), 13) is Some {
                let j = scan::find_sub_from(rem, blank_sep(), 13)->Some_0;
                Ok(
                    PartView {
                        content_disposition: disp,
                        content_type: Some(scan::trim_bytes(rem.subrange(13, j))),
                        data: rem.skip(j + 4),
                    },
                )
            } else {
                Ok(PartView { content_disposition: disp, content_type: None, data: rem })
            }
        },
    }
}

/// Parses every split in order; the first failing split decides.
pub open spec fn parts_of(segs: Seq<Seq<u8>>) -> Result<Seq<PartView>, HttpError>
    decreases segs.len(),
{
    if segs.len() == 0 {
        Ok(Seq::<PartView>::empty())
    } else {
        match parse_part(segs[0]) {
            Err(e) => Err(e),
            Ok(p) => match parts_of(segs.drop_first()) {
                Err(e) => Err(e),
                Ok(rest) => Ok(seq![p] + rest),
            },
        }
    }
}

/// The boundary splits of a body that hold parts: everything before
/// the first boundary is preamble and dropped, and a final split
/// equal to the closing delimiter `--` CR LF is dropped.
pub open spec fn part_segments(body: Seq<u8>, boundary: Seq<u8>) -> Seq<Seq<u8>> {
    let segs = split_on(body, boundary).drop_first();
    if segs.len() > 0 && segs.last() == ascii_bytes("--"@) + line_break() {
        segs.drop_last()
    } else {
        segs
    }
}

/// Meaning of decoding `body` against `boundary`.
pub open spec fn decode_spec(body: Seq<u8>, boundary: Seq<u8>) -> Result<Seq<PartView>, HttpError> {
    parts_of(part_segments(body, boundary))
}

/// One decoded part: disposition attributes, optional content type,
/// payload bytes.
pub struct Part {
    pub content_disposition: HeaderMap,
    pub content_type: Option<Vec<u8>>,
    pub data: Vec<u8>,
}

impl View for Part {
    type V = PartView;

    open spec fn view(&self) -> PartView {
        PartView {
            content_disposition: self.content_disposition@,
            content_type: match self.content_type {
                Some(v) => Some(v@),
                None => None,
            },
            data: self.data@,
        }
    }
}

impl Part {
    /// Well-formed: the attribute mapping holds each name once.
    pub open spec fn wf(&self) -> bool {
        self.content_disposition.wf()
    }
}

/// An ordered multipart message, built once from a fully buffered
/// body and a boundary token.
pub struct MultiPart {
    pub parts: Vec<Part>,
}

impl View for MultiPart {
    type V = Seq<PartView>;

    open spec fn view(&self) -> Seq<PartView> {
        self.parts@.map_values(|p: Part| p@)
    }
}

impl MultiPart {
    /// Well-formed: every part is.
    pub open spec fn wf(&self) -> bool {
        forall|i: int| 0 <= i < self.parts@.len() ==> (#[trigger] self.parts@[i]).wf()
    }

    /// Decodes a fully buffered body against a boundary token.
    pub fn new(body: bytes::BytesMut, boundary: &[u8]) -> (r: Result<MultiPart, HttpError>)
        ensures
            match r {
                Ok(m) => m.wf() && decode_spec(crate::buffer::buf_bytes(body), boundary@) == Ok::<
                    Seq<PartView>,
                    HttpError,
                >(m@),
                Err(e) => decode_spec(crate::buffer::buf_bytes(body), boundary@) == Err::<
                    Seq<PartView>,
                    HttpError,
                >(e),
            },
    {
        let data = crate::buffer::buf_slice(&body);
        match get_parts(data, boundary) {
            Ok(parts) => {
                let m = MultiPart { parts };
                proof {
                    assert(m@ =~= decode_spec(crate::buffer::buf_bytes(body), boundary@)->Ok_0);
                }
                Ok(m)
            },
            Err(e) => Err(e),
        }
    }
}

/// Splits `s` on non-overlapping occurrences of `tok`, leftmost
/// first.
pub fn split_bytes(s: &[u8], tok: &[u8]) -> (r: Vec<Vec<u8>>)
    ensures
        r@.map_values(|v: Vec<u8>| v@) == split_on(s@, tok@),
{
    let mut out: Vec<Vec<u8>> = Vec::new();
    if tok.len() == 0 {
        out.push(vstd::slice::slice_to_vec(s));
        proof {
            assert(out@.map_values(|v: Vec<u8>| v@) =~= split_on(s@, tok@));
        }
        return out;
    }
    let n = s.len();
    let mut pos: usize = 0;
    proof {
        assert(s@.skip(0) =~= s@);
        assert(out@.map_values(|v: Vec<u8>| v@) =~= Seq::<Seq<u8>>::empty());
    }
    loop
        invariant_except_break
            split_on(s@, tok@) == out@.map_values(|v: Vec<u8>| v@) + split_on(
                s@.skip(pos as int),
                tok@,
            ),
        invariant
            pos <= n,
            n == s@.len(),
            tok@.len() > 0,
        ensures
            out@.map_values(|v: Vec<u8>| v@) == split_on(s@, tok@),
        decreases n - pos,
    {
        let rest = vstd::slice::slice_subrange(s, pos, n);
        let ghost rs = s@.skip(pos as int);
        proof {
            assert(rest@ =~= rs);
        }
        let ghost pre = out@.map_values(|v: Vec<u8>| v@);
        match scan::find_sub(rest, tok, 0) {
            None => {
                out.push(vstd::slice::slice_to_vec(rest));
                proof {
                    assert(out@.map_values(|v: Vec<u8>| v@) =~= pre + seq![rs]);
                    assert(split_on(rs, tok@) == seq![rs]);
                }
                break ;
            },
            Some(i) => {
                let piece = vstd::slice::slice_subrange(rest, 0, i);
                out.push(vstd::slice::slice_to_vec(piece));
                proof {
                    assert(piece@ =~= rs.take(i as int));
                    assert(split_on(rs, tok@) == seq![rs.take(i as int)] + split_on(
                        rs.skip(i + tok@.len()),
                        tok@,
                    ));
                    assert(rs.skip(i + tok@.len()) =~= s@.skip(pos + i + tok@.len()));
                    assert(out@.map_values(|v: Vec<u8>| v@) =~= pre + seq![rs.take(i as int)]);
                    assert((pre + seq![rs.take(i as int)]) + split_on(
                        s@.skip(pos + i + tok@.len()),
                        tok@,
                    ) =~= pre + (seq![rs.take(i as int)] + split_on(rs.skip(i + tok@.len()), tok@)));
                }
                pos = pos + i + tok.len();
            },
        }
    }
    out
}

/// The attribute mapping of a disposition block: segments split on
/// `;`, each divided once at `=`, names trimmed; a repeated name
/// takes the later value.
pub fn get_content_disposition(block: &[u8]) -> (r: HeaderMap)
    ensures
        r.wf(),
        r@ == disposition_map(block@),
{
    proof {
        reveal_strlit(";");
    }
    let semi = scan::lit_bytes(";");
    let segs = split_bytes(block, semi.as_slice());
    let ghost sv = segs@.map_values(|v: Vec<u8>| v@);
    let mut acc = HeaderMap::new();
    let mut j: usize = 0;
    proof {
        assert(sv.skip(0) =~= sv);
    }
    while j < segs.len()
        invariant
            j <= segs@.len(),
            sv == segs@.map_values(|v: Vec<u8>| v@),
            acc.wf(),
            disposition_map(block@) == attrs_from(sv.skip(j as int), acc@),
        decreases segs@.len() - j,
    {
        let seg = &segs[j];
        proof {
            assert(sv.skip(j as int)[0] == seg@);
            assert(sv.skip(j as int).drop_first() =~= sv.skip(j + 1));
        }
        let m = seg.len();
        match scan::find_byte(seg.as_slice(), 61, 0) {
            Some(p) => {
                let name_raw = vstd::slice::slice_subrange(seg.as_slice(), 0, p);
                let value = vstd::slice::slice_to_vec(
                    vstd::slice::slice_subrange(seg.as_slice(), p + 1, m),
                );
                proof {
                    assert(name_raw@ =~= seg@.take(p as int));
                    assert(value@ =~= seg@.skip(p + 1));
                }
                let name = scan::trim(name_raw);
                acc.insert(name, value);
            },
            None => {},
        }
        j += 1;
    }
    proof {
        assert(sv.skip(j as int) =~= Seq::<Seq<u8>>::empty());
    }
    acc
}

/// Divides stripped part content at the blank-line separator into
/// attributes, optional content type and payload. Content without
/// the separator lacks its disposition block: the decode error.
pub fn build_attributes(content: &[u8]) -> (r: Result<
    (HeaderMap, Option<Vec<u8>>, Vec<u8>),
    HttpError,
>)
    ensures
        ({
            let c = content@;
            match split_once(c, blank_sep()) {
                None => r matches Err(e) && e == HttpError::DecodeFailure,
                Some((block, rem)) => r matches Ok((disp, ct, data)) && disp.wf() && disp@
                    == disposition_map(block) && ({
                    if rem.len() >= 13 && scan::lower_bytes(rem.take(13)) == ascii_bytes(
                        "content-type:"@,
                    ) && scan::find_sub_from(rem, blank_sep(), 13) is Some {
                        let j = scan::find_sub_from(rem, blank_sep(), 13)->Some_0;
                        &&& ct matches Some(v) && v@ == scan::trim_bytes(rem.subrange(13, j))
                        &&& data@ == rem.skip(j + 4)
                    } else {
                        ct is None && data@ == rem
                    }
                }),
            }
        }),
{
    proof {
        reveal_strlit("\r\n\r\n");
        reveal_strlit("content-type:");
    }
    let sep = scan::lit_bytes("\r\n\r\n");
    proof {
        assert(sep@ =~= blank_sep());
    }
    let n = content.len();
    let i = match scan::find_sub(content, sep.as_slice(), 0) {
        None => {
            return Err(HttpError::DecodeFailure);
        },
        Some(i) => i,
    };
    let block = vstd::slice::slice_subrange(content, 0, i);
    let rem = vstd::slice::slice_subrange(content, i + 4, n);
    proof {
        assert(block@ =~= content@.take(i as int));
        assert(rem@ =~= content@.skip(i + 4));
    }
    let disp = get_content_disposition(block);
    let ct_prefix = scan::lit_bytes("content-type:");
    if rem.len() >= 13 {
        let head13 = scan::to_lower(vstd::slice::slice_subrange(rem, 0, 13));
        proof {
            assert(head13@ =~= scan::lower_bytes(rem@.take(13)));
        }
        if scan::bytes_eq(head13.as_slice(), ct_prefix.as_slice()) {
            match scan::find_sub(rem, sep.as_slice(), 13) {
                Some(j) => {
                    let ct_raw = vstd::slice::slice_subrange(rem, 13, j);
                    let data = vstd::slice::slice_to_vec(
                        vstd::slice::slice_subrange(rem, j + 4, rem.len()),
                    );
                    proof {
                        assert(ct_raw@ =~= rem@.subrange(13, j as int));
                        assert(data@ =~= rem@.skip(j + 4));
                    }
                    let ct = scan::trim(ct_raw);
                    return Ok((disp, Some(ct), data));
                },
                None => {
                    return Ok((disp, None, vstd::slice::slice_to_vec(rem)));
                },
            }
        }
    }
    Ok((disp, None, vstd::slice::slice_to_vec(rem)))
}

impl Part {
    /// Parses one boundary split into a part.
    pub fn new(segment: &[u8]) -> (r: Result<Part, HttpError>)
        ensures
            match r {
                Ok(p) => p.wf() && parse_part(segment@) == Ok::<PartView, HttpError>(p@),
                Err(e) => parse_part(segment@) == Err::<PartView, HttpError>(e),
            },
    {
        let n = segment.len();
        let mut a: usize = 0;
        if n >= 2 && segment[0] == 13 && segment[1] == 10 {
            a = 2;
        }
        let mut b: usize = n;
        if b - a >= 2 && segment[b - 2] == 13 && segment[b - 1] == 10 {
            b = b - 2;
        }
        let content = vstd::slice::slice_subrange(segment, a, b);
        proof {
            let s = segment@;
            let stripped = shed_breaks(s);
            if a == 2 {
                assert(s.take(2) =~= line_break());
            } else {
                assert(s.len() < 2 || s.take(2) != line_break());
            }
            let mid = if a == 2 {
                s.skip(2)
            } else {
                s
            };
            if b < n {
                assert(mid.skip(mid.len() - 2) =~= line_break());
            } else {
                if mid.len() >= 2 && mid.skip(mid.len() - 2) == line_break() {
                    assert(mid[mid.len() - 2] == 13 && mid[mid.len() - 1] == 10);
                    assert(false);
                }
            }
            assert(content@ =~= stripped);
        }
        match build_attributes(content) {
            Ok((disp, ct, data)) => {
                let p = Part { content_disposition: disp, content_type: ct, data };
                proof {
                    assert(p@ =~= parse_part(segment@)->Ok_0);
                }
                Ok(p)
            },
            Err(e) => Err(e),
        }
    }
}

/// Decodes the boundary splits of `body` into parts: the preamble
/// before the first boundary and a final closing delimiter are
/// dropped, and the first malformed split decides the error.
pub fn get_parts(body: &[u8], boundary: &[u8]) -> (r: Result<Vec<Part>, HttpError>)
    ensures
        match r {
            Ok(parts) => {
                &&& decode_spec(body@, boundary@) == Ok::<Seq<PartView>, HttpError>(
                    parts@.map_values(|p: Part| p@),
                )
                &&& forall|i: int| 0 <= i < parts@.len() ==> (#[trigger] parts@[i]).wf()
            },
            Err(e) => decode_spec(body@, boundary@) == Err::<Seq<PartView>, HttpError>(e),
        },
{
    proof {
        reveal_strlit("--\r\n");
        reveal_strlit("--");
        lemma_split_on_nonempty(body@, boundary@);
    }
    let mut segs = split_bytes(body, boundary);
    let ghost all = segs@.map_values(|v: Vec<u8>| v@);
    // Drop the preamble before the first boundary.
    segs.remove(0);
    let ghost kept0 = segs@.map_values(|v: Vec<u8>| v@);
    proof {
        assert(kept0 =~= all.drop_first());
    }
    // Drop a final split that is the closing delimiter.
    let closing = scan::lit_bytes("--\r\n");
    proof {
        assert(closing@ =~= ascii_bytes("--"@) + line_break());
    }
    if segs.len() > 0 {
        let is_closing = {
            let last_ref = &segs[segs.len() - 1];
            scan::bytes_eq(last_ref.as_slice(), closing.as_slice())
        };
        if is_closing {
            let _ = segs.pop();
            proof {
                assert(segs@.map_values(|v: Vec<u8>| v@) =~= kept0.drop_last());
            }
        }
    }
    let ghost target = segs@.map_values(|v: Vec<u8>| v@);
    proof {
        assert(target =~= part_segments(body@, boundary@));
    }
    let mut parts: Vec<Part> = Vec::new();
    let mut j: usize = 0;
    proof {
        assert(target.skip(0) =~= target);
        assert(parts@.map_values(|p: Part| p@) =~= Seq::<PartView>::empty());
        match parts_of(target) {
            Ok(rest) => {
                assert(Seq::<PartView>::empty() + rest =~= rest);
            },
            Err(_) => {},
        }
    }
    while j < segs.len()
        invariant
            j <= segs@.len(),
            target == segs@.map_values(|v: Vec<u8>| v@),
            target == part_segments(body@, boundary@),
            forall|i: int| 0 <= i < parts@.len() ==> (#[trigger] parts@[i]).wf(),
            ({
                let pv = parts@.map_values(|p: Part| p@);
                match parts_of(target.skip(j as int)) {
                    Ok(rest) => parts_of(target) == Ok::<Seq<PartView>, HttpError>(pv + rest),
                    Err(e) => parts_of(target) == Err::<Seq<PartView>, HttpError>(e),
                }
            }),
        decreases segs@.len() - j,
    {
        proof {
            assert(target.skip(j as int)[0] == segs@[j as int]@);
            assert(target.skip(j as int).drop_first() =~= target.skip(j + 1));
        }
        let ghost pvo = parts@.map_values(|p2: Part| p2@);
        match Part::new(segs[j].as_slice()) {
            Ok(p) => {
                let ghost pv = p@;
                parts.push(p);
                proof {
                    let pvn = parts@.map_values(|p2: Part| p2@);
                    assert(pvn =~= pvo + seq![pv]);
                    match parts_of(target.skip(j + 1)) {
                        Ok(rest2) => {
                            assert(parts_of(target.skip(j as int)) == Ok::<
                                Seq<PartView>,
                                HttpError,
                            >(seq![pv] + rest2));
                            assert(pvo + (seq![pv] + rest2) =~= pvn + rest2);
                        },
                        Err(_) => {},
                    }
                }
            },
            Err(e) => {
                proof {
                    assert(parts_of(target.skip(j as int)) == Err::<Seq<PartView>, HttpError>(e));
                    assert(parts_of(target) == Err::<Seq<PartView>, HttpError>(e));
                }
                return Err(e);
            },
        }
        j += 1;
    }
    proof {
        assert(target.skip(j as int) =~= Seq::<Seq<u8>>::empty());
    }
    Ok(parts)
}

/// Splitting always yields at least one piece.
proof fn lemma_split_on_nonempty(s: Seq<u8>, tok: Seq<u8>)
    ensures
        split_on(s, tok).len() >= 1,
{
    if tok.len() == 0 {
    } else {
        match scan::find_sub_from(s, tok, 0) {
            Some(_) => {},
            None => {},
        }
    }
}

} // verus!
