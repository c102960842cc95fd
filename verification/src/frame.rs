//! Frame detection: deciding whether a growing receive buffer holds a
//! complete header block, and where that block ends.
//!
//! A header block is terminated by the four bytes CR LF CR LF. The
//! detector scans forward from the start of the buffer and reports the
//! offset one past the first terminator, i.e. the exact length of the
//! header block including its terminator. Absence of a terminator is
//! normal under partial arrival, never an error, and the detector does
//! not mutate the buffer, so it is safe to call again as bytes
//! accumulate.

use vstd::prelude::*;

verus! {

/// One complete, self-delimited unit extracted from or written to
/// the byte stream: a request head, a response head, or a chunk of
/// body bytes.
pub enum HttpFrame {
    RequestHead(crate::request::RequestHead),
    ResponseHead(crate::response::ResponseHead),
    BodyChunk(Vec<u8>),
}

/// The four-byte header terminator CR LF CR LF starts at `i`.
pub open spec fn term_at(s: Seq<u8>, i: int) -> bool {
    &&& 0 <= i
    &&& i + 4 <= s.len()
    &&& s[i] == 13
    &&& s[i + 1] == 10
    &&& s[i + 2] == 13
    &&& s[i + 3] == 10
}

/// Index of the first header terminator at or after `i`, if any.
pub open spec fn first_term_from(s: Seq<u8>, i: int) -> Option<int>
    recommends
        0 <= i,
    decreases s.len() - i when 0 <= i
{
    if i + 4 > s.len() {
        None
    } else if term_at(s, i) {
        Some(i)
    } else {
        first_term_from(s, i + 1)
    }
}

/// Length of the complete header block at the front of `s`, including
/// its CR LF CR LF terminator; `None` while no terminator has arrived.
pub open spec fn header_end(s: Seq<u8>) -> Option<int> {
    match first_term_from(s, 0) {
        Some(i) => Some(i + 4),
        None => None,
    }
}

/// What `first_term_from` finds is a terminator, is at or after the
/// start of the scan, and nothing earlier in the scanned range is one.
pub proof fn lemma_first_term_from_spec(s: Seq<u8>, i: int)
    requires
        0 <= i,
    ensures
        match first_term_from(s, i) {
            Some(t) => i <= t && term_at(s, t) && forall|j: int| i <= j < t ==> !term_at(s, j),
            None => forall|j: int| i <= j ==> !term_at(s, j),
        },
    decreases s.len() - i,
{
    if i + 4 > s.len() {
    } else if term_at(s, i) {
    } else {
        lemma_first_term_from_spec(s, i + 1);
    }
}

/// A terminator found in a buffer stays the first terminator after
/// more bytes are appended: appending can only add later candidates.
pub proof fn lemma_first_term_append(s: Seq<u8>, t: Seq<u8>, i: int)
    requires
        0 <= i,
        first_term_from(s, i) is Some,
    ensures
        first_term_from(s + t, i) == first_term_from(s, i),
    decreases s.len() - i,
{
    assert(i + 4 <= s.len());
    assert(forall|j: int| 0 <= j < s.len() ==> (s + t)[j] == s[j]);
    if term_at(s, i) {
        assert(term_at(s + t, i));
    } else {
        assert(!term_at(s + t, i));
        lemma_first_term_append(s, t, i + 1);
    }
}

/// Detection is stable under growth: once the header end is found at
/// `e`, feeding more bytes leaves it at `e`.
pub proof fn lemma_header_end_append(s: Seq<u8>, t: Seq<u8>)
    requires
        header_end(s) is Some,
    ensures
        header_end(s + t) == header_end(s),
{
    lemma_first_term_append(s, t, 0);
}

/// A buffer shorter than four bytes, or one in which no four
/// consecutive bytes form CR LF CR LF, holds no complete header block.
pub proof fn lemma_no_terminator_not_yet(s: Seq<u8>)
    requires
        s.len() < 4 || forall|i: int| 0 <= i ==> !term_at(s, i),
    ensures
        header_end(s) is None,
{
    lemma_first_term_from_spec(s, 0);
    if s.len() < 4 {
        if first_term_from(s, 0) is Some {
            let t = first_term_from(s, 0)->Some_0;
            assert(term_at(s, t));
        }
    } else {
        if first_term_from(s, 0) is Some {
            let t = first_term_from(s, 0)->Some_0;
            assert(!term_at(s, t));
        }
    }
}

/// For a buffer with no terminator before its final four bytes —
/// the growing-tail case, where at most the newest bytes can
/// complete a block — detection is decided at the end alone: a
/// buffer shorter than four bytes, or whose last four bytes are not
/// exactly CR LF CR LF, is "not yet". (A buffer that already holds
/// an earlier terminator is outside this statement: there the first
/// terminator decides, wherever the buffer ends.)
pub proof fn lemma_tail_decides(s: Seq<u8>)
    requires
        forall|i: int| 0 <= i < s.len() - 4 ==> !term_at(s, i),
        s.len() < 4 || !term_at(s, s.len() - 4),
    ensures
        header_end(s) is None,
{
    assert forall|i: int| 0 <= i implies !term_at(s, i) by {
        if i < s.len() - 4 {
        } else if i == s.len() - 4 {
        } else {
        }
    }
    lemma_no_terminator_not_yet(s);
}

/// Finds the end of the header block in `buf`: the offset one past
/// the first CR LF CR LF, i.e. the block's exact byte length.
///
/// Returns `None` ("not yet") while the buffer holds no terminator;
/// in particular always for buffers shorter than four bytes.
pub fn find_header_end(buf: &[u8]) -> (r: Option<usize>)
    ensures
        match r {
            Some(e) => {
                &&& header_end(buf@) == Some(e as int)
                &&& 4 <= e <= buf@.len()
                &&& term_at(buf@, e - 4)
                &&& forall|j: int| 0 <= j < e - 4 ==> !term_at(buf@, j)
            },
            None => header_end(buf@) is None && first_term_from(buf@, 0) is None,
        },
{
    proof {
        lemma_first_term_from_spec(buf@, 0);
    }
    let n = buf.len();
    if n < 4 {
        return None;
    }
    let mut i: usize = 0;
    while n - i >= 4
        invariant
            i <= n,
            n == buf@.len(),
            first_term_from(buf@, 0) == first_term_from(buf@, i as int),
        decreases n - i,
    {
        if buf[i] == 13 && buf[i + 1] == 10 && buf[i + 2] == 13 && buf[i + 3] == 10 {
            proof {
                lemma_first_term_from_spec(buf@, 0);
            }
            return Some(i + 4);
        }
        i += 1;
    }
    None
}

} // verus!
