//! Byte-level scanning helpers shared by every parser in the crate:
//! finding bytes and line terminators, ASCII case folding, whitespace
//! trimming, decimal parsing and rendering, and UTF-8 validation.

use vstd::prelude::*;

verus! {

/// ASCII whitespace as trimmed from header names and values:
/// space, tab, line feed, vertical tab, form feed, carriage return.
pub open spec fn is_ws(b: u8) -> bool {
    b == 32 || b == 9 || b == 10 || b == 11 || b == 12 || b == 13
}

/// ASCII lower-casing of one byte; other bytes pass unchanged.
pub open spec fn lower_byte(b: u8) -> u8 {
    if 65 <= b && b <= 90 {
        (b + 32) as u8
    } else {
        b
    }
}

/// ASCII lower-casing of a byte sequence.
pub open spec fn lower_bytes(s: Seq<u8>) -> Seq<u8> {
    Seq::new(s.len(), |i: int| lower_byte(s[i]))
}

/// The sequence with leading whitespace removed.
pub open spec fn trim_start_bytes(s: Seq<u8>) -> Seq<u8>
    decreases s.len(),
{
    if s.len() > 0 && is_ws(s[0]) {
        trim_start_bytes(s.drop_first())
    } else {
        s
    }
}

/// The sequence with trailing whitespace removed.
pub open spec fn trim_end_bytes(s: Seq<u8>) -> Seq<u8>
    decreases s.len(),
{
    if s.len() > 0 && is_ws(s[s.len() - 1]) {
        trim_end_bytes(s.drop_last())
    } else {
        s
    }
}

/// The sequence with whitespace removed from both ends.
pub open spec fn trim_bytes(s: Seq<u8>) -> Seq<u8> {
    trim_end_bytes(trim_start_bytes(s))
}

/// Index of the first occurrence of `b` at or after `i`, if any.
pub open spec fn find_byte_from(s: Seq<u8>, b: u8, i: int) -> Option<int>
    recommends
        0 <= i,
    decreases s.len() - i when 0 <= i
{
    if i >= s.len() {
        None
    } else if s[i] == b {
        Some(i)
    } else {
        find_byte_from(s, b, i + 1)
    }
}

/// Index of the first CR LF pair starting at or after `i`, if any.
pub open spec fn find_crlf_from(s: Seq<u8>, i: int) -> Option<int>
    recommends
        0 <= i,
    decreases s.len() - i when 0 <= i
{
    if i + 2 > s.len() {
        None
    } else if s[i] == 13 && s[i + 1] == 10 {
        Some(i)
    } else {
        find_crlf_from(s, i + 1)
    }
}

/// Numeric value of a sequence of ASCII decimal digits, most
/// significant digit first. Defined for arbitrary bytes; only
/// meaningful when every byte is a digit.
pub open spec fn dec_value(s: Seq<u8>) -> nat
    decreases s.len(),
{
    if s.len() == 0 {
        0
    } else {
        dec_value(s.drop_last()) * 10 + (if 48 <= s.last() && s.last() <= 57 {
            (s.last() - 48) as nat
        } else {
            0
        })
    }
}

/// Every byte is an ASCII decimal digit.
pub open spec fn all_digits(s: Seq<u8>) -> bool {
    forall|i: int| 0 <= i < s.len() ==> 48 <= #[trigger] s[i] && s[i] <= 57
}

/// Decimal digits of `n`, most significant first, no leading zeros.
pub open spec fn dec_digits(n: nat) -> Seq<u8>
    decreases n,
{
    if n < 10 {
        seq![(48 + n) as u8]
    } else {
        dec_digits(n / 10).push((48 + n % 10) as u8)
    }
}

/// Whether `b` is a UTF-8 continuation byte.
pub open spec fn is_cont(b: u8) -> bool {
    0x80 <= b && b <= 0xBF
}

/// Whether the bytes of `s` from `i` on are a well-formed UTF-8
/// encoding, following the byte patterns of RFC 3629: no overlong
/// forms, no surrogates, nothing above U+10FFFF.
pub open spec fn valid_utf8_from(s: Seq<u8>, i: int) -> bool
    recommends
        0 <= i,
    decreases s.len() - i when 0 <= i
{
    if i >= s.len() {
        true
    } else {
        let b0 = s[i];
        if b0 < 0x80 {
            valid_utf8_from(s, i + 1)
        } else if 0xC2 <= b0 && b0 <= 0xDF {
            i + 2 <= s.len() && is_cont(s[i + 1]) && valid_utf8_from(s, i + 2)
        } else if b0 == 0xE0 {
            i + 3 <= s.len() && 0xA0 <= s[i + 1] && s[i + 1] <= 0xBF && is_cont(s[i + 2])
                && valid_utf8_from(s, i + 3)
        } else if (0xE1 <= b0 && b0 <= 0xEC) || b0 == 0xEE || b0 == 0xEF {
            i + 3 <= s.len() && is_cont(s[i + 1]) && is_cont(s[i + 2]) && valid_utf8_from(s, i + 3)
        } else if b0 == 0xED {
            i + 3 <= s.len() && 0x80 <= s[i + 1] && s[i + 1] <= 0x9F && is_cont(s[i + 2])
                && valid_utf8_from(s, i + 3)
        } else if b0 == 0xF0 {
            i + 4 <= s.len() && 0x90 <= s[i + 1] && s[i + 1] <= 0xBF && is_cont(s[i + 2])
                && is_cont(s[i + 3]) && valid_utf8_from(s, i + 4)
        } else if 0xF1 <= b0 && b0 <= 0xF3 {
            i + 4 <= s.len() && is_cont(s[i + 1]) && is_cont(s[i + 2]) && is_cont(s[i + 3])
                && valid_utf8_from(s, i + 4)
        } else if b0 == 0xF4 {
            i + 4 <= s.len() && 0x80 <= s[i + 1] && s[i + 1] <= 0x8F && is_cont(s[i + 2])
                && is_cont(s[i + 3]) && valid_utf8_from(s, i + 4)
        } else {
            false
        }
    }
}

/// Whether `s` as a whole is well-formed UTF-8.
pub open spec fn valid_utf8(s: Seq<u8>) -> bool {
    valid_utf8_from(s, 0)
}

/// Index of the first occurrence of `p` as a contiguous subsequence
/// of `s` at or after `i`, if any. The empty pattern matches at `i`.
pub open spec fn find_sub_from(s: Seq<u8>, p: Seq<u8>, i: int) -> Option<int>
    recommends
        0 <= i,
    decreases s.len() - i when 0 <= i
{
    if i + p.len() > s.len() {
        None
    } else if p.len() == 0 {
        Some(i)
    } else if s.subrange(i, i + p.len()) == p {
        Some(i)
    } else {
        find_sub_from(s, p, i + 1)
    }
}

/// Index of the last occurrence of `b` in `s`, if any.
pub open spec fn rfind_byte(s: Seq<u8>, b: u8) -> Option<int>
    decreases s.len(),
{
    if s.len() == 0 {
        None
    } else if s.last() == b {
        Some(s.len() - 1)
    } else {
        rfind_byte(s.drop_last(), b)
    }
}

/// Byte-for-byte equality of two slices.
pub fn bytes_eq(a: &[u8], b: &[u8]) -> (r: bool)
    ensures
        r == (a@ == b@),
{
    if a.len() != b.len() {
        return false;
    }
    let mut i: usize = 0;
    while i < a.len()
        invariant
            i <= a.len(),
            a@.len() == b@.len(),
            forall|j: int| 0 <= j < i ==> a@[j] == b@[j],
        decreases a.len() - i,
    {
        if a[i] != b[i] {
            return false;
        }
        i += 1;
    }
    proof {
        assert(a@ =~= b@);
    }
    true
}

/// First occurrence of `b` in `s` at or after `from`.
pub fn find_byte(s: &[u8], b: u8, from: usize) -> (r: Option<usize>)
    requires
        from <= s@.len(),
    ensures
        match r {
            Some(i) => from <= i < s@.len() && find_byte_from(s@, b, from as int) == Some(i as int),
            None => find_byte_from(s@, b, from as int) is None,
        },
{
    let mut i: usize = from;
    while i < s.len()
        invariant
            from <= i <= s@.len(),
            find_byte_from(s@, b, from as int) == find_byte_from(s@, b, i as int),
        decreases s@.len() - i,
    {
        if s[i] == b {
            return Some(i);
        }
        i += 1;
    }
    None
}

/// First CR LF pair in `s` starting at or after `from`.
pub fn find_crlf(s: &[u8], from: usize) -> (r: Option<usize>)
    requires
        from <= s@.len(),
    ensures
        match r {
            Some(i) => from <= i && i + 2 <= s@.len() && find_crlf_from(s@, from as int) == Some(
                i as int,
            ),
            None => find_crlf_from(s@, from as int) is None,
        },
{
    if s.len() < 2 {
        return None;
    }
    let mut i: usize = from;
    while i < s.len() - 1
        invariant
            from <= i,
            i <= s@.len(),
            s@.len() >= 2,
            find_crlf_from(s@, from as int) == find_crlf_from(s@, i as int),
        decreases s@.len() - i,
    {
        if s[i] == 13 && s[i + 1] == 10 {
            return Some(i);
        }
        i += 1;
    }
    None
}

/// First occurrence of `p` as a contiguous run inside `s` at or
/// after `from`.
pub fn find_sub(s: &[u8], p: &[u8], from: usize) -> (r: Option<usize>)
    requires
        from <= s@.len(),
    ensures
        match r {
            Some(i) => from <= i && i + p@.len() <= s@.len() && find_sub_from(s@, p@, from as int)
                == Some(i as int),
            None => find_sub_from(s@, p@, from as int) is None,
        },
{
    if p.len() > s.len() {
        proof {
            lemma_find_sub_from_none(s@, p@, from as int);
        }
        return None;
    }
    if p.len() == 0 {
        proof {
            assert(s@.subrange(from as int, from as int) =~= p@);
        }
        return Some(from);
    }
    let n = s.len();
    let last = n - p.len();
    let mut i: usize = from;
    while i <= last
        invariant
            from <= i,
            i <= n,
            n == s@.len(),
            last == n - p@.len(),
            1 <= p@.len() <= n,
            find_sub_from(s@, p@, from as int) == find_sub_from(s@, p@, i as int),
        decreases last + 1 - i,
    {
        if bytes_eq(vstd::slice::slice_subrange(s, i, i + p.len()), p) {
            return Some(i);
        }
        i += 1;
    }
    proof {
        lemma_find_sub_from_none(s@, p@, i as int);
    }
    None
}

proof fn lemma_find_sub_from_none(s: Seq<u8>, p: Seq<u8>, i: int)
    requires
        0 <= i,
        i + p.len() > s.len(),
    ensures
        find_sub_from(s, p, i) is None,
{
}

/// Last occurrence of `b` in `s`.
pub fn rfind(s: &[u8], b: u8) -> (r: Option<usize>)
    ensures
        match r {
            Some(i) => i < s@.len() && rfind_byte(s@, b) == Some(i as int),
            None => rfind_byte(s@, b) is None,
        },
{
    let mut i: usize = s.len();
    proof {
        assert(s@.take(i as int) =~= s@);
    }
    while i > 0
        invariant
            i <= s@.len(),
            rfind_byte(s@, b) == rfind_byte(s@.take(i as int), b),
        decreases i,
    {
        if s[i - 1] == b {
            proof {
                assert(s@.take(i as int).last() == s@[i - 1]);
            }
            return Some(i - 1);
        }
        proof {
            assert(s@.take(i as int).drop_last() =~= s@.take(i - 1));
        }
        i -= 1;
    }
    None
}

/// Appends the bytes of an ASCII string literal to `out`.
pub fn push_lit(out: &mut Vec<u8>, s: &str)
    requires
        vstd::string::is_ascii(s),
    ensures
        final(out)@ == old(out)@ + crate::ascii_bytes(s@),
{
    let b = s.as_bytes();
    proof {
        broadcast use vstd::string::is_ascii_spec_bytes;

        assert(b@ =~= crate::ascii_bytes(s@));
    }
    out.extend_from_slice(b);
}

/// Bytes of an ASCII string literal.
pub fn lit_bytes(s: &str) -> (r: Vec<u8>)
    requires
        vstd::string::is_ascii(s),
    ensures
        r@ == crate::ascii_bytes(s@),
{
    let b = s.as_bytes();
    proof {
        broadcast use vstd::string::is_ascii_spec_bytes;

        assert(b@ =~= crate::ascii_bytes(s@));
    }
    vstd::slice::slice_to_vec(b)
}

/// ASCII lower-casing of a slice into a fresh vector.
pub fn to_lower(s: &[u8]) -> (r: Vec<u8>)
    ensures
        r@ == lower_bytes(s@),
{
    let mut out: Vec<u8> = Vec::new();
    let mut i: usize = 0;
    while i < s.len()
        invariant
            i <= s@.len(),
            out@.len() == i,
            forall|j: int| 0 <= j < i ==> out@[j] == lower_byte(s@[j]),
        decreases s@.len() - i,
    {
        let b = s[i];
        if 65 <= b && b <= 90 {
            out.push(b + 32);
        } else {
            out.push(b);
        }
        i += 1;
    }
    proof {
        assert(out@ =~= lower_bytes(s@));
    }
    out
}

proof fn lemma_trim_start_at(s: Seq<u8>, i: int)
    requires
        0 <= i <= s.len(),
        forall|j: int| 0 <= j < i ==> is_ws(s[j]),
        i == s.len() || !is_ws(s[i]),
    ensures
        trim_start_bytes(s) == s.skip(i),
    decreases i,
{
    if i == 0 {
        assert(trim_start_bytes(s) == s);
        assert(s.skip(0) =~= s);
    } else {
        assert(is_ws(s[0]));
        lemma_trim_start_at(s.drop_first(), i - 1);
        assert(s.drop_first().skip(i - 1) =~= s.skip(i));
    }
}

proof fn lemma_trim_end_at(s: Seq<u8>, i: int)
    requires
        0 <= i <= s.len(),
        forall|j: int| i <= j < s.len() ==> is_ws(s[j]),
        i == 0 || !is_ws(s[i - 1]),
    ensures
        trim_end_bytes(s) == s.take(i),
    decreases s.len() - i,
{
    if i == s.len() {
        assert(trim_end_bytes(s) == s);
        assert(s.take(i) =~= s);
    } else {
        assert(is_ws(s[s.len() - 1]));
        lemma_trim_end_at(s.drop_last(), i);
        assert(s.drop_last().take(i) =~= s.take(i));
    }
}

/// Whether `c` is ASCII whitespace.
fn ws_byte(c: u8) -> (r: bool)
    ensures
        r == is_ws(c),
{
    c == 32 || c == 9 || c == 10 || c == 11 || c == 12 || c == 13
}

/// Copy of `s` with ASCII whitespace removed from both ends.
pub fn trim(s: &[u8]) -> (r: Vec<u8>)
    ensures
        r@ == trim_bytes(s@),
{
    let mut a: usize = 0;
    while a < s.len() && ws_byte(s[a])
        invariant
            a <= s@.len(),
            forall|j: int| 0 <= j < a ==> is_ws(s@[j]),
        decreases s@.len() - a,
    {
        a += 1;
    }
    proof {
        lemma_trim_start_at(s@, a as int);
    }
    if a == s.len() {
        proof {
            assert(s@.skip(a as int) =~= Seq::<u8>::empty());
            assert(trim_end_bytes(Seq::<u8>::empty()) == Seq::<u8>::empty());
        }
        return Vec::new();
    }
    // There is a non-whitespace byte at `a`, so scanning back from the
    // end stops at or after it.
    let mut b: usize = s.len();
    while b > a + 1 && ws_byte(s[b - 1])
        invariant
            a < b <= s@.len(),
            forall|j: int| b <= j < s@.len() ==> is_ws(s@[j]),
        decreases b,
    {
        b -= 1;
    }
    let out = vstd::slice::slice_to_vec(vstd::slice::slice_subrange(s, a, b));
    proof {
        let t = s@.skip(a as int);
        assert(!is_ws(t[0]));
        if b == a + 1 {
            lemma_trim_end_at(t, (b - a) as int);
        } else {
            assert(!is_ws(s@[b - 1]));
            lemma_trim_end_at(t, (b - a) as int);
        }
        assert(t.take((b - a) as int) =~= s@.subrange(a as int, b as int));
    }
    out
}

proof fn lemma_dec_value_monotone(s: Seq<u8>, i: int)
    requires
        0 <= i <= s.len(),
    ensures
        dec_value(s.take(i)) <= dec_value(s),
    decreases s.len() - i,
{
    if i < s.len() {
        lemma_dec_value_monotone(s, i + 1);
        assert(s.take(i + 1).drop_last() =~= s.take(i));
        assert(s.take(i + 1).last() == s[i]);
        assert(dec_value(s.take(i)) <= dec_value(s.take(i + 1)));
    } else {
        assert(s.take(i) =~= s);
    }
}

/// Parses `s` as an unsigned decimal integer.
///
/// Returns the value exactly when `s` is a non-empty run of ASCII
/// digits whose value fits in `usize`; returns `None` otherwise
/// (empty input, a non-digit byte, or overflow).
pub fn parse_dec(s: &[u8]) -> (r: Option<usize>)
    ensures
        match r {
            Some(n) => all_digits(s@) && s@.len() > 0 && n == dec_value(s@),
            None => s@.len() == 0 || !all_digits(s@) || dec_value(s@) > usize::MAX,
        },
{
    if s.len() == 0 {
        return None;
    }
    let mut acc: usize = 0;
    let mut i: usize = 0;
    while i < s.len()
        invariant
            i <= s@.len(),
            all_digits(s@.take(i as int)),
            acc == dec_value(s@.take(i as int)),
        decreases s@.len() - i,
    {
        let b = s[i];
        if b < 48 || b > 57 {
            return None;
        }
        let d = (b - 48) as usize;
        let shifted = match acc.checked_mul(10) {
            Some(v) => v,
            None => {
                proof {
                    assert(s@.take(i as int + 1).drop_last() =~= s@.take(i as int));
                    assert(dec_value(s@.take(i as int + 1)) > usize::MAX);
                    lemma_dec_value_monotone(s@, i as int + 1);
                }
                return None;
            },
        };
        let next = match shifted.checked_add(d) {
            Some(v) => v,
            None => {
                proof {
                    assert(s@.take(i as int + 1).drop_last() =~= s@.take(i as int));
                    assert(dec_value(s@.take(i as int + 1)) > usize::MAX);
                    lemma_dec_value_monotone(s@, i as int + 1);
                }
                return None;
            },
        };
        proof {
            assert(s@.take(i as int + 1).drop_last() =~= s@.take(i as int));
        }
        acc = next;
        i += 1;
    }
    proof {
        assert(s@.take(i as int) =~= s@);
    }
    Some(acc)
}

/// Decimal rendering of `n`, most significant digit first.
pub fn dec_to_bytes(n: u64) -> (r: Vec<u8>)
    ensures
        r@ == dec_digits(n as nat),
    decreases n,
{
    if n < 10 {
        let mut out: Vec<u8> = Vec::new();
        out.push(48 + n as u8);
        proof {
            assert(out@ =~= dec_digits(n as nat));
        }
        out
    } else {
        let mut out = dec_to_bytes(n / 10);
        out.push(48 + (n % 10) as u8);
        out
    }
}

/// Checks that `s` is well-formed UTF-8 per the byte patterns of
/// RFC 3629.
pub fn check_utf8(s: &[u8]) -> (r: bool)
    ensures
        r == valid_utf8(s@),
{
    let n = s.len();
    let mut i: usize = 0;
    while i < n
        invariant
            i <= n,
            n == s@.len(),
            valid_utf8(s@) == valid_utf8_from(s@, i as int),
        decreases n - i,
    {
        let b0 = s[i];
        if b0 < 0x80 {
            i += 1;
        } else if 0xC2 <= b0 && b0 <= 0xDF {
            if n - i < 2 || !(0x80 <= s[i + 1] && s[i + 1] <= 0xBF) {
                return false;
            }
            i += 2;
        } else if b0 == 0xE0 {
            if n - i < 3 || !(0xA0 <= s[i + 1] && s[i + 1] <= 0xBF) || !(0x80 <= s[i + 2] && s[i
                + 2] <= 0xBF) {
                return false;
            }
            i += 3;
        } else if (0xE1 <= b0 && b0 <= 0xEC) || b0 == 0xEE || b0 == 0xEF {
            if n - i < 3 || !(0x80 <= s[i + 1] && s[i + 1] <= 0xBF) || !(0x80 <= s[i + 2] && s[i
                + 2] <= 0xBF) {
                return false;
            }
            i += 3;
        } else if b0 == 0xED {
            if n - i < 3 || !(0x80 <= s[i + 1] && s[i + 1] <= 0x9F) || !(0x80 <= s[i + 2] && s[i
                + 2] <= 0xBF) {
                return false;
            }
            i += 3;
        } else if b0 == 0xF0 {
            if n - i < 4 || !(0x90 <= s[i + 1] && s[i + 1] <= 0xBF) || !(0x80 <= s[i + 2] && s[i
                + 2] <= 0xBF) || !(0x80 <= s[i + 3] && s[i + 3] <= 0xBF) {
                return false;
            }
            i += 4;
        } else if 0xF1 <= b0 && b0 <= 0xF3 {
            if n - i < 4 || !(0x80 <= s[i + 1] && s[i + 1] <= 0xBF) || !(0x80 <= s[i + 2] && s[i
                + 2] <= 0xBF) || !(0x80 <= s[i + 3] && s[i + 3] <= 0xBF) {
                return false;
            }
            i += 4;
        } else if b0 == 0xF4 {
            if n - i < 4 || !(0x80 <= s[i + 1] && s[i + 1] <= 0x8F) || !(0x80 <= s[i + 2] && s[i
                + 2] <= 0xBF) || !(0x80 <= s[i + 3] && s[i + 3] <= 0xBF) {
                return false;
            }
            i += 4;
        } else {
            return false;
        }
    }
    true
}

} // verus!
