//! Response serialization: status line, the fixed header order, the
//! HTTP date line, and the small lookup tables around them.
//!
//! The wire shape is part of the contract: status line first, then
//! `Date`, `Content-Length`, `Content-Type`, `Connection` and the
//! `Server` token, each ended by CR LF, then the blank-line
//! terminator — byte for byte as [`response_bytes`] states it.

use vstd::prelude::*;

use crate::ascii_bytes;
use crate::clock::DateParts;
use crate::headers::HeaderMap;
use crate::scan;

verus! {

/// The two line-terminator bytes CR LF.
pub open spec fn crlf() -> Seq<u8> {
    seq![13u8, 10u8]
}

/// Status code with its fixed reason phrase; unknown codes fall back
/// to the internal-error line.
pub open spec fn reason_bytes(code: u32) -> Seq<u8> {
    if code == 200 {
        ascii_bytes("200 OK"@)
    } else if code == 400 {
        ascii_bytes("400 Bad Request"@)
    } else if code == 404 {
        ascii_bytes("404 Not Found"@)
    } else if code == 415 {
        ascii_bytes("415 Unsupported Media"@)
    } else {
        ascii_bytes("500 Internal Error"@)
    }
}

/// Three-letter weekday name, counting days from Monday.
pub open spec fn weekday_name(w: u32) -> Seq<u8> {
    if w == 0 {
        ascii_bytes("Mon"@)
    } else if w == 1 {
        ascii_bytes("Tue"@)
    } else if w == 2 {
        ascii_bytes("Wed"@)
    } else if w == 3 {
        ascii_bytes("Thu"@)
    } else if w == 4 {
        ascii_bytes("Fri"@)
    } else if w == 5 {
        ascii_bytes("Sat"@)
    } else {
        ascii_bytes("Sun"@)
    }
}

/// Three-letter month name for month numbers 1 to 12; anything else
/// renders as an error marker rather than a month.
pub open spec fn month_name(m: u32) -> Seq<u8> {
    if m == 1 {
        ascii_bytes("Jan"@)
    } else if m == 2 {
        ascii_bytes("Feb"@)
    } else if m == 3 {
        ascii_bytes("Mar"@)
    } else if m == 4 {
        ascii_bytes("Apr"@)
    } else if m == 5 {
        ascii_bytes("May"@)
    } else if m == 6 {
        ascii_bytes("Jun"@)
    } else if m == 7 {
        ascii_bytes("Jul"@)
    } else if m == 8 {
        ascii_bytes("Aug"@)
    } else if m == 9 {
        ascii_bytes("Sep"@)
    } else if m == 10 {
        ascii_bytes("Oct"@)
    } else if m == 11 {
        ascii_bytes("Nov"@)
    } else if m == 12 {
        ascii_bytes("Dec"@)
    } else {
        ascii_bytes("Error month"@)
    }
}

/// Two zero-padded decimal digits of `n`, for `n` below 100.
pub open spec fn two_digits(n: u32) -> Seq<u8> {
    seq![(48 + n / 10) as u8, (48 + n % 10) as u8]
}

/// Decimal digits of a year, a leading minus sign for years before
/// year zero.
pub open spec fn year_bytes(y: int) -> Seq<u8> {
    if y >= 0 {
        scan::dec_digits(y as nat)
    } else {
        seq![45u8] + scan::dec_digits((-y) as nat)
    }
}

/// The HTTP date line for one moment:
/// `Www, DD Mon YYYY HH:MM:SS GMT`.
pub open spec fn date_bytes(d: DateParts) -> Seq<u8> {
    weekday_name(d.weekday) + ascii_bytes(", "@) + two_digits(d.day) + ascii_bytes(" "@)
        + month_name(d.month) + ascii_bytes(" "@) + year_bytes(d.year as int) + ascii_bytes(" "@)
        + two_digits(d.hour) + ascii_bytes(":"@) + two_digits(d.minute) + ascii_bytes(":"@)
        + two_digits(d.second) + ascii_bytes(" GMT"@)
}

/// The full response head on the wire, byte for byte: status line,
/// then `Date`, `Content-Length`, `Content-Type`, `Connection` and
/// the fixed `Server` token in that order, then the blank-line
/// terminator.
pub open spec fn response_bytes(
    code: u32,
    body_len: nat,
    keep_alive: bool,
    content_type: Seq<u8>,
    d: DateParts,
) -> Seq<u8> {
    ascii_bytes("HTTP/1.1 "@) + reason_bytes(code) + crlf() + ascii_bytes("Date: "@) + date_bytes(
        d,
    ) + crlf() + ascii_bytes("Content-Length: "@) + scan::dec_digits(body_len) + crlf()
        + ascii_bytes("Content-Type: "@) + content_type + crlf() + ascii_bytes("Connection: "@) + (
    if keep_alive {
        ascii_bytes("keep-alive"@)
    } else {
        ascii_bytes("close"@)
    }) + crlf() + ascii_bytes("Server: rust-webserv"@) + crlf() + crlf()
}

/// Status line text for a code, reason phrase included.
pub fn get_status_code(code: u32) -> (r: Vec<u8>)
    ensures
        r@ == reason_bytes(code),
{
    proof {
        reveal_strlit("200 OK");
        reveal_strlit("400 Bad Request");
        reveal_strlit("404 Not Found");
        reveal_strlit("415 Unsupported Media");
        reveal_strlit("500 Internal Error");
    }
    if code == 200 {
        scan::lit_bytes("200 OK")
    } else if code == 400 {
        scan::lit_bytes("400 Bad Request")
    } else if code == 404 {
        scan::lit_bytes("404 Not Found")
    } else if code == 415 {
        scan::lit_bytes("415 Unsupported Media")
    } else {
        scan::lit_bytes("500 Internal Error")
    }
}

/// Three-letter month name for a month number.
pub fn get_month(month: u32) -> (r: Vec<u8>)
    ensures
        r@ == month_name(month),
{
    proof {
        reveal_strlit("Jan");
        reveal_strlit("Feb");
        reveal_strlit("Mar");
        reveal_strlit("Apr");
        reveal_strlit("May");
        reveal_strlit("Jun");
        reveal_strlit("Jul");
        reveal_strlit("Aug");
        reveal_strlit("Sep");
        reveal_strlit("Oct");
        reveal_strlit("Nov");
        reveal_strlit("Dec");
        reveal_strlit("Error month");
    }
    match month {
        1 => scan::lit_bytes("Jan"),
        2 => scan::lit_bytes("Feb"),
        3 => scan::lit_bytes("Mar"),
        4 => scan::lit_bytes("Apr"),
        5 => scan::lit_bytes("May"),
        6 => scan::lit_bytes("Jun"),
        7 => scan::lit_bytes("Jul"),
        8 => scan::lit_bytes("Aug"),
        9 => scan::lit_bytes("Sep"),
        10 => scan::lit_bytes("Oct"),
        11 => scan::lit_bytes("Nov"),
        12 => scan::lit_bytes("Dec"),
        _ => scan::lit_bytes("Error month"),
    }
}

/// Three-letter weekday name, days counted from Monday.
pub fn get_weekday(w: u32) -> (r: Vec<u8>)
    ensures
        r@ == weekday_name(w),
{
    proof {
        reveal_strlit("Mon");
        reveal_strlit("Tue");
        reveal_strlit("Wed");
        reveal_strlit("Thu");
        reveal_strlit("Fri");
        reveal_strlit("Sat");
        reveal_strlit("Sun");
    }
    match w {
        0 => scan::lit_bytes("Mon"),
        1 => scan::lit_bytes("Tue"),
        2 => scan::lit_bytes("Wed"),
        3 => scan::lit_bytes("Thu"),
        4 => scan::lit_bytes("Fri"),
        5 => scan::lit_bytes("Sat"),
        _ => scan::lit_bytes("Sun"),
    }
}

/// Appends the two zero-padded digits of `n` (below 100) to `out`.
fn push_two_digits(out: &mut Vec<u8>, n: u32)
    requires
        n < 100,
    ensures
        final(out)@ == old(out)@ + two_digits(n),
{
    out.push((48 + n / 10) as u8);
    out.push((48 + n % 10) as u8);
    proof {
        assert(out@ =~= old(out)@ + two_digits(n));
    }
}

/// Renders one moment as the HTTP date line
/// `Www, DD Mon YYYY HH:MM:SS GMT`.
pub fn format_http_date(d: &DateParts) -> (r: Vec<u8>)
    requires
        d.wf(),
    ensures
        r@ == date_bytes(*d),
{
    proof {
        reveal_strlit(", ");
        reveal_strlit(" ");
        reveal_strlit(":");
        reveal_strlit(" GMT");
    }
    let mut out = get_weekday(d.weekday);
    scan::push_lit(&mut out, ", ");
    push_two_digits(&mut out, d.day);
    scan::push_lit(&mut out, " ");
    let month = get_month(d.month);
    out.extend_from_slice(month.as_slice());
    scan::push_lit(&mut out, " ");
    if d.year >= 0 {
        let digits = scan::dec_to_bytes(d.year as u64);
        out.extend_from_slice(digits.as_slice());
    } else {
        out.push(45);
        let mag = -(d.year as i64);
        let digits = scan::dec_to_bytes(mag as u64);
        out.extend_from_slice(digits.as_slice());
    }
    scan::push_lit(&mut out, " ");
    push_two_digits(&mut out, d.hour);
    scan::push_lit(&mut out, ":");
    push_two_digits(&mut out, d.minute);
    scan::push_lit(&mut out, ":");
    push_two_digits(&mut out, d.second);
    scan::push_lit(&mut out, " GMT");
    proof {
        assert(out@ =~= date_bytes(*d));
    }
    out
}

/// Serializes a response head: status code, body length, keep-alive
/// decision and content type, dated at `d`, in the fixed wire order.
pub fn render_response(
    code: u32,
    body_len: usize,
    keep_alive: bool,
    content_type: &[u8],
    d: &DateParts,
) -> (r: Vec<u8>)
    requires
        d.wf(),
    ensures
        r@ == response_bytes(code, body_len as nat, keep_alive, content_type@, *d),
{
    proof {
        reveal_strlit("HTTP/1.1 ");
        reveal_strlit("\r\n");
        reveal_strlit("Date: ");
        reveal_strlit("Content-Length: ");
        reveal_strlit("Content-Type: ");
        reveal_strlit("Connection: ");
        reveal_strlit("keep-alive");
        reveal_strlit("close");
        reveal_strlit("Server: rust-webserv");
    }
    let mut out: Vec<u8> = Vec::new();
    scan::push_lit(&mut out, "HTTP/1.1 ");
    let reason = get_status_code(code);
    out.extend_from_slice(reason.as_slice());
    scan::push_lit(&mut out, "\r\n");
    scan::push_lit(&mut out, "Date: ");
    let date = format_http_date(d);
    out.extend_from_slice(date.as_slice());
    scan::push_lit(&mut out, "\r\n");
    scan::push_lit(&mut out, "Content-Length: ");
    let len_digits = scan::dec_to_bytes(body_len as u64);
    out.extend_from_slice(len_digits.as_slice());
    scan::push_lit(&mut out, "\r\n");
    scan::push_lit(&mut out, "Content-Type: ");
    out.extend_from_slice(content_type);
    scan::push_lit(&mut out, "\r\n");
    scan::push_lit(&mut out, "Connection: ");
    if keep_alive {
        scan::push_lit(&mut out, "keep-alive");
    } else {
        scan::push_lit(&mut out, "close");
    }
    scan::push_lit(&mut out, "\r\n");
    scan::push_lit(&mut out, "Server: rust-webserv");
    scan::push_lit(&mut out, "\r\n");
    scan::push_lit(&mut out, "\r\n");
    proof {
        assert(ascii_bytes("\r\n"@) =~= crlf());
        assert(out@ =~= response_bytes(code, body_len as nat, keep_alive, content_type@, *d));
    }
    out
}

/// Serializes a response head dated at the moment of the call.
pub fn create_response(code: u32, body_len: usize, keep_alive: bool, content_type: &[u8]) -> (r:
    Vec<u8>)
    ensures
        exists|d: DateParts|
            d.wf() && r@ == response_bytes(code, body_len as nat, keep_alive, content_type@, d),
{
    let now = crate::clock::now_parts();
    let r = render_response(code, body_len, keep_alive, content_type, &now);
    proof {
        assert(now.wf() && r@ == response_bytes(
            code,
            body_len as nat,
            keep_alive,
            content_type@,
            now,
        ));
    }
    r
}

/// The HTTP date line for the moment of the call.
pub fn get_time() -> (r: Vec<u8>)
    ensures
        exists|d: DateParts| d.wf() && r@ == date_bytes(d),
{
    let now = crate::clock::now_parts();
    let r = format_http_date(&now);
    proof {
        assert(now.wf() && r@ == date_bytes(now));
    }
    r
}

/// The file extension of a target: what follows the last dot, or the
/// whole target when it has none.
pub open spec fn ext_of(u: Seq<u8>) -> Seq<u8> {
    match scan::rfind_byte(u, 46) {
        Some(p) => u.skip(p + 1),
        None => u,
    }
}

/// Content type served for a target, by its file extension; the
/// root target is HTML and unknown extensions map to `none`.
pub open spec fn content_type_bytes(u: Seq<u8>) -> Seq<u8> {
    if u == ascii_bytes("/"@) {
        ascii_bytes("text/html; charset=utf-8"@)
    } else {
        let e = ext_of(u);
        if e == ascii_bytes("txt"@) {
            ascii_bytes("text/plain; charset=utf-8"@)
        } else if e == ascii_bytes("html"@) {
            ascii_bytes("text/html; charset=utf-8"@)
        } else if e == ascii_bytes("png"@) {
            ascii_bytes("image/png;"@)
        } else if e == ascii_bytes("jpeg"@) {
            ascii_bytes("image/jpg;"@)
        } else if e == ascii_bytes("jpg"@) {
            ascii_bytes("image/jpg;"@)
        } else if e == ascii_bytes("js"@) {
            ascii_bytes("text/javascript; charset=utf-8"@)
        } else if e == ascii_bytes("ico"@) {
            ascii_bytes("image/icone"@)
        } else {
            ascii_bytes("none"@)
        }
    }
}

/// Content type served for a target.
pub fn get_content_type(uri: &[u8]) -> (r: Vec<u8>)
    ensures
        r@ == content_type_bytes(uri@),
{
    proof {
        reveal_strlit("/");
        reveal_strlit("txt");
        reveal_strlit("html");
        reveal_strlit("png");
        reveal_strlit("jpeg");
        reveal_strlit("jpg");
        reveal_strlit("js");
        reveal_strlit("ico");
        reveal_strlit("text/plain; charset=utf-8");
        reveal_strlit("text/html; charset=utf-8");
        reveal_strlit("image/png;");
        reveal_strlit("image/jpg;");
        reveal_strlit("text/javascript; charset=utf-8");
        reveal_strlit("image/icone");
        reveal_strlit("none");
    }
    let root = scan::lit_bytes("/");
    if scan::bytes_eq(uri, root.as_slice()) {
        return scan::lit_bytes("text/html; charset=utf-8");
    }
    let n = uri.len();
    let ext: &[u8] = match scan::rfind(uri, 46) {
        Some(p) => vstd::slice::slice_subrange(uri, p + 1, n),
        None => uri,
    };
    proof {
        assert(ext@ =~= ext_of(uri@));
    }
    if scan::bytes_eq(ext, scan::lit_bytes("txt").as_slice()) {
        scan::lit_bytes("text/plain; charset=utf-8")
    } else if scan::bytes_eq(ext, scan::lit_bytes("html").as_slice()) {
        scan::lit_bytes("text/html; charset=utf-8")
    } else if scan::bytes_eq(ext, scan::lit_bytes("png").as_slice()) {
        scan::lit_bytes("image/png;")
    } else if scan::bytes_eq(ext, scan::lit_bytes("jpeg").as_slice()) {
        scan::lit_bytes("image/jpg;")
    } else if scan::bytes_eq(ext, scan::lit_bytes("jpg").as_slice()) {
        scan::lit_bytes("image/jpg;")
    } else if scan::bytes_eq(ext, scan::lit_bytes("js").as_slice()) {
        scan::lit_bytes("text/javascript; charset=utf-8")
    } else if scan::bytes_eq(ext, scan::lit_bytes("ico").as_slice()) {
        scan::lit_bytes("image/icone")
    } else {
        scan::lit_bytes("none")
    }
}

/// The error page served for a status code.
pub open spec fn error_page_bytes(code: u32) -> Seq<u8> {
    if code == 400 {
        ascii_bytes("400.html"@)
    } else if code == 404 {
        ascii_bytes("404.html"@)
    } else if code == 415 {
        ascii_bytes("415.html"@)
    } else {
        ascii_bytes("500.html"@)
    }
}

/// The error page served for a status code.
pub fn error_page(code: u32) -> (r: Vec<u8>)
    ensures
        r@ == error_page_bytes(code),
{
    proof {
        reveal_strlit("400.html");
        reveal_strlit("404.html");
        reveal_strlit("415.html");
        reveal_strlit("500.html");
    }
    if code == 400 {
        scan::lit_bytes("400.html")
    } else if code == 404 {
        scan::lit_bytes("404.html")
    } else if code == 415 {
        scan::lit_bytes("415.html")
    } else {
        scan::lit_bytes("500.html")
    }
}

/// The filesystem path a target is served from: the document root's
/// index for `/`, otherwise the target under the document root.
pub fn resource_path(uri: &[u8]) -> (r: Vec<u8>)
    ensures
        r@ == (if uri@ == ascii_bytes("/"@) {
            ascii_bytes("./html/index.html"@)
        } else {
            ascii_bytes("./html/"@) + uri@
        }),
{
    proof {
        reveal_strlit("/");
        reveal_strlit("./html/index.html");
        reveal_strlit("./html/");
    }
    let root = scan::lit_bytes("/");
    if scan::bytes_eq(uri, root.as_slice()) {
        scan::lit_bytes("./html/index.html")
    } else {
        let mut out = scan::lit_bytes("./html/");
        out.extend_from_slice(uri);
        out
    }
}

/// A response head: status code, protocol version and headers,
/// constructed per response and serialized immediately.
pub struct ResponseHead {
    pub status: u16,
    pub version: Vec<u8>,
    pub headers: HeaderMap,
}

impl ResponseHead {
    /// Builds a response head from its parts.
    pub fn new(status: u16, version: Vec<u8>, headers: HeaderMap) -> (r: ResponseHead)
        ensures
            r.status == status,
            r.version@ == version@,
            r.headers@ == headers@,
    {
        ResponseHead { status, version, headers }
    }
}

} // verus!
