//! Incremental HTTP/1.1 request framing and connection lifecycle.
//!
//! The crate turns a raw, partially arrived byte stream into discrete
//! request frames and drives one connection through its
//! read / respond / keep-alive / close states:
//!
//! - [`frame`] detects where a complete header block ends inside a
//!   growing receive buffer;
//! - [`request`] parses a complete header block into a structured
//!   request head;
//! - [`engine`] owns the receive buffer and repeats
//!   detect -> parse -> body -> respond until the connection ends;
//! - [`response`] serializes a response head byte-for-byte;
//! - [`multipart`] splits a fully buffered body on a boundary token;
//! - [`packet`] is a lighter one-shot header parser over a whole block.
//!
//! All parsing works on plain bytes; socket I/O, the clock and the
//! receive buffer's storage are behind narrow trusted interfaces.

use vstd::prelude::*;

pub mod buffer;
pub mod clock;
pub mod engine;
pub mod frame;
pub mod headers;
pub mod multipart;
pub mod packet;
pub mod request;
pub mod response;
pub mod scan;

verus! {

/// Bytes of an ASCII character sequence, one byte per character.
///
/// Contracts use this to speak about string literals as byte
/// sequences, e.g. `ascii_bytes("close"@)`.
pub open spec fn ascii_bytes(s: Seq<char>) -> Seq<u8> {
    Seq::new(s.len(), |i: int| s[i] as u8)
}

/// The error taxonomy of the framing and lifecycle engine.
///
/// `Incomplete` is not a failure: it reports "need more bytes" and
/// drives the read loop. `MalformedInput` is the one hard parse
/// error; it is terminal for the connection, as are `PeerClosed` on
/// an unclean end of stream and `IoFailure` on a socket error.
/// `HandlerMiss` selects an error response without ending the
/// connection, and `DecodeFailure` reports a multipart body whose
/// structure violates the expected shape.
#[derive(Clone, Copy, Debug, PartialEq, Eq, Structural)]
pub enum HttpError {
    Incomplete,
    MalformedInput,
    PeerClosed,
    IoFailure,
    HandlerMiss,
    DecodeFailure,
}

} // verus!
