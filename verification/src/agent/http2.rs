//! HTTP/2 traffic: which streams are opened and what they carry.
use crate::capture::segments::ReplayTurn;
use crate::domain::scenario::Scenario;
use crate::text::{append, chars_of, copy, decimal_number, parse_decimal};
use vstd::prelude::*;

verus! {

/// The most bytes of a body that are sent at a time.
pub const MAX_DATA_BYTES: usize = 16 * 1024;

/// Another stream may be opened: the worker is enabled, the streams are fewer than may run at
/// once, and the connection has not had all its transactions. A limit of zero is none.
pub open spec fn may_launch(
    enabled: bool,
    running: int,
    concurrency: int,
    maximum: int,
    launched: int,
) -> bool {
    enabled && running < concurrency && (maximum == 0 || launched < maximum)
}

/// Whether another stream may be opened.
pub fn can_launch(enabled: bool, running: usize, concurrency: usize, maximum: u64, launched: u64) -> (r:
    bool)
    ensures
        r == may_launch(
            enabled,
            running as int,
            concurrency as int,
            maximum as int,
            launched as int,
        ),
{
    enabled && running < concurrency && (maximum == 0 || launched < maximum)
}

/// Whether a connection goes on: a stream may still be opened or one is still running.
pub fn goes_on(enabled: bool, running: usize, maximum: u64, launched: u64) -> (r: bool)
    ensures
        r == ((enabled && (maximum == 0 || launched < maximum)) || running > 0),
{
    (enabled && (maximum == 0 || launched < maximum)) || running > 0
}

/// The turns of a replay that the stream after `launched` others carries: those of a request and
/// of its response. The turns are cycled through.
pub fn stream_turns(turns: &Vec<ReplayTurn>, launched: u64) -> (r: (usize, usize))
    requires
        turns@.len() > 0,
        launched * 2 + 1 <= u64::MAX,
    ensures
        r.0 == (launched * 2) % (turns@.len() as int),
        r.1 == (launched * 2 + 1) % (turns@.len() as int),
        r.0 < turns@.len(),
        r.1 < turns@.len(),
{
    let count: u64 = turns.len() as u64;
    let first: u64 = (launched * 2) % count;
    let second: u64 = (launched * 2 + 1) % count;
    (first as usize, second as usize)
}

/// How much capacity to ask for.
pub fn wanted_capacity(remaining: usize) -> (r: usize)
    ensures
        r == (if remaining < MAX_DATA_BYTES {
            remaining as int
        } else {
            MAX_DATA_BYTES as int
        }),
{
    if remaining < MAX_DATA_BYTES {
        remaining
    } else {
        MAX_DATA_BYTES
    }
}

/// How many bytes of a body to send with this much capacity: as many as fit, and never more than
/// remain.
pub fn data_size(capacity: usize, remaining: usize) -> (r: usize)
    ensures
        r <= capacity,
        r <= remaining,
        r <= MAX_DATA_BYTES,
        r == capacity || r == remaining || r == MAX_DATA_BYTES,
{
    let mut size: usize = capacity;
    if size > MAX_DATA_BYTES {
        size = MAX_DATA_BYTES;
    }
    if size > remaining {
        size = remaining;
    }
    size
}

/// The address of a request.
pub fn request_uri(scenario: &Scenario) -> (r: String)
    ensures
        r@ == "https://"@ + scenario.request.host@ + scenario.request.path@,
{
    let mut uri = copy("https://");
    append(&mut uri, scenario.request.host.as_str());
    append(&mut uri, scenario.request.path.as_str());
    uri
}

/// What a response carries.
#[derive(Debug, Clone, Copy, PartialEq, Eq, Structural)]
pub enum Http2Body {
    Empty,
    /// The response of the replayed flow.
    Replay,
    /// The response payload.
    Payload,
    /// Zero bytes.
    Zeroes,
}

/// The number of bytes that a request asks for, or those of the response payload where it does
/// not say.
pub open spec fn asked_length(header: Option<Seq<char>>, payload_len: int) -> int {
    match header {
        Some(text) => match decimal_number(text, usize::MAX as int) {
            Some(length) => length,
            None => payload_len,
        },
        None => payload_len,
    }
}

/// The length of a response and what it carries: the replayed response or the payload if it has
/// that length.
pub fn response_body(header: Option<&str>, replay_len: Option<usize>, payload_len: usize) -> (r: (
    usize,
    Http2Body,
))
    ensures
        r.0 == asked_length(
            match header {
                Some(text) => Some(text@),
                None => None,
            },
            payload_len as int,
        ),
        r.1 == (if r.0 == 0 {
            Http2Body::Empty
        } else if replay_len == Some(r.0) {
            Http2Body::Replay
        } else if r.0 == payload_len {
            Http2Body::Payload
        } else {
            Http2Body::Zeroes
        }),
{
    let length: usize = match header {
        Some(text) => {
            let chars = chars_of(text);
            match parse_decimal(chars.as_slice(), usize::MAX as u64) {
                Some(length) => length as usize,
                None => payload_len,
            }
        },
        None => payload_len,
    };
    let replays: bool = match replay_len {
        Some(n) => n == length,
        None => false,
    };
    let body = if length == 0 {
        Http2Body::Empty
    } else if replays {
        Http2Body::Replay
    } else if length == payload_len {
        Http2Body::Payload
    } else {
        Http2Body::Zeroes
    };
    (length, body)
}

/// The protocols that TLS offers: `h2` for HTTP/2, none otherwise. Says whether the one that was
/// agreed on will do.
pub fn protocol_agreed(http2: bool, agreed: Option<&[u8]>) -> (r: bool)
    ensures
        r == (!http2 || (agreed is Some && agreed->0@ == seq![0x68u8, 0x32u8])),
{
    if !http2 {
        return true;
    }
    match agreed {
        Some(name) => {
            let h2: [u8; 2] = [0x68, 0x32];
            assert(h2@ =~= seq![0x68u8, 0x32u8]);
            crate::bytes::equal(name, h2.as_slice())
        },
        None => false,
    }
}

} // verus!
