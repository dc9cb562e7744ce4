//! How a client connects: directly, or through a proxy.
use crate::bytes::{ascii, ascii_bytes, matches_at, occurs_at, starts_with};
use crate::capture::http::head_end_mark;
use crate::domain::scenario::{Protocol, Scenario, ScenarioPath};
use crate::text::{append, copy, decimal, lossy_text, push_decimal, utf8_lossy};
use vstd::prelude::*;

verus! {

/// The most bytes that the head of an answer to CONNECT may have.
pub const MAX_CONNECT_HEAD_BYTES: usize = 16 * 1024;

/// The address that a client connects to: that of the proxy, or else the target.
pub fn connect_address(scenario: &Scenario, target: &str) -> (r: String)
    ensures
        match scenario.path {
            ScenarioPath::ExplicitProxy { proxy_addr, .. } => r@ == proxy_addr@,
            ScenarioPath::ManagedDirect { .. } => r@ == target@,
        },
{
    match scenario.proxy_addr() {
        Some(proxy) => copy(proxy),
        None => copy(target),
    }
}

/// Which of the source addresses a connection uses: they take turns. There is none where there
/// are no addresses.
pub fn source_index(connection_index: u64, addresses: usize) -> (r: Option<usize>)
    ensures
        addresses == 0 <==> r is None,
        addresses > 0 ==> r is Some && r->0 == connection_index % (addresses as u64) && r->0
            < addresses,
{
    if addresses == 0 {
        return None;
    }
    let index: u64 = connection_index % (addresses as u64);
    Some(index as usize)
}

/// A client needs a tunnel through the proxy: for TLS, and for anything but plain HTTP/1.1.
pub open spec fn tunnel_needed(scenario: Scenario) -> bool {
    scenario.path is ExplicitProxy && (scenario.tls.enabled || scenario.protocol != Protocol::Http1)
}

/// Whether a client needs a tunnel through the proxy.
pub fn needs_tunnel(scenario: &Scenario) -> (r: bool)
    ensures
        r == tunnel_needed(*scenario),
{
    scenario.is_explicit_proxy() && (scenario.tls.enabled || scenario.protocol != Protocol::Http1)
}

/// The request for a tunnel.
pub open spec fn connect_text(target: Seq<char>) -> Seq<char> {
    "CONNECT "@ + target + " HTTP/1.1\r\nHost: "@ + target
        + "\r\nProxy-Connection: keep-alive\r\n\r\n"@
}

/// The request for a tunnel.
pub fn connect_request(target: &str) -> (r: String)
    ensures
        r@ == connect_text(target@),
{
    let mut text = copy("CONNECT ");
    append(&mut text, target);
    append(&mut text, " HTTP/1.1\r\nHost: ");
    append(&mut text, target);
    append(&mut text, "\r\nProxy-Connection: keep-alive\r\n\r\n");
    text
}

/// How far the head of an answer has been read.
#[derive(Debug, Clone, Copy, PartialEq, Eq, Structural)]
pub enum HeadStep {
    More,
    Complete,
    TooLarge,
}

/// The head of an answer is complete when it ends with an empty line, and too large when it has
/// reached the limit before that.
pub open spec fn head_step(head: Seq<u8>) -> HeadStep {
    if occurs_at(head, head_end_mark(), head.len() - 4) {
        HeadStep::Complete
    } else if head.len() >= MAX_CONNECT_HEAD_BYTES {
        HeadStep::TooLarge
    } else {
        HeadStep::More
    }
}

/// Adds one byte to the head of an answer.
pub fn push_head_byte(head: &mut Vec<u8>, byte: u8) -> (r: HeadStep)
    ensures
        final(head)@ == old(head)@.push(byte),
        r == head_step(final(head)@),
{
    head.push(byte);
    let end_mark: [u8; 4] = [0x0d, 0x0a, 0x0d, 0x0a];
    assert(end_mark@ =~= head_end_mark());
    if head.len() >= 4 && matches_at(head.as_slice(), end_mark.as_slice(), head.len() - 4) {
        return HeadStep::Complete;
    }
    if head.len() >= MAX_CONNECT_HEAD_BYTES {
        HeadStep::TooLarge
    } else {
        HeadStep::More
    }
}

/// What is said of a head that is too large.
pub fn head_too_large() -> (r: String)
    ensures
        r@ == "HTTP CONNECT response headers exceed "@ + decimal(MAX_CONNECT_HEAD_BYTES as int)
            + " bytes"@,
{
    let mut text = copy("HTTP CONNECT response headers exceed ");
    push_decimal(&mut text, MAX_CONNECT_HEAD_BYTES as u64);
    append(&mut text, " bytes");
    text
}

/// The first 128 bytes.
pub open spec fn excerpt(head: Seq<u8>) -> Seq<u8> {
    if head.len() > 128 {
        head.subrange(0, 128)
    } else {
        head
    }
}

/// What is said of an answer that grants no tunnel: its status is not 200.
pub open spec fn connect_problem(head: Seq<u8>) -> Option<Seq<char>> {
    if occurs_at(head, ascii("HTTP/1.1 200"@), 0) || occurs_at(head, ascii("HTTP/1.0 200"@), 0) {
        None
    } else {
        Some("CONNECT rejected with response "@ + utf8_lossy(excerpt(head)))
    }
}

/// Whether an answer grants a tunnel, or what is said of it.
pub fn check_connect(head: &[u8]) -> (r: Result<(), String>)
    ensures
        match r {
            Ok(_) => connect_problem(head@) is None,
            Err(message) => connect_problem(head@) == Some(message@),
        },
{
    proof {
        reveal_strlit("HTTP/1.1 200");
        reveal_strlit("HTTP/1.0 200");
    }
    if starts_with(head, ascii_bytes("HTTP/1.1 200")) || starts_with(
        head,
        ascii_bytes("HTTP/1.0 200"),
    ) {
        return Ok(());
    }
    let end: usize = if head.len() > 128 {
        128
    } else {
        head.len()
    };
    let part: &[u8] = &head[0..end];
    assert(part@ =~= excerpt(head@));
    let mut message = copy("CONNECT rejected with response ");
    let text = lossy_text(part);
    append(&mut message, text.as_str());
    Err(message)
}

} // verus!
