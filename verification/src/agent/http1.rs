//! HTTP/1.1 traffic: the messages that are sent and how those that arrive are told apart.
use crate::agent::exchange::{holds, is_one_line, one_line_targets, requests_are_understood};
use crate::bytes::{
    ascii, ascii_bytes, find, find_byte, find_from, next_sep, occurs_at, starts_with,
};
use crate::capture::http::head_end_mark;
use crate::domain::scenario::Scenario;
use crate::text::{
    append, char_views, chars_of, copy, decimal, decimal_number, find_char, lines, lines_of,
    lossy_text, lowered, next_char, parse_decimal, push_decimal, same_lowered, trim_chars, trimmed,
    utf8_lossy,
};
use vstd::prelude::*;
use vstd::utf8::{decode_utf8, valid_utf8};

verus! {

/// The most bytes that are read in search of the end of a message head.
pub const MAX_HEAD_BYTES: usize = 64 * 1024;

/// A header line has a field, up to case.
pub open spec fn line_has(line: Seq<char>, name: Seq<char>) -> bool {
    let colon = next_char(line, ':', 0);
    colon < line.len() && lowered(line.subrange(0, colon)) == lowered(name)
}

/// What stands behind the colon of a header line, without the white space around it.
pub open spec fn line_rest(line: Seq<char>) -> Seq<char> {
    trimmed(line.subrange(next_char(line, ':', 0) + 1, line.len() as int))
}

/// The value of the first line at or after `from` that has a field.
pub open spec fn text_value(list: Seq<Seq<char>>, name: Seq<char>, from: int) -> Option<Seq<char>>
    decreases list.len() - from,
{
    if from >= list.len() {
        None
    } else if line_has(list[from], name) {
        Some(line_rest(list[from]))
    } else {
        text_value(list, name, from + 1)
    }
}

/// The number that a header field of a message has.
pub open spec fn numeric_value(text: Seq<char>, name: Seq<char>) -> Option<int> {
    match text_value(lines(text), name, 0) {
        Some(value) => decimal_number(value, usize::MAX as int),
        None => None,
    }
}

/// A header field of a message has a value, up to case. Every line that has the field counts.
pub open spec fn has_value(text: Seq<char>, name: Seq<char>, expected: Seq<char>) -> bool {
    exists|i: int|
        0 <= i < lines(text).len() && line_has(#[trigger] lines(text)[i], name) && lowered(
            line_rest(lines(text)[i]),
        ) == lowered(expected)
}

/// The number that a header field has in a text of header lines.
pub fn numeric_header_in(text: &str, name: &str) -> (r: Option<usize>)
    ensures
        match r {
            Some(v) => numeric_value(text@, name@) == Some(v as int),
            None => numeric_value(text@, name@) is None,
        },
{
    let chars = chars_of(text);
    let wanted = chars_of(name);
    let list = lines_of(chars.as_slice());
    let ghost views = lines(text@);
    assert(char_views(list@) == views);
    assert(list@.len() == views.len());
    let mut i: usize = 0;
    while i < list.len()
        invariant
            chars@ == text@,
            wanted@ == name@,
            views == lines(text@),
            char_views(list@) == views,
            list@.len() == views.len(),
            text_value(views, name@, 0) == text_value(views, name@, i as int),
        decreases list@.len() - i,
    {
        let line: &[char] = list[i];
        assert(views[i as int] == char_views(list@)[i as int]);
        assert(views[i as int] == line@);
        let colon: usize = find_char(line, ':', 0);
        if colon < line.len() && same_lowered(&line[0..colon], wanted.as_slice()) {
            let value = trim_chars(&line[colon + 1..line.len()]);
            return match parse_decimal(value, usize::MAX as u64) {
                Some(v) => Some(v as usize),
                None => None,
            };
        }
        i += 1;
    }
    None
}

/// Whether a header field has a value in a text of header lines, up to case.
pub fn header_equals_in(text: &str, name: &str, expected: &str) -> (r: bool)
    ensures
        r == has_value(text@, name@, expected@),
{
    let chars = chars_of(text);
    let wanted = chars_of(name);
    let value = chars_of(expected);
    let list = lines_of(chars.as_slice());
    let ghost views = lines(text@);
    assert(char_views(list@) == views);
    assert(list@.len() == views.len());
    let mut i: usize = 0;
    while i < list.len()
        invariant
            chars@ == text@,
            wanted@ == name@,
            value@ == expected@,
            views == lines(text@),
            char_views(list@) == views,
            list@.len() == views.len(),
            i <= views.len(),
            forall|j: int|
                0 <= j < i ==> !(line_has(#[trigger] views[j], name@) && lowered(
                    line_rest(views[j]),
                ) == lowered(expected@)),
        decreases list@.len() - i,
    {
        let line: &[char] = list[i];
        assert(views[i as int] == char_views(list@)[i as int]);
        assert(views[i as int] == line@);
        let colon: usize = find_char(line, ':', 0);
        if colon < line.len() && same_lowered(&line[0..colon], wanted.as_slice()) {
            if same_lowered(trim_chars(&line[colon + 1..line.len()]), value.as_slice()) {
                assert(line_has(lines(text@)[i as int], name@));
                return true;
            }
        }
        i += 1;
    }
    false
}

/// The number that a header field of a message head has.
pub fn parse_numeric_header(raw: &[u8], name: &str) -> (r: Option<usize>)
    ensures
        match r {
            Some(v) => numeric_value(utf8_lossy(raw@), name@) == Some(v as int),
            None => numeric_value(utf8_lossy(raw@), name@) is None,
        },
        valid_utf8(raw@) ==> match r {
            Some(v) => numeric_value(decode_utf8(raw@), name@) == Some(v as int),
            None => numeric_value(decode_utf8(raw@), name@) is None,
        },
{
    let text = lossy_text(raw);
    numeric_header_in(text.as_str(), name)
}

/// Whether a header field of a message head has a value, up to case.
pub fn header_equals(raw: &[u8], name: &str, expected: &str) -> (r: bool)
    ensures
        r == has_value(utf8_lossy(raw@), name@, expected@),
        valid_utf8(raw@) ==> r == has_value(decode_utf8(raw@), name@, expected@),
{
    let text = lossy_text(raw);
    header_equals_in(text.as_str(), name, expected)
}

/// How far a message has been read.
#[derive(Debug, Clone, PartialEq, Eq)]
pub enum FrameState {
    /// The end of its head has not been seen.
    Head,
    /// Its head is known, and so is the length of its body.
    Body { head: Vec<u8>, body_len: usize },
}

/// What to do next to read a message.
#[derive(Debug, Clone, PartialEq, Eq)]
pub enum FrameStep {
    /// More bytes are needed.
    More(FrameState),
    /// The message is complete: its head and the length of its body.
    Message(Vec<u8>, usize),
    /// The head is too long.
    TooLarge,
}

/// The head of a message and the length of its body, once the end of the head is among the bytes
/// that have arrived.
pub open spec fn head_of(pending: Seq<u8>) -> Option<(Seq<u8>, int)> {
    match find_from(pending, head_end_mark(), 0) {
        Some(p) => {
            let head = pending.subrange(0, p + 4);
            let length = match numeric_value(utf8_lossy(head), "content-length"@) {
                Some(length) => length,
                None => 0,
            };
            Some((head, length))
        },
        None => None,
    }
}

/// The bytes of a complete message are taken from the front of those that have arrived, and all
/// that follow stay: a message that was sent behind it is not lost.
pub open spec fn body_step(
    step: FrameStep,
    rest: Seq<u8>,
    pending: Seq<u8>,
    head: Seq<u8>,
    body_len: int,
) -> bool {
    if pending.len() < body_len {
        &&& step matches FrameStep::More(FrameState::Body { head: h, body_len: n }) && h@ == head
            && n == body_len
        &&& rest == pending
    } else {
        &&& step matches FrameStep::Message(h, n) && h@ == head && n == body_len
        &&& rest == pending.subrange(body_len, pending.len() as int)
    }
}

proof fn found_in_front(s: Seq<u8>, more: Seq<u8>, pattern: Seq<u8>, start: int)
    requires
        0 <= start,
        find_from(s, pattern, start) is Some,
    ensures
        find_from(s + more, pattern, start) == find_from(s, pattern, start),
    decreases s.len() - start,
{
    let p = find_from(s, pattern, start)->0;
    if start + pattern.len() <= s.len() {
        assert((s + more).subrange(start, start + pattern.len()) =~= s.subrange(
            start,
            start + pattern.len(),
        ));
    }
    if !occurs_at(s, pattern, start) {
        found_in_front(s, more, pattern, start + 1);
    }
}

/// What follows a message does not change how it is read: a head that is complete is the same
/// whatever was sent behind it.
pub proof fn later_bytes_do_not_change_a_message(head: Seq<u8>, more: Seq<u8>)
    requires
        head_of(head) is Some,
    ensures
        head_of(head + more) == head_of(head),
{
    found_in_front(head, more, head_end_mark(), 0);
    let p = find_from(head, head_end_mark(), 0)->0;
    crate::bytes::find_from_is_first(head, head_end_mark(), 0);
    assert((head + more).subrange(0, p + 4) =~= head.subrange(0, p + 4));
}

/// Looks whether the bytes that have arrived hold a message.
pub fn read_frame(state: FrameState, pending: &mut Vec<u8>, max_head: usize) -> (r: FrameStep)
    ensures
        match state {
            FrameState::Head => match head_of(old(pending)@) {
                Some((head, body_len)) => body_step(
                    r,
                    final(pending)@,
                    old(pending)@.subrange(head.len() as int, old(pending)@.len() as int),
                    head,
                    body_len,
                ),
                None => {
                    &&& final(pending)@ == old(pending)@
                    &&& if old(pending)@.len() > max_head {
                        r == FrameStep::TooLarge
                    } else {
                        r == FrameStep::More(FrameState::Head)
                    }
                },
            },
            FrameState::Body { head, body_len } => body_step(
                r,
                final(pending)@,
                old(pending)@,
                head@,
                body_len as int,
            ),
        },
        match r {
            FrameStep::Message(h, n) => state is Head && valid_utf8(h@) ==> n == (
            match numeric_value(decode_utf8(h@), "content-length"@) {
                Some(length) => length,
                None => 0,
            }),
            _ => true,
        },
{
    let ghost before = pending@;
    let (head, body_len): (Vec<u8>, usize) = match state {
        FrameState::Body { head, body_len } => (head, body_len),
        FrameState::Head => {
            let end_mark: [u8; 4] = [0x0d, 0x0a, 0x0d, 0x0a];
            assert(end_mark@ =~= head_end_mark());
            let end: usize = match find(pending.as_slice(), end_mark.as_slice(), 0) {
                Some(p) => p + 4,
                None => {
                    if pending.len() > max_head {
                        return FrameStep::TooLarge;
                    }
                    return FrameStep::More(FrameState::Head);
                },
            };
            let mut head: Vec<u8> = Vec::new();
            let mut rest = pending.split_off(end);
            head.append(pending);
            pending.append(&mut rest);
            assert(head@ =~= before.subrange(0, end as int));
            assert(pending@ =~= before.subrange(end as int, before.len() as int));
            let length: usize = match parse_numeric_header(head.as_slice(), "content-length") {
                Some(length) => length,
                None => 0,
            };
            (head, length)
        },
    };
    if pending.len() < body_len {
        return FrameStep::More(FrameState::Body { head, body_len });
    }
    let ghost whole = pending@;
    let mut rest = pending.split_off(body_len);
    pending.clear();
    pending.append(&mut rest);
    assert(pending@ =~= whole.subrange(body_len as int, whole.len() as int));
    FrameStep::Message(head, body_len)
}

/// What is said when a connection ends while a message is read.
pub fn closed_message(state: &FrameState) -> (r: String)
    ensures
        match state {
            FrameState::Head => r@ == "connection closed before HTTP message"@,
            FrameState::Body { .. } => r@ == "connection closed before HTTP body"@,
        },
{
    match state {
        FrameState::Head => copy("connection closed before HTTP message"),
        FrameState::Body { .. } => copy("connection closed before HTTP body"),
    }
}

/// The target of a request: the path, with scheme and address before it in absolute form.
pub open spec fn target_text(path: Seq<char>, origin: Option<Seq<char>>) -> Seq<char> {
    match origin {
        Some(address) => "http://"@ + address + path,
        None => path,
    }
}

/// This is the last transaction of its connection.
pub open spec fn is_last(limit: u32, index: u32) -> bool {
    limit > 0 && index + 1 == limit
}

/// What a request says of its connection.
pub open spec fn connection_word(keep_alive: bool) -> Seq<char> {
    if keep_alive {
        "keep-alive"@
    } else {
        "close"@
    }
}

/// The head of a request.
pub open spec fn request_text(
    scenario: Scenario,
    target: Seq<char>,
    keep_alive: bool,
    request_len: int,
    response_len: int,
) -> Seq<char> {
    scenario.request.method@ + " "@ + target + " HTTP/1.1\r\nHost: "@ + scenario.request.host@
        + "\r\nConnection: "@ + connection_word(keep_alive) + "\r\nContent-Length: "@ + decimal(
        request_len,
    ) + "\r\nX-Response-Bytes: "@ + decimal(response_len) + "\r\n\r\n"@
}

/// Whether this is the last transaction of its connection.
pub fn is_last_transaction(limit: u32, index: u32) -> (r: bool)
    ensures
        r == is_last(limit, index),
{
    limit > 0 && index == limit - 1
}

/// Whether a connection has had all its transactions. A limit of zero is none.
pub fn connection_is_done(limit: u32, index: u32) -> (r: bool)
    ensures
        r == (limit > 0 && index >= limit),
{
    limit > 0 && index >= limit
}

/// The head of the request of a transaction. The connection is kept for the next one if the
/// scenario says so and there is one.
pub fn request_head(
    scenario: &Scenario,
    origin: Option<&str>,
    index: u32,
    request_len: usize,
    response_len: usize,
) -> (r: String)
    ensures
        r@ == request_text(
            *scenario,
            target_text(
                scenario.request.path@,
                match origin {
                    Some(address) => Some(address@),
                    None => None,
                },
            ),
            scenario.request.keep_alive && !is_last(
                scenario.request.transactions_per_connection,
                index,
            ),
            request_len as int,
            response_len as int,
        ),
        is_one_line(scenario.request.method@) && !holds(scenario.request.method@, ':')
            && is_one_line(scenario.request.path@) && is_one_line(scenario.request.host@) && (
        origin is Some ==> is_one_line(origin->0@)) ==> {
            &&& numeric_value(r@, "content-length"@) == Some(request_len as int)
            &&& numeric_value(r@, "x-response-bytes"@) == Some(response_len as int)
            &&& has_value(r@, "connection"@, "keep-alive"@) == (scenario.request.keep_alive
                && !is_last(scenario.request.transactions_per_connection, index))
        },
{
    let mut text = copy(scenario.request.method.as_str());
    append(&mut text, " ");
    let mut target = String::new();
    match origin {
        Some(address) => {
            append(&mut target, "http://");
            append(&mut target, address);
            append(&mut target, scenario.request.path.as_str());
            assert(target@ =~= "http://"@ + address@ + scenario.request.path@);
        },
        None => {
            append(&mut target, scenario.request.path.as_str());
            assert(target@ =~= scenario.request.path@);
        },
    }
    append(&mut text, target.as_str());
    append(&mut text, " HTTP/1.1\r\nHost: ");
    append(&mut text, scenario.request.host.as_str());
    append(&mut text, "\r\nConnection: ");
    if scenario.request.keep_alive && !is_last_transaction(
        scenario.request.transactions_per_connection,
        index,
    ) {
        append(&mut text, "keep-alive");
    } else {
        append(&mut text, "close");
    }
    append(&mut text, "\r\nContent-Length: ");
    push_decimal(&mut text, request_len as u64);
    append(&mut text, "\r\nX-Response-Bytes: ");
    push_decimal(&mut text, response_len as u64);
    append(&mut text, "\r\n\r\n");
    proof {
        if is_one_line(scenario.request.method@) && !holds(scenario.request.method@, ':')
            && is_one_line(scenario.request.path@) && is_one_line(scenario.request.host@) && (
        origin is Some ==> is_one_line(origin->0@)) {
            one_line_targets(
                scenario.request.path@,
                match origin {
                    Some(address) => Some(address@),
                    None => None,
                },
            );
            requests_are_understood(
                *scenario,
                target@,
                scenario.request.keep_alive && !is_last(
                    scenario.request.transactions_per_connection,
                    index,
                ),
                request_len as int,
                response_len as int,
            );
        }
    }
    text
}

/// The second field of a message head, as spaces separate them; empty where there is none.
pub open spec fn status_field(head: Seq<u8>) -> Seq<u8> {
    let a = next_sep(head, 0x20, 0);
    if a < head.len() {
        head.subrange(a + 1, next_sep(head, 0x20, a + 1))
    } else {
        Seq::empty()
    }
}

/// What is said of a response whose status is no success.
pub open spec fn response_problem(head: Seq<u8>) -> Option<Seq<char>> {
    if occurs_at(head, ascii("HTTP/1.1 2"@), 0) {
        None
    } else {
        Some("HTTP error response "@ + utf8_lossy(status_field(head)))
    }
}

/// Whether a response is a success, or what is said of it.
pub fn check_response(head: &[u8]) -> (r: Result<(), String>)
    ensures
        match r {
            Ok(_) => response_problem(head@) is None,
            Err(message) => response_problem(head@) == Some(message@),
        },
{
    proof {
        reveal_strlit("HTTP/1.1 2");
    }
    if starts_with(head, ascii_bytes("HTTP/1.1 2")) {
        return Ok(());
    }
    let mut message = copy("HTTP error response ");
    let a: usize = find_byte(head, 0x20, 0);
    if a < head.len() {
        let b: usize = find_byte(head, 0x20, a + 1);
        let status = lossy_text(&head[a + 1..b]);
        append(&mut message, status.as_str());
    } else {
        let none: [u8; 0] = [];
        assert(none@ =~= Seq::empty());
        let status = lossy_text(none.as_slice());
        append(&mut message, status.as_str());
    }
    Err(message)
}

/// How a request is answered.
#[derive(Debug, Clone, PartialEq, Eq)]
pub struct HttpReply {
    pub head: String,
    /// How many bytes the body has.
    pub body_len: usize,
    /// Whether the body is the response payload; otherwise it is zero bytes.
    pub payload_body: bool,
    pub keep_alive: bool,
}

/// The head of a response.
pub open spec fn reply_text(body_len: int, keep_alive: bool) -> Seq<char> {
    "HTTP/1.1 200 OK\r\nContent-Length: "@ + decimal(body_len) + "\r\nConnection: "@
        + connection_word(keep_alive) + "\r\n\r\n"@
}

/// `reply` answers a request with these header lines: with as many bytes as it asks for, or those
/// of the response payload where it does not say.
pub open spec fn is_reply(reply: HttpReply, text: Seq<char>, payload_len: int) -> bool {
    &&& reply.body_len == (match numeric_value(text, "x-response-bytes"@) {
        Some(length) => length,
        None => payload_len,
    })
    &&& reply.keep_alive == has_value(text, "connection"@, "keep-alive"@)
    &&& reply.payload_body == (reply.body_len == payload_len)
    &&& reply.head@ == reply_text(reply.body_len as int, reply.keep_alive)
}

/// The answer to a request with these header lines.
pub fn reply_to(text: &str, payload_len: usize) -> (r: HttpReply)
    ensures
        is_reply(r, text@, payload_len as int),
{
    let body_len: usize = match numeric_header_in(text, "x-response-bytes") {
        Some(length) => length,
        None => payload_len,
    };
    let keep_alive: bool = header_equals_in(text, "connection", "keep-alive");
    let mut head = copy("HTTP/1.1 200 OK\r\nContent-Length: ");
    push_decimal(&mut head, body_len as u64);
    append(&mut head, "\r\nConnection: ");
    if keep_alive {
        append(&mut head, "keep-alive");
    } else {
        append(&mut head, "close");
    }
    append(&mut head, "\r\n\r\n");
    HttpReply { head, body_len, payload_body: body_len == payload_len, keep_alive }
}

/// The answer to a request with this head.
pub fn serve_request(head: &[u8], payload_len: usize) -> (r: HttpReply)
    ensures
        is_reply(r, utf8_lossy(head@), payload_len as int),
        valid_utf8(head@) ==> is_reply(r, decode_utf8(head@), payload_len as int),
{
    let text = lossy_text(head);
    reply_to(text.as_str(), payload_len)
}

/// How many of the remaining bytes are written or read at a time.
pub fn next_block(remaining: usize) -> (r: usize)
    ensures
        r == (if remaining < 65536 {
            remaining as int
        } else {
            65536
        }),
{
    if remaining < 65536 {
        remaining
    } else {
        65536
    }
}

} // verus!
