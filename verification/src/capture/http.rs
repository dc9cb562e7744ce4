//! Messages and transactions of a plain HTTP/1.1 byte stream.
use crate::bytes::{
    ascii, ascii_bytes, contents, eq_ignore_case, equal, fields, find, find_byte, find_from,
    matches_at, next_sep, number, occurs_at, parse_number, same_ignoring_case, split, starts_with,
    trim, trim_ascii,
};
use vstd::prelude::*;

verus! {

/// A request together with the response that answers it.
#[derive(Debug, Clone, PartialEq, Eq)]
pub struct HttpTransaction {
    pub request: Vec<u8>,
    pub response: Vec<u8>,
}

/// What a request over HTTP/2 and its response carry.
#[derive(Debug, Clone, PartialEq, Eq)]
pub struct Http2Transaction {
    pub request_body: Vec<u8>,
    pub response_body: Vec<u8>,
}

impl View for Http2Transaction {
    type V = (Seq<u8>, Seq<u8>);

    open spec fn view(&self) -> (Seq<u8>, Seq<u8>) {
        (self.request_body@, self.response_body@)
    }
}

/// What a list of transactions over HTTP/2 carries.
pub open spec fn http2_views(list: Seq<Http2Transaction>) -> Seq<(Seq<u8>, Seq<u8>)> {
    list.map_values(|t: Http2Transaction| t@)
}

/// Which side of a connection a message comes from.
#[derive(Debug, Clone, Copy, PartialEq, Eq, Structural)]
pub enum HttpMessageKind {
    Request,
    Response,
}

/// The end of a line.
pub open spec fn crlf() -> Seq<u8> {
    seq![0x0du8, 0x0au8]
}

/// The end of a message head: the end of its last line and an empty line.
pub open spec fn head_end_mark() -> Seq<u8> {
    seq![0x0du8, 0x0au8, 0x0du8, 0x0au8]
}

/// A request line: a method of upper-case letters and hyphens, a target that is not empty and
/// the version `HTTP/1.1`, with one space between them.
pub open spec fn is_request_line(line: Seq<u8>) -> bool {
    let parts = fields(line, 0x20);
    &&& parts.len() == 3
    &&& parts[0].len() > 0
    &&& forall|i: int|
        0 <= i < parts[0].len() ==> (0x41 <= #[trigger] parts[0][i] <= 0x5a || parts[0][i] == 0x2d)
    &&& parts[1].len() > 0
    &&& parts[2] == ascii("HTTP/1.1"@)
}

/// A status line: the version `HTTP/1.1`, a space and a status of three digits.
pub open spec fn is_status_line(line: Seq<u8>) -> bool {
    &&& occurs_at(line, ascii("HTTP/1.1 "@), 0)
    &&& line.len() >= 12
    &&& forall|i: int| 9 <= i < 12 ==> 0x30 <= #[trigger] line[i] <= 0x39
}

/// The status of a status line.
pub open spec fn status_of(line: Seq<u8>) -> int {
    (line[9] - 0x30) * 100 + (line[10] - 0x30) * 10 + (line[11] - 0x30)
}

/// A response with this status has no body: it is informational, 204 or 304.
pub open spec fn is_bodiless(line: Seq<u8>) -> bool {
    &&& line.len() >= 12
    &&& forall|i: int| 9 <= i < 12 ==> 0x30 <= #[trigger] line[i] <= 0x39
    &&& (100 <= status_of(line) <= 199 || status_of(line) == 204 || status_of(line) == 304)
}

/// A line without the carriage return at its end.
pub open spec fn chomp(line: Seq<u8>) -> Seq<u8> {
    if line.len() > 0 && line.last() == 0x0d {
        line.subrange(0, line.len() - 1)
    } else {
        line
    }
}

/// The value that a header line gives to the field `name`, with the white space around it
/// removed. Names are compared without regard to case.
pub open spec fn line_value(line: Seq<u8>, name: Seq<u8>) -> Option<Seq<u8>> {
    let text = chomp(line);
    let colon = next_sep(text, 0x3a, 0);
    if colon < text.len() && same_ignoring_case(text.subrange(0, colon), name) {
        Some(trim(text.subrange(colon + 1, text.len() as int)))
    } else {
        None
    }
}

/// The value of the first of the lines from `from` on that has the field `name`.
pub open spec fn value_in_lines(lines: Seq<Seq<u8>>, name: Seq<u8>, from: int) -> Option<Seq<u8>>
    decreases lines.len() - from,
{
    if from >= lines.len() {
        None
    } else {
        match line_value(lines[from], name) {
            Some(value) => Some(value),
            None => value_in_lines(lines, name, from + 1),
        }
    }
}

/// The value of the field `name` in a message head, whose first line holds no field.
pub open spec fn value_of(head: Seq<u8>, name: Seq<u8>) -> Option<Seq<u8>> {
    value_in_lines(fields(head, 0x0a), name, 1)
}

/// A list of fields separated by commas holds `token`, up to case and white space.
pub open spec fn holds_token(value: Seq<u8>, token: Seq<u8>) -> bool {
    exists|i: int| 0 <= i < fields(value, 0x2c).len() && is_token(fields(value, 0x2c)[i], token)
}

/// A field is `token`, up to case and white space.
pub open spec fn is_token(field: Seq<u8>, token: Seq<u8>) -> bool {
    same_ignoring_case(trim(field), token)
}

/// The field `name` of a message head lists `token`, up to case and white space.
pub open spec fn lists_token(head: Seq<u8>, name: Seq<u8>, token: Seq<u8>) -> bool {
    match value_of(head, name) {
        Some(value) => holds_token(value, token),
        None => false,
    }
}

/// The end of a chunked body that starts at `offset`: after the empty line behind the chunk of
/// length zero, or behind its trailer fields. There is none where a chunk is malformed or cut
/// off.
pub open spec fn chunks_end(stream: Seq<u8>, offset: int) -> Option<int>
    decreases stream.len() - offset,
{
    match find_from(stream, crlf(), offset) {
        Some(line_end) if 0 <= offset <= line_end => {
            let size_field = fields(stream.subrange(offset, line_end), 0x3b)[0];
            match number(trim(size_field), 16, usize::MAX as int) {
                None => None,
                Some(size) => {
                    let data = line_end + 2;
                    if size == 0 {
                        if occurs_at(stream, crlf(), data) {
                            Some(data + 2)
                        } else {
                            match find_from(stream, head_end_mark(), data) {
                                Some(p) => Some(p + 4),
                                None => None,
                            }
                        }
                    } else if size > 0 && occurs_at(stream, crlf(), data + size) {
                        chunks_end(stream, data + size + 2)
                    } else {
                        None
                    }
                },
            }
        },
        _ => None,
    }
}

/// The end of the message that starts at `offset`, where that message has a valid first line,
/// asks for no upgrade of the connection and says itself how long its body is. A request that
/// says nothing has no body; of a response that says nothing, the status decides.
pub open spec fn message_end(stream: Seq<u8>, offset: int, kind: HttpMessageKind) -> Option<int> {
    match find_from(stream, head_end_mark(), offset) {
        None => None,
        Some(p) => {
            let head_end = p + 4;
            let head = stream.subrange(offset, head_end);
            let first_line = head.subrange(0, find_from(head, crlf(), 0)->0);
            if kind == HttpMessageKind::Request && !is_request_line(first_line) {
                None
            } else if kind == HttpMessageKind::Response && !is_status_line(first_line) {
                None
            } else if value_of(head, ascii("upgrade"@)) is Some || lists_token(
                head,
                ascii("connection"@),
                ascii("upgrade"@),
            ) {
                None
            } else if lists_token(head, ascii("transfer-encoding"@), ascii("chunked"@)) {
                chunks_end(stream, head_end)
            } else {
                match value_of(head, ascii("content-length"@)) {
                    Some(value) => match number(trim(value), 10, usize::MAX as int) {
                        Some(length) if head_end + length <= stream.len() => Some(
                            head_end + length,
                        ),
                        _ => None,
                    },
                    None => if is_bodiless(first_line) || kind == HttpMessageKind::Request {
                        Some(head_end)
                    } else {
                        None
                    },
                }
            }
        },
    }
}

/// The messages of a stream from `offset` on. There are none unless every one of them ends
/// where it says, the last one at the end of the stream.
pub open spec fn messages_from(
    stream: Seq<u8>,
    offset: int,
    kind: HttpMessageKind,
) -> Option<Seq<Seq<u8>>>
    decreases stream.len() - offset,
{
    if offset >= stream.len() {
        Some(Seq::empty())
    } else {
        match message_end(stream, offset, kind) {
            Some(end) if offset < end <= stream.len() => match messages_from(stream, end, kind) {
                Some(rest) => Some(seq![stream.subrange(offset, end)] + rest),
                None => None,
            },
            _ => None,
        }
    }
}

/// The messages of a stream.
pub open spec fn messages(stream: Seq<u8>, kind: HttpMessageKind) -> Option<Seq<Seq<u8>>> {
    messages_from(stream, 0, kind)
}

/// The transactions of a connection: its requests and responses, paired in order. There are
/// none unless both streams consist of messages, as many on one side as on the other and at
/// least one.
pub open spec fn transactions(client: Seq<u8>, server: Seq<u8>) -> Option<
    Seq<(Seq<u8>, Seq<u8>)>,
> {
    match (messages(client, HttpMessageKind::Request), messages(server, HttpMessageKind::Response)) {
        (Some(requests), Some(responses)) => if requests.len() > 0 && requests.len()
            == responses.len() {
            Some(Seq::new(requests.len(), |i: int| (requests[i], responses[i])))
        } else {
            None
        },
        _ => None,
    }
}

impl View for HttpTransaction {
    type V = (Seq<u8>, Seq<u8>);

    open spec fn view(&self) -> (Seq<u8>, Seq<u8>) {
        (self.request@, self.response@)
    }
}

/// The contents of a list of transactions.
pub open spec fn transaction_views(list: Seq<HttpTransaction>) -> Seq<(Seq<u8>, Seq<u8>)> {
    list.map_values(|t: HttpTransaction| t@)
}

/// The contents of a list of byte vectors.
pub open spec fn vec_views(list: Seq<Vec<u8>>) -> Seq<Seq<u8>> {
    list.map_values(|v: Vec<u8>| v@)
}

/// The bytes of a list of messages, one after the other.
pub open spec fn joined(list: Seq<Seq<u8>>) -> Seq<u8>
    decreases list.len(),
{
    if list.len() == 0 {
        Seq::empty()
    } else {
        list[0] + joined(list.subrange(1, list.len() as int))
    }
}

/// The messages of a stream, put one after the other, are the stream: splitting loses,
/// reorders and repeats nothing. None of them is empty.
pub proof fn messages_make_up_the_stream(stream: Seq<u8>, kind: HttpMessageKind)
    requires
        messages(stream, kind) is Some,
    ensures
        joined(messages(stream, kind)->0) == stream,
        forall|i: int|
            0 <= i < messages(stream, kind)->0.len() ==> (#[trigger] messages(
                stream,
                kind,
            )->0[i]).len() > 0,
{
    messages_from_make_up_the_rest(stream, 0, kind);
    assert(stream.subrange(0, stream.len() as int) =~= stream);
}

proof fn messages_from_make_up_the_rest(stream: Seq<u8>, offset: int, kind: HttpMessageKind)
    requires
        0 <= offset <= stream.len(),
        messages_from(stream, offset, kind) is Some,
    ensures
        joined(messages_from(stream, offset, kind)->0) == stream.subrange(
            offset,
            stream.len() as int,
        ),
        forall|i: int|
            0 <= i < messages_from(stream, offset, kind)->0.len() ==> (#[trigger] messages_from(
                stream,
                offset,
                kind,
            )->0[i]).len() > 0,
    decreases stream.len() - offset,
{
    if offset < stream.len() {
        let end = message_end(stream, offset, kind)->0;
        let list = messages_from(stream, offset, kind)->0;
        let rest = messages_from(stream, end, kind)->0;
        messages_from_make_up_the_rest(stream, end, kind);
        assert(list.subrange(1, list.len() as int) =~= rest);
        assert(stream.subrange(offset, end) + stream.subrange(end, stream.len() as int)
            =~= stream.subrange(offset, stream.len() as int));
        assert forall|i: int| 0 <= i < list.len() implies (#[trigger] list[i]).len() > 0 by {
            if i > 0 {
                assert(list[i] == rest[i - 1]);
            }
        }
    }
}

/// Whether a line is a request line of HTTP/1.1.
pub fn valid_request_line(line: &[u8]) -> (r: bool)
    ensures
        r == is_request_line(line@),
{
    let parts = split(line, 0x20);
    let ghost views = fields(line@, 0x20);
    assert(contents(parts@) == views);
    assert(parts@.len() == views.len());
    if parts.len() != 3 {
        return false;
    }
    let method: &[u8] = parts[0];
    let target: &[u8] = parts[1];
    let version: &[u8] = parts[2];
    assert(contents(parts@)[0] == method@ && contents(parts@)[1] == target@ && contents(parts@)[2]
        == version@);
    if method.len() == 0 || target.len() == 0 {
        return false;
    }
    let mut i: usize = 0;
    while i < method.len()
        invariant
            i <= method@.len(),
            method@ == views[0],
            views == fields(line@, 0x20),
            forall|j: int|
                0 <= j < i ==> (0x41 <= #[trigger] views[0][j] <= 0x5a || views[0][j] == 0x2d),
        decreases method@.len() - i,
    {
        let b: u8 = method[i];
        if !(0x41 <= b && b <= 0x5a) && b != 0x2d {
            assert(views[0][i as int] == b);
            return false;
        }
        i += 1;
    }
    proof {
        reveal_strlit("HTTP/1.1");
    }
    equal(version, ascii_bytes("HTTP/1.1"))
}

/// Whether a line is a status line of HTTP/1.1.
pub fn valid_status_line(line: &[u8]) -> (r: bool)
    ensures
        r == is_status_line(line@),
{
    proof {
        reveal_strlit("HTTP/1.1 ");
    }
    if !starts_with(line, ascii_bytes("HTTP/1.1 ")) || line.len() < 12 {
        return false;
    }
    0x30 <= line[9] && line[9] <= 0x39 && 0x30 <= line[10] && line[10] <= 0x39 && 0x30 <= line[11]
        && line[11] <= 0x39
}

/// Whether a response that starts with this line has no body.
pub fn response_has_no_body(line: &[u8]) -> (r: bool)
    ensures
        r == is_bodiless(line@),
{
    if line.len() < 12 {
        return false;
    }
    let a: u8 = line[9];
    let b: u8 = line[10];
    let c: u8 = line[11];
    if !(0x30 <= a && a <= 0x39 && 0x30 <= b && b <= 0x39 && 0x30 <= c && c <= 0x39) {
        return false;
    }
    let status: u32 = (a - 0x30) as u32 * 100 + (b - 0x30) as u32 * 10 + (c - 0x30) as u32;
    (100 <= status && status <= 199) || status == 204 || status == 304
}

/// The value of the field `name` in a message head.
pub fn header_value<'a>(headers: &'a [u8], name: &[u8]) -> (r: Option<&'a [u8]>)
    ensures
        match r {
            Some(value) => value_of(headers@, name@) == Some(value@),
            None => value_of(headers@, name@) is None,
        },
{
    let lines = split(headers, 0x0a);
    let ghost views = fields(headers@, 0x0a);
    assert(contents(lines@) == views);
    assert(lines@.len() == views.len());
    let mut i: usize = 1;
    while i < lines.len()
        invariant
            1 <= i,
            contents(lines@) == views,
            lines@.len() == views.len(),
            views == fields(headers@, 0x0a),
            value_in_lines(views, name@, i as int) == value_of(headers@, name@),
        decreases lines@.len() - i,
    {
        let line: &[u8] = lines[i];
        assert(views[i as int] == contents(lines@)[i as int]);
        assert(views[i as int] == line@);
        let end: usize = if line.len() > 0 && line[line.len() - 1] == 0x0d {
            line.len() - 1
        } else {
            line.len()
        };
        let text: &[u8] = &line[0..end];
        assert(text@ =~= chomp(line@));
        let colon: usize = find_byte(text, 0x3a, 0);
        if colon < text.len() && eq_ignore_case(&text[0..colon], name) {
            return Some(trim_ascii(&text[colon + 1..text.len()]));
        }
        i += 1;
    }
    None
}

/// Whether a list of fields separated by commas holds `token`.
fn value_has_token(value: &[u8], token: &[u8]) -> (r: bool)
    ensures
        r == holds_token(value@, token@),
{
    let parts = split(value, 0x2c);
    let ghost views = fields(value@, 0x2c);
    assert(contents(parts@) == views);
    assert(parts@.len() == views.len());
    let mut i: usize = 0;
    while i < parts.len()
        invariant
            contents(parts@) == views,
            parts@.len() == views.len(),
            views == fields(value@, 0x2c),
            i <= views.len(),
            forall|j: int| 0 <= j < i ==> !is_token(#[trigger] views[j], token@),
        decreases parts@.len() - i,
    {
        let part: &[u8] = parts[i];
        assert(views[i as int] == contents(parts@)[i as int]);
        assert(views[i as int] == part@);
        if eq_ignore_case(trim_ascii(part), token) {
            assert(is_token(fields(value@, 0x2c)[i as int], token@));
            return true;
        }
        i += 1;
    }
    false
}

/// Whether the field `name` of a message head lists `token`.
pub fn header_has_token(headers: &[u8], name: &[u8], token: &[u8]) -> (r: bool)
    ensures
        r == lists_token(headers@, name@, token@),
{
    match header_value(headers, name) {
        None => false,
        Some(value) => value_has_token(value, token),
    }
}

/// The first field of a byte string.
proof fn first_field(s: Seq<u8>, sep: u8)
    ensures
        fields(s, sep).len() > 0,
        fields(s, sep)[0] == s.subrange(0, next_sep(s, sep, 0)),
{
    next_sep_bounds(s, sep, 0);
}

proof fn next_sep_bounds(s: Seq<u8>, sep: u8, start: int)
    requires
        0 <= start <= s.len(),
    ensures
        start <= next_sep(s, sep, start) <= s.len(),
    decreases s.len() - start,
{
    if start < s.len() && s[start] != sep {
        next_sep_bounds(s, sep, start + 1);
    }
}

/// The end of a chunked body that starts at `offset`.
pub fn chunked_end(stream: &[u8], offset: usize) -> (r: Option<usize>)
    requires
        offset <= stream@.len(),
    ensures
        match r {
            Some(end) => chunks_end(stream@, offset as int) == Some(end as int) && offset < end
                <= stream@.len(),
            None => chunks_end(stream@, offset as int) is None,
        },
{
    let line_mark: [u8; 2] = [0x0d, 0x0a];
    let end_mark: [u8; 4] = [0x0d, 0x0a, 0x0d, 0x0a];
    assert(line_mark@ =~= crlf());
    assert(end_mark@ =~= head_end_mark());
    let mut at: usize = offset;
    loop
        invariant
            line_mark@ == crlf(),
            end_mark@ == head_end_mark(),
            offset <= at <= stream@.len(),
            chunks_end(stream@, offset as int) == chunks_end(stream@, at as int),
        decreases stream@.len() - at,
    {
        let line_end: usize = match find(stream, line_mark.as_slice(), at) {
            Some(p) => p,
            None => {
                return None;
            },
        };
        let line: &[u8] = &stream[at..line_end];
        let field_end: usize = find_byte(line, 0x3b, 0);
        proof {
            first_field(line@, 0x3b);
        }
        let size: u64 = match parse_number(trim_ascii(&line[0..field_end]), 16, usize::MAX as u64) {
            Some(size) => size,
            None => {
                return None;
            },
        };
        let data: usize = line_end + 2;
        if size == 0 {
            if matches_at(stream, line_mark.as_slice(), data) {
                return Some(data + 2);
            }
            return match find(stream, end_mark.as_slice(), data) {
                Some(p) => Some(p + 4),
                None => None,
            };
        }
        if size > (stream.len() - data) as u64 {
            return None;
        }
        let next: usize = data + size as usize;
        if !matches_at(stream, line_mark.as_slice(), next) {
            return None;
        }
        at = next + 2;
    }
}

/// The end of the message that starts at `offset`.
fn find_message_end(stream: &[u8], offset: usize, kind: HttpMessageKind) -> (r: Option<usize>)
    requires
        offset < stream@.len(),
    ensures
        match r {
            Some(end) => message_end(stream@, offset as int, kind) == Some(end as int) && offset
                < end <= stream@.len(),
            None => message_end(stream@, offset as int, kind) is None,
        },
{
    let line_mark: [u8; 2] = [0x0d, 0x0a];
    let end_mark: [u8; 4] = [0x0d, 0x0a, 0x0d, 0x0a];
    assert(line_mark@ =~= crlf());
    assert(end_mark@ =~= head_end_mark());
    let head_end: usize = match find(stream, end_mark.as_slice(), offset) {
        Some(p) => p + 4,
        None => {
            return None;
        },
    };
    let headers: &[u8] = &stream[offset..head_end];
    proof {
        crate::bytes::find_from_is_first(stream@, head_end_mark(), offset as int);
        crate::bytes::find_from_is_first(headers@, crlf(), 0);
        let p = head_end - 4 - offset;
        assert(stream@.subrange(offset + p, offset + p + 4)[0] == 0x0d);
        assert(stream@.subrange(offset + p, offset + p + 4)[1] == 0x0a);
        assert(headers@.subrange(p, p + 2) =~= crlf());
        assert(occurs_at(headers@, crlf(), p));
    }
    let first_line_end: usize = match find(headers, line_mark.as_slice(), 0) {
        Some(p) => p,
        None => {
            return None;
        },
    };
    let first_line: &[u8] = &headers[0..first_line_end];
    let valid: bool = match kind {
        HttpMessageKind::Request => valid_request_line(first_line),
        HttpMessageKind::Response => valid_status_line(first_line),
    };
    if !valid {
        return None;
    }
    proof {
        reveal_strlit("upgrade");
        reveal_strlit("connection");
        reveal_strlit("transfer-encoding");
        reveal_strlit("chunked");
        reveal_strlit("content-length");
    }
    if header_value(headers, ascii_bytes("upgrade")).is_some() || header_has_token(
        headers,
        ascii_bytes("connection"),
        ascii_bytes("upgrade"),
    ) {
        return None;
    }
    if header_has_token(headers, ascii_bytes("transfer-encoding"), ascii_bytes("chunked")) {
        return chunked_end(stream, head_end);
    }
    match header_value(headers, ascii_bytes("content-length")) {
        Some(value) => match parse_number(trim_ascii(value), 10, usize::MAX as u64) {
            Some(length) => if length <= (stream.len() - head_end) as u64 {
                Some(head_end + length as usize)
            } else {
                None
            },
            None => None,
        },
        None => if response_has_no_body(first_line) || matches!(kind, HttpMessageKind::Request) {
            Some(head_end)
        } else {
            None
        },
    }
}

/// The messages of a stream, where it consists of complete ones.
pub fn split_http_messages(stream: &[u8], kind: HttpMessageKind) -> (r: Option<Vec<Vec<u8>>>)
    ensures
        match r {
            Some(list) => messages(stream@, kind) == Some(vec_views(list@)),
            None => messages(stream@, kind) is None,
        },
{
    let mut list: Vec<Vec<u8>> = Vec::new();
    let mut offset: usize = 0;
    assert(vec_views(list@) =~= Seq::<Seq<u8>>::empty());
    assert(messages(stream@, kind) is Some ==> vec_views(list@) + messages(stream@, kind)->0
        =~= messages(stream@, kind)->0);
    while offset < stream.len()
        invariant
            offset <= stream@.len(),
            match messages_from(stream@, offset as int, kind) {
                Some(rest) => messages(stream@, kind) == Some(vec_views(list@) + rest),
                None => messages(stream@, kind) is None,
            },
        decreases stream@.len() - offset,
    {
        let end: usize = match find_message_end(stream, offset, kind) {
            Some(end) => end,
            None => {
                return None;
            },
        };
        let ghost before = list@;
        let message = vstd::slice::slice_to_vec(&stream[offset..end]);
        list.push(message);
        proof {
            assert(vec_views(list@) =~= vec_views(before).push(
                stream@.subrange(offset as int, end as int),
            ));
            if let Some(rest) = messages_from(stream@, end as int, kind) {
                assert(vec_views(list@) + rest =~= vec_views(before) + (seq![
                    stream@.subrange(offset as int, end as int),
                ] + rest));
            }
        }
        offset = end;
    }
    assert(vec_views(list@) + Seq::<Seq<u8>>::empty() =~= vec_views(list@));
    Some(list)
}

/// The transactions of a connection, where both its streams consist of complete messages that
/// pair up.
pub fn extract_http_transactions(client_to_server: &[u8], server_to_client: &[u8]) -> (r: Option<
    Vec<HttpTransaction>,
>)
    ensures
        match r {
            Some(list) => transactions(client_to_server@, server_to_client@) == Some(
                transaction_views(list@),
            ),
            None => transactions(client_to_server@, server_to_client@) is None,
        },
{
    let requests = match split_http_messages(client_to_server, HttpMessageKind::Request) {
        Some(list) => list,
        None => {
            return None;
        },
    };
    let responses = match split_http_messages(server_to_client, HttpMessageKind::Response) {
        Some(list) => list,
        None => {
            return None;
        },
    };
    if requests.len() == 0 || requests.len() != responses.len() {
        return None;
    }
    let mut list: Vec<HttpTransaction> = Vec::new();
    let mut i: usize = 0;
    while i < requests.len()
        invariant
            i <= requests@.len(),
            requests@.len() == responses@.len(),
            list@.len() == i,
            forall|j: int|
                0 <= j < i ==> (#[trigger] list@[j])@ == (requests@[j]@, responses@[j]@),
        decreases requests@.len() - i,
    {
        let request = vstd::slice::slice_to_vec(requests[i].as_slice());
        let response = vstd::slice::slice_to_vec(responses[i].as_slice());
        list.push(HttpTransaction { request, response });
        i += 1;
    }
    assert(transaction_views(list@) =~= transactions(client_to_server@, server_to_client@)->0);
    Some(list)
}

} // verus!
