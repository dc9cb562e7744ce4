//! Messages that follow one another on a connection.
use crate::bytes::{ascii, fields, find_from, find_from_is_first, number, occurs_at, trim};
use crate::capture::http::{
    chunks_end, crlf, head_end_mark, lists_token, message_end, messages, messages_from,
    transactions, HttpMessageKind,
};
use vstd::prelude::*;

verus! {

/// A position in the first part, where a pattern stands there, is the same in the whole.
proof fn found_in_first_part(a: Seq<u8>, b: Seq<u8>, pattern: Seq<u8>, start: int)
    requires
        0 <= start,
        find_from(a, pattern, start) is Some,
    ensures
        find_from(a + b, pattern, start) == find_from(a, pattern, start),
    decreases a.len() - start + 1,
{
    occurs_in_first_part(a, b, pattern, start);
    if !occurs_at(a, pattern, start) {
        found_in_first_part(a, b, pattern, start + 1);
    }
}

proof fn occurs_in_first_part(a: Seq<u8>, b: Seq<u8>, pattern: Seq<u8>, i: int)
    requires
        0 <= i,
        i + pattern.len() <= a.len(),
    ensures
        occurs_at(a + b, pattern, i) == occurs_at(a, pattern, i),
{
    assert((a + b).subrange(i, i + pattern.len()) =~= a.subrange(i, i + pattern.len()));
}

proof fn occurs_in_second_part(a: Seq<u8>, b: Seq<u8>, pattern: Seq<u8>, i: int)
    requires
        0 <= i,
    ensures
        occurs_at(a + b, pattern, a.len() + i) == occurs_at(b, pattern, i),
{
    if i + pattern.len() <= b.len() {
        assert((a + b).subrange(a.len() + i, a.len() + i + pattern.len()) =~= b.subrange(
            i,
            i + pattern.len(),
        ));
    }
}

/// A position in what stands behind `a`.
spec fn shifted(a: Seq<u8>, at: Option<int>) -> Option<int> {
    match at {
        Some(p) => Some(a.len() + p),
        None => None,
    }
}

proof fn found_in_second_part(a: Seq<u8>, b: Seq<u8>, pattern: Seq<u8>, start: int)
    requires
        0 <= start,
    ensures
        find_from(a + b, pattern, a.len() + start) == shifted(a, find_from(b, pattern, start)),
    decreases b.len() - start + 1,
{
    if start + pattern.len() <= b.len() {
        occurs_in_second_part(a, b, pattern, start);
        if !occurs_at(b, pattern, start) {
            found_in_second_part(a, b, pattern, start + 1);
        }
    }
}

proof fn chunks_end_in_first_part(a: Seq<u8>, b: Seq<u8>, offset: int)
    requires
        chunks_end(a, offset) is Some,
    ensures
        chunks_end(a + b, offset) == chunks_end(a, offset),
    decreases a.len() - offset,
{
    let line_end = find_from(a, crlf(), offset)->0;
    assert(0 <= offset <= line_end);
    find_from_is_first(a, crlf(), offset);
    found_in_first_part(a, b, crlf(), offset);
    assert((a + b).subrange(offset, line_end) =~= a.subrange(offset, line_end));
    let field = fields(a.subrange(offset, line_end), 0x3b)[0];
    let size = number(trim(field), 16, usize::MAX as int)->0;
    let data = line_end + 2;
    if size == 0 {
        if occurs_at(a, crlf(), data) {
            occurs_in_first_part(a, b, crlf(), data);
        } else {
            found_in_first_part(a, b, head_end_mark(), data);
            find_from_is_first(a, head_end_mark(), data);
            occurs_in_first_part(a, b, crlf(), data);
        }
    } else {
        occurs_in_first_part(a, b, crlf(), data + size);
        chunks_end_in_first_part(a, b, data + size + 2);
    }
}

proof fn chunks_end_in_second_part(a: Seq<u8>, b: Seq<u8>, offset: int)
    requires
        0 <= offset,
    ensures
        chunks_end(a + b, a.len() + offset) == shifted(a, chunks_end(b, offset)),
    decreases b.len() - offset,
{
    found_in_second_part(a, b, crlf(), offset);
    find_from_is_first(b, crlf(), offset);
    if let Some(line_end) = find_from(b, crlf(), offset) {
        assert((a + b).subrange(a.len() + offset, a.len() + line_end) =~= b.subrange(
            offset,
            line_end,
        ));
        let field = fields(b.subrange(offset, line_end), 0x3b)[0];
        if let Some(size) = number(trim(field), 16, usize::MAX as int) {
            let data = line_end + 2;
            if size == 0 {
                occurs_in_second_part(a, b, crlf(), data);
                found_in_second_part(a, b, head_end_mark(), data);
            } else if size > 0 {
                occurs_in_second_part(a, b, crlf(), data + size);
                if occurs_at(b, crlf(), data + size) {
                    chunks_end_in_second_part(a, b, data + size + 2);
                }
            }
        }
    }
}

proof fn message_end_in_first_part(a: Seq<u8>, b: Seq<u8>, offset: int, kind: HttpMessageKind)
    requires
        0 <= offset,
        message_end(a, offset, kind) is Some,
    ensures
        message_end(a + b, offset, kind) == message_end(a, offset, kind),
{
    let p = find_from(a, head_end_mark(), offset)->0;
    found_in_first_part(a, b, head_end_mark(), offset);
    find_from_is_first(a, head_end_mark(), offset);
    let head = a.subrange(offset, p + 4);
    assert((a + b).subrange(offset, p + 4) =~= head);
    if lists_token(head, ascii("transfer-encoding"@), ascii("chunked"@)) {
        chunks_end_in_first_part(a, b, p + 4);
    }
}

proof fn message_end_in_second_part(a: Seq<u8>, b: Seq<u8>, offset: int, kind: HttpMessageKind)
    requires
        0 <= offset,
    ensures
        message_end(a + b, a.len() + offset, kind) == shifted(a, message_end(b, offset, kind)),
{
    found_in_second_part(a, b, head_end_mark(), offset);
    find_from_is_first(b, head_end_mark(), offset);
    if let Some(p) = find_from(b, head_end_mark(), offset) {
        let head = b.subrange(offset, p + 4);
        assert((a + b).subrange(a.len() + offset, a.len() + p + 4) =~= head);
        chunks_end_in_second_part(a, b, p + 4);
    }
}

proof fn messages_in_second_part(a: Seq<u8>, b: Seq<u8>, offset: int, kind: HttpMessageKind)
    requires
        0 <= offset,
    ensures
        messages_from(a + b, a.len() + offset, kind) == messages_from(b, offset, kind),
    decreases b.len() - offset,
{
    if offset < b.len() {
        message_end_in_second_part(a, b, offset, kind);
        if let Some(end) = message_end(b, offset, kind) {
            if offset < end <= b.len() {
                messages_in_second_part(a, b, end, kind);
                assert((a + b).subrange(a.len() + offset, a.len() + end) =~= b.subrange(
                    offset,
                    end,
                ));
            }
        }
    }
}

proof fn messages_follow(a: Seq<u8>, b: Seq<u8>, offset: int, kind: HttpMessageKind)
    requires
        0 <= offset <= a.len(),
        messages_from(a, offset, kind) is Some,
        messages(b, kind) is Some,
    ensures
        messages_from(a + b, offset, kind) == Some(
            messages_from(a, offset, kind)->0 + messages(b, kind)->0,
        ),
    decreases a.len() - offset,
{
    let more = messages(b, kind)->0;
    if offset == a.len() {
        messages_in_second_part(a, b, 0, kind);
        assert(Seq::empty() + more =~= more);
    } else {
        let end = message_end(a, offset, kind)->0;
        message_end_in_first_part(a, b, offset, kind);
        messages_follow(a, b, end, kind);
        let first = a.subrange(offset, end);
        let rest = messages_from(a, end, kind)->0;
        assert((a + b).subrange(offset, end) =~= first);
        assert(seq![first] + (rest + more) =~= seq![first] + rest + more);
    }
}

/// The messages of two streams, one behind the other, are those of the first and then those of
/// the second.
pub proof fn messages_keep_their_boundaries(a: Seq<u8>, b: Seq<u8>, kind: HttpMessageKind)
    requires
        messages(a, kind) is Some,
        messages(b, kind) is Some,
    ensures
        messages(a + b, kind) == Some(messages(a, kind)->0 + messages(b, kind)->0),
{
    messages_follow(a, b, 0, kind);
}

/// The transactions of a connection that is kept alive keep their order and their boundaries: what
/// follows on both streams adds its transactions behind those before.
pub proof fn kept_connections_keep_transactions(
    client: Seq<u8>,
    server: Seq<u8>,
    more_client: Seq<u8>,
    more_server: Seq<u8>,
)
    requires
        transactions(client, server) is Some,
        transactions(more_client, more_server) is Some,
    ensures
        transactions(client + more_client, server + more_server) == Some(
            transactions(client, server)->0 + transactions(more_client, more_server)->0,
        ),
{
    messages_keep_their_boundaries(client, more_client, HttpMessageKind::Request);
    messages_keep_their_boundaries(server, more_server, HttpMessageKind::Response);
    assert(transactions(client + more_client, server + more_server)->0 =~= transactions(
        client,
        server,
    )->0 + transactions(more_client, more_server)->0);
}

} // verus!
