//! Captured HTTP messages end where they say.
use crate::agent::rewriting::{fields_are_joined, is_unbroken};
use crate::bytes::{
    ascii, digits_value, fields, find_from, number, occurs_at, same_ignoring_case, trim,
};
use crate::capture::http::{
    chomp, chunks_end, crlf, head_end_mark, holds_token, is_bodiless, is_request_line,
    is_status_line, line_value, message_end, messages, messages_from, value_in_lines, value_of,
    HttpMessageKind,
};
use crate::text::{decimal, decimals_denote_their_number};
use vstd::prelude::*;

verus! {

/// A header field: its name, which has no colon and no line break, and its value, which has no line
/// break.
pub open spec fn is_field(field: (Seq<u8>, Seq<u8>)) -> bool {
    &&& field.0.len() > 0
    &&& is_unbroken(field.0)
    &&& is_unbroken(field.1)
    &&& forall|i: int| 0 <= i < field.0.len() ==> #[trigger] field.0[i] != 0x3a
}

/// The line of a header field.
pub open spec fn field_line(field: (Seq<u8>, Seq<u8>)) -> Seq<u8> {
    field.0 + seq![0x3au8] + field.1
}

/// The lines of header fields from `from` on, and the empty line behind them.
pub open spec fn field_lines(list: Seq<(Seq<u8>, Seq<u8>)>, from: int) -> Seq<u8>
    decreases list.len() - from,
{
    if from >= list.len() {
        crlf()
    } else {
        field_line(list[from]) + crlf() + field_lines(list, from + 1)
    }
}

/// A message head.
pub open spec fn head_with(first: Seq<u8>, list: Seq<(Seq<u8>, Seq<u8>)>) -> Seq<u8> {
    first + crlf() + field_lines(list, 0)
}

/// The value of the first header field at or after `from` with a name, up to case; the white space
/// around it does not matter.
pub open spec fn given_value(list: Seq<(Seq<u8>, Seq<u8>)>, name: Seq<u8>, from: int) -> Option<
    Seq<u8>,
>
    decreases list.len() - from,
{
    if from >= list.len() {
        None
    } else if same_ignoring_case(list[from].0, name) {
        Some(trim(list[from].1))
    } else {
        given_value(list, name, from + 1)
    }
}

proof fn found_behind(front: Seq<u8>, s: Seq<u8>, pattern: Seq<u8>, start: int)
    requires
        0 <= start,
    ensures
        find_from(front + s, pattern, front.len() + start) == match find_from(s, pattern, start) {
            Some(p) => Some(front.len() + p),
            None => None,
        },
    decreases s.len() - start + 1,
{
    if start + pattern.len() <= s.len() {
        assert((front + s).subrange(
            front.len() + start,
            front.len() + start + pattern.len(),
        ) =~= s.subrange(start, start + pattern.len()));
        if !occurs_at(s, pattern, start) {
            found_behind(front, s, pattern, start + 1);
        }
    }
}

proof fn found_later(s: Seq<u8>, pattern: Seq<u8>, start: int, at: int)
    requires
        0 <= start <= at,
        at + pattern.len() <= s.len() + 1,
        forall|i: int| start <= i < at ==> !#[trigger] occurs_at(s, pattern, i),
    ensures
        find_from(s, pattern, start) == find_from(s, pattern, at),
    decreases at - start,
{
    if start < at {
        assert(!occurs_at(s, pattern, start));
        found_later(s, pattern, start + 1, at);
    }
}

/// The end of a message head is the first empty line.
proof fn head_ends_at_the_empty_line(
    line: Seq<u8>,
    list: Seq<(Seq<u8>, Seq<u8>)>,
    from: int,
    rest: Seq<u8>,
)
    requires
        0 <= from <= list.len(),
        is_unbroken(line),
        forall|i: int| 0 <= i < list.len() ==> is_field(#[trigger] list[i]),
    ensures
        find_from(line + crlf() + field_lines(list, from) + rest, head_end_mark(), 0) == Some(
            line.len() + field_lines(list, from).len() - 2,
        ),
    decreases list.len() - from,
{
    let more = field_lines(list, from);
    let s = line + crlf() + more + rest;
    let n = line.len() as int;
    let mark = head_end_mark();
    assert(s.len() >= n + 2 + more.len());
    assert(more.len() >= 2) by {
        if from < list.len() {
            assert(more =~= field_line(list[from]) + crlf() + field_lines(list, from + 1));
        }
    }
    assert forall|i: int| 0 <= i < n implies !#[trigger] occurs_at(s, mark, i) by {
        assert(s[i] == line[i]);
        if occurs_at(s, mark, i) {
            assert(s.subrange(i, i + 4)[0] == mark[0]);
        }
    }
    if from >= list.len() {
        assert(s.subrange(n, n + 4) =~= mark);
        found_later(s, mark, 0, n);
    } else {
        let next = field_line(list[from]);
        assert(is_field(list[from]));
        assert(next[0] == list[from].0[0]);
        assert(is_unbroken(next)) by {
            assert forall|i: int| 0 <= i < next.len() implies #[trigger] next[i] != 0x0a && next[i]
                != 0x0d by {
                let k = list[from].0.len();
                if i < k {
                    assert(next[i] == list[from].0[i]);
                } else if i > k {
                    assert(next[i] == list[from].1[i - k - 1]);
                }
            }
        }
        let front = line + crlf();
        let tail = next + crlf() + field_lines(list, from + 1) + rest;
        assert(s =~= front + tail);
        assert(s[n + 2] == next[0]);
        assert forall|i: int| n <= i < n + 2 implies !#[trigger] occurs_at(s, mark, i) by {
            if occurs_at(s, mark, i) {
                assert(s.subrange(i, i + 4)[0] == mark[0]);
                assert(s.subrange(i, i + 4)[2] == mark[2]);
            }
        }
        head_ends_at_the_empty_line(next, list, from + 1, rest);
        found_later(s, mark, 0, n + 2);
        found_behind(front, tail, mark, 0);
    }
}

/// The lines of header fields, as line feeds separate them.
proof fn field_pieces(list: Seq<(Seq<u8>, Seq<u8>)>, from: int)
    requires
        0 <= from <= list.len(),
        forall|i: int| 0 <= i < list.len() ==> is_field(#[trigger] list[i]),
    ensures
        ({
            let pieces = fields(field_lines(list, from), 0x0a);
            &&& pieces.len() == list.len() - from + 2
            &&& forall|i: int|
                from <= i < list.len() ==> #[trigger] pieces[i - from] == field_line(list[i]).push(
                    0x0d,
                )
            &&& pieces[list.len() - from] == seq![0x0du8]
            &&& pieces[list.len() - from + 1] == Seq::<u8>::empty()
        }),
    decreases list.len() - from,
{
    let none = Seq::<u8>::empty();
    let whole = field_lines(list, from);
    if from >= list.len() {
        let cr = seq![0x0du8];
        assert(whole =~= cr + seq![0x0au8] + none);
        fields_are_joined(cr, none, 0x0a);
        one_piece_alone(cr);
        one_piece_alone(none);
    } else {
        field_pieces(list, from + 1);
        let line = field_line(list[from]).push(0x0d);
        let rest = field_lines(list, from + 1);
        assert(whole =~= line + seq![0x0au8] + rest);
        fields_are_joined(line, rest, 0x0a);
        assert(is_field(list[from]));
        assert forall|i: int| 0 <= i < line.len() implies #[trigger] line[i] != 0x0a by {
            let k = list[from].0.len();
            if i < k {
                assert(line[i] == list[from].0[i]);
            } else if k < i < line.len() - 1 {
                assert(line[i] == list[from].1[i - k - 1]);
            }
        }
        one_piece_alone(line);
        let pieces = fields(whole, 0x0a);
        let others = fields(rest, 0x0a);
        assert(pieces =~= seq![line] + others);
        assert forall|i: int| from <= i < list.len() implies #[trigger] pieces[i - from]
            == field_line(list[i]).push(0x0d) by {
            if i > from {
                assert(pieces[i - from] == others[i - (from + 1)]);
            }
        }
        assert(pieces[list.len() - from] == others[list.len() - (from + 1)]);
        assert(pieces[list.len() - from + 1] == others[list.len() - (from + 1) + 1]);
    }
}

proof fn one_piece_alone(piece: Seq<u8>)
    requires
        forall|i: int| 0 <= i < piece.len() ==> #[trigger] piece[i] != 0x0a,
    ensures
        fields(piece, 0x0a) == seq![piece],
{
    crate::agent::rewriting::sep_stands_at(piece, 0x0a, 0, piece.len() as int);
    assert(piece.subrange(0, piece.len() as int) =~= piece);
    assert(fields(piece, 0x0a) =~= seq![piece]);
}

proof fn field_is_read(field: (Seq<u8>, Seq<u8>), name: Seq<u8>)
    requires
        is_field(field),
    ensures
        line_value(field_line(field).push(0x0d), name) == (if same_ignoring_case(field.0, name) {
            Some(trim(field.1))
        } else {
            None
        }),
{
    let line = field_line(field);
    let n = field.0.len() as int;
    assert(chomp(line.push(0x0d)) =~= line);
    assert forall|i: int| 0 <= i < n implies line[i] != 0x3a by {
        assert(line[i] == field.0[i]);
    }
    assert(line[n] == 0x3a);
    crate::agent::rewriting::sep_stands_at(line, 0x3a, 0, n);
    assert(line.subrange(0, n) =~= field.0);
    assert(line.subrange(n + 1, line.len() as int) =~= field.1);
}

proof fn values_are_found(
    pieces: Seq<Seq<u8>>,
    list: Seq<(Seq<u8>, Seq<u8>)>,
    name: Seq<u8>,
    from: int,
)
    requires
        0 <= from <= list.len(),
        name.len() > 0,
        forall|i: int| 0 <= i < list.len() ==> is_field(#[trigger] list[i]),
        pieces.len() == list.len() + 3,
        forall|i: int|
            0 <= i < list.len() ==> pieces[i + 1] == #[trigger] field_line(list[i]).push(0x0d),
        pieces[(list.len() + 1) as int] == seq![0x0du8],
        pieces[(list.len() + 2) as int] == Seq::<u8>::empty(),
    ensures
        value_in_lines(pieces, name, from + 1) == given_value(list, name, from),
    decreases list.len() - from,
{
    if from < list.len() {
        field_is_read(list[from], name);
        assert(pieces[from + 1] == field_line(list[from]).push(0x0d));
        values_are_found(pieces, list, name, from + 1);
    } else {
        let n = list.len() as int;
        reveal_with_fuel(value_in_lines, 3);
        assert(chomp(pieces[n + 1]).len() == 0);
        assert(chomp(pieces[n + 2]).len() == 0);
    }
}

/// The header fields of a message are found by their names.
pub proof fn header_fields_are_found(
    first: Seq<u8>,
    list: Seq<(Seq<u8>, Seq<u8>)>,
    name: Seq<u8>,
)
    requires
        is_unbroken(first),
        name.len() > 0,
        forall|i: int| 0 <= i < list.len() ==> is_field(#[trigger] list[i]),
    ensures
        value_of(head_with(first, list), name) == given_value(list, name, 0),
{
    let head = head_with(first, list);
    let line = first.push(0x0d);
    let rest = field_lines(list, 0);
    assert(head =~= line + seq![0x0au8] + rest);
    fields_are_joined(line, rest, 0x0a);
    assert forall|i: int| 0 <= i < line.len() implies #[trigger] line[i] != 0x0a by {
        if i < first.len() {
            assert(line[i] == first[i]);
        }
    }
    one_piece_alone(line);
    field_pieces(list, 0);
    let pieces = fields(head, 0x0a);
    let others = fields(rest, 0x0a);
    assert(pieces =~= seq![line] + others);
    assert forall|i: int| 0 <= i < list.len() implies pieces[i + 1] == #[trigger] field_line(
        list[i],
    ).push(0x0d) by {
        assert(others[i - 0] == field_line(list[i]).push(0x0d));
    }
    assert(pieces[(list.len() + 1) as int] == others[list.len() - 0]);
    assert(pieces[(list.len() + 2) as int] == others[list.len() - 0 + 1]);
    values_are_found(pieces, list, name, 0);
}

/// A first line that fits the side that a message comes from.
pub open spec fn is_first_line(line: Seq<u8>, kind: HttpMessageKind) -> bool {
    match kind {
        HttpMessageKind::Request => is_request_line(line),
        HttpMessageKind::Response => is_status_line(line),
    }
}

/// A message asks for no other protocol on its connection.
pub open spec fn stays_http(list: Seq<(Seq<u8>, Seq<u8>)>) -> bool {
    &&& given_value(list, ascii("upgrade"@), 0) is None
    &&& match given_value(list, ascii("connection"@), 0) {
        Some(value) => !holds_token(value, ascii("upgrade"@)),
        None => true,
    }
}

/// A message says that its body comes in chunks.
pub open spec fn is_chunked(list: Seq<(Seq<u8>, Seq<u8>)>) -> bool {
    match given_value(list, ascii("transfer-encoding"@), 0) {
        Some(value) => holds_token(value, ascii("chunked"@)),
        None => false,
    }
}

/// What a message of this form says of its end, where `rest` follows its head.
proof fn message_is_read(
    first: Seq<u8>,
    list: Seq<(Seq<u8>, Seq<u8>)>,
    rest: Seq<u8>,
    kind: HttpMessageKind,
)
    requires
        is_unbroken(first),
        forall|i: int| 0 <= i < list.len() ==> is_field(#[trigger] list[i]),
    ensures
        ({
            let head = head_with(first, list);
            let end = message_end(head + rest, 0, kind);
            &&& !is_first_line(first, kind) || !stays_http(list) ==> end is None
            &&& is_first_line(first, kind) && stays_http(list) && is_chunked(list) ==> end
                == chunks_end(head + rest, head.len() as int)
            &&& is_first_line(first, kind) && stays_http(list) && !is_chunked(list) ==> end == (
            match given_value(list, ascii("content-length"@), 0) {
                Some(value) => match number(trim(value), 10, usize::MAX as int) {
                    Some(length) if length <= rest.len() => Some(head.len() + length),
                    _ => None,
                },
                None => if is_bodiless(first) || kind == HttpMessageKind::Request {
                    Some(head.len() as int)
                } else {
                    None
                },
            })
        }),
{
    reveal_strlit("upgrade");
    reveal_strlit("connection");
    reveal_strlit("transfer-encoding");
    reveal_strlit("content-length");
    assert("upgrade"@.len() == 7 && "connection"@.len() == 10 && "content-length"@.len() == 14
        && "transfer-encoding"@.len() == 17);
    header_fields_are_found(first, list, ascii("upgrade"@));
    header_fields_are_found(first, list, ascii("connection"@));
    header_fields_are_found(first, list, ascii("transfer-encoding"@));
    header_fields_are_found(first, list, ascii("content-length"@));
    let head = head_with(first, list);
    let s = head + rest;
    head_ends_at_the_empty_line(first, list, 0, rest);
    assert(s =~= first + crlf() + field_lines(list, 0) + rest);
    assert(s.subrange(0, head.len() as int) =~= head);
    let n = first.len() as int;
    assert forall|i: int| 0 <= i < n implies !#[trigger] occurs_at(head, crlf(), i) by {
        assert(head[i] == first[i]);
        if occurs_at(head, crlf(), i) {
            assert(head.subrange(i, i + 2)[0] == crlf()[0]);
        }
    }
    assert(head.subrange(n, n + 2) =~= crlf());
    assert(occurs_at(head, crlf(), n));
    found_later(head, crlf(), 0, n);
    assert(head.subrange(0, n) =~= first);
}

proof fn whole_message(s: Seq<u8>, kind: HttpMessageKind)
    requires
        s.len() > 0,
        message_end(s, 0, kind) == Some(s.len() as int),
    ensures
        messages(s, kind) == Some(seq![s]),
{
    assert(s.subrange(0, s.len() as int) =~= s);
    reveal_with_fuel(messages_from, 2);
    assert(seq![s] + Seq::empty() =~= seq![s]);
}

proof fn digits_stay(digits: Seq<u8>)
    requires
        digits.len() > 0,
        forall|i: int| 0 <= i < digits.len() ==> 0x30 <= #[trigger] digits[i] <= 0x66,
    ensures
        trim(digits) == digits,
        trim(trim(digits)) == digits,
{
    assert(0x30 <= digits[0] <= 0x66);
    assert(0x30 <= digits[digits.len() - 1] <= 0x66);
}

/// A message whose length is given has exactly that many bytes behind its head: together they are one
/// message.
pub proof fn bodies_have_their_length(
    first: Seq<u8>,
    list: Seq<(Seq<u8>, Seq<u8>)>,
    body: Seq<u8>,
    kind: HttpMessageKind,
)
    requires
        is_unbroken(first),
        is_first_line(first, kind),
        forall|i: int| 0 <= i < list.len() ==> is_field(#[trigger] list[i]),
        stays_http(list),
        !is_chunked(list),
        body.len() <= usize::MAX,
        given_value(list, ascii("content-length"@), 0) == Some(ascii(decimal(body.len() as int))),
    ensures
        messages(head_with(first, list) + body, kind) == Some(seq![head_with(first, list) + body]),
{
    let n = body.len() as int;
    let digits = ascii(decimal(n));
    decimals_denote_their_number(n, usize::MAX as int);
    assert forall|i: int| 0 <= i < digits.len() implies 0x30 <= #[trigger] digits[i] <= 0x66 by {
        assert('0' <= decimal(n)[i] <= '9');
    }
    digits_stay(digits);
    message_is_read(first, list, body, kind);
    whole_message(head_with(first, list) + body, kind);
}

/// A message that says nothing of its length has no body if it is a request or if its status is
/// informational, 204 or 304: its head is one message. Any other response ends nowhere.
pub proof fn messages_without_length(
    first: Seq<u8>,
    list: Seq<(Seq<u8>, Seq<u8>)>,
    hundreds: u8,
    tens: u8,
    ones: u8,
    reason: Seq<u8>,
    kind: HttpMessageKind,
)
    requires
        is_unbroken(first),
        is_first_line(first, kind),
        forall|i: int| 0 <= i < list.len() ==> is_field(#[trigger] list[i]),
        stays_http(list),
        !is_chunked(list),
        given_value(list, ascii("content-length"@), 0) is None,
        hundreds <= 9,
        tens <= 9,
        ones <= 9,
        kind == HttpMessageKind::Response ==> first == ascii("HTTP/1.1 "@) + seq![
            (0x30 + hundreds) as u8,
            (0x30 + tens) as u8,
            (0x30 + ones) as u8,
        ] + reason,
    ensures
        kind == HttpMessageKind::Request || hundreds == 1 || (hundreds == 2 && tens == 0 && ones
            == 4) || (hundreds == 3 && tens == 0 && ones == 4) ==> messages(
            head_with(first, list),
            kind,
        ) == Some(seq![head_with(first, list)]),
        kind == HttpMessageKind::Response && hundreds != 1 && !(tens == 0 && ones == 4 && (hundreds
            == 2 || hundreds == 3)) ==> messages(head_with(first, list), kind) is None,
{
    let head = head_with(first, list);
    let none = Seq::<u8>::empty();
    assert(head + none =~= head);
    message_is_read(first, list, none, kind);
    reveal_strlit("HTTP/1.1 ");
    if kind == HttpMessageKind::Response {
        assert(ascii("HTTP/1.1 "@).len() == 9);
        assert(first[9] == 0x30 + hundreds && first[10] == 0x30 + tens && first[11] == 0x30 + ones);
    }
    if message_end(head, 0, kind) is Some {
        whole_message(head, kind);
    }
}

/// A message that asks for another protocol, or whose first line is none of HTTP/1.1, is not read.
pub proof fn other_protocols_are_not_read(
    first: Seq<u8>,
    list: Seq<(Seq<u8>, Seq<u8>)>,
    rest: Seq<u8>,
    kind: HttpMessageKind,
)
    requires
        is_unbroken(first),
        forall|i: int| 0 <= i < list.len() ==> is_field(#[trigger] list[i]),
        !is_first_line(first, kind) || given_value(list, ascii("upgrade"@), 0) is Some,
    ensures
        messages(head_with(first, list) + rest, kind) is None,
{
    message_is_read(first, list, rest, kind);
}

/// A chunk of a body: its size in hexadecimal digits, extensions behind a semicolon, the end of the
/// line, the data and another end of a line.
pub open spec fn is_chunk(digits: Seq<u8>, extension: Seq<u8>, data: Seq<u8>) -> bool {
    &&& digits.len() > 0
    &&& forall|i: int|
        0 <= i < digits.len() ==> (0x30 <= #[trigger] digits[i] <= 0x39 || 0x41 <= digits[i] <= 0x46
            || 0x61 <= digits[i] <= 0x66)
    &&& digits_value(digits, 16) == Some(data.len() as int)
    &&& data.len() <= usize::MAX
    &&& is_unbroken(extension)
    &&& extension.len() > 0 ==> extension[0] == 0x3b
}

/// The bytes of a chunk.
pub open spec fn chunk_bytes(digits: Seq<u8>, extension: Seq<u8>, data: Seq<u8>) -> Seq<u8> {
    digits + extension + crlf() + data + crlf()
}

proof fn chunk_size_is_read(
    front: Seq<u8>,
    digits: Seq<u8>,
    extension: Seq<u8>,
    data: Seq<u8>,
    rest: Seq<u8>,
)
    requires
        is_chunk(digits, extension, data),
    ensures
        ({
            let s = front + (digits + extension + crlf() + rest);
            let at = front.len() as int;
            let line_end = at + digits.len() + extension.len();
            &&& find_from(s, crlf(), at) == Some(line_end as int)
            &&& fields(s.subrange(at, line_end as int), 0x3b)[0] == digits
            &&& number(trim(digits), 16, usize::MAX as int) == Some(data.len() as int)
        }),
{
    let line = digits + extension;
    let tail = line + crlf() + rest;
    let s = front + tail;
    let at = front.len() as int;
    let n = line.len() as int;
    assert(s =~= front + (digits + extension + crlf() + rest));
    assert(digits + extension + crlf() + rest =~= tail);
    assert forall|i: int| 0 <= i < n implies line[i] != 0x0d by {
        if i < digits.len() {
            assert(line[i] == digits[i]);
        } else {
            assert(line[i] == extension[i - digits.len()]);
        }
    }
    assert forall|i: int| 0 <= i < n implies !#[trigger] occurs_at(tail, crlf(), i) by {
        if occurs_at(tail, crlf(), i) {
            assert(tail.subrange(i, i + 2)[0] == crlf()[0]);
            assert(tail[i] == line[i]);
        }
    }
    assert(tail.subrange(n, n + 2) =~= crlf());
    assert(occurs_at(tail, crlf(), n));
    found_later(tail, crlf(), 0, n);
    found_behind(front, tail, crlf(), 0);
    assert(s.subrange(at, at + n) =~= line);
    let k = digits.len() as int;
    assert forall|i: int| 0 <= i < k implies line[i] != 0x3b by {
        assert(line[i] == digits[i]);
    }
    if k < n {
        assert(line[k] == extension[0]);
    }
    crate::agent::rewriting::sep_stands_at(line, 0x3b, 0, k);
    assert(line.subrange(0, k) =~= digits);
    assert(fields(line, 0x3b)[0] =~= digits);
    assert forall|i: int| 0 <= i < digits.len() implies 0x30 <= #[trigger] digits[i] <= 0x66 by {}
    digits_stay(digits);
    assert(0x30 <= digits[0]);
}

/// A chunk with data is passed over: the body ends where what follows the chunk says.
pub proof fn chunks_are_passed_over(
    front: Seq<u8>,
    digits: Seq<u8>,
    extension: Seq<u8>,
    data: Seq<u8>,
    rest: Seq<u8>,
)
    requires
        is_chunk(digits, extension, data),
        data.len() > 0,
    ensures
        ({
            let chunk = chunk_bytes(digits, extension, data);
            chunks_end(front + (chunk + rest), front.len() as int) == chunks_end(
                front + (chunk + rest),
                (front.len() + chunk.len()) as int,
            )
        }),
{
    let chunk = chunk_bytes(digits, extension, data);
    let behind = data + crlf() + rest;
    chunk_size_is_read(front, digits, extension, data, behind);
    let s = front + (chunk + rest);
    assert(s =~= front + (digits + extension + crlf() + behind));
    let start = (front.len() + digits.len() + extension.len() + 2) as int;
    let end = start + data.len();
    assert(s.subrange(end, end + 2) =~= crlf());
}

/// The chunk without data ends a body: behind it stands an empty line.
pub proof fn last_chunks_end_bodies(
    front: Seq<u8>,
    digits: Seq<u8>,
    extension: Seq<u8>,
    rest: Seq<u8>,
)
    requires
        is_chunk(digits, extension, Seq::empty()),
    ensures
        ({
            let chunk = chunk_bytes(digits, extension, Seq::empty());
            chunks_end(front + (chunk + rest), front.len() as int) == Some(
                (front.len() + chunk.len()) as int,
            )
        }),
{
    let none = Seq::<u8>::empty();
    let chunk = chunk_bytes(digits, extension, none);
    let behind = crlf() + rest;
    chunk_size_is_read(front, digits, extension, none, behind);
    let s = front + (chunk + rest);
    assert(s =~= front + (digits + extension + crlf() + behind));
    let start = (front.len() + digits.len() + extension.len() + 2) as int;
    assert(s.subrange(start, start + 2) =~= crlf());
}

/// Header fields may stand behind the chunk without data: the body then ends behind the empty line
/// after them.
pub proof fn trailers_belong_to_bodies(
    front: Seq<u8>,
    digits: Seq<u8>,
    extension: Seq<u8>,
    trailers: Seq<(Seq<u8>, Seq<u8>)>,
    rest: Seq<u8>,
)
    requires
        is_chunk(digits, extension, Seq::empty()),
        trailers.len() > 0,
        forall|i: int| 0 <= i < trailers.len() ==> is_field(#[trigger] trailers[i]),
    ensures
        ({
            let end = digits + extension + crlf() + field_lines(trailers, 0);
            chunks_end(front + (end + rest), front.len() as int) == Some(
                (front.len() + end.len()) as int,
            )
        }),
{
    let none = Seq::<u8>::empty();
    let lines = field_lines(trailers, 0);
    let behind = lines + rest;
    let end = digits + extension + crlf() + lines;
    chunk_size_is_read(front, digits, extension, none, behind);
    let s = front + (end + rest);
    assert(s =~= front + (digits + extension + crlf() + behind));
    let start = (front.len() + digits.len() + extension.len() + 2) as int;
    let line = field_line(trailers[0]);
    assert(is_field(trailers[0]));
    assert(lines =~= line + crlf() + field_lines(trailers, 1));
    assert(line[0] == trailers[0].0[0]);
    assert(s[start] == line[0]);
    assert(!occurs_at(s, crlf(), start)) by {
        if occurs_at(s, crlf(), start) {
            assert(s.subrange(start, start + 2)[0] == crlf()[0]);
        }
    }
    let before = s.subrange(0, start);
    assert(s =~= before + behind);
    assert(is_unbroken(line)) by {
        assert forall|i: int| 0 <= i < line.len() implies #[trigger] line[i] != 0x0a && line[i]
            != 0x0d by {
            let k = trailers[0].0.len();
            if i < k {
                assert(line[i] == trailers[0].0[i]);
            } else if i > k {
                assert(line[i] == trailers[0].1[i - k - 1]);
            }
        }
    }
    head_ends_at_the_empty_line(line, trailers, 1, rest);
    assert(behind =~= line + crlf() + field_lines(trailers, 1) + rest);
    found_behind(before, behind, head_end_mark(), 0);
}

/// A message in chunks is one message up to the end of its chunks.
pub proof fn chunked_messages_end_with_their_chunks(
    first: Seq<u8>,
    list: Seq<(Seq<u8>, Seq<u8>)>,
    body: Seq<u8>,
    kind: HttpMessageKind,
)
    requires
        is_unbroken(first),
        is_first_line(first, kind),
        forall|i: int| 0 <= i < list.len() ==> is_field(#[trigger] list[i]),
        stays_http(list),
        is_chunked(list),
        chunks_end(head_with(first, list) + body, head_with(first, list).len() as int) == Some(
            (head_with(first, list).len() + body.len()) as int,
        ),
    ensures
        messages(head_with(first, list) + body, kind) == Some(seq![head_with(first, list) + body]),
{
    message_is_read(first, list, body, kind);
    whole_message(head_with(first, list) + body, kind);
}

proof fn one_field(piece: Seq<u8>, sep: u8)
    requires
        forall|i: int| 0 <= i < piece.len() ==> #[trigger] piece[i] != sep,
    ensures
        fields(piece, sep) == seq![piece],
{
    crate::agent::rewriting::sep_stands_at(piece, sep, 0, piece.len() as int);
    assert(piece.subrange(0, piece.len() as int) =~= piece);
    assert(fields(piece, sep) =~= seq![piece]);
}

/// A method in capital letters, a target without spaces and the version make a request line.
pub proof fn request_lines_are_recognised(method: Seq<u8>, target: Seq<u8>)
    requires
        method.len() > 0,
        forall|i: int|
            0 <= i < method.len() ==> 0x41 <= #[trigger] method[i] <= 0x5a || method[i] == 0x2d,
        target.len() > 0,
        forall|i: int| 0 <= i < target.len() ==> #[trigger] target[i] != 0x20,
    ensures
        is_request_line(method + seq![0x20u8] + (target + seq![0x20u8] + ascii("HTTP/1.1"@))),
{
    reveal_strlit("HTTP/1.1");
    let version = ascii("HTTP/1.1"@);
    let rest = target + seq![0x20u8] + version;
    fields_are_joined(method, rest, 0x20);
    fields_are_joined(target, version, 0x20);
    one_field(method, 0x20);
    one_field(target, 0x20);
    one_field(version, 0x20);
    let line = method + seq![0x20u8] + rest;
    assert(fields(line, 0x20) =~= seq![method, target, version]);
}

/// The version, a space and three digits, whatever follows them, make a status line.
pub proof fn status_lines_are_recognised(status: Seq<u8>, reason: Seq<u8>)
    requires
        status.len() == 3,
        forall|i: int| 0 <= i < 3 ==> 0x30 <= #[trigger] status[i] <= 0x39,
    ensures
        is_status_line(ascii("HTTP/1.1 "@) + status + reason),
{
    reveal_strlit("HTTP/1.1 ");
    let start = ascii("HTTP/1.1 "@);
    let line = start + status + reason;
    assert(start.len() == 9);
    assert(line.subrange(0, 9) =~= start);
    assert forall|i: int| 9 <= i < 12 implies 0x30 <= #[trigger] line[i] <= 0x39 by {
        assert(line[i] == status[i - 9]);
    }
}

} // verus!
