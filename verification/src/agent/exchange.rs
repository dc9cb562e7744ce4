//! Client and responder understand each other over HTTP/1.1.
use crate::agent::http1::{
    has_value, is_last, is_reply, line_has, line_rest, numeric_value, reply_text, request_text,
    target_text, text_value, HttpReply,
};
use crate::agent::replay::target_path;
use crate::agent::rewriting::{encodings_are_joined, paths_are_found};
use crate::bytes::ascii;
use crate::domain::scenario::Scenario;
use crate::text::{
    decimal, decimal_number, decimals_denote_their_number, is_white, lines, lines_from, lower_char,
    lowered, next_char, trimmed, trimmed_end, trimmed_start, without_return,
};
use vstd::prelude::*;
use vstd::utf8::{encode_utf8, is_ascii_chars_encode_utf8};

verus! {

/// A text without line breaks.
pub open spec fn is_one_line(text: Seq<char>) -> bool {
    forall|i: int| 0 <= i < text.len() ==> #[trigger] text[i] != '\n' && text[i] != '\r'
}

/// A text has a character.
pub open spec fn holds(text: Seq<char>, c: char) -> bool {
    exists|i: int| 0 <= i < text.len() && #[trigger] text[i] == c
}

proof fn next_char_is(text: Seq<char>, c: char, start: int, at: int)
    requires
        0 <= start <= at <= text.len(),
        forall|i: int| start <= i < at ==> text[i] != c,
        at < text.len() ==> text[at] == c,
    ensures
        next_char(text, c, start) == at,
    decreases at - start,
{
    if start < at {
        next_char_is(text, c, start + 1, at);
    }
}

/// The lines of a text after what stands before `start` do not depend on it.
proof fn lines_are_read_alone(front: Seq<char>, text: Seq<char>, start: int)
    requires
        0 <= start <= text.len(),
    ensures
        lines_from(front + text, front.len() + start) == lines_from(text, start),
    decreases text.len() - start,
{
    let whole = front + text;
    let n = front.len() as int;
    let end = next_char(text, '\n', start);
    next_char_shifts(front, text, '\n', start);
    if start < text.len() {
        next_char_bounds(text, '\n', start);
        if end < text.len() {
            assert(whole.subrange(n + start, n + end) =~= text.subrange(start, end));
            lines_are_read_alone(front, text, end + 1);
        } else {
            assert(whole.subrange(n + start, whole.len() as int) =~= text.subrange(
                start,
                text.len() as int,
            ));
        }
    }
}

proof fn next_char_bounds(text: Seq<char>, c: char, start: int)
    requires
        0 <= start <= text.len(),
    ensures
        start <= next_char(text, c, start) <= text.len(),
    decreases text.len() - start,
{
    if start < text.len() && text[start] != c {
        next_char_bounds(text, c, start + 1);
    }
}

proof fn next_char_shifts(front: Seq<char>, text: Seq<char>, c: char, start: int)
    requires
        0 <= start <= text.len(),
    ensures
        next_char(front + text, c, front.len() + start) == front.len() + next_char(text, c, start),
    decreases text.len() - start,
{
    if start < text.len() && text[start] != c {
        next_char_shifts(front, text, c, start + 1);
    }
}

/// A line that ends with a line break is the first line, and what follows it are the others.
pub proof fn first_line_is_split_off(line: Seq<char>, rest: Seq<char>)
    requires
        is_one_line(line),
    ensures
        lines(line + "\r\n"@ + rest) == seq![line] + lines(rest),
{
    reveal_strlit("\r\n");
    let front = line + "\r\n"@;
    let text = front + rest;
    let end = line.len() + 1;
    assert(front =~= line + seq!['\r', '\n']);
    assert forall|i: int| 0 <= i < end implies text[i] != '\n' by {
        if i < line.len() {
            assert(text[i] == line[i]);
        }
    }
    assert(text[end as int] == '\n');
    next_char_is(text, '\n', 0, end as int);
    assert(text.subrange(0, end as int) =~= line.push('\r'));
    assert(without_return(text.subrange(0, end as int)) =~= line);
    lines_are_read_alone(front, rest, 0);
}

/// A text of digits has no white space around it.
proof fn digits_are_trimmed(text: Seq<char>)
    requires
        forall|i: int| 0 <= i < text.len() ==> !is_white(#[trigger] text[i]),
    ensures
        trimmed(seq![' '] + text) == text,
{
    let spaced = seq![' '] + text;
    assert(spaced.subrange(1, spaced.len() as int) =~= text);
    reveal_with_fuel(trimmed_start, 2);
    assert(is_white(' '));
    if text.len() > 0 {
        assert(!is_white(text[0]));
        assert(!is_white(text.last()));
    }
    assert(trimmed_start(spaced) =~= text);
    assert(trimmed_end(text) =~= text);
}

/// A header line that names a field and gives it a value is found by the name, up to case, and by no
/// other.
proof fn header_lines_are_understood(field: Seq<char>, value: Seq<char>, name: Seq<char>)
    requires
        !holds(field, ':'),
    ensures
        line_has(field + ": "@ + value, name) == (lowered(field) == lowered(name)),
        line_rest(field + ": "@ + value) == trimmed(seq![' '] + value),
{
    reveal_strlit(": ");
    let line = field + ": "@ + value;
    let n = field.len() as int;
    assert(line =~= field + seq![':', ' '] + value);
    assert forall|i: int| 0 <= i < n implies line[i] != ':' by {
        assert(line[i] == field[i]);
    }
    assert(line[n] == ':');
    next_char_is(line, ':', 0, n);
    assert(line.subrange(0, n) =~= field);
    assert(line.subrange(n + 1, line.len() as int) =~= seq![' '] + value);
}

/// A line whose first word has no colon is no header line of a field without spaces.
proof fn first_lines_are_no_headers(word: Seq<char>, rest: Seq<char>, name: Seq<char>)
    requires
        !holds(word, ':'),
        !holds(name, ' '),
    ensures
        !line_has(word + " "@ + rest, name),
{
    reveal_strlit(" ");
    let line = word + " "@ + rest;
    let n = word.len() as int;
    assert(line =~= word + seq![' '] + rest);
    let colon = next_char(line, ':', 0);
    assert forall|i: int| 0 <= i <= n implies line[i] != ':' by {
        if i < n {
            assert(line[i] == word[i]);
        }
    }
    next_char_is_behind(line, ':', 0, n + 1);
    if line_has(line, name) {
        let front = line.subrange(0, colon);
        assert(lowered(front) == lowered(name));
        assert(lowered(front).len() == front.len());
        assert(lowered(name).len() == name.len());
        assert(lowered(front)[n] == lower_char(front[n]));
        assert(front[n] == ' ');
        assert(lower_char(' ') == ' ');
        assert(lowered(name)[n] == lower_char(name[n]));
        lower_spaces(name[n]);
        assert(name[n] == ' ');
        assert(false);
    }
}

proof fn lower_spaces(c: char)
    ensures
        lower_char(c) == ' ' ==> c == ' ',
{
    if 'A' <= c <= 'Z' {
        assert((c as u32 + 0x20) as char as u32 == c as u32 + 0x20);
    }
}

proof fn next_char_is_behind(text: Seq<char>, c: char, start: int, at: int)
    requires
        0 <= start <= at <= text.len(),
        forall|i: int| start <= i < at ==> text[i] != c,
    ensures
        at <= next_char(text, c, start) <= text.len(),
    decreases at - start,
{
    if start < at {
        next_char_is_behind(text, c, start + 1, at);
    } else {
        next_char_bounds(text, c, start);
    }
}

proof fn names_are_told_apart()
    ensures
        lowered("Host"@).len() == 4,
        lowered("Connection"@) == lowered("connection"@),
        lowered("Content-Length"@) == lowered("content-length"@),
        lowered("X-Response-Bytes"@) == lowered("x-response-bytes"@),
        lowered("Connection"@).len() == 10,
        lowered("Content-Length"@).len() == 14,
        lowered("X-Response-Bytes"@).len() == 16,
        !holds("Host"@, ':'),
        !holds("Connection"@, ':'),
        !holds("Content-Length"@, ':'),
        !holds("X-Response-Bytes"@, ':'),
        !holds("connection"@, ' '),
        !holds("content-length"@, ' '),
        !holds("x-response-bytes"@, ' '),
        is_one_line("Host"@),
        is_one_line("Connection"@),
        is_one_line("Content-Length"@),
        is_one_line("X-Response-Bytes"@),
        is_one_line(": "@),
        is_one_line(" "@),
        is_one_line(" HTTP/1.1"@),
{
    reveal_strlit("Host");
    reveal_strlit("Connection");
    reveal_strlit("connection");
    reveal_strlit("Content-Length");
    reveal_strlit("content-length");
    reveal_strlit("X-Response-Bytes");
    reveal_strlit("x-response-bytes");
    reveal_strlit(": ");
    reveal_strlit(" ");
    reveal_strlit(" HTTP/1.1");
    assert(lowered("Connection"@) =~= lowered("connection"@));
    assert(lowered("Content-Length"@) =~= lowered("content-length"@));
    assert(lowered("X-Response-Bytes"@) =~= lowered("x-response-bytes"@));
}

proof fn words_are_understood(keep_alive: bool)
    ensures
        ({
            let word = if keep_alive {
                "keep-alive"@
            } else {
                "close"@
            };
            &&& is_one_line(word)
            &&& trimmed(seq![' '] + word) == word
            &&& (lowered(word) == lowered("keep-alive"@)) == keep_alive
        }),
{
    reveal_strlit("keep-alive");
    reveal_strlit("close");
    let word = if keep_alive {
        "keep-alive"@
    } else {
        "close"@
    };
    digits_are_trimmed(word);
    assert(lowered("close"@).len() == 5);
    assert(lowered("keep-alive"@).len() == 10);
}

proof fn one_line_sums(a: Seq<char>, b: Seq<char>)
    requires
        is_one_line(a),
        is_one_line(b),
    ensures
        is_one_line(a + b),
{
    assert forall|i: int| 0 <= i < (a + b).len() implies #[trigger] (a + b)[i] != '\n' && (a
        + b)[i] != '\r' by {
        if i < a.len() {
            assert((a + b)[i] == a[i]);
        } else {
            assert((a + b)[i] == b[i - a.len()]);
        }
    }
}

proof fn numbers_are_understood(n: int)
    requires
        0 <= n <= usize::MAX,
    ensures
        decimal_number(trimmed(seq![' '] + decimal(n)), usize::MAX as int) == Some(n),
        is_one_line(decimal(n)),
{
    decimals_denote_their_number(n, usize::MAX as int);
    digits_are_trimmed(decimal(n));
}

/// A header line.
pub open spec fn header_line(field: Seq<char>, value: Seq<char>) -> Seq<char> {
    field + ": "@ + value
}

/// The lines of a request head: what is asked for, the host, what becomes of the connection, the
/// length of the body and the length of the body that is wanted in return.
proof fn request_lines(
    scenario: Scenario,
    target: Seq<char>,
    keep_alive: bool,
    request_len: int,
    response_len: int,
)
    requires
        is_one_line(scenario.request.method@),
        is_one_line(target),
        is_one_line(scenario.request.host@),
        0 <= request_len <= usize::MAX,
        0 <= response_len <= usize::MAX,
    ensures
        lines(request_text(scenario, target, keep_alive, request_len, response_len)) == seq![
            scenario.request.method@ + " "@ + (target + " HTTP/1.1"@),
            header_line("Host"@, scenario.request.host@),
            header_line(
                "Connection"@,
                if keep_alive {
                    "keep-alive"@
                } else {
                    "close"@
                },
            ),
            header_line("Content-Length"@, decimal(request_len)),
            header_line("X-Response-Bytes"@, decimal(response_len)),
            Seq::empty(),
        ],
{
    let word = if keep_alive {
        "keep-alive"@
    } else {
        "close"@
    };
    let br = "\r\n"@;
    let l0 = scenario.request.method@ + " "@ + (target + " HTTP/1.1"@);
    let l1 = header_line("Host"@, scenario.request.host@);
    let l2 = header_line("Connection"@, word);
    let l3 = header_line("Content-Length"@, decimal(request_len));
    let l4 = header_line("X-Response-Bytes"@, decimal(response_len));
    let text = request_text(scenario, target, keep_alive, request_len, response_len);
    reveal_strlit(" HTTP/1.1\r\nHost: ");
    reveal_strlit(" HTTP/1.1");
    reveal_strlit("\r\n");
    reveal_strlit("Host");
    reveal_strlit(": ");
    reveal_strlit("\r\nConnection: ");
    reveal_strlit("Connection");
    reveal_strlit("\r\nContent-Length: ");
    reveal_strlit("Content-Length");
    reveal_strlit("\r\nX-Response-Bytes: ");
    reveal_strlit("X-Response-Bytes");
    reveal_strlit("\r\n\r\n");
    assert(" HTTP/1.1\r\nHost: "@ =~= " HTTP/1.1"@ + br + ("Host"@ + ": "@));
    assert("\r\nConnection: "@ =~= br + ("Connection"@ + ": "@));
    assert("\r\nContent-Length: "@ =~= br + ("Content-Length"@ + ": "@));
    assert("\r\nX-Response-Bytes: "@ =~= br + ("X-Response-Bytes"@ + ": "@));
    assert("\r\n\r\n"@ =~= br + br);
    let none = Seq::<char>::empty();
    let t5 = none + br + none;
    let t4 = l4 + br + t5;
    let t3 = l3 + br + t4;
    let t2 = l2 + br + t3;
    let t1 = l1 + br + t2;
    let t0 = l0 + br + t1;
    assert(t5 =~= br);
    assert(text =~= t0) by {
        let a = scenario.request.method@ + " "@ + target + " HTTP/1.1\r\nHost: "@
            + scenario.request.host@;
        assert(a =~= l0 + br + l1);
        let b = "\r\nConnection: "@ + word;
        assert(b =~= br + l2);
        let c = "\r\nContent-Length: "@ + decimal(request_len);
        assert(c =~= br + l3);
        let d = "\r\nX-Response-Bytes: "@ + decimal(response_len) + "\r\n\r\n"@;
        assert(d =~= br + l4 + br + br);
        assert(text =~= a + b + c + d);
        assert(t4 =~= l4 + br + br);
        assert(br + t4 =~= d);
        assert(br + t3 =~= c + d);
        assert(br + t2 =~= b + c + d);
        assert(t0 =~= l0 + br + l1 + (br + t2));
    }
    names_are_told_apart();
    words_are_understood(keep_alive);
    numbers_are_understood(request_len);
    numbers_are_understood(response_len);
    one_line_sums(target, " HTTP/1.1"@);
    one_line_sums(scenario.request.method@, " "@);
    one_line_sums(scenario.request.method@ + " "@, target + " HTTP/1.1"@);
    one_line_sums("Host"@, ": "@);
    one_line_sums("Host"@ + ": "@, scenario.request.host@);
    one_line_sums("Connection"@, ": "@);
    one_line_sums("Connection"@ + ": "@, word);
    one_line_sums("Content-Length"@, ": "@);
    one_line_sums("Content-Length"@ + ": "@, decimal(request_len));
    one_line_sums("X-Response-Bytes"@, ": "@);
    one_line_sums("X-Response-Bytes"@ + ": "@, decimal(response_len));
    first_line_is_split_off(l0, t1);
    first_line_is_split_off(l1, t2);
    first_line_is_split_off(l2, t3);
    first_line_is_split_off(l3, t4);
    first_line_is_split_off(l4, t5);
    first_line_is_split_off(none, none);
    assert(lines(none) =~= Seq::empty());
    assert(lines(text) =~= seq![l0, l1, l2, l3, l4, none]);
}

/// A request head that a client writes is read as it was meant: its body has the length of the
/// request payload, the body in return is to have the length of the response payload, and the
/// connection is kept if the client keeps it.
pub proof fn requests_are_understood(
    scenario: Scenario,
    target: Seq<char>,
    keep_alive: bool,
    request_len: int,
    response_len: int,
)
    requires
        is_one_line(scenario.request.method@),
        !holds(scenario.request.method@, ':'),
        is_one_line(target),
        is_one_line(scenario.request.host@),
        0 <= request_len <= usize::MAX,
        0 <= response_len <= usize::MAX,
    ensures
        ({
            let text = request_text(scenario, target, keep_alive, request_len, response_len);
            &&& lines(text)[0] == scenario.request.method@ + " "@ + (target + " HTTP/1.1"@)
            &&& lines(text)[1] == "Host: "@ + scenario.request.host@
            &&& numeric_value(text, "content-length"@) == Some(request_len)
            &&& numeric_value(text, "x-response-bytes"@) == Some(response_len)
            &&& has_value(text, "connection"@, "keep-alive"@) == keep_alive
        }),
{
    let word = if keep_alive {
        "keep-alive"@
    } else {
        "close"@
    };
    let text = request_text(scenario, target, keep_alive, request_len, response_len);
    request_lines(scenario, target, keep_alive, request_len, response_len);
    names_are_told_apart();
    words_are_understood(keep_alive);
    numbers_are_understood(request_len);
    numbers_are_understood(response_len);
    let list = lines(text);
    let method = scenario.request.method@;
    let host = scenario.request.host@;
    reveal_strlit("Host");
    reveal_strlit(": ");
    reveal_strlit("Host: ");
    assert("Host: "@ + host =~= header_line("Host"@, host));
    let wanted = seq!["connection"@, "content-length"@, "x-response-bytes"@];
    assert forall|i: int| 0 <= i < 3 implies {
        let name = #[trigger] wanted[i];
        &&& !line_has(list[0], name)
        &&& !line_has(list[1], name)
        &&& line_has(list[2], name) == (i == 0)
        &&& line_has(list[3], name) == (i == 1)
        &&& line_has(list[4], name) == (i == 2)
        &&& !line_has(list[5], name)
    } by {
        let name = wanted[i];
        first_lines_are_no_headers(method, target + " HTTP/1.1"@, name);
        header_lines_are_understood("Host"@, host, name);
        header_lines_are_understood("Connection"@, word, name);
        header_lines_are_understood("Content-Length"@, decimal(request_len), name);
        header_lines_are_understood("X-Response-Bytes"@, decimal(response_len), name);
        assert(lowered(name).len() == name.len());
    }
    assert(wanted[0] == "connection"@ && wanted[1] == "content-length"@ && wanted[2]
        == "x-response-bytes"@);
    header_lines_are_understood("Connection"@, word, "connection"@);
    header_lines_are_understood("Content-Length"@, decimal(request_len), "content-length"@);
    header_lines_are_understood("X-Response-Bytes"@, decimal(response_len), "x-response-bytes"@);
    reveal_with_fuel(text_value, 6);
    if keep_alive {
        assert(line_has(lines(text)[2], "connection"@));
    }
}

proof fn reply_lines(body_len: int, keep_alive: bool)
    requires
        0 <= body_len <= usize::MAX,
    ensures
        lines(reply_text(body_len, keep_alive)) == seq![
            "HTTP/1.1 200 OK"@,
            header_line("Content-Length"@, decimal(body_len)),
            header_line(
                "Connection"@,
                if keep_alive {
                    "keep-alive"@
                } else {
                    "close"@
                },
            ),
            Seq::empty(),
        ],
{
    let word = if keep_alive {
        "keep-alive"@
    } else {
        "close"@
    };
    let br = "\r\n"@;
    let l0 = "HTTP/1.1 200 OK"@;
    let l1 = header_line("Content-Length"@, decimal(body_len));
    let l2 = header_line("Connection"@, word);
    let text = reply_text(body_len, keep_alive);
    reveal_strlit("HTTP/1.1 200 OK\r\nContent-Length: ");
    reveal_strlit("HTTP/1.1 200 OK");
    reveal_strlit("\r\n");
    reveal_strlit(": ");
    reveal_strlit("\r\nConnection: ");
    reveal_strlit("Connection");
    reveal_strlit("Content-Length");
    reveal_strlit("\r\n\r\n");
    assert("HTTP/1.1 200 OK\r\nContent-Length: "@ =~= l0 + br + ("Content-Length"@ + ": "@));
    assert("\r\nConnection: "@ =~= br + ("Connection"@ + ": "@));
    assert("\r\n\r\n"@ =~= br + br);
    let none = Seq::<char>::empty();
    let t3 = none + br + none;
    let t2 = l2 + br + t3;
    let t1 = l1 + br + t2;
    let t0 = l0 + br + t1;
    assert(text =~= t0) by {
        let a = "HTTP/1.1 200 OK\r\nContent-Length: "@ + decimal(body_len);
        assert(a =~= l0 + br + l1);
        let b = "\r\nConnection: "@ + word + "\r\n\r\n"@;
        assert(b =~= br + l2 + br + br);
        assert(text =~= a + b);
        assert(t3 =~= br);
        assert(br + t2 =~= b);
        assert(t0 =~= l0 + br + l1 + (br + t2));
    }
    names_are_told_apart();
    words_are_understood(keep_alive);
    numbers_are_understood(body_len);
    one_line_sums("Connection"@, ": "@);
    one_line_sums("Connection"@ + ": "@, word);
    one_line_sums("Content-Length"@, ": "@);
    one_line_sums("Content-Length"@ + ": "@, decimal(body_len));
    first_line_is_split_off(l0, t1);
    first_line_is_split_off(l1, t2);
    first_line_is_split_off(l2, t3);
    first_line_is_split_off(none, none);
    assert(lines(none) =~= Seq::empty());
    assert(lines(text) =~= seq![l0, l1, l2, none]);
}

/// The head of an answer is read as it was meant: it is a success, its body has the length that was
/// sent, and the connection is kept if the responder keeps it.
pub proof fn replies_are_understood(body_len: int, keep_alive: bool)
    requires
        0 <= body_len <= usize::MAX,
    ensures
        ({
            let text = reply_text(body_len, keep_alive);
            &&& lines(text)[0] == "HTTP/1.1 200 OK"@
            &&& numeric_value(text, "content-length"@) == Some(body_len)
            &&& has_value(text, "connection"@, "keep-alive"@) == keep_alive
        }),
{
    let word = if keep_alive {
        "keep-alive"@
    } else {
        "close"@
    };
    let text = reply_text(body_len, keep_alive);
    reply_lines(body_len, keep_alive);
    names_are_told_apart();
    words_are_understood(keep_alive);
    numbers_are_understood(body_len);
    let list = lines(text);
    reveal_strlit("HTTP/1.1 200 OK");
    reveal_strlit("HTTP/1.1");
    reveal_strlit(" ");
    reveal_strlit("200 OK");
    assert("HTTP/1.1 200 OK"@ =~= "HTTP/1.1"@ + " "@ + "200 OK"@);
    let wanted = seq!["connection"@, "content-length"@];
    assert forall|i: int| 0 <= i < 2 implies {
        let name = #[trigger] wanted[i];
        &&& !line_has(list[0], name)
        &&& line_has(list[1], name) == (i == 1)
        &&& line_has(list[2], name) == (i == 0)
        &&& !line_has(list[3], name)
    } by {
        let name = wanted[i];
        first_lines_are_no_headers("HTTP/1.1"@, "200 OK"@, name);
        header_lines_are_understood("Connection"@, word, name);
        header_lines_are_understood("Content-Length"@, decimal(body_len), name);
        assert(lowered(name).len() == name.len());
    }
    assert(wanted[0] == "connection"@ && wanted[1] == "content-length"@);
    header_lines_are_understood("Connection"@, word, "connection"@);
    header_lines_are_understood("Content-Length"@, decimal(body_len), "content-length"@);
    reveal_with_fuel(text_value, 4);
    if keep_alive {
        assert(line_has(lines(text)[2], "connection"@));
    }
}

/// Client and responder agree: the answer to a request that a client writes has a body of exactly the
/// length that the client waits for, which is the response payload if that has this length, and both
/// sides keep the connection or neither does. The head of the answer says so.
pub proof fn client_and_responder_agree(
    scenario: Scenario,
    target: Seq<char>,
    keep_alive: bool,
    request_len: int,
    response_len: int,
    payload_len: int,
    reply: HttpReply,
)
    requires
        is_one_line(scenario.request.method@),
        !holds(scenario.request.method@, ':'),
        is_one_line(target),
        is_one_line(scenario.request.host@),
        0 <= request_len <= usize::MAX,
        0 <= response_len <= usize::MAX,
        is_reply(
            reply,
            request_text(scenario, target, keep_alive, request_len, response_len),
            payload_len,
        ),
    ensures
        reply.body_len == response_len,
        reply.payload_body == (response_len == payload_len),
        reply.keep_alive == keep_alive,
        lines(reply.head@)[0] == "HTTP/1.1 200 OK"@,
        numeric_value(reply.head@, "content-length"@) == Some(response_len),
        has_value(reply.head@, "connection"@, "keep-alive"@) == keep_alive,
{
    requests_are_understood(scenario, target, keep_alive, request_len, response_len);
    replies_are_understood(response_len, keep_alive);
}

/// Of a connection with a limit the transaction before the limit, and no other, is the last one;
/// without a limit there is none.
pub proof fn connections_have_one_last_transaction(limit: u32, index: u32)
    ensures
        limit == 0 ==> !is_last(limit, index),
        0 < limit ==> is_last(limit, (limit - 1) as u32),
        0 < limit && is_last(limit, index) ==> index + 1 == limit,
{
}

/// A request that goes to a proxy names the server in full, and asks for the path that one without
/// a proxy asks for: what is read behind the address is the path.
pub proof fn targets_hold_the_path(path: Seq<char>, address: Seq<char>)
    requires
        path.len() > 0,
        forall|i: int| 0 <= i < encode_utf8(address).len() ==> #[trigger] encode_utf8(address)[i] != 0x2f,
        encode_utf8(path).len() > 0,
        encode_utf8(path)[0] == 0x2f,
    ensures
        target_text(path, None) == path,
        target_path(encode_utf8(target_text(path, Some(address)))) == encode_utf8(path),
        target_text(path, Some(address)) == "http://"@ + address + path,
{
    reveal_strlit("http://");
    encodings_are_joined("http://"@, address);
    encodings_are_joined("http://"@ + address, path);
    is_ascii_chars_encode_utf8("http://"@);
    assert(encode_utf8("http://"@) =~= ascii("http://"@));
    paths_are_found(Seq::empty(), encode_utf8(address), encode_utf8(path));
}

/// The target of a request is one line if its parts are.
pub proof fn one_line_targets(path: Seq<char>, origin: Option<Seq<char>>)
    requires
        is_one_line(path),
        origin is Some ==> is_one_line(origin->0),
    ensures
        is_one_line(target_text(path, origin)),
{
    match origin {
        Some(address) => {
            reveal_strlit("http://");
            one_line_sums("http://"@, address);
            one_line_sums("http://"@ + address, path);
        },
        None => {},
    }
}

/// A request that does not say how many bytes it wants is answered with the response payload.
pub proof fn unasked_answers_are_the_payload(reply: HttpReply, text: Seq<char>, payload_len: int)
    requires
        is_reply(reply, text, payload_len),
        forall|i: int|
            0 <= i < lines(text).len() ==> !line_has(#[trigger] lines(text)[i], "x-response-bytes"@),
    ensures
        reply.body_len == payload_len,
        reply.payload_body,
{
    nothing_is_found(lines(text), "x-response-bytes"@, 0);
}

proof fn nothing_is_found(list: Seq<Seq<char>>, name: Seq<char>, from: int)
    requires
        0 <= from,
        forall|i: int| 0 <= i < list.len() ==> !line_has(#[trigger] list[i], name),
    ensures
        text_value(list, name, from) is None,
    decreases list.len() - from,
{
    if from < list.len() {
        assert(!line_has(list[from], name));
        nothing_is_found(list, name, from + 1);
    }
}

} // verus!
