//! The two sides of a workload fit together, and what is measured of it is what happened.
use crate::agent::connector::{connect_problem, connect_text, head_step, HeadStep};
use crate::agent::exchange::{first_line_is_split_off, is_one_line};
use crate::agent::http1::{reply_text, response_problem};
use crate::agent::http2::may_launch;
use crate::agent::payload::formatted;
use crate::agent::replay::{ReplayRole, Turns};
use crate::agent::rewriting::encodings_are_joined;
use crate::agent::tcp::{candidates_of, detection_of, step_of, Detection};
use crate::agent::telemetry::{failure_kinds, percentile_position, percentile_units, Percentile};
use crate::bytes::{ascii, occurs_at};
use crate::capture::http::head_end_mark;
use crate::capture::packet::Direction;
use crate::domain::load::{rounded, rounded_whole};
use crate::domain::payload::RandomFormat;
use crate::domain::scenario::Protocol;
use crate::text::{contains_text, lines, lower_char, lowered, stands_at};
use vstd::arithmetic::power2::pow2;
use vstd::prelude::*;
use vstd::utf8::{encode_utf8, is_ascii_chars_encode_utf8};

verus! {

/// Each side sends its own turns: the client those that go to the server, the server those that go
/// to the client, and all of their bytes.
pub proof fn sides_send_their_own_turns(length: int, protocol: Protocol)
    requires
        0 <= length <= usize::MAX,
    ensures
        step_of(Direction::ClientToServer, length, ReplayRole::Client, protocol).sends,
        !step_of(Direction::ClientToServer, length, ReplayRole::Server, protocol).sends,
        step_of(Direction::ServerToClient, length, ReplayRole::Server, protocol).sends,
        !step_of(Direction::ServerToClient, length, ReplayRole::Client, protocol).sends,
        step_of(Direction::ClientToServer, length, ReplayRole::Client, protocol).bytes == length,
        step_of(Direction::ServerToClient, length, ReplayRole::Client, protocol).bytes == length,
        !step_of(Direction::ClientToServer, length, ReplayRole::Client, protocol).completes,
        step_of(Direction::ServerToClient, length, ReplayRole::Client, Protocol::Http1).completes,
{
}

proof fn candidate_is_there(flows: Seq<Turns>, received: Seq<u8>, i: int, n: int)
    requires
        0 <= n <= flows.len(),
    ensures
        candidates_of(flows, received, n).contains(i) <==> 0 <= i < n && occurs_at(
            flows[i][0].1,
            received,
            0,
        ),
    decreases n,
{
    if n > 0 {
        candidate_is_there(flows, received, i, n - 1);
        let before = candidates_of(flows, received, n - 1);
        let after = candidates_of(flows, received, n);
        if occurs_at(flows[n - 1][0].1, received, 0) {
            assert(after == before.push(n - 1));
            assert(after[before.len() as int] == n - 1);
            if before.contains(i) {
                let k = choose|k: int| 0 <= k < before.len() && before[k] == i;
                assert(after[k] == i);
            }
            if after.contains(i) && i != n - 1 {
                let k = choose|k: int| 0 <= k < after.len() && after[k] == i;
                assert(before[k] == i);
            }
        }
    } else {
        assert(candidates_of(flows, received, 0) =~= Seq::empty());
    }
}

/// A responder that has received only a part of the first turn of a flow waits for more of it, and
/// one that has received what no flow starts with knows that.
pub proof fn parts_of_first_turns_are_waited_for(flows: Seq<Turns>, i: int, k: int, other: Seq<u8>)
    requires
        0 <= i < flows.len(),
        flows[i].len() > 0,
        0 <= k < flows[i][0].1.len(),
        forall|j: int| 0 <= j < flows.len() ==> !occurs_at(#[trigger] flows[j][0].1, other, 0),
    ensures
        detection_of(flows, flows[i][0].1.subrange(0, k)) == Detection::More,
        detection_of(flows, other) == Detection::NoMatch,
{
    let n = flows.len() as int;
    let part = flows[i][0].1.subrange(0, k);
    let list = candidates_of(flows, part, n);
    candidate_is_there(flows, part, i, n);
    assert(list.contains(i));
    if list.len() == 1 {
        candidate_is_there(flows, part, list[0], n);
        assert(list[0] == i);
    }
    let none = candidates_of(flows, other, n);
    if none.len() > 0 {
        candidate_is_there(flows, other, none[0], n);
        assert(none.contains(none[0]));
        assert(!occurs_at(flows[none[0]][0].1, other, 0));
    }
}

/// No more streams run at once than may, and none is opened beyond the transactions of its
/// connection; where neither limit is reached one is opened.
pub proof fn streams_stay_within_their_limits(
    running: int,
    concurrency: int,
    maximum: int,
    launched: int,
)
    requires
        0 <= running <= concurrency,
        0 <= launched,
        maximum == 0 || 0 <= launched <= maximum,
    ensures
        !may_launch(false, running, concurrency, maximum, launched),
        may_launch(true, running, concurrency, maximum, launched) ==> running + 1 <= concurrency
            && (maximum == 0 || launched + 1 <= maximum),
        running < concurrency && maximum == 0 ==> may_launch(
            true,
            running,
            concurrency,
            maximum,
            launched,
        ),
        running < concurrency && launched < maximum ==> may_launch(
            true,
            running,
            concurrency,
            maximum,
            launched,
        ),
{
}

/// A random payload has as many bytes as were drawn; in binary form they are those that were drawn,
/// and in printable form every one of them is a printable character, and any of them can come.
pub proof fn random_payloads_have_their_form(data: Seq<u8>, wanted: u8, i: int)
    requires
        0 <= i < data.len(),
        0x20 <= wanted <= 0x7e,
    ensures
        formatted(data, RandomFormat::Binary) == data,
        formatted(data, RandomFormat::PrintableAscii).len() == data.len(),
        0x20 <= formatted(data, RandomFormat::PrintableAscii)[i] <= 0x7e,
        formatted(seq![(wanted - 0x20) as u8], RandomFormat::PrintableAscii)[0] == wanted,
{
}

/// The percent that a percentile stands for.
pub open spec fn percent_of(p: Percentile) -> int {
    match p {
        Percentile::P50 => 50,
        Percentile::P95 => 95,
        Percentile::P99 => 99,
    }
}

/// The sample that stands for a percentile is the last one that has no more than that percentage of
/// the others below it.
pub proof fn percentiles_stand_in_their_place(count: int, p: Percentile)
    requires
        0 < count <= 0x1_0000_0000,
    ensures
        100 * percentile_position(count, p) <= percent_of(p) * (count - 1),
        percent_of(p) * (count - 1) <= 100 * percentile_position(count, p) + 100,
{
    let last = count - 1;
    let units = percentile_units(p);
    let whole = 0x20_0000_0000_0000int;
    if count > 1 {
        let num = last * units;
        assert(0x10_0000_0000_0000 <= num <= 0x1_0000_0000 * whole) by (nonlinear_arith)
            requires
                num == last * units,
                1 <= last <= 0x1_0000_0000,
                0x10_0000_0000_0000 <= units <= whole,
        ;
        rounded_whole(num);
        let x = rounded(num, 1);
        let power = pow2(x.e as nat) as int;
        let v = x.m * power;
        assert(power * 0x10_0000_0000_0000 <= num);
        assert(-power <= 2 * (v - num) <= power);
        assert(num <= last * whole) by (nonlinear_arith)
            requires
                num == last * units,
                0 <= last,
                units <= whole,
        ;
        assert(power <= 2 * last);
        assert(-last <= v - num <= last);
        let off = 100 * units - percent_of(p) * whole;
        assert(-100 <= off <= 100);
        assert(100 * num - percent_of(p) * whole * last == off * last) by (nonlinear_arith)
            requires
                num == last * units,
                off == 100 * units - percent_of(p) * whole,
        ;
        assert(-100 * last <= off * last <= 100 * last) by (nonlinear_arith)
            requires
                -100 <= off <= 100,
                last >= 0,
        ;
        let position = v / whole;
        assert(position == percentile_position(count, p));
        let exact = percent_of(p) * last;
        assert(percent_of(p) * whole * last == exact * whole) by (nonlinear_arith)
            requires
                exact == percent_of(p) * last,
        ;
        assert(-200 * last <= 100 * v - exact * whole <= 200 * last);
        assert(position * whole <= v < position * whole + whole) by (nonlinear_arith)
            requires
                position == v / whole,
                whole > 0,
        ;
        assert(100 * position * whole < exact * whole + whole);
        assert(exact * whole < (100 * position + 100) * whole + whole);
        assert(100 * position < exact + 1) by (nonlinear_arith)
            requires
                100 * position * whole < exact * whole + whole,
                whole > 0,
        ;
        assert(exact < 100 * position + 100 + 1) by (nonlinear_arith)
            requires
                exact * whole < (100 * position + 100) * whole + whole,
                whole > 0,
        ;
    }
}

proof fn words_stand_in_a_message(before: Seq<char>, word: Seq<char>, after: Seq<char>)
    requires
        lowered(word) == word,
    ensures
        contains_text(lowered(before + word + after), word),
{
    let whole = lowered(before + word + after);
    let n = before.len() as int;
    assert(whole.subrange(n, n + word.len()) =~= word) by {
        assert forall|i: int| 0 <= i < word.len() implies whole.subrange(n, n + word.len())[i]
            == word[i] by {
            assert((before + word + after)[n + i] == word[i]);
            assert(lowered(word)[i] == lower_char(word[i]));
        }
    }
    assert(stands_at(whole, word, n));
}

/// A failure is told by the words in its message, wherever they stand in it.
pub proof fn failures_are_told_by_their_words(before: Seq<char>, after: Seq<char>)
    ensures
        failure_kinds(before + "deadline has elapsed"@ + after).timeout,
        failure_kinds(before + "timed out"@ + after).timeout,
        failure_kinds(before + "connection reset"@ + after).reset,
        failure_kinds(before + "forcibly closed"@ + after).reset,
        failure_kinds(before + "tls handshake failed"@ + after).tls_handshake,
        failure_kinds(before + "http connect failed"@ + after).proxy_connect,
        failure_kinds(before + "http error response"@ + after).http_error,
{
    reveal_strlit("deadline has elapsed");
    reveal_strlit("timed out");
    reveal_strlit("connection reset");
    reveal_strlit("forcibly closed");
    reveal_strlit("tls handshake failed");
    reveal_strlit("http connect failed");
    reveal_strlit("http error response");
    assert(lowered("deadline has elapsed"@) =~= "deadline has elapsed"@);
    assert(lowered("timed out"@) =~= "timed out"@);
    assert(lowered("connection reset"@) =~= "connection reset"@);
    assert(lowered("forcibly closed"@) =~= "forcibly closed"@);
    assert(lowered("tls handshake failed"@) =~= "tls handshake failed"@);
    assert(lowered("http connect failed"@) =~= "http connect failed"@);
    assert(lowered("http error response"@) =~= "http error response"@);
    words_stand_in_a_message(before, "deadline has elapsed"@, after);
    words_stand_in_a_message(before, "timed out"@, after);
    words_stand_in_a_message(before, "connection reset"@, after);
    words_stand_in_a_message(before, "forcibly closed"@, after);
    words_stand_in_a_message(before, "tls handshake failed"@, after);
    words_stand_in_a_message(before, "http connect failed"@, after);
    words_stand_in_a_message(before, "http error response"@, after);
}

/// Case does not matter in the message of a failure.
pub proof fn case_does_not_matter_in_failures(message: Seq<char>)
    ensures
        failure_kinds(lowered(message)) == failure_kinds(message),
{
    assert forall|i: int| 0 <= i < message.len() implies lower_char(
        lower_char(#[trigger] message[i]),
    ) == lower_char(message[i]) by {
        lower_is_lower(message[i]);
    }
    assert(lowered(lowered(message)) =~= lowered(message));
}

proof fn lower_is_lower(c: char)
    ensures
        lower_char(lower_char(c)) == lower_char(c),
{
    if 'A' <= c <= 'Z' {
        assert((c as u32 + 0x20) as char as u32 == c as u32 + 0x20);
    }
}

/// A response that is refused for its status is counted as one.
pub proof fn refused_responses_are_counted(head: Seq<u8>)
    requires
        response_problem(head) is Some,
    ensures
        failure_kinds(response_problem(head)->0).http_error,
{
    let message = response_problem(head)->0;
    let start = "HTTP error response "@;
    reveal_strlit("HTTP error response ");
    reveal_strlit("http error response");
    let rest = message.subrange(start.len() as int, message.len() as int);
    assert(message =~= start + rest);
    let text = lowered(message);
    assert(text.subrange(0, 19) =~= "http error response"@) by {
        assert forall|i: int| 0 <= i < 19 implies text.subrange(0, 19)[i]
            == "http error response"@[i] by {
            assert(message[i] == start[i]);
        }
    }
    assert(stands_at(text, "http error response"@, 0));
}

/// A client takes every answer of a responder for a success.
pub proof fn answers_are_successes(body_len: int, keep_alive: bool)
    ensures
        response_problem(encode_utf8(reply_text(body_len, keep_alive))) is None,
{
    let text = reply_text(body_len, keep_alive);
    let start = "HTTP/1.1 200 OK\r\nContent-Length: "@;
    reveal_strlit("HTTP/1.1 200 OK\r\nContent-Length: ");
    reveal_strlit("HTTP/1.1 2");
    let rest = text.subrange(start.len() as int, text.len() as int);
    assert(text =~= start + rest);
    encodings_are_joined(start, rest);
    is_ascii_chars_encode_utf8(start);
    let bytes = encode_utf8(text);
    assert(encode_utf8(start) =~= ascii(start));
    assert(bytes.subrange(0, 10) =~= ascii("HTTP/1.1 2"@));
}

/// A success is any status from 200 to 299 over HTTP/1.1, and nothing else.
pub proof fn successes_have_their_status(digits: Seq<u8>, rest: Seq<u8>)
    requires
        digits.len() == 3,
    ensures
        (response_problem(ascii("HTTP/1.1 "@) + digits + rest) is None) == (digits[0] == 0x32),
{
    reveal_strlit("HTTP/1.1 ");
    reveal_strlit("HTTP/1.1 2");
    let head = ascii("HTTP/1.1 "@) + digits + rest;
    assert(head[9] == digits[0]);
    let wanted = ascii("HTTP/1.1 2"@);
    assert(wanted[9] == 0x32);
    if digits[0] == 0x32 {
        assert(head.subrange(0, 10) =~= wanted);
    } else {
        assert(head.subrange(0, 10)[9] != wanted[9]);
    }
}

/// A proxy grants a tunnel with the status 200, over HTTP/1.1 or HTTP/1.0, and with no other.
pub proof fn tunnels_are_granted_with_status_200(minor: u8, digits: Seq<u8>, rest: Seq<u8>)
    requires
        digits.len() == 3,
    ensures
        (connect_problem(
            ascii("HTTP/1."@) + seq![minor, 0x20u8] + digits + rest,
        ) is None) == ((minor == 0x30 || minor == 0x31) && digits[0] == 0x32 && digits[1] == 0x30
            && digits[2] == 0x30),
{
    reveal_strlit("HTTP/1.");
    reveal_strlit("HTTP/1.1 200");
    reveal_strlit("HTTP/1.0 200");
    let head = ascii("HTTP/1."@) + seq![minor, 0x20u8] + digits + rest;
    let one = ascii("HTTP/1.1 200"@);
    let zero = ascii("HTTP/1.0 200"@);
    let start = head.subrange(0, 12);
    assert(head[7] == minor && head[9] == digits[0] && head[10] == digits[1] && head[11]
        == digits[2]);
    assert(start[7] == minor && start[9] == digits[0] && start[10] == digits[1] && start[11]
        == digits[2]);
    assert(one[7] == 0x31 && one[9] == 0x32 && one[10] == 0x30 && one[11] == 0x30);
    assert(zero[7] == 0x30 && zero[9] == 0x32 && zero[10] == 0x30 && zero[11] == 0x30);
    if minor == 0x31 && digits[0] == 0x32 && digits[1] == 0x30 && digits[2] == 0x30 {
        assert(start =~= one);
    }
    if minor == 0x30 && digits[0] == 0x32 && digits[1] == 0x30 && digits[2] == 0x30 {
        assert(start =~= zero);
    }
}

/// A request for a tunnel asks for the target, names it as the host and ends with an empty line.
pub proof fn tunnels_are_asked_for(target: Seq<char>)
    requires
        is_one_line(target),
    ensures
        lines(connect_text(target))[0] == "CONNECT "@ + target + " HTTP/1.1"@,
        lines(connect_text(target))[1] == "Host: "@ + target,
        lines(connect_text(target)).last().len() == 0,
{
    reveal_strlit("CONNECT ");
    reveal_strlit(" HTTP/1.1\r\nHost: ");
    reveal_strlit(" HTTP/1.1");
    reveal_strlit("Host: ");
    reveal_strlit("\r\nProxy-Connection: keep-alive\r\n\r\n");
    reveal_strlit("Proxy-Connection: keep-alive");
    reveal_strlit("\r\n");
    let br = "\r\n"@;
    let none = Seq::<char>::empty();
    let l0 = "CONNECT "@ + target + " HTTP/1.1"@;
    let l1 = "Host: "@ + target;
    let l2 = "Proxy-Connection: keep-alive"@;
    assert(" HTTP/1.1\r\nHost: "@ =~= " HTTP/1.1"@ + br + "Host: "@);
    assert("\r\nProxy-Connection: keep-alive\r\n\r\n"@ =~= br + l2 + br + br);
    let t3 = none + br + none;
    let t2 = l2 + br + t3;
    let t1 = l1 + br + t2;
    assert(t3 =~= br);
    assert(connect_text(target) =~= l0 + br + t1) by {
        assert(br + t2 =~= br + l2 + br + br);
        assert(l0 + br + t1 =~= l0 + br + l1 + (br + t2));
    }
    assert forall|i: int| 0 <= i < l0.len() implies #[trigger] l0[i] != '\n' && l0[i] != '\r' by {
        let k = "CONNECT "@.len();
        if k <= i < k + target.len() {
            assert(l0[i] == target[i - k]);
        } else if i < k {
            assert(l0[i] == "CONNECT "@[i]);
        } else {
            assert(l0[i] == " HTTP/1.1"@[i - k - target.len()]);
        }
    }
    assert forall|i: int| 0 <= i < l1.len() implies #[trigger] l1[i] != '\n' && l1[i] != '\r' by {
        let k = "Host: "@.len();
        if i < k {
            assert(l1[i] == "Host: "@[i]);
        } else {
            assert(l1[i] == target[i - k]);
        }
    }
    first_line_is_split_off(l0, t1);
    first_line_is_split_off(l1, t2);
    first_line_is_split_off(l2, t3);
    first_line_is_split_off(none, none);
    assert(lines(none) =~= Seq::empty());
    assert(lines(connect_text(target)) =~= seq![l0, l1, l2, none]);
}

/// The head of an answer is complete with its empty line, however long it is, and never before; it is
/// too large once it has reached the limit without one.
pub proof fn heads_are_complete_with_their_empty_line(head: Seq<u8>)
    ensures
        head_step(head + head_end_mark()) == HeadStep::Complete,
        head_step(head) == HeadStep::Complete ==> head.len() >= 4 && head[head.len() - 1] == 0x0a
            && head[head.len() - 2] == 0x0d && head[head.len() - 3] == 0x0a && head[head.len() - 4]
            == 0x0d,
        head_step(head) == HeadStep::More ==> head.len() < 16384,
        head_step(head) == HeadStep::TooLarge ==> head.len() >= 16384,
{
    let whole = head + head_end_mark();
    assert(whole.subrange(whole.len() - 4, whole.len() as int) =~= head_end_mark());
    if head_step(head) == HeadStep::Complete {
        let n = head.len() as int;
        let end = head.subrange(n - 4, n);
        assert(end == head_end_mark());
        assert(end[0] == head[n - 4] && end[1] == head[n - 3] && end[2] == head[n - 2] && end[3]
            == head[n - 1]);
    }
}

} // verus!
