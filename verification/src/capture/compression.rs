//! What header blocks of HTTP/2 are made of is what is read of them.
use crate::capture::hpack::{
    codes_of, entry_size, fitting, held, number_at, number_from, static_lengths, text_at,
};
use vstd::prelude::*;

verus! {

/// The codes of one length follow those of the length before it that has any, as many bits longer, and
/// the last of the longest codes has all bits set: no code is the start of another, and every sequence
/// of bits starts with one. There is a code for each of the 256 characters and one for the end.
pub proof fn codes_are_complete()
    ensures
        codes_of(5).0 == 0,
        codes_of(6).0 == 2 * (codes_of(5).0 + codes_of(5).1),
        codes_of(7).0 == 2 * (codes_of(6).0 + codes_of(6).1),
        codes_of(8).0 == 2 * (codes_of(7).0 + codes_of(7).1),
        codes_of(10).0 == 4 * (codes_of(8).0 + codes_of(8).1),
        codes_of(11).0 == 2 * (codes_of(10).0 + codes_of(10).1),
        codes_of(12).0 == 2 * (codes_of(11).0 + codes_of(11).1),
        codes_of(13).0 == 2 * (codes_of(12).0 + codes_of(12).1),
        codes_of(14).0 == 2 * (codes_of(13).0 + codes_of(13).1),
        codes_of(15).0 == 2 * (codes_of(14).0 + codes_of(14).1),
        codes_of(19).0 == 16 * (codes_of(15).0 + codes_of(15).1),
        codes_of(20).0 == 2 * (codes_of(19).0 + codes_of(19).1),
        codes_of(21).0 == 2 * (codes_of(20).0 + codes_of(20).1),
        codes_of(22).0 == 2 * (codes_of(21).0 + codes_of(21).1),
        codes_of(23).0 == 2 * (codes_of(22).0 + codes_of(22).1),
        codes_of(24).0 == 2 * (codes_of(23).0 + codes_of(23).1),
        codes_of(25).0 == 2 * (codes_of(24).0 + codes_of(24).1),
        codes_of(26).0 == 2 * (codes_of(25).0 + codes_of(25).1),
        codes_of(27).0 == 2 * (codes_of(26).0 + codes_of(26).1),
        codes_of(28).0 == 2 * (codes_of(27).0 + codes_of(27).1),
        codes_of(30).0 == 4 * (codes_of(28).0 + codes_of(28).1),
        codes_of(30).0 + codes_of(30).1 == 0x4000_0000,
        codes_of(5).1 + codes_of(6).1 + codes_of(7).1 + codes_of(8).1 + codes_of(10).1
            + codes_of(11).1 + codes_of(12).1 + codes_of(13).1 + codes_of(14).1 + codes_of(15).1
            + codes_of(19).1 + codes_of(20).1 + codes_of(21).1 + codes_of(22).1 + codes_of(23).1
            + codes_of(24).1 + codes_of(25).1 + codes_of(26).1 + codes_of(27).1 + codes_of(28).1
            + codes_of(30).1 == 257,
        forall|length: int|
            length < 5 || length == 9 || 16 <= length <= 18 || length == 29 || length > 30
                ==> #[trigger] codes_of(length) == (0int, 0int),
{
}

/// A number in groups of seven bits, the least significant first; all but the last have their highest
/// bit set.
pub open spec fn groups(n: int) -> Seq<u8>
    decreases n,
{
    if n < 128 {
        seq![n as u8]
    } else {
        seq![(128 + n % 128) as u8] + groups(n / 128)
    }
}

proof fn groups_are_read(
    front: Seq<u8>,
    n: int,
    rest: Seq<u8>,
    weight: int,
    value: int,
    left: int,
)
    requires
        0 <= n,
        groups(n).len() <= left,
    ensures
        number_from(front + groups(n) + rest, front.len() as int, weight, value, left) == Some(
            (value + n * weight, (front.len() + groups(n).len()) as int),
        ),
    decreases n,
{
    let s = front + groups(n) + rest;
    let at = front.len() as int;
    if n < 128 {
        assert(s[at] == n as u8);
    } else {
        let b = (128 + n % 128) as u8;
        let more = groups(n / 128);
        assert(groups(n) =~= seq![b] + more);
        assert(s[at] == b);
        assert(b % 128 == n % 128);
        groups_are_read(
            front.push(b),
            n / 128,
            rest,
            weight * 128,
            value + (n % 128) * weight,
            left - 1,
        );
        assert(s =~= front.push(b) + more + rest);
        assert(value + (n % 128) * weight + (n / 128) * (weight * 128) == value + n * weight)
            by (nonlinear_arith)
            requires
                n == (n / 128) * 128 + n % 128,
        ;
    }
}

/// A number is read back: one that the low bits of a byte hold from that byte alone, a greater one from
/// these bits, all set, and the rest of it in groups behind them.
pub proof fn numbers_are_read(front: Seq<u8>, high: u8, top: u8, n: int, rest: Seq<u8>)
    requires
        top == 16 || top == 32 || top == 64 || top == 128,
        high % top == 0,
        0 <= n,
        groups(n).len() <= 4,
    ensures
        n < top - 1 ==> number_at(
            front + seq![(high + n) as u8] + rest,
            front.len() as int,
            top as int,
        ) == Some((n, (front.len() + 1) as int)),
        number_at(
            front + seq![(high + (top - 1)) as u8] + groups(n) + rest,
            front.len() as int,
            top as int,
        ) == Some((top - 1 + n, (front.len() + 1 + groups(n).len()) as int)),
{
    let at = front.len() as int;
    if n < top - 1 {
        let b = (high + n) as u8;
        let s = front + seq![b] + rest;
        assert(s[at] == b);
        assert(high + n <= 255 && (high + n) % (top as int) == n) by (nonlinear_arith)
            requires
                high as int % (top as int) == 0,
                0 <= n < top - 1,
                top == 16 || top == 32 || top == 64 || top == 128,
                0 <= high <= 255,
        ;
    }
    let b = (high + (top - 1)) as u8;
    let begin = front.push(b);
    let s = front + seq![b] + groups(n) + rest;
    assert(s =~= begin + groups(n) + rest);
    assert(s[at] == b);
    assert(high + (top - 1) <= 255 && (high + (top - 1)) % (top as int) == top - 1)
        by (nonlinear_arith)
        requires
            high as int % (top as int) == 0,
            top == 16 || top == 32 || top == 64 || top == 128,
            0 <= high <= 255,
    ;
    groups_are_read(begin, n, rest, 1, top - 1, 4);
}

/// A text that is written as it is has the length that stands before it.
pub proof fn plain_texts_are_read(front: Seq<u8>, text: Seq<u8>, rest: Seq<u8>)
    requires
        text.len() < 127,
    ensures
        text_at(front + seq![text.len() as u8] + text + rest, front.len() as int) == Some(
            (text.len() as int, (front.len() + 1 + text.len()) as int),
        ),
{
    let n = text.len() as int;
    let s = front + seq![n as u8] + text + rest;
    assert(s[front.len() as int] == n as u8);
}

/// How many bytes header fields take.
pub open spec fn size_of(entries: Seq<(int, int)>, from: int) -> int
    decreases entries.len() - from,
{
    if from >= entries.len() {
        0
    } else {
        32 + entries[from].0 + entries[from].1 + size_of(entries, from + 1)
    }
}

proof fn fitting_fields(entries: Seq<(int, int)>, from: int, room: int)
    requires
        0 <= from <= entries.len(),
        0 <= room,
    ensures
        ({
            let n = fitting(entries, from, room);
            let kept = entries.subrange(0, from + n);
            &&& 0 <= n <= entries.len() - from
            &&& size_of(kept, from) <= room
            &&& from + n < entries.len() ==> size_of(kept, from) + 32 + entries[from + n].0
                + entries[from + n].1 > room
        }),
    decreases entries.len() - from,
{
    if from < entries.len() && entry_size(entries[from]) <= room {
        fitting_fields(entries, from + 1, room - entry_size(entries[from]));
        let n = fitting(entries, from, room);
        let kept = entries.subrange(0, from + n);
        assert(kept =~= entries.subrange(0, from + 1 + fitting(
            entries,
            from + 1,
            room - entry_size(entries[from]),
        )));
        assert(kept[from] == entries[from]);
    } else {
        assert(size_of(entries.subrange(0, from), from) == 0);
    }
}

/// The header fields that are remembered fit in the room for them, each with 32 bytes besides its name
/// and its value; they are the latest, and the next older one would not fit.
pub proof fn remembered_fields_fit(entries: Seq<(int, int)>, room: int)
    requires
        0 <= room,
    ensures
        ({
            let kept = held(entries, room).entries;
            let n = kept.len() as int;
            &&& n <= entries.len()
            &&& kept == entries.subrange(0, n)
            &&& size_of(kept, 0) <= room
            &&& n < entries.len() ==> size_of(kept, 0) + 32 + entries[n].0 + entries[n].1 > room
            &&& held(entries, room).room == room
        }),
{
    fitting_fields(entries, 0, room);
}

/// The names of the header fields that every connection knows, in their order.
pub open spec fn known_names() -> Seq<Seq<char>> {
    seq![
        ":authority"@,
        ":method"@,
        ":method"@,
        ":path"@,
        ":path"@,
        ":scheme"@,
        ":scheme"@,
        ":status"@,
        ":status"@,
        ":status"@,
        ":status"@,
        ":status"@,
        ":status"@,
        ":status"@,
        "accept-charset"@,
        "accept-encoding"@,
        "accept-language"@,
        "accept-ranges"@,
        "accept"@,
        "access-control-allow-origin"@,
        "age"@,
        "allow"@,
        "authorization"@,
        "cache-control"@,
        "content-disposition"@,
        "content-encoding"@,
        "content-language"@,
        "content-length"@,
        "content-location"@,
        "content-range"@,
        "content-type"@,
        "cookie"@,
        "date"@,
        "etag"@,
        "expect"@,
        "expires"@,
        "from"@,
        "host"@,
        "if-match"@,
        "if-modified-since"@,
        "if-none-match"@,
        "if-range"@,
        "if-unmodified-since"@,
        "last-modified"@,
        "link"@,
        "location"@,
        "max-forwards"@,
        "proxy-authenticate"@,
        "proxy-authorization"@,
        "range"@,
        "referer"@,
        "refresh"@,
        "retry-after"@,
        "server"@,
        "set-cookie"@,
        "strict-transport-security"@,
        "transfer-encoding"@,
        "user-agent"@,
        "vary"@,
        "via"@,
        "www-authenticate"@,
    ]
}

/// The lengths of the known names are those of the names.
pub proof fn known_names_have_their_length(i: int)
    requires
        0 <= i < 61,
    ensures
        known_names().len() == 61,
        static_lengths().len() == 61,
        static_lengths()[i] == known_names()[i].len(),
{
    reveal_strlit(":authority");
    reveal_strlit(":method");
    reveal_strlit(":path");
    reveal_strlit(":scheme");
    reveal_strlit(":status");
    reveal_strlit("accept-charset");
    reveal_strlit("accept-encoding");
    reveal_strlit("accept-language");
    reveal_strlit("accept-ranges");
    reveal_strlit("accept");
    reveal_strlit("access-control-allow-origin");
    reveal_strlit("age");
    reveal_strlit("allow");
    reveal_strlit("authorization");
    reveal_strlit("cache-control");
    reveal_strlit("content-disposition");
    reveal_strlit("content-encoding");
    reveal_strlit("content-language");
    reveal_strlit("content-length");
    reveal_strlit("content-location");
    reveal_strlit("content-range");
    reveal_strlit("content-type");
    reveal_strlit("cookie");
    reveal_strlit("date");
    reveal_strlit("etag");
    reveal_strlit("expect");
    reveal_strlit("expires");
    reveal_strlit("from");
    reveal_strlit("host");
    reveal_strlit("if-match");
    reveal_strlit("if-modified-since");
    reveal_strlit("if-none-match");
    reveal_strlit("if-range");
    reveal_strlit("if-unmodified-since");
    reveal_strlit("last-modified");
    reveal_strlit("link");
    reveal_strlit("location");
    reveal_strlit("max-forwards");
    reveal_strlit("proxy-authenticate");
    reveal_strlit("proxy-authorization");
    reveal_strlit("range");
    reveal_strlit("referer");
    reveal_strlit("refresh");
    reveal_strlit("retry-after");
    reveal_strlit("server");
    reveal_strlit("set-cookie");
    reveal_strlit("strict-transport-security");
    reveal_strlit("transfer-encoding");
    reveal_strlit("user-agent");
    reveal_strlit("vary");
    reveal_strlit("via");
    reveal_strlit("www-authenticate");
    let lengths = known_names().map_values(|name: Seq<char>| name.len() as u8);
    assert(lengths =~= static_lengths());
    assert(lengths[i] == static_lengths()[i]);
    assert(known_names()[i].len() <= 27);
}

} // verus!
