//! What becomes of the lines of a captured request that is sent again.
use crate::agent::replay::{
    host_line, is_host_line, names_host, new_lines, new_target, rewritten, target_path,
};
use crate::bytes::{
    ascii, fields, fields_from, find_from, find_from_is_first, lower, next_sep, occurs_at,
    same_ignoring_case,
};
use crate::capture::http::{chomp, crlf, head_end_mark};
use crate::text::utf8_lossy;
use vstd::prelude::*;
use vstd::utf8::{encode_utf8, is_ascii_chars_encode_utf8};

verus! {

/// Those of the first `n` pieces that are lines: without the carriage return at their end they are
/// not empty.
pub open spec fn lines_among(pieces: Seq<Seq<u8>>, n: int) -> Seq<Seq<u8>>
    decreases n,
{
    if n <= 0 {
        Seq::empty()
    } else {
        let line = chomp(pieces[n - 1]);
        if line.len() == 0 {
            lines_among(pieces, n - 1)
        } else {
            lines_among(pieces, n - 1).push(line)
        }
    }
}

/// The header lines in a block of them.
pub open spec fn header_lines(block: Seq<u8>) -> Seq<Seq<u8>> {
    lines_among(fields(block, 0x0a), fields(block, 0x0a).len() as int)
}

/// A header line has a field: it is the name, up to case, or starts with the name and a colon.
pub open spec fn has_field(line: Seq<u8>, name: Seq<u8>) -> bool {
    &&& name.len() <= line.len()
    &&& same_ignoring_case(line.subrange(0, name.len() as int), name)
    &&& line.len() == name.len() || line[name.len() as int] == 0x3a
}

/// A byte string has no line breaks.
pub open spec fn is_unbroken(s: Seq<u8>) -> bool {
    forall|i: int| 0 <= i < s.len() ==> #[trigger] s[i] != 0x0a && s[i] != 0x0d
}

/// The header line that names a host.
pub open spec fn host_header(host: Seq<char>) -> Seq<u8> {
    ascii("Host: "@) + encode_utf8(host)
}

/// The first position with a byte is where it stands and does not stand before.
pub proof fn sep_stands_at(s: Seq<u8>, sep: u8, start: int, at: int)
    requires
        0 <= start <= at <= s.len(),
        forall|i: int| start <= i < at ==> s[i] != sep,
        at < s.len() ==> s[at] == sep,
    ensures
        next_sep(s, sep, start) == at,
    decreases at - start,
{
    if start < at {
        sep_stands_at(s, sep, start + 1, at);
    }
}

proof fn sep_is_found(s: Seq<u8>, sep: u8, start: int)
    requires
        0 <= start <= s.len(),
    ensures
        start <= next_sep(s, sep, start) <= s.len(),
        next_sep(s, sep, start) < s.len() ==> s[next_sep(s, sep, start)] == sep,
        forall|i: int| start <= i < next_sep(s, sep, start) ==> s[i] != sep,
    decreases s.len() - start,
{
    if start < s.len() && s[start] != sep {
        sep_is_found(s, sep, start + 1);
    }
}

proof fn fields_are_read_alone(front: Seq<u8>, s: Seq<u8>, sep: u8, start: int)
    requires
        0 <= start <= s.len(),
    ensures
        fields_from(front + s, sep, front.len() + start) == fields_from(s, sep, start),
    decreases s.len() - start,
{
    let whole = front + s;
    let n = front.len() as int;
    sep_is_found(s, sep, start);
    let end = next_sep(s, sep, start);
    sep_stands_at(whole, sep, n + start, n + end);
    if end < s.len() {
        assert(whole.subrange(n + start, n + end) =~= s.subrange(start, end));
        fields_are_read_alone(front, s, sep, end + 1);
    } else {
        assert(whole.subrange(n + start, whole.len() as int) =~= s.subrange(start, s.len() as int));
    }
}

proof fn fields_from_are_joined(a: Seq<u8>, b: Seq<u8>, sep: u8, start: int)
    requires
        0 <= start <= a.len(),
    ensures
        fields_from(a + seq![sep] + b, sep, start) == fields_from(a, sep, start) + fields(b, sep),
    decreases a.len() - start,
{
    let front = a + seq![sep];
    let whole = front + b;
    sep_is_found(a, sep, start);
    let end = next_sep(a, sep, start);
    assert(whole[a.len() as int] == sep);
    sep_stands_at(whole, sep, start, end);
    assert(whole.subrange(start, end) =~= a.subrange(start, end));
    if end < a.len() {
        fields_from_are_joined(a, b, sep, end + 1);
    } else {
        fields_are_read_alone(front, b, sep, 0);
    }
    assert(fields_from(whole, sep, start) =~= fields_from(a, sep, start) + fields(b, sep));
}

/// The fields on both sides of a separator are those of what stands before it and those of what
/// stands behind it.
pub proof fn fields_are_joined(a: Seq<u8>, b: Seq<u8>, sep: u8)
    ensures
        fields(a + seq![sep] + b, sep) == fields(a, sep) + fields(b, sep),
{
    fields_from_are_joined(a, b, sep, 0);
}

proof fn lines_are_joined(a: Seq<Seq<u8>>, b: Seq<Seq<u8>>, n: int)
    requires
        0 <= n <= b.len(),
    ensures
        lines_among(a + b, a.len() + n) == lines_among(a, a.len() as int) + lines_among(b, n),
    decreases a.len() + n,
{
    if n > 0 {
        lines_are_joined(a, b, n - 1);
        assert((a + b)[a.len() + n - 1] == b[n - 1]);
        assert(lines_among(a + b, a.len() + n) =~= lines_among(a, a.len() as int) + lines_among(
            b,
            n,
        ));
    } else {
        first_lines(a, b, a.len() as int);
        assert(lines_among(b, 0) =~= Seq::empty());
        assert(lines_among(a, a.len() as int) + lines_among(b, 0) =~= lines_among(
            a,
            a.len() as int,
        ));
    }
}

proof fn first_lines(a: Seq<Seq<u8>>, b: Seq<Seq<u8>>, n: int)
    requires
        0 <= n <= a.len(),
    ensures
        lines_among(a + b, n) == lines_among(a, n),
    decreases n,
{
    if n > 0 {
        first_lines(a, b, n - 1);
        assert((a + b)[n - 1] == a[n - 1]);
    }
}

proof fn blocks_are_joined(a: Seq<u8>, b: Seq<u8>)
    ensures
        header_lines(a + seq![0x0au8] + b) == header_lines(a) + header_lines(b),
{
    fields_from_are_joined(a, b, 0x0a, 0);
    lines_are_joined(fields(a, 0x0a), fields(b, 0x0a), fields(b, 0x0a).len() as int);
}

proof fn no_lines()
    ensures
        header_lines(Seq::empty()) == Seq::<Seq<u8>>::empty(),
{
    let none = Seq::<u8>::empty();
    assert(fields(none, 0x0a) =~= seq![none.subrange(0, 0)]);
    assert(none.subrange(0, 0) =~= none);
    reveal_with_fuel(lines_among, 2);
}

proof fn one_piece(line: Seq<u8>)
    requires
        forall|i: int| 0 <= i < line.len() ==> #[trigger] line[i] != 0x0a,
    ensures
        header_lines(line.push(0x0d)) == (if line.len() == 0 {
            Seq::<Seq<u8>>::empty()
        } else {
            seq![line]
        }),
{
    let piece = line.push(0x0d);
    assert forall|i: int| 0 <= i < piece.len() implies piece[i] != 0x0a by {
        if i < line.len() {
            assert(piece[i] == line[i]);
        }
    }
    sep_stands_at(piece, 0x0a, 0, piece.len() as int);
    assert(piece.subrange(0, piece.len() as int) =~= piece);
    assert(fields(piece, 0x0a) =~= seq![piece]);
    assert(chomp(piece) =~= line);
    reveal_with_fuel(lines_among, 2);
    assert(lines_among(seq![piece], 1) =~= if line.len() == 0 {
        Seq::<Seq<u8>>::empty()
    } else {
        seq![line]
    });
}

/// A block of whole lines.
spec fn is_closed(block: Seq<u8>) -> bool {
    block.len() == 0 || block.last() == 0x0a
}

/// A line behind a block of whole lines is one more line.
proof fn line_is_added(block: Seq<u8>, line: Seq<u8>)
    requires
        is_closed(block),
        forall|i: int| 0 <= i < line.len() ==> #[trigger] line[i] != 0x0a,
    ensures
        header_lines(block + line + crlf()) == header_lines(block) + (if line.len() == 0 {
            Seq::<Seq<u8>>::empty()
        } else {
            seq![line]
        }),
        is_closed(block + line + crlf()),
{
    let none = Seq::<u8>::empty();
    let piece = line.push(0x0d);
    let all = block + line + crlf();
    no_lines();
    one_piece(line);
    blocks_are_joined(piece, none);
    if block.len() == 0 {
        assert(all =~= piece + seq![0x0au8] + none);
        assert(header_lines(block) =~= Seq::empty()) by {
            assert(block =~= none);
        }
    } else {
        let front = block.drop_last();
        let back = piece + seq![0x0au8] + none;
        assert(block =~= front + seq![0x0au8] + none);
        blocks_are_joined(front, none);
        blocks_are_joined(front, back);
        assert(all =~= front + seq![0x0au8] + back);
    }
    assert(header_lines(all) =~= header_lines(block) + (if line.len() == 0 {
        Seq::<Seq<u8>>::empty()
    } else {
        seq![line]
    }));
}

proof fn hosts_are_recognised(line: Seq<u8>)
    ensures
        is_host_line(line) == has_field(line, ascii("host"@)),
{
    reveal_strlit("host");
    let name = ascii("host"@);
    assert(name =~= seq![0x68u8, 0x6f, 0x73, 0x74]);
    sep_is_found(line, 0x3a, 0);
    let colon = next_sep(line, 0x3a, 0);
    let first = line.subrange(0, colon);
    assert(fields(line, 0x3a)[0] =~= first);
    if has_field(line, name) {
        assert forall|i: int| 0 <= i < 4 implies line[i] != 0x3a by {
            assert(lower(line.subrange(0, 4)[i]) == lower(name[i]));
            assert(name[i] == 0x68 || name[i] == 0x6f || name[i] == 0x73 || name[i] == 0x74);
        }
        sep_stands_at(line, 0x3a, 0, 4);
        assert(first =~= line.subrange(0, 4));
    }
    if is_host_line(line) {
        assert(first =~= line.subrange(0, 4));
    }
}

/// The encoding of two texts, one behind the other, is the encoding of the first and then that of the
/// second.
pub proof fn encodings_are_joined(a: Seq<char>, b: Seq<char>)
    ensures
        encode_utf8(a + b) == encode_utf8(a) + encode_utf8(b),
    decreases a.len(),
{
    if a.len() == 0 {
        assert(a + b =~= b);
        assert(encode_utf8(a) + encode_utf8(b) =~= encode_utf8(b));
    } else {
        encodings_are_joined(a.drop_first(), b);
        assert((a + b).drop_first() =~= a.drop_first() + b);
        assert((a + b)[0] == a[0]);
        assert(encode_utf8(a + b) =~= encode_utf8(a) + encode_utf8(b));
    }
}

proof fn host_line_is_header(host: Seq<char>)
    ensures
        host_line(host) == host_header(host) + crlf(),
{
    reveal_strlit("Host: ");
    reveal_strlit("\r\n");
    encodings_are_joined("Host: "@, host);
    encodings_are_joined("Host: "@ + host, "\r\n"@);
    is_ascii_chars_encode_utf8("Host: "@);
    is_ascii_chars_encode_utf8("\r\n"@);
    assert(encode_utf8("Host: "@) =~= ascii("Host: "@));
    assert(encode_utf8("\r\n"@) =~= crlf());
}

/// A header line as it is sent again.
pub open spec fn sent_again(line: Seq<u8>, host: Seq<char>) -> Seq<u8> {
    if has_field(line, ascii("host"@)) {
        host_header(host)
    } else {
        line
    }
}

proof fn lines_are_rewritten(pieces: Seq<Seq<u8>>, host: Seq<char>, n: int)
    requires
        0 <= n <= pieces.len(),
        is_unbroken(encode_utf8(host)),
        forall|i: int, j: int|
            0 <= i < pieces.len() && 0 <= j < pieces[i].len() ==> #[trigger] pieces[i][j] != 0x0a,
    ensures
        is_closed(new_lines(pieces, host, n)),
        ({
            let old = lines_among(pieces, n);
            let new = header_lines(new_lines(pieces, host, n));
            &&& new.len() == old.len()
            &&& forall|i: int|
                0 <= i < old.len() ==> #[trigger] new[i] == sent_again(old[i], host)
            &&& names_host(pieces, n) <==> exists|i: int|
                0 <= i < old.len() && has_field(#[trigger] old[i], ascii("host"@))
        }),
    decreases n,
{
    let old = lines_among(pieces, n);
    if n == 0 {
        no_lines();
    } else {
        lines_are_rewritten(pieces, host, n - 1);
        let before = lines_among(pieces, n - 1);
        let block = new_lines(pieces, host, n - 1);
        let line = chomp(pieces[n - 1]);
        assert forall|i: int| 0 <= i < line.len() implies #[trigger] line[i] != 0x0a by {
            assert(line[i] == pieces[n - 1][i]);
        }
        if line.len() > 0 {
            hosts_are_recognised(line);
            let out = sent_again(line, host);
            host_line_is_header(host);
            host_header_is_unbroken(host);
            line_is_added(block, out);
            if is_host_line(line) {
                assert(block + host_line(host) =~= block + out + crlf());
            }
            let new = header_lines(new_lines(pieces, host, n));
            assert(new =~= header_lines(block).push(out));
            assert(old[old.len() - 1] == line);
            assert forall|i: int| 0 <= i < old.len() implies #[trigger] new[i] == sent_again(
                old[i],
                host,
            ) by {
                if i < before.len() {
                    assert(old[i] == before[i]);
                    assert(header_lines(block)[i] == sent_again(before[i], host));
                }
            }
            if names_host(pieces, n - 1) {
                let i = choose|i: int|
                    0 <= i < before.len() && has_field(#[trigger] before[i], ascii("host"@));
                assert(old[i] == before[i]);
            }
            if exists|i: int| 0 <= i < old.len() && has_field(#[trigger] old[i], ascii("host"@)) {
                let i = choose|i: int|
                    0 <= i < old.len() && has_field(#[trigger] old[i], ascii("host"@));
                if i < before.len() {
                    assert(has_field(before[i], ascii("host"@)));
                }
            }
        }
    }
}

proof fn host_header_is_unbroken(host: Seq<char>)
    requires
        is_unbroken(encode_utf8(host)),
    ensures
        is_unbroken(host_header(host)),
        host_header(host).len() > 0,
{
    reveal_strlit("Host: ");
    let line = host_header(host);
    assert forall|i: int| 0 <= i < line.len() implies #[trigger] line[i] != 0x0a && line[i]
        != 0x0d by {
        if i >= 6 {
            assert(line[i] == encode_utf8(host)[i - 6]);
        }
    }
}

proof fn pieces_have_no_breaks(s: Seq<u8>, start: int)
    requires
        0 <= start <= s.len(),
    ensures
        forall|i: int, j: int|
            0 <= i < fields_from(s, 0x0a, start).len() && 0 <= j < fields_from(
                s,
                0x0a,
                start,
            )[i].len() ==> #[trigger] fields_from(s, 0x0a, start)[i][j] != 0x0a,
    decreases s.len() - start,
{
    sep_is_found(s, 0x0a, start);
    let end = next_sep(s, 0x0a, start);
    let all = fields_from(s, 0x0a, start);
    if end < s.len() {
        pieces_have_no_breaks(s, end + 1);
        let rest = fields_from(s, 0x0a, end + 1);
        assert forall|i: int, j: int| 0 <= i < all.len() && 0 <= j < all[i].len() implies
            #[trigger] all[i][j] != 0x0a by {
            if i > 0 {
                assert(all[i] == rest[i - 1]);
                assert(rest[i - 1][j] != 0x0a);
            }
        }
    }
}

/// A request that is sent again has the header lines that were captured, in order and byte for byte,
/// but that every line with the field `Host` names the new host, and one is added where there was
/// none. Around them stand the first line, with the method and the version that were captured, and
/// the body.
pub proof fn header_lines_are_sent_again(
    request: Seq<u8>,
    host: Seq<char>,
    origin: Option<Seq<char>>,
    method: Seq<u8>,
    target: Seq<u8>,
    version: Seq<u8>,
    block: Seq<u8>,
    body: Seq<u8>,
) -> (sent_block: Seq<u8>)
    requires
        is_unbroken(encode_utf8(host)),
        request == method + seq![0x20u8] + target + seq![0x20u8] + version + crlf() + block
            + crlf() + body,
        is_unbroken(method + seq![0x20u8] + target + seq![0x20u8] + version),
        forall|i: int| 0 <= i < method.len() ==> #[trigger] method[i] != 0x20,
        forall|i: int| 0 <= i < target.len() ==> #[trigger] target[i] != 0x20,
        find_from(request, head_end_mark(), 0) == Some(
            (method.len() + target.len() + version.len() + block.len() + 2) as int,
        ),
    ensures
        ({
            let old = header_lines(block);
            let new = header_lines(sent_block);
            &&& rewritten(request, host, origin) == method + seq![0x20u8] + new_target(
                target_path(target),
                origin,
            ) + seq![0x20u8] + version + crlf() + sent_block + crlf() + body
            &&& forall|i: int| 0 <= i < old.len() ==> #[trigger] new[i] == sent_again(old[i], host)
            &&& if exists|i: int|
                0 <= i < old.len() && has_field(#[trigger] old[i], ascii("host"@)) {
                new.len() == old.len()
            } else {
                new.len() == old.len() + 1 && new.last() == host_header(host)
            }
        }),
{
    let sp = seq![0x20u8];
    let line = method + sp + target + sp + version;
    let p = find_from(request, head_end_mark(), 0)->0;
    let n = line.len() as int;
    let head = request.subrange(0, p + 4);
    assert(p == n + block.len());
    assert(head =~= line + crlf() + block + crlf());
    assert(occurs_at(head, crlf(), n)) by {
        assert(head.subrange(n, n + 2) =~= crlf());
    }
    find_from_is_first(head, crlf(), 0);
    let line_end = find_from(head, crlf(), 0)->0;
    assert(line_end == n) by {
        if line_end < n {
            assert(head.subrange(line_end, line_end + 2)[0] == crlf()[0]);
            assert(head[line_end] == line[line_end]);
        }
    }
    assert(head.subrange(0, line_end) =~= line);
    let a = method.len() as int;
    let b = a + 1 + target.len();
    assert forall|i: int| 0 <= i < a implies line[i] != 0x20 by {
        assert(line[i] == method[i]);
    }
    sep_stands_at(line, 0x20, 0, a);
    assert forall|i: int| a + 1 <= i < b implies line[i] != 0x20 by {
        assert(line[i] == target[i - a - 1]);
    }
    sep_stands_at(line, 0x20, a + 1, b as int);
    assert(line.subrange(0, a) =~= method);
    assert(line.subrange(a + 1, b as int) =~= target);
    assert(line.subrange(b + 1, n) =~= version);
    assert(head.subrange(line_end + 2, p + 2) =~= block);
    assert(request.subrange(p + 4, request.len() as int) =~= body);
    let pieces = fields(block, 0x0a);
    let many = pieces.len() as int;
    pieces_have_no_breaks(block, 0);
    lines_are_rewritten(pieces, host, many);
    let first = new_lines(pieces, host, many);
    let old = header_lines(block);
    if names_host(pieces, many) {
        let start = method + sp + new_target(target_path(target), origin) + sp + version + crlf();
        assert(first + Seq::<u8>::empty() =~= first);
        assert(rewritten(request, host, origin) =~= start + first + crlf() + body);
        first
    } else {
        let start = method + sp + new_target(target_path(target), origin) + sp + version + crlf();
        let sent_block = first + host_line(host);
        assert(rewritten(request, host, origin) =~= start + sent_block + crlf() + body);
        host_line_is_header(host);
        host_header_is_unbroken(host);
        line_is_added(first, host_header(host));
        assert(sent_block =~= first + host_header(host) + crlf());
        let new = header_lines(sent_block);
        assert(new =~= header_lines(first).push(host_header(host)));
        assert forall|i: int| 0 <= i < old.len() implies #[trigger] new[i] == sent_again(
            old[i],
            host,
        ) by {
            assert(header_lines(first)[i] == sent_again(old[i], host));
        }
        sent_block
    }
}

/// The path of a target in absolute form starts behind the host, and is a slash where there is none;
/// any other target is its own path.
pub proof fn paths_are_found(target: Seq<u8>, host: Seq<u8>, path: Seq<u8>)
    requires
        forall|i: int| 0 <= i < host.len() ==> #[trigger] host[i] != 0x2f,
        path.len() > 0 ==> path[0] == 0x2f,
    ensures
        target_path(ascii("http://"@) + host + path) == (if path.len() == 0 {
            seq![0x2fu8]
        } else {
            path
        }),
        !occurs_at(target, ascii("http://"@), 0) ==> target_path(target) == target,
{
    reveal_strlit("http://");
    let scheme = ascii("http://"@);
    let whole = scheme + host + path;
    assert(whole.subrange(0, 7) =~= scheme);
    let slash = 7 + host.len();
    assert forall|i: int| 7 <= i < slash implies whole[i] != 0x2f by {
        assert(whole[i] == host[i - 7]);
    }
    sep_stands_at(whole, 0x2f, 7, slash as int);
    assert(whole.subrange(slash as int, whole.len() as int) =~= path);
}

/// A request that goes straight to the server asks for the path alone; one that goes to a proxy asks
/// for the scheme, the address of the server and the path.
pub proof fn targets_name_the_server(path: Seq<u8>, address: Seq<char>)
    ensures
        new_target(path, None) == path,
        new_target(path, Some(address)) == ascii("http://"@) + encode_utf8(address) + encode_utf8(
            utf8_lossy(path),
        ),
{
    reveal_strlit("http://");
    encodings_are_joined("http://"@, address);
    encodings_are_joined("http://"@ + address, utf8_lossy(path));
    is_ascii_chars_encode_utf8("http://"@);
    assert(encode_utf8("http://"@) =~= ascii("http://"@));
}

} // verus!
