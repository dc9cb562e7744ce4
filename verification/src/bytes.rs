//! Searching, splitting and reading byte strings.
use vstd::prelude::*;

verus! {

/// The bytes of a text whose characters are all ASCII.
pub open spec fn ascii(text: Seq<char>) -> Seq<u8> {
    Seq::new(text.len(), |i: int| text[i] as u8)
}

/// The bytes of an ASCII text.
pub fn ascii_bytes(text: &str) -> (r: &[u8])
    requires
        text.is_ascii(),
    ensures
        r@ == ascii(text@),
{
    broadcast use vstd::string::is_ascii_spec_bytes;

    let r = text.as_bytes();
    assert(r@ =~= ascii(text@));
    r
}

/// `pattern` stands in `s` at position `i`.
pub open spec fn occurs_at(s: Seq<u8>, pattern: Seq<u8>, i: int) -> bool {
    &&& 0 <= i
    &&& i + pattern.len() <= s.len()
    &&& s.subrange(i, i + pattern.len()) =~= pattern
}

/// The first position at or after `start` where `pattern` stands in `s`.
pub open spec fn find_from(s: Seq<u8>, pattern: Seq<u8>, start: int) -> Option<int>
    decreases s.len() - start + 1,
{
    if start + pattern.len() > s.len() {
        None
    } else if occurs_at(s, pattern, start) {
        Some(start)
    } else {
        find_from(s, pattern, start + 1)
    }
}

/// `find_from` gives the least position at or after `start` where the pattern stands,
/// and nothing exactly when it stands nowhere there.
pub proof fn find_from_is_first(s: Seq<u8>, pattern: Seq<u8>, start: int)
    requires
        0 <= start,
    ensures
        match find_from(s, pattern, start) {
            Some(p) => start <= p && occurs_at(s, pattern, p) && forall|i: int|
                start <= i < p ==> !occurs_at(s, pattern, i),
            None => forall|i: int| start <= i ==> !occurs_at(s, pattern, i),
        },
    decreases s.len() - start + 1,
{
    if start + pattern.len() <= s.len() && !occurs_at(s, pattern, start) {
        find_from_is_first(s, pattern, start + 1);
    }
}

/// Whether `pattern` stands in `s` at position `i`.
pub fn matches_at(s: &[u8], pattern: &[u8], i: usize) -> (r: bool)
    ensures
        r == occurs_at(s@, pattern@, i as int),
        r ==> i + pattern@.len() <= usize::MAX,
{
    if i > s.len() || pattern.len() > s.len() - i {
        return false;
    }
    let mut k: usize = 0;
    while k < pattern.len()
        invariant
            i + pattern@.len() <= s@.len() <= usize::MAX,
            k <= pattern@.len(),
            forall|j: int| 0 <= j < k ==> s@[i + j] == pattern@[j],
        decreases pattern@.len() - k,
    {
        if s[i + k] != pattern[k] {
            assert(s@.subrange(i as int, i + pattern@.len())[k as int] != pattern@[k as int]);
            return false;
        }
        k += 1;
    }
    assert(s@.subrange(i as int, i + pattern@.len()) =~= pattern@);
    true
}

/// The first position at or after `start` where `pattern` stands in `s`.
pub fn find(s: &[u8], pattern: &[u8], start: usize) -> (r: Option<usize>)
    ensures
        match r {
            Some(p) => find_from(s@, pattern@, start as int) == Some(p as int) && start <= p && p
                + pattern@.len() <= s@.len() <= usize::MAX,
            None => find_from(s@, pattern@, start as int) is None,
        },
{
    let mut i: usize = start;
    loop
        invariant
            start <= i,
            find_from(s@, pattern@, start as int) == find_from(s@, pattern@, i as int),
        decreases s@.len() - i + 1,
    {
        if i > s.len() || pattern.len() > s.len() - i {
            return None;
        }
        if matches_at(s, pattern, i) {
            return Some(i);
        }
        if i == s.len() {
            assert(s@.subrange(i as int, i + pattern@.len()) =~= pattern@);
            return None;
        }
        i += 1;
    }
}

/// Whether `pattern` stands at the start of `s`.
pub fn starts_with(s: &[u8], pattern: &[u8]) -> (r: bool)
    ensures
        r == occurs_at(s@, pattern@, 0),
{
    matches_at(s, pattern, 0)
}

/// Two byte strings are equal.
pub fn equal(a: &[u8], b: &[u8]) -> (r: bool)
    ensures
        r == (a@ == b@),
{
    if a.len() != b.len() {
        return false;
    }
    let r = matches_at(a, b, 0);
    assert(a@.subrange(0, b@.len() as int) =~= a@);
    r
}

/// The lower-case form of an ASCII letter; any other byte unchanged.
pub open spec fn lower(b: u8) -> u8 {
    if 0x41 <= b <= 0x5a {
        (b + 0x20) as u8
    } else {
        b
    }
}

/// The lower-case form of an ASCII letter; any other byte unchanged.
pub fn to_lower(b: u8) -> (r: u8)
    ensures
        r == lower(b),
{
    if 0x41 <= b && b <= 0x5a {
        b + 0x20
    } else {
        b
    }
}

/// Two byte strings are equal up to the case of ASCII letters.
pub open spec fn same_ignoring_case(a: Seq<u8>, b: Seq<u8>) -> bool {
    a.len() == b.len() && forall|i: int| 0 <= i < a.len() ==> lower(#[trigger] a[i]) == lower(b[i])
}

/// Whether two byte strings are equal up to the case of ASCII letters.
pub fn eq_ignore_case(a: &[u8], b: &[u8]) -> (r: bool)
    ensures
        r == same_ignoring_case(a@, b@),
{
    if a.len() != b.len() {
        return false;
    }
    let mut i: usize = 0;
    while i < a.len()
        invariant
            a@.len() == b@.len(),
            i <= a@.len(),
            forall|j: int| 0 <= j < i ==> lower(#[trigger] a@[j]) == lower(b@[j]),
        decreases a@.len() - i,
    {
        if to_lower(a[i]) != to_lower(b[i]) {
            return false;
        }
        i += 1;
    }
    true
}

/// ASCII white space: space, tab, line feed, form feed and carriage return.
pub open spec fn is_space(b: u8) -> bool {
    b == 0x20 || b == 0x09 || b == 0x0a || b == 0x0c || b == 0x0d
}

/// `s` without the white space at its start.
pub open spec fn trim_start(s: Seq<u8>) -> Seq<u8>
    decreases s.len(),
{
    if s.len() > 0 && is_space(s[0]) {
        trim_start(s.subrange(1, s.len() as int))
    } else {
        s
    }
}

/// `s` without the white space at its end.
pub open spec fn trim_end(s: Seq<u8>) -> Seq<u8>
    decreases s.len(),
{
    if s.len() > 0 && is_space(s.last()) {
        trim_end(s.subrange(0, s.len() - 1))
    } else {
        s
    }
}

/// `s` without the white space around it.
pub open spec fn trim(s: Seq<u8>) -> Seq<u8> {
    trim_end(trim_start(s))
}

/// A byte string without the white space around it.
pub fn trim_ascii(value: &[u8]) -> (r: &[u8])
    ensures
        r@ == trim(value@),
{
    let mut start: usize = 0;
    assert(value@.subrange(0, value@.len() as int) =~= value@);
    while start < value.len() && (value[start] == 0x20 || value[start] == 0x09 || value[start]
        == 0x0a || value[start] == 0x0c || value[start] == 0x0d)
        invariant
            start <= value@.len(),
            trim_start(value@) == trim_start(value@.subrange(start as int, value@.len() as int)),
        decreases value@.len() - start,
    {
        let ghost rest = value@.subrange(start as int, value@.len() as int);
        assert(rest.subrange(1, rest.len() as int) =~= value@.subrange(
            start + 1,
            value@.len() as int,
        ));
        start += 1;
    }
    let mut end: usize = value.len();
    while end > start && (value[end - 1] == 0x20 || value[end - 1] == 0x09 || value[end - 1] == 0x0a
        || value[end - 1] == 0x0c || value[end - 1] == 0x0d)
        invariant
            start <= end <= value@.len(),
            trim(value@) == trim_end(value@.subrange(start as int, end as int)),
        decreases end,
    {
        let ghost rest = value@.subrange(start as int, end as int);
        assert(rest.subrange(0, rest.len() - 1) =~= value@.subrange(start as int, end - 1));
        end -= 1;
    }
    &value[start..end]
}

/// The first position at or after `start` that holds `sep`, or the length of `s`.
pub open spec fn next_sep(s: Seq<u8>, sep: u8, start: int) -> int
    decreases s.len() - start,
{
    if start >= s.len() {
        s.len() as int
    } else if s[start] == sep {
        start
    } else {
        next_sep(s, sep, start + 1)
    }
}

/// The fields of `s` from position `start` on, as `sep` separates them.
pub open spec fn fields_from(s: Seq<u8>, sep: u8, start: int) -> Seq<Seq<u8>>
    decreases s.len() - start,
{
    let end = next_sep(s, sep, start);
    if 0 <= start <= end < s.len() {
        seq![s.subrange(start, end)] + fields_from(s, sep, end + 1)
    } else {
        seq![s.subrange(start, s.len() as int)]
    }
}

/// The fields of `s`, as `sep` separates them: one more than there are separators.
pub open spec fn fields(s: Seq<u8>, sep: u8) -> Seq<Seq<u8>> {
    fields_from(s, sep, 0)
}

/// The contents of a sequence of byte slices.
pub open spec fn contents(parts: Seq<&[u8]>) -> Seq<Seq<u8>> {
    parts.map_values(|part: &[u8]| part@)
}

/// The first position at or after `start` that holds `sep`, or the length of `s`.
pub fn find_byte(s: &[u8], sep: u8, start: usize) -> (r: usize)
    requires
        start <= s@.len(),
    ensures
        r == next_sep(s@, sep, start as int),
        start <= r <= s@.len(),
        r < s@.len() ==> s@[r as int] == sep,
{
    let mut i: usize = start;
    while i < s.len()
        invariant
            start <= i <= s@.len(),
            next_sep(s@, sep, start as int) == next_sep(s@, sep, i as int),
        decreases s@.len() - i,
    {
        if s[i] == sep {
            return i;
        }
        i += 1;
    }
    i
}

/// The fields of a byte string, as `sep` separates them.
pub fn split(s: &[u8], sep: u8) -> (r: Vec<&[u8]>)
    ensures
        contents(r@) == fields(s@, sep),
{
    let mut parts: Vec<&[u8]> = Vec::new();
    let mut start: usize = 0;
    assert(contents(parts@) + fields_from(s@, sep, 0) =~= fields(s@, sep));
    loop
        invariant
            start <= s@.len(),
            contents(parts@) + fields_from(s@, sep, start as int) == fields(s@, sep),
        decreases s@.len() - start,
    {
        let end: usize = find_byte(s, sep, start);
        let ghost before = parts@;
        parts.push(&s[start..end]);
        assert(contents(parts@) =~= contents(before).push(s@.subrange(start as int, end as int)));
        if end == s.len() {
            assert(contents(parts@) =~= fields(s@, sep));
            return parts;
        }
        assert(contents(parts@) + fields_from(s@, sep, end + 1) =~= contents(before) + fields_from(
            s@,
            sep,
            start as int,
        ));
        start = end + 1;
    }
}

/// The value of a digit in a base of at most sixteen.
pub open spec fn digit(b: u8, radix: int) -> Option<int> {
    let v = if 0x30 <= b <= 0x39 {
        b - 0x30
    } else if 0x61 <= b <= 0x66 {
        b - 0x61 + 10
    } else if 0x41 <= b <= 0x46 {
        b - 0x41 + 10
    } else {
        16int
    };
    if v < radix {
        Some(v)
    } else {
        None
    }
}

/// The number that a sequence of digits denotes, the most significant first.
pub open spec fn digits_value(s: Seq<u8>, radix: int) -> Option<int>
    decreases s.len(),
{
    if s.len() == 0 {
        Some(0)
    } else {
        match (digits_value(s.drop_last(), radix), digit(s.last(), radix)) {
            (Some(high), Some(low)) => Some(high * radix + low),
            _ => None,
        }
    }
}

/// The number that a text of digits denotes. One `+` may stand before the digits, there is at
/// least one digit, and the number is at most `max`.
pub open spec fn number(s: Seq<u8>, radix: int, max: int) -> Option<int> {
    let digits = if s.len() > 0 && s[0] == 0x2b {
        s.subrange(1, s.len() as int)
    } else {
        s
    };
    match digits_value(digits, radix) {
        Some(v) if digits.len() > 0 && v <= max => Some(v),
        _ => None,
    }
}

/// Leading digits never denote more than all the digits.
proof fn digits_value_grows(s: Seq<u8>, radix: int, k: int)
    requires
        0 <= k <= s.len(),
        2 <= radix,
        digits_value(s, radix) is Some,
    ensures
        digits_value(s.take(k), radix) is Some,
        0 <= digits_value(s.take(k), radix)->0 <= digits_value(s, radix)->0,
    decreases s.len(),
{
    if k == s.len() {
        assert(s.take(k) =~= s);
        if s.len() > 0 {
            digits_value_grows(s.drop_last(), radix, s.len() - 1);
            assert(s.drop_last().take(s.len() - 1) =~= s.drop_last());
            let high = digits_value(s.drop_last(), radix)->0;
            assert(high * radix >= 0) by (nonlinear_arith)
                requires
                    high >= 0,
                    radix >= 2,
            ;
        }
    } else {
        digits_value_grows(s.drop_last(), radix, k);
        assert(s.drop_last().take(k) =~= s.take(k));
        let high = digits_value(s.drop_last(), radix)->0;
        assert(high * radix >= high) by (nonlinear_arith)
            requires
                high >= 0,
                radix >= 2,
        ;
    }
}

/// What a text of digits denotes is neither below zero nor above the bound.
pub proof fn numbers_are_within_bounds(s: Seq<u8>, radix: int, max: int)
    requires
        2 <= radix,
    ensures
        number(s, radix, max) is Some ==> 0 <= number(s, radix, max)->0 <= max,
{
    let digits = if s.len() > 0 && s[0] == 0x2b {
        s.subrange(1, s.len() as int)
    } else {
        s
    };
    if digits_value(digits, radix) is Some {
        digits_value_grows(digits, radix, digits.len() as int);
        assert(digits.take(digits.len() as int) =~= digits);
    }
}

/// The number that a text of digits in base `radix` denotes, where it is at most `max`.
pub fn parse_number(s: &[u8], radix: u64, max: u64) -> (r: Option<u64>)
    requires
        2 <= radix <= 16,
    ensures
        match r {
            Some(v) => number(s@, radix as int, max as int) == Some(v as int),
            None => number(s@, radix as int, max as int) is None,
        },
{
    let start: usize = if s.len() > 0 && s[0] == 0x2b {
        1
    } else {
        0
    };
    let ghost digits = s@.subrange(start as int, s@.len() as int);
    assert(start == 0 ==> digits =~= s@);
    if start == s.len() {
        return None;
    }
    let mut value: u64 = 0;
    let mut i: usize = start;
    assert(digits.take(0) =~= Seq::<u8>::empty());
    while i < s.len()
        invariant
            start <= i <= s@.len(),
            start <= 1,
            digits == s@.subrange(start as int, s@.len() as int),
            digits == (if s@.len() > 0 && s@[0] == 0x2b {
                s@.subrange(1, s@.len() as int)
            } else {
                s@
            }),
            2 <= radix <= 16,
            value <= max,
            digits_value(digits.take(i - start), radix as int) == Some(value as int),
        decreases s@.len() - i,
    {
        let ghost next = digits.take(i - start + 1);
        assert(next.drop_last() =~= digits.take(i - start));
        assert(next.last() == s@[i as int]);
        let b: u8 = s[i];
        let d: u64 = if 0x30 <= b && b <= 0x39 {
            (b - 0x30) as u64
        } else if 0x61 <= b && b <= 0x66 {
            (b - 0x61) as u64 + 10
        } else if 0x41 <= b && b <= 0x46 {
            (b - 0x41) as u64 + 10
        } else {
            16
        };
        if d >= radix {
            proof {
                if digits_value(digits, radix as int) is Some {
                    digits_value_grows(digits, radix as int, i - start + 1);
                }
            }
            return None;
        }
        assert(value * radix <= 0xffff_ffff_ffff_ffff * 16) by (nonlinear_arith)
            requires
                value <= 0xffff_ffff_ffff_ffff,
                radix <= 16,
        ;
        let wide: u128 = (value as u128) * (radix as u128);
        let sum: u128 = wide + d as u128;
        if sum > max as u128 {
            proof {
                if digits_value(digits, radix as int) is Some {
                    digits_value_grows(digits, radix as int, i - start + 1);
                }
            }
            return None;
        }
        value = sum as u64;
        i += 1;
    }
    assert(digits.take(i - start) =~= digits);
    Some(value)
}

} // verus!
