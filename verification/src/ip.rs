//! IP addresses and their texts.
use crate::bytes::{ascii, digits_value};
use crate::text::{
    append, decimal, decimal_number, digit_char, digit_worth, digits_are_worth_their_number,
    find_char, hex_char, next_char, parse_decimal, push_decimal, push_hex_digit,
};
use vstd::prelude::*;
use vstd::utf8::is_ascii_chars;

verus! {

/// An IP address: an IPv4 address as a number, or the eight groups of an IPv6 address.
#[derive(Debug, Clone, Copy, PartialEq, Eq, Hash)]
pub enum IpAddr {
    V4(u32),
    V6([u16; 8]),
}

/// The number that an octet of an IPv4 address denotes: one to three digits, no zero in front
/// of others, at most 255.
pub open spec fn octet(text: Seq<char>) -> Option<int> {
    if 1 <= text.len() <= 3 && text[0] != '+' && (text[0] == '0' ==> text.len() == 1) {
        decimal_number(text, 255)
    } else {
        None
    }
}

/// The IPv4 address that a text denotes: four octets with dots in between.
pub open spec fn ipv4_of(text: Seq<char>) -> Option<int> {
    let a = next_char(text, '.', 0);
    let b = next_char(text, '.', a + 1);
    let c = next_char(text, '.', b + 1);
    let end = text.len() as int;
    if c < end {
        match (
            octet(text.subrange(0, a)),
            octet(text.subrange(a + 1, b)),
            octet(text.subrange(b + 1, c)),
            octet(text.subrange(c + 1, end)),
        ) {
            (Some(w), Some(x), Some(y), Some(z)) => Some(
                w * 0x100_0000 + x * 0x1_0000 + y * 0x100 + z,
            ),
            _ => None,
        }
    } else {
        None
    }
}

/// The text of an IPv4 address.
pub open spec fn ipv4_text(address: int) -> Seq<char> {
    decimal(address / 0x100_0000) + seq!['.'] + decimal((address / 0x1_0000) % 0x100) + seq!['.']
        + decimal((address / 0x100) % 0x100) + seq!['.'] + decimal(address % 0x100)
}

/// The number that an octet of an IPv4 address denotes.
fn parse_octet(text: &[char]) -> (r: Option<u32>)
    ensures
        match r {
            Some(v) => octet(text@) == Some(v as int) && v <= 255,
            None => octet(text@) is None,
        },
{
    if text.len() < 1 || text.len() > 3 || text[0] == '+' || (text[0] == '0' && text.len() > 1) {
        return None;
    }
    match parse_decimal(text, 255) {
        Some(v) => Some(v as u32),
        None => None,
    }
}

/// The IPv4 address that a text denotes.
pub fn parse_ipv4_address(text: &[char]) -> (r: Option<u32>)
    ensures
        match r {
            Some(v) => ipv4_of(text@) == Some(v as int),
            None => ipv4_of(text@) is None,
        },
{
    let end: usize = text.len();
    let a: usize = find_char(text, '.', 0);
    if a == end {
        return None;
    }
    let b: usize = find_char(text, '.', a + 1);
    if b == end {
        return None;
    }
    let c: usize = find_char(text, '.', b + 1);
    if c == end {
        return None;
    }
    match (
        parse_octet(&text[0..a]),
        parse_octet(&text[a + 1..b]),
        parse_octet(&text[b + 1..c]),
        parse_octet(&text[c + 1..end]),
    ) {
        (Some(w), Some(x), Some(y), Some(z)) => Some(
            w * 0x100_0000 + x * 0x1_0000 + y * 0x100 + z,
        ),
        _ => None,
    }
}

/// Adds the text of an IPv4 address to a text.
pub fn push_ipv4(text: &mut String, address: u32)
    ensures
        final(text)@ == old(text)@ + ipv4_text(address as int),
{
    push_decimal(text, (address / 0x100_0000) as u64);
    text.push('.');
    push_decimal(text, ((address / 0x1_0000) % 0x100) as u64);
    text.push('.');
    push_decimal(text, ((address / 0x100) % 0x100) as u64);
    text.push('.');
    push_decimal(text, (address % 0x100) as u64);
    assert(text@ =~= old(text)@ + ipv4_text(address as int));
}

/// The text of an IPv4 address.
pub fn ipv4_to_text(address: u32) -> (r: String)
    ensures
        r@ == ipv4_text(address as int),
{
    let mut text = String::new();
    push_ipv4(&mut text, address);
    assert(text@ =~= ipv4_text(address as int));
    text
}

proof fn decimal_octet(n: int)
    requires
        0 <= n <= 255,
    ensures
        octet(decimal(n)) == Some(n),
        undotted(decimal(n)),
{
    reveal_with_fuel(decimal, 4);
    reveal_with_fuel(digits_value, 5);
    let text = decimal(n);
    let bytes = ascii(text);
    if n < 10 {
        assert(text =~= seq![digit_char(n)]);
        assert(bytes.drop_last() =~= Seq::<u8>::empty());
        assert(digits_value(bytes, 10) == Some(n));
    } else if n < 100 {
        assert(text =~= seq![digit_char(n / 10), digit_char(n % 10)]);
        assert(bytes.drop_last() =~= seq![(0x30 + n / 10) as u8]);
        assert(bytes.drop_last().drop_last() =~= Seq::<u8>::empty());
        assert(digits_value(bytes, 10) == Some(n));
    } else {
        assert(text =~= seq![digit_char(n / 100), digit_char((n / 10) % 10), digit_char(n % 10)]);
        assert(bytes.drop_last() =~= seq![(0x30 + n / 100) as u8, (0x30 + (n / 10) % 10) as u8]);
        assert(bytes.drop_last().drop_last() =~= seq![(0x30 + n / 100) as u8]);
        assert(bytes.drop_last().drop_last().drop_last() =~= Seq::<u8>::empty());
        assert(digits_value(bytes, 10) == Some(n));
    }
    assert(is_ascii_chars(text));
}

proof fn next_char_here(text: Seq<char>, c: char, start: int, at: int)
    requires
        0 <= start <= at < text.len(),
        text[at] == c,
        forall|i: int| start <= i < at ==> text[i] != c,
    ensures
        next_char(text, c, start) == at,
    decreases at - start,
{
    if start < at {
        next_char_here(text, c, start + 1, at);
    }
}

/// No character of a text is a dot.
spec fn undotted(text: Seq<char>) -> bool {
    forall|i: int| 0 <= i < text.len() ==> text[i] != '.'
}

proof fn dotted_parts(w: Seq<char>, x: Seq<char>, y: Seq<char>, z: Seq<char>)
    requires
        undotted(w),
        undotted(x),
        undotted(y),
    ensures
        ({
            let text = w + seq!['.'] + x + seq!['.'] + y + seq!['.'] + z;
            let a = w.len() as int;
            let b = a + 1 + x.len();
            let c = b + 1 + y.len();
            &&& next_char(text, '.', 0) == a
            &&& next_char(text, '.', a + 1) == b
            &&& next_char(text, '.', b + 1) == c
            &&& c < text.len()
            &&& text.subrange(0, a) == w
            &&& text.subrange(a + 1, b) == x
            &&& text.subrange(b + 1, c) == y
            &&& text.subrange(c + 1, text.len() as int) == z
        }),
{
    let text = w + seq!['.'] + x + seq!['.'] + y + seq!['.'] + z;
    let a = w.len() as int;
    let b = a + 1 + x.len();
    let c = b + 1 + y.len();
    assert(text.subrange(0, a) =~= w);
    assert(text.subrange(a + 1, b) =~= x);
    assert(text.subrange(b + 1, c) =~= y);
    assert(text.subrange(c + 1, text.len() as int) =~= z);
    assert forall|i: int| 0 <= i < a implies text[i] != '.' by {
        assert(text[i] == w[i]);
    }
    assert forall|i: int| a + 1 <= i < b implies text[i] != '.' by {
        assert(text[i] == x[i - a - 1]);
    }
    assert forall|i: int| b + 1 <= i < c implies text[i] != '.' by {
        assert(text[i] == y[i - b - 1]);
    }
    next_char_here(text, '.', 0, a);
    next_char_here(text, '.', a + 1, b);
    next_char_here(text, '.', b + 1, c);
}

proof fn dotted_value(w: Seq<char>, x: Seq<char>, y: Seq<char>, z: Seq<char>)
    requires
        undotted(w),
        undotted(x),
        undotted(y),
        octet(w) is Some,
        octet(x) is Some,
        octet(y) is Some,
        octet(z) is Some,
    ensures
        ipv4_of(w + seq!['.'] + x + seq!['.'] + y + seq!['.'] + z) == Some(
            octet(w)->0 * 0x100_0000 + octet(x)->0 * 0x1_0000 + octet(y)->0 * 0x100 + octet(z)->0,
        ),
{
    dotted_parts(w, x, y, z);
}

proof fn octets_make_up_the_address(a: u32)
    by (bit_vector)
    ensures
        (a / 0x100_0000) * 0x100_0000 + ((a / 0x1_0000) % 0x100) * 0x1_0000 + ((a / 0x100) % 0x100)
            * 0x100 + a % 0x100 == a,
        a / 0x100_0000 <= 255,
{
}

proof fn octets_are_small(text: Seq<char>)
    ensures
        octet(text) is Some ==> 0 <= octet(text)->0 <= 255,
{
    crate::bytes::numbers_are_within_bounds(crate::bytes::ascii(text), 10, 255);
}

/// What a text denotes as an IPv4 address fits in 32 bits.
pub proof fn addresses_are_numbers(text: Seq<char>)
    ensures
        ipv4_of(text) is Some ==> 0 <= ipv4_of(text)->0 <= u32::MAX,
{
    let a = next_char(text, '.', 0);
    let b = next_char(text, '.', a + 1);
    let c = next_char(text, '.', b + 1);
    octets_are_small(text.subrange(0, a));
    octets_are_small(text.subrange(a + 1, b));
    octets_are_small(text.subrange(b + 1, c));
    octets_are_small(text.subrange(c + 1, text.len() as int));
}

/// The text of an IPv4 address denotes that address.
pub proof fn ipv4_text_denotes_address(address: u32)
    ensures
        ipv4_of(ipv4_text(address as int)) == Some(address as int),
{
    let w = (address / 0x100_0000) as int;
    let x = ((address / 0x1_0000) % 0x100) as int;
    let y = ((address / 0x100) % 0x100) as int;
    let z = (address % 0x100) as int;
    octets_make_up_the_address(address);
    decimal_octet(w);
    decimal_octet(x);
    decimal_octet(y);
    decimal_octet(z);
    dotted_value(decimal(w), decimal(x), decimal(y), decimal(z));
}

/// A number in hexadecimal notation.
pub open spec fn hexadecimal(n: int) -> Seq<char>
    decreases n,
{
    if n < 16 {
        seq![hex_char(n)]
    } else {
        hexadecimal(n / 16).push(hex_char(n % 16))
    }
}

/// Adds a number in hexadecimal notation to a text.
fn push_hexadecimal(text: &mut String, n: u16)
    ensures
        final(text)@ == old(text)@ + hexadecimal(n as int),
    decreases n,
{
    if n >= 16 {
        push_hexadecimal(text, n / 16);
    }
    push_hex_digit(text, (n % 16) as u8);
    assert(text@ =~= old(text)@ + hexadecimal(n as int));
}

/// The groups of an IPv6 address from `from` up to `to`, with colons in between.
pub open spec fn groups_text(groups: Seq<u16>, from: int, to: int) -> Seq<char>
    decreases to - from,
{
    if from >= to {
        Seq::empty()
    } else if from + 1 == to {
        hexadecimal(groups[from] as int)
    } else {
        groups_text(groups, from, to - 1) + seq![':'] + hexadecimal(groups[to - 1] as int)
    }
}

/// How many groups in a row are zero from `at` on.
pub open spec fn zero_run(groups: Seq<u16>, at: int) -> int
    decreases groups.len() - at,
{
    if at >= groups.len() || groups[at] != 0 {
        0
    } else {
        1 + zero_run(groups, at + 1)
    }
}

/// Where, before `n`, the first of the longest rows of zero groups starts.
pub open spec fn longest_run(groups: Seq<u16>, n: int) -> int
    decreases n,
{
    if n <= 0 {
        0
    } else {
        let best = longest_run(groups, n - 1);
        if zero_run(groups, n - 1) > zero_run(groups, best) {
            n - 1
        } else {
            best
        }
    }
}

/// An IPv6 address that stands for an IPv4 address.
pub open spec fn is_mapped(groups: Seq<u16>) -> bool {
    &&& forall|i: int| 0 <= i < 5 ==> groups[i] == 0
    &&& groups[5] == 0xffff
}

/// The text of an IPv6 address. The first of the longest rows of at least two zero groups is
/// left out, and a mapped IPv4 address is written as such.
pub open spec fn ipv6_text(groups: Seq<u16>) -> Seq<char> {
    let start = longest_run(groups, 8);
    let length = zero_run(groups, start);
    if is_mapped(groups) {
        "::ffff:"@ + ipv4_text(groups[6] * 0x1_0000 + groups[7])
    } else if length > 1 {
        groups_text(groups, 0, start) + "::"@ + groups_text(groups, start + length, 8)
    } else {
        groups_text(groups, 0, 8)
    }
}

/// The text of an IP address.
pub open spec fn ip_text(address: IpAddr) -> Seq<char> {
    match address {
        IpAddr::V4(v) => ipv4_text(v as int),
        IpAddr::V6(groups) => ipv6_text(groups@),
    }
}

/// Adds groups of an IPv6 address to a text.
fn push_groups(text: &mut String, groups: &[u16; 8], from: usize, to: usize)
    requires
        from <= to <= 8,
    ensures
        final(text)@ == old(text)@ + groups_text(groups@, from as int, to as int),
{
    let mut i: usize = from;
    let ghost before = text@;
    assert(text@ =~= before + groups_text(groups@, from as int, i as int));
    while i < to
        invariant
            from <= i <= to <= 8,
            text@ == before + groups_text(groups@, from as int, i as int),
        decreases to - i,
    {
        if i > from {
            text.push(':');
        }
        push_hexadecimal(text, groups[i]);
        assert(text@ =~= before + groups_text(groups@, from as int, i + 1));
        i += 1;
    }
}

/// How many groups in a row are zero from `at` on.
fn count_zeros(groups: &[u16; 8], at: usize) -> (r: usize)
    requires
        at <= 8,
    ensures
        r == zero_run(groups@, at as int),
        at + r <= 8,
    decreases 8 - at,
{
    if at >= 8 || groups[at] != 0 {
        0
    } else {
        1 + count_zeros(groups, at + 1)
    }
}

/// Adds the text of an IPv6 address to a text.
fn push_ipv6(text: &mut String, groups: &[u16; 8])
    ensures
        final(text)@ == old(text)@ + ipv6_text(groups@),
{
    let ghost before = text@;
    if groups[0] == 0 && groups[1] == 0 && groups[2] == 0 && groups[3] == 0 && groups[4] == 0
        && groups[5] == 0xffff {
        append(text, "::ffff:");
        push_ipv4(text, groups[6] as u32 * 0x1_0000 + groups[7] as u32);
        assert(is_mapped(groups@));
        assert(text@ =~= before + ipv6_text(groups@));
        return;
    }
    assert(!is_mapped(groups@)) by {
        if is_mapped(groups@) {
            assert(groups@[0] == 0 && groups@[1] == 0 && groups@[2] == 0 && groups@[3] == 0
                && groups@[4] == 0);
        }
    }
    let mut start: usize = 0;
    let mut length: usize = count_zeros(groups, 0);
    let mut i: usize = 1;
    reveal_with_fuel(longest_run, 2);
    while i < 8
        invariant
            1 <= i <= 8,
            start < 8,
            start == longest_run(groups@, i as int),
            length == zero_run(groups@, start as int),
            start + length <= 8,
        decreases 8 - i,
    {
        let here: usize = count_zeros(groups, i);
        if here > length {
            start = i;
            length = here;
        }
        i += 1;
    }
    if length > 1 {
        push_groups(text, groups, 0, start);
        append(text, "::");
        push_groups(text, groups, start + length, 8);
        assert(text@ =~= before + ipv6_text(groups@));
    } else {
        push_groups(text, groups, 0, 8);
    }
}

impl IpAddr {
    /// Whether this is an IPv4 address.
    pub fn is_ipv4(&self) -> (r: bool)
        ensures
            r == (*self is V4),
    {
        matches!(self, IpAddr::V4(_))
    }

    /// Adds the text of this address to a text.
    pub fn push_text(&self, text: &mut String)
        ensures
            final(text)@ == old(text)@ + ip_text(*self),
    {
        match self {
            IpAddr::V4(v) => push_ipv4(text, *v),
            IpAddr::V6(groups) => push_ipv6(text, groups),
        }
    }
}

/// What digits in base sixteen are worth.
pub open spec fn digits_worth(text: Seq<char>) -> int
    decreases text.len(),
{
    if text.len() == 0 {
        0
    } else {
        16 * digits_worth(text.drop_last()) + digit_worth(text.last())
    }
}

/// A group of an address is written with the digits that are worth it, and with none too many.
pub proof fn groups_are_worth_their_number(n: int)
    requires
        0 <= n,
    ensures
        digits_worth(hexadecimal(n)) == n,
        hexadecimal(n).len() > 0,
        n > 0 ==> hexadecimal(n)[0] != '0',
    decreases n,
{
    if n < 16 {
        digits_are_worth_their_number(n);
        assert(hexadecimal(n).drop_last() =~= Seq::<char>::empty());
        assert(digits_worth(Seq::<char>::empty()) == 0);
        assert(hexadecimal(n).last() == hex_char(n));
    } else {
        groups_are_worth_their_number(n / 16);
        digits_are_worth_their_number(n % 16);
        let front = hexadecimal(n / 16);
        assert(hexadecimal(n).drop_last() =~= front);
        assert(hexadecimal(n)[0] == front[0]);
    }
}

/// What is left out of an address is its longest run of zeroes, the first of them where there is
/// more than one.
pub proof fn longest_runs_are_left_out(groups: Seq<u16>, n: int, at: int)
    requires
        0 <= at < n <= groups.len(),
    ensures
        0 <= longest_run(groups, n) < n,
        zero_run(groups, at) <= zero_run(groups, longest_run(groups, n)),
        at < longest_run(groups, n) ==> zero_run(groups, at) < zero_run(
            groups,
            longest_run(groups, n),
        ),
    decreases n,
{
    if n > 1 {
        longest_runs_are_left_out(groups, n - 1, if at < n - 1 {
            at
        } else {
            0
        });
    } else {
        assert(longest_run(groups, 0) == 0);
    }
}

/// A run of zeroes ends at a group that is not zero, or at the end.
pub proof fn runs_are_of_zeroes(groups: Seq<u16>, at: int)
    requires
        0 <= at <= groups.len(),
    ensures
        ({
            let end = at + zero_run(groups, at);
            &&& at <= end <= groups.len()
            &&& forall|i: int| at <= i < end ==> #[trigger] groups[i] == 0
            &&& end < groups.len() ==> groups[end] != 0
        }),
    decreases groups.len() - at,
{
    if at < groups.len() && groups[at] == 0 {
        runs_are_of_zeroes(groups, at + 1);
    }
}

} // verus!
