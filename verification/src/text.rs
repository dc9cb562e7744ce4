//! Texts: white space, numbers and parts.
use crate::bytes::{ascii, number, parse_number};
use vstd::prelude::*;
use vstd::utf8::{decode_utf8, is_ascii_chars, valid_utf8};

verus! {

/// `String::push` of the standard library adds one character at the end.
pub assume_specification[ String::push ](text: &mut String, c: char)
    ensures
        final(text)@ == old(text)@.push(c),
;

/// The text of bytes in UTF-8, with a replacement character for what is not.
pub uninterp spec fn utf8_lossy(bytes: Seq<u8>) -> Seq<char>;

/// `String::from_utf8_lossy` of the standard library: bytes that are valid UTF-8 give their
/// text; where replacement characters stand in others is not stated. The text depends on the
/// bytes alone.
#[verifier::external_body]
pub(crate) fn lossy_text(bytes: &[u8]) -> (r: String)
    ensures
        r@ == utf8_lossy(bytes@),
        valid_utf8(bytes@) ==> r@ == decode_utf8(bytes@),
{
    String::from_utf8_lossy(bytes).into_owned()
}

/// The characters of a text.
pub fn chars_of(text: &str) -> (r: Vec<char>)
    ensures
        r@ == text@,
{
    let mut list: Vec<char> = Vec::new();
    for c in it: text.chars()
        invariant
            list@ =~= it.seq().take(it.index()),
            it.seq() == text@,
    {
        list.push(c);
    }
    assert(list@ =~= text@);
    list
}

/// The text that a list of characters makes.
pub fn text_of(chars: &[char]) -> (r: String)
    ensures
        r@ == chars@,
{
    let mut text = String::new();
    let mut i: usize = 0;
    while i < chars.len()
        invariant
            i <= chars@.len(),
            text@ == chars@.take(i as int),
        decreases chars@.len() - i,
    {
        text.push(chars[i]);
        assert(chars@.take(i + 1) =~= chars@.take(i as int).push(chars@[i as int]));
        i += 1;
    }
    assert(chars@.take(i as int) =~= chars@);
    text
}

/// Two texts are equal.
pub fn same_text(a: &str, b: &str) -> (r: bool)
    ensures
        r == (a@ == b@),
{
    let left = a.to_owned();
    let right = b.to_owned();
    left == right
}

/// A copy of a text.
pub fn copy(text: &str) -> (r: String)
    ensures
        r@ == text@,
{
    text.to_owned()
}

/// Unicode white space.
pub open spec fn is_white(c: char) -> bool {
    ||| '\u{9}' <= c <= '\u{d}'
    ||| c == ' '
    ||| c == '\u{85}'
    ||| c == '\u{a0}'
    ||| c == '\u{1680}'
    ||| '\u{2000}' <= c <= '\u{200a}'
    ||| c == '\u{2028}'
    ||| c == '\u{2029}'
    ||| c == '\u{202f}'
    ||| c == '\u{205f}'
    ||| c == '\u{3000}'
}

/// Whether a character is Unicode white space.
pub fn is_whitespace(c: char) -> (r: bool)
    ensures
        r == is_white(c),
{
    ('\u{9}' <= c && c <= '\u{d}') || c == ' ' || c == '\u{85}' || c == '\u{a0}' || c == '\u{1680}'
        || ('\u{2000}' <= c && c <= '\u{200a}') || c == '\u{2028}' || c == '\u{2029}' || c
        == '\u{202f}' || c == '\u{205f}' || c == '\u{3000}'
}

/// A text has nothing but white space.
pub open spec fn blank(text: Seq<char>) -> bool {
    forall|i: int| 0 <= i < text.len() ==> is_white(#[trigger] text[i])
}

/// Whether a text has nothing but white space.
pub fn is_blank(text: &str) -> (r: bool)
    ensures
        r == blank(text@),
{
    let chars = chars_of(text);
    let mut i: usize = 0;
    while i < chars.len()
        invariant
            chars@ == text@,
            forall|j: int| 0 <= j < i ==> is_white(#[trigger] text@[j]),
        decreases chars@.len() - i,
    {
        if !is_whitespace(chars[i]) {
            assert(!is_white(text@[i as int]));
            return false;
        }
        i += 1;
    }
    true
}

/// A text without the white space at its start.
pub open spec fn trimmed_start(text: Seq<char>) -> Seq<char>
    decreases text.len(),
{
    if text.len() > 0 && is_white(text[0]) {
        trimmed_start(text.subrange(1, text.len() as int))
    } else {
        text
    }
}

/// A text without the white space at its end.
pub open spec fn trimmed_end(text: Seq<char>) -> Seq<char>
    decreases text.len(),
{
    if text.len() > 0 && is_white(text.last()) {
        trimmed_end(text.subrange(0, text.len() - 1))
    } else {
        text
    }
}

/// A text without the white space around it.
pub open spec fn trimmed(text: Seq<char>) -> Seq<char> {
    trimmed_end(trimmed_start(text))
}

/// A list of characters without the white space around it.
pub fn trim_chars(text: &[char]) -> (r: &[char])
    ensures
        r@ == trimmed(text@),
{
    let mut start: usize = 0;
    assert(text@.subrange(0, text@.len() as int) =~= text@);
    while start < text.len() && is_whitespace(text[start])
        invariant
            start <= text@.len(),
            trimmed_start(text@) == trimmed_start(
                text@.subrange(start as int, text@.len() as int),
            ),
        decreases text@.len() - start,
    {
        let ghost rest = text@.subrange(start as int, text@.len() as int);
        assert(rest.subrange(1, rest.len() as int) =~= text@.subrange(
            start + 1,
            text@.len() as int,
        ));
        start += 1;
    }
    let mut end: usize = text.len();
    while end > start && is_whitespace(text[end - 1])
        invariant
            start <= end <= text@.len(),
            trimmed(text@) == trimmed_end(text@.subrange(start as int, end as int)),
        decreases end,
    {
        let ghost rest = text@.subrange(start as int, end as int);
        assert(rest.subrange(0, rest.len() - 1) =~= text@.subrange(start as int, end - 1));
        end -= 1;
    }
    &text[start..end]
}

/// The first position at or after `start` that holds `c`, or the length of the text.
pub open spec fn next_char(text: Seq<char>, c: char, start: int) -> int
    decreases text.len() - start,
{
    if start >= text.len() {
        text.len() as int
    } else if text[start] == c {
        start
    } else {
        next_char(text, c, start + 1)
    }
}

/// The first position at or after `start` that holds `c`, or the length of the text.
pub fn find_char(text: &[char], c: char, start: usize) -> (r: usize)
    requires
        start <= text@.len(),
    ensures
        r == next_char(text@, c, start as int),
        start <= r <= text@.len(),
        r < text@.len() ==> text@[r as int] == c,
        forall|j: int| start <= j < r ==> text@[j] != c,
{
    let mut i: usize = start;
    while i < text.len()
        invariant
            start <= i <= text@.len(),
            next_char(text@, c, start as int) == next_char(text@, c, i as int),
            forall|j: int| start <= j < i ==> text@[j] != c,
        decreases text@.len() - i,
    {
        if text[i] == c {
            return i;
        }
        i += 1;
    }
    i
}

/// The last position before `end` that holds `c`.
pub open spec fn last_char(text: Seq<char>, c: char, end: int) -> Option<int>
    decreases end,
{
    if end <= 0 {
        None
    } else if text[end - 1] == c {
        Some(end - 1)
    } else {
        last_char(text, c, end - 1)
    }
}

/// The last position that holds `c`.
pub fn find_last_char(text: &[char], c: char) -> (r: Option<usize>)
    ensures
        match r {
            Some(i) => last_char(text@, c, text@.len() as int) == Some(i as int) && i < text@.len(),
            None => last_char(text@, c, text@.len() as int) is None,
        },
{
    let mut i: usize = text.len();
    while i > 0
        invariant
            i <= text@.len(),
            last_char(text@, c, text@.len() as int) == last_char(text@, c, i as int),
        decreases i,
    {
        if text[i - 1] == c {
            return Some(i - 1);
        }
        i -= 1;
    }
    None
}

/// The number that a text of decimal digits denotes. One `+` may stand before the digits, there
/// is at least one digit, and the number is at most `max`.
pub open spec fn decimal_number(text: Seq<char>, max: int) -> Option<int> {
    if is_ascii_chars(text) {
        number(ascii(text), 10, max)
    } else {
        None
    }
}

proof fn char_from_zero(c: char)
    ensures
        '\0' <= c,
{
}

/// The number that a text of decimal digits denotes, where it is at most `max`.
pub fn parse_decimal(text: &[char], max: u64) -> (r: Option<u64>)
    ensures
        match r {
            Some(v) => decimal_number(text@, max as int) == Some(v as int),
            None => decimal_number(text@, max as int) is None,
        },
{
    let mut bytes: Vec<u8> = Vec::new();
    let mut i: usize = 0;
    while i < text.len()
        invariant
            i <= text@.len(),
            bytes@.len() == i,
            forall|j: int| 0 <= j < i ==> (#[trigger] text@[j]) <= '\u{7f}',
            forall|j: int| 0 <= j < i ==> bytes@[j] == #[trigger] text@[j] as u8,
        decreases text@.len() - i,
    {
        let c: char = text[i];
        if c > '\u{7f}' {
            assert(text@[i as int] > '\u{7f}');
            return None;
        }
        bytes.push(c as u8);
        i += 1;
    }
    assert(bytes@ =~= ascii(text@));
    assert(is_ascii_chars(text@)) by {
        assert forall|j: int| 0 <= j < text@.len() implies '\0' <= #[trigger] text@[j] && text@[j]
            <= '\u{7f}' by {
            char_from_zero(text@[j]);
        }
    }
    parse_number(bytes.as_slice(), 10, max)
}

/// The decimal digit of a number below ten.
pub open spec fn digit_char(d: int) -> char {
    (0x30 + d) as char
}

/// A number in decimal notation.
pub open spec fn decimal(n: int) -> Seq<char>
    decreases n,
{
    if n < 10 {
        seq![digit_char(n)]
    } else {
        decimal(n / 10).push(digit_char(n % 10))
    }
}

/// A number written in decimal digits is read back, and nothing but digits is written.
pub proof fn decimals_denote_their_number(n: int, max: int)
    requires
        0 <= n <= max,
    ensures
        decimal_number(decimal(n), max) == Some(n),
        decimal(n).len() > 0,
        forall|i: int| 0 <= i < decimal(n).len() ==> '0' <= #[trigger] decimal(n)[i] <= '9',
{
    decimal_digits(n);
    let text = decimal(n);
    assert(is_ascii_chars(text));
    assert(ascii(text)[0] == text[0] as u8);
    assert('0' <= text[0] <= '9');
}

proof fn decimal_digits(n: int)
    requires
        0 <= n,
    ensures
        crate::bytes::digits_value(ascii(decimal(n)), 10) == Some(n),
        decimal(n).len() > 0,
        forall|i: int| 0 <= i < decimal(n).len() ==> '0' <= #[trigger] decimal(n)[i] <= '9',
    decreases n,
{
    let text = decimal(n);
    let d = digit_char(n % 10);
    assert('0' <= d <= '9' && d as u8 == 0x30 + n % 10);
    if n < 10 {
        assert(text =~= seq![d]);
        assert(ascii(text) =~= seq![d as u8]);
        assert(ascii(text).drop_last() =~= Seq::<u8>::empty());
        reveal_with_fuel(crate::bytes::digits_value, 2);
    } else {
        decimal_digits(n / 10);
        assert(text =~= decimal(n / 10).push(d));
        assert(ascii(text).drop_last() =~= ascii(decimal(n / 10)));
        assert(ascii(text).last() == d as u8);
    }
}

/// Adds a number in decimal notation to a text.
pub fn push_decimal(text: &mut String, n: u64)
    ensures
        final(text)@ == old(text)@ + decimal(n as int),
    decreases n,
{
    if n >= 10 {
        push_decimal(text, n / 10);
    }
    let ghost before = text@;
    let d: u8 = (n % 10) as u8;
    text.push((0x30u8 + d) as char);
    assert(text@ =~= old(text)@ + decimal(n as int));
}

/// A number in decimal notation.
pub fn to_decimal(n: u64) -> (r: String)
    ensures
        r@ == decimal(n as int),
{
    let mut text = String::new();
    push_decimal(&mut text, n);
    assert(text@ =~= decimal(n as int));
    text
}

/// The hexadecimal digit of a number below sixteen, in lower case.
pub open spec fn hex_char(d: int) -> char {
    if d < 10 {
        (0x30 + d) as char
    } else {
        (0x61 + d - 10) as char
    }
}

/// Adds a hexadecimal digit to a text.
pub fn push_hex_digit(text: &mut String, d: u8)
    requires
        d < 16,
    ensures
        final(text)@ == old(text)@.push(hex_char(d as int)),
{
    if d < 10 {
        text.push((0x30u8 + d) as char);
    } else {
        text.push((0x61u8 + (d - 10)) as char);
    }
}

/// Bytes in hexadecimal notation, two digits for each.
pub open spec fn hex(bytes: Seq<u8>) -> Seq<char> {
    Seq::new(
        bytes.len() * 2,
        |i: int|
            hex_char(
                if i % 2 == 0 {
                    bytes[i / 2] / 16
                } else {
                    bytes[i / 2] % 16
                } as int,
            ),
    )
}

/// Bytes in hexadecimal notation.
pub fn to_hex(bytes: &[u8]) -> (r: String)
    ensures
        r@ == hex(bytes@),
{
    let mut text = String::new();
    let mut i: usize = 0;
    while i < bytes.len()
        invariant
            i <= bytes@.len(),
            text@ == hex(bytes@.take(i as int)),
        decreases bytes@.len() - i,
    {
        let ghost before = text@;
        push_hex_digit(&mut text, bytes[i] / 16);
        push_hex_digit(&mut text, bytes[i] % 16);
        assert(text@ =~= hex(bytes@.take(i + 1)));
        i += 1;
    }
    assert(bytes@.take(i as int) =~= bytes@);
    text
}

/// Adds a text to a text.
pub fn append(text: &mut String, more: &str)
    ensures
        final(text)@ == old(text)@ + more@,
{
    text.append(more);
}

/// The contents of a list of character slices.
pub open spec fn char_views(parts: Seq<&[char]>) -> Seq<Seq<char>> {
    parts.map_values(|part: &[char]| part@)
}

/// The contents of a list of texts.
pub open spec fn string_views(parts: Seq<String>) -> Seq<Seq<char>> {
    parts.map_values(|part: String| part@)
}

/// The contents of a list of borrowed texts.
pub open spec fn str_views(parts: Seq<&str>) -> Seq<Seq<char>> {
    parts.map_values(|part: &str| part@)
}

/// Copies of a list of texts.
pub fn copy_strings(list: &Vec<String>) -> (r: Vec<String>)
    ensures
        string_views(r@) == string_views(list@),
{
    let mut out: Vec<String> = Vec::new();
    let mut i: usize = 0;
    while i < list.len()
        invariant
            i <= list@.len(),
            out@.len() == i,
            forall|j: int| 0 <= j < i ==> (#[trigger] out@[j])@ == list@[j]@,
        decreases list@.len() - i,
    {
        out.push(copy(list[i].as_str()));
        i += 1;
    }
    assert(string_views(out@) =~= string_views(list@));
    out
}

/// A line without the carriage return at its end.
pub open spec fn without_return(line: Seq<char>) -> Seq<char> {
    if line.len() > 0 && line.last() == '\r' {
        line.subrange(0, line.len() - 1)
    } else {
        line
    }
}

/// The lines of a text from `start` on. A line ends with a line feed, which may have a carriage
/// return before it; what follows the last line feed is a line if it is not empty.
pub open spec fn lines_from(text: Seq<char>, start: int) -> Seq<Seq<char>>
    decreases text.len() - start,
{
    let end = next_char(text, '\n', start);
    if start < 0 || start >= text.len() {
        Seq::empty()
    } else if start <= end < text.len() {
        seq![without_return(text.subrange(start, end))] + lines_from(text, end + 1)
    } else {
        seq![text.subrange(start, text.len() as int)]
    }
}

/// The lines of a text.
pub open spec fn lines(text: Seq<char>) -> Seq<Seq<char>> {
    lines_from(text, 0)
}

/// The lines of a text.
pub fn lines_of(text: &[char]) -> (r: Vec<&[char]>)
    ensures
        char_views(r@) == lines(text@),
{
    let mut list: Vec<&[char]> = Vec::new();
    let mut start: usize = 0;
    assert(char_views(list@) + lines_from(text@, 0) =~= lines(text@));
    while start < text.len()
        invariant
            start <= text@.len(),
            char_views(list@) + lines_from(text@, start as int) == lines(text@),
        decreases text@.len() - start,
    {
        let end: usize = find_char(text, '\n', start);
        let ghost before = list@;
        if end == text.len() {
            list.push(&text[start..end]);
            assert(char_views(list@) =~= char_views(before).push(
                text@.subrange(start as int, end as int),
            ));
            assert(char_views(list@) =~= lines(text@));
            return list;
        }
        let stop: usize = if end > start && text[end - 1] == '\r' {
            end - 1
        } else {
            end
        };
        list.push(&text[start..stop]);
        assert(text@.subrange(start as int, stop as int) =~= without_return(
            text@.subrange(start as int, end as int),
        ));
        assert(char_views(list@) =~= char_views(before).push(
            text@.subrange(start as int, stop as int),
        ));
        assert(char_views(list@) + lines_from(text@, end + 1) =~= char_views(before) + lines_from(
            text@,
            start as int,
        ));
        start = end + 1;
    }
    assert(char_views(list@) =~= lines(text@));
    list
}

/// The first position at or after `start` where there is white space, or the length of the text.
pub open spec fn word_end(text: Seq<char>, start: int) -> int
    decreases text.len() - start,
{
    if start >= text.len() {
        text.len() as int
    } else if is_white(text[start]) {
        start
    } else {
        word_end(text, start + 1)
    }
}

/// The first position at or after `start` where there is no white space, or the length of the
/// text.
pub open spec fn word_start(text: Seq<char>, start: int) -> int
    decreases text.len() - start,
{
    if start >= text.len() {
        text.len() as int
    } else if !is_white(text[start]) {
        start
    } else {
        word_start(text, start + 1)
    }
}

/// The second word of a text, where it has two.
pub open spec fn second_word(text: Seq<char>) -> Option<Seq<char>> {
    let first = word_start(text, 0);
    let second = word_start(text, word_end(text, first));
    if second < text.len() {
        Some(text.subrange(second, word_end(text, second)))
    } else {
        None
    }
}

/// The first position at or after `start` where there is white space, or the length of the text.
fn find_word_end(text: &[char], start: usize) -> (r: usize)
    requires
        start <= text@.len(),
    ensures
        r == word_end(text@, start as int),
        start <= r <= text@.len(),
{
    let mut i: usize = start;
    while i < text.len() && !is_whitespace(text[i])
        invariant
            start <= i <= text@.len(),
            word_end(text@, start as int) == word_end(text@, i as int),
        decreases text@.len() - i,
    {
        i += 1;
    }
    i
}

/// The first position at or after `start` where there is no white space, or the length of the
/// text.
fn find_word_start(text: &[char], start: usize) -> (r: usize)
    requires
        start <= text@.len(),
    ensures
        r == word_start(text@, start as int),
        start <= r <= text@.len(),
        r < text@.len() ==> !is_white(text@[r as int]),
{
    let mut i: usize = start;
    while i < text.len() && is_whitespace(text[i])
        invariant
            start <= i <= text@.len(),
            word_start(text@, start as int) == word_start(text@, i as int),
        decreases text@.len() - i,
    {
        i += 1;
    }
    i
}

/// The words of a text from `start` on.
pub open spec fn words_from(text: Seq<char>, start: int) -> Seq<Seq<char>>
    decreases text.len() - start,
{
    let first = word_start(text, start);
    let end = word_end(text, first);
    if 0 <= start <= first < end <= text.len() {
        seq![text.subrange(first, end)] + words_from(text, end)
    } else {
        Seq::empty()
    }
}

/// The words of a text.
pub open spec fn words(text: Seq<char>) -> Seq<Seq<char>> {
    words_from(text, 0)
}

/// The words of a text.
pub fn words_of(text: &[char]) -> (r: Vec<&[char]>)
    ensures
        char_views(r@) == words(text@),
{
    let mut list: Vec<&[char]> = Vec::new();
    let mut start: usize = 0;
    assert(char_views(list@) + words_from(text@, 0) =~= words(text@));
    loop
        invariant
            start <= text@.len(),
            char_views(list@) + words_from(text@, start as int) == words(text@),
        decreases text@.len() - start,
    {
        let first: usize = find_word_start(text, start);
        if first == text.len() {
            assert(char_views(list@) =~= words(text@));
            return list;
        }
        let end: usize = find_word_end(text, first + 1);
        let ghost before = list@;
        let word: &[char] = &text[first..end];
        list.push(word);
        assert(char_views(list@) =~= char_views(before).push(word@));
        assert(char_views(list@) + words_from(text@, end as int) =~= char_views(before)
            + words_from(text@, start as int));
        start = end;
    }
}

/// The second word of a text, where it has two.
pub fn find_second_word(text: &[char]) -> (r: Option<&[char]>)
    ensures
        match r {
            Some(word) => second_word(text@) == Some(word@),
            None => second_word(text@) is None,
        },
{
    let first: usize = find_word_start(text, 0);
    let gap: usize = find_word_end(text, first);
    let second: usize = find_word_start(text, gap);
    if second < text.len() {
        let end: usize = find_word_end(text, second);
        Some(&text[second..end])
    } else {
        None
    }
}

/// `part` stands in `text` at position `i`.
pub open spec fn stands_at(text: Seq<char>, part: Seq<char>, i: int) -> bool {
    &&& 0 <= i
    &&& i + part.len() <= text.len()
    &&& text.subrange(i, i + part.len()) =~= part
}

/// `part` stands somewhere in `text`.
pub open spec fn contains_text(text: Seq<char>, part: Seq<char>) -> bool {
    exists|i: int| #[trigger] stands_at(text, part, i)
}

/// Whether `part` stands in `text` at position `i`.
pub fn text_stands_at(text: &[char], part: &[char], i: usize) -> (r: bool)
    ensures
        r == stands_at(text@, part@, i as int),
{
    if i > text.len() || part.len() > text.len() - i {
        return false;
    }
    let mut k: usize = 0;
    while k < part.len()
        invariant
            i + part@.len() <= text@.len() <= usize::MAX,
            k <= part@.len(),
            forall|j: int| 0 <= j < k ==> text@[i + j] == part@[j],
        decreases part@.len() - k,
    {
        if text[i + k] != part[k] {
            assert(text@.subrange(i as int, i + part@.len())[k as int] != part@[k as int]);
            return false;
        }
        k += 1;
    }
    assert(text@.subrange(i as int, i + part@.len()) =~= part@);
    true
}

/// Whether `part` stands somewhere in `text`.
pub fn has_text(text: &[char], part: &str) -> (r: bool)
    ensures
        r == contains_text(text@, part@),
{
    let wanted = chars_of(part);
    if wanted.len() > text.len() {
        return false;
    }
    let last: usize = text.len() - wanted.len();
    let mut i: usize = 0;
    loop
        invariant
            wanted@ == part@,
            last + wanted@.len() == text@.len(),
            i <= last,
            forall|j: int| 0 <= j < i ==> !stands_at(text@, part@, j),
        decreases last - i,
    {
        if text_stands_at(text, wanted.as_slice(), i) {
            return true;
        }
        if i == last {
            assert forall|j: int| !stands_at(text@, part@, j) by {
                if 0 <= j <= last {
                }
            }
            return false;
        }
        i += 1;
    }
}

/// One text comes before another: in the first place where they differ its character is less,
/// or it ends there.
pub open spec fn text_before(a: Seq<char>, b: Seq<char>, i: int) -> bool
    decreases a.len() - i,
{
    if i >= a.len() {
        i < b.len()
    } else if i >= b.len() {
        false
    } else if a[i] != b[i] {
        a[i] < b[i]
    } else {
        text_before(a, b, i + 1)
    }
}

/// Whether one text comes before another.
pub fn comes_before(a: &str, b: &str) -> (r: bool)
    ensures
        r == text_before(a@, b@, 0),
{
    let left = chars_of(a);
    let right = chars_of(b);
    let mut i: usize = 0;
    while i < left.len()
        invariant
            left@ == a@,
            right@ == b@,
            i <= left@.len(),
            text_before(a@, b@, 0) == text_before(a@, b@, i as int),
        decreases left@.len() - i,
    {
        if i >= right.len() {
            return false;
        }
        if left[i] != right[i] {
            return left[i] < right[i];
        }
        i += 1;
    }
    i < right.len()
}

/// The lower-case form of an ASCII letter; any other character unchanged.
pub open spec fn lower_char(c: char) -> char {
    if 'A' <= c <= 'Z' {
        (c as u32 + 0x20) as char
    } else {
        c
    }
}

/// A text with its ASCII letters in lower case.
pub open spec fn lowered(text: Seq<char>) -> Seq<char> {
    text.map_values(|c: char| lower_char(c))
}

/// The lower-case form of an ASCII letter; any other character unchanged.
pub fn to_lower_char(c: char) -> (r: char)
    ensures
        r == lower_char(c),
{
    if 'A' <= c && c <= 'Z' {
        ((c as u8) + 0x20) as char
    } else {
        c
    }
}

/// A list of characters with its ASCII letters in lower case.
pub fn lower_chars(text: &[char]) -> (r: Vec<char>)
    ensures
        r@ == lowered(text@),
{
    let mut out: Vec<char> = Vec::new();
    let mut i: usize = 0;
    while i < text.len()
        invariant
            i <= text@.len(),
            out@.len() == i,
            forall|j: int| 0 <= j < i ==> #[trigger] out@[j] == lower_char(text@[j]),
        decreases text@.len() - i,
    {
        out.push(to_lower_char(text[i]));
        i += 1;
    }
    assert(out@ =~= lowered(text@));
    out
}

/// Whether two texts are equal up to the case of ASCII letters.
pub fn same_lowered(a: &[char], b: &[char]) -> (r: bool)
    ensures
        r == (lowered(a@) == lowered(b@)),
{
    if a.len() != b.len() {
        assert(lowered(a@).len() != lowered(b@).len());
        return false;
    }
    let mut i: usize = 0;
    while i < a.len()
        invariant
            a@.len() == b@.len(),
            i <= a@.len(),
            forall|j: int| 0 <= j < i ==> lower_char(#[trigger] a@[j]) == lower_char(b@[j]),
        decreases a@.len() - i,
    {
        if to_lower_char(a[i]) != to_lower_char(b[i]) {
            assert(lowered(a@)[i as int] != lowered(b@)[i as int]);
            return false;
        }
        i += 1;
    }
    assert(lowered(a@) =~= lowered(b@));
    true
}

/// A text in quotes with escapes, as for debugging.
pub uninterp spec fn debug_quoted(text: Seq<char>) -> Seq<char>;

/// The `Debug` form of `str` in the standard library: the text in quotes, with escapes. Which
/// characters it escapes is not stated; it depends on the text alone.
#[verifier::external_body]
pub(crate) fn debug_quote(text: &str) -> (r: String)
    ensures
        r@ == debug_quoted(text@),
{
    format!("{:?}", text)
}

/// The text, if there is one.
pub open spec fn maybe(text: Option<String>) -> Option<Seq<char>> {
    match text {
        Some(t) => Some(t@),
        None => None,
    }
}

/// The first `n` texts with a separator in between.
pub open spec fn joined(list: Seq<Seq<char>>, sep: Seq<char>, n: int) -> Seq<char>
    decreases n,
{
    if n <= 0 {
        Seq::empty()
    } else if n == 1 {
        list[0]
    } else {
        joined(list, sep, n - 1) + sep + list[n - 1]
    }
}

/// The texts with a separator in between.
pub fn join(list: &Vec<String>, sep: &str) -> (r: String)
    ensures
        r@ == joined(string_views(list@), sep@, list@.len() as int),
{
    let mut text = String::new();
    let mut i: usize = 0;
    while i < list.len()
        invariant
            i <= list@.len(),
            text@ == joined(string_views(list@), sep@, i as int),
        decreases list@.len() - i,
    {
        if i > 0 {
            append(&mut text, sep);
        }
        append(&mut text, list[i].as_str());
        assert(text@ =~= joined(string_views(list@), sep@, i + 1));
        i += 1;
    }
    text
}

/// What a digit in base sixteen is worth.
pub open spec fn digit_worth(c: char) -> int {
    if '0' <= c <= '9' {
        c as int - '0' as int
    } else {
        10 + (c as int - 'a' as int)
    }
}

/// Every digit in base sixteen is worth the number that it stands for.
pub proof fn digits_are_worth_their_number(d: int)
    requires
        0 <= d < 16,
    ensures
        digit_worth(hex_char(d)) == d,
        '0' <= hex_char(d) <= '9' || 'a' <= hex_char(d) <= 'f',
{
}

/// Two digits in base sixteen are written for each byte, and they give it back.
pub proof fn bytes_are_two_digits(bytes: Seq<u8>, i: int)
    requires
        0 <= i < bytes.len(),
    ensures
        hex(bytes).len() == 2 * bytes.len(),
        16 * digit_worth(hex(bytes)[2 * i]) + digit_worth(hex(bytes)[2 * i + 1]) == bytes[i],
{
    digits_are_worth_their_number((bytes[i] / 16) as int);
    digits_are_worth_their_number((bytes[i] % 16) as int);
    assert((2 * i) / 2 == i && (2 * i) % 2 == 0);
    assert((2 * i + 1) / 2 == i && (2 * i + 1) % 2 == 1);
}

} // verus!
