//! The counts that the system keeps.
use crate::agent::telemetry::Counters;
use crate::text::{
    char_views, chars_of, decimal_number, lines, lines_of, parse_decimal, stands_at, text_stands_at,
    trim_chars, trimmed, words, words_of,
};
use vstd::prelude::*;

verus! {

/// The first line at or after `from` that starts with a text.
pub open spec fn line_with(lines: Seq<Seq<char>>, start: Seq<char>, from: int) -> Option<int>
    decreases lines.len() - from,
{
    if from >= lines.len() {
        None
    } else if stands_at(lines[from], start, 0) {
        Some(from)
    } else {
        line_with(lines, start, from + 1)
    }
}

/// The first of the names from `from` on that is this one.
pub open spec fn column_of(names: Seq<Seq<char>>, name: Seq<char>, from: int) -> Option<int>
    decreases names.len() - from,
{
    if from >= names.len() {
        None
    } else if names[from] == name {
        Some(from)
    } else {
        column_of(names, name, from + 1)
    }
}

/// The number that a text denotes, or 0.
pub open spec fn count_or_zero(text: Seq<char>) -> int {
    match decimal_number(text, u64::MAX as int) {
        Some(n) => n,
        None => 0,
    }
}

/// A count in a table of which one line names the counts of a protocol and the next one of the
/// same protocol gives them; 0 where it is not there.
pub open spec fn table_count(text: Seq<char>, protocol: Seq<char>, name: Seq<char>) -> int {
    let rows = lines(text);
    match line_with(rows, protocol, 0) {
        None => 0,
        Some(i) => match line_with(rows, protocol, i + 1) {
            None => 0,
            Some(j) => match column_of(words(rows[i]), name, 0) {
                Some(k) if k < words(rows[j]).len() => count_or_zero(words(rows[j])[k]),
                _ => 0,
            },
        },
    }
}

/// The number that a text denotes, or 0.
fn number_or_zero(text: &[char]) -> (r: u64)
    ensures
        r == count_or_zero(text@),
{
    match parse_decimal(text, u64::MAX) {
        Some(n) => n,
        None => 0,
    }
}

/// The first line at or after `from` that starts with a text.
fn find_line(rows: &Vec<&[char]>, start: &[char], from: usize) -> (r: Option<usize>)
    requires
        from <= rows@.len(),
    ensures
        match r {
            Some(i) => line_with(char_views(rows@), start@, from as int) == Some(i as int) && from
                <= i < rows@.len(),
            None => line_with(char_views(rows@), start@, from as int) is None,
        },
{
    let ghost views = char_views(rows@);
    let mut i: usize = from;
    while i < rows.len()
        invariant
            views == char_views(rows@),
            from <= i <= rows@.len(),
            line_with(views, start@, from as int) == line_with(views, start@, i as int),
        decreases rows@.len() - i,
    {
        assert(views[i as int] == rows@[i as int]@);
        if text_stands_at(rows[i], start, 0) {
            return Some(i);
        }
        i += 1;
    }
    None
}

/// The first of the names that is this one.
fn find_column(names: &Vec<&[char]>, name: &[char]) -> (r: Option<usize>)
    ensures
        match r {
            Some(i) => column_of(char_views(names@), name@, 0) == Some(i as int),
            None => column_of(char_views(names@), name@, 0) is None,
        },
{
    let ghost views = char_views(names@);
    let mut i: usize = 0;
    while i < names.len()
        invariant
            views == char_views(names@),
            i <= names@.len(),
            column_of(views, name@, 0) == column_of(views, name@, i as int),
        decreases names@.len() - i,
    {
        assert(views[i as int] == names@[i as int]@);
        if names[i].len() == name.len() && text_stands_at(names[i], name, 0) {
            assert(names@[i as int]@ =~= name@) by {
                assert(stands_at(names@[i as int]@, name@, 0));
            }
            return Some(i);
        }
        i += 1;
    }
    None
}

/// How many TCP segments the system has sent again, as `/proc/net/snmp` says it.
pub fn retransmitted_segments(text: &str) -> (r: u64)
    ensures
        r == table_count(text@, "Tcp:"@, "RetransSegs"@),
{
    let chars = chars_of(text);
    let rows = lines_of(chars.as_slice());
    let start = chars_of("Tcp:");
    let name = chars_of("RetransSegs");
    let i: usize = match find_line(&rows, start.as_slice(), 0) {
        Some(i) => i,
        None => {
            return 0;
        },
    };
    let j: usize = match find_line(&rows, start.as_slice(), i + 1) {
        Some(j) => j,
        None => {
            return 0;
        },
    };
    assert(char_views(rows@)[i as int] == rows@[i as int]@);
    assert(char_views(rows@)[j as int] == rows@[j as int]@);
    let names = words_of(rows[i]);
    let values = words_of(rows[j]);
    match find_column(&names, name.as_slice()) {
        Some(k) => if k < values.len() {
            assert(char_views(values@)[k as int] == values@[k as int]@);
            number_or_zero(values[k])
        } else {
            0
        },
        None => 0,
    }
}

/// The value of a count that the system keeps of an interface, from the file that holds it.
pub fn interface_count(text: &str) -> (r: u64)
    ensures
        r == count_or_zero(trimmed(text@)),
{
    let chars = chars_of(text);
    number_or_zero(trim_chars(chars.as_slice()))
}

/// What the system has counted of an interface.
#[derive(Debug, Clone, Copy, PartialEq, Eq, Structural)]
pub struct SystemCounts {
    pub tx_packets: u64,
    pub rx_packets: u64,
    pub tx_bytes: u64,
    pub rx_bytes: u64,
    pub retransmitted: u64,
}

/// A count of a run after the system's count went from `first` to `now`: what came to it since,
/// but never less than before.
pub open spec fn count_since(counted: u64, first: u64, now: u64) -> u64 {
    if now > first && now - first > counted {
        (now - first) as u64
    } else {
        counted
    }
}

/// The counts of a run after the system's counts went from `first` to `now`.
pub open spec fn counts_since(c: Counters, first: SystemCounts, now: SystemCounts) -> Counters {
    Counters {
        packets_tx: count_since(c.packets_tx, first.tx_packets, now.tx_packets),
        packets_rx: count_since(c.packets_rx, first.rx_packets, now.rx_packets),
        wire_tx_bytes: count_since(c.wire_tx_bytes, first.tx_bytes, now.tx_bytes),
        wire_rx_bytes: count_since(c.wire_rx_bytes, first.rx_bytes, now.rx_bytes),
        tcp_retransmissions: count_since(
            c.tcp_retransmissions,
            first.retransmitted,
            now.retransmitted,
        ),
        ..c
    }
}

/// A count of a run after the system's count went from `first` to `now`.
fn take_count(counted: u64, first: u64, now: u64) -> (r: u64)
    ensures
        r == count_since(counted, first, now),
{
    if now > first && now - first > counted {
        now - first
    } else {
        counted
    }
}

/// Takes over into the counts of a run what the system has counted since `first`.
pub fn take_counts(c: &mut Counters, first: &SystemCounts, now: &SystemCounts)
    ensures
        *final(c) == counts_since(*old(c), *first, *now),
{
    c.packets_tx = take_count(c.packets_tx, first.tx_packets, now.tx_packets);
    c.packets_rx = take_count(c.packets_rx, first.rx_packets, now.rx_packets);
    c.wire_tx_bytes = take_count(c.wire_tx_bytes, first.tx_bytes, now.tx_bytes);
    c.wire_rx_bytes = take_count(c.wire_rx_bytes, first.rx_bytes, now.rx_bytes);
    c.tcp_retransmissions = take_count(
        c.tcp_retransmissions,
        first.retransmitted,
        now.retransmitted,
    );
}

/// The counts of a run never fall, whatever the system's counts do.
pub proof fn counts_never_fall(c: Counters, first: SystemCounts, now: SystemCounts)
    ensures
        ({
            let after = counts_since(c, first, now);
            &&& after.packets_tx >= c.packets_tx
            &&& after.packets_rx >= c.packets_rx
            &&& after.wire_tx_bytes >= c.wire_tx_bytes
            &&& after.wire_rx_bytes >= c.wire_rx_bytes
            &&& after.tcp_retransmissions >= c.tcp_retransmissions
        }),
{
}

} // verus!
