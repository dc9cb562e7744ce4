//! Header blocks of HTTP/2. What the header fields are does not matter here, but only whole blocks
//! are accepted, and how long the fields are decides what later blocks may refer to.
use vstd::arithmetic::power2::{
    lemma2_to64, lemma_pow2_strictly_increases, lemma_pow2_unfold, pow2,
};
use vstd::prelude::*;

verus! {

/// The codes of so many bits, which follow one another: the first of them, and how many there are.
pub open spec fn codes_of(length: int) -> (int, int) {
    if length == 5 {
        (0, 10)
    } else if length == 6 {
        (0x14, 26)
    } else if length == 7 {
        (0x5c, 32)
    } else if length == 8 {
        (0xf8, 6)
    } else if length == 10 {
        (0x3f8, 5)
    } else if length == 11 {
        (0x7fa, 3)
    } else if length == 12 {
        (0xffa, 2)
    } else if length == 13 {
        (0x1ff8, 6)
    } else if length == 14 {
        (0x3ffc, 2)
    } else if length == 15 {
        (0x7ffc, 3)
    } else if length == 19 {
        (0x7_fff0, 3)
    } else if length == 20 {
        (0xf_ffe6, 8)
    } else if length == 21 {
        (0x1f_ffdc, 13)
    } else if length == 22 {
        (0x3f_ffd2, 26)
    } else if length == 23 {
        (0x7f_ffd8, 29)
    } else if length == 24 {
        (0xff_ffea, 12)
    } else if length == 25 {
        (0x1ff_ffec, 4)
    } else if length == 26 {
        (0x3ff_ffe0, 15)
    } else if length == 27 {
        (0x7ff_ffde, 19)
    } else if length == 28 {
        (0xfff_ffe2, 29)
    } else if length == 30 {
        (0x3fff_fffc, 4)
    } else {
        (0, 0)
    }
}

/// So many bits are a code.
pub open spec fn is_code(code: int, length: int) -> bool {
    codes_of(length).0 <= code < codes_of(length).0 + codes_of(length).1
}

/// The code of the end of a text, which no text has in it.
pub const END_CODE: u64 = 0x3fff_ffff;

/// What a bit of a byte is worth, the first bit the most.
pub open spec fn worth(k: int) -> int {
    if k == 0 {
        128
    } else if k == 1 {
        64
    } else if k == 2 {
        32
    } else if k == 3 {
        16
    } else if k == 4 {
        8
    } else if k == 5 {
        4
    } else if k == 6 {
        2
    } else {
        1
    }
}

/// A bit of a byte.
pub open spec fn bit_of(b: u8, k: int) -> int {
    (b as int / worth(k)) % 2
}

/// So many bits that are all set.
pub open spec fn ones(length: int) -> int {
    if length == 0 {
        0
    } else {
        2 * worth(8 - length) - 1
    }
}

/// How many characters a text has whose codes start at bit `k` of byte `i`, where some bits of a
/// code and some characters come before. At the end at most seven bits are left, all set. There is
/// no such text where the bits are no codes.
pub open spec fn characters(
    data: Seq<u8>,
    i: int,
    k: int,
    code: int,
    length: int,
    count: int,
) -> Option<int>
    decreases data.len() - i, 8 - k,
{
    if i >= data.len() {
        if length <= 7 && code == ones(length) {
            Some(count)
        } else {
            None
        }
    } else if k >= 8 {
        characters(data, i + 1, 0, code, length, count)
    } else {
        let longer = 2 * code + bit_of(data[i], k);
        if is_code(longer, length + 1) {
            if length + 1 == 30 && longer == END_CODE {
                None
            } else {
                characters(data, i, k + 1, 0, 0, count + 1)
            }
        } else if length + 1 >= 30 {
            None
        } else {
            characters(data, i, k + 1, longer, length + 1, count)
        }
    }
}

/// The codes of so many bits.
fn code_range(length: u32) -> (r: (u64, u64))
    ensures
        (r.0 as int, r.1 as int) == codes_of(length as int),
        r.0 <= 0x3fff_fffc,
        r.1 <= 32,
{
    match length {
        5 => (0, 10),
        6 => (0x14, 26),
        7 => (0x5c, 32),
        8 => (0xf8, 6),
        10 => (0x3f8, 5),
        11 => (0x7fa, 3),
        12 => (0xffa, 2),
        13 => (0x1ff8, 6),
        14 => (0x3ffc, 2),
        15 => (0x7ffc, 3),
        19 => (0x7_fff0, 3),
        20 => (0xf_ffe6, 8),
        21 => (0x1f_ffdc, 13),
        22 => (0x3f_ffd2, 26),
        23 => (0x7f_ffd8, 29),
        24 => (0xff_ffea, 12),
        25 => (0x1ff_ffec, 4),
        26 => (0x3ff_ffe0, 15),
        27 => (0x7ff_ffde, 19),
        28 => (0xfff_ffe2, 29),
        30 => (0x3fff_fffc, 4),
        _ => (0, 0),
    }
}

/// What a bit of a byte is worth.
fn bit_worth(k: u32) -> (r: u8)
    ensures
        r == worth(k as int),
        r > 0,
{
    match k {
        0 => 128,
        1 => 64,
        2 => 32,
        3 => 16,
        4 => 8,
        5 => 4,
        6 => 2,
        _ => 1,
    }
}

/// How many characters a text in codes has.
fn count_characters(data: &[u8]) -> (r: Option<u128>)
    ensures
        match r {
            Some(n) => characters(data@, 0, 0, 0, 0, 0) == Some(n as int) && n <= 8 * data@.len(),
            None => characters(data@, 0, 0, 0, 0, 0) is None,
        },
{
    let size: usize = data.len();
    let mut i: usize = 0;
    let mut code: u64 = 0;
    let mut length: u32 = 0;
    let mut count: u128 = 0;
    proof {
        lemma2_to64();
    }
    while i < size
        invariant
            size == data@.len(),
            i <= size,
            length < 30,
            code < pow2(length as nat),
            count <= 8 * i,
            characters(data@, 0, 0, 0, 0, 0) == characters(
                data@,
                i as int,
                0,
                code as int,
                length as int,
                count as int,
            ),
        decreases size - i,
    {
        let mut k: u32 = 0;
        while k < 8
            invariant
                size == data@.len(),
                i < size,
                k <= 8,
                length < 30,
                code < pow2(length as nat),
                count <= 8 * i + k,
                characters(data@, 0, 0, 0, 0, 0) == characters(
                    data@,
                    i as int,
                    k as int,
                    code as int,
                    length as int,
                    count as int,
                ),
            decreases 8 - k,
        {
            let bit: u64 = ((data[i] / bit_worth(k)) % 2) as u64;
            proof {
                lemma2_to64();
                lemma_pow2_strictly_increases(length as nat, 30);
                lemma_pow2_unfold((length + 1) as nat);
            }
            let longer: u64 = 2 * code + bit;
            assert(longer < pow2((length + 1) as nat));
            let (first, many) = code_range(length + 1);
            k += 1;
            if first <= longer && longer < first + many {
                if length + 1 == 30 && longer == END_CODE {
                    return None;
                }
                code = 0;
                length = 0;
                count += 1;
            } else if length + 1 >= 30 {
                return None;
            } else {
                code = longer;
                length += 1;
            }
        }
        i += 1;
    }
    let full: u64 = if length == 0 {
        0
    } else if length <= 7 {
        2 * (bit_worth(8 - length) as u64) - 1
    } else {
        0
    };
    if length <= 7 && code == full {
        Some(count)
    } else {
        None
    }
}

/// A number goes on from byte `at` on, seven bits in each, as long as the highest bit is set. It
/// has at most `left` more bytes.
pub open spec fn number_from(
    data: Seq<u8>,
    at: int,
    weight: int,
    value: int,
    left: int,
) -> Option<(int, int)>
    decreases left,
{
    if left <= 0 || at >= data.len() {
        None
    } else {
        let sum = value + (data[at] % 128) * weight;
        if data[at] < 128 {
            Some((sum, at + 1))
        } else {
            number_from(data, at + 1, weight * 128, sum, left - 1)
        }
    }
}

/// The number in the low bits of a byte, and in the bytes behind it if those are all set, and the
/// position behind the number. The bits hold numbers below `top`.
pub open spec fn number_at(data: Seq<u8>, at: int, top: int) -> Option<(int, int)> {
    let low = data[at] as int % top;
    if low < top - 1 {
        Some((low, at + 1))
    } else {
        number_from(data, at + 1, 1, low, 4)
    }
}

/// Reads a number.
fn read_number(data: &[u8], at: usize, top: u8) -> (r: Option<(u64, usize)>)
    requires
        at < data@.len(),
        0 < top <= 128,
    ensures
        match r {
            Some((value, next)) => {
                &&& number_at(data@, at as int, top as int) == Some((value as int, next as int))
                &&& at < next <= data@.len()
                &&& value <= 0x1000_0080
            },
            None => number_at(data@, at as int, top as int) is None,
        },
{
    let size: usize = data.len();
    let low: u8 = data[at] % top;
    if low < top - 1 {
        return Some((low as u64, at + 1));
    }
    let mut value: u64 = low as u64;
    let mut weight: u64 = 1;
    let mut next: usize = at + 1;
    let mut left: u32 = 4;
    while left > 0 && next < size
        invariant
            size == data@.len(),
            at < next <= size,
            left <= 4,
            left == 4 ==> weight == 1 && value <= 127,
            left == 3 ==> weight == 0x80 && value <= 127 + 0x80,
            left == 2 ==> weight == 0x4000 && value <= 127 + 0x4000,
            left == 1 ==> weight == 0x20_0000 && value <= 127 + 0x20_0000,
            left == 0 ==> weight == 0x1000_0000 && value <= 127 + 0x1000_0000,
            number_at(data@, at as int, top as int) == number_from(
                data@,
                next as int,
                weight as int,
                value as int,
                left as int,
            ),
        decreases left,
    {
        let b: u8 = data[next];
        let part: u64 = (b % 128) as u64;
        assert(part * weight <= 127 * weight) by (nonlinear_arith)
            requires
                part <= 127,
                weight >= 0,
        ;
        let sum: u64 = value + part * weight;
        next += 1;
        if b < 128 {
            return Some((sum, next));
        }
        value = sum;
        weight = weight * 128;
        left -= 1;
    }
    None
}

/// The length of a text at a position once it is decoded, and the position behind it.
pub open spec fn text_at(data: Seq<u8>, at: int) -> Option<(int, int)> {
    if at >= data.len() {
        None
    } else {
        match number_at(data, at, 128) {
            None => None,
            Some((size, next)) => if next + size > data.len() {
                None
            } else if data[at] < 128 {
                Some((size, next + size))
            } else {
                match characters(data.subrange(next, next + size), 0, 0, 0, 0, 0) {
                    Some(count) => Some((count, next + size)),
                    None => None,
                }
            },
        }
    }
}

/// Reads the length of a text.
fn read_text(data: &[u8], at: usize) -> (r: Option<(u128, usize)>)
    requires
        at <= data@.len(),
    ensures
        match r {
            Some((length, next)) => {
                &&& text_at(data@, at as int) == Some((length as int, next as int))
                &&& at < next <= data@.len()
                &&& length <= 8 * data@.len()
            },
            None => text_at(data@, at as int) is None,
        },
{
    let total: usize = data.len();
    if at >= total {
        return None;
    }
    match read_number(data, at, 128) {
        None => None,
        Some((size, next)) => {
            if size > (total - next) as u64 {
                return None;
            }
            let end: usize = next + size as usize;
            if data[at] < 128 {
                return Some((size as u128, end));
            }
            match count_characters(&data[next..end]) {
                Some(count) => Some((count, end)),
                None => None,
            }
        },
    }
}

/// The lengths of the names of the header fields that every connection knows.
pub open spec fn static_lengths() -> Seq<u8> {
    seq![
        10, 7, 7, 5, 5, 7, 7, 7, 7, 7, 7, 7, 7, 7, 14, 15, 15, 13, 6, 27, 3, 5, 13, 13, 19, 16, 16,
        14, 16, 13, 12, 6, 4, 4, 6, 7, 4, 4, 8, 17, 13, 8, 19, 13, 4, 8, 12, 18, 19, 5, 7, 7, 11, 6,
        10, 25, 17, 10, 4, 3, 16,
    ]
}

/// The header fields that later blocks may refer to, the last one first, each by the lengths of
/// its name and its value; and how many bytes they may take.
#[verifier::ext_equal]
pub struct TableView {
    pub entries: Seq<(int, int)>,
    pub room: int,
}

/// What is remembered of a direction before any block.
pub open spec fn new_table() -> TableView {
    TableView { entries: Seq::empty(), room: 4096 }
}

/// How many bytes a header field takes.
pub open spec fn entry_size(entry: (int, int)) -> int {
    entry.0 + entry.1 + 32
}

/// How many of the header fields from `from` on fit in so many bytes.
pub open spec fn fitting(entries: Seq<(int, int)>, from: int, room: int) -> int
    decreases entries.len() - from,
{
    if from >= entries.len() || entry_size(entries[from]) > room {
        0
    } else {
        1 + fitting(entries, from + 1, room - entry_size(entries[from]))
    }
}

/// The header fields that fit in so many bytes, from the last one on.
pub open spec fn held(entries: Seq<(int, int)>, room: int) -> TableView {
    TableView { entries: entries.subrange(0, fitting(entries, 0, room)), room }
}

/// The length of the name of a header field that a block refers to.
pub open spec fn name_length(table: TableView, index: int) -> Option<int> {
    if 1 <= index <= 61 {
        Some(static_lengths()[index - 1] as int)
    } else if 62 <= index < 62 + table.entries.len() {
        Some(table.entries[index - 62].0)
    } else {
        None
    }
}

/// The lengths of the name and the value of a header field that is written out behind its number,
/// and the position behind it. The name may be that of a known field.
pub open spec fn field_at(table: TableView, data: Seq<u8>, at: int, top: int) -> Option<
    ((int, int), int),
> {
    match number_at(data, at, top) {
        None => None,
        Some((index, next)) => {
            let name = if index == 0 {
                text_at(data, next)
            } else {
                match name_length(table, index) {
                    Some(length) => Some((length, next)),
                    None => None,
                }
            };
            match name {
                None => None,
                Some((length, behind)) => match text_at(data, behind) {
                    None => None,
                    Some((value, end)) => Some(((length, value), end)),
                },
            }
        },
    }
}

/// What is remembered after the header field at a position, and the position behind it.
pub open spec fn after_field(table: TableView, data: Seq<u8>, at: int) -> Option<(TableView, int)> {
    let b = data[at];
    if b >= 128 {
        match number_at(data, at, 128) {
            Some((index, next)) => if name_length(table, index) is Some {
                Some((table, next))
            } else {
                None
            },
            None => None,
        }
    } else if b >= 64 {
        match field_at(table, data, at, 64) {
            Some((entry, next)) => Some((held(seq![entry] + table.entries, table.room), next)),
            None => None,
        }
    } else if b >= 32 {
        match number_at(data, at, 32) {
            Some((room, next)) => Some((held(table.entries, room), next)),
            None => None,
        }
    } else {
        match field_at(table, data, at, 16) {
            Some((_, next)) => Some((table, next)),
            None => None,
        }
    }
}

/// What is remembered after a header block from a position on; nothing where it is cut off or
/// refers to fields that are not known.
pub open spec fn after_block(table: TableView, data: Seq<u8>, at: int) -> Option<TableView>
    decreases data.len() - at,
{
    if at >= data.len() {
        Some(table)
    } else {
        match after_field(table, data, at) {
            Some((next_table, next)) if at < next <= data.len() => after_block(next_table, data, next),
            _ => None,
        }
    }
}

/// What is remembered of a direction.
pub struct Table {
    pub entries: Vec<(u128, u128)>,
    pub room: u64,
}

/// The lengths of header fields.
pub open spec fn entry_views(entries: Seq<(u128, u128)>) -> Seq<(int, int)> {
    entries.map_values(|e: (u128, u128)| (e.0 as int, e.1 as int))
}

impl View for Table {
    type V = TableView;

    open spec fn view(&self) -> TableView {
        TableView { entries: entry_views(self.entries@), room: self.room as int }
    }
}

/// The bound of all lengths.
pub open spec fn long() -> int {
    0x1_0000_0000_0000_0000_0000
}

/// All lengths are within their bound.
pub open spec fn is_short(table: Table) -> bool {
    forall|i: int|
        0 <= i < table.entries@.len() ==> (#[trigger] table.entries@[i]).0 <= long()
            && table.entries@[i].1 <= long()
}

impl Default for Table {
    fn default() -> (r: Table)
        ensures
            r@ == new_table(),
            is_short(r),
    {
        let r = Table { entries: Vec::new(), room: 4096 };
        assert(r@.entries =~= Seq::empty());
        r
    }
}

proof fn fitting_is_within(entries: Seq<(int, int)>, from: int, room: int)
    requires
        0 <= from <= entries.len(),
    ensures
        0 <= fitting(entries, from, room) <= entries.len() - from,
    decreases entries.len() - from,
{
    if from < entries.len() && entry_size(entries[from]) <= room {
        fitting_is_within(entries, from + 1, room - entry_size(entries[from]));
    }
}

impl Table {
    /// Keeps the header fields that fit.
    fn hold(&mut self, room: u64)
        requires
            is_short(*old(self)),
        ensures
            final(self)@ == held(old(self)@.entries, room as int),
            is_short(*final(self)),
    {
        let ghost all = self@.entries;
        let ghost before = self.entries@;
        let mut left: u128 = room as u128;
        let mut n: usize = 0;
        while n < self.entries.len() && self.entries[n].0 + self.entries[n].1 + 32 <= left
            invariant
                self.entries@ == before,
                all == entry_views(before),
                is_short(*self),
                n <= before.len(),
                left <= room,
                fitting(all, 0, room as int) == n + fitting(all, n as int, left as int),
            decreases before.len() - n,
        {
            assert(all[n as int] == (before[n as int].0 as int, before[n as int].1 as int));
            left = left - (self.entries[n].0 + self.entries[n].1 + 32);
            n += 1;
        }
        if n < self.entries.len() {
            assert(all[n as int] == (before[n as int].0 as int, before[n as int].1 as int));
        }
        self.entries.truncate(n);
        self.room = room;
        assert(self@.entries =~= all.subrange(0, n as int));
    }

    /// Remembers a header field in front of the others.
    fn remember(&mut self, entry: (u128, u128))
        requires
            is_short(*old(self)),
            entry.0 <= long(),
            entry.1 <= long(),
        ensures
            final(self)@ == held(
                seq![(entry.0 as int, entry.1 as int)] + old(self)@.entries,
                old(self)@.room,
            ),
            is_short(*final(self)),
    {
        let ghost before = self@.entries;
        let ghost entries = self.entries@;
        self.entries.insert(0, entry);
        assert forall|i: int| 0 <= i < self.entries@.len() implies (#[trigger] self.entries@[i]).0
            <= long() && self.entries@[i].1 <= long() by {
            if i > 0 {
                assert(self.entries@[i] == entries[i - 1]);
            }
        }
        assert(self@.entries =~= seq![(entry.0 as int, entry.1 as int)] + before);
        let room: u64 = self.room;
        self.hold(room);
    }

    /// The length of the name of a header field that a block refers to.
    fn find_name(&self, index: u64) -> (r: Option<u128>)
        requires
            is_short(*self),
        ensures
            match r {
                Some(length) => name_length(self@, index as int) == Some(length as int) && length
                    <= long(),
                None => name_length(self@, index as int) is None,
            },
    {
        if 1 <= index && index <= 61 {
            let lengths: [u8; 61] = [
                10, 7, 7, 5, 5, 7, 7, 7, 7, 7, 7, 7, 7, 7, 14, 15, 15, 13, 6, 27, 3, 5, 13, 13, 19,
                16, 16, 14, 16, 13, 12, 6, 4, 4, 6, 7, 4, 4, 8, 17, 13, 8, 19, 13, 4, 8, 12, 18, 19,
                5, 7, 7, 11, 6, 10, 25, 17, 10, 4, 3, 16,
            ];
            assert(lengths@ =~= static_lengths());
            let at: usize = (index - 1) as usize;
            return Some(lengths[at] as u128);
        }
        if index >= 62 && index - 62 < self.entries.len() as u64 {
            let at: usize = (index - 62) as usize;
            assert(self@.entries[at as int] == (
                self.entries@[at as int].0 as int,
                self.entries@[at as int].1 as int,
            ));
            return Some(self.entries[at].0);
        }
        None
    }

    /// Reads a header field that is written out.
    fn read_field(&self, data: &[u8], at: usize, top: u8) -> (r: Option<((u128, u128), usize)>)
        requires
            is_short(*self),
            at < data@.len(),
            0 < top <= 128,
        ensures
            match r {
                Some((entry, next)) => {
                    &&& field_at(self@, data@, at as int, top as int) == Some(
                        ((entry.0 as int, entry.1 as int), next as int),
                    )
                    &&& at < next <= data@.len()
                    &&& entry.0 <= long()
                    &&& entry.1 <= long()
                },
                None => field_at(self@, data@, at as int, top as int) is None,
            },
    {
        let size: usize = data.len();
        assert(8 * size <= long());
        let (index, next) = match read_number(data, at, top) {
            Some(found) => found,
            None => {
                return None;
            },
        };
        let (name, behind) = if index == 0 {
            match read_text(data, next) {
                Some(found) => found,
                None => {
                    return None;
                },
            }
        } else {
            match self.find_name(index) {
                Some(length) => (length, next),
                None => {
                    return None;
                },
            }
        };
        match read_text(data, behind) {
            Some((value, end)) => Some(((name, value), end)),
            None => None,
        }
    }

    /// Reads one header field, and the position behind it.
    fn take_field(&mut self, data: &[u8], at: usize) -> (r: Option<usize>)
        requires
            is_short(*old(self)),
            at < data@.len(),
        ensures
            match r {
                Some(next) => after_field(old(self)@, data@, at as int) == Some(
                    (final(self)@, next as int),
                ) && at < next <= data@.len(),
                None => after_field(old(self)@, data@, at as int) is None,
            },
            is_short(*final(self)),
    {
        let b: u8 = data[at];
        if b >= 128 {
            match read_number(data, at, 128) {
                Some((index, next)) => if self.find_name(index).is_some() {
                    Some(next)
                } else {
                    None
                },
                None => None,
            }
        } else if b >= 64 {
            match self.read_field(data, at, 64) {
                Some((entry, next)) => {
                    self.remember(entry);
                    Some(next)
                },
                None => None,
            }
        } else if b >= 32 {
            match read_number(data, at, 32) {
                Some((room, next)) => {
                    self.hold(room);
                    Some(next)
                },
                None => None,
            }
        } else {
            match self.read_field(data, at, 16) {
                Some((_, next)) => Some(next),
                None => None,
            }
        }
    }

    /// A copy.
    fn copy(&self) -> (r: Table)
        requires
            is_short(*self),
        ensures
            r@ == self@,
            is_short(r),
    {
        let mut entries: Vec<(u128, u128)> = Vec::new();
        let mut i: usize = 0;
        while i < self.entries.len()
            invariant
                i <= self.entries@.len(),
                entries@ == self.entries@.subrange(0, i as int),
            decreases self.entries@.len() - i,
        {
            let entry: (u128, u128) = self.entries[i];
            entries.push(entry);
            assert(entries@ =~= self.entries@.subrange(0, i + 1));
            i += 1;
        }
        assert(entries@ =~= self.entries@);
        Table { entries, room: self.room }
    }

    /// Reads a header block. Whether it is whole and refers only to known fields: nothing is
    /// remembered of one that is not.
    pub fn take_block(&mut self, data: &[u8]) -> (r: bool)
        requires
            is_short(*old(self)),
        ensures
            r == (after_block(old(self)@, data@, 0) is Some),
            final(self)@ == (match after_block(old(self)@, data@, 0) {
                Some(more) => more,
                None => old(self)@,
            }),
            is_short(*final(self)),
    {
        let mut table = self.copy();
        let mut at: usize = 0;
        while at < data.len()
            invariant
                at <= data@.len(),
                *self == *old(self),
                is_short(*self),
                is_short(table),
                after_block(old(self)@, data@, 0) == after_block(table@, data@, at as int),
            decreases data@.len() - at,
        {
            match table.take_field(data, at) {
                Some(next) => {
                    at = next;
                },
                None => {
                    return false;
                },
            }
        }
        *self = table;
        true
    }
}

} // verus!
