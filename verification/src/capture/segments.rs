//! TCP segments by sequence number, and the stream that they make up.
use crate::capture::packet::Direction;
use vstd::prelude::*;

verus! {

/// A payload and the direction in which it travels.
#[derive(Debug, Clone, PartialEq, Eq)]
pub struct ReplayTurn {
    pub direction: Direction,
    pub payload: Vec<u8>,
}

impl View for ReplayTurn {
    type V = (Direction, Seq<u8>);

    open spec fn view(&self) -> (Direction, Seq<u8>) {
        (self.direction, self.payload@)
    }
}

/// Payloads by sequence number.
pub type SegmentList = Vec<(u32, Vec<u8>)>;

/// Payloads in the order in which they were seen, with direction and sequence number.
pub type EventList = Vec<(Direction, u32, Vec<u8>)>;

/// What a list of segments holds.
pub open spec fn segment_views(list: Seq<(u32, Vec<u8>)>) -> Seq<(u32, Seq<u8>)> {
    list.map_values(|s: (u32, Vec<u8>)| (s.0, s.1@))
}

/// What a list of events holds.
pub open spec fn event_views(list: Seq<(Direction, u32, Vec<u8>)>) -> Seq<
    (Direction, u32, Seq<u8>),
> {
    list.map_values(|e: (Direction, u32, Vec<u8>)| (e.0, e.1, e.2@))
}

/// What a list of turns holds.
pub open spec fn turn_views(list: Seq<ReplayTurn>) -> Seq<(Direction, Seq<u8>)> {
    list.map_values(|t: ReplayTurn| t@)
}

/// The sequence numbers grow strictly: the list is ordered and none occurs twice.
pub open spec fn ordered(list: Seq<(u32, Seq<u8>)>) -> bool {
    forall|i: int, j: int| 0 <= i < j < list.len() ==> list[i].0 < list[j].0
}

/// Where a sequence number stands, or would stand, in an ordered list.
pub open spec fn slot(list: Seq<(u32, Seq<u8>)>, sequence: u32) -> int
    decreases list.len(),
{
    if list.len() == 0 || list.last().0 < sequence {
        list.len() as int
    } else {
        slot(list.drop_last(), sequence)
    }
}

/// The payload that a list has under a sequence number.
pub open spec fn segment_at(list: Seq<(u32, Seq<u8>)>, sequence: u32) -> Option<Seq<u8>> {
    let at = slot(list, sequence);
    if at < list.len() && list[at].0 == sequence {
        Some(list[at].1)
    } else {
        None
    }
}

/// The list with a payload added under its sequence number, unless one is there: the payload
/// that came first stays.
pub open spec fn with_segment(
    list: Seq<(u32, Seq<u8>)>,
    sequence: u32,
    payload: Seq<u8>,
) -> Seq<(u32, Seq<u8>)> {
    if segment_at(list, sequence) is Some {
        list
    } else {
        list.insert(slot(list, sequence), (sequence, payload))
    }
}

proof fn slot_splits(list: Seq<(u32, Seq<u8>)>, sequence: u32)
    requires
        ordered(list),
    ensures
        0 <= slot(list, sequence) <= list.len(),
        forall|i: int| 0 <= i < slot(list, sequence) ==> (#[trigger] list[i]).0 < sequence,
        forall|i: int| slot(list, sequence) <= i < list.len() ==> (#[trigger] list[i]).0 >= sequence,
    decreases list.len(),
{
    if list.len() > 0 && list.last().0 >= sequence {
        let front = list.drop_last();
        assert(ordered(front));
        slot_splits(front, sequence);
        assert forall|i: int| 0 <= i < slot(list, sequence) implies (#[trigger] list[i]).0
            < sequence by {
            assert(list[i] == front[i]);
        }
        assert forall|i: int| slot(list, sequence) <= i < list.len() implies (#[trigger] list[i]).0
            >= sequence by {
            if i < front.len() {
                assert(list[i] == front[i]);
            }
        }
    }
}

/// Adding a segment keeps a list ordered.
pub proof fn with_segment_keeps_order(
    list: Seq<(u32, Seq<u8>)>,
    sequence: u32,
    payload: Seq<u8>,
)
    requires
        ordered(list),
    ensures
        ordered(with_segment(list, sequence, payload)),
{
    slot_splits(list, sequence);
}

/// After a segment is added, its sequence number has the payload that was there before, and
/// the added one only if there was none; every other sequence number is as before.
pub proof fn with_segment_keeps_the_first(
    list: Seq<(u32, Seq<u8>)>,
    sequence: u32,
    payload: Seq<u8>,
    other: u32,
)
    requires
        ordered(list),
    ensures
        segment_at(with_segment(list, sequence, payload), sequence) == (match segment_at(
            list,
            sequence,
        ) {
            Some(first) => Some(first),
            None => Some(payload),
        }),
        other != sequence ==> segment_at(with_segment(list, sequence, payload), other)
            == segment_at(list, other),
{
    let new = with_segment(list, sequence, payload);
    with_segment_keeps_order(list, sequence, payload);
    slot_splits(list, sequence);
    slot_splits(new, sequence);
    slot_splits(list, other);
    slot_splits(new, other);
    if segment_at(list, sequence) is None {
        let at = slot(list, sequence);
        assert(new[at] == (sequence, payload));
        let to = slot(new, sequence);
        if to < at {
            assert(new[to] == list[to]);
        }
        if to > at {
            assert(new[at].0 < sequence);
        }
        if other != sequence {
            let a = slot(list, other);
            let b = slot(new, other);
            if segment_at(list, other) is Some {
                let k = if a < at {
                    a
                } else {
                    a + 1
                };
                assert(new[k] == list[a]);
                assert(b == k);
            }
            if segment_at(new, other) is Some {
                assert(b != at);
                let k = if b < at {
                    b
                } else {
                    b - 1
                };
                assert(list[k] == new[b]);
                assert(a == k);
            }
        }
    }
}

/// How far the segments of a list have been put together.
pub struct Reassembly {
    /// The bytes so far.
    pub output: Seq<u8>,
    /// The sequence number that continues them.
    pub next: int,
    /// How many bytes were seen again.
    pub duplicate: int,
    /// Whether bytes are missing in between.
    pub gap: bool,
}

/// Puts one more segment to what is there. Bytes before `next` were seen before; a segment
/// that starts behind `next` leaves a gap. Sequence numbers wrap around at 2^32.
pub open spec fn put_segment(r: Reassembly, sequence: int, payload: Seq<u8>) -> Reassembly {
    let next = if sequence > r.next {
        sequence
    } else {
        r.next
    };
    let overlap = next - sequence;
    Reassembly {
        output: if overlap < payload.len() {
            r.output + payload.subrange(overlap, payload.len() as int)
        } else {
            r.output
        },
        next: if overlap < payload.len() {
            (sequence + payload.len()) % 0x1_0000_0000
        } else {
            next
        },
        duplicate: r.duplicate + if overlap < payload.len() {
            overlap
        } else {
            payload.len() as int
        },
        gap: r.gap || sequence > r.next,
    }
}

/// The first `n` segments of a list, put together in the order of their sequence numbers.
pub open spec fn reassembly_of(list: Seq<(u32, Seq<u8>)>, n: int) -> Reassembly
    decreases n,
{
    if n <= 0 {
        Reassembly {
            output: Seq::empty(),
            next: if list.len() > 0 {
                list[0].0 as int
            } else {
                0
            },
            duplicate: 0,
            gap: false,
        }
    } else {
        put_segment(reassembly_of(list, n - 1), list[n - 1].0 as int, list[n - 1].1)
    }
}

/// The segments of a list, put together.
pub open spec fn reassembled(list: Seq<(u32, Seq<u8>)>) -> Reassembly {
    reassembly_of(list, list.len() as int)
}

/// The number of payload bytes in the first `n` segments of a list.
pub open spec fn payload_total(list: Seq<(u32, Seq<u8>)>, n: int) -> int
    decreases n,
{
    if n <= 0 {
        0
    } else {
        payload_total(list, n - 1) + list[n - 1].1.len()
    }
}

/// Every payload byte comes out once or is counted as seen again.
pub proof fn reassembly_conserves_bytes(list: Seq<(u32, Seq<u8>)>, n: int)
    requires
        0 <= n <= list.len(),
    ensures
        reassembly_of(list, n).output.len() + reassembly_of(list, n).duplicate == payload_total(
            list,
            n,
        ),
        0 <= reassembly_of(list, n).duplicate,
        0 <= reassembly_of(list, n).next < 0x1_0000_0000,
    decreases n,
{
    if n > 0 {
        reassembly_conserves_bytes(list, n - 1);
    }
}

/// Where no sequence number wraps around and nothing is missing, the stream is contiguous: it
/// has one byte for every sequence number from the first to the next one expected.
pub proof fn reassembly_is_contiguous(list: Seq<(u32, Seq<u8>)>, n: int)
    requires
        0 < n <= list.len(),
        ordered(list),
        forall|i: int|
            0 <= i < list.len() ==> (#[trigger] list[i]).0 + list[i].1.len() < 0x1_0000_0000,
        !reassembly_of(list, n).gap,
    ensures
        reassembly_of(list, n).next == list[0].0 + reassembly_of(list, n).output.len(),
    decreases n,
{
    let before = reassembly_of(list, n - 1);
    let s = list[n - 1];
    if n > 1 {
        reassembly_is_contiguous(list, n - 1);
    }
    reassembly_conserves_bytes(list, n - 1);
    assert(s.0 + s.1.len() < 0x1_0000_0000);
    if n == 1 {
        reveal_with_fuel(reassembly_of, 2);
    }
}

/// A count that wraps around at 2^64.
pub open spec fn wrap64(n: int) -> int {
    n % 0x1_0000_0000_0000_0000
}

/// Adds to a count that wraps around at 2^64.
fn add_wrapping(count: u64, more: u64, Ghost(total): Ghost<int>) -> (r: u64)
    requires
        count == wrap64(total),
    ensures
        r == wrap64(total + more),
{
    count.wrapping_add(more)
}

/// The sequence number that follows a payload.
fn following(sequence: u32, length: u64) -> (r: u32)
    ensures
        r == (sequence + length) % 0x1_0000_0000,
{
    ((sequence as u64 + length % 0x1_0000_0000) % 0x1_0000_0000) as u32
}

/// Puts the segments of an ordered list together: the stream, how many bytes were seen again,
/// and whether any are missing.
pub fn reassemble(segments: &SegmentList) -> (r: (Vec<u8>, u64, bool))
    ensures
        r.0@ == reassembled(segment_views(segments@)).output,
        r.1 == wrap64(reassembled(segment_views(segments@)).duplicate),
        r.2 == reassembled(segment_views(segments@)).gap,
{
    let ghost list = segment_views(segments@);
    let mut output: Vec<u8> = Vec::new();
    if segments.len() == 0 {
        return (output, 0, false);
    }
    let mut next: u32 = segments[0].0;
    let mut duplicate: u64 = 0;
    let mut gap: bool = false;
    let mut i: usize = 0;
    while i < segments.len()
        invariant
            list == segment_views(segments@),
            i <= segments@.len(),
            output@ == reassembly_of(list, i as int).output,
            next == reassembly_of(list, i as int).next,
            duplicate == wrap64(reassembly_of(list, i as int).duplicate),
            gap == reassembly_of(list, i as int).gap,
        decreases segments@.len() - i,
    {
        let sequence: u32 = segments[i].0;
        let payload: &Vec<u8> = &segments[i].1;
        assert(list[i as int] == (sequence, payload@));
        if sequence > next {
            gap = true;
            next = sequence;
        }
        let overlap: u64 = (next - sequence) as u64;
        let length: u64 = payload.len() as u64;
        let ghost seen = reassembly_of(list, i as int).duplicate;
        if overlap < length {
            duplicate = add_wrapping(duplicate, overlap, Ghost(seen));
            let ghost before = output@;
            output.extend_from_slice(&payload[overlap as usize..payload.len()]);
            assert(output@ =~= before + payload@.subrange(overlap as int, payload@.len() as int));
            next = following(sequence, length);
        } else {
            duplicate = add_wrapping(duplicate, length, Ghost(seen));
        }
        i += 1;
    }
    (output, duplicate, gap)
}

/// Where a sequence number stands, or would stand, in a list.
fn find_slot(list: &SegmentList, sequence: u32) -> (r: usize)
    ensures
        r == slot(segment_views(list@), sequence),
        r <= list@.len(),
{
    let ghost views = segment_views(list@);
    let mut end: usize = list.len();
    assert(views.take(end as int) =~= views);
    while end > 0 && list[end - 1].0 >= sequence
        invariant
            views == segment_views(list@),
            end <= list@.len(),
            slot(views, sequence) == slot(views.take(end as int), sequence),
        decreases end,
    {
        assert(views.take(end as int).drop_last() =~= views.take(end - 1));
        end -= 1;
    }
    end
}

/// Adds a payload under its sequence number, unless one is there. Gives the length of the one
/// that is there.
pub fn add_segment(list: &mut SegmentList, sequence: u32, payload: &[u8]) -> (r: Option<usize>)
    ensures
        segment_views(final(list)@) == with_segment(
            segment_views(old(list)@),
            sequence,
            payload@,
        ),
        match segment_at(segment_views(old(list)@), sequence) {
            Some(first) => r == Some(first.len() as usize) && first.len() <= usize::MAX,
            None => r is None,
        },
{
    let ghost views = segment_views(list@);
    let at: usize = find_slot(list, sequence);
    if at < list.len() && list[at].0 == sequence {
        return Some(list[at].1.len());
    }
    list.insert(at, (sequence, vstd::slice::slice_to_vec(payload)));
    assert(segment_views(list@) =~= views.insert(at as int, (sequence, payload@)));
    None
}

/// The payloads of a run of events in one direction, by sequence number.
pub struct TurnGroup {
    pub direction: Direction,
    pub segments: Seq<(u32, Seq<u8>)>,
}

/// The groups with one more event. An event without payload changes nothing; one in the
/// direction of the last group joins it, and any other starts a group.
pub open spec fn group_event(
    groups: Seq<TurnGroup>,
    direction: Direction,
    sequence: u32,
    payload: Seq<u8>,
) -> Seq<TurnGroup> {
    if payload.len() == 0 {
        groups
    } else if groups.len() > 0 && groups.last().direction == direction {
        groups.drop_last().push(
            TurnGroup {
                direction,
                segments: with_segment(groups.last().segments, sequence, payload),
            },
        )
    } else {
        groups.push(
            TurnGroup { direction, segments: with_segment(Seq::empty(), sequence, payload) },
        )
    }
}

/// The events of a flow, grouped into runs in one direction.
pub open spec fn turn_groups(events: Seq<(Direction, u32, Seq<u8>)>) -> Seq<TurnGroup>
    decreases events.len(),
{
    if events.len() == 0 {
        Seq::empty()
    } else {
        let e = events.last();
        group_event(turn_groups(events.drop_last()), e.0, e.1, e.2)
    }
}

/// The turns of the first `n` groups: the stream of each group that has one without gaps.
pub open spec fn turns_of_groups(groups: Seq<TurnGroup>, n: int) -> Seq<(Direction, Seq<u8>)>
    decreases n,
{
    if n <= 0 {
        Seq::empty()
    } else {
        let before = turns_of_groups(groups, n - 1);
        let r = reassembled(groups[n - 1].segments);
        if r.output.len() > 0 && !r.gap {
            before.push((groups[n - 1].direction, r.output))
        } else {
            before
        }
    }
}

/// The turns of a flow.
pub open spec fn turns_of(events: Seq<(Direction, u32, Seq<u8>)>) -> Seq<(Direction, Seq<u8>)> {
    let groups = turn_groups(events);
    turns_of_groups(groups, groups.len() as int)
}

/// Neighbouring groups go in opposite directions, and each is ordered by sequence number.
pub open spec fn alternating(groups: Seq<TurnGroup>) -> bool {
    &&& forall|i: int, j: int|
        0 <= i && j == i + 1 && j < groups.len() ==> (#[trigger] groups[i]).direction != (
        #[trigger] groups[j]).direction
    &&& forall|i: int| 0 <= i < groups.len() ==> ordered((#[trigger] groups[i]).segments)
}

proof fn group_event_keeps_alternation(
    groups: Seq<TurnGroup>,
    direction: Direction,
    sequence: u32,
    payload: Seq<u8>,
)
    requires
        alternating(groups),
    ensures
        alternating(group_event(groups, direction, sequence, payload)),
{
    if payload.len() > 0 {
        let after = group_event(groups, direction, sequence, payload);
        with_segment_keeps_order(Seq::empty(), sequence, payload);
        if groups.len() > 0 {
            with_segment_keeps_order(groups.last().segments, sequence, payload);
        }
        let kept = if groups.len() > 0 && groups.last().direction == direction {
            groups.len() - 1
        } else {
            groups.len() as int
        };
        assert(forall|i: int| 0 <= i < kept ==> after[i] == groups[i]);
        assert(after.len() == kept + 1);
        assert(after[kept].direction == direction);
        if kept > 0 {
            assert(groups[kept - 1].direction != direction);
        }
    }
}

/// The groups of a flow alternate: neighbouring turns of a conversation go in opposite
/// directions, and within each the payloads are in the order of their sequence numbers.
pub proof fn turn_groups_alternate(events: Seq<(Direction, u32, Seq<u8>)>)
    ensures
        alternating(turn_groups(events)),
    decreases events.len(),
{
    if events.len() > 0 {
        let e = events.last();
        turn_groups_alternate(events.drop_last());
        group_event_keeps_alternation(turn_groups(events.drop_last()), e.0, e.1, e.2);
    }
}

/// What a list of groups holds.
pub open spec fn group_views(groups: Seq<(Direction, SegmentList)>) -> Seq<TurnGroup> {
    groups.map_values(
        |g: (Direction, SegmentList)| TurnGroup { direction: g.0, segments: segment_views(g.1@) },
    )
}

/// The turns of a flow, from its events in the order in which they were seen.
pub fn build_turns(events: &EventList) -> (r: Vec<ReplayTurn>)
    ensures
        turn_views(r@) == turns_of(event_views(events@)),
{
    let ghost list = event_views(events@);
    let mut groups: Vec<(Direction, SegmentList)> = Vec::new();
    let mut i: usize = 0;
    assert(list.take(0) =~= Seq::empty());
    assert(group_views(groups@) =~= Seq::empty());
    while i < events.len()
        invariant
            list == event_views(events@),
            i <= events@.len(),
            group_views(groups@) == turn_groups(list.take(i as int)),
        decreases events@.len() - i,
    {
        let direction: Direction = events[i].0;
        let sequence: u32 = events[i].1;
        let payload: &Vec<u8> = &events[i].2;
        let ghost before = groups@;
        proof {
            let next = list.take(i + 1);
            assert(next.drop_last() =~= list.take(i as int));
            assert(next.last() == (direction, sequence, payload@));
        }
        if payload.len() > 0 {
            let joins: bool = groups.len() > 0 && groups[groups.len() - 1].0 == direction;
            let mut segments: SegmentList = Vec::new();
            if joins {
                if let Some(last) = groups.pop() {
                    segments = last.1;
                }
            }
            let ghost kept = segment_views(segments@);
            assert(!joins ==> kept =~= Seq::empty());
            let _ = add_segment(&mut segments, sequence, payload.as_slice());
            groups.push((direction, segments));
            proof {
                if joins {
                    assert(group_views(before).last().segments == kept);
                    assert(group_views(groups@) =~= group_views(before).drop_last().push(
                        TurnGroup { direction, segments: with_segment(kept, sequence, payload@) },
                    ));
                } else {
                    assert(before.len() > 0 ==> group_views(before).last().direction
                        == before.last().0);
                    assert(group_views(groups@) =~= group_views(before).push(
                        TurnGroup { direction, segments: with_segment(kept, sequence, payload@) },
                    ));
                }
            }
        }
        i += 1;
    }
    assert(list.take(i as int) =~= list);
    let mut turns: Vec<ReplayTurn> = Vec::new();
    let mut k: usize = 0;
    assert(turn_views(turns@) =~= Seq::empty());
    while k < groups.len()
        invariant
            group_views(groups@) == turn_groups(list),
            groups@.len() == turn_groups(list).len(),
            k <= groups@.len(),
            turn_views(turns@) == turns_of_groups(turn_groups(list), k as int),
        decreases groups@.len() - k,
    {
        let ghost before = turns@;
        assert(group_views(groups@)[k as int] == turn_groups(list)[k as int]);
        let (payload, _, gap) = reassemble(&groups[k].1);
        if payload.len() > 0 && !gap {
            let direction: Direction = groups[k].0;
            turns.push(ReplayTurn { direction, payload });
            assert(turn_views(turns@) =~= turn_views(before).push((direction, payload@)));
        }
        k += 1;
    }
    turns
}

} // verus!
