//! Captured segments make up the stream that they were cut from.
use crate::capture::flows::{flows_apart, with_packet, FlowRecordView};
use crate::capture::packet::{Direction, PacketView};
use crate::capture::segments::{
    ordered, payload_total, reassembled, reassembly_conserves_bytes, reassembly_of, segment_at,
    turn_groups, turns_of, turns_of_groups, with_segment, TurnGroup,
};
use vstd::prelude::*;

verus! {

/// A segment is a piece of a stream whose first byte has the sequence number `first`.
pub open spec fn is_piece(stream: Seq<u8>, first: int, segment: (u32, Seq<u8>)) -> bool {
    &&& first <= segment.0
    &&& segment.0 + segment.1.len() <= first + stream.len() < 0x1_0000_0000
    &&& segment.1 == stream.subrange(segment.0 - first, segment.0 - first + segment.1.len())
}

/// One of the segments has byte `b` of a stream whose first byte has the sequence number `first`.
pub open spec fn has_byte(list: Seq<(u32, Seq<u8>)>, first: int, b: int) -> bool {
    exists|i: int|
        0 <= i < list.len() && (#[trigger] list[i]).0 <= first + b < list[i].0 + list[i].1.len()
}

/// Every byte of a stream is in one of the segments.
pub open spec fn is_covered(stream: Seq<u8>, first: int, list: Seq<(u32, Seq<u8>)>) -> bool {
    forall|b: int| 0 <= b < stream.len() ==> #[trigger] has_byte(list, first, b)
}

proof fn stream_so_far(stream: Seq<u8>, first: int, list: Seq<(u32, Seq<u8>)>, n: int)
    requires
        0 <= n <= list.len(),
        list.len() > 0,
        ordered(list),
        list[0].0 == first,
        forall|i: int| 0 <= i < list.len() ==> is_piece(stream, first, #[trigger] list[i]),
    ensures
        ({
            let r = reassembly_of(list, n);
            &&& !r.gap ==> {
                &&& first <= r.next <= first + stream.len()
                &&& r.output == stream.subrange(0, r.next - first)
                &&& forall|i: int|
                    0 <= i < n ==> (#[trigger] list[i]).0 + list[i].1.len() <= r.next
            }
            &&& r.gap ==> !is_covered(stream, first, list)
        }),
    decreases n,
{
    if n == 0 {
        assert(stream.subrange(0, 0) =~= Seq::empty());
    } else {
        stream_so_far(stream, first, list, n - 1);
        let before = reassembly_of(list, n - 1);
        let s = list[n - 1];
        assert(is_piece(stream, first, s));
        if !before.gap {
            if s.0 > before.next {
                let b = before.next - first;
                assert(0 <= b < stream.len());
                if is_covered(stream, first, list) {
                    assert(has_byte(list, first, b));
                    let i = choose|i: int|
                        0 <= i < list.len() && (#[trigger] list[i]).0 <= first + b < list[i].0
                            + list[i].1.len();
                    if i >= n - 1 {
                        assert(list[n - 1].0 <= list[i].0);
                    }
                    assert(false);
                }
            } else {
                let overlap = before.next - s.0;
                if overlap < s.1.len() {
                    assert(stream.subrange(0, before.next - first) + s.1.subrange(
                        overlap,
                        s.1.len() as int,
                    ) =~= stream.subrange(0, s.0 + s.1.len() - first));
                }
            }
        }
    }
}

/// Segments that were cut from a stream, in whatever way, sent again or overlapping, give the stream
/// back if each of its bytes is among them: nothing is missing, and the bytes that came more than
/// once are counted.
pub proof fn streams_are_put_together(stream: Seq<u8>, first: int, list: Seq<(u32, Seq<u8>)>)
    requires
        list.len() > 0,
        ordered(list),
        list[0].0 == first,
        forall|i: int| 0 <= i < list.len() ==> is_piece(stream, first, #[trigger] list[i]),
        is_covered(stream, first, list),
    ensures
        reassembled(list).output == stream,
        !reassembled(list).gap,
        reassembled(list).duplicate == payload_total(list, list.len() as int) - stream.len(),
{
    let n = list.len() as int;
    stream_so_far(stream, first, list, n);
    reassembly_conserves_bytes(list, n);
    let r = reassembled(list);
    if r.next - first < stream.len() {
        let b = r.next - first;
        assert(has_byte(list, first, b));
        let i = choose|i: int|
            0 <= i < list.len() && (#[trigger] list[i]).0 <= first + b < list[i].0
                + list[i].1.len();
        assert(list[i].0 + list[i].1.len() <= r.next);
        assert(false);
    }
    assert(stream.subrange(0, stream.len() as int) =~= stream);
}

/// A stream of which bytes are missing between others is not taken for whole: whatever comes out
/// without a gap is the start of the stream.
pub proof fn gaps_are_noticed(stream: Seq<u8>, first: int, list: Seq<(u32, Seq<u8>)>)
    requires
        list.len() > 0,
        ordered(list),
        list[0].0 == first,
        forall|i: int| 0 <= i < list.len() ==> is_piece(stream, first, #[trigger] list[i]),
        !reassembled(list).gap,
    ensures
        reassembled(list).output.len() <= stream.len(),
        reassembled(list).output == stream.subrange(0, reassembled(list).output.len() as int),
        forall|i: int|
            0 <= i < list.len() ==> (#[trigger] list[i]).0 + list[i].1.len() <= first
                + reassembled(list).output.len(),
{
    stream_so_far(stream, first, list, list.len() as int);
}

/// The ends of a packet: who sends it, and to whom.
pub open spec fn ends(packet: PacketView) -> ((Seq<u8>, int), (Seq<u8>, int)) {
    (
        (packet.source, packet.tcp.source_port),
        (packet.destination, packet.tcp.destination_port),
    )
}

proof fn flow_is_found(
    flows: Seq<FlowRecordView>,
    key: ((Seq<u8>, int), (Seq<u8>, int)),
    from: int,
    i: int,
)
    requires
        0 <= from <= i < flows.len(),
        flows[i].key == key,
        forall|j: int| from <= j < i ==> (#[trigger] flows[j]).key != key,
    ensures
        crate::capture::flows::find_flow(flows, key, from) == Some(i),
    decreases i - from,
{
    if from < i {
        assert(flows[from].key != key);
        flow_is_found(flows, key, from + 1, i);
    }
}

proof fn flow_is_not_found(
    flows: Seq<FlowRecordView>,
    key: ((Seq<u8>, int), (Seq<u8>, int)),
    from: int,
)
    requires
        0 <= from,
        forall|j: int| from <= j < flows.len() ==> (#[trigger] flows[j]).key != key,
    ensures
        crate::capture::flows::find_flow(flows, key, from) is None,
    decreases flows.len() - from,
{
    if from < flows.len() {
        assert(flows[from].key != key);
        flow_is_not_found(flows, key, from + 1);
    }
}

/// A packet between the ends of a flow goes to that flow and to no other: in the direction of the
/// packet that began the flow to the stream of the client, the other way to that of the server. A
/// packet between ends that have no flow begins one, as its client.
pub proof fn packets_go_to_their_flow(flows: Seq<FlowRecordView>, packet: PacketView, i: int)
    requires
        flows_apart(flows),
        packet.tcp.payload.len() > 0,
        packet.source != packet.destination || packet.tcp.source_port
            != packet.tcp.destination_port,
        0 <= i < flows.len(),
    ensures
        ({
            let after = with_packet(flows, packet);
            let there = ends(packet);
            let back = (there.1, there.0);
            let sequence = packet.tcp.sequence as u32;
            let payload = packet.tcp.payload;
            &&& after[i].key == flows[i].key
            &&& flows[i].key == there ==> {
                &&& after.len() == flows.len()
                &&& after[i].segments.client == with_segment(
                    flows[i].segments.client,
                    sequence,
                    payload,
                )
                &&& after[i].segments.server == flows[i].segments.server
                &&& after[i].segments.events == flows[i].segments.events.push(
                    (Direction::ClientToServer, sequence, payload),
                )
            }
            &&& flows[i].key == back ==> {
                &&& after.len() == flows.len()
                &&& after[i].segments.server == with_segment(
                    flows[i].segments.server,
                    sequence,
                    payload,
                )
                &&& after[i].segments.client == flows[i].segments.client
                &&& after[i].segments.events == flows[i].segments.events.push(
                    (Direction::ServerToClient, sequence, payload),
                )
            }
            &&& flows[i].key != there && flows[i].key != back ==> after[i] == flows[i]
        }),
{
    let there = ends(packet);
    let back = (there.1, there.0);
    assert(there != back);
    if flows[i].key == there {
        assert forall|j: int| 0 <= j < i implies (#[trigger] flows[j]).key != there by {}
        flow_is_found(flows, there, 0, i);
    } else if flows[i].key == back {
        assert forall|j: int| 0 <= j < flows.len() implies (#[trigger] flows[j]).key != there by {
            if j < i {
                assert(flows[j].key != (flows[i].key.1, flows[i].key.0));
            }
            if j > i {
                assert(flows[i].key != (flows[j].key.1, flows[j].key.0));
            }
        }
        flow_is_not_found(flows, there, 0);
        assert forall|j: int| 0 <= j < i implies (#[trigger] flows[j]).key != back by {}
        flow_is_found(flows, back, 0, i);
    } else {
        crate::capture::flows::flows_are_found(flows, there);
        crate::capture::flows::flows_are_found(flows, back);
    }
}

/// The first packet between two ends begins a flow, whose client sent it.
pub proof fn first_packets_begin_flows(flows: Seq<FlowRecordView>, packet: PacketView)
    requires
        packet.tcp.payload.len() > 0,
        forall|i: int|
            0 <= i < flows.len() ==> (#[trigger] flows[i]).key != ends(packet) && flows[i].key != (
            ends(packet).1,
            ends(packet).0,
            ),
    ensures
        ({
            let after = with_packet(flows, packet);
            let new = after.last();
            let segment = (packet.tcp.sequence as u32, packet.tcp.payload);
            &&& after.len() == flows.len() + 1
            &&& forall|i: int| 0 <= i < flows.len() ==> #[trigger] after[i] == flows[i]
            &&& new.key == ends(packet)
            &&& new.segments.client == seq![segment]
            &&& new.segments.server.len() == 0
            &&& new.segments.events == seq![(Direction::ClientToServer, segment.0, segment.1)]
            &&& new.segments.duplicate_bytes == 0
        }),
{
    let there = ends(packet);
    flow_is_not_found(flows, there, 0);
    flow_is_not_found(flows, (there.1, there.0), 0);
    let segment = (packet.tcp.sequence as u32, packet.tcp.payload);
    let after = with_packet(flows, packet);
    let none = Seq::<(u32, Seq<u8>)>::empty();
    assert(with_segment(none, segment.0, segment.1) =~= seq![segment]);
    assert(after.last().segments.events =~= seq![
        (Direction::ClientToServer, segment.0, segment.1),
    ]);
}

/// A payload that is sent again is seen as such: it counts as repeated with all its bytes, and the
/// streams stay as they were.
pub proof fn repeated_payloads_are_counted(
    flows: Seq<FlowRecordView>,
    packet: PacketView,
    i: int,
)
    requires
        flows_apart(flows),
        packet.tcp.payload.len() > 0,
        0 <= i < flows.len(),
        flows[i].key == ends(packet),
        segment_at(flows[i].segments.client, packet.tcp.sequence as u32) == Some(
            packet.tcp.payload,
        ),
    ensures
        with_packet(flows, packet)[i].segments.client == flows[i].segments.client,
        with_packet(flows, packet)[i].segments.server == flows[i].segments.server,
        with_packet(flows, packet)[i].segments.duplicate_bytes == (
        flows[i].segments.duplicate_bytes + packet.tcp.payload.len()) % 0x1_0000_0000_0000_0000,
{
    let there = ends(packet);
    assert forall|j: int| 0 <= j < i implies (#[trigger] flows[j]).key != there by {}
    flow_is_found(flows, there, 0, i);
}

proof fn alternating_groups(events: Seq<(Direction, u32, Seq<u8>)>)
    requires
        forall|i: int| 0 <= i < events.len() ==> (#[trigger] events[i]).2.len() > 0,
        forall|i: int, j: int|
            0 <= i && j == i + 1 && j < events.len() ==> (#[trigger] events[i]).0 != (
            #[trigger] events[j]).0,
    ensures
        turn_groups(events).len() == events.len(),
        forall|i: int|
            0 <= i < events.len() ==> (#[trigger] turn_groups(events)[i]).direction == events[i].0
                && turn_groups(events)[i].segments == seq![(events[i].1, events[i].2)],
    decreases events.len(),
{
    if events.len() > 0 {
        let front = events.drop_last();
        let e = events.last();
        assert forall|i: int| 0 <= i < front.len() implies (#[trigger] front[i]).2.len() > 0 by {
            assert(front[i] == events[i]);
        }
        assert forall|i: int, j: int|
            0 <= i && j == i + 1 && j < front.len() implies (#[trigger] front[i]).0 != (
        #[trigger] front[j]).0 by {
            assert(front[i] == events[i] && front[j] == events[j]);
        }
        alternating_groups(front);
        let groups = turn_groups(front);
        if front.len() > 0 {
            assert(groups[front.len() - 1].direction == front[front.len() - 1].0);
            assert(events[front.len() - 1].0 != events[front.len() as int].0);
        }
        let none = Seq::<(u32, Seq<u8>)>::empty();
        assert(with_segment(none, e.1, e.2) =~= seq![(e.1, e.2)]);
        let after = turn_groups(events);
        assert forall|i: int| 0 <= i < events.len() implies (#[trigger] after[i]).direction
            == events[i].0 && after[i].segments == seq![(events[i].1, events[i].2)] by {
            if i < front.len() {
                assert(after[i] == groups[i]);
                assert(front[i] == events[i]);
            }
        }
    }
}

proof fn single_segments(segment: (u32, Seq<u8>))
    ensures
        reassembled(seq![segment]).output == segment.1,
        !reassembled(seq![segment]).gap,
{
    let list = seq![segment];
    reveal_with_fuel(reassembly_of, 2);
    assert(segment.1.subrange(0, segment.1.len() as int) =~= segment.1);
    assert(Seq::<u8>::empty() + segment.1 =~= segment.1);
}

proof fn turns_of_single_groups(
    events: Seq<(Direction, u32, Seq<u8>)>,
    groups: Seq<TurnGroup>,
    n: int,
)
    requires
        0 <= n <= events.len(),
        groups.len() == events.len(),
        forall|i: int| 0 <= i < events.len() ==> (#[trigger] events[i]).2.len() > 0,
        forall|i: int|
            0 <= i < events.len() ==> (#[trigger] groups[i]).direction == events[i].0
                && groups[i].segments == seq![(events[i].1, events[i].2)],
    ensures
        turns_of_groups(groups, n).len() == n,
        forall|i: int|
            0 <= i < n ==> #[trigger] turns_of_groups(groups, n)[i] == (events[i].0, events[i].2),
    decreases n,
{
    if n > 0 {
        turns_of_single_groups(events, groups, n - 1);
        assert(groups[n - 1].direction == events[n - 1].0);
        assert(events[n - 1].2.len() > 0);
        single_segments((events[n - 1].1, events[n - 1].2));
    }
}

/// A conversation in which the sides take turns is replayed as it was: each payload is a turn, in its
/// direction and in its place.
pub proof fn conversations_keep_their_turns(events: Seq<(Direction, u32, Seq<u8>)>)
    requires
        forall|i: int| 0 <= i < events.len() ==> (#[trigger] events[i]).2.len() > 0,
        forall|i: int, j: int|
            0 <= i && j == i + 1 && j < events.len() ==> (#[trigger] events[i]).0 != (
            #[trigger] events[j]).0,
    ensures
        turns_of(events).len() == events.len(),
        forall|i: int|
            0 <= i < events.len() ==> #[trigger] turns_of(events)[i] == (events[i].0, events[i].2),
{
    alternating_groups(events);
    turns_of_single_groups(events, turn_groups(events), events.len() as int);
}

/// A payload that goes on where the last one of its direction ended, before the other side has said
/// anything, belongs to the same turn.
pub proof fn split_payloads_are_one_turn(
    direction: Direction,
    sequence: u32,
    first: Seq<u8>,
    second: Seq<u8>,
)
    requires
        first.len() > 0,
        second.len() > 0,
        sequence + first.len() + second.len() < 0x1_0000_0000,
    ensures
        turns_of(
            seq![
                (direction, sequence, first),
                (direction, (sequence + first.len()) as u32, second),
            ],
        ) == seq![(direction, first + second)],
{
    let next = (sequence + first.len()) as u32;
    let a = (direction, sequence, first);
    let b = (direction, next, second);
    let events = seq![a, b];
    reveal_with_fuel(turn_groups, 3);
    assert(events.drop_last() =~= seq![a]);
    assert(seq![a].drop_last() =~= Seq::empty());
    let none = Seq::<(u32, Seq<u8>)>::empty();
    assert(with_segment(none, sequence, first) =~= seq![(sequence, first)]);
    let one = seq![TurnGroup { direction, segments: seq![(sequence, first)] }];
    assert(turn_groups(seq![a]) =~= one);
    let list = with_segment(seq![(sequence, first)], next, second);
    assert(list =~= seq![(sequence, first), (next, second)]);
    let groups = turn_groups(events);
    assert(groups =~= seq![TurnGroup { direction, segments: list }]);
    reveal_with_fuel(turns_of_groups, 2);
    let whole = first + second;
    assert(first =~= whole.subrange(0, first.len() as int));
    assert(second =~= whole.subrange(first.len() as int, whole.len() as int));
    assert(is_covered(whole, sequence as int, list)) by {
        assert forall|i: int| 0 <= i < whole.len() implies #[trigger] has_byte(
            list,
            sequence as int,
            i,
        ) by {
            if i < first.len() {
                assert(list[0].0 <= sequence + i < list[0].0 + list[0].1.len());
            } else {
                assert(list[1].0 <= sequence + i < list[1].0 + list[1].1.len());
            }
        }
    }
    streams_are_put_together(whole, sequence as int, list);
    assert(turns_of(events) =~= seq![(direction, whole)]);
}

} // verus!
