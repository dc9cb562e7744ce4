//! TCP flows as their packets come in.
use crate::capture::packet::{
    frame_of, parse_frame, same_key, Direction, Endpoint, Exclusions, FlowKey, PacketView,
};
use crate::capture::segments::{
    add_segment, event_views, ordered, segment_at, segment_views, with_segment, wrap64, EventList,
    SegmentList,
};
use vstd::prelude::*;

verus! {

/// The payloads of a flow: by direction and sequence number, and in the order in which they
/// were seen.
#[derive(Debug, Clone, PartialEq, Eq)]
pub struct Segments {
    pub client: SegmentList,
    pub server: SegmentList,
    pub duplicate_bytes: u64,
    pub events: EventList,
}

/// What a flow's payloads are.
pub struct SegmentsView {
    pub client: Seq<(u32, Seq<u8>)>,
    pub server: Seq<(u32, Seq<u8>)>,
    pub duplicate_bytes: int,
    pub events: Seq<(Direction, u32, Seq<u8>)>,
}

impl View for Segments {
    type V = SegmentsView;

    open spec fn view(&self) -> SegmentsView {
        SegmentsView {
            client: segment_views(self.client@),
            server: segment_views(self.server@),
            duplicate_bytes: self.duplicate_bytes as int,
            events: event_views(self.events@),
        }
    }
}

/// No payloads.
pub open spec fn no_segments() -> SegmentsView {
    SegmentsView {
        client: Seq::empty(),
        server: Seq::empty(),
        duplicate_bytes: 0,
        events: Seq::empty(),
    }
}

impl Default for Segments {
    fn default() -> (r: Segments)
        ensures
            r@ == no_segments(),
    {
        let r = Segments {
            client: Vec::new(),
            server: Vec::new(),
            duplicate_bytes: 0,
            events: Vec::new(),
        };
        assert(r@.client =~= Seq::empty());
        assert(r@.server =~= Seq::empty());
        assert(r@.events =~= Seq::empty());
        r
    }
}

/// A flow and its payloads.
#[derive(Debug, Clone, PartialEq, Eq)]
pub struct FlowRecord {
    pub key: FlowKey,
    pub segments: Segments,
}

/// The address and port of one end.
pub type EndView = (Seq<u8>, int);

/// What a flow and its payloads are.
pub struct FlowRecordView {
    pub key: (EndView, EndView),
    pub segments: SegmentsView,
}

impl View for FlowRecord {
    type V = FlowRecordView;

    open spec fn view(&self) -> FlowRecordView {
        FlowRecordView { key: self.key@, segments: self.segments@ }
    }
}

/// What a list of flows holds.
pub open spec fn record_views(flows: Seq<FlowRecord>) -> Seq<FlowRecordView> {
    flows.map_values(|f: FlowRecord| f@)
}

/// The first flow at or after `from` that has a key.
pub open spec fn find_flow(
    flows: Seq<FlowRecordView>,
    key: (EndView, EndView),
    from: int,
) -> Option<int>
    decreases flows.len() - from,
{
    if from >= flows.len() {
        None
    } else if flows[from].key == key {
        Some(from)
    } else {
        find_flow(flows, key, from + 1)
    }
}

/// The payloads with one more. A sequence number that comes again keeps its first payload; the
/// bytes that both have count as seen again.
pub open spec fn with_payload(
    s: SegmentsView,
    direction: Direction,
    sequence: u32,
    payload: Seq<u8>,
) -> SegmentsView {
    let list = if direction == Direction::ClientToServer {
        s.client
    } else {
        s.server
    };
    let again = match segment_at(list, sequence) {
        Some(first) => if first.len() < payload.len() {
            first.len() as int
        } else {
            payload.len() as int
        },
        None => 0,
    };
    SegmentsView {
        client: if direction == Direction::ClientToServer {
            with_segment(s.client, sequence, payload)
        } else {
            s.client
        },
        server: if direction == Direction::ServerToClient {
            with_segment(s.server, sequence, payload)
        } else {
            s.server
        },
        duplicate_bytes: wrap64(s.duplicate_bytes + again),
        events: s.events.push((direction, sequence, payload)),
    }
}

/// The flow that a packet belongs to, and the direction in which it goes there. A packet from
/// neither end of a known flow belongs to a new one, whose client sent it.
pub open spec fn flow_of_packet(flows: Seq<FlowRecordView>, packet: PacketView) -> (
    int,
    Direction,
) {
    let source = (packet.source, packet.tcp.source_port);
    let destination = (packet.destination, packet.tcp.destination_port);
    match find_flow(flows, (source, destination), 0) {
        Some(i) => (i, Direction::ClientToServer),
        None => match find_flow(flows, (destination, source), 0) {
            Some(i) => (i, Direction::ServerToClient),
            None => (flows.len() as int, Direction::ClientToServer),
        },
    }
}

/// The flows with one more packet.
pub open spec fn with_packet(flows: Seq<FlowRecordView>, packet: PacketView) -> Seq<
    FlowRecordView,
> {
    let (i, direction) = flow_of_packet(flows, packet);
    let known = if i < flows.len() {
        flows
    } else {
        flows.push(
            FlowRecordView {
                key: (
                    (packet.source, packet.tcp.source_port),
                    (packet.destination, packet.tcp.destination_port),
                ),
                segments: no_segments(),
            },
        )
    };
    if packet.tcp.payload.len() == 0 {
        known
    } else {
        known.update(
            i,
            FlowRecordView {
                key: known[i].key,
                segments: with_payload(
                    known[i].segments,
                    direction,
                    packet.tcp.sequence as u32,
                    packet.tcp.payload,
                ),
            },
        )
    }
}

/// The flows with one more Ethernet frame.
pub open spec fn with_frame(flows: Seq<FlowRecordView>, frame: Seq<u8>) -> Seq<FlowRecordView> {
    match frame_of(frame) {
        Ok(packet) => with_packet(flows, packet),
        Err(_) => flows,
    }
}

/// The counts with one more Ethernet frame.
pub open spec fn count_frame(excluded: Exclusions, frame: Seq<u8>) -> Exclusions {
    match frame_of(frame) {
        Ok(_) => excluded,
        Err(reason) => excluded.with_packet(reason),
    }
}

/// No two flows are between the same two ends, in whichever direction, and the payloads of each
/// flow are ordered by sequence number.
pub open spec fn flows_apart(flows: Seq<FlowRecordView>) -> bool {
    &&& forall|i: int, j: int|
        0 <= i < j < flows.len() ==> (#[trigger] flows[i]).key != (#[trigger] flows[j]).key
            && flows[i].key != (flows[j].key.1, flows[j].key.0)
    &&& forall|i: int|
        0 <= i < flows.len() ==> ordered((#[trigger] flows[i]).segments.client) && ordered(
            flows[i].segments.server,
        )
}

proof fn find_flow_finds(flows: Seq<FlowRecordView>, key: (EndView, EndView), from: int)
    requires
        0 <= from,
    ensures
        match find_flow(flows, key, from) {
            Some(i) => from <= i < flows.len() && flows[i].key == key,
            None => forall|i: int| from <= i < flows.len() ==> (#[trigger] flows[i]).key != key,
        },
    decreases flows.len() - from,
{
    if from < flows.len() && flows[from].key != key {
        find_flow_finds(flows, key, from + 1);
    }
}

/// A flow is found by its key, and only where it is there.
pub proof fn flows_are_found(flows: Seq<FlowRecordView>, key: (EndView, EndView))
    ensures
        match find_flow(flows, key, 0) {
            Some(i) => 0 <= i < flows.len() && flows[i].key == key,
            None => forall|i: int| 0 <= i < flows.len() ==> (#[trigger] flows[i]).key != key,
        },
{
    find_flow_finds(flows, key, 0);
}

/// A packet leaves the flows apart: both directions of a connection are one flow.
pub proof fn frames_keep_flows_apart(flows: Seq<FlowRecordView>, frame: Seq<u8>)
    requires
        flows_apart(flows),
    ensures
        flows_apart(with_frame(flows, frame)),
{
    if let Ok(packet) = frame_of(frame) {
        let source = (packet.source, packet.tcp.source_port);
        let destination = (packet.destination, packet.tcp.destination_port);
        find_flow_finds(flows, (source, destination), 0);
        find_flow_finds(flows, (destination, source), 0);
        let (i, direction) = flow_of_packet(flows, packet);
        let after = with_frame(flows, frame);
        let before = if i < flows.len() {
            flows[i].segments
        } else {
            no_segments()
        };
        let sequence = packet.tcp.sequence as u32;
        crate::capture::segments::with_segment_keeps_order(
            before.client,
            sequence,
            packet.tcp.payload,
        );
        crate::capture::segments::with_segment_keeps_order(
            before.server,
            sequence,
            packet.tcp.payload,
        );
        assert forall|k: int| 0 <= k < flows.len() implies (#[trigger] after[k]).key
            == flows[k].key by {}
        assert forall|k: int| 0 <= k < after.len() implies ordered(
            (#[trigger] after[k]).segments.client,
        ) && ordered(after[k].segments.server) by {
            if k < flows.len() {
                assert(ordered(flows[k].segments.client));
            }
        }
        assert forall|a: int, b: int| 0 <= a < b < after.len() implies (#[trigger] after[a]).key
            != (#[trigger] after[b]).key && after[a].key != (after[b].key.1, after[b].key.0) by {
            assert(flows[a].key == after[a].key);
            if b < flows.len() {
                assert(flows[b].key == after[b].key);
            }
        }
    }
}

/// The flow that has a key.
fn position(flows: &Vec<FlowRecord>, key: &FlowKey) -> (r: Option<usize>)
    ensures
        match r {
            Some(i) => find_flow(record_views(flows@), key@, 0) == Some(i as int) && i
                < flows@.len(),
            None => find_flow(record_views(flows@), key@, 0) is None,
        },
{
    let ghost views = record_views(flows@);
    let mut i: usize = 0;
    while i < flows.len()
        invariant
            views == record_views(flows@),
            find_flow(views, key@, 0) == find_flow(views, key@, i as int),
        decreases flows@.len() - i,
    {
        assert(views[i as int] == flows@[i as int]@);
        if same_key(&flows[i].key, key) {
            return Some(i);
        }
        i += 1;
    }
    None
}

/// Adds a payload to those of a flow.
fn add_payload(segments: &mut Segments, direction: Direction, sequence: u32, payload: &[u8])
    ensures
        final(segments)@ == with_payload(old(segments)@, direction, sequence, payload@),
{
    let ghost before = segments@;
    let ghost events = segments.events@;
    segments.events.push((direction, sequence, vstd::slice::slice_to_vec(payload)));
    assert(event_views(segments.events@) =~= event_views(events).push(
        (direction, sequence, payload@),
    ));
    let existing: Option<usize> = match direction {
        Direction::ClientToServer => add_segment(&mut segments.client, sequence, payload),
        Direction::ServerToClient => add_segment(&mut segments.server, sequence, payload),
    };
    let again: u64 = match existing {
        Some(length) => if length < payload.len() {
            length as u64
        } else {
            payload.len() as u64
        },
        None => 0,
    };
    segments.duplicate_bytes = segments.duplicate_bytes.wrapping_add(again);
}

/// Adds an Ethernet frame to the flows, or counts why it is left out.
pub fn parse_ethernet(frame: &[u8], flows: &mut Vec<FlowRecord>, excluded: &mut Exclusions)
    requires
        old(excluded).packets_below(u64::MAX as int),
    ensures
        record_views(final(flows)@) == with_frame(record_views(old(flows)@), frame@),
        *final(excluded) == count_frame(*old(excluded), frame@),
{
    let (source, destination, tcp) = match parse_frame(frame, excluded) {
        Some(packet) => packet,
        None => {
            return;
        },
    };
    let source = Endpoint { address: source, port: tcp.0 };
    let destination = Endpoint { address: destination, port: tcp.1 };
    let direct = FlowKey { client: source, server: destination };
    let reverse = FlowKey { client: destination, server: source };
    let ghost before = record_views(flows@);
    let (index, direction): (usize, Direction) = match position(flows, &direct) {
        Some(i) => (i, Direction::ClientToServer),
        None => match position(flows, &reverse) {
            Some(i) => (i, Direction::ServerToClient),
            None => {
                let ghost list = flows@;
                flows.push(FlowRecord { key: direct, segments: Segments::default() });
                assert(record_views(flows@) =~= record_views(list).push(
                    FlowRecordView { key: direct@, segments: no_segments() },
                ));
                (flows.len() - 1, Direction::ClientToServer)
            },
        },
    };
    if tcp.3.len() == 0 {
        return;
    }
    let ghost known = record_views(flows@);
    assert(known[index as int] == flows@[index as int]@);
    let record: &mut FlowRecord = &mut flows[index];
    add_payload(&mut record.segments, direction, tcp.2, tcp.3);
    assert(record_views(flows@) =~= known.update(
        index as int,
        FlowRecordView {
            key: known[index as int].key,
            segments: with_payload(known[index as int].segments, direction, tcp.2, tcp.3@),
        },
    ));
}

} // verus!
