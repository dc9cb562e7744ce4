//! What a further block changes in a PCAPNG file.
use crate::bytes::occurs_at;
use crate::capture::analysis::{AnalysisView, CaptureError};
use crate::capture::files::{
    analysis_of, excluded_after, flows_after, pcapng_analysis, pcapng_order, pcapng_packets,
    section_mark, u16_at, u32_at, wire_bytes, CapturedPacket,
};
use crate::capture::packet::Skipped;
use crate::capture::segments::wrap64;
use vstd::prelude::*;

verus! {

/// The link types that are described in the blocks of a file from `offset` on, after those that
/// were described before.
pub open spec fn interfaces_after(
    data: Seq<u8>,
    offset: int,
    little: bool,
    interfaces: Seq<int>,
) -> Seq<int>
    decreases data.len() - offset,
{
    let length = u32_at(data, offset + 4, little);
    if offset + 12 > data.len() || length < 12 || offset + length > data.len() {
        interfaces
    } else if u32_at(data, offset, little) == 1 && length >= 20 {
        interfaces_after(
            data,
            offset + length,
            little,
            interfaces.push(u16_at(data, offset + 8, little)),
        )
    } else {
        interfaces_after(data, offset + length, little, interfaces)
    }
}

/// A block as a file holds it: its length is a multiple of four and stands in it twice.
pub open spec fn is_block(block: Seq<u8>, little: bool) -> bool {
    &&& block.len() >= 12
    &&& block.len() % 4 == 0
    &&& u32_at(block, 4, little) == block.len()
    &&& u32_at(block, block.len() - 4, little) == block.len()
}

/// A block that neither describes an interface nor holds a packet.
pub open spec fn is_foreign(block: Seq<u8>, little: bool) -> bool {
    &&& is_block(block, little)
    &&& u32_at(block, 0, little) != 1 || block.len() < 20
    &&& u32_at(block, 0, little) != 6 || block.len() < 32
}

/// A block with a packet from a link that is not described, or that is not Ethernet.
pub open spec fn is_unlinked(block: Seq<u8>, little: bool, interfaces: Seq<int>) -> bool {
    let interface = u32_at(block, 8, little);
    &&& is_block(block, little)
    &&& block.len() >= 32
    &&& u32_at(block, 0, little) == 6
    &&& 28 + u32_at(block, 20, little) + 4 <= block.len()
    &&& !(interface < interfaces.len() && interfaces[interface] == 1)
}

/// The start of a PCAPNG file: its section header, and whole blocks behind it.
pub open spec fn is_start(start: Seq<u8>, little: bool) -> bool {
    &&& start.len() >= 12
    &&& pcapng_order(start) == Some(little)
    &&& pcapng_packets(start, 0, little, Seq::empty()) is Some
}

proof fn parts_read_alike(a: Seq<u8>, b: Seq<u8>, i: int, little: bool)
    requires
        0 <= i,
        i + 4 <= b.len(),
    ensures
        u32_at(a + b, a.len() + i, little) == u32_at(b, i, little),
        u16_at(a + b, a.len() + i, little) == u16_at(b, i, little),
{
    assert forall|k: int| 0 <= k < b.len() implies (a + b)[a.len() + k] == b[k] by {}
    assert((a + b)[a.len() + i] == b[i]);
    assert((a + b)[a.len() + i + 1] == b[i + 1]);
    assert((a + b)[a.len() + i + 2] == b[i + 2]);
    assert((a + b)[a.len() + i + 3] == b[i + 3]);
}

pub(crate) proof fn starts_read_alike(a: Seq<u8>, b: Seq<u8>, i: int, little: bool)
    requires
        0 <= i,
        i + 4 <= a.len(),
    ensures
        u32_at(a + b, i, little) == u32_at(a, i, little),
        u16_at(a + b, i, little) == u16_at(a, i, little),
{
    assert((a + b)[i] == a[i]);
    assert((a + b)[i + 1] == a[i + 1]);
    assert((a + b)[i + 2] == a[i + 2]);
    assert((a + b)[i + 3] == a[i + 3]);
}

/// What stands behind the start of a file is read by itself.
pub(crate) proof fn rest_is_read_alone(
    start: Seq<u8>,
    rest: Seq<u8>,
    i: int,
    little: bool,
    interfaces: Seq<int>,
)
    requires
        0 <= i,
    ensures
        pcapng_packets(start + rest, start.len() + i, little, interfaces) == pcapng_packets(
            rest,
            i,
            little,
            interfaces,
        ),
    decreases rest.len() - i,
{
    let data = start + rest;
    let at = start.len() + i;
    if i + 12 <= rest.len() {
        parts_read_alike(start, rest, i, little);
        parts_read_alike(start, rest, i + 4, little);
        parts_read_alike(start, rest, i + 8, little);
        let length = u32_at(rest, i + 4, little);
        if length >= 12 && i + length <= rest.len() {
            parts_read_alike(start, rest, i + length - 4, little);
            let more = interfaces.push(u16_at(rest, i + 8, little));
            rest_is_read_alone(start, rest, i + length, little, more);
            rest_is_read_alone(start, rest, i + length, little, interfaces);
            if length >= 32 {
                parts_read_alike(start, rest, i + 20, little);
                parts_read_alike(start, rest, i + 24, little);
                let captured = u32_at(rest, i + 20, little);
                if 28 + captured + 4 <= length {
                    assert(data.subrange(at + 28, at + 28 + captured) =~= rest.subrange(
                        i + 28,
                        i + 28 + captured,
                    ));
                }
            }
        }
    }
}

/// The packets of whole blocks come first, and those of what follows after them.
proof fn whole_blocks_come_first(
    start: Seq<u8>,
    rest: Seq<u8>,
    i: int,
    little: bool,
    interfaces: Seq<int>,
)
    requires
        0 <= i,
        pcapng_packets(start, i, little, interfaces) is Some,
        i <= start.len(),
    ensures
        pcapng_packets(start + rest, i, little, interfaces) == (match pcapng_packets(
            rest,
            0,
            little,
            interfaces_after(start, i, little, interfaces),
        ) {
            Some(more) => Some(pcapng_packets(start, i, little, interfaces)->0 + more),
            None => None,
        }),
    decreases start.len() - i,
{
    let data = start + rest;
    if i >= start.len() {
        rest_is_read_alone(start, rest, 0, little, interfaces);
        if let Some(more) = pcapng_packets(rest, 0, little, interfaces) {
            assert(Seq::empty() + more =~= more);
        }
    } else {
        starts_read_alike(start, rest, i, little);
        starts_read_alike(start, rest, i + 4, little);
        starts_read_alike(start, rest, i + 8, little);
        let length = u32_at(start, i + 4, little);
        starts_read_alike(start, rest, i + length - 4, little);
        if u32_at(start, i, little) == 1 && length >= 20 {
            let more = interfaces.push(u16_at(start, i + 8, little));
            whole_blocks_come_first(start, rest, i + length, little, more);
        } else if u32_at(start, i, little) == 6 && length >= 32 {
            starts_read_alike(start, rest, i + 20, little);
            starts_read_alike(start, rest, i + 24, little);
            let captured = u32_at(start, i + 20, little);
            assert(data.subrange(i + 28, i + 28 + captured) =~= start.subrange(
                i + 28,
                i + 28 + captured,
            ));
            whole_blocks_come_first(start, rest, i + length, little, interfaces);
            let last = interfaces_after(start, i, little, interfaces);
            let packets = pcapng_packets(start, i, little, interfaces)->0;
            let later = pcapng_packets(start, i + length, little, interfaces)->0;
            if let Some(more) = pcapng_packets(rest, 0, little, last) {
                assert(seq![packets[0]] + later =~= packets);
                assert(seq![packets[0]] + (later + more) =~= packets + more);
            }
        } else {
            whole_blocks_come_first(start, rest, i + length, little, interfaces);
        }
    }
}

proof fn starts_are_recognized(start: Seq<u8>, rest: Seq<u8>, little: bool)
    requires
        is_start(start, little),
    ensures
        pcapng_order(start + rest) == Some(little),
        occurs_at(start + rest, section_mark(), 0) == occurs_at(start, section_mark(), 0),
{
    assert((start + rest).subrange(8, 12) =~= start.subrange(8, 12));
    assert((start + rest).subrange(0, 4) =~= start.subrange(0, 4));
    assert(section_mark().len() == 4);
}

/// A block of another kind changes nothing, wherever it stands between two blocks of a file.
pub proof fn foreign_blocks_are_passed_over(
    start: Seq<u8>,
    block: Seq<u8>,
    rest: Seq<u8>,
    little: bool,
)
    requires
        is_start(start, little),
        is_foreign(block, little),
        pcapng_analysis(start + rest) is Ok,
    ensures
        pcapng_analysis(start + block + rest) == pcapng_analysis(start + rest),
{
    let interfaces = interfaces_after(start, 0, little, Seq::empty());
    starts_are_recognized(start, rest, little);
    starts_are_recognized(start, block + rest, little);
    assert(start + block + rest =~= start + (block + rest));
    whole_blocks_come_first(start, rest, 0, little, Seq::empty());
    whole_blocks_come_first(start, block + rest, 0, little, Seq::empty());
    starts_read_alike(block, rest, 0, little);
    starts_read_alike(block, rest, 4, little);
    starts_read_alike(block, rest, block.len() - 4, little);
    rest_is_read_alone(block, rest, 0, little, interfaces);
}

/// The packet that a block from another link holds.
pub open spec fn unlinked_packet(block: Seq<u8>, little: bool) -> CapturedPacket {
    CapturedPacket { original: u32_at(block, 24, little), frame: None }
}

/// A packet from another link changes no flow, wherever it stands.
proof fn unlinked_packets_only_count(
    before: Seq<CapturedPacket>,
    packet: CapturedPacket,
    after: Seq<CapturedPacket>,
)
    requires
        packet.frame is None,
    ensures
        flows_after(before + seq![packet] + after) == flows_after(before + after),
        excluded_after(before + seq![packet] + after) == excluded_after(before + after).with_packet(
            Skipped::UnsupportedLink,
        ),
        wire_bytes(before + seq![packet] + after) == wire_bytes(before + after) + packet.original,
    decreases after.len(),
{
    let more = before + seq![packet] + after;
    let less = before + after;
    if after.len() == 0 {
        assert(more.drop_last() =~= less);
        assert(more.last() == packet);
    } else {
        let fewer = after.drop_last();
        unlinked_packets_only_count(before, packet, fewer);
        assert(more.drop_last() =~= before + seq![packet] + fewer);
        assert(less.drop_last() =~= before + fewer);
        assert(more.last() == after.last());
        assert(less.last() == after.last());
    }
}

/// The analysis with a packet from another link.
pub open spec fn with_unlinked(a: AnalysisView, original: int) -> AnalysisView {
    AnalysisView {
        packet_count: a.packet_count + 1,
        captured_bytes: wrap64(a.captured_bytes + original),
        exclusions: a.exclusions.with_packet(Skipped::UnsupportedLink),
        ..a
    }
}

proof fn analyses_only_count(
    before: Seq<CapturedPacket>,
    packet: CapturedPacket,
    after: Seq<CapturedPacket>,
)
    requires
        packet.frame is None,
    ensures
        analysis_of(before + seq![packet] + after) == with_unlinked(
            analysis_of(before + after),
            packet.original,
        ),
{
    unlinked_packets_only_count(before, packet, after);
    let total = wire_bytes(before + after);
    assert(wrap64(wrap64(total) + packet.original) == wrap64(total + packet.original));
    assert((before + seq![packet] + after).len() == (before + after).len() + 1);
}

proof fn unlinked_blocks_are_read(
    block: Seq<u8>,
    rest: Seq<u8>,
    little: bool,
    interfaces: Seq<int>,
)
    requires
        is_unlinked(block, little, interfaces),
        pcapng_packets(rest, 0, little, interfaces) is Some,
    ensures
        pcapng_packets(block + rest, 0, little, interfaces) == Some(
            seq![unlinked_packet(block, little)] + pcapng_packets(rest, 0, little, interfaces)->0,
        ),
{
    starts_read_alike(block, rest, 0, little);
    starts_read_alike(block, rest, 4, little);
    starts_read_alike(block, rest, 8, little);
    starts_read_alike(block, rest, 20, little);
    starts_read_alike(block, rest, 24, little);
    starts_read_alike(block, rest, block.len() - 4, little);
    rest_is_read_alone(block, rest, 0, little, interfaces);
}

/// A packet from a link that is not described, or that is not Ethernet, changes only how many
/// packets there are, how many bytes they had, and how many were left out for their link.
pub proof fn unlinked_blocks_are_only_counted(
    start: Seq<u8>,
    block: Seq<u8>,
    rest: Seq<u8>,
    little: bool,
)
    requires
        is_start(start, little),
        is_unlinked(block, little, interfaces_after(start, 0, little, Seq::empty())),
        pcapng_analysis(start + rest) is Ok,
    ensures
        pcapng_analysis(start + block + rest) == Ok::<AnalysisView, CaptureError>(
            with_unlinked(
                pcapng_analysis(start + rest)->Ok_0,
                u32_at(block, 24, little),
            ),
        ),
{
    let none = Seq::<int>::empty();
    let interfaces = interfaces_after(start, 0, little, none);
    let packet = unlinked_packet(block, little);
    starts_are_recognized(start, rest, little);
    starts_are_recognized(start, block + rest, little);
    assert(start + block + rest =~= start + (block + rest));
    whole_blocks_come_first(start, rest, 0, little, none);
    whole_blocks_come_first(start, block + rest, 0, little, none);
    unlinked_blocks_are_read(block, rest, little, interfaces);
    let before = pcapng_packets(start, 0, little, none)->0;
    let after = pcapng_packets(rest, 0, little, interfaces)->0;
    assert(before + (seq![packet] + after) =~= before + seq![packet] + after);
    analyses_only_count(before, packet, after);
}

} // verus!
