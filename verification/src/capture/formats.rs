//! The two file formats of captures hold the same packets.
use crate::bytes::occurs_at;
use crate::capture::analysis::{AnalysisView, CaptureError};
use crate::capture::blocks::{is_block, rest_is_read_alone, starts_read_alike};
use crate::capture::files::{
    analysis_of, pcap_analysis, pcap_order, pcap_packets, pcapng_analysis, pcapng_order,
    pcapng_packets, section_mark, u16_at, u32_at, CapturedPacket,
};
use crate::capture::http::joined;
use vstd::prelude::*;

verus! {

/// The header of a PCAP file of Ethernet packets in a byte order.
pub open spec fn is_pcap_head(head: Seq<u8>, little: bool) -> bool {
    &&& head.len() == 24
    &&& pcap_order(head) == Some(little)
    &&& u32_at(head, 20, little) == 1
}

/// The record of a packet in a PCAP file, whatever its time stamp is.
pub open spec fn is_record(record: Seq<u8>, packet: CapturedPacket, little: bool) -> bool {
    &&& packet.frame is Some
    &&& record.len() == 16 + packet.frame->0.len()
    &&& u32_at(record, 8, little) == packet.frame->0.len()
    &&& u32_at(record, 12, little) == packet.original
    &&& record.subrange(16, record.len() as int) == packet.frame->0
}

/// The records are those of the packets, in their order.
pub open spec fn are_records(
    records: Seq<Seq<u8>>,
    packets: Seq<CapturedPacket>,
    little: bool,
) -> bool {
    &&& records.len() == packets.len()
    &&& forall|i: int|
        0 <= i < records.len() ==> is_record(#[trigger] records[i], packets[i], little)
}

/// The section header of a PCAPNG file in a byte order.
pub open spec fn is_section(section: Seq<u8>, little: bool) -> bool {
    &&& is_block(section, little)
    &&& section.len() >= 28
    &&& occurs_at(section, section_mark(), 0)
    &&& pcapng_order(section) == Some(little)
}

/// The description of an Ethernet interface in a PCAPNG file.
pub open spec fn is_description(block: Seq<u8>, little: bool) -> bool {
    &&& is_block(block, little)
    &&& block.len() >= 20
    &&& u32_at(block, 0, little) == 1
    &&& u16_at(block, 8, little) == 1
}

/// A block of a PCAPNG file that holds a packet.
pub open spec fn is_packet_block(block: Seq<u8>, little: bool) -> bool {
    &&& is_block(block, little)
    &&& block.len() >= 32
    &&& u32_at(block, 0, little) == 6
}

/// The block of a packet from the first interface, whatever its time stamp, its padding and its
/// options are.
pub open spec fn is_block_of(block: Seq<u8>, packet: CapturedPacket, little: bool) -> bool {
    let length = u32_at(block, 20, little);
    &&& is_packet_block(block, little)
    &&& u32_at(block, 8, little) == 0
    &&& 0 <= length
    &&& 28 + length + 4 <= block.len()
    &&& u32_at(block, 24, little) == packet.original
    &&& packet.frame == Some(block.subrange(28, 28 + length))
}

/// The blocks hold these packets, in their order. Others may stand before, between and behind
/// them.
pub open spec fn are_blocks(
    blocks: Seq<Seq<u8>>,
    packets: Seq<CapturedPacket>,
    little: bool,
) -> bool
    decreases blocks.len(),
{
    if blocks.len() == 0 {
        packets.len() == 0
    } else if is_packet_block(blocks[0], little) {
        &&& packets.len() > 0
        &&& is_block_of(blocks[0], packets[0], little)
        &&& are_blocks(
            blocks.subrange(1, blocks.len() as int),
            packets.subrange(1, packets.len() as int),
            little,
        )
    } else {
        &&& is_block(blocks[0], little)
        &&& are_blocks(blocks.subrange(1, blocks.len() as int), packets, little)
    }
}

proof fn records_are_read_alone(start: Seq<u8>, rest: Seq<u8>, i: int, little: bool)
    requires
        0 <= i,
    ensures
        pcap_packets(start + rest, start.len() + i, little) == pcap_packets(rest, i, little),
    decreases rest.len() - i,
{
    let data = start + rest;
    let at = start.len() + i;
    if i + 16 <= rest.len() {
        assert forall|k: int| 0 <= k < 16 implies data[at + k] == #[trigger] rest[i + k] by {}
        assert(data[at + 8] == rest[i + 8] && data[at + 9] == rest[i + 9] && data[at + 10]
            == rest[i + 10] && data[at + 11] == rest[i + 11]);
        assert(data[at + 12] == rest[i + 12] && data[at + 13] == rest[i + 13] && data[at + 14]
            == rest[i + 14] && data[at + 15] == rest[i + 15]);
        let included = u32_at(rest, i + 8, little);
        assert(u32_at(data, at + 8, little) == included);
        assert(u32_at(data, at + 12, little) == u32_at(rest, i + 12, little));
        if included >= 0 && i + 16 + included <= rest.len() {
            records_are_read_alone(start, rest, i + 16 + included, little);
            assert(data.subrange(at + 16, at + 16 + included) =~= rest.subrange(
                i + 16,
                i + 16 + included,
            ));
        }
    }
}

proof fn records_are_read(records: Seq<Seq<u8>>, packets: Seq<CapturedPacket>, little: bool)
    requires
        are_records(records, packets, little),
    ensures
        pcap_packets(joined(records), 0, little) == Some(packets),
    decreases records.len(),
{
    if records.len() == 0 {
        assert(packets =~= Seq::empty());
    } else {
        let record = records[0];
        let packet = packets[0];
        let more = records.subrange(1, records.len() as int);
        let others = packets.subrange(1, packets.len() as int);
        let rest = joined(more);
        assert(is_record(record, packet, little));
        assert forall|i: int| 0 <= i < more.len() implies is_record(
            #[trigger] more[i],
            others[i],
            little,
        ) by {
            assert(is_record(records[i + 1], packets[i + 1], little));
        }
        records_are_read(more, others, little);
        records_are_read_alone(record, rest, 0, little);
        starts_read_alike(record, rest, 8, little);
        starts_read_alike(record, rest, 12, little);
        assert((record + rest).subrange(16, record.len() as int) =~= record.subrange(
            16,
            record.len() as int,
        ));
        assert(CapturedPacket { original: packet.original, frame: Some(packet.frame->0) }
            == packet);
        assert(seq![packet] + others =~= packets);
    }
}

proof fn blocks_are_read(
    blocks: Seq<Seq<u8>>,
    packets: Seq<CapturedPacket>,
    little: bool,
    interfaces: Seq<int>,
)
    requires
        are_blocks(blocks, packets, little),
        interfaces.len() > 0,
        interfaces[0] == 1,
    ensures
        pcapng_packets(joined(blocks), 0, little, interfaces) == Some(packets),
    decreases blocks.len(),
{
    if blocks.len() == 0 {
        assert(packets =~= Seq::empty());
    } else {
        let block = blocks[0];
        let more = blocks.subrange(1, blocks.len() as int);
        let rest = joined(more);
        starts_read_alike(block, rest, 0, little);
        starts_read_alike(block, rest, 4, little);
        starts_read_alike(block, rest, 8, little);
        starts_read_alike(block, rest, block.len() - 4, little);
        if is_packet_block(block, little) {
            let packet = packets[0];
            let others = packets.subrange(1, packets.len() as int);
            let length = u32_at(block, 20, little);
            starts_read_alike(block, rest, 20, little);
            starts_read_alike(block, rest, 24, little);
            blocks_are_read(more, others, little, interfaces);
            rest_is_read_alone(block, rest, 0, little, interfaces);
            assert((block + rest).subrange(28, 28 + length) =~= block.subrange(28, 28 + length));
            assert(seq![packet] + others =~= packets);
        } else {
            let described = interfaces.push(u16_at(block, 8, little));
            blocks_are_read(more, packets, little, described);
            blocks_are_read(more, packets, little, interfaces);
            rest_is_read_alone(block, rest, 0, little, described);
            rest_is_read_alone(block, rest, 0, little, interfaces);
        }
    }
}

/// The packets of a PCAP file are those of its records.
pub proof fn pcap_files_are_read(
    head: Seq<u8>,
    records: Seq<Seq<u8>>,
    packets: Seq<CapturedPacket>,
    little: bool,
)
    requires
        is_pcap_head(head, little),
        are_records(records, packets, little),
    ensures
        pcap_analysis(head + joined(records)) == Ok::<AnalysisView, CaptureError>(
            analysis_of(packets),
        ),
{
    let rest = joined(records);
    records_are_read(records, packets, little);
    records_are_read_alone(head, rest, 0, little);
    starts_read_alike(head, rest, 20, little);
    assert((head + rest).subrange(0, 4) =~= head.subrange(0, 4));
}

proof fn sections_are_not_packets(section: Seq<u8>, little: bool)
    requires
        is_section(section, little),
    ensures
        u32_at(section, 0, little) == 0x0a0d_0d0a,
{
    let mark = section.subrange(0, 4);
    assert(mark =~= section_mark());
    assert(section[0] == mark[0] && section[1] == mark[1] && section[2] == mark[2] && section[3]
        == mark[3]);
}

/// The packets of a PCAPNG file are those of its blocks, whatever other blocks it has.
pub proof fn pcapng_files_are_read(
    section: Seq<u8>,
    description: Seq<u8>,
    blocks: Seq<Seq<u8>>,
    packets: Seq<CapturedPacket>,
    little: bool,
)
    requires
        is_section(section, little),
        is_description(description, little),
        are_blocks(blocks, packets, little),
    ensures
        pcapng_analysis(section + description + joined(blocks)) == Ok::<AnalysisView, CaptureError>(
            analysis_of(packets),
        ),
{
    let rest = joined(blocks);
    let behind = description + rest;
    let data = section + behind;
    let none = Seq::<int>::empty();
    let one = none.push(1);
    assert(section + description + rest =~= data);
    blocks_are_read(blocks, packets, little, one);
    rest_is_read_alone(description, rest, 0, little, one);
    rest_is_read_alone(section, behind, 0, little, none);
    starts_read_alike(description, rest, 0, little);
    starts_read_alike(description, rest, 4, little);
    starts_read_alike(description, rest, 8, little);
    starts_read_alike(description, rest, description.len() - 4, little);
    assert(pcapng_packets(behind, 0, little, none) == Some(packets));
    sections_are_not_packets(section, little);
    starts_read_alike(section, behind, 0, little);
    starts_read_alike(section, behind, 4, little);
    starts_read_alike(section, behind, section.len() - 4, little);
    assert(pcapng_packets(data, 0, little, none) == Some(packets));
    assert(data.subrange(8, 12) =~= section.subrange(8, 12));
    assert(data.subrange(0, 4) =~= section.subrange(0, 4));
}

/// The analysis does not depend on the file format: the same packets are analyzed alike in a PCAP
/// file and in a PCAPNG file, whatever the byte orders, the time stamps and the padding are, and
/// whatever other blocks there are.
pub proof fn formats_agree(
    head: Seq<u8>,
    records: Seq<Seq<u8>>,
    little: bool,
    section: Seq<u8>,
    description: Seq<u8>,
    blocks: Seq<Seq<u8>>,
    other_little: bool,
    packets: Seq<CapturedPacket>,
)
    requires
        is_pcap_head(head, little),
        are_records(records, packets, little),
        is_section(section, other_little),
        is_description(description, other_little),
        are_blocks(blocks, packets, other_little),
    ensures
        pcap_analysis(head + joined(records)) is Ok,
        pcap_analysis(head + joined(records)) == pcapng_analysis(
            section + description + joined(blocks),
        ),
{
    pcap_files_are_read(head, records, packets, little);
    pcapng_files_are_read(section, description, blocks, packets, other_little);
}

} // verus!
