//! PCAP and PCAPNG files.
use crate::bytes::{occurs_at, starts_with};
use crate::capture::analysis::{
    complete_flows, finish_analysis, flow_views, flows_within, with_flows, AnalysisView,
    CaptureAnalysis, CaptureError, CaptureFormat, };
use crate::capture::flows::{
    count_frame, flows_apart, frames_keep_flows_apart, parse_ethernet, record_views, with_frame,
    FlowRecord, FlowRecordView,
};
use crate::capture::packet::{
    be16, be32, le32, no_exclusions, read_be16, read_be32, read_le32, Exclusions, Skipped,
};
use crate::capture::segments::wrap64;
use vstd::prelude::*;

verus! {

/// A packet as a capture holds it.
#[verifier::ext_equal]
pub struct CapturedPacket {
    /// The length that the packet had on the wire.
    pub original: int,
    /// The bytes that were captured; nothing where the link is not Ethernet.
    pub frame: Option<Seq<u8>>,
}

/// The flows after a sequence of packets.
pub open spec fn flows_after(packets: Seq<CapturedPacket>) -> Seq<FlowRecordView>
    decreases packets.len(),
{
    if packets.len() == 0 {
        Seq::empty()
    } else {
        match packets.last().frame {
            Some(frame) => with_frame(flows_after(packets.drop_last()), frame),
            None => flows_after(packets.drop_last()),
        }
    }
}

/// The packets left out of a sequence of packets.
pub open spec fn excluded_after(packets: Seq<CapturedPacket>) -> Exclusions
    decreases packets.len(),
{
    if packets.len() == 0 {
        no_exclusions()
    } else {
        match packets.last().frame {
            Some(frame) => count_frame(excluded_after(packets.drop_last()), frame),
            None => excluded_after(packets.drop_last()).with_packet(Skipped::UnsupportedLink),
        }
    }
}

/// The bytes of a sequence of packets on the wire.
pub open spec fn wire_bytes(packets: Seq<CapturedPacket>) -> int
    decreases packets.len(),
{
    if packets.len() == 0 {
        0
    } else {
        wire_bytes(packets.drop_last()) + packets.last().original
    }
}

/// The analysis of a sequence of packets.
pub open spec fn analysis_of(packets: Seq<CapturedPacket>) -> AnalysisView {
    let records = flows_after(packets);
    AnalysisView {
        packet_count: packets.len() as int,
        captured_bytes: wrap64(wire_bytes(packets)),
        flows: complete_flows(records, records.len() as int),
        exclusions: with_flows(excluded_after(packets), records, records.len() as int),
    }
}

/// Both directions of a connection are one flow, whatever the packets are.
pub proof fn captured_flows_are_apart(packets: Seq<CapturedPacket>)
    ensures
        flows_apart(flows_after(packets)),
    decreases packets.len(),
{
    if packets.len() > 0 {
        captured_flows_are_apart(packets.drop_last());
        if let Some(frame) = packets.last().frame {
            frames_keep_flows_apart(flows_after(packets.drop_last()), frame);
        }
    }
}

/// The number that four bytes denote in the byte order of a file.
pub open spec fn u32_at(data: Seq<u8>, at: int, little: bool) -> int {
    if little {
        le32(data, at)
    } else {
        be32(data, at)
    }
}

/// The number that two bytes denote in the byte order of a file.
pub open spec fn u16_at(data: Seq<u8>, at: int, little: bool) -> int {
    if little {
        data[at] + data[at + 1] * 0x100
    } else {
        be16(data, at)
    }
}

/// The byte order that the first four bytes of a PCAP file stand for: `true` for the least
/// significant byte first. Time stamps may be in microseconds or nanoseconds.
pub open spec fn pcap_order(data: Seq<u8>) -> Option<bool> {
    let magic = data.subrange(0, 4);
    if magic == seq![0xd4u8, 0xc3, 0xb2, 0xa1] || magic == seq![0x4du8, 0x3c, 0xb2, 0xa1] {
        Some(true)
    } else if magic == seq![0xa1u8, 0xb2, 0xc3, 0xd4] || magic == seq![0xa1u8, 0xb2, 0x3c, 0x4d] {
        Some(false)
    } else {
        None
    }
}

/// The packets of a PCAP file from `offset` on; nothing where the file ends in one.
pub open spec fn pcap_packets(data: Seq<u8>, offset: int, little: bool) -> Option<
    Seq<CapturedPacket>,
>
    decreases data.len() - offset,
{
    let included = u32_at(data, offset + 8, little);
    if offset >= data.len() {
        Some(Seq::empty())
    } else if offset + 16 > data.len() || included < 0 || offset + 16 + included > data.len() {
        None
    } else {
        let packet = CapturedPacket {
            original: u32_at(data, offset + 12, little),
            frame: Some(data.subrange(offset + 16, offset + 16 + included)),
        };
        match pcap_packets(data, offset + 16 + included, little) {
            Some(rest) => Some(seq![packet] + rest),
            None => None,
        }
    }
}

/// The analysis of a PCAP file, or why there is none.
pub open spec fn pcap_analysis(data: Seq<u8>) -> Result<AnalysisView, CaptureError> {
    if data.len() < 24 {
        Err(CaptureError::Truncated)
    } else {
        match pcap_order(data) {
            None => Err(CaptureError::UnsupportedFormat),
            Some(little) => if u32_at(data, 20, little) != 1 {
                Err(CaptureError::UnsupportedLinkType(u32_at(data, 20, little) as u32))
            } else {
                match pcap_packets(data, 24, little) {
                    Some(packets) => Ok(analysis_of(packets)),
                    None => Err(CaptureError::Truncated),
                }
            },
        }
    }
}

/// The block type that a PCAPNG file starts with.
pub open spec fn section_mark() -> Seq<u8> {
    seq![0x0au8, 0x0d, 0x0d, 0x0a]
}

/// The packets of a PCAPNG file from the block at `offset` on, where `interfaces` are the link
/// types described before it; nothing where a block is malformed or cut off. Interface
/// descriptions are blocks of type 1 and packets blocks of type 6; others are passed over.
pub open spec fn pcapng_packets(
    data: Seq<u8>,
    offset: int,
    little: bool,
    interfaces: Seq<int>,
) -> Option<Seq<CapturedPacket>>
    decreases data.len() - offset,
{
    let kind = u32_at(data, offset, little);
    let length = u32_at(data, offset + 4, little);
    if offset >= data.len() {
        Some(Seq::empty())
    } else if offset + 12 > data.len() || length < 12 || length % 4 != 0 || offset + length
        > data.len() || u32_at(data, offset + length - 4, little) != length {
        None
    } else if kind == 1 && length >= 20 {
        pcapng_packets(
            data,
            offset + length,
            little,
            interfaces.push(u16_at(data, offset + 8, little)),
        )
    } else if kind == 6 && length >= 32 {
        let interface = u32_at(data, offset + 8, little);
        let captured = u32_at(data, offset + 20, little);
        if 28 + captured + 4 > length {
            None
        } else {
            let packet = CapturedPacket {
                original: u32_at(data, offset + 24, little),
                frame: if interface < interfaces.len() && interfaces[interface] == 1 {
                    Some(data.subrange(offset + 28, offset + 28 + captured))
                } else {
                    None
                },
            };
            match pcapng_packets(data, offset + length, little, interfaces) {
                Some(rest) => Some(seq![packet] + rest),
                None => None,
            }
        }
    } else {
        pcapng_packets(data, offset + length, little, interfaces)
    }
}

/// The byte order that the section header of a PCAPNG file states.
pub open spec fn pcapng_order(data: Seq<u8>) -> Option<bool> {
    let magic = data.subrange(8, 12);
    if magic == seq![0x4du8, 0x3c, 0x2b, 0x1a] {
        Some(true)
    } else if magic == seq![0x1au8, 0x2b, 0x3c, 0x4d] {
        Some(false)
    } else {
        None
    }
}

/// The analysis of a PCAPNG file, or why there is none.
pub open spec fn pcapng_analysis(data: Seq<u8>) -> Result<AnalysisView, CaptureError> {
    if data.len() < 28 || !occurs_at(data, section_mark(), 0) {
        Err(CaptureError::UnsupportedFormat)
    } else {
        match pcapng_order(data) {
            None => Err(CaptureError::UnsupportedFormat),
            Some(little) => match pcapng_packets(data, 0, little, Seq::empty()) {
                Some(packets) => Ok(analysis_of(packets)),
                None => Err(CaptureError::Truncated),
            },
        }
    }
}

/// The number that four bytes denote in the byte order of a file.
pub fn read_u32(data: &[u8], at: usize, little: bool) -> (r: u32)
    requires
        at + 4 <= data@.len(),
    ensures
        r == u32_at(data@, at as int, little),
{
    if little {
        read_le32(data, at)
    } else {
        read_be32(data, at)
    }
}

/// The number that two bytes denote in the byte order of a file.
fn read_u16(data: &[u8], at: usize, little: bool) -> (r: u16)
    requires
        at + 2 <= data@.len(),
    ensures
        r == u16_at(data@, at as int, little),
{
    if little {
        data[at] as u16 + data[at + 1] as u16 * 0x100
    } else {
        read_be16(data, at)
    }
}

/// Whether four bytes stand at a position.
pub fn has_mark(data: &[u8], at: usize, mark: [u8; 4]) -> (r: bool)
    requires
        at + 4 <= data@.len(),
    ensures
        r == (data@.subrange(at as int, at + 4) == mark@),
{
    let r = crate::bytes::matches_at(data, mark.as_slice(), at);
    r
}

proof fn excluded_bounds(packets: Seq<CapturedPacket>)
    requires
        packets.len() <= u64::MAX,
    ensures
        excluded_after(packets).packets_below(packets.len() as int + 1),
        flows_within(excluded_after(packets), 0),
    decreases packets.len(),
{
    if packets.len() > 0 {
        excluded_bounds(packets.drop_last());
    }
}

/// The state of an analysis after a sequence of packets.
spec fn collected(
    analysis: CaptureAnalysis,
    records: Seq<FlowRecord>,
    packets: Seq<CapturedPacket>,
) -> bool {
    &&& analysis.packet_count == packets.len()
    &&& analysis.captured_bytes == wrap64(wire_bytes(packets))
    &&& analysis.flows@.len() == 0
    &&& analysis.exclusions == excluded_after(packets)
    &&& record_views(records) == flows_after(packets)
}

/// An analysis of no packets.
fn empty_analysis() -> (r: (CaptureAnalysis, Vec<FlowRecord>))
    ensures
        collected(r.0, r.1@, Seq::empty()),
{
    let analysis = CaptureAnalysis {
        packet_count: 0,
        captured_bytes: 0,
        flows: Vec::new(),
        exclusions: Exclusions::default(),
    };
    let records: Vec<FlowRecord> = Vec::new();
    assert(record_views(records@) =~= Seq::empty());
    (analysis, records)
}

/// Adds a packet to an analysis.
fn collect(
    analysis: &mut CaptureAnalysis,
    records: &mut Vec<FlowRecord>,
    original: u32,
    frame: Option<&[u8]>,
    Ghost(packets): Ghost<Seq<CapturedPacket>>,
)
    requires
        collected(*old(analysis), old(records)@, packets),
        packets.len() < u64::MAX,
    ensures
        collected(
            *final(analysis),
            final(records)@,
            packets.push(
                CapturedPacket {
                    original: original as int,
                    frame: match frame {
                        Some(frame) => Some(frame@),
                        None => None,
                    },
                },
            ),
        ),
{
    let ghost packet = CapturedPacket {
        original: original as int,
        frame: match frame {
            Some(frame) => Some(frame@),
            None => None,
        },
    };
    proof {
        excluded_bounds(packets);
        assert(packets.push(packet).drop_last() =~= packets);
    }
    analysis.packet_count = analysis.packet_count + 1;
    analysis.captured_bytes = analysis.captured_bytes.wrapping_add(original as u64);
    match frame {
        Some(frame) => {
            parse_ethernet(frame, records, &mut analysis.exclusions);
        },
        None => {
            analysis.exclusions.count_packet(Skipped::UnsupportedLink);
        },
    }
}

/// Turns the state after a sequence of packets into their analysis.
fn conclude_analysis(
    analysis: CaptureAnalysis,
    records: Vec<FlowRecord>,
    Ghost(packets): Ghost<Seq<CapturedPacket>>,
) -> (r: CaptureAnalysis)
    requires
        collected(analysis, records@, packets),
    ensures
        r@ == analysis_of(packets),
{
    let mut analysis = analysis;
    proof {
        excluded_bounds(packets);
        assert(flow_views(analysis.flows@) =~= Seq::empty());
        assert(records@.len() == flows_after(packets).len());
    }
    let count: usize = records.len();
    finish_analysis(&mut analysis, &records);
    assert(analysis@ =~= analysis_of(packets));
    analysis
}

/// Analyzes a PCAP file.
pub fn analyze_pcap(data: &[u8]) -> (r: Result<CaptureAnalysis, CaptureError>)
    ensures
        match r {
            Ok(analysis) => pcap_analysis(data@) == Ok::<AnalysisView, CaptureError>(analysis@),
            Err(error) => pcap_analysis(data@) == Err::<AnalysisView, CaptureError>(error),
        },
{
    if data.len() < 24 {
        return Err(CaptureError::Truncated);
    }
    let little: bool = has_mark(data, 0, [0xd4, 0xc3, 0xb2, 0xa1]) || has_mark(
        data,
        0,
        [0x4d, 0x3c, 0xb2, 0xa1],
    );
    let big: bool = has_mark(data, 0, [0xa1, 0xb2, 0xc3, 0xd4]) || has_mark(
        data,
        0,
        [0xa1, 0xb2, 0x3c, 0x4d],
    );
    proof {
        assert([0xd4u8, 0xc3, 0xb2, 0xa1]@ =~= seq![0xd4u8, 0xc3, 0xb2, 0xa1]);
        assert([0x4du8, 0x3c, 0xb2, 0xa1]@ =~= seq![0x4du8, 0x3c, 0xb2, 0xa1]);
        assert([0xa1u8, 0xb2, 0xc3, 0xd4]@ =~= seq![0xa1u8, 0xb2, 0xc3, 0xd4]);
        assert([0xa1u8, 0xb2, 0x3c, 0x4d]@ =~= seq![0xa1u8, 0xb2, 0x3c, 0x4d]);
    }
    if !little && !big {
        return Err(CaptureError::UnsupportedFormat);
    }
    assert(pcap_order(data@) == Some(little));
    let link_type: u32 = read_u32(data, 20, little);
    if link_type != 1 {
        return Err(CaptureError::UnsupportedLinkType(link_type));
    }
    let (mut analysis, mut records) = empty_analysis();
    let ghost mut done: Seq<CapturedPacket> = Seq::empty();
    let mut offset: usize = 24;
    assert(pcap_packets(data@, 24, little) is Some ==> done + pcap_packets(data@, 24, little)->0
        =~= pcap_packets(data@, 24, little)->0);
    while offset < data.len()
        invariant
            24 <= offset <= data@.len() <= usize::MAX,
            done.len() <= offset,
            collected(analysis, records@, done),
            match pcap_packets(data@, offset as int, little) {
                Some(rest) => pcap_packets(data@, 24, little) == Some(done + rest),
                None => pcap_packets(data@, 24, little) is None,
            },
            pcap_order(data@) == Some(little),
            u32_at(data@, 20, little) == 1,
        decreases data@.len() - offset,
    {
        if data.len() - offset < 16 {
            return Err(CaptureError::Truncated);
        }
        let included: u32 = read_u32(data, offset + 8, little);
        let original: u32 = read_u32(data, offset + 12, little);
        let start: usize = offset + 16;
        if included as u64 > (data.len() - start) as u64 {
            return Err(CaptureError::Truncated);
        }
        let end: usize = start + included as usize;
        let frame: &[u8] = &data[start..end];
        collect(&mut analysis, &mut records, original, Some(frame), Ghost(done));
        proof {
            let packet = CapturedPacket { original: original as int, frame: Some(frame@) };
            if let Some(rest) = pcap_packets(data@, end as int, little) {
                assert(done.push(packet) + rest =~= done + (seq![packet] + rest));
            }
            done = done.push(packet);
        }
        offset = end;
    }
    assert(done + Seq::<CapturedPacket>::empty() =~= done);
    Ok(conclude_analysis(analysis, records, Ghost(done)))
}

/// Analyzes a PCAPNG file.
pub fn analyze_pcapng(data: &[u8]) -> (r: Result<CaptureAnalysis, CaptureError>)
    ensures
        match r {
            Ok(analysis) => pcapng_analysis(data@) == Ok::<AnalysisView, CaptureError>(analysis@),
            Err(error) => pcapng_analysis(data@) == Err::<AnalysisView, CaptureError>(error),
        },
{
    let mark: [u8; 4] = [0x0a, 0x0d, 0x0d, 0x0a];
    assert(mark@ =~= section_mark());
    if data.len() < 28 || !starts_with(data, mark.as_slice()) {
        return Err(CaptureError::UnsupportedFormat);
    }
    proof {
        assert([0x4du8, 0x3c, 0x2b, 0x1a]@ =~= seq![0x4du8, 0x3c, 0x2b, 0x1a]);
        assert([0x1au8, 0x2b, 0x3c, 0x4d]@ =~= seq![0x1au8, 0x2b, 0x3c, 0x4d]);
    }
    let little: bool = has_mark(data, 8, [0x4d, 0x3c, 0x2b, 0x1a]);
    if !little && !has_mark(data, 8, [0x1a, 0x2b, 0x3c, 0x4d]) {
        return Err(CaptureError::UnsupportedFormat);
    }
    assert(pcapng_order(data@) == Some(little));
    let (mut analysis, mut records) = empty_analysis();
    let ghost mut done: Seq<CapturedPacket> = Seq::empty();
    let ghost mut links: Seq<int> = Seq::empty();
    let ghost whole = pcapng_packets(data@, 0, little, Seq::empty());
    let mut interfaces: Vec<u16> = Vec::new();
    let mut offset: usize = 0;
    assert(whole is Some ==> done + whole->0 =~= whole->0);
    while offset < data.len()
        invariant
            offset <= data@.len() <= usize::MAX,
            done.len() <= offset,
            collected(analysis, records@, done),
            links.len() == interfaces@.len(),
            forall|i: int| 0 <= i < links.len() ==> links[i] == interfaces@[i],
            whole == pcapng_packets(data@, 0, little, Seq::empty()),
            match pcapng_packets(data@, offset as int, little, links) {
                Some(rest) => whole == Some(done + rest),
                None => whole is None,
            },
            data@.len() >= 28,
            occurs_at(data@, section_mark(), 0),
            pcapng_order(data@) == Some(little),
        decreases data@.len() - offset,
    {
        if data.len() - offset < 12 {
            return Err(CaptureError::Truncated);
        }
        let kind: u32 = read_u32(data, offset, little);
        let stated: u32 = read_u32(data, offset + 4, little);
        if stated < 12 || stated % 4 != 0 || stated as u64 > (data.len() - offset) as u64 {
            return Err(CaptureError::Truncated);
        }
        let length: usize = stated as usize;
        let next: usize = offset + length;
        if read_u32(data, next - 4, little) != stated {
            return Err(CaptureError::Truncated);
        }
        if kind == 1 && length >= 20 {
            let link: u16 = read_u16(data, offset + 8, little);
            interfaces.push(link);
            proof {
                links = links.push(link as int);
            }
        } else if kind == 6 && length >= 32 {
            let interface: u32 = read_u32(data, offset + 8, little);
            let captured: u32 = read_u32(data, offset + 20, little);
            let original: u32 = read_u32(data, offset + 24, little);
            if captured as u64 > (length - 32) as u64 {
                return Err(CaptureError::Truncated);
            }
            let ethernet: bool = (interface as u64) < interfaces.len() as u64
                && interfaces[interface as usize] == 1;
            let frame: &[u8] = &data[offset + 28..offset + 28 + captured as usize];
            let kept: Option<&[u8]> = if ethernet {
                Some(frame)
            } else {
                None
            };
            collect(&mut analysis, &mut records, original, kept, Ghost(done));
            proof {
                let packet = CapturedPacket {
                    original: original as int,
                    frame: if ethernet {
                        Some(frame@)
                    } else {
                        None
                    },
                };
                if let Some(rest) = pcapng_packets(data@, next as int, little, links) {
                    assert(done.push(packet) + rest =~= done + (seq![packet] + rest));
                }
                done = done.push(packet);
            }
        }
        offset = next;
    }
    assert(done + Seq::<CapturedPacket>::empty() =~= done);
    Ok(conclude_analysis(analysis, records, Ghost(done)))
}

/// The format and the analysis of a capture, or why there is none. A file that starts as
/// PCAPNG does is read as such, and any other as PCAP.
pub open spec fn capture_analysis(data: Seq<u8>) -> Result<
    (CaptureFormat, AnalysisView),
    CaptureError,
> {
    if occurs_at(data, section_mark(), 0) {
        match pcapng_analysis(data) {
            Ok(analysis) => Ok((CaptureFormat::PcapNg, analysis)),
            Err(error) => Err(error),
        }
    } else {
        match pcap_analysis(data) {
            Ok(analysis) => Ok((CaptureFormat::Pcap, analysis)),
            Err(error) => Err(error),
        }
    }
}

/// Analyzes a capture of either format.
pub fn analyze_capture(data: &[u8]) -> (r: Result<(CaptureFormat, CaptureAnalysis), CaptureError>)
    ensures
        match r {
            Ok((format, analysis)) => capture_analysis(data@) == Ok::<
                (CaptureFormat, AnalysisView),
                CaptureError,
            >((format, analysis@)),
            Err(error) => capture_analysis(data@) == Err::<
                (CaptureFormat, AnalysisView),
                CaptureError,
            >(error),
        },
{
    let mark: [u8; 4] = [0x0a, 0x0d, 0x0d, 0x0a];
    assert(mark@ =~= section_mark());
    if starts_with(data, mark.as_slice()) {
        match analyze_pcapng(data) {
            Ok(analysis) => Ok((CaptureFormat::PcapNg, analysis)),
            Err(error) => Err(error),
        }
    } else {
        match analyze_pcap(data) {
            Ok(analysis) => Ok((CaptureFormat::Pcap, analysis)),
            Err(error) => Err(error),
        }
    }
}

} // verus!
