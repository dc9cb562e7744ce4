//! A quick count of the packets in a capture.
use crate::bytes::occurs_at;
use crate::capture::analysis::CaptureFormat;
use crate::capture::files::{
    capture_analysis, has_mark, pcap_order, pcap_packets, pcapng_order, pcapng_packets, read_u32,
    section_mark, u16_at, u32_at, wire_bytes, CapturedPacket,
};
use crate::capture::packet::{le32, read_le32};
use crate::capture::segments::wrap64;
use crate::control::error::{bad, ApiError, ApiErrorView};
use crate::text::copy;
use vstd::prelude::*;

verus! {

/// How many packets the blocks from an offset on hold, and how many bytes they had. The count ends
/// at the first block that is not whole.
pub open spec fn block_count(data: Seq<u8>, offset: int) -> (int, int)
    decreases data.len() - offset,
{
    let length = le32(data, offset + 4);
    if offset + 12 > data.len() || length < 12 || offset + length > data.len() {
        (0, 0)
    } else {
        let rest = block_count(data, offset + length);
        if le32(data, offset) == 6 && length >= 32 {
            (rest.0 + 1, rest.1 + le32(data, offset + 20))
        } else {
            rest
        }
    }
}

/// How many packets the records from an offset on hold, and how many bytes they had, unless a
/// record is cut off.
pub open spec fn record_count(data: Seq<u8>, offset: int, little: bool) -> Option<(int, int)>
    decreases data.len() - offset,
{
    if offset + 16 > data.len() {
        Some((0, 0))
    } else {
        let included = u32_at(data, offset + 8, little);
        if included < 0 || offset + 16 + included > data.len() {
            None
        } else {
            match record_count(data, offset + 16 + included, little) {
                Some(rest) => Some((rest.0 + 1, rest.1 + u32_at(data, offset + 12, little))),
                None => None,
            }
        }
    }
}

/// The format of a capture, how many packets it has and how many bytes they had, or what is wrong
/// with it.
pub open spec fn capture_count(data: Seq<u8>) -> Result<(Seq<char>, int, int), ApiErrorView> {
    if data.len() < 12 {
        Err(bad("capture 파일이 너무 작습니다"@))
    } else if data.subrange(0, 4) == seq![0x0au8, 0x0d, 0x0d, 0x0a] {
        Ok(("pcapng"@, block_count(data, 0).0, block_count(data, 0).1))
    } else {
        match pcap_order(data) {
            None => Err(bad("PCAP 또는 PCAPNG 형식이 아닙니다"@)),
            Some(little) => if data.len() < 24 {
                Err(bad("PCAP global header가 잘렸습니다"@))
            } else {
                match record_count(data, 24, little) {
                    None => Err(bad("PCAP packet record가 잘렸습니다"@)),
                    Some(count) => Ok(("pcap"@, count.0, count.1)),
                }
            },
        }
    }
}

/// How many packets the blocks of a capture hold, and how many bytes they had.
fn count_blocks(data: &[u8]) -> (r: (u64, u64))
    ensures
        r.0 == block_count(data@, 0).0,
        r.1 == wrap64(block_count(data@, 0).1),
{
    let size: usize = data.len();
    let mut offset: usize = 0;
    let mut packets: u64 = 0;
    let mut bytes: u64 = 0;
    let ghost mut total: int = 0;
    while size - offset >= 12
        invariant
            size == data@.len(),
            offset <= data@.len(),
            packets <= offset,
            bytes == wrap64(total),
            block_count(data@, 0).0 == packets + block_count(data@, offset as int).0,
            block_count(data@, 0).1 == total + block_count(data@, offset as int).1,
        decreases data@.len() - offset,
    {
        let kind: u32 = read_le32(data, offset);
        let length: u32 = read_le32(data, offset + 4);
        if length < 12 || length as usize > size - offset {
            return (packets, bytes);
        }
        if kind == 6 && length >= 32 {
            let more: u32 = read_le32(data, offset + 20);
            packets += 1;
            bytes = bytes.wrapping_add(more as u64);
            proof {
                total = total + more;
            }
        }
        offset += length as usize;
    }
    (packets, bytes)
}

/// How many packets the records of a capture hold, and how many bytes they had.
fn count_records(data: &[u8], little: bool) -> (r: Option<(u64, u64)>)
    requires
        data@.len() >= 24,
    ensures
        match r {
            Some((packets, bytes)) => {
                &&& record_count(data@, 24, little) is Some
                &&& packets == (record_count(data@, 24, little)->0).0
                &&& bytes == wrap64((record_count(data@, 24, little)->0).1)
            },
            None => record_count(data@, 24, little) is None,
        },
{
    let size: usize = data.len();
    let mut offset: usize = 24;
    let mut packets: u64 = 0;
    let mut bytes: u64 = 0;
    let ghost mut total: int = 0;
    while size - offset >= 16
        invariant
            size == data@.len(),
            24 <= offset <= data@.len(),
            packets <= offset,
            bytes == wrap64(total),
            match record_count(data@, offset as int, little) {
                Some(rest) => record_count(data@, 24, little) == Some(
                    (packets + rest.0, total + rest.1),
                ),
                None => record_count(data@, 24, little) is None,
            },
        decreases data@.len() - offset,
    {
        let included: u32 = read_u32(data, offset + 8, little);
        let original: u32 = read_u32(data, offset + 12, little);
        if included as usize > size - offset - 16 {
            return None;
        }
        packets += 1;
        bytes = bytes.wrapping_add(original as u64);
        proof {
            total = total + original;
        }
        offset += 16 + included as usize;
    }
    Some((packets, bytes))
}

/// The format of a capture, how many packets it has and how many bytes they had. The number of
/// bytes wraps around at 2^64.
pub fn analyze_capture(data: &[u8]) -> (r: Result<(String, u64, u64), ApiError>)
    ensures
        match r {
            Ok((format, packets, bytes)) => {
                &&& capture_count(data@) is Ok
                &&& format@ == (capture_count(data@)->Ok_0).0
                &&& packets == (capture_count(data@)->Ok_0).1
                &&& bytes == wrap64((capture_count(data@)->Ok_0).2)
            },
            Err(error) => capture_count(data@) == Err::<(Seq<char>, int, int), ApiErrorView>(
                error@,
            ),
        },
{
    if data.len() < 12 {
        return Err(ApiError::bad("capture 파일이 너무 작습니다"));
    }
    proof {
        assert([0x0au8, 0x0d, 0x0d, 0x0a]@ =~= seq![0x0au8, 0x0d, 0x0d, 0x0a]);
        assert([0xd4u8, 0xc3, 0xb2, 0xa1]@ =~= seq![0xd4u8, 0xc3, 0xb2, 0xa1]);
        assert([0x4du8, 0x3c, 0xb2, 0xa1]@ =~= seq![0x4du8, 0x3c, 0xb2, 0xa1]);
        assert([0xa1u8, 0xb2, 0xc3, 0xd4]@ =~= seq![0xa1u8, 0xb2, 0xc3, 0xd4]);
        assert([0xa1u8, 0xb2, 0x3c, 0x4d]@ =~= seq![0xa1u8, 0xb2, 0x3c, 0x4d]);
    }
    if has_mark(data, 0, [0x0a, 0x0d, 0x0d, 0x0a]) {
        let (packets, bytes) = count_blocks(data);
        return Ok((copy("pcapng"), packets, bytes));
    }
    let little: bool = has_mark(data, 0, [0xd4, 0xc3, 0xb2, 0xa1]) || has_mark(
        data,
        0,
        [0x4d, 0x3c, 0xb2, 0xa1],
    );
    let big: bool = has_mark(data, 0, [0xa1, 0xb2, 0xc3, 0xd4]) || has_mark(
        data,
        0,
        [0xa1, 0xb2, 0x3c, 0x4d],
    );
    if !little && !big {
        return Err(ApiError::bad("PCAP 또는 PCAPNG 형식이 아닙니다"));
    }
    if data.len() < 24 {
        return Err(ApiError::bad("PCAP global header가 잘렸습니다"));
    }
    match count_records(data, little) {
        Some((packets, bytes)) => Ok((copy("pcap"), packets, bytes)),
        None => Err(ApiError::bad("PCAP packet record가 잘렸습니다")),
    }
}

proof fn records_are_packets(data: Seq<u8>, offset: int, little: bool)
    requires
        0 <= offset,
        pcap_packets(data, offset, little) is Some,
    ensures
        ({
            let packets = pcap_packets(data, offset, little)->0;
            record_count(data, offset, little) == Some(
                (packets.len() as int, wire_bytes(packets)),
            )
        }),
    decreases data.len() - offset,
{
    if offset < data.len() {
        let included = u32_at(data, offset + 8, little);
        records_are_packets(data, offset + 16 + included, little);
        let rest = pcap_packets(data, offset + 16 + included, little)->0;
        let packets = pcap_packets(data, offset, little)->0;
        bytes_of_the_first(packets[0], rest);
    }
}

proof fn bytes_of_the_first(first: CapturedPacket, rest: Seq<CapturedPacket>)
    ensures
        wire_bytes(seq![first] + rest) == first.original + wire_bytes(rest),
    decreases rest.len(),
{
    let all = seq![first] + rest;
    if rest.len() > 0 {
        bytes_of_the_first(first, rest.drop_last());
        assert(all.drop_last() =~= seq![first] + rest.drop_last());
    } else {
        assert(all.drop_last() =~= Seq::<CapturedPacket>::empty());
        assert(rest =~= Seq::<CapturedPacket>::empty());
    }
}

proof fn blocks_are_packets(data: Seq<u8>, offset: int, interfaces: Seq<int>)
    requires
        0 <= offset,
        pcapng_packets(data, offset, true, interfaces) is Some,
    ensures
        block_count(data, offset).0 == pcapng_packets(data, offset, true, interfaces)->0.len(),
    decreases data.len() - offset,
{
    if offset < data.len() {
        let kind = u32_at(data, offset, true);
        let length = u32_at(data, offset + 4, true);
        if kind == 1 && length >= 20 {
            blocks_are_packets(
                data,
                offset + length,
                interfaces.push(u16_at(data, offset + 8, true)),
            );
        } else {
            blocks_are_packets(data, offset + length, interfaces);
        }
    }
}

/// What is counted when a capture is uploaded is what is read when it is analysed: as many packets,
/// and for PCAP as many bytes on the wire. PCAPNG is counted as if its numbers had their least byte
/// first, so this holds where they do.
pub proof fn counts_agree_with_the_analysis(data: Seq<u8>)
    requires
        capture_analysis(data) is Ok,
        capture_count(data) is Ok,
        occurs_at(data, section_mark(), 0) ==> pcapng_order(data) == Some(true),
    ensures
        ({
            let (format, analysis) = capture_analysis(data)->Ok_0;
            let (name, packets, bytes) = capture_count(data)->Ok_0;
            &&& packets == analysis.packet_count
            &&& format == CaptureFormat::Pcap ==> name == "pcap"@ && wrap64(bytes)
                == analysis.captured_bytes
            &&& format == CaptureFormat::PcapNg ==> name == "pcapng"@
        }),
{
    let mark = section_mark();
    assert(data.subrange(0, 4) == seq![0x0au8, 0x0d, 0x0d, 0x0a] <==> occurs_at(data, mark, 0));
    if occurs_at(data, mark, 0) {
        blocks_are_packets(data, 0, Seq::empty());
    } else {
        records_are_packets(data, 24, pcap_order(data)->0);
    }
}

} // verus!
