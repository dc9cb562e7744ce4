//! What packets are made of, layer by layer, is what is read of them.
use crate::capture::files::{pcap_order, pcapng_order, u16_at, u32_at};
use crate::capture::packet::{frame_of, ipv4_of, ipv6_of, tcp_of, PacketView, Skipped, TcpView};
use vstd::prelude::*;

verus! {

/// A TCP header without options: twenty bytes, whose data offset leaves room for `words` words of
/// options.
pub open spec fn is_tcp_header(header: Seq<u8>, words: int) -> bool {
    header.len() == 20 && 16 * (5 + words) <= header[12] < 16 * (6 + words)
}

/// Two bytes are a number, the most significant first.
pub open spec fn is_number(bytes: Seq<u8>, n: int) -> bool {
    bytes.len() == 2 && 0 <= n < 65536 && bytes[1] == n % 256 && bytes[0] == n / 256
}

/// A segment made of a header, options and a payload is read as that payload, with the ports and
/// the sequence number of the header: the options are no part of what is read.
pub proof fn segments_are_read(header: Seq<u8>, options: Seq<u8>, payload: Seq<u8>)
    requires
        options.len() % 4 == 0,
        is_tcp_header(header, options.len() as int / 4),
    ensures
        tcp_of(header + options + payload) == Ok::<TcpView, Skipped>(
            TcpView {
                source_port: 256 * header[0] + header[1],
                destination_port: 256 * header[2] + header[3],
                sequence: 256 * (256 * (256 * header[4] + header[5]) + header[6]) + header[7],
                payload,
            },
        ),
{
    let s = header + options + payload;
    let at = 20 + options.len();
    assert(s.subrange(at as int, s.len() as int) =~= payload);
    assert(s[12] == header[12]);
    assert((s[12] / 16) * 4 == at);
}

/// Two segments that differ only in their options, and in the data offset for them, are read alike.
pub proof fn options_do_not_matter(
    one: Seq<u8>,
    other: Seq<u8>,
    some: Seq<u8>,
    more: Seq<u8>,
    payload: Seq<u8>,
)
    requires
        some.len() % 4 == 0,
        more.len() % 4 == 0,
        is_tcp_header(one, some.len() as int / 4),
        is_tcp_header(other, more.len() as int / 4),
        forall|i: int| 0 <= i < 8 ==> one[i] == #[trigger] other[i],
    ensures
        tcp_of(one + some + payload) == tcp_of(other + more + payload),
        tcp_of(one + some + payload) is Ok,
{
    segments_are_read(one, some, payload);
    segments_are_read(other, more, payload);
    assert(one[0] == other[0] && one[1] == other[1] && one[2] == other[2] && one[3] == other[3]);
    assert(one[4] == other[4] && one[5] == other[5] && one[6] == other[6] && one[7] == other[7]);
}

/// A segment is left out as truncated exactly if it is shorter than a header, or than its header
/// says that it is, or its header says that it is shorter than one.
pub proof fn short_segments_are_left_out(s: Seq<u8>)
    ensures
        tcp_of(s) is Err <==> s.len() < 20 || s[12] < 80 || 4 * (s[12] / 16) > s.len(),
        tcp_of(s) is Err ==> tcp_of(s)->Err_0 == Skipped::Truncated,
{
}

/// An IPv4 header without options: twenty bytes, whose length leaves room for `words` words of
/// options, of a packet in one piece that carries TCP.
pub open spec fn is_ipv4_header(header: Seq<u8>, words: int) -> bool {
    &&& header.len() == 20
    &&& header[0] % 16 == 5 + words
    &&& header[6] % 64 == 0
    &&& header[7] == 0
    &&& header[9] == 6
}

/// An IPv4 packet made of a header, options and a segment is read as that segment between the
/// addresses of the header: those are its fourth and fifth word, and fill the end of the sixteen
/// bytes of an address.
pub proof fn ipv4_packets_are_read(header: Seq<u8>, options: Seq<u8>, segment: Seq<u8>)
    requires
        options.len() % 4 == 0,
        is_ipv4_header(header, options.len() as int / 4),
    ensures
        match (ipv4_of(header + options + segment), tcp_of(segment)) {
            (Ok(packet), Ok(tcp)) => {
                &&& packet.tcp == tcp
                &&& packet.source.len() == 16
                &&& packet.destination.len() == 16
                &&& forall|i: int| 0 <= i < 12 ==> #[trigger] packet.source[i] == 0
                &&& forall|i: int| 0 <= i < 12 ==> #[trigger] packet.destination[i] == 0
                &&& forall|i: int| 0 <= i < 4 ==> packet.source[12 + i] == #[trigger] header[12 + i]
                &&& forall|i: int|
                    0 <= i < 4 ==> packet.destination[12 + i] == #[trigger] header[16 + i]
            },
            (Err(a), Err(b)) => a == b,
            _ => false,
        },
{
    let s = header + options + segment;
    let at = 20 + options.len();
    assert(s.subrange(at as int, s.len() as int) =~= segment);
    assert(s.subrange(12, 16) =~= header.subrange(12, 16));
    assert(s.subrange(16, 20) =~= header.subrange(16, 20));
    assert(s[0] == header[0] && s[6] == header[6] && s[7] == header[7] && s[9] == header[9]);
}

/// What becomes of an IPv4 packet that carries no TCP, or only a part of it.
pub proof fn other_ipv4_packets_are_left_out(s: Seq<u8>)
    requires
        s.len() >= 60,
        s[0] % 16 >= 5,
    ensures
        s[6] % 64 != 0 || s[7] != 0 ==> ipv4_of(s) == Err::<PacketView, Skipped>(
            Skipped::Fragmented,
        ),
        s[6] % 64 == 0 && s[7] == 0 && s[9] != 6 ==> ipv4_of(s) == Err::<PacketView, Skipped>(
            Skipped::NonTcp,
        ),
{
}

/// An IPv6 packet made of a header that announces TCP and a segment is read as that segment
/// between the addresses of the header.
pub proof fn ipv6_packets_are_read(
    start: Seq<u8>,
    source: Seq<u8>,
    destination: Seq<u8>,
    segment: Seq<u8>,
)
    requires
        start.len() == 8,
        start[6] == 6,
        source.len() == 16,
        destination.len() == 16,
    ensures
        match (ipv6_of(start + source + destination + segment), tcp_of(segment)) {
            (Ok(packet), Ok(tcp)) => packet.tcp == tcp && packet.source == source
                && packet.destination == destination,
            (Err(a), Err(b)) => a == b,
            _ => false,
        },
{
    let s = start + source + destination + segment;
    assert(s.subrange(8, 24) =~= source);
    assert(s.subrange(24, 40) =~= destination);
    assert(s.subrange(40, s.len() as int) =~= segment);
    assert(s[6] == start[6]);
}

/// An Ethernet frame made of two hardware addresses, a type and a packet is read as that packet, by
/// the version of IP that the type says; the hardware addresses do not matter.
pub proof fn frames_are_read(addresses: Seq<u8>, kind: Seq<u8>, packet: Seq<u8>)
    requires
        addresses.len() == 12,
        kind.len() == 2,
    ensures
        is_number(kind, 0x0800) ==> frame_of(addresses + kind + packet) == ipv4_of(packet),
        is_number(kind, 0x86dd) ==> frame_of(addresses + kind + packet) == ipv6_of(packet),
        !is_number(kind, 0x0800) && !is_number(kind, 0x86dd) ==> frame_of(
            addresses + kind + packet,
        ) == Err::<PacketView, Skipped>(Skipped::UnsupportedLink),
{
    let s = addresses + kind + packet;
    assert(s.subrange(14, s.len() as int) =~= packet);
    assert(s[12] == kind[0] && s[13] == kind[1]);
}

/// A capture file is read in the byte order in which its first four bytes are the number that marks
/// such files, with time stamps in microseconds or nanoseconds, and in no other.
pub proof fn pcap_files_tell_their_byte_order(data: Seq<u8>, little: bool)
    requires
        data.len() >= 4,
    ensures
        pcap_order(data) == Some(little) <==> u32_at(data, 0, little) == 0xa1b2_c3d4 || u32_at(
            data,
            0,
            little,
        ) == 0xa1b2_3c4d,
{
    let magic = data.subrange(0, 4);
    assert(magic[0] == data[0] && magic[1] == data[1] && magic[2] == data[2] && magic[3]
        == data[3]);
    let a = seq![0xd4u8, 0xc3, 0xb2, 0xa1];
    let b = seq![0x4du8, 0x3c, 0xb2, 0xa1];
    let c = seq![0xa1u8, 0xb2, 0xc3, 0xd4];
    let d = seq![0xa1u8, 0xb2, 0x3c, 0x4d];
    assert(magic =~= a <==> data[0] == 0xd4 && data[1] == 0xc3 && data[2] == 0xb2 && data[3]
        == 0xa1);
    assert(magic =~= b <==> data[0] == 0x4d && data[1] == 0x3c && data[2] == 0xb2 && data[3]
        == 0xa1);
    assert(magic =~= c <==> data[0] == 0xa1 && data[1] == 0xb2 && data[2] == 0xc3 && data[3]
        == 0xd4);
    assert(magic =~= d <==> data[0] == 0xa1 && data[1] == 0xb2 && data[2] == 0x3c && data[3]
        == 0x4d);
}

/// A file of blocks is read in the byte order in which the number behind the length of its first
/// block is the mark of its byte order.
pub proof fn pcapng_files_tell_their_byte_order(data: Seq<u8>, little: bool)
    requires
        data.len() >= 12,
    ensures
        pcapng_order(data) == Some(little) <==> u32_at(data, 8, little) == 0x1a2b_3c4d,
{
    let magic = data.subrange(8, 12);
    assert(magic[0] == data[8] && magic[1] == data[9] && magic[2] == data[10] && magic[3]
        == data[11]);
    let a = seq![0x4du8, 0x3c, 0x2b, 0x1a];
    let b = seq![0x1au8, 0x2b, 0x3c, 0x4d];
    assert(magic =~= a <==> data[8] == 0x4d && data[9] == 0x3c && data[10] == 0x2b && data[11]
        == 0x1a);
    assert(magic =~= b <==> data[8] == 0x1a && data[9] == 0x2b && data[10] == 0x3c && data[11]
        == 0x4d);
}

/// The same bytes in the opposite order are the same number in the opposite byte order.
pub proof fn byte_orders_mirror_each_other(a: u8, b: u8, c: u8, d: u8)
    ensures
        u32_at(seq![a, b, c, d], 0, true) == u32_at(seq![d, c, b, a], 0, false),
        u32_at(seq![a, b, c, d], 0, true) == a + 256 * (b + 256 * (c + 256 * d)),
        u16_at(seq![a, b], 0, true) == u16_at(seq![b, a], 0, false),
        u16_at(seq![a, b], 0, true) == a + 256 * b,
{
}

} // verus!
