//! Ethernet frames, IP packets and TCP segments.
use vstd::prelude::*;

verus! {

/// One end of a TCP connection. An IPv4 address stands in the last four of the sixteen bytes.
#[derive(Debug, Clone, Copy, PartialEq, Eq, Hash)]
pub struct Endpoint {
    pub address: [u8; 16],
    pub port: u16,
}

/// The two ends of a TCP connection; the client is the one that was seen sending first.
#[derive(Debug, Clone, Copy, PartialEq, Eq, Hash)]
pub struct FlowKey {
    pub client: Endpoint,
    pub server: Endpoint,
}

/// The direction in which a payload travels.
#[derive(Debug, Clone, Copy, PartialEq, Eq, Structural)]
pub enum Direction {
    ClientToServer,
    ServerToClient,
}

/// How many packets and flows were left out, by reason.
#[derive(Debug, Clone, Copy, PartialEq, Eq, Structural)]
pub struct Exclusions {
    pub non_tcp_packets: u64,
    pub fragmented_packets: u64,
    pub truncated_packets: u64,
    pub unsupported_link_packets: u64,
    pub incomplete_flows: u64,
    pub encrypted_tls_flows: u64,
    pub non_http_flows: u64,
    pub unsupported_http_flows: u64,
    pub http_upgrade_flows: u64,
    pub unsupported_http2_flows: u64,
}

/// Nothing left out.
pub open spec fn no_exclusions() -> Exclusions {
    Exclusions {
        non_tcp_packets: 0,
        fragmented_packets: 0,
        truncated_packets: 0,
        unsupported_link_packets: 0,
        incomplete_flows: 0,
        encrypted_tls_flows: 0,
        non_http_flows: 0,
        unsupported_http_flows: 0,
        http_upgrade_flows: 0,
        unsupported_http2_flows: 0,
    }
}

impl Default for Exclusions {
    fn default() -> (r: Exclusions)
        ensures
            r == no_exclusions(),
    {
        Exclusions {
            non_tcp_packets: 0,
            fragmented_packets: 0,
            truncated_packets: 0,
            unsupported_link_packets: 0,
            incomplete_flows: 0,
            encrypted_tls_flows: 0,
            non_http_flows: 0,
            unsupported_http_flows: 0,
            http_upgrade_flows: 0,
            unsupported_http2_flows: 0,
        }
    }
}

/// Why a packet is left out.
#[derive(Debug, Clone, Copy, PartialEq, Eq, Structural)]
pub enum Skipped {
    NonTcp,
    Fragmented,
    Truncated,
    UnsupportedLink,
}

impl Exclusions {
    /// Each count of packets is below `bound`.
    pub open spec fn packets_below(self, bound: int) -> bool {
        &&& self.non_tcp_packets < bound
        &&& self.fragmented_packets < bound
        &&& self.truncated_packets < bound
        &&& self.unsupported_link_packets < bound
    }

    /// The counts with one more packet left out for a reason.
    pub open spec fn with_packet(self, reason: Skipped) -> Exclusions {
        match reason {
            Skipped::NonTcp => Exclusions {
                non_tcp_packets: (self.non_tcp_packets + 1) as u64,
                ..self
            },
            Skipped::Fragmented => Exclusions {
                fragmented_packets: (self.fragmented_packets + 1) as u64,
                ..self
            },
            Skipped::Truncated => Exclusions {
                truncated_packets: (self.truncated_packets + 1) as u64,
                ..self
            },
            Skipped::UnsupportedLink => Exclusions {
                unsupported_link_packets: (self.unsupported_link_packets + 1) as u64,
                ..self
            },
        }
    }

    /// Counts one more packet left out for a reason.
    pub fn count_packet(&mut self, reason: Skipped)
        requires
            old(self).packets_below(u64::MAX as int),
        ensures
            *final(self) == old(self).with_packet(reason),
    {
        match reason {
            Skipped::NonTcp => {
                self.non_tcp_packets = self.non_tcp_packets + 1;
            },
            Skipped::Fragmented => {
                self.fragmented_packets = self.fragmented_packets + 1;
            },
            Skipped::Truncated => {
                self.truncated_packets = self.truncated_packets + 1;
            },
            Skipped::UnsupportedLink => {
                self.unsupported_link_packets = self.unsupported_link_packets + 1;
            },
        }
    }
}

/// The number that two bytes denote, the most significant first.
pub open spec fn be16(s: Seq<u8>, at: int) -> int {
    s[at] * 0x100 + s[at + 1]
}

/// The number that four bytes denote, the most significant first.
pub open spec fn be32(s: Seq<u8>, at: int) -> int {
    s[at] * 0x100_0000 + s[at + 1] * 0x1_0000 + s[at + 2] * 0x100 + s[at + 3]
}

/// The number that four bytes denote, the least significant first.
pub open spec fn le32(s: Seq<u8>, at: int) -> int {
    s[at] + s[at + 1] * 0x100 + s[at + 2] * 0x1_0000 + s[at + 3] * 0x100_0000
}

/// The number that two bytes denote, the most significant first.
pub fn read_be16(s: &[u8], at: usize) -> (r: u16)
    requires
        at + 2 <= s@.len(),
    ensures
        r == be16(s@, at as int),
{
    s[at] as u16 * 0x100 + s[at + 1] as u16
}

/// The number that four bytes denote, the most significant first.
pub fn read_be32(s: &[u8], at: usize) -> (r: u32)
    requires
        at + 4 <= s@.len(),
    ensures
        r == be32(s@, at as int),
{
    s[at] as u32 * 0x100_0000 + s[at + 1] as u32 * 0x1_0000 + s[at + 2] as u32 * 0x100 + s[at
        + 3] as u32
}

/// The number that four bytes denote, the least significant first.
pub fn read_le32(s: &[u8], at: usize) -> (r: u32)
    requires
        at + 4 <= s@.len(),
    ensures
        r == le32(s@, at as int),
{
    s[at] as u32 + s[at + 1] as u32 * 0x100 + s[at + 2] as u32 * 0x1_0000 + s[at + 3] as u32
        * 0x100_0000
}

/// What a TCP segment says: its ports, its sequence number and its payload.
pub struct TcpView {
    pub source_port: int,
    pub destination_port: int,
    pub sequence: int,
    pub payload: Seq<u8>,
}

/// What a TCP packet says: its addresses and its segment.
pub struct PacketView {
    pub source: Seq<u8>,
    pub destination: Seq<u8>,
    pub tcp: TcpView,
}

/// Reads a TCP segment. The data offset, counted in words of four bytes, is where the payload
/// starts.
pub open spec fn tcp_of(s: Seq<u8>) -> Result<TcpView, Skipped> {
    let header = (s[12] / 16) * 4;
    if s.len() < 20 || header < 20 || s.len() < header {
        Err(Skipped::Truncated)
    } else {
        Ok(
            TcpView {
                source_port: be16(s, 0),
                destination_port: be16(s, 2),
                sequence: be32(s, 4),
                payload: s.subrange(header, s.len() as int),
            },
        )
    }
}

/// A packet with these addresses around what was read of its segment.
pub open spec fn between(
    source: Seq<u8>,
    destination: Seq<u8>,
    tcp: Result<TcpView, Skipped>,
) -> Result<PacketView, Skipped> {
    match tcp {
        Ok(tcp) => Ok(PacketView { source, destination, tcp }),
        Err(reason) => Err(reason),
    }
}

/// An IPv4 address as sixteen bytes.
pub open spec fn wide_address(v4: Seq<u8>) -> Seq<u8> {
    seq![0u8, 0, 0, 0, 0, 0, 0, 0, 0, 0, 0, 0] + v4
}

/// Reads an IPv4 packet. A packet that is a fragment, or has more fragments, is left out
/// before its protocol is looked at.
pub open spec fn ipv4_of(s: Seq<u8>) -> Result<PacketView, Skipped> {
    let header = (s[0] % 16) * 4;
    if s.len() < 20 || header < 20 || s.len() < header {
        Err(Skipped::Truncated)
    } else if be16(s, 6) % 0x4000 != 0 {
        Err(Skipped::Fragmented)
    } else if s[9] != 6 {
        Err(Skipped::NonTcp)
    } else {
        between(
            wide_address(s.subrange(12, 16)),
            wide_address(s.subrange(16, 20)),
            tcp_of(s.subrange(header, s.len() as int)),
        )
    }
}

/// Reads an IPv6 packet whose TCP segment follows the fixed header.
pub open spec fn ipv6_of(s: Seq<u8>) -> Result<PacketView, Skipped> {
    if s.len() < 40 {
        Err(Skipped::Truncated)
    } else if s[6] != 6 {
        Err(Skipped::NonTcp)
    } else {
        between(s.subrange(8, 24), s.subrange(24, 40), tcp_of(s.subrange(40, s.len() as int)))
    }
}

/// Reads an Ethernet frame.
pub open spec fn frame_of(s: Seq<u8>) -> Result<PacketView, Skipped> {
    if s.len() < 14 {
        Err(Skipped::Truncated)
    } else if be16(s, 12) == 0x0800 {
        ipv4_of(s.subrange(14, s.len() as int))
    } else if be16(s, 12) == 0x86dd {
        ipv6_of(s.subrange(14, s.len() as int))
    } else {
        Err(Skipped::UnsupportedLink)
    }
}

/// A TCP segment: its source port, destination port, sequence number and payload.
pub type TcpParts<'a> = (u16, u16, u32, &'a [u8]);

/// A TCP packet: its source address, its destination address and its segment.
pub type ParsedPacket<'a> = ([u8; 16], [u8; 16], TcpParts<'a>);

/// What the parts of a segment stand for.
pub open spec fn tcp_view(parts: TcpParts<'_>) -> TcpView {
    TcpView {
        source_port: parts.0 as int,
        destination_port: parts.1 as int,
        sequence: parts.2 as int,
        payload: parts.3@,
    }
}

/// What the parts of a packet stand for.
pub open spec fn packet_view(packet: ParsedPacket<'_>) -> PacketView {
    PacketView { source: packet.0@, destination: packet.1@, tcp: tcp_view(packet.2) }
}

/// Reads a TCP segment, or counts why it is left out.
pub fn parse_tcp<'a>(segment: &'a [u8], excluded: &mut Exclusions) -> (r: Option<TcpParts<'a>>)
    requires
        old(excluded).packets_below(u64::MAX as int),
    ensures
        match tcp_of(segment@) {
            Ok(tcp) => r is Some && tcp_view(r->0) == tcp && *final(excluded) == *old(excluded),
            Err(reason) => r is None && *final(excluded) == old(excluded).with_packet(reason),
        },
{
    if segment.len() < 20 {
        excluded.count_packet(Skipped::Truncated);
        return None;
    }
    let header: usize = (segment[12] / 16) as usize * 4;
    if header < 20 || segment.len() < header {
        excluded.count_packet(Skipped::Truncated);
        return None;
    }
    Some(
        (
            read_be16(segment, 0),
            read_be16(segment, 2),
            read_be32(segment, 4),
            &segment[header..segment.len()],
        ),
    )
}

/// Reads an IPv4 packet, or counts why it is left out.
pub fn parse_ipv4<'a>(packet: &'a [u8], excluded: &mut Exclusions) -> (r: Option<ParsedPacket<'a>>)
    requires
        old(excluded).packets_below(u64::MAX as int),
    ensures
        match ipv4_of(packet@) {
            Ok(view) => r is Some && packet_view(r->0) == view && *final(excluded) == *old(
                excluded,
            ),
            Err(reason) => r is None && *final(excluded) == old(excluded).with_packet(reason),
        },
{
    if packet.len() < 20 {
        excluded.count_packet(Skipped::Truncated);
        return None;
    }
    let header: usize = (packet[0] % 16) as usize * 4;
    if header < 20 || packet.len() < header {
        excluded.count_packet(Skipped::Truncated);
        return None;
    }
    if read_be16(packet, 6) % 0x4000 != 0 {
        excluded.count_packet(Skipped::Fragmented);
        return None;
    }
    if packet[9] != 6 {
        excluded.count_packet(Skipped::NonTcp);
        return None;
    }
    let source: [u8; 16] = [
        0, 0, 0, 0, 0, 0, 0, 0, 0, 0, 0, 0, packet[12], packet[13], packet[14], packet[15],
    ];
    let destination: [u8; 16] = [
        0, 0, 0, 0, 0, 0, 0, 0, 0, 0, 0, 0, packet[16], packet[17], packet[18], packet[19],
    ];
    assert(source@ =~= wide_address(packet@.subrange(12, 16)));
    assert(destination@ =~= wide_address(packet@.subrange(16, 20)));
    match parse_tcp(&packet[header..packet.len()], excluded) {
        Some(tcp) => Some((source, destination, tcp)),
        None => None,
    }
}

/// Reads an IPv6 packet, or counts why it is left out.
pub fn parse_ipv6<'a>(packet: &'a [u8], excluded: &mut Exclusions) -> (r: Option<ParsedPacket<'a>>)
    requires
        old(excluded).packets_below(u64::MAX as int),
    ensures
        match ipv6_of(packet@) {
            Ok(view) => r is Some && packet_view(r->0) == view && *final(excluded) == *old(
                excluded,
            ),
            Err(reason) => r is None && *final(excluded) == old(excluded).with_packet(reason),
        },
{
    if packet.len() < 40 {
        excluded.count_packet(Skipped::Truncated);
        return None;
    }
    if packet[6] != 6 {
        excluded.count_packet(Skipped::NonTcp);
        return None;
    }
    let source: [u8; 16] = [
        packet[8], packet[9], packet[10], packet[11], packet[12], packet[13], packet[14],
        packet[15], packet[16], packet[17], packet[18], packet[19], packet[20], packet[21],
        packet[22], packet[23],
    ];
    let destination: [u8; 16] = [
        packet[24], packet[25], packet[26], packet[27], packet[28], packet[29], packet[30],
        packet[31], packet[32], packet[33], packet[34], packet[35], packet[36], packet[37],
        packet[38], packet[39],
    ];
    assert(source@ =~= packet@.subrange(8, 24));
    assert(destination@ =~= packet@.subrange(24, 40));
    match parse_tcp(&packet[40..packet.len()], excluded) {
        Some(tcp) => Some((source, destination, tcp)),
        None => None,
    }
}

/// Reads an Ethernet frame, or counts why it is left out.
pub fn parse_frame<'a>(frame: &'a [u8], excluded: &mut Exclusions) -> (r: Option<ParsedPacket<'a>>)
    requires
        old(excluded).packets_below(u64::MAX as int),
    ensures
        match frame_of(frame@) {
            Ok(view) => r is Some && packet_view(r->0) == view && *final(excluded) == *old(
                excluded,
            ),
            Err(reason) => r is None && *final(excluded) == old(excluded).with_packet(reason),
        },
{
    if frame.len() < 14 {
        excluded.count_packet(Skipped::Truncated);
        return None;
    }
    let ether_type: u16 = read_be16(frame, 12);
    if ether_type == 0x0800 {
        parse_ipv4(&frame[14..frame.len()], excluded)
    } else if ether_type == 0x86dd {
        parse_ipv6(&frame[14..frame.len()], excluded)
    } else {
        excluded.count_packet(Skipped::UnsupportedLink);
        None
    }
}

impl View for Endpoint {
    type V = (Seq<u8>, int);

    open spec fn view(&self) -> (Seq<u8>, int) {
        (self.address@, self.port as int)
    }
}

impl View for FlowKey {
    type V = ((Seq<u8>, int), (Seq<u8>, int));

    open spec fn view(&self) -> ((Seq<u8>, int), (Seq<u8>, int)) {
        (self.client@, self.server@)
    }
}

/// Whether two ends are the same.
pub fn same_endpoint(a: &Endpoint, b: &Endpoint) -> (r: bool)
    ensures
        r == (a@ == b@),
{
    if a.port != b.port {
        return false;
    }
    let mut i: usize = 0;
    while i < 16
        invariant
            i <= 16,
            forall|j: int| 0 <= j < i ==> a.address@[j] == b.address@[j],
        decreases 16 - i,
    {
        if a.address[i] != b.address[i] {
            return false;
        }
        i += 1;
    }
    assert(a.address@ =~= b.address@);
    true
}

/// Whether two flow keys are the same.
pub fn same_key(a: &FlowKey, b: &FlowKey) -> (r: bool)
    ensures
        r == (a@ == b@),
{
    same_endpoint(&a.client, &b.client) && same_endpoint(&a.server, &b.server)
}

} // verus!
