//! The analysis of a whole capture.
use crate::bytes::{
    ascii, ascii_bytes, find, find_from, occurs_at, same_ignoring_case, starts_with,
};
use crate::capture::flows::{record_views, EndView, FlowRecord, FlowRecordView};
use crate::capture::http::{
    extract_http_transactions, http2_views, transaction_views, transactions, Http2Transaction,
    HttpTransaction,
};
use crate::capture::http2::{
    extract_http2_transactions, http2_transactions, preface, starts_as_http2,
};
use crate::capture::packet::{Direction, Exclusions, FlowKey};
use crate::capture::segments::{
    build_turns, reassemble, reassembled, turn_views, turns_of, wrap64, ReplayTurn,
};
use crate::text::{copy, decimal, push_decimal};
use vstd::prelude::*;

verus! {

/// A TCP connection whose two streams are complete.
#[derive(Debug, Clone, PartialEq, Eq)]
pub struct ReassembledFlow {
    pub key: FlowKey,
    pub client_to_server: Vec<u8>,
    pub server_to_client: Vec<u8>,
    pub retransmitted_bytes: u64,
    pub turns: Vec<ReplayTurn>,
    pub http_transactions: Vec<HttpTransaction>,
    pub http2_transactions: Vec<Http2Transaction>,
}

/// The file format of a capture.
#[derive(Debug, Clone, Copy, PartialEq, Eq, Structural)]
pub enum CaptureFormat {
    Pcap,
    PcapNg,
}

/// What a capture holds.
#[derive(Debug, Clone, PartialEq, Eq)]
pub struct CaptureAnalysis {
    pub packet_count: u64,
    pub captured_bytes: u64,
    pub flows: Vec<ReassembledFlow>,
    pub exclusions: Exclusions,
}

/// Why a capture cannot be read.
#[derive(Debug, Clone, Copy, PartialEq, Eq, Structural)]
pub enum CaptureError {
    /// The capture ends in the middle of a header or a packet.
    Truncated,
    /// The capture is in no known format.
    UnsupportedFormat,
    /// The capture is of a link other than Ethernet.
    UnsupportedLinkType(u32),
}

impl CaptureError {
    /// The message.
    pub open spec fn text(&self) -> Seq<char> {
        match self {
            CaptureError::Truncated => "capture is truncated"@,
            CaptureError::UnsupportedFormat => "unsupported capture format"@,
            CaptureError::UnsupportedLinkType(link) => "unsupported PCAP link type "@ + decimal(
                *link as int,
            ),
        }
    }

    /// The message.
    pub fn message(&self) -> (r: String)
        ensures
            r@ == self.text(),
    {
        match self {
            CaptureError::Truncated => copy("capture is truncated"),
            CaptureError::UnsupportedFormat => copy("unsupported capture format"),
            CaptureError::UnsupportedLinkType(link) => {
                let mut text = copy("unsupported PCAP link type ");
                push_decimal(&mut text, *link as u64);
                text
            },
        }
    }
}

/// What a complete flow is.
#[verifier::ext_equal]
pub struct FlowView {
    pub key: (EndView, EndView),
    pub client_to_server: Seq<u8>,
    pub server_to_client: Seq<u8>,
    pub retransmitted_bytes: int,
    pub turns: Seq<(Direction, Seq<u8>)>,
    pub http_transactions: Seq<(Seq<u8>, Seq<u8>)>,
    pub http2_transactions: Seq<(Seq<u8>, Seq<u8>)>,
}

impl View for ReassembledFlow {
    type V = FlowView;

    open spec fn view(&self) -> FlowView {
        FlowView {
            key: self.key@,
            client_to_server: self.client_to_server@,
            server_to_client: self.server_to_client@,
            retransmitted_bytes: self.retransmitted_bytes as int,
            turns: turn_views(self.turns@),
            http_transactions: transaction_views(self.http_transactions@),
            http2_transactions: http2_views(self.http2_transactions@),
        }
    }
}

/// What a list of complete flows holds.
pub open spec fn flow_views(flows: Seq<ReassembledFlow>) -> Seq<FlowView> {
    flows.map_values(|f: ReassembledFlow| f@)
}

/// What the analysis of a capture says.
#[verifier::ext_equal]
pub struct AnalysisView {
    pub packet_count: int,
    pub captured_bytes: int,
    pub flows: Seq<FlowView>,
    pub exclusions: Exclusions,
}

impl View for CaptureAnalysis {
    type V = AnalysisView;

    open spec fn view(&self) -> AnalysisView {
        AnalysisView {
            packet_count: self.packet_count as int,
            captured_bytes: self.captured_bytes as int,
            flows: flow_views(self.flows@),
            exclusions: self.exclusions,
        }
    }
}

/// A stream starts with the header of a TLS record.
pub open spec fn is_tls(s: Seq<u8>) -> bool {
    s.len() >= 5 && 0x14 <= s[0] <= 0x17 && s[1] == 0x03 && s[2] <= 0x04
}

/// `needle` stands somewhere in `haystack`, up to the case of ASCII letters.
pub open spec fn contains_ignoring_case(haystack: Seq<u8>, needle: Seq<u8>) -> bool {
    exists|i: int|
        0 <= i <= haystack.len() - needle.len() && same_ignoring_case(
            #[trigger] haystack.subrange(i, i + needle.len()),
            needle,
        )
}

/// A stream asks for an upgrade of the connection, or grants one.
pub open spec fn mentions_upgrade(s: Seq<u8>) -> bool {
    contains_ignoring_case(s, ascii("upgrade:"@)) || contains_ignoring_case(
        s,
        ascii("connection: upgrade"@),
    )
}

/// A stream of requests that could be HTTP.
pub open spec fn mentions_http(s: Seq<u8>) -> bool {
    occurs_at(s, ascii("HTTP/"@), 0) || find_from(s, ascii(" HTTP/"@), 0) is Some
}

/// What becomes of a flow.
#[derive(Debug, Clone, Copy, PartialEq, Eq, Structural)]
pub enum FlowClass {
    /// One direction is empty or has gaps: the flow is left out.
    Incomplete,
    /// The flow carries TLS records: it is left out.
    EncryptedTls,
    /// The flow consists of HTTP transactions.
    Http,
    /// The flow is kept without transactions: it is not HTTP.
    NonHttp,
    /// The flow is kept without transactions: it changes protocols.
    HttpUpgrade,
    /// The flow is kept without transactions: its messages do not all say where they end, or
    /// do not pair up.
    UnsupportedHttp,
    /// The flow consists of HTTP/2 transactions.
    Http2,
    /// The flow is kept without transactions: it is HTTP/2, but its frames cannot be followed or
    /// its streams are not all complete.
    UnsupportedHttp2,
}

/// What becomes of a flow with these two streams. The reasons are tried in this order.
pub open spec fn class_of(client: Seq<u8>, server: Seq<u8>, gap: bool) -> FlowClass {
    if client.len() == 0 || server.len() == 0 || gap {
        FlowClass::Incomplete
    } else if is_tls(client) || is_tls(server) {
        FlowClass::EncryptedTls
    } else if occurs_at(client, preface(), 0) {
        if http2_transactions(client, server) is Some {
            FlowClass::Http2
        } else {
            FlowClass::UnsupportedHttp2
        }
    } else if transactions(client, server) is Some {
        FlowClass::Http
    } else if !mentions_http(client) {
        FlowClass::NonHttp
    } else if mentions_upgrade(client) || mentions_upgrade(server) {
        FlowClass::HttpUpgrade
    } else {
        FlowClass::UnsupportedHttp
    }
}

/// What becomes of a recorded flow.
pub open spec fn record_class(record: FlowRecordView) -> FlowClass {
    let client = reassembled(record.segments.client);
    let server = reassembled(record.segments.server);
    class_of(client.output, server.output, client.gap || server.gap)
}

/// The complete flow that a recorded flow makes.
pub open spec fn flow_of_record(record: FlowRecordView) -> FlowView {
    let client = reassembled(record.segments.client);
    let server = reassembled(record.segments.server);
    FlowView {
        key: record.key,
        client_to_server: client.output,
        server_to_client: server.output,
        retransmitted_bytes: wrap64(
            record.segments.duplicate_bytes + client.duplicate + server.duplicate,
        ),
        turns: turns_of(record.segments.events),
        http_transactions: match transactions(client.output, server.output) {
            Some(list) if record_class(record) == FlowClass::Http => list,
            _ => Seq::empty(),
        },
        http2_transactions: match http2_transactions(client.output, server.output) {
            Some(list) if record_class(record) == FlowClass::Http2 => list,
            _ => Seq::empty(),
        },
    }
}

/// The complete flows among the first `n` recorded ones, in order.
pub open spec fn complete_flows(records: Seq<FlowRecordView>, n: int) -> Seq<FlowView>
    decreases n,
{
    if n <= 0 {
        Seq::empty()
    } else {
        match record_class(records[n - 1]) {
            FlowClass::Incomplete => complete_flows(records, n - 1),
            FlowClass::EncryptedTls => complete_flows(records, n - 1),
            _ => complete_flows(records, n - 1).push(flow_of_record(records[n - 1])),
        }
    }
}

/// How many of the first `n` recorded flows are of a class.
pub open spec fn count_class(records: Seq<FlowRecordView>, n: int, class: FlowClass) -> int
    decreases n,
{
    if n <= 0 {
        0
    } else {
        count_class(records, n - 1, class) + if record_class(records[n - 1]) == class {
            1int
        } else {
            0
        }
    }
}

/// The counts with those of the first `n` recorded flows added.
pub open spec fn with_flows(e: Exclusions, records: Seq<FlowRecordView>, n: int) -> Exclusions {
    Exclusions {
        incomplete_flows: (e.incomplete_flows + count_class(
            records,
            n,
            FlowClass::Incomplete,
        )) as u64,
        encrypted_tls_flows: (e.encrypted_tls_flows + count_class(
            records,
            n,
            FlowClass::EncryptedTls,
        )) as u64,
        non_http_flows: (e.non_http_flows + count_class(records, n, FlowClass::NonHttp)) as u64,
        unsupported_http_flows: (e.unsupported_http_flows + count_class(
            records,
            n,
            FlowClass::UnsupportedHttp,
        )) as u64,
        http_upgrade_flows: (e.http_upgrade_flows + count_class(
            records,
            n,
            FlowClass::HttpUpgrade,
        )) as u64,
        unsupported_http2_flows: (e.unsupported_http2_flows + count_class(
            records,
            n,
            FlowClass::UnsupportedHttp2,
        )) as u64,
        ..e
    }
}

proof fn count_class_bounds(records: Seq<FlowRecordView>, n: int, class: FlowClass)
    requires
        0 <= n,
    ensures
        0 <= count_class(records, n, class) <= n,
    decreases n,
{
    if n > 0 {
        count_class_bounds(records, n - 1, class);
    }
}

/// Every recorded flow is kept, incomplete or encrypted, and none is two of these.
pub proof fn flows_are_accounted_for(records: Seq<FlowRecordView>, n: int)
    requires
        0 <= n <= records.len(),
    ensures
        complete_flows(records, n).len() + count_class(records, n, FlowClass::Incomplete)
            + count_class(records, n, FlowClass::EncryptedTls) == n,
    decreases n,
{
    if n > 0 {
        flows_are_accounted_for(records, n - 1);
    }
}

/// No kept flow has an empty stream or starts with a TLS record, and its transactions, where it
/// has any, make up its two streams.
pub proof fn kept_flows_are_complete(records: Seq<FlowRecordView>, n: int, i: int)
    requires
        0 <= n <= records.len(),
        0 <= i < complete_flows(records, n).len(),
    ensures
        complete_flows(records, n)[i].client_to_server.len() > 0,
        complete_flows(records, n)[i].server_to_client.len() > 0,
        !is_tls(complete_flows(records, n)[i].client_to_server),
        !is_tls(complete_flows(records, n)[i].server_to_client),
        ({
            let flow = complete_flows(records, n)[i];
            let list = flow.http_transactions;
            list.len() > 0 ==> transactions(flow.client_to_server, flow.server_to_client) == Some(
                list,
            )
        }),
        ({
            let flow = complete_flows(records, n)[i];
            let list = flow.http2_transactions;
            list.len() > 0 ==> http2_transactions(flow.client_to_server, flow.server_to_client)
                == Some(list)
        }),
        complete_flows(records, n)[i].http_transactions.len() == 0 || complete_flows(
            records,
            n,
        )[i].http2_transactions.len() == 0,
    decreases n,
{
    if n > 0 {
        let before = complete_flows(records, n - 1);
        if i < before.len() {
            kept_flows_are_complete(records, n - 1, i);
        }
    }
}

/// Whether a stream starts with the header of a TLS record.
pub fn looks_like_tls(data: &[u8]) -> (r: bool)
    ensures
        r == is_tls(data@),
{
    data.len() >= 5 && 0x14 <= data[0] && data[0] <= 0x17 && data[1] == 0x03 && data[2] <= 0x04
}

/// Whether `needle` stands somewhere in `haystack`, up to the case of ASCII letters.
pub fn contains_ascii_case_insensitive(haystack: &[u8], needle: &[u8]) -> (r: bool)
    requires
        needle@.len() > 0,
    ensures
        r == contains_ignoring_case(haystack@, needle@),
{
    if needle.len() > haystack.len() {
        return false;
    }
    let last: usize = haystack.len() - needle.len();
    let mut i: usize = 0;
    loop
        invariant
            last + needle@.len() == haystack@.len() <= usize::MAX,
            i <= last,
            forall|j: int|
                0 <= j < i ==> !same_ignoring_case(
                    #[trigger] haystack@.subrange(j, j + needle@.len()),
                    needle@,
                ),
        decreases last - i,
    {
        let window: &[u8] = &haystack[i..i + needle.len()];
        if crate::bytes::eq_ignore_case(window, needle) {
            assert(same_ignoring_case(haystack@.subrange(i as int, i + needle@.len()), needle@));
            return true;
        }
        if i == last {
            return false;
        }
        i += 1;
    }
}

/// Whether a stream asks for an upgrade of the connection, or grants one.
fn has_upgrade(s: &[u8]) -> (r: bool)
    ensures
        r == mentions_upgrade(s@),
{
    proof {
        reveal_strlit("upgrade:");
        reveal_strlit("connection: upgrade");
    }
    contains_ascii_case_insensitive(s, ascii_bytes("upgrade:")) || contains_ascii_case_insensitive(
        s,
        ascii_bytes("connection: upgrade"),
    )
}

/// What becomes of a flow with these two streams, and its transactions where it has any.
fn classify(client: &[u8], server: &[u8], gap: bool) -> (r: (
    FlowClass,
    Vec<HttpTransaction>,
    Vec<Http2Transaction>,
))
    ensures
        r.0 == class_of(client@, server@, gap),
        r.0 == FlowClass::Http ==> Some(transaction_views(r.1@)) == transactions(client@, server@),
        r.0 != FlowClass::Http ==> r.1@.len() == 0,
        r.0 == FlowClass::Http2 ==> Some(http2_views(r.2@)) == http2_transactions(client@, server@),
        r.0 != FlowClass::Http2 ==> r.2@.len() == 0,
{
    let none: Vec<HttpTransaction> = Vec::new();
    let none2: Vec<Http2Transaction> = Vec::new();
    if client.len() == 0 || server.len() == 0 || gap {
        return (FlowClass::Incomplete, none, none2);
    }
    if looks_like_tls(client) || looks_like_tls(server) {
        return (FlowClass::EncryptedTls, none, none2);
    }
    if starts_as_http2(client) {
        return match extract_http2_transactions(client, server) {
            Some(list) => (FlowClass::Http2, none, list),
            None => (FlowClass::UnsupportedHttp2, none, none2),
        };
    }
    proof {
        reveal_strlit("HTTP/");
        reveal_strlit(" HTTP/");
    }
    match extract_http_transactions(client, server) {
        Some(list) => (FlowClass::Http, list, none2),
        None => if !starts_with(client, ascii_bytes("HTTP/")) && find(
            client,
            ascii_bytes(" HTTP/"),
            0,
        ).is_none() {
            (FlowClass::NonHttp, none, none2)
        } else if has_upgrade(client) || has_upgrade(server) {
            (FlowClass::HttpUpgrade, none, none2)
        } else {
            (FlowClass::UnsupportedHttp, none, none2)
        },
    }
}

/// What becomes of a recorded flow, and the complete flow that it makes if it is kept.
fn conclude(record: &FlowRecord) -> (r: (FlowClass, Option<ReassembledFlow>))
    ensures
        r.0 == record_class(record@),
        match r.1 {
            Some(flow) => r.0 != FlowClass::Incomplete && r.0 != FlowClass::EncryptedTls && flow@
                == flow_of_record(record@),
            None => r.0 == FlowClass::Incomplete || r.0 == FlowClass::EncryptedTls,
        },
{
    let (client, client_dup, client_gap) = reassemble(&record.segments.client);
    let (server, server_dup, server_gap) = reassemble(&record.segments.server);
    let (class, list, list2) = classify(
        client.as_slice(),
        server.as_slice(),
        client_gap || server_gap,
    );
    match class {
        FlowClass::Incomplete => (class, None),
        FlowClass::EncryptedTls => (class, None),
        _ => {
            assert(list@.len() == 0 ==> transaction_views(list@) =~= Seq::empty());
            assert(list2@.len() == 0 ==> http2_views(list2@) =~= Seq::empty());
            let again: u64 = record.segments.duplicate_bytes.wrapping_add(client_dup).wrapping_add(
                server_dup,
            );
            let turns = build_turns(&record.segments.events);
            let flow = ReassembledFlow {
                key: record.key,
                client_to_server: client,
                server_to_client: server,
                retransmitted_bytes: again,
                turns,
                http_transactions: list,
                http2_transactions: list2,
            };
            assert(flow@ =~= flow_of_record(record@));
            (class, Some(flow))
        },
    }
}

/// The counts with one more flow of a class.
pub open spec fn with_flow(e: Exclusions, class: FlowClass) -> Exclusions {
    match class {
        FlowClass::Incomplete => Exclusions {
            incomplete_flows: (e.incomplete_flows + 1) as u64,
            ..e
        },
        FlowClass::EncryptedTls => Exclusions {
            encrypted_tls_flows: (e.encrypted_tls_flows + 1) as u64,
            ..e
        },
        FlowClass::Http | FlowClass::Http2 => e,
        FlowClass::NonHttp => Exclusions { non_http_flows: (e.non_http_flows + 1) as u64, ..e },
        FlowClass::HttpUpgrade => Exclusions {
            http_upgrade_flows: (e.http_upgrade_flows + 1) as u64,
            ..e
        },
        FlowClass::UnsupportedHttp => Exclusions {
            unsupported_http_flows: (e.unsupported_http_flows + 1) as u64,
            ..e
        },
        FlowClass::UnsupportedHttp2 => Exclusions {
            unsupported_http2_flows: (e.unsupported_http2_flows + 1) as u64,
            ..e
        },
    }
}

/// Each count of flows is at most `bound`.
pub open spec fn flows_within(e: Exclusions, bound: int) -> bool {
    &&& e.incomplete_flows <= bound
    &&& e.encrypted_tls_flows <= bound
    &&& e.non_http_flows <= bound
    &&& e.unsupported_http_flows <= bound
    &&& e.http_upgrade_flows <= bound
    &&& e.unsupported_http2_flows <= bound
}

/// Counts one more flow of a class.
fn count_flow(e: &mut Exclusions, class: FlowClass)
    requires
        flows_within(*old(e), u64::MAX - 1),
    ensures
        *final(e) == with_flow(*old(e), class),
{
    match class {
        FlowClass::Incomplete => {
            e.incomplete_flows = e.incomplete_flows + 1;
        },
        FlowClass::EncryptedTls => {
            e.encrypted_tls_flows = e.encrypted_tls_flows + 1;
        },
        FlowClass::Http | FlowClass::Http2 => {},
        FlowClass::NonHttp => {
            e.non_http_flows = e.non_http_flows + 1;
        },
        FlowClass::HttpUpgrade => {
            e.http_upgrade_flows = e.http_upgrade_flows + 1;
        },
        FlowClass::UnsupportedHttp => {
            e.unsupported_http_flows = e.unsupported_http_flows + 1;
        },
        FlowClass::UnsupportedHttp2 => {
            e.unsupported_http2_flows = e.unsupported_http2_flows + 1;
        },
    }
}

proof fn with_flows_step(e: Exclusions, records: Seq<FlowRecordView>, n: int)
    requires
        0 <= n < records.len(),
        flows_within(e, u64::MAX - records.len()),
    ensures
        flows_within(with_flows(e, records, n), u64::MAX - 1),
        with_flows(e, records, n + 1) == with_flow(
            with_flows(e, records, n),
            record_class(records[n]),
        ),
{
    count_class_bounds(records, n, FlowClass::Incomplete);
    count_class_bounds(records, n, FlowClass::EncryptedTls);
    count_class_bounds(records, n, FlowClass::NonHttp);
    count_class_bounds(records, n, FlowClass::UnsupportedHttp);
    count_class_bounds(records, n, FlowClass::HttpUpgrade);
    count_class_bounds(records, n, FlowClass::UnsupportedHttp2);
}

/// Adds the recorded flows to an analysis: the complete ones, and the counts of all others.
pub fn finish_analysis(analysis: &mut CaptureAnalysis, records: &Vec<FlowRecord>)
    requires
        flows_within(old(analysis).exclusions, u64::MAX - records@.len()),
    ensures
        final(analysis)@ == (AnalysisView {
            flows: old(analysis)@.flows + complete_flows(
                record_views(records@),
                records@.len() as int,
            ),
            exclusions: with_flows(
                old(analysis).exclusions,
                record_views(records@),
                records@.len() as int,
            ),
            ..old(analysis)@
        }),
{
    let ghost views = record_views(records@);
    let ghost start = *analysis;
    let mut i: usize = 0;
    assert(start@.flows + complete_flows(views, 0) =~= start@.flows);
    while i < records.len()
        invariant
            views == record_views(records@),
            i <= records@.len(),
            flows_within(start.exclusions, u64::MAX - records@.len()),
            analysis.packet_count == start.packet_count,
            analysis.captured_bytes == start.captured_bytes,
            flow_views(analysis.flows@) == start@.flows + complete_flows(views, i as int),
            analysis.exclusions == with_flows(start.exclusions, views, i as int),
        decreases records@.len() - i,
    {
        assert(views[i as int] == records@[i as int]@);
        proof {
            with_flows_step(start.exclusions, views, i as int);
        }
        let (class, kept) = conclude(&records[i]);
        count_flow(&mut analysis.exclusions, class);
        if let Some(flow) = kept {
            let ghost before = analysis.flows@;
            analysis.flows.push(flow);
            assert(flow_views(analysis.flows@) =~= flow_views(before).push(flow@));
            assert(flow_views(analysis.flows@) =~= start@.flows + complete_flows(views, i + 1));
        }
        i += 1;
    }
}

} // verus!
