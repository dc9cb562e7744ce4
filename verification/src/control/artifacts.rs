//! Artifacts: how they are taken up, summed up and sent to agents.
use crate::agent::artifact::{
    artifact_limit, chunk_outcome, completed_at, contents_match, incoming_at, same_artifact,
    ArtifactChunk, ChunkStep, IncomingArtifact, Transfers, MAX_CAPTURE_BYTES,
};
use crate::capture::analysis::{AnalysisView, CaptureAnalysis, CaptureFormat, FlowView};
use crate::capture::files::{analyze_capture, capture_analysis};
use crate::capture::packet::Exclusions;
use crate::control::error::{api_problem, bad, conflict, ApiError, ApiErrorView};
use crate::digest::{sha256_hex, sha256_text};
use crate::domain::payload::MAX_PAYLOAD_BYTES;
use crate::id::{uuid_of, uuid_text, Uuid};
use crate::json::{no_members, object_value, push_member, text_value, JsonValue, JsonView};
use crate::text::{append, copy, decimal, push_decimal, same_text};
use vstd::prelude::*;

verus! {

/// How many bytes of an artifact are sent at a time.
pub const CHUNK_BYTES: usize = 256 * 1024;

/// What an artifact is.
#[derive(Debug, Clone, Copy, PartialEq, Eq, Structural)]
pub enum ArtifactKind {
    Payload,
    Pcap,
}

/// The name of a kind.
pub open spec fn kind_name(kind: ArtifactKind) -> Seq<char> {
    match kind {
        ArtifactKind::Payload => "payload"@,
        ArtifactKind::Pcap => "pcap"@,
    }
}

/// The most bytes that an artifact of a kind may have.
pub open spec fn upload_limit(kind: ArtifactKind) -> int {
    match kind {
        ArtifactKind::Payload => MAX_PAYLOAD_BYTES as int,
        ArtifactKind::Pcap => MAX_CAPTURE_BYTES as int,
    }
}

impl ArtifactKind {
    /// The kind with a name. Without a name it is a capture.
    pub fn from_name(name: Option<&str>) -> (r: Result<ArtifactKind, ApiError>)
        ensures
            match r {
                Ok(kind) => match name {
                    Some(text) => text@ == kind_name(kind),
                    None => kind == ArtifactKind::Pcap,
                },
                Err(error) => {
                    &&& name is Some
                    &&& name->0@ != "payload"@
                    &&& name->0@ != "pcap"@
                    &&& error@ == bad("kind must be payload or pcap"@)
                },
            },
    {
        match name {
            None => Ok(ArtifactKind::Pcap),
            Some(text) => if same_text(text, "payload") {
                Ok(ArtifactKind::Payload)
            } else if same_text(text, "pcap") {
                Ok(ArtifactKind::Pcap)
            } else {
                Err(ApiError::bad("kind must be payload or pcap"))
            },
        }
    }

    /// The name of this kind.
    pub fn name(self) -> (r: &'static str)
        ensures
            r@ == kind_name(self),
    {
        match self {
            ArtifactKind::Payload => "payload",
            ArtifactKind::Pcap => "pcap",
        }
    }

    /// The most bytes that an artifact of this kind may have.
    pub fn limit(self) -> (r: u64)
        ensures
            r == upload_limit(self),
    {
        match self {
            ArtifactKind::Payload => MAX_PAYLOAD_BYTES as u64,
            ArtifactKind::Pcap => MAX_CAPTURE_BYTES,
        }
    }
}

/// The limits by which uploads are taken up are those by which agents take up artifacts.
pub proof fn limits_agree(kind: ArtifactKind)
    ensures
        upload_limit(kind) == artifact_limit(kind_name(kind)),
{
    reveal_strlit("payload");
    reveal_strlit("pcap");
    assert("payload"@.len() != "pcap"@.len());
}

/// What is said of an upload that is too large.
pub open spec fn too_large(kind: ArtifactKind) -> ApiErrorView {
    bad(kind_name(kind) + " artifact exceeds "@ + decimal(upload_limit(kind) / 0x10_0000) + " MiB"@)
}

/// The size of an upload with one more chunk, unless it is then too large.
pub fn grow_upload(kind: ArtifactKind, size: u64, chunk: u64) -> (r: Result<u64, ApiError>)
    ensures
        match r {
            Ok(total) => total == size + chunk && total <= upload_limit(kind),
            Err(error) => size + chunk > upload_limit(kind) && error@ == too_large(kind),
        },
{
    let limit: u64 = kind.limit();
    if size <= limit && chunk <= limit - size {
        return Ok(size + chunk);
    }
    let mut message = copy(kind.name());
    append(&mut message, " artifact exceeds ");
    push_decimal(&mut message, limit / 0x10_0000);
    append(&mut message, " MiB");
    Err(ApiError::bad(message.as_str()))
}

/// Whether bytes that are here already may stand for an upload: not if they are of another kind.
pub fn check_existing(kind: ArtifactKind, existing: &str) -> (r: Result<(), ApiError>)
    ensures
        api_problem(r) == (if existing@ == kind_name(kind) {
            None
        } else {
            Some(conflict("identical bytes already exist under a different artifact kind"@))
        }),
{
    if same_text(existing, kind.name()) {
        Ok(())
    } else {
        Err(ApiError::conflict("identical bytes already exist under a different artifact kind"))
    }
}

/// The name of a capture format.
pub open spec fn format_text(format: CaptureFormat) -> Seq<char> {
    match format {
        CaptureFormat::Pcap => "pcap"@,
        CaptureFormat::PcapNg => "pcapng"@,
    }
}

/// The name of a capture format.
pub fn format_name(format: CaptureFormat) -> (r: &'static str)
    ensures
        r@ == format_text(format),
{
    match format {
        CaptureFormat::Pcap => "pcap",
        CaptureFormat::PcapNg => "pcapng",
    }
}

/// How many of the first `n` flows have HTTP transactions.
pub open spec fn http_flows(flows: Seq<FlowView>, n: int) -> int
    decreases n,
{
    if n <= 0 {
        0
    } else if flows[n - 1].http_transactions.len() > 0 {
        http_flows(flows, n - 1) + 1
    } else {
        http_flows(flows, n - 1)
    }
}

/// How many HTTP transactions the first `n` flows have. The count wraps around at 2^64.
pub open spec fn http_total(flows: Seq<FlowView>, n: int) -> u64
    decreases n,
{
    if n <= 0 {
        0
    } else {
        http_total(flows, n - 1).wrapping_add(flows[n - 1].http_transactions.len() as u64)
    }
}

/// How many of the first `n` flows have HTTP/2 transactions.
pub open spec fn http2_flows(flows: Seq<FlowView>, n: int) -> int
    decreases n,
{
    if n <= 0 {
        0
    } else if flows[n - 1].http2_transactions.len() > 0 {
        http2_flows(flows, n - 1) + 1
    } else {
        http2_flows(flows, n - 1)
    }
}

/// How many HTTP/2 transactions the first `n` flows have. The count wraps around at 2^64.
pub open spec fn http2_total(flows: Seq<FlowView>, n: int) -> u64
    decreases n,
{
    if n <= 0 {
        0
    } else {
        http2_total(flows, n - 1).wrapping_add(flows[n - 1].http2_transactions.len() as u64)
    }
}

/// How many bytes the first `n` flows sent again. The count wraps around at 2^64.
pub open spec fn retransmitted_total(flows: Seq<FlowView>, n: int) -> u64
    decreases n,
{
    if n <= 0 {
        0
    } else {
        retransmitted_total(flows, n - 1).wrapping_add(flows[n - 1].retransmitted_bytes as u64)
    }
}

/// What was left out of a capture, as it is recorded.
pub open spec fn exclusions_json(e: Exclusions) -> JsonView {
    JsonView::Object(
        seq![
            ("non_tcp_packets"@, JsonView::Unsigned(e.non_tcp_packets)),
            ("fragmented_packets"@, JsonView::Unsigned(e.fragmented_packets)),
            ("truncated_packets"@, JsonView::Unsigned(e.truncated_packets)),
            ("unsupported_link_packets"@, JsonView::Unsigned(e.unsupported_link_packets)),
            ("incomplete_flows"@, JsonView::Unsigned(e.incomplete_flows)),
            ("encrypted_tls_flows"@, JsonView::Unsigned(e.encrypted_tls_flows)),
            ("non_http_flows"@, JsonView::Unsigned(e.non_http_flows)),
            ("unsupported_http_flows"@, JsonView::Unsigned(e.unsupported_http_flows)),
            ("http_upgrade_flows"@, JsonView::Unsigned(e.http_upgrade_flows)),
            ("unsupported_http2_flows"@, JsonView::Unsigned(e.unsupported_http2_flows)),
        ],
    )
}

/// The summary of a capture, as it is recorded.
pub open spec fn summary_json(analysis: AnalysisView) -> JsonView {
    let flows = analysis.flows;
    let n = flows.len() as int;
    JsonView::Object(
        seq![
            ("supported_flow_count"@, JsonView::Unsigned(n as u64)),
            ("http_flow_count"@, JsonView::Unsigned(http_flows(flows, n) as u64)),
            ("http_transaction_count"@, JsonView::Unsigned(http_total(flows, n))),
            ("http2_flow_count"@, JsonView::Unsigned(http2_flows(flows, n) as u64)),
            ("http2_transaction_count"@, JsonView::Unsigned(http2_total(flows, n))),
            ("retransmitted_bytes"@, JsonView::Unsigned(retransmitted_total(flows, n))),
            ("exclusions"@, exclusions_json(analysis.exclusions)),
        ],
    )
}

/// What was left out of a capture, as it is recorded.
fn write_exclusions(e: &Exclusions) -> (r: JsonValue)
    ensures
        r@ == exclusions_json(*e),
{
    let mut members = no_members();
    push_member(&mut members, "non_tcp_packets", JsonValue::Unsigned(e.non_tcp_packets));
    push_member(&mut members, "fragmented_packets", JsonValue::Unsigned(e.fragmented_packets));
    push_member(&mut members, "truncated_packets", JsonValue::Unsigned(e.truncated_packets));
    push_member(
        &mut members,
        "unsupported_link_packets",
        JsonValue::Unsigned(e.unsupported_link_packets),
    );
    push_member(&mut members, "incomplete_flows", JsonValue::Unsigned(e.incomplete_flows));
    push_member(&mut members, "encrypted_tls_flows", JsonValue::Unsigned(e.encrypted_tls_flows));
    push_member(&mut members, "non_http_flows", JsonValue::Unsigned(e.non_http_flows));
    push_member(
        &mut members,
        "unsupported_http_flows",
        JsonValue::Unsigned(e.unsupported_http_flows),
    );
    push_member(&mut members, "http_upgrade_flows", JsonValue::Unsigned(e.http_upgrade_flows));
    push_member(
        &mut members,
        "unsupported_http2_flows",
        JsonValue::Unsigned(e.unsupported_http2_flows),
    );
    let r = object_value(members);
    assert(r@->Object_0 =~= exclusions_json(*e)->Object_0);
    r
}

/// The summary of a capture, as it is recorded.
pub fn capture_summary(analysis: &CaptureAnalysis) -> (r: JsonValue)
    ensures
        r@ == summary_json(analysis@),
{
    let mut flows: u64 = 0;
    let mut transactions: u64 = 0;
    let mut flows2: u64 = 0;
    let mut transactions2: u64 = 0;
    let mut retransmitted: u64 = 0;
    let mut i: usize = 0;
    while i < analysis.flows.len()
        invariant
            i <= analysis.flows@.len(),
            flows <= i,
            flows == http_flows(analysis@.flows, i as int),
            transactions == http_total(analysis@.flows, i as int),
            flows2 <= i,
            flows2 == http2_flows(analysis@.flows, i as int),
            transactions2 == http2_total(analysis@.flows, i as int),
            retransmitted == retransmitted_total(analysis@.flows, i as int),
        decreases analysis.flows@.len() - i,
    {
        assert(analysis@.flows[i as int] == analysis.flows@[i as int]@);
        let count: usize = analysis.flows[i].http_transactions.len();
        if count > 0 {
            flows += 1;
        }
        transactions = transactions.wrapping_add(count as u64);
        let count2: usize = analysis.flows[i].http2_transactions.len();
        if count2 > 0 {
            flows2 += 1;
        }
        transactions2 = transactions2.wrapping_add(count2 as u64);
        retransmitted = retransmitted.wrapping_add(analysis.flows[i].retransmitted_bytes);
        i += 1;
    }
    let mut members = no_members();
    push_member(
        &mut members,
        "supported_flow_count",
        JsonValue::Unsigned(analysis.flows.len() as u64),
    );
    push_member(&mut members, "http_flow_count", JsonValue::Unsigned(flows));
    push_member(&mut members, "http_transaction_count", JsonValue::Unsigned(transactions));
    push_member(&mut members, "http2_flow_count", JsonValue::Unsigned(flows2));
    push_member(&mut members, "http2_transaction_count", JsonValue::Unsigned(transactions2));
    push_member(&mut members, "retransmitted_bytes", JsonValue::Unsigned(retransmitted));
    push_member(&mut members, "exclusions", write_exclusions(&analysis.exclusions));
    let r = object_value(members);
    assert(r@->Object_0 =~= summary_json(analysis@)->Object_0);
    r
}

/// The summary of a payload, as it is recorded: it has no flows.
pub open spec fn payload_json() -> JsonView {
    JsonView::Object(
        seq![
            ("supported_flow_count"@, JsonView::Unsigned(0)),
            ("exclusions"@, JsonView::Object(Seq::empty())),
        ],
    )
}

/// The summary of a payload, as it is recorded.
pub fn payload_summary() -> (r: JsonValue)
    ensures
        r@ == payload_json(),
{
    let mut members = no_members();
    push_member(&mut members, "supported_flow_count", JsonValue::Unsigned(0));
    push_member(&mut members, "exclusions", object_value(no_members()));
    let r = object_value(members);
    assert(r@->Object_0 =~= payload_json()->Object_0);
    r
}

/// What is recorded of an upload.
pub struct Upload {
    pub kind: ArtifactKind,
    pub sha256: String,
    pub size: u64,
    pub format: String,
    pub packets: u64,
    pub captured_bytes: u64,
    pub summary: JsonValue,
}

/// What is recorded of an upload.
#[verifier::ext_equal]
pub struct UploadView {
    pub kind: ArtifactKind,
    pub sha256: Seq<char>,
    pub size: int,
    pub format: Seq<char>,
    pub packets: int,
    pub captured_bytes: int,
    pub summary: JsonView,
}

impl View for Upload {
    type V = UploadView;

    open spec fn view(&self) -> UploadView {
        UploadView {
            kind: self.kind,
            sha256: self.sha256@,
            size: self.size as int,
            format: self.format@,
            packets: self.packets as int,
            captured_bytes: self.captured_bytes as int,
            summary: self.summary@,
        }
    }
}

/// What is recorded of an upload with a content, or why it is refused. A capture must be readable;
/// a payload may be anything.
pub open spec fn examined(kind: ArtifactKind, content: Seq<u8>) -> Result<UploadView, ApiErrorView> {
    let sha256 = sha256_text(content);
    let size = content.len() as int;
    if size > upload_limit(kind) {
        Err(too_large(kind))
    } else {
        match kind {
            ArtifactKind::Payload => Ok(
                UploadView {
                    kind,
                    sha256,
                    size,
                    format: "raw"@,
                    packets: 0,
                    captured_bytes: size,
                    summary: payload_json(),
                },
            ),
            ArtifactKind::Pcap => match capture_analysis(content) {
                Ok((format, analysis)) => Ok(
                    UploadView {
                        kind,
                        sha256,
                        size,
                        format: format_text(format),
                        packets: analysis.packet_count,
                        captured_bytes: analysis.captured_bytes,
                        summary: summary_json(analysis),
                    },
                ),
                Err(error) => Err(bad(error.text())),
            },
        }
    }
}

/// Examines an upload.
pub fn examine_upload(kind: ArtifactKind, content: &[u8]) -> (r: Result<Upload, ApiError>)
    ensures
        match r {
            Ok(upload) => examined(kind, content@) == Ok::<UploadView, ApiErrorView>(upload@),
            Err(error) => examined(kind, content@) == Err::<UploadView, ApiErrorView>(error@),
        },
{
    let size: u64 = grow_upload(kind, 0, content.len() as u64)?;
    match kind {
        ArtifactKind::Payload => Ok(
            Upload {
                kind,
                sha256: sha256_hex(content),
                size,
                format: copy("raw"),
                packets: 0,
                captured_bytes: size,
                summary: payload_summary(),
            },
        ),
        ArtifactKind::Pcap => match analyze_capture(content) {
            Ok((format, analysis)) => Ok(
                Upload {
                    kind,
                    sha256: sha256_hex(content),
                    size,
                    format: copy(format_name(format)),
                    packets: analysis.packet_count,
                    captured_bytes: analysis.captured_bytes,
                    summary: capture_summary(&analysis),
                },
            ),
            Err(error) => Err(ApiError::bad(error.message().as_str())),
        },
    }
}

/// An upload that was taken up is within the limits of the agents, and all of it has the digest
/// that they are told.
pub proof fn uploads_can_be_sent(
    kind: ArtifactKind,
    content: Seq<u8>,
    upload: UploadView,
    state: IncomingArtifact,
)
    requires
        examined(kind, content) == Ok::<UploadView, ApiErrorView>(upload),
        state.sha256@ == upload.sha256,
    ensures
        content.len() <= artifact_limit(kind_name(upload.kind)),
        contents_match(state, content),
{
    limits_agree(kind);
}

/// An upload as it is shown.
pub open spec fn upload_json(id: Seq<char>, name: Seq<char>, u: UploadView) -> JsonView {
    JsonView::Object(
        seq![
            ("id"@, JsonView::Text(id)),
            ("kind"@, JsonView::Text(kind_name(u.kind))),
            ("name"@, JsonView::Text(name)),
            ("sha256"@, JsonView::Text(u.sha256)),
            ("size_bytes"@, JsonView::Unsigned(u.size as u64)),
            ("format"@, JsonView::Text(u.format)),
            ("packet_count"@, JsonView::Unsigned(u.packets as u64)),
            ("captured_bytes"@, JsonView::Unsigned(u.captured_bytes as u64)),
            ("analysis"@, u.summary),
            ("status"@, JsonView::Text("validated"@)),
        ],
    )
}

/// An upload as it is shown. Bytes that were here already are shown under the id that they have,
/// unless they are of another kind.
pub fn show_upload(new_id: &str, existing: Option<(&str, &str)>, name: &str, upload: Upload) -> (r:
    Result<JsonValue, ApiError>)
    ensures
        match r {
            Ok(shown) => match existing {
                Some((id, kind)) => kind@ == kind_name(upload.kind) && shown@ == upload_json(
                    id@,
                    name@,
                    upload@,
                ),
                None => shown@ == upload_json(new_id@, name@, upload@),
            },
            Err(error) => {
                &&& existing is Some
                &&& (existing->0).1@ != kind_name(upload.kind)
                &&& error@ == conflict(
                    "identical bytes already exist under a different artifact kind"@,
                )
            },
        },
{
    let id: &str = match existing {
        Some((id, kind)) => {
            check_existing(upload.kind, kind)?;
            id
        },
        None => new_id,
    };
    let ghost view = upload@;
    let mut members = no_members();
    push_member(&mut members, "id", text_value(id));
    push_member(&mut members, "kind", text_value(upload.kind.name()));
    push_member(&mut members, "name", text_value(name));
    push_member(&mut members, "sha256", JsonValue::Text(upload.sha256));
    push_member(&mut members, "size_bytes", JsonValue::Unsigned(upload.size));
    push_member(&mut members, "format", JsonValue::Text(upload.format));
    push_member(&mut members, "packet_count", JsonValue::Unsigned(upload.packets));
    push_member(&mut members, "captured_bytes", JsonValue::Unsigned(upload.captured_bytes));
    push_member(&mut members, "analysis", upload.summary);
    push_member(&mut members, "status", text_value("validated"));
    let r = object_value(members);
    assert(r@->Object_0 =~= upload_json(id@, name@, view)->Object_0);
    Ok(r)
}

/// A chunk is the part of an artifact from an offset on: as much as is sent at a time, or what is
/// left.
pub open spec fn is_part(
    chunk: ArtifactChunk,
    id: Uuid,
    kind: Seq<char>,
    sha256: Seq<char>,
    content: Seq<u8>,
    offset: int,
) -> bool {
    let rest = content.len() - offset;
    let length = if rest < CHUNK_BYTES {
        rest
    } else {
        CHUNK_BYTES as int
    };
    &&& chunk.artifact_id@ == uuid_text(id.value)
    &&& chunk.offset == offset
    &&& chunk.data@ == content.subrange(offset, offset + length)
    &&& chunk.total_size == content.len()
    &&& chunk.sha256@ == sha256
    &&& chunk.eof == (offset + length == content.len())
    &&& chunk.artifact_kind@ == kind
}

/// The part of an artifact from an offset on.
pub fn outgoing_chunk(id: Uuid, kind: &str, sha256: &str, content: &[u8], offset: usize) -> (r:
    ArtifactChunk)
    requires
        offset <= content@.len(),
    ensures
        is_part(r, id, kind@, sha256@, content@, offset as int),
        uuid_of(r.artifact_id@) == Ok::<u128, Seq<char>>(id.value),
{
    let rest: usize = content.len() - offset;
    let length: usize = if rest < CHUNK_BYTES {
        rest
    } else {
        CHUNK_BYTES
    };
    let part: &[u8] = &content[offset..offset + length];
    let mut data: Vec<u8> = Vec::new();
    data.extend_from_slice(part);
    assert(data@ =~= content@.subrange(offset as int, offset + length));
    ArtifactChunk {
        artifact_id: id.to_text(),
        offset: offset as u64,
        data,
        total_size: content.len() as u64,
        sha256: copy(sha256),
        eof: offset + length == content.len(),
        artifact_kind: copy(kind),
    }
}

/// An agent that has received an artifact up to an offset takes up the part from there on, unless
/// the artifact is too large or is there already. With the last part the artifact is complete.
pub proof fn sent_parts_are_taken_up(
    t: Transfers,
    chunk: ArtifactChunk,
    id: Uuid,
    kind: Seq<char>,
    sha256: Seq<char>,
    content: Seq<u8>,
    offset: int,
)
    requires
        is_part(chunk, id, kind, sha256, content, offset),
        uuid_of(chunk.artifact_id@) == Ok::<u128, Seq<char>>(id.value),
        0 <= offset <= content.len() <= artifact_limit(kind),
        completed_at(t.completed@, id, 0) is None,
        match incoming_at(t.incoming@, id, 0) {
            Some(i) => same_artifact(t.incoming@[i], chunk) && t.incoming@[i].received == offset,
            None => offset == 0,
        },
    ensures
        chunk_outcome(t, chunk) == Ok::<ChunkStep, Seq<char>>(
            ChunkStep::Store {
                first: incoming_at(t.incoming@, id, 0) is None,
                last: offset + chunk.data@.len() == content.len(),
            },
        ),
{
}

} // verus!
