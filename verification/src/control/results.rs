//! How runs are listed and their results are shown.
use crate::domain::payload::{PayloadKind, PayloadMode, PayloadProfile, RandomFormat};
use crate::domain::scenario::{
    is_effective, plain_request_bytes, plain_response_bytes, Scenario,
};
use crate::id::{uuid_text, Uuid};
use crate::json::{
    array_value, integer_json, integer_value, json_views, member, member_at, member_views,
    nested_views, no_items, no_members, number_member, object_value, optional_json, optional_text, push_member, text_member, text_value, JsonValue, JsonView,
};
use crate::text::{append, copy, maybe, same_text};
use vstd::prelude::*;

verus! {

/// A number within bounds: the nearest within them.
pub open spec fn clamped(n: int, low: int, high: int) -> int {
    if n < low {
        low
    } else if n > high {
        high
    } else {
        n
    }
}

/// How many runs a page has: 25 unless asked otherwise, and between one and a hundred.
pub fn page_limit(asked: Option<u32>) -> (r: i64)
    ensures
        r == clamped(
            match asked {
                Some(n) => n as int,
                None => 25,
            },
            1,
            100,
        ),
{
    let n: u32 = match asked {
        Some(n) => n,
        None => 25,
    };
    if n < 1 {
        1
    } else if n > 100 {
        100
    } else {
        n as i64
    }
}

/// Where the next page starts, given the rows of the runs that were found: there is one if more
/// were found than a page has, and it starts behind the last run of this page.
pub fn next_cursor(rows: &Vec<Option<i64>>, limit: i64) -> (r: Option<i64>)
    requires
        1 <= limit <= 100,
    ensures
        r == (if rows@.len() > limit {
            rows@[limit - 1]
        } else {
            None
        }),
{
    if rows.len() > limit as usize {
        rows[limit as usize - 1]
    } else {
        None
    }
}

/// How many samples are shown at most: 2000 unless asked otherwise, and between ten and ten
/// thousand.
pub fn sample_limit(asked: Option<u32>) -> (r: usize)
    ensures
        r == clamped(
            match asked {
                Some(n) => n as int,
                None => 2000,
            },
            10,
            10_000,
        ),
{
    let n: u32 = match asked {
        Some(n) => n,
        None => 2000,
    };
    if n < 10 {
        10
    } else if n > 10_000 {
        10_000
    } else {
        n as usize
    }
}

/// How far apart samples are shown: as close as the limit allows. Their number and the limit are
/// added within the bounds of a machine word.
pub open spec fn stride_of(count: int, limit: int) -> int {
    let sum = if count + limit - 1 > usize::MAX {
        usize::MAX as int
    } else {
        count + limit - 1
    };
    if sum / limit < 1 {
        1
    } else {
        sum / limit
    }
}

/// How far apart samples are shown.
pub fn sample_stride(count: usize, limit: usize) -> (r: usize)
    requires
        limit > 0,
    ensures
        r == stride_of(count as int, limit as int),
        r > 0,
{
    let sum: usize = count.saturating_add(limit - 1);
    let stride: usize = sum / limit;
    if stride < 1 {
        1
    } else {
        stride
    }
}

/// Whether a sample is shown.
pub fn is_shown(index: usize, stride: usize) -> (r: bool)
    requires
        stride > 0,
    ensures
        r == (index % stride == 0),
{
    index % stride == 0
}

/// No more samples are shown than the limit says: a sample that is shown and has `k` others before
/// it that are has a place below the limit.
pub proof fn shown_samples_stay_within_the_limit(count: int, limit: int, k: int)
    requires
        0 <= count,
        count + limit - 1 <= usize::MAX,
        0 < limit,
        0 <= k,
        k * stride_of(count, limit) < count,
    ensures
        k < limit,
{
    let stride = stride_of(count, limit);
    let sum = count + limit - 1;
    assert(stride * limit >= count) by (nonlinear_arith)
        requires
            sum == count + limit - 1,
            0 < limit,
            0 <= count,
            stride == (if sum / limit < 1 {
                1
            } else {
                sum / limit
            }),
    {
        let q = sum / limit;
        let m = sum % limit;
        assert(sum == q * limit + m);
        assert(0 <= m < limit);
        if q < 1 {
            assert(q * limit <= 0);
        }
    }
    assert(k < limit) by (nonlinear_arith)
        requires
            k * stride < count,
            stride * limit >= count,
            0 <= k,
            0 < limit,
            stride >= 1,
    ;
}

/// A sample as a row of a table. The numbers and the metrics are texts already.
#[derive(Debug, Clone, PartialEq, Eq)]
pub struct SampleRow {
    pub agent_id: String,
    pub role: String,
    pub unix_ms: String,
    pub metrics: String,
}

/// A row of a table.
pub open spec fn row_text(row: SampleRow) -> Seq<char> {
    row.agent_id@ + ","@ + row.role@ + ","@ + row.unix_ms@ + ","@ + row.metrics@ + "\n"@
}

/// A table of the first `n` samples, with a head.
pub open spec fn table_text(rows: Seq<SampleRow>, n: int) -> Seq<char>
    decreases n,
{
    if n <= 0 {
        "agent_id,role,unix_ms,metrics_json\n"@
    } else {
        table_text(rows, n - 1) + row_text(rows[n - 1])
    }
}

/// A table of samples.
pub fn samples_table(rows: &Vec<SampleRow>) -> (r: String)
    ensures
        r@ == table_text(rows@, rows@.len() as int),
{
    let mut text = copy("agent_id,role,unix_ms,metrics_json\n");
    let mut i: usize = 0;
    while i < rows.len()
        invariant
            i <= rows@.len(),
            text@ == table_text(rows@, i as int),
        decreases rows@.len() - i,
    {
        append(&mut text, rows[i].agent_id.as_str());
        append(&mut text, ",");
        append(&mut text, rows[i].role.as_str());
        append(&mut text, ",");
        append(&mut text, rows[i].unix_ms.as_str());
        append(&mut text, ",");
        append(&mut text, rows[i].metrics.as_str());
        append(&mut text, "\n");
        assert(text@ =~= table_text(rows@, i as int) + row_text(rows@[i as int]));
        i += 1;
    }
    text
}

/// Members with another value for one of them, which is added if it is not there.
pub open spec fn with_member(
    members: Seq<(Seq<char>, JsonView)>,
    name: Seq<char>,
    value: JsonView,
) -> Seq<(Seq<char>, JsonView)> {
    match member_at(members, name, 0) {
        Some(i) => members.update(i, (name, value)),
        None => members.push((name, value)),
    }
}

/// A value with another value for a member of one of its members, if that is an object.
pub open spec fn with_inner(
    value: JsonView,
    outer: Seq<char>,
    name: Seq<char>,
    new: JsonView,
) -> JsonView {
    match value {
        JsonView::Object(members) => match member_at(members, outer, 0) {
            Some(i) => match members[i].1 {
                JsonView::Object(inner) => JsonView::Object(
                    members.update(i, (outer, JsonView::Object(with_member(inner, name, new)))),
                ),
                _ => value,
            },
            None => value,
        },
        _ => value,
    }
}

/// A scenario without what must not be shown: the private key and the texts of its payloads.
pub open spec fn redacted(value: JsonView) -> JsonView {
    with_inner(
        with_inner(
            with_inner(value, "tls"@, "server_key_pem"@, JsonView::Null),
            "request_payload"@,
            "text"@,
            JsonView::Text(Seq::empty()),
        ),
        "response_payload"@,
        "text"@,
        JsonView::Text(Seq::empty()),
    )
}

proof fn member_found(members: Seq<(Seq<char>, JsonView)>, name: Seq<char>, from: int)
    requires
        0 <= from,
    ensures
        match member_at(members, name, from) {
            Some(i) => {
                &&& from <= i < members.len()
                &&& members[i].0 == name
                &&& forall|j: int| from <= j < i ==> (#[trigger] members[j]).0 != name
            },
            None => forall|j: int|
                from <= j < members.len() ==> (#[trigger] members[j]).0 != name,
        },
    decreases members.len() - from,
{
    if from < members.len() && members[from].0 != name {
        member_found(members, name, from + 1);
    }
}

proof fn found_there(members: Seq<(Seq<char>, JsonView)>, name: Seq<char>, i: int)
    requires
        0 <= i < members.len(),
        members[i].0 == name,
        forall|j: int| 0 <= j < i ==> (#[trigger] members[j]).0 != name,
    ensures
        member_at(members, name, 0) == Some(i),
{
    member_found(members, name, 0);
}

proof fn replaced_member(
    members: Seq<(Seq<char>, JsonView)>,
    name: Seq<char>,
    value: JsonView,
    other: Seq<char>,
)
    ensures
        member(JsonView::Object(with_member(members, name, value)), name) == Some(value),
        other != name ==> member(JsonView::Object(with_member(members, name, value)), other)
            == member(JsonView::Object(members), other),
{
    let after = with_member(members, name, value);
    member_found(members, name, 0);
    match member_at(members, name, 0) {
        Some(i) => {
            found_there(after, name, i);
        },
        None => {
            found_there(after, name, members.len() as int);
        },
    }
    if other != name {
        member_found(members, other, 0);
        member_found(after, other, 0);
        match member_at(members, other, 0) {
            Some(i) => {
                found_there(after, other, i);
            },
            None => {},
        }
    }
}

/// A member of a member of a value.
pub open spec fn inner_member(value: JsonView, outer: Seq<char>, name: Seq<char>) -> Option<
    JsonView,
> {
    match member(value, outer) {
        Some(inner) => member(inner, name),
        None => None,
    }
}

proof fn replaced_inner(
    value: JsonView,
    outer: Seq<char>,
    name: Seq<char>,
    new: JsonView,
    other: Seq<char>,
)
    ensures
        member(value, outer) matches Some(JsonView::Object(_)) ==> inner_member(
            with_inner(value, outer, name, new),
            outer,
            name,
        ) == Some(new),
        (member(value, outer) matches Some(JsonView::Object(_))) == (member(
            with_inner(value, outer, name, new),
            outer,
        ) matches Some(JsonView::Object(_))),
        other != outer ==> member(with_inner(value, outer, name, new), other) == member(
            value,
            other,
        ),
{
    if let JsonView::Object(members) = value {
        member_found(members, outer, 0);
        if let Some(i) = member_at(members, outer, 0) {
            if let JsonView::Object(inner) = members[i].1 {
                replaced_member(inner, name, new, name);
                let changed = JsonView::Object(with_member(inner, name, new));
                assert(members.update(i, (outer, changed)) =~= with_member(
                    members,
                    outer,
                    changed,
                ));
                replaced_member(members, outer, changed, other);
                replaced_member(members, outer, changed, outer);
            }
        }
    }
}

/// What is shown of a scenario holds neither the private key of the server nor the text of a
/// payload. Everything outside of TLS and the payloads stays as it is.
pub proof fn shown_scenarios_hold_no_secrets(value: JsonView, other: Seq<char>)
    requires
        other != "tls"@,
        other != "request_payload"@,
        other != "response_payload"@,
    ensures
        member(value, "tls"@) matches Some(JsonView::Object(_)) ==> inner_member(
            redacted(value),
            "tls"@,
            "server_key_pem"@,
        ) == Some(JsonView::Null),
        member(value, "request_payload"@) matches Some(JsonView::Object(_)) ==> inner_member(
            redacted(value),
            "request_payload"@,
            "text"@,
        ) == Some(JsonView::Text(Seq::empty())),
        member(value, "response_payload"@) matches Some(JsonView::Object(_)) ==> inner_member(
            redacted(value),
            "response_payload"@,
            "text"@,
        ) == Some(JsonView::Text(Seq::empty())),
        member(redacted(value), other) == member(value, other),
{
    reveal_strlit("tls");
    reveal_strlit("request_payload");
    reveal_strlit("response_payload");
    assert("tls"@.len() == 3 && "request_payload"@.len() == 15 && "response_payload"@.len() == 16);
    let empty = JsonView::Text(Seq::empty());
    let one = with_inner(value, "tls"@, "server_key_pem"@, JsonView::Null);
    let two = with_inner(one, "request_payload"@, "text"@, empty);
    replaced_inner(value, "tls"@, "server_key_pem"@, JsonView::Null, "request_payload"@);
    replaced_inner(value, "tls"@, "server_key_pem"@, JsonView::Null, "response_payload"@);
    replaced_inner(value, "tls"@, "server_key_pem"@, JsonView::Null, other);
    replaced_inner(one, "request_payload"@, "text"@, empty, "tls"@);
    replaced_inner(one, "request_payload"@, "text"@, empty, "response_payload"@);
    replaced_inner(one, "request_payload"@, "text"@, empty, other);
    replaced_inner(two, "response_payload"@, "text"@, empty, "tls"@);
    replaced_inner(two, "response_payload"@, "text"@, empty, "request_payload"@);
    replaced_inner(two, "response_payload"@, "text"@, empty, other);
}

/// Where a member is.
fn position(members: &Vec<(String, JsonValue)>, name: &str) -> (r: Option<usize>)
    ensures
        match r {
            Some(i) => member_at(member_views(members@), name@, 0) == Some(i as int) && i
                < members@.len(),
            None => member_at(member_views(members@), name@, 0) is None,
        },
{
    let ghost views = member_views(members@);
    let mut i: usize = 0;
    while i < members.len()
        invariant
            views == member_views(members@),
            i <= members@.len(),
            member_at(views, name@, 0) == member_at(views, name@, i as int),
        decreases members@.len() - i,
    {
        assert(views[i as int] == (members@[i as int].0@, members@[i as int].1@));
        if same_text(members[i].0.as_str(), name) {
            return Some(i);
        }
        i += 1;
    }
    None
}

/// Gives a member another value, and adds it if it is not there.
fn set_member(members: &mut Vec<(String, JsonValue)>, name: &str, value: JsonValue)
    ensures
        member_views(final(members)@) == with_member(member_views(old(members)@), name@, value@),
{
    match position(members, name) {
        Some(i) => {
            members.set(i, (copy(name), value));
            assert(member_views(members@) =~= member_views(old(members)@).update(
                i as int,
                (name@, value@),
            ));
        },
        None => {
            push_member(members, name, value);
        },
    }
}

/// Gives a member of a member another value.
fn set_inner(value: JsonValue, outer: &str, name: &str, new: JsonValue) -> (r: JsonValue)
    ensures
        r@ == with_inner(value@, outer@, name@, new@),
{
    proof {
        nested_views(value);
    }
    match value {
        JsonValue::Object(members) => {
            let mut members: Vec<(String, JsonValue)> = members;
            let ghost views = member_views(members@);
            if let Some(i) = position(&members, outer) {
                let (key, inner) = members.remove(i);
                let ghost before = inner@;
                assert(views[i as int] == (key@, inner@));
                proof {
                    member_found(views, outer@, 0);
                    nested_views(inner);
                }
                let changed: JsonValue = match inner {
                    JsonValue::Object(list) => {
                        let mut list: Vec<(String, JsonValue)> = list;
                        set_member(&mut list, name, new);
                        object_value(list)
                    },
                    kept => kept,
                };
                members.insert(i, (key, changed));
                assert(member_views(members@) =~= views.update(i as int, (outer@, changed@)));
                proof {
                    if !(before is Object) {
                        assert(views.update(i as int, (outer@, changed@)) =~= views);
                    }
                }
            }
            object_value(members)
        },
        kept => kept,
    }
}

/// A scenario without what must not be shown.
pub fn redacted_scenario(value: JsonValue) -> (r: JsonValue)
    ensures
        r@ == redacted(value@),
{
    proof {
        reveal_strlit("");
        assert(""@ =~= Seq::empty());
    }
    let one = set_inner(value, "tls", "server_key_pem", JsonValue::Null);
    let two = set_inner(one, "request_payload", "text", text_value(""));
    set_inner(two, "response_payload", "text", text_value(""))
}

/// The name of a kind of payload.
pub open spec fn payload_kind_name(kind: PayloadKind) -> Seq<char> {
    match kind {
        PayloadKind::Empty => "empty"@,
        PayloadKind::Fixed => "fixed"@,
        PayloadKind::Text => "text"@,
        PayloadKind::File => "file"@,
        PayloadKind::Random => "random"@,
    }
}

/// The name of a kind of payload.
fn name_payload_kind(kind: PayloadKind) -> (r: &'static str)
    ensures
        r@ == payload_kind_name(kind),
{
    match kind {
        PayloadKind::Empty => "empty",
        PayloadKind::Fixed => "fixed",
        PayloadKind::Text => "text",
        PayloadKind::File => "file",
        PayloadKind::Random => "random",
    }
}

/// The name of a random format.
pub open spec fn random_format_name(format: RandomFormat) -> Seq<char> {
    match format {
        RandomFormat::Binary => "binary"@,
        RandomFormat::PrintableAscii => "printable_ascii"@,
    }
}

/// The first digest at or after `from` that the metrics of a role have.
pub open spec fn digest_in(samples: Seq<JsonView>, role: int, field: Seq<char>, from: int) -> Option<
    Seq<char>,
>
    decreases samples.len() - from,
{
    if from >= samples.len() {
        None
    } else {
        let sample = samples[from];
        let found = match member(sample, "metrics"@) {
            Some(metrics) => text_member(metrics, field),
            None => None,
        };
        if number_member(sample, "role"@) == Some(role) && found is Some {
            found
        } else {
            digest_in(samples, role, field, from + 1)
        }
    }
}

/// The first digest that the metrics of a role have.
fn find_digest(samples: &Vec<JsonValue>, role: u64, field: &str) -> (r: Option<String>)
    ensures
        maybe(r) == digest_in(json_views(samples@), role as int, field@, 0),
{
    let ghost views = json_views(samples@);
    let mut i: usize = 0;
    while i < samples.len()
        invariant
            views == json_views(samples@),
            i <= samples@.len(),
            digest_in(views, role as int, field@, 0) == digest_in(
                views,
                role as int,
                field@,
                i as int,
            ),
        decreases samples@.len() - i,
    {
        assert(views[i as int] == samples@[i as int]@);
        let here: bool = match samples[i].get_number("role") {
            Some(n) => n == role,
            None => false,
        };
        if here {
            if let Some(metrics) = samples[i].get("metrics") {
                if let Some(text) = metrics.copy_text(field) {
                    return Some(text);
                }
            }
        }
        i += 1;
    }
    None
}

/// What is shown of an artifact that a payload is the contents of.
pub open spec fn artifact_json(id: Option<Uuid>) -> JsonView {
    match id {
        Some(id) => JsonView::Text(uuid_text(id.value)),
        None => JsonView::Null,
    }
}

/// What is shown of a payload: its kind and size, where its contents come from, and the digest of
/// random contents. The contents are not shown.
pub open spec fn payload_json(
    direction: Seq<char>,
    kind: PayloadKind,
    length: int,
    artifact: Option<Uuid>,
    format: RandomFormat,
    digest: Option<Seq<char>>,
) -> JsonView {
    let head = seq![
        ("direction"@, JsonView::Text(direction)),
        ("kind"@, JsonView::Text(payload_kind_name(kind))),
        ("size_bytes"@, JsonView::Unsigned(length as u64)),
    ];
    JsonView::Object(
        match kind {
            PayloadKind::File => head.push(("artifact_id"@, artifact_json(artifact))),
            PayloadKind::Random => head.push(
                ("random_format"@, JsonView::Text(random_format_name(format))),
            ).push(("sha256"@, optional_json(digest))),
            _ => head,
        },
    )
}

/// What is shown of a payload.
fn describe_payload(direction: &str, payload: &PayloadProfile, digest: Option<String>) -> (r:
    JsonValue)
    ensures
        r@ == payload_json(
            direction@,
            payload.kind,
            payload.length(),
            payload.artifact_id,
            payload.random_format,
            maybe(digest),
        ),
{
    let mut members = no_members();
    push_member(&mut members, "direction", text_value(direction));
    push_member(&mut members, "kind", text_value(name_payload_kind(payload.kind)));
    push_member(&mut members, "size_bytes", JsonValue::Unsigned(payload.byte_len() as u64));
    let ghost head = seq![
        ("direction"@, JsonView::Text(direction@)),
        ("kind"@, JsonView::Text(payload_kind_name(payload.kind))),
        ("size_bytes"@, JsonView::Unsigned(payload.length() as u64)),
    ];
    assert(member_views(members@) =~= head);
    if payload.kind == PayloadKind::File {
        let value: JsonValue = match payload.artifact_id {
            Some(id) => JsonValue::Text(id.to_text()),
            None => JsonValue::Null,
        };
        push_member(&mut members, "artifact_id", value);
    }
    if payload.kind == PayloadKind::Random {
        let name: &str = match payload.random_format {
            RandomFormat::Binary => "binary",
            RandomFormat::PrintableAscii => "printable_ascii",
        };
        push_member(&mut members, "random_format", text_value(name));
        push_member(&mut members, "sha256", optional_text(&digest));
    }
    object_value(members)
}

/// What is shown of the payloads of a run.
pub open spec fn is_metadata(value: JsonView, scenario: Option<Scenario>, samples: Seq<JsonView>) -> bool {
    match scenario {
        None => value == JsonView::Null,
        Some(s) => if s.payload_mode == PayloadMode::CaptureReplay {
            value == JsonView::Object(
                seq![
                    ("mode"@, JsonView::Text("capture_replay"@)),
                    ("capture_artifact_id"@, artifact_json(s.capture_artifact_id)),
                ],
            )
        } else {
            exists|request: PayloadProfile, response: PayloadProfile|
                {
                    &&& #[trigger] is_effective(
                        request,
                        s.request_payload,
                        plain_request_bytes(s),
                    )
                    &&& #[trigger] is_effective(
                        response,
                        s.response_payload,
                        plain_response_bytes(s),
                    )
                    &&& value == manual_json(request, response, samples)
                }
        },
    }
}

/// What is shown of two payloads that were not replayed.
pub open spec fn manual_json(
    request: PayloadProfile,
    response: PayloadProfile,
    samples: Seq<JsonView>,
) -> JsonView {
    JsonView::Object(
        seq![
            ("mode"@, JsonView::Text("manual"@)),
            (
                "request"@,
                payload_json(
                    "client_to_server"@,
                    request.kind,
                    request.length(),
                    request.artifact_id,
                    request.random_format,
                    digest_in(samples, 1, "request_random_sha256"@, 0),
                ),
            ),
            (
                "response"@,
                payload_json(
                    "server_to_client"@,
                    response.kind,
                    response.length(),
                    response.artifact_id,
                    response.random_format,
                    digest_in(samples, 2, "response_random_sha256"@, 0),
                ),
            ),
        ],
    )
}

/// A scenario, where it could be read.
pub open spec fn as_read(scenario: Option<&Scenario>) -> Option<Scenario> {
    match scenario {
        Some(s) => Some(*s),
        None => None,
    }
}

/// What is shown of the payloads of a run with a scenario and these samples; nothing if the
/// scenario could not be read.
pub fn result_payload_metadata(scenario: Option<&Scenario>, samples: &Vec<JsonValue>) -> (r:
    JsonValue)
    ensures
        is_metadata(r@, as_read(scenario), json_views(samples@)),
{
    let s = match scenario {
        None => {
            return JsonValue::Null;
        },
        Some(s) => s,
    };
    let mut members = no_members();
    if s.payload_mode == PayloadMode::CaptureReplay {
        push_member(&mut members, "mode", text_value("capture_replay"));
        let id: JsonValue = match s.capture_artifact_id {
            Some(id) => JsonValue::Text(id.to_text()),
            None => JsonValue::Null,
        };
        push_member(&mut members, "capture_artifact_id", id);
        let r = object_value(members);
        assert(r@->Object_0 =~= seq![
            ("mode"@, JsonView::Text("capture_replay"@)),
            ("capture_artifact_id"@, artifact_json(s.capture_artifact_id)),
        ]);
        return r;
    }
    let request = s.request_payload();
    let response = s.response_payload();
    push_member(&mut members, "mode", text_value("manual"));
    push_member(
        &mut members,
        "request",
        describe_payload(
            "client_to_server",
            &request,
            find_digest(samples, 1, "request_random_sha256"),
        ),
    );
    push_member(
        &mut members,
        "response",
        describe_payload(
            "server_to_client",
            &response,
            find_digest(samples, 2, "response_random_sha256"),
        ),
    );
    let r = object_value(members);
    assert(r@->Object_0 =~= manual_json(request, response, json_views(samples@))->Object_0);
    assert(is_effective(
        request,
        s.request_payload,
        plain_request_bytes(*s),
    ));
    assert(is_effective(
        response,
        s.response_payload,
        plain_response_bytes(*s),
    ));
    r
}

/// What is recorded of a run, besides its scenario and its samples.
#[derive(Debug, Clone, PartialEq, Eq)]
pub struct RunRecord {
    pub id: String,
    pub scenario_id: Option<String>,
    pub run_name: Option<String>,
    pub status: String,
    pub started_at: Option<String>,
    pub finished_at: Option<String>,
    pub error: Option<String>,
}

/// A run as it is listed. Its scenario is shown without secrets.
pub open spec fn listed_run(run: RunRecord, scenario: JsonView) -> JsonView {
    JsonView::Object(
        seq![
            ("id"@, JsonView::Text(run.id@)),
            ("scenario_id"@, optional_json(maybe(run.scenario_id))),
            ("run_name"@, optional_json(maybe(run.run_name))),
            ("status"@, JsonView::Text(run.status@)),
            ("started_at"@, optional_json(maybe(run.started_at))),
            ("finished_at"@, optional_json(maybe(run.finished_at))),
            ("error"@, optional_json(maybe(run.error))),
            ("scenario"@, redacted(scenario)),
        ],
    )
}

/// A run as it is listed, with its scenario.
pub fn run_list_json(run: &RunRecord, scenario: JsonValue) -> (r: JsonValue)
    ensures
        r@ == listed_run(*run, scenario@),
{
    let ghost given = scenario@;
    let mut members = no_members();
    push_member(&mut members, "id", text_value(run.id.as_str()));
    push_member(&mut members, "scenario_id", optional_text(&run.scenario_id));
    push_member(&mut members, "run_name", optional_text(&run.run_name));
    push_member(&mut members, "status", text_value(run.status.as_str()));
    push_member(&mut members, "started_at", optional_text(&run.started_at));
    push_member(&mut members, "finished_at", optional_text(&run.finished_at));
    push_member(&mut members, "error", optional_text(&run.error));
    push_member(&mut members, "scenario", redacted_scenario(scenario));
    let r = object_value(members);
    assert(r@->Object_0 =~= listed_run(*run, given)->Object_0);
    r
}

/// A sample as it is shown.
pub open spec fn shown_sample(
    agent_id: Seq<char>,
    role: int,
    unix_ms: int,
    metrics: JsonView,
) -> JsonView {
    JsonView::Object(
        seq![
            ("agent_id"@, JsonView::Text(agent_id)),
            ("role"@, integer_json(role)),
            ("unix_ms"@, integer_json(unix_ms)),
            ("metrics"@, metrics),
        ],
    )
}

/// A sample as it is shown.
pub fn metric_sample_json(agent_id: &str, role: i64, unix_ms: i64, metrics: JsonValue) -> (r:
    JsonValue)
    ensures
        r@ == shown_sample(agent_id@, role as int, unix_ms as int, metrics@),
{
    let ghost given = metrics@;
    let mut members = no_members();
    push_member(&mut members, "agent_id", text_value(agent_id));
    push_member(&mut members, "role", integer_value(role));
    push_member(&mut members, "unix_ms", integer_value(unix_ms));
    push_member(&mut members, "metrics", metrics);
    let r = object_value(members);
    assert(r@->Object_0 =~= shown_sample(agent_id@, role as int, unix_ms as int, given)->Object_0);
    r
}

/// A run with its results, as they are shown.
pub open spec fn shown_run(
    run: RunRecord,
    scenario: JsonView,
    metadata: JsonView,
    samples: Seq<JsonView>,
) -> JsonView {
    JsonView::Object(
        seq![
            ("id"@, JsonView::Text(run.id@)),
            ("run_name"@, optional_json(maybe(run.run_name))),
            ("started_at"@, optional_json(maybe(run.started_at))),
            ("finished_at"@, optional_json(maybe(run.finished_at))),
            ("status"@, JsonView::Text(run.status@)),
            ("error"@, optional_json(maybe(run.error))),
            ("scenario"@, redacted(scenario)),
            ("payload_metadata"@, metadata),
            ("samples"@, JsonView::Array(samples)),
        ],
    )
}

/// A run with its results, as they are shown: its scenario as it is recorded and, where it could be
/// read, as it is. A summary is shown without the samples.
pub fn run_detail(
    run: &RunRecord,
    scenario: JsonValue,
    parsed: Option<&Scenario>,
    samples: Vec<JsonValue>,
    summary: bool,
) -> (r: JsonValue)
    ensures
        exists|metadata: JsonView|
            {
                &&& #[trigger] is_metadata(metadata, as_read(parsed), json_views(samples@))
                &&& r@ == shown_run(
                    *run,
                    scenario@,
                    metadata,
                    if summary {
                        Seq::empty()
                    } else {
                        json_views(samples@)
                    },
                )
            },
{
    let ghost given = scenario@;
    let metadata = result_payload_metadata(parsed, &samples);
    let ghost told = metadata@;
    let shown: Vec<JsonValue> = if summary {
        no_items()
    } else {
        samples
    };
    let ghost items = json_views(shown@);
    let mut members = no_members();
    push_member(&mut members, "id", text_value(run.id.as_str()));
    push_member(&mut members, "run_name", optional_text(&run.run_name));
    push_member(&mut members, "started_at", optional_text(&run.started_at));
    push_member(&mut members, "finished_at", optional_text(&run.finished_at));
    push_member(&mut members, "status", text_value(run.status.as_str()));
    push_member(&mut members, "error", optional_text(&run.error));
    push_member(&mut members, "scenario", redacted_scenario(scenario));
    push_member(&mut members, "payload_metadata", metadata);
    push_member(&mut members, "samples", array_value(shown));
    let r = object_value(members);
    assert(r@->Object_0 =~= shown_run(*run, given, told, items)->Object_0);
    r
}

/// How the results of a run are handed out.
#[derive(Debug, Clone, Copy, PartialEq, Eq, Structural)]
pub enum ExportFormat {
    Csv,
    Json,
}

impl ExportFormat {
    /// The format that is asked for: a table where that is said, and otherwise JSON.
    pub fn from_name(name: Option<&str>) -> (r: ExportFormat)
        ensures
            r == (if name is Some && name->0@ == "csv"@ {
                ExportFormat::Csv
            } else {
                ExportFormat::Json
            }),
    {
        match name {
            Some(text) => if same_text(text, "csv") {
                ExportFormat::Csv
            } else {
                ExportFormat::Json
            },
            None => ExportFormat::Json,
        }
    }

    /// The media type.
    pub fn content_type(self) -> (r: &'static str)
        ensures
            r@ == (match self {
                ExportFormat::Csv => "text/csv"@,
                ExportFormat::Json => "application/json"@,
            }),
    {
        match self {
            ExportFormat::Csv => "text/csv",
            ExportFormat::Json => "application/json",
        }
    }

    /// Under which name the results are stored.
    pub fn disposition(self) -> (r: &'static str)
        ensures
            r@ == (match self {
                ExportFormat::Csv => "attachment; filename=run.csv"@,
                ExportFormat::Json => "attachment; filename=run.json"@,
            }),
    {
        match self {
            ExportFormat::Csv => "attachment; filename=run.csv",
            ExportFormat::Json => "attachment; filename=run.json",
        }
    }
}

} // verus!
