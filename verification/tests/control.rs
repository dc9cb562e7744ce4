use proxy_tester::capture::analysis::{CaptureAnalysis, CaptureFormat};
use proxy_tester::capture::packet::Exclusions;
use proxy_tester::control::artifacts::{
    capture_summary, check_existing, examine_upload, format_name, grow_upload, outgoing_chunk,
    payload_summary, show_upload, ArtifactKind, CHUNK_BYTES,
};
use proxy_tester::control::captures::analyze_capture;
use proxy_tester::control::certificates::{certificate_request, generate_tls_certificate};
use proxy_tester::control::checks::{check_scenario, diagnosis, preflight_report, NodeState};
use proxy_tester::control::database::{
    check_version, cleanup_step, schema_fallback_url, use_configured, CleanupStep, Removal,
};
use proxy_tester::control::error::{ApiError, ApiErrorKind};
use proxy_tester::control::network::{
    check_apply, check_archive, check_archived, check_plan, check_reply, check_teardown, lease_end,
    network_action, node_offline, plan_expiry, plan_missing, profile_nodes, reply_timeout_secs,
    token_hash, NodeReply, Operation, OperationStep, PlanRecord, Teardown, TeardownStep,
};
use proxy_tester::control::pause::{agent_disconnected, PauseStep};
use proxy_tester::control::registry::{
    check_greeting, is_online, AgentSession, Greeting, Registry,
};
use proxy_tester::control::results::{
    is_shown, metric_sample_json, next_cursor, page_limit, redacted_scenario,
    result_payload_metadata, run_detail, run_list_json, sample_limit, sample_stride,
    samples_table, ExportFormat, RunRecord, SampleRow,
};
use proxy_tester::control::runs::{ActiveRuns, AgentEvent, RunEnd};
use proxy_tester::control::server::{check_end, join_server_result};
use proxy_tester::control::start::{
    check_start, name_run, needed_artifacts, run_name, RunStart, StartStep,
};
use proxy_tester::domain::network::NetworkProfileDraft;
use proxy_tester::domain::payload::{PayloadKind, PayloadProfile, RandomFormat};
use proxy_tester::domain::scenario::Scenario;
use proxy_tester::id::Uuid;
use proxy_tester::json::{write_json, JsonValue};

fn text(value: &str) -> JsonValue {
    JsonValue::Text(value.into())
}

fn object(members: Vec<(&str, JsonValue)>) -> JsonValue {
    JsonValue::Object(members.into_iter().map(|(k, v)| (k.to_string(), v)).collect())
}

#[test]
fn validates_empty_classic_pcap() {
    let bytes = [
        0xd4, 0xc3, 0xb2, 0xa1, 2, 0, 4, 0, 0, 0, 0, 0, 0, 0, 0, 0, 0xff, 0xff, 0, 0, 1, 0, 0, 0,
    ];
    let result = analyze_capture(&bytes).expect("valid pcap");
    assert_eq!(result, ("pcap".to_string(), 0, 0));
}

#[test]
fn rejects_unknown_capture() {
    assert!(analyze_capture(b"not a capture file").is_err());
}

#[test]
fn result_payload_metadata_redacts_content_and_keeps_random_digest() {
    let mut scenario = Scenario::default();
    scenario.request_payload = Some(PayloadProfile {
        kind: PayloadKind::Text,
        text: "DLP-비밀".into(),
        ..Default::default()
    });
    scenario.response_payload = Some(PayloadProfile {
        kind: PayloadKind::Random,
        size_bytes: 1024,
        random_format: RandomFormat::PrintableAscii,
        ..Default::default()
    });
    let samples = vec![object(vec![
        ("role", JsonValue::Unsigned(2)),
        ("metrics", object(vec![("response_random_sha256", text("abc123"))])),
    ])];
    let metadata = result_payload_metadata(Some(&scenario), &samples);
    let request = metadata.get("request").unwrap();
    let response = metadata.get("response").unwrap();
    assert_eq!(request.get_text("direction"), Some("client_to_server"));
    assert_eq!(request.get_number("size_bytes"), Some(10));
    assert!(request.get("text").is_none());
    assert_eq!(response.get_text("sha256"), Some("abc123"));
    assert_eq!(response.get_text("random_format"), Some("printable_ascii"));
}

#[test]
fn schema_v4_rejects_legacy_database_without_deleting_it() {
    assert!(check_version(Some(3)).is_err());
    assert!(!use_configured(Some(3), true, true));
    assert_eq!(
        schema_fallback_url("sqlite://data/proxy.db?mode=rwc").unwrap(),
        "sqlite://data/proxy.schema-4.db?mode=rwc"
    );
}

#[test]
fn databases_of_this_schema_are_used() {
    assert!(check_version(Some(4)).is_ok());
    assert!(check_version(None).is_ok());
    assert!(use_configured(Some(4), true, true));
    assert!(use_configured(None, false, false));
    assert!(!use_configured(None, false, true));
    assert_eq!(schema_fallback_url("sqlite://proxy").unwrap(), "sqlite://proxy.schema-4.db");
    assert!(schema_fallback_url("postgres://x").is_err());
}

#[test]
fn errors_have_their_status() {
    assert_eq!(ApiError::bad("a").status(), 400);
    assert_eq!(ApiError::not_found("a").status(), 404);
    assert_eq!(ApiError::conflict("a").status(), 409);
    assert_eq!(ApiError::internal("a").status(), 500);
    assert_eq!(ApiError::bad("a").duplicate(), ApiError::bad("a"));
    assert_eq!(ApiError::bad("a").code(), "bad_request");
    assert_eq!(ApiError::not_found("a").code(), "not_found");
    assert_eq!(ApiError::conflict("a").code(), "conflict");
    assert_eq!(ApiError::internal("a").code(), "internal");
    let mut scenario = Scenario::default();
    assert!(check_scenario(&scenario).is_ok());
    scenario.name = " ".into();
    let refused = check_scenario(&scenario).unwrap_err();
    assert_eq!((refused.status(), refused.code()), (400, "invalid_scenario"));
    let body = write_json(&refused.body());
    assert_eq!(body, "{\"code\":\"invalid_scenario\",\"message\":\"name은 비어 있을 수 없습니다\"}");
}

fn session(id: &str, generation: u128, last_seen_ms: i64) -> AgentSession {
    AgentSession {
        id: id.into(),
        instance_id: "i".into(),
        generation: Uuid { value: generation },
        hostname: "h".into(),
        interfaces: Vec::new(),
        inventory_json: "{}".into(),
        last_seen_ms,
    }
}

#[test]
fn newer_connections_of_an_agent_replace_older_ones() {
    let mut registry = Registry::default();
    registry.connect(session("a", 1, 10));
    registry.connect(session("a", 2, 20));
    assert_eq!(registry.sessions.len(), 1);
    registry.heartbeat("a", Uuid { value: 1 }, 99);
    assert_eq!(registry.find("a").unwrap().last_seen_ms, 20);
    registry.heartbeat("a", Uuid { value: 2 }, 99);
    assert_eq!(registry.find("a").unwrap().last_seen_ms, 99);
    assert!(!registry.disconnect("a", Uuid { value: 1 }));
    assert!(registry.disconnect("a", Uuid { value: 2 }));
    assert!(registry.find("a").is_none());
    assert!(is_online(85_000, 99_999));
    assert!(!is_online(85_000, 100_000));
}

fn event(run: u128, level: &str, message: &str, endpoint_role: i32) -> AgentEvent {
    AgentEvent {
        run_id: Uuid { value: run }.to_text(),
        level: level.into(),
        message: message.into(),
        endpoint_role,
    }
}

#[test]
fn runs_complete_when_both_ends_have() {
    let id = Uuid { value: 1 };
    let mut runs = ActiveRuns::default();
    runs.begin(id, "a", "b");
    assert!(runs.has(id));
    assert_eq!(runs.run_id(), Some(id));
    assert_eq!(runs.agents(id).unwrap(), ["a", "b"]);
    assert_eq!(runs.event("a", &event(1, "info", "run_completed", 1)), RunEnd::GoesOn);
    assert_eq!(runs.event("a", &event(1, "info", "run_completed", 1)), RunEnd::GoesOn);
    assert_eq!(runs.event("b", &event(2, "info", "run_completed", 2)), RunEnd::GoesOn);
    assert_eq!(runs.event("b", &event(1, "info", "run_completed", 2)), RunEnd::Completed(id));
    assert!(!runs.has(id));
}

#[test]
fn runs_fail_with_their_agents() {
    let id = Uuid { value: 1 };
    let mut runs = ActiveRuns::default();
    runs.begin(id, "a", "a");
    assert_eq!(runs.agents(id).unwrap(), ["a"]);
    assert!(runs.agent_lost("b").is_none());
    assert!(runs.agent_lost("a").is_some());
    assert_eq!(
        runs.grace_over(id, "a", true),
        RunEnd::Failed(id, "agent_reconnected_no_resume: a".into())
    );
    assert_eq!(runs.grace_over(id, "a", true), RunEnd::GoesOn);
    runs.begin(id, "a", "b");
    assert_eq!(
        runs.event("b", &event(1, "error", "bind failed", 2)),
        RunEnd::Failed(id, "endpoint_worker_failed: bind failed".into())
    );
    runs.begin(id, "a", "b");
    runs.finish(Uuid { value: 2 });
    assert!(runs.has(id));
    runs.finish(id);
    assert!(!runs.has(id));
}

#[test]
fn runs_are_named_and_checked_before_they_start() {
    assert_eq!(name_run(Some("  mine "), "s", None), "mine");
    assert_eq!(run_name(None, "smoke", 0), "smoke · 1970-01-01 00:00:00 UTC");
    assert_eq!(run_name(Some(" "), "smoke", 1_700_000_000), "smoke · 2023-11-14 22:13:20 UTC");
    assert_eq!(run_name(None, "smoke", i64::MAX), "smoke · ");
    let mut runs = ActiveRuns::default();
    assert!(check_start(&runs, true, Some(0), Some(0), 10).is_ok());
    let kind = |r: Result<(), ApiError>| r.unwrap_err().kind;
    assert_eq!(kind(check_start(&runs, false, Some(0), Some(0), 10)), ApiErrorKind::Conflict);
    assert_eq!(kind(check_start(&runs, true, None, Some(0), 10)), ApiErrorKind::BadRequest);
    assert_eq!(
        kind(check_start(&runs, true, Some(0), Some(-20_000), 10)),
        ApiErrorKind::BadRequest
    );
    runs.begin(Uuid { value: 1 }, "a", "b");
    assert_eq!(kind(check_start(&runs, true, Some(0), Some(0), 10)), ApiErrorKind::Conflict);
    let mut scenario = Scenario::default();
    assert!(needed_artifacts(&scenario).is_empty());
    scenario.request_payload = Some(PayloadProfile {
        kind: PayloadKind::File,
        artifact_id: Some(Uuid { value: 4 }),
        ..Default::default()
    });
    assert_eq!(needed_artifacts(&scenario), [Uuid { value: 4 }]);
}

#[test]
fn failed_starts_stop_both_ends() {
    let mut start = RunStart::new(false);
    let mut steps = Vec::new();
    while start.step != StartStep::StartServer {
        steps.push(start.step);
        start.advance(Ok(()));
    }
    assert_eq!(steps[0], StartStep::SendToClient);
    start.advance(Err(ApiError::internal("no answer")));
    assert_eq!(start.step, StartStep::StopBoth);
    start.advance(Err(ApiError::internal("gone")));
    assert_eq!(start.step, StartStep::RecordFailure);
    start.advance(Ok(()));
    assert_eq!(start.step, StartStep::Failed);
    assert_eq!(start.error.unwrap().message, "no answer");
    let mut whole = RunStart::new(true);
    while whole.step != StartStep::Done {
        assert_ne!(whole.step, StartStep::SendToServer);
        whole.advance(Ok(()));
    }
}

#[test]
fn both_ends_start_at_the_same_moment() {
    let mut start = RunStart::new(false);
    while start.step != StartStep::StartClient {
        start.advance(Ok(()));
    }
    assert_eq!(start.start_time(5_000), 6_000);
    start.advance(Ok(()));
    assert_eq!(start.step, StartStep::StartServer);
    assert_eq!(start.start_time(5_900), 6_000);
}

#[test]
fn operations_take_effect_on_all_nodes_or_on_none() {
    let nodes = || vec!["a".to_string(), "b".to_string()];
    let mut operation = Operation::start(nodes());
    let mut seen = Vec::new();
    while operation.step != OperationStep::Done {
        seen.push((operation.step, operation.node().map(str::to_string)));
        operation.advance(Ok(()));
    }
    assert_eq!(seen.len(), 5);
    assert_eq!(seen[3], (OperationStep::Commit, Some("b".to_string())));
    let mut operation = Operation::start(nodes());
    operation.advance(Ok(()));
    operation.advance(Err(node_offline("b")));
    assert_eq!(operation.step, OperationStep::Rollback);
    while operation.step == OperationStep::Rollback {
        operation.advance(Ok(()));
    }
    assert_eq!(operation.step, OperationStep::RecordFailure);
    operation.advance(Ok(()));
    assert_eq!(operation.step, OperationStep::Failed);
    assert_eq!(operation.error, Some(node_offline("b")));
}

#[test]
fn failed_teardowns_quarantine_the_node() {
    let mut teardown = Teardown::start(vec!["a".into(), "b".into()]);
    teardown.advance(Ok(()));
    assert_eq!(teardown.node(), "b");
    teardown.advance(Err(ApiError::internal("busy")));
    assert_eq!(teardown.step, TeardownStep::Quarantine);
    teardown.advance(Ok(()));
    assert_eq!(teardown.step, TeardownStep::Failed);
    let mut teardown = Teardown::start(vec!["a".into()]);
    teardown.advance(Ok(()));
    teardown.advance(Ok(()));
    assert_eq!(teardown.step, TeardownStep::Done);
}

#[test]
fn plans_are_applied_once_and_in_time() {
    let record = |status: &str, expires_at: &str| {
        Some(PlanRecord {
            status: status.into(),
            token_hash: token_hash("secret"),
            expires_at: expires_at.into(),
        })
    };
    let at = (1_700_000_000, 0);
    let good = "2023-11-14T22:13:20.5+00:00";
    let told = |r: Result<(), ApiError>| r.unwrap_err().message;
    assert!(check_apply(false, &record("planned", good), "secret", at).is_ok());
    assert!(check_apply(false, &record("planned", "2023-11-14T23:13:20+01:00"), "secret", at).is_ok());
    assert_eq!(
        told(check_apply(false, &record("planned", good), "secret", (1_700_000_001, 0))),
        "network plan expired"
    );
    assert_eq!(
        told(check_apply(false, &record("planned", good), "other", at)),
        "invalid plan token"
    );
    assert_eq!(
        told(check_apply(false, &record("applied", good), "secret", at)),
        "network plan token is single-use"
    );
    assert_eq!(
        told(check_apply(false, &record("planned", "soon"), "secret", at)),
        "invalid plan expiry"
    );
    assert_eq!(told(check_apply(false, &None, "secret", at)), "network plan not found");
    assert_eq!(
        told(check_apply(true, &record("planned", good), "secret", at)),
        "network profile cannot be applied during a run"
    );
    assert!(check_plan(false, &record("planned", ""), "secret", Some((5, 1)), (5, 1)).is_ok());
    let expires = plan_expiry((1_000, 7));
    assert_eq!(expires, (1_300, 7));
    assert!(check_plan(false, &record("planned", ""), "secret", Some(expires), (1_300, 7)).is_ok());
    assert!(check_plan(false, &record("planned", ""), "secret", Some(expires), (1_300, 8)).is_err());
    assert_eq!(lease_end(1_000), 181_000);
    assert!(check_plan(false, &record("planned", ""), "secret", Some((5, 1)), (5, 2)).is_err());
}

#[test]
fn nodes_answer_network_commands() {
    let mut draft = NetworkProfileDraft::default();
    assert_eq!(profile_nodes(&draft), ["node-1"]);
    draft.server_endpoint.node_id = "node-2".into();
    assert_eq!(profile_nodes(&draft), ["node-1", "node-2"]);
    assert!(network_action("stage").is_ok());
    assert_eq!(network_action("fly").unwrap_err().message, "unknown network action fly");
    assert!(check_reply("n", "stage", &NodeReply::Accepted).is_ok());
    assert_eq!(
        check_reply("n", "stage", &NodeReply::Refused("busy".into())).unwrap_err().message,
        "node n stage failed: busy"
    );
    assert_eq!(
        check_reply("n", "stage", &NodeReply::Silent).unwrap_err().message,
        "node n stage timed out"
    );
    assert!(node_offline("n").message.contains("n"));
    assert!(plan_missing("n").message.contains("n"));
    assert!(reply_timeout_secs(1) >= 1);
}

#[test]
fn uploads_are_limited_by_kind() {
    assert_eq!(ArtifactKind::from_name(None).unwrap(), ArtifactKind::Pcap);
    assert_eq!(ArtifactKind::from_name(Some("payload")).unwrap(), ArtifactKind::Payload);
    assert!(ArtifactKind::from_name(Some("film")).is_err());
    assert_eq!(ArtifactKind::Pcap.name(), "pcap");
    let limit = ArtifactKind::Payload.limit();
    assert_eq!(grow_upload(ArtifactKind::Payload, limit - 1, 1).unwrap(), limit);
    assert!(grow_upload(ArtifactKind::Payload, limit, 1).is_err());
    assert!(check_existing(ArtifactKind::Pcap, "pcap").is_ok());
    assert!(check_existing(ArtifactKind::Pcap, "payload").is_err());
    assert_eq!(format_name(CaptureFormat::PcapNg), "pcapng");
    let analysis = CaptureAnalysis {
        packet_count: 3,
        captured_bytes: 9,
        flows: Vec::new(),
        exclusions: Exclusions::default(),
    };
    assert!(matches!(capture_summary(&analysis), JsonValue::Object(_)));
    assert!(matches!(payload_summary(), JsonValue::Object(_)));
}

#[test]
fn uploads_are_examined_and_shown() {
    let upload = examine_upload(ArtifactKind::Payload, b"abc").unwrap();
    assert_eq!((upload.format.as_str(), upload.size), ("raw", 3));
    assert_eq!((upload.packets, upload.captured_bytes), (0, 3));
    assert_eq!(
        upload.sha256,
        "ba7816bf8f01cfea414140de5dae2223b00361a396177a9cb410ff61f20015ad"
    );
    let shown = show_upload("new", None, "a.bin", upload).unwrap();
    assert_eq!(shown.get_text("id"), Some("new"));
    assert_eq!(shown.get_text("kind"), Some("payload"));
    assert_eq!(shown.get_text("name"), Some("a.bin"));
    assert_eq!(shown.get_text("status"), Some("validated"));
    assert_eq!(shown.get("size_bytes"), Some(&JsonValue::Unsigned(3)));
    let capture = [
        0xd4, 0xc3, 0xb2, 0xa1, 2, 0, 4, 0, 0, 0, 0, 0, 0, 0, 0, 0, 0xff, 0xff, 0, 0, 1, 0, 0, 0,
    ];
    let upload = examine_upload(ArtifactKind::Pcap, &capture).unwrap();
    assert_eq!((upload.format.as_str(), upload.size, upload.packets), ("pcap", 24, 0));
    assert_eq!(upload.summary.get("supported_flow_count"), Some(&JsonValue::Unsigned(0)));
    let shown = show_upload("new", Some(("old", "pcap")), "a", upload).unwrap();
    assert_eq!(shown.get_text("id"), Some("old"));
    let upload = examine_upload(ArtifactKind::Pcap, &capture).unwrap();
    let refused = show_upload("new", Some(("old", "payload")), "a", upload).err().unwrap();
    assert_eq!(refused.kind, ApiErrorKind::Conflict);
    let refused = examine_upload(ArtifactKind::Pcap, b"abc").err().unwrap();
    assert_eq!(refused, ApiError::bad("capture is truncated"));
}

#[test]
fn artifacts_are_sent_in_parts() {
    let content = vec![7_u8; CHUNK_BYTES + 5];
    let first = outgoing_chunk(Uuid { value: 1 }, "payload", "s", &content, 0);
    assert_eq!((first.data.len(), first.eof), (CHUNK_BYTES, false));
    let second = outgoing_chunk(Uuid { value: 1 }, "payload", "s", &content, CHUNK_BYTES);
    assert_eq!((second.data.len(), second.eof), (5, true));
    assert_eq!(second.offset, CHUNK_BYTES as u64);
    assert_eq!(second.total_size, content.len() as u64);
    let empty = outgoing_chunk(Uuid { value: 1 }, "payload", "s", &[], 0);
    assert!(empty.eof && empty.data.is_empty());
}

#[test]
fn results_are_shown_in_pages_and_samples() {
    assert_eq!(page_limit(None), 25);
    assert_eq!(page_limit(Some(0)), 1);
    assert_eq!(page_limit(Some(1_000)), 100);
    assert_eq!(next_cursor(&vec![Some(9), Some(8), Some(7)], 2), Some(8));
    assert_eq!(next_cursor(&vec![Some(9), Some(8)], 2), None);
    let limit = sample_limit(Some(10));
    let stride = sample_stride(1_001, limit);
    let shown = (0..1_001).filter(|i| is_shown(*i, stride)).count();
    assert!(shown <= limit && shown > 0);
    let rows = vec![SampleRow {
        agent_id: "a".into(),
        role: "1".into(),
        unix_ms: "5".into(),
        metrics: "\"{}\"".into(),
    }];
    assert_eq!(samples_table(&rows), "agent_id,role,unix_ms,metrics_json\na,1,5,\"{}\"\n");
}

#[test]
fn shown_scenarios_hide_keys_and_payload_text() {
    let shown = redacted_scenario(object(vec![
        ("tls", object(vec![("server_key_pem", text("SECRET")), ("enabled", JsonValue::Bool(true))])),
        ("request_payload", object(vec![("text", text("SECRET"))])),
        ("name", text("n")),
    ]));
    assert_eq!(shown.get("tls").unwrap().get("server_key_pem"), Some(&JsonValue::Null));
    assert_eq!(shown.get("tls").unwrap().get("enabled"), Some(&JsonValue::Bool(true)));
    assert_eq!(shown.get("request_payload").unwrap().get_text("text"), Some(""));
    assert_eq!(shown.get_text("name"), Some("n"));
}

fn decoded(pem: &str) -> Vec<u8> {
    rustls_pemfile::certs(&mut pem.as_bytes()).next().unwrap().unwrap().to_vec()
}

fn holds(bytes: &[u8], text: &str) -> bool {
    bytes.windows(text.len()).any(|part| part == text.as_bytes())
}

#[test]
fn certificates_are_generated_for_a_name() {
    let made = generate_tls_certificate(" origin.test ", 1_700_000_000).unwrap();
    assert!(made.ca_pem.starts_with("-----BEGIN CERTIFICATE-----"));
    assert!(made.server_cert_pem.starts_with("-----BEGIN CERTIFICATE-----"));
    assert!(made.server_key_pem.contains("PRIVATE KEY"));
    assert_ne!(made.ca_pem, made.server_cert_pem);
    assert_eq!(made.validity_days, 30);
    let ca = decoded(&made.ca_pem);
    let server = decoded(&made.server_cert_pem);
    for certificate in [&ca, &server] {
        assert!(holds(certificate, "Proxy Tester Local CA"));
        assert!(holds(certificate, "231114220820Z"));
        assert!(holds(certificate, "231214221320Z"));
    }
    assert!(holds(&server, "origin.test"));
    assert!(!holds(&ca, "origin.test"));
    assert_ne!(
        generate_tls_certificate("origin.test", 1_700_000_000).unwrap().server_key_pem,
        made.server_key_pem
    );
    let refused = generate_tls_certificate("서버.test", 1_700_000_000).err().unwrap();
    assert_eq!(refused.kind, ApiErrorKind::BadRequest);
    assert_eq!(refused.message, "Invalid IA5String: '서버.test'");
    let request = certificate_request(" origin.test ", 1_700_000_000).unwrap();
    assert_eq!(request.server_name, "origin.test");
    assert_eq!(request.from, 1_700_000_000 - 300);
    assert_eq!(request.to, 1_700_000_000 + 30 * 86_400);
    assert!(certificate_request(" ", 0).is_err());
    assert!(certificate_request(&"a".repeat(254), 0).is_err());
}

fn items(value: &JsonValue, name: &str) -> usize {
    value.get_array(name).unwrap().len()
}

#[test]
fn checks_tell_what_is_missing() {
    let report = preflight_report("a", true, "b", false, true);
    assert_eq!(report.get("ok"), Some(&JsonValue::Bool(false)));
    assert_eq!(items(&report, "checks"), 3);
    let second = &report.get_array("checks").unwrap()[1];
    assert_eq!(second.get_text("name"), Some("server_node"));
    assert_eq!(second.get("ok"), Some(&JsonValue::Bool(false)));
    assert_eq!(second.get_text("detail"), Some("b"));
    assert_eq!(
        preflight_report("a", true, "b", true, true).get("ok"),
        Some(&JsonValue::Bool(true))
    );
    let node = |id: &str, hostname: Option<&str>, interfaces: Vec<JsonValue>| NodeState {
        node_id: id.into(),
        hostname: hostname.map(str::to_string),
        inventory: object(vec![("interfaces", JsonValue::Array(interfaces))]),
    };
    let id = Uuid { value: 2 };
    let nodes = vec![node("a", None, vec![]), node("b", Some("host"), vec![JsonValue::Null])];
    let report = diagnosis(id, &nodes, true);
    assert_eq!(items(&report, "checks"), 4);
    assert_eq!(report.get("ok"), Some(&JsonValue::Bool(false)));
    let checks = report.get_array("checks").unwrap();
    assert_eq!(checks[0].get_text("detail"), Some("agent is offline"));
    assert_eq!(items(checks[2].get("detail").unwrap(), "interfaces"), 1);
    let well = diagnosis(id, &vec![node("b", Some("host"), vec![JsonValue::Null])], true);
    assert_eq!(well.get("ok"), Some(&JsonValue::Bool(true)));
    let bare = diagnosis(id, &vec![node("b", Some("host"), vec![])], true);
    assert_eq!(bare.get("ok"), Some(&JsonValue::Bool(false)));
}

#[test]
fn runs_are_paused_on_all_ends() {
    let id = Uuid { value: 1 };
    let mut runs = ActiveRuns::default();
    assert_eq!(
        runs.set_paused(id, true).unwrap_err(),
        ApiError::bad("실행 중인 run이 아닙니다")
    );
    assert!(runs.stop(id).is_err());
    runs.begin(id, "a", "b");
    assert_eq!(runs.stop(id).unwrap(), ["a", "b"]);
    let mut pausing = runs.set_paused(id, true).unwrap();
    assert_eq!((pausing.command(), pausing.status()), ("pause", "paused"));
    assert_eq!(pausing.agent(), Some("a"));
    pausing.advance(Ok(()));
    assert_eq!(pausing.agent(), Some("b"));
    let mut failing = pausing.clone();
    pausing.advance(Ok(()));
    assert_eq!(pausing.step, PauseStep::Record);
    pausing.advance(Ok(()));
    assert_eq!(pausing.step, PauseStep::Done);
    failing.advance(Err(agent_disconnected("b")));
    assert_eq!(failing.step, PauseStep::Failed);
    assert_eq!(failing.error.unwrap().message, "b is disconnected");
    let resuming = runs.set_paused(id, false).unwrap();
    assert_eq!((resuming.command(), resuming.status()), ("resume", "running"));
}

#[test]
fn profiles_in_use_are_not_archived() {
    assert!(check_archive(false, 0).is_ok());
    assert_eq!(check_archive(true, 0).unwrap_err().kind, ApiErrorKind::Conflict);
    assert_eq!(check_archive(false, 1).unwrap_err().kind, ApiErrorKind::Conflict);
    assert!(check_archived(1).is_ok());
    assert_eq!(check_archived(0).unwrap_err().kind, ApiErrorKind::NotFound);
    assert!(check_teardown(false).is_ok());
    assert_eq!(check_teardown(true).unwrap_err().kind, ApiErrorKind::Conflict);
}

#[test]
fn artifacts_in_use_are_kept() {
    assert_eq!(cleanup_step(1, 0, None), CleanupStep::Keep);
    assert_eq!(cleanup_step(0, 1, None), CleanupStep::Keep);
    assert_eq!(cleanup_step(0, 0, None), CleanupStep::RemoveFile);
    assert_eq!(cleanup_step(0, 0, Some(Removal::Removed)), CleanupStep::Forget);
    assert_eq!(cleanup_step(0, 0, Some(Removal::Absent)), CleanupStep::Forget);
    assert_eq!(cleanup_step(0, 0, Some(Removal::Failed)), CleanupStep::Keep);
}

#[test]
fn agents_have_to_say_who_they_are() {
    assert_eq!(check_greeting(Greeting::Missing), Err("hello required"));
    assert_eq!(check_greeting(Greeting::Other), Err("first message must be hello"));
    assert_eq!(
        check_greeting(Greeting::Hello { has_inventory: false }),
        Err("node inventory required")
    );
    assert!(check_greeting(Greeting::Hello { has_inventory: true }).is_ok());
}

#[test]
fn runs_are_listed_and_shown_without_secrets() {
    let run = RunRecord {
        id: "r".into(),
        scenario_id: Some("s".into()),
        run_name: None,
        status: "completed".into(),
        started_at: Some("now".into()),
        finished_at: None,
        error: None,
    };
    let scenario = || object(vec![("tls", object(vec![("server_key_pem", text("SECRET"))]))]);
    let key = |value: &JsonValue| {
        value.get("scenario").unwrap().get("tls").unwrap().get("server_key_pem").unwrap().duplicate()
    };
    let listed = run_list_json(&run, scenario());
    assert_eq!(listed.get_text("scenario_id"), Some("s"));
    assert_eq!(listed.get("run_name"), Some(&JsonValue::Null));
    assert_eq!(key(&listed), JsonValue::Null);
    let samples = || vec![metric_sample_json("a", -1, 5, JsonValue::Null)];
    assert_eq!(samples()[0].get("role"), Some(&JsonValue::Negative(-1)));
    assert_eq!(samples()[0].get_number("unix_ms"), Some(5));
    let shown = run_detail(&run, scenario(), Some(&Scenario::default()), samples(), false);
    assert_eq!(items(&shown, "samples"), 1);
    assert_eq!(key(&shown), JsonValue::Null);
    assert_eq!(shown.get("payload_metadata").unwrap().get_text("mode"), Some("manual"));
    let summary = run_detail(&run, scenario(), None, samples(), true);
    assert_eq!(items(&summary, "samples"), 0);
    assert_eq!(summary.get("payload_metadata"), Some(&JsonValue::Null));
}

#[test]
fn results_are_handed_out_as_asked() {
    assert_eq!(ExportFormat::from_name(Some("csv")), ExportFormat::Csv);
    assert_eq!(ExportFormat::from_name(Some("xml")), ExportFormat::Json);
    assert_eq!(ExportFormat::from_name(None).content_type(), "application/json");
    assert_eq!(ExportFormat::Csv.content_type(), "text/csv");
    assert_eq!(ExportFormat::Csv.disposition(), "attachment; filename=run.csv");
    assert_eq!(ExportFormat::Json.disposition(), "attachment; filename=run.json");
}

#[test]
fn servers_tell_how_they_ended() {
    assert!(join_server_result("gRPC", Ok(Ok(()))).is_ok());
    assert_eq!(
        join_server_result("gRPC", Err("panic".into())).unwrap_err(),
        "gRPC server task failed: panic"
    );
    assert_eq!(
        join_server_result("HTTP", Ok(Err("bind".into()))).unwrap_err(),
        "HTTP server stopped with an error: bind"
    );
    assert!(check_end(None).is_ok());
    assert_eq!(check_end(Some(Ok(()))).unwrap_err(), "server stopped unexpectedly");
    assert_eq!(check_end(Some(Err("bind".into()))).unwrap_err(), "bind");
}
