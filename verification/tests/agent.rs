use proxy_tester::agent::artifact::{
    accept_chunk, finish, ArtifactChunk, ChunkStep, CompletedArtifact, Transfers,
};
use proxy_tester::agent::commands::{command_seen, remember_command, CompletedCommands};
use proxy_tester::agent::connector::{
    check_connect, connect_address, connect_request, head_too_large, needs_tunnel, push_head_byte,
    source_index, HeadStep, MAX_CONNECT_HEAD_BYTES,
};
use proxy_tester::agent::http1::{
    check_response, closed_message, connection_is_done, header_equals, is_last_transaction,
    next_block, parse_numeric_header, read_frame, reply_to, request_head, serve_request,
    FrameState, FrameStep,
};
use proxy_tester::agent::http2::{
    can_launch, data_size, goes_on, protocol_agreed, request_uri, response_body, stream_turns,
    wanted_capacity, Http2Body,
};
use proxy_tester::agent::payload::{format_random, materialize, zero_bytes, PreparedPayloads};
use proxy_tester::agent::replay::{rewrite_request, validate_flows, ReplayRole};
use proxy_tester::agent::runner::{
    client_work, connection_counts, flow_index, run_duration_ms, server_work, ClientWork, RunClock,
    ServerWork, WorkerGate,
};
use proxy_tester::agent::tcp::{detect_flow, no_match_message, turn_step, Detection};
use proxy_tester::agent::telemetry::{
    classify_failure, percentile_index, percentiles, random_payload_hashes, report_deltas,
    reported_latency, ActiveWindow, Counters, Percentile, Percentiles,
};
use proxy_tester::agent::tls::{accept_settings, connect_settings, select_suites};
use proxy_tester::capture::packet::Direction;
use proxy_tester::capture::segments::ReplayTurn;
use proxy_tester::control::certificates::generate_tls_certificate;
use proxy_tester::digest::sha256_hex;
use proxy_tester::domain::payload::{PayloadKind, PayloadProfile, RandomFormat};
use proxy_tester::domain::scenario::{Protocol, Scenario, ScenarioPath};
use proxy_tester::domain::tls::TlsVersion;
use proxy_tester::id::Uuid;
use proxy_tester::ip::IpAddr;

fn to_server(payload: &[u8]) -> ReplayTurn {
    ReplayTurn { direction: Direction::ClientToServer, payload: payload.to_vec() }
}

fn to_client(payload: &[u8]) -> ReplayTurn {
    ReplayTurn { direction: Direction::ServerToClient, payload: payload.to_vec() }
}

fn proxied() -> Scenario {
    Scenario {
        path: ScenarioPath::ExplicitProxy {
            client_node_id: "client".into(),
            client_bind_ip: IpAddr::V4(0xc000_020a),
            server_node_id: "server".into(),
            server_listen_ip: IpAddr::V4(0xc000_0214),
            server_port: 8080,
            proxy_addr: "proxy.test:3128".into(),
        },
        ..Scenario::default()
    }
}

#[test]
fn command_deduplication_is_bounded_and_idempotent() {
    let mut completed = CompletedCommands::default();
    remember_command(&mut completed, "first");
    remember_command(&mut completed, "first");
    assert!(command_seen(&completed, "first"));
    assert_eq!(completed.order.len(), 1);
    for index in 0..256 {
        remember_command(&mut completed, &format!("command-{index}"));
    }
    assert_eq!(completed.order.len(), 256);
    assert!(!command_seen(&completed, "first"));
    assert!(!command_seen(&completed, ""));
}

fn chunk(id: Uuid, offset: u64, data: &[u8], total: u64, sha256: &str, eof: bool) -> ArtifactChunk {
    ArtifactChunk {
        artifact_id: id.to_text(),
        offset,
        data: data.to_vec(),
        total_size: total,
        sha256: sha256.into(),
        eof,
        artifact_kind: "payload".into(),
    }
}

#[test]
fn artifact_chunks_are_assembled_and_verified() {
    let id = Uuid::new_v4();
    let bytes = b"request payload";
    let sha = sha256_hex(bytes);
    let mut transfers = Transfers::default();
    let total = bytes.len() as u64;
    assert_eq!(
        accept_chunk(&mut transfers, &chunk(id, 0, &bytes[..4], total, &sha, false)).unwrap(),
        ChunkStep::Store { first: true, last: false }
    );
    assert_eq!(
        accept_chunk(&mut transfers, &chunk(id, 4, &bytes[4..], total, &sha, true)).unwrap(),
        ChunkStep::Store { first: false, last: true }
    );
    finish(&mut transfers, id, bytes.to_vec(), "/tmp/part").unwrap();
    let Some(CompletedArtifact::Payload(completed)) = transfers.find(id) else {
        panic!("payload expected")
    };
    assert_eq!(completed.as_slice(), bytes);
    assert_eq!(
        accept_chunk(&mut transfers, &chunk(id, 0, bytes, total, &sha, true)).unwrap(),
        ChunkStep::Ignore
    );
}

#[test]
fn artifact_chunk_rejects_bad_offset_and_digest() {
    let id = Uuid::new_v4();
    let mut transfers = Transfers::default();
    assert!(accept_chunk(&mut transfers, &chunk(id, 1, b"x", 1, "bad", true)).is_err());
    transfers.incoming.clear();
    accept_chunk(&mut transfers, &chunk(id, 0, b"x", 1, "bad", true)).unwrap();
    assert!(finish(&mut transfers, id, b"x".to_vec(), "").is_err());
    assert!(transfers.incoming.is_empty());
    assert!(transfers.find(id).is_none());
}

#[test]
fn capture_artifact_stays_on_disk_until_prepare() {
    let id = Uuid::new_v4();
    let bytes = b"pcap bytes";
    let sha = sha256_hex(bytes);
    let mut message = chunk(id, 0, bytes, bytes.len() as u64, &sha, true);
    message.artifact_kind = "pcap".into();
    let mut transfers = Transfers::default();
    accept_chunk(&mut transfers, &message).unwrap();
    finish(&mut transfers, id, bytes.to_vec(), "/var/spool/capture.part").unwrap();
    let Some(CompletedArtifact::Capture(path)) = transfers.find(id) else {
        panic!("capture file expected")
    };
    assert_eq!(path, "/var/spool/capture.part");
}

#[test]
fn every_refusal_of_a_chunk_is_told() {
    let id = Uuid { value: 7 };
    let name = "00000000-0000-0000-0000-000000000007";
    let refusal = |transfers: &mut Transfers, message: &ArtifactChunk| {
        accept_chunk(transfers, message).unwrap_err().message
    };
    let mut transfers = Transfers::default();
    let mut odd = chunk(id, 0, b"x", 1, "s", false);
    odd.artifact_id = "odd".into();
    assert!(!refusal(&mut transfers, &odd).is_empty());
    assert_eq!(
        refusal(&mut transfers, &chunk(id, 0, b"x", 64 * 1024 * 1024 + 1, "s", false)),
        format!("artifact {name} exceeds the agent limit")
    );
    assert_eq!(
        refusal(&mut transfers, &chunk(id, 1, b"x", 4, "s", false)),
        format!("artifact {name} first chunk offset must be zero")
    );
    let mut fresh = Transfers::default();
    assert!(refusal(&mut fresh, &chunk(id, 0, b"abc", 2, "s", false)).contains("declared size"));
    assert_eq!((fresh.incoming.len(), fresh.incoming[0].received), (1, 0));
    accept_chunk(&mut transfers, &chunk(id, 0, b"ab", 4, "s", false)).unwrap();
    assert_eq!(
        refusal(&mut transfers, &chunk(id, 2, b"cd", 5, "s", false)),
        format!("artifact {name} metadata changed during transfer")
    );
    assert_eq!(
        refusal(&mut transfers, &chunk(id, 3, b"d", 4, "s", false)),
        format!("artifact {name} chunk offset mismatch")
    );
    assert_eq!(
        refusal(&mut transfers, &chunk(id, 2, b"cde", 4, "s", false)),
        format!("artifact {name} exceeds declared size")
    );
    assert_eq!(
        refusal(&mut transfers, &chunk(id, 2, b"c", 4, "s", true)),
        format!("artifact {name} ended before declared size")
    );
    assert_eq!(transfers.incoming[0].received, 3);
    accept_chunk(&mut transfers, &chunk(id, 3, b"d", 4, "s", true)).unwrap();
    assert_eq!(
        finish(&mut transfers, id, b"abcd".to_vec(), "").unwrap_err().message,
        format!("artifact {name} SHA-256 mismatch")
    );
    assert_eq!(
        finish(&mut transfers, id, b"abcd".to_vec(), "").unwrap_err().message,
        "artifact transfer state"
    );
}

#[test]
fn replay_peers_follow_bidirectional_turns() {
    let turns = [to_server(b"one"), to_client(b"two"), to_server(b"three"), to_client(b"four")];
    let totals = |role: ReplayRole| {
        let mut sent = 0;
        let mut received = 0;
        for turn in &turns {
            let step = turn_step(turn, role, Protocol::Tcp);
            assert!(!step.completes);
            if step.sends {
                sent += step.bytes;
            } else {
                received += step.bytes;
            }
        }
        (sent, received)
    };
    assert_eq!(totals(ReplayRole::Client), (8, 7));
    assert_eq!(totals(ReplayRole::Server), (7, 8));
    assert!(turn_step(&turns[1], ReplayRole::Client, Protocol::Http1).completes);
    assert!(!turn_step(&turns[0], ReplayRole::Client, Protocol::Http1).completes);
}

#[test]
fn responder_detects_flow_from_first_client_turn() {
    let flows = vec![
        vec![to_server(b"alpha"), to_client(b"A")],
        vec![to_server(b"beta"), to_client(b"B")],
    ];
    assert_eq!(detect_flow(&flows, b"b"), Detection::More);
    assert_eq!(detect_flow(&flows, b"bet"), Detection::More);
    assert_eq!(detect_flow(&flows, b"beta"), Detection::Found(1));
    assert_eq!(detect_flow(&flows, b"alpha"), Detection::Found(0));
    assert_eq!(detect_flow(&flows, b"x"), Detection::NoMatch);
    assert!(!no_match_message().is_empty());
}

#[test]
fn flows_that_cannot_be_told_apart_are_refused() {
    assert!(validate_flows(&vec![vec![to_server(b"alpha")], vec![to_server(b"beta")]]).is_ok());
    assert!(validate_flows(&vec![vec![to_server(b"al")], vec![to_server(b"alpha")]]).is_err());
    assert!(validate_flows(&vec![vec![to_client(b"al")]]).is_err());
    assert!(validate_flows(&vec![vec![]]).is_err());
}

#[test]
fn rewritten_requests_name_the_configured_host() {
    let request = b"GET /a?b HTTP/1.1\r\nHost: old.test\r\nProxy-Connection: close\r\nX: 1\r\n\r\nbody";
    let rewritten = rewrite_request(request, "new.test", Some("192.0.2.20:8080"));
    assert!(rewritten.starts_with(b"GET http://192.0.2.20:8080/a?b HTTP/1.1\r\n"));
    assert!(rewritten.ends_with(b"\r\n\r\nbody"));
    let text = String::from_utf8(rewritten).unwrap();
    assert!(text.contains("Host: new.test\r\n"));
    assert!(!text.contains("old.test"));
    let absolute = b"GET http://old.test/x HTTP/1.1\r\nHost: old.test\r\n\r\n";
    assert!(rewrite_request(absolute, "new.test", None).starts_with(b"GET /x HTTP/1.1\r\n"));
}

#[test]
fn failures_are_classified_without_losing_aggregate_errors() {
    let mut counters = Counters::default();
    counters.record_failure("HTTP CONNECT failed: CONNECT rejected with response HTTP/1.1 403");
    counters.record_failure("TLS handshake failed: invalid peer certificate");
    counters.record_failure("deadline has elapsed");
    counters.record_failure("connection reset by peer");
    counters.record_failure("HTTP error response 451");
    assert_eq!(counters.proxy_connect_errors, 1);
    assert_eq!(counters.tls_handshake_errors, 1);
    assert_eq!(counters.timeout_errors, 1);
    assert_eq!(counters.reset_errors, 1);
    assert_eq!(counters.http_error_responses, 1);
}

#[test]
fn failed_connections_are_counted_and_classified() {
    let mut counters = Counters::default();
    counters.connection_failed("Connection TIMED OUT");
    assert_eq!(counters.failed, 1);
    assert_eq!(counters.timeout_errors, 1);
    assert!(!classify_failure("no route to host").timeout);
}

#[test]
fn framing_preserves_pipelined_message_after_body() {
    let mut pending =
        b"POST /one HTTP/1.1\r\nContent-Length: 3\r\n\r\noneGET /two HTTP/1.1\r\nContent-Length: 0\r\n\r\n"
            .to_vec();
    let mut state = FrameState::Head;
    let mut messages = Vec::new();
    while messages.len() < 2 {
        match read_frame(state, &mut pending, 1024) {
            FrameStep::More(next) => {
                assert!(matches!(next, FrameState::Body { .. }) && !pending.is_empty());
                state = next;
            }
            FrameStep::Message(head, body_len) => {
                messages.push((head, body_len));
                state = FrameState::Head;
            }
            FrameStep::TooLarge => panic!("message expected"),
        }
    }
    let (first, first_body_len) = &messages[0];
    let (second, second_body_len) = &messages[1];
    assert!(first.starts_with(b"POST /one"));
    assert_eq!(*first_body_len, 3);
    assert!(second.starts_with(b"GET /two"));
    assert_eq!(*second_body_len, 0);
    assert!(pending.is_empty());
}

#[test]
fn long_heads_are_refused_and_short_reads_wait() {
    let mut pending = vec![b'a'; 20];
    assert!(matches!(read_frame(FrameState::Head, &mut pending, 16), FrameStep::TooLarge));
    let mut pending = b"GET / HTTP/1.1\r\n".to_vec();
    assert!(matches!(
        read_frame(FrameState::Head, &mut pending, 1024),
        FrameStep::More(FrameState::Head)
    ));
    assert!(!closed_message(&FrameState::Head).is_empty());
}

#[test]
fn headers_are_matched_case_insensitively() {
    let headers = b"HTTP/1.1 200 OK\r\nCONTENT-LENGTH: 42\r\nConnection: Keep-Alive\r\n\r\n";

    assert_eq!(parse_numeric_header(headers, "content-length"), Some(42));
    assert!(header_equals(headers, "connection", "keep-alive"));
}

#[test]
fn invalid_text_does_not_hide_headers() {
    let headers = b"HTTP/1.1 200 OK\r\nX: \xff\r\nContent-Length: 7\r\n\r\n";
    assert_eq!(parse_numeric_header(headers, "content-length"), Some(7));
    assert!(header_equals(headers, "x", "\u{fffd}"));
}

#[test]
fn requests_carry_what_the_scenario_asks_for() {
    let mut scenario = proxied();
    scenario.request.method = "POST".into();
    scenario.request.path = "/scan".into();
    scenario.request.host = "origin.test".into();
    scenario.request.keep_alive = true;
    scenario.request.transactions_per_connection = 2;
    let first = request_head(&scenario, Some("192.0.2.20:8080"), 0, 10, 20);
    assert!(first.starts_with("POST http://192.0.2.20:8080/scan HTTP/1.1\r\n"));
    assert!(first.contains("Host: origin.test\r\n"));
    assert!(first.contains("Content-Length: 10\r\n"));
    assert!(first.contains("Connection: keep-alive\r\n"));
    assert!(first.ends_with("\r\n\r\n"));
    let last = request_head(&scenario, None, 1, 0, 20);
    assert!(last.starts_with("POST /scan HTTP/1.1\r\n"));
    assert!(last.contains("Connection: close\r\n"));
    assert!(is_last_transaction(2, 1));
    assert!(!is_last_transaction(0, 1_000));
    assert!(connection_is_done(2, 2));
    assert!(!connection_is_done(0, 2));
}

#[test]
fn replies_follow_their_requests() {
    let reply = reply_to("GET / HTTP/1.1\r\nConnection: close\r\n\r\n", 12);
    assert!(!reply.keep_alive);
    assert_eq!(reply.body_len, 12);
    assert!(reply.payload_body);
    assert!(reply.head.starts_with("HTTP/1.1 200 OK\r\n"));
    assert!(reply.head.contains("Content-Length: 12\r\n"));
    let reply = serve_request(b"GET / HTTP/1.1\r\nConnection: keep-alive\r\n\r\n", 12);
    assert!(reply.keep_alive);
    assert!(check_response(b"HTTP/1.1 204 No Content\r\n\r\n").is_ok());
    assert!(check_response(b"HTTP/1.1 451 Unavailable\r\n\r\n").unwrap_err().contains("451"));
    assert!(check_response(b"garbage").is_err());
    assert!(next_block(usize::MAX) < usize::MAX);
    assert_eq!(next_block(3), 3);
}

#[test]
fn connect_tunnel_reports_rejection_and_accounts_bytes() {
    let response = b"HTTP/1.1 403 Forbidden\r\nContent-Length: 0\r\n\r\n";
    let mut head = Vec::new();
    let mut received = 0;
    for byte in response {
        received += 1;
        if push_head_byte(&mut head, *byte) == HeadStep::Complete {
            break;
        }
    }
    assert_eq!(received, 45);
    assert_eq!(head, response);
    assert!(check_connect(&head).unwrap_err().contains("403 Forbidden"));
    assert!(connect_request("192.0.2.20:8080").starts_with("CONNECT "));
    assert!(check_connect(b"HTTP/1.1 200 Connection established\r\n\r\n").is_ok());
}

#[test]
fn endless_proxy_answers_are_refused() {
    let mut head = Vec::new();
    let mut step = HeadStep::More;
    let mut count = 0;
    while step == HeadStep::More {
        step = push_head_byte(&mut head, b'a');
        count += 1;
    }
    assert_eq!(step, HeadStep::TooLarge);
    assert_eq!(count, MAX_CONNECT_HEAD_BYTES);
    assert!(!head_too_large().is_empty());
}

#[test]
fn connections_are_made_to_the_proxy_where_there_is_one() {
    let mut scenario = proxied();
    assert_eq!(connect_address(&scenario, "192.0.2.20:8080"), "proxy.test:3128");
    assert!(needs_tunnel(&scenario));
    scenario.protocol = Protocol::Http1;
    assert!(!needs_tunnel(&scenario));
    scenario.tls.enabled = true;
    assert!(needs_tunnel(&scenario));
    let direct = Scenario::default();
    assert_eq!(connect_address(&direct, "192.0.2.20:8080"), "192.0.2.20:8080");
    assert!(!needs_tunnel(&direct));
    assert_eq!(source_index(5, 3), Some(2));
    assert_eq!(source_index(5, 0), None);
}

#[test]
fn http2_streams_are_bounded() {
    assert!(can_launch(true, 0, 2, 0, 100));
    assert!(!can_launch(true, 2, 2, 0, 100));
    assert!(!can_launch(true, 0, 2, 3, 3));
    assert!(!can_launch(false, 0, 2, 0, 0));
    assert!(goes_on(true, 0, 0, 100));
    assert!(goes_on(false, 1, 0, 100));
    assert!(!goes_on(false, 0, 0, 100));
    assert!(!goes_on(true, 0, 3, 3));
    assert_eq!(wanted_capacity(100_000), 16 * 1024);
    assert_eq!(wanted_capacity(10), 10);
    assert_eq!(data_size(7, 10), 7);
    assert_eq!(data_size(70, 10), 10);
    assert!(protocol_agreed(true, Some(b"h2")));
    assert!(!protocol_agreed(true, Some(b"http/1.1")));
    assert!(!protocol_agreed(true, None));
    let turns = vec![to_server(b"a"), to_client(b"b"), to_server(b"c"), to_client(b"d")];
    assert_eq!(stream_turns(&turns, 0), (0, 1));
    assert_eq!(stream_turns(&turns, 1), (2, 3));
    assert_eq!(stream_turns(&turns, 2), (0, 1));
    assert!(request_uri(&proxied()).starts_with("https://"));
}

#[test]
fn http2_answers_are_as_long_as_asked_for() {
    assert_eq!(response_body(Some("0"), None, 9), (0, Http2Body::Empty));
    assert_eq!(response_body(Some("5"), Some(5), 9), (5, Http2Body::Replay));
    assert_eq!(response_body(Some("5"), Some(6), 9), (5, Http2Body::Zeroes));
    assert_eq!(response_body(Some("many"), None, 9), (9, Http2Body::Payload));
    assert_eq!(response_body(None, None, 9), (9, Http2Body::Payload));
}

#[test]
fn workers_wait_while_paused_and_idle_beyond_the_load() {
    let gate = WorkerGate {
        running: true,
        paused: false,
        generating: true,
        desired_clients: 3,
        worker_index: 2,
    };
    assert!(gate.enabled() && !gate.waits() && !gate.idles());
    assert!(!WorkerGate { worker_index: 3, ..gate }.enabled());
    assert!(WorkerGate { paused: true, ..gate }.enabled());
    assert!(WorkerGate { paused: true, ..gate }.idles());
    assert!(!WorkerGate { running: false, ..gate }.enabled());
    assert_eq!(flow_index(7, 3), 1);
}

#[test]
fn pauses_do_not_count_towards_a_run() {
    let mut clock = RunClock::start(5_000_000);
    clock.tick(15_000_000, false);
    clock.tick(95_000_000, true);
    clock.tick(100_000_000, false);
    assert_eq!(clock.active_ms(), 15);
    assert!(clock.has_reached(15));
    assert!(!clock.has_reached(16));
    let scenario = Scenario { duration_secs: 2, ..Scenario::default() };
    assert_eq!(run_duration_ms(&scenario, ReplayRole::Client), 2_000);
    assert_eq!(run_duration_ms(&scenario, ReplayRole::Server), 2_700);
}

#[test]
fn work_follows_protocol_and_payload_mode() {
    let mut scenario = proxied();
    assert_eq!(client_work(&scenario, false), ClientWork::Tcp);
    assert_eq!(client_work(&scenario, true), ClientWork::Replay);
    assert_eq!(server_work(&scenario, false), ServerWork::Tcp);
    scenario.protocol = Protocol::Http1;
    assert_eq!(client_work(&scenario, false), ClientWork::Http1 { absolute: true });
    scenario.tls.enabled = true;
    assert_eq!(client_work(&scenario, false), ClientWork::Http1 { absolute: false });
    scenario.protocol = Protocol::Http2;
    assert_eq!(client_work(&scenario, true), ClientWork::Http2);
    assert_eq!(server_work(&scenario, true), ServerWork::Http2);
    assert!(connection_counts(Protocol::Tcp));
    assert!(!connection_counts(Protocol::Http1));
}

#[test]
fn active_connections_are_weighed_by_time() {
    let mut window = ActiveWindow::start(0);
    window.connection_opened(10);
    window.connection_opened(20);
    window.connection_closed(40);
    let seen = window.active_snapshot(50);
    assert_eq!(seen.current, 1);
    assert_eq!((seen.min, seen.max), (0, 2));
    assert_eq!(seen.elapsed_nanos, 50);
    assert_eq!(seen.weighted_nanos, 10 + 40 + 10);
    let next = window.active_snapshot(60);
    assert_eq!((next.min, next.max), (1, 1));
    assert_eq!(next.weighted_nanos, 10);
}

#[test]
fn percentiles_agree_with_double_precision() {
    for count in 1..3_000_usize {
        for (p, share) in [(Percentile::P50, 0.50), (Percentile::P95, 0.95), (Percentile::P99, 0.99)] {
            let expected = ((count - 1) as f64 * share) as usize;
            assert_eq!(percentile_index(count, p), expected);
        }
    }
    assert_eq!(
        percentiles((1..=100).rev().collect()),
        Percentiles { p50: 50, p95: 95, p99: 99 }
    );
    assert_eq!(percentiles(Vec::new()), Percentiles { p50: 0, p95: 0, p99: 0 });
    assert_eq!(reported_latency(0, 5), 5);
    assert_eq!(reported_latency(3, 5), 3);
}

#[test]
fn reports_tell_what_has_changed() {
    let before = Counters { tx: 5, rx: 7, established: 1, ..Counters::default() };
    let now = Counters { tx: 9, rx: 8, established: 4, transactions: 2, ..Counters::default() };
    let deltas = report_deltas(&now, &before);
    assert_eq!((deltas.tx, deltas.rx, deltas.established, deltas.transactions), (4, 1, 3, 2));
}

#[test]
fn payloads_are_made_as_described() {
    let transfers = Transfers::default();
    let made = |profile: PayloadProfile| materialize(&profile, &transfers);
    assert_eq!(made(PayloadProfile::default()).unwrap(), b"");
    assert_eq!(made(PayloadProfile::fixed(3)).unwrap(), [0, 0, 0]);
    let text = PayloadProfile { kind: PayloadKind::Text, text: "가".into(), ..Default::default() };
    assert_eq!(made(text).unwrap(), "가".as_bytes());
    let random = PayloadProfile {
        kind: PayloadKind::Random,
        size_bytes: 4_096,
        random_format: RandomFormat::PrintableAscii,
        ..Default::default()
    };
    let first = made(random.clone()).unwrap();
    let second = made(random).unwrap();
    assert_eq!(first.len(), 4_096);
    assert_ne!(first, second);
    assert!(first.iter().all(|b| (0x20..0x7f).contains(b)));
    let id = Uuid { value: 9 };
    let file = PayloadProfile {
        kind: PayloadKind::File,
        artifact_id: Some(id),
        ..Default::default()
    };
    assert!(materialize(&file, &transfers).is_err());
    let arrived = Transfers {
        incoming: Vec::new(),
        completed: vec![(id, CompletedArtifact::Payload(b"stored".to_vec()))],
    };
    assert_eq!(materialize(&file, &arrived).unwrap(), b"stored");
    assert_eq!(zero_bytes(2), [0, 0]);
    assert_eq!(format_random(vec![0, 200], RandomFormat::Binary), [0, 200]);
}

#[test]
fn random_payloads_are_reported_by_their_sender() {
    let mut scenario = Scenario::default();
    scenario.request_payload = Some(PayloadProfile {
        kind: PayloadKind::Random,
        size_bytes: 3,
        ..Default::default()
    });
    let payloads = PreparedPayloads { request: b"abc".to_vec(), response: Vec::new() };
    assert_eq!(
        random_payload_hashes(&scenario, &payloads, ReplayRole::Client),
        (Some(sha256_hex(b"abc")), None)
    );
    assert_eq!(random_payload_hashes(&scenario, &payloads, ReplayRole::Server), (None, None));
    let prepared = PreparedPayloads::new(&scenario, &Transfers::default()).unwrap();
    assert_eq!(prepared.request.len(), 3);
}

#[test]
fn cipher_suites_are_selected_by_name() {
    let available = vec!["A".to_string(), "B".to_string()];
    assert_eq!(select_suites(&available, &None).unwrap(), [0, 1]);
    assert_eq!(select_suites(&available, &Some("B".into())).unwrap(), [1]);
    assert!(select_suites(&available, &Some("C".into())).is_err());
}

#[test]
fn tls_is_set_up_from_generated_certificates() {
    let made = generate_tls_certificate("origin.test", 1_700_000_000).unwrap();
    let mut scenario = Scenario::default();
    scenario.tls.enabled = true;
    scenario.tls.server_name = "origin.test".into();
    scenario.tls.server_cert_pem = Some(made.server_cert_pem.clone());
    scenario.tls.server_key_pem = Some(made.server_key_pem.clone());
    scenario.tls.ca_pem = Some(made.ca_pem.clone());
    scenario.tls.verify_peer = true;
    let server = accept_settings(&scenario).unwrap();
    assert_eq!(server.certificates.len(), 1);
    assert!(!server.key.is_empty());
    assert!(server.tls13 && !server.http2);
    assert_eq!(server.suites, [0, 1, 2, 3, 4, 5, 6, 7, 8]);
    for (position, name) in [
        (0, "TLS13_AES_256_GCM_SHA384"),
        (1, "TLS13_AES_128_GCM_SHA256"),
        (2, "TLS13_CHACHA20_POLY1305_SHA256"),
        (3, "TLS_ECDHE_ECDSA_WITH_AES_256_GCM_SHA384"),
        (4, "TLS_ECDHE_ECDSA_WITH_AES_128_GCM_SHA256"),
        (5, "TLS_ECDHE_ECDSA_WITH_CHACHA20_POLY1305_SHA256"),
        (6, "TLS_ECDHE_RSA_WITH_AES_256_GCM_SHA384"),
        (7, "TLS_ECDHE_RSA_WITH_AES_128_GCM_SHA256"),
        (8, "TLS_ECDHE_RSA_WITH_CHACHA20_POLY1305_SHA256"),
    ] {
        scenario.tls.cipher_suite = Some(name.into());
        assert_eq!(accept_settings(&scenario).unwrap().suites, [position]);
    }
    scenario.tls.cipher_suite = None;
    let client = connect_settings(&scenario).unwrap();
    assert_eq!(client.roots.unwrap().len(), 1);
    assert_eq!(client.server_name, "origin.test");
    scenario.tls.version = TlsVersion::Tls12;
    assert!(!connect_settings(&scenario).unwrap().tls13);
    scenario.tls.verify_peer = false;
    assert!(connect_settings(&scenario).unwrap().roots.is_none());
    scenario.tls.server_name = "not a name".into();
    assert!(connect_settings(&scenario).is_err());
    scenario.tls.server_name = "origin.test".into();
    scenario.tls.server_key_pem = Some("no key".into());
    assert!(accept_settings(&scenario).is_err());
    scenario.tls.verify_peer = true;
    scenario.tls.ca_pem = Some(String::new());
    assert!(connect_settings(&scenario).is_err());
}
