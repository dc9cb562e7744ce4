use proxy_tester::agent::replay::{replay_flow, ReplayPlan, ReplayRole};
use proxy_tester::capture::analysis::{
    contains_ascii_case_insensitive, finish_analysis, looks_like_tls, CaptureAnalysis,
    CaptureError, CaptureFormat,
};
use proxy_tester::capture::files::{analyze_capture, analyze_pcap, analyze_pcapng};
use proxy_tester::capture::flows::{FlowRecord, Segments};
use proxy_tester::capture::http::{extract_http_transactions, Http2Transaction};
use proxy_tester::control::artifacts::capture_summary;
use proxy_tester::capture::packet::{Direction, Endpoint, Exclusions, FlowKey};
use proxy_tester::capture::segments::{add_segment, build_turns, reassemble};
use proxy_tester::domain::scenario::{Protocol, Scenario, ScenarioPath};
use proxy_tester::ip::IpAddr;
use proxy_tester::json::JsonValue;

const POST: &[u8] =
    b"POST /scan HTTP/1.1\r\nHost: dlp.test\r\nContent-Length: 10\r\n\r\nDLP-SECRET";
const POST_RESPONSE: &[u8] = b"HTTP/1.1 200 OK\r\nContent-Length: 2\r\n\r\nOK";

fn tcp_segment(source: u16, destination: u16, sequence: u32, payload: &[u8]) -> Vec<u8> {
    let mut segment = Vec::new();
    segment.extend_from_slice(&source.to_be_bytes());
    segment.extend_from_slice(&destination.to_be_bytes());
    segment.extend_from_slice(&sequence.to_be_bytes());
    segment.extend_from_slice(&[0, 0, 0, 0, 0x50, 0x18, 0x20, 0, 0, 0, 0, 0]);
    segment.extend_from_slice(payload);
    segment
}

fn ipv4_frame(source: [u8; 4], destination: [u8; 4], protocol: u8, payload: &[u8]) -> Vec<u8> {
    let mut frame = vec![2, 0, 0, 0, 0, 2, 2, 0, 0, 0, 0, 1, 0x08, 0x00];
    let length = (20 + payload.len()) as u16;
    frame.extend_from_slice(&[0x45, 0]);
    frame.extend_from_slice(&length.to_be_bytes());
    frame.extend_from_slice(&[0, 1, 0, 0, 64, protocol, 0, 0]);
    frame.extend_from_slice(&source);
    frame.extend_from_slice(&destination);
    frame.extend_from_slice(payload);
    frame
}

fn ipv6_frame(source: [u8; 16], destination: [u8; 16], payload: &[u8]) -> Vec<u8> {
    let mut frame = vec![2, 0, 0, 0, 0, 2, 2, 0, 0, 0, 0, 1, 0x86, 0xdd];
    let length = payload.len() as u16;
    frame.extend_from_slice(&[0x60, 0, 0, 0]);
    frame.extend_from_slice(&length.to_be_bytes());
    frame.extend_from_slice(&[6, 64]);
    frame.extend_from_slice(&source);
    frame.extend_from_slice(&destination);
    frame.extend_from_slice(payload);
    frame
}

fn pcap(frames: &[Vec<u8>], little: bool) -> Vec<u8> {
    let word = |n: u32| if little { n.to_le_bytes() } else { n.to_be_bytes() };
    let half = |n: u16| if little { n.to_le_bytes() } else { n.to_be_bytes() };
    let mut file = Vec::new();
    file.extend_from_slice(&word(0xa1b2_c3d4));
    file.extend_from_slice(&half(2));
    file.extend_from_slice(&half(4));
    file.extend_from_slice(&[0; 8]);
    file.extend_from_slice(&word(65_535));
    file.extend_from_slice(&word(1));
    for frame in frames {
        file.extend_from_slice(&[0; 8]);
        file.extend_from_slice(&word(frame.len() as u32));
        file.extend_from_slice(&word(frame.len() as u32));
        file.extend_from_slice(frame);
    }
    file
}

fn word(n: u32, little: bool) -> [u8; 4] {
    if little { n.to_le_bytes() } else { n.to_be_bytes() }
}

fn block(kind: u32, body: &[u8], little: bool) -> Vec<u8> {
    let mut body = body.to_vec();
    body.resize(body.len().div_ceil(4) * 4, 0x5a);
    let length = word(12 + body.len() as u32, little);
    [&word(kind, little)[..], &length[..], &body[..], &length[..]].concat()
}

fn packet_block(interface: u32, frame: &[u8], little: bool) -> Vec<u8> {
    let length = word(frame.len() as u32, little);
    let fields = [&word(interface, little)[..], &[7; 8][..], &length[..], &length[..]].concat();
    block(6, &[&fields[..], frame].concat(), little)
}

fn pcapng_parts(frames: &[Vec<u8>], little: bool) -> Vec<Vec<u8>> {
    let magic = word(0x1a2b_3c4d, little);
    let link = if little { [1, 0] } else { [0, 1] };
    let mut parts = vec![
        block(0x0a0d_0d0a, &[&magic[..], &[0; 12][..]].concat(), little),
        block(1, &[&link[..], &[0; 6][..]].concat(), little),
    ];
    parts.extend(frames.iter().map(|frame| packet_block(0, frame, little)));
    parts
}

fn pcapng(frames: &[Vec<u8>]) -> Vec<u8> {
    pcapng_parts(frames, true).concat()
}

fn plaintext_frames() -> Vec<Vec<u8>> {
    let client = [192, 0, 2, 1];
    let server = [192, 0, 2, 2];
    let six_client = [0x20, 1, 0x0d, 0xb8, 0, 0, 0, 0, 0, 0, 0, 0, 0, 0, 0, 1];
    let six_server = [0x20, 1, 0x0d, 0xb8, 0, 0, 0, 0, 0, 0, 0, 0, 0, 0, 0, 2];
    vec![
        ipv4_frame(client, server, 6, &tcp_segment(40_000, 80, 1_000, &POST[..30])),
        ipv4_frame(client, server, 6, &tcp_segment(40_000, 80, 1_000, &POST[..30])),
        ipv4_frame(client, server, 6, &tcp_segment(40_000, 80, 1_030, &POST[30..])),
        ipv4_frame(server, client, 6, &tcp_segment(80, 40_000, 5_000, POST_RESPONSE)),
        ipv6_frame(six_client, six_server, &tcp_segment(40_001, 9_000, 1, b"PING")),
        ipv6_frame(six_server, six_client, &tcp_segment(9_000, 40_001, 1, b"PONG")),
        ipv4_frame(client, server, 17, &[0; 8]),
    ]
}

fn http_frames() -> Vec<Vec<u8>> {
    let client = [192, 0, 2, 1];
    let server = [192, 0, 2, 2];
    let first = b"POST /one HTTP/1.1\r\nHost: http.test\r\nContent-Length: 5\r\n\r\nalpha";
    let second = b"GET /two HTTP/1.1\r\nHost: http.test\r\n\r\n";
    let answer = b"HTTP/1.1 200 OK\r\nContent-Length: 4\r\n\r\nbeta";
    let chunked =
        b"HTTP/1.1 200 OK\r\nTransfer-Encoding: chunked\r\n\r\n5\r\ngamma\r\n0\r\n\r\n";
    vec![
        ipv4_frame(client, server, 6, &tcp_segment(40_000, 80, 10, first)),
        ipv4_frame(server, client, 6, &tcp_segment(80, 40_000, 20, answer)),
        ipv4_frame(
            client,
            server,
            6,
            &tcp_segment(40_000, 80, 10 + first.len() as u32, second),
        ),
        ipv4_frame(
            server,
            client,
            6,
            &tcp_segment(80, 40_000, 20 + answer.len() as u32, chunked),
        ),
    ]
}

#[test]
fn scapy_fixture_reassembles_ipv4_and_ipv6_flows() {
    let capture = pcap(&plaintext_frames(), true);
    let analysis = analyze_pcap(&capture).unwrap();
    assert_eq!(analysis.packet_count, 7);
    assert_eq!(analysis.flows.len(), 2);
    assert_eq!(analysis.exclusions.non_tcp_packets, 1);
    assert_eq!(analysis.flows[0].retransmitted_bytes, 30);
    assert_eq!(analysis.flows[0].turns.len(), 2);
    assert_eq!(analysis.flows[0].turns[0].direction, Direction::ClientToServer);
    assert_eq!(analysis.flows[0].turns[1].direction, Direction::ServerToClient);
    assert_eq!(
        analysis.flows[0].client_to_server,
        b"POST /scan HTTP/1.1\r\nHost: dlp.test\r\nContent-Length: 10\r\n\r\nDLP-SECRET"
    );
    assert_eq!(analysis.flows[0].http_transactions.len(), 1);
    assert_eq!(
        analysis.flows[0].server_to_client,
        b"HTTP/1.1 200 OK\r\nContent-Length: 2\r\n\r\nOK"
    );
    assert_eq!(analysis.flows[1].client_to_server, b"PING");
    assert_eq!(analysis.flows[1].server_to_client, b"PONG");
    assert_eq!(analysis.exclusions.non_http_flows, 1);
}

#[test]
fn pcapng_fixture_matches_classic_pcap_analysis() {
    let classic = analyze_capture(&pcap(&plaintext_frames(), true)).unwrap();
    let pcapng = analyze_capture(&pcapng(&plaintext_frames())).unwrap();
    assert_eq!(classic.0, CaptureFormat::Pcap);
    assert_eq!(pcapng.0, CaptureFormat::PcapNg);
    assert_eq!(classic.1, pcapng.1);
}

#[test]
fn byte_orders_are_read_alike() {
    let little = analyze_pcap(&pcap(&plaintext_frames(), true)).unwrap();
    let big = analyze_pcap(&pcap(&plaintext_frames(), false)).unwrap();
    assert_eq!(little, big);
}

#[test]
fn other_blocks_change_little() {
    for little in [true, false] {
        let parts = pcapng_parts(&plaintext_frames(), little);
        let plain = analyze_pcapng(&parts.concat()).unwrap();
        assert_eq!(plain, analyze_pcap(&pcap(&plaintext_frames(), !little)).unwrap());
        for at in 1..=parts.len() {
            let mut more = parts.clone();
            more.insert(at, block(5, b"statistics", little));
            assert_eq!(analyze_pcapng(&more.concat()).unwrap(), plain);
            let mut more = parts.clone();
            more.insert(at, packet_block(9, b"elsewhere", little));
            let mut counted = plain.clone();
            counted.packet_count += 1;
            counted.captured_bytes += 9;
            counted.exclusions.unsupported_link_packets += 1;
            assert_eq!(analyze_pcapng(&more.concat()).unwrap(), counted);
        }
    }
}

#[test]
fn kept_connections_keep_transactions() {
    let requests: [&[u8]; 3] = [POST, b"GET /two HTTP/1.1\r\nHost: a\r\n\r\n", POST];
    let responses: [&[u8]; 3] = [
        POST_RESPONSE,
        b"HTTP/1.1 200 OK\r\nTransfer-Encoding: chunked\r\n\r\n3\r\nend\r\n0\r\n\r\n",
        b"HTTP/1.1 204 No Content\r\n\r\n",
    ];
    let all = extract_http_transactions(&requests.concat(), &responses.concat()).unwrap();
    assert_eq!(all.len(), 3);
    for (i, transaction) in all.iter().enumerate() {
        let alone = extract_http_transactions(requests[i], responses[i]).unwrap();
        assert_eq!(alone, [transaction.clone()]);
    }
}

#[test]
fn http2_transactions_are_counted_and_replayed() {
    let (_, mut analysis) = analyze_capture(&pcap(&plaintext_frames(), true)).unwrap();
    let count = |analysis: &CaptureAnalysis, name: &str| match capture_summary(analysis).get(name) {
        Some(JsonValue::Unsigned(n)) => *n,
        _ => panic!("no count"),
    };
    assert_eq!(count(&analysis, "http_flow_count"), 1);
    assert_eq!(count(&analysis, "http2_flow_count"), 0);
    assert_eq!(count(&analysis, "http2_transaction_count"), 0);
    let summary = capture_summary(&analysis);
    let exclusions = summary.get("exclusions").unwrap();
    assert_eq!(exclusions.get("unsupported_http2_flows"), Some(&JsonValue::Unsigned(0)));
    let mut scenario = Scenario::default();
    scenario.protocol = Protocol::Http2;
    assert!(replay_flow(&analysis.flows[0], &scenario, ReplayRole::Client).is_none());
    analysis.flows[0].http2_transactions = vec![
        Http2Transaction { request_body: b"one".to_vec(), response_body: b"two".to_vec() },
        Http2Transaction { request_body: Vec::new(), response_body: b"four".to_vec() },
    ];
    assert_eq!(count(&analysis, "http2_flow_count"), 1);
    assert_eq!(count(&analysis, "http2_transaction_count"), 2);
    let turns = replay_flow(&analysis.flows[0], &scenario, ReplayRole::Client).unwrap();
    let payloads: Vec<&[u8]> = turns.iter().map(|turn| turn.payload.as_slice()).collect();
    assert_eq!(payloads, [&b"one"[..], b"two", b"", b"four"]);
    assert_eq!(turns[2].direction, Direction::ClientToServer);
    assert_eq!(turns[3].direction, Direction::ServerToClient);
}

#[test]
fn scapy_http_fixture_extracts_message_transactions() {
    let analysis = analyze_pcap(&pcap(&http_frames(), true)).unwrap();
    assert_eq!(analysis.flows.len(), 1);
    assert_eq!(analysis.flows[0].http_transactions.len(), 2);
    assert!(analysis.flows[0].http_transactions[0].request.ends_with(b"alpha"));
    assert!(analysis.flows[0].http_transactions[1].response.ends_with(b"0\r\n\r\n"));
}

#[test]
fn recognizes_tls_record_payloads() {
    assert!(looks_like_tls(&[0x16, 0x03, 0x03, 0, 4, 1, 2, 3, 4]));
    assert!(!looks_like_tls(b"GET / HTTP/1.1\r\n"));
}

#[test]
fn sequence_gaps_are_marked_incomplete() {
    let mut segments = Vec::new();
    add_segment(&mut segments, 10, b"ab");
    add_segment(&mut segments, 20, b"cd");
    let (payload, duplicate, gap) = reassemble(&segments);
    assert_eq!(payload, b"abcd");
    assert_eq!(duplicate, 0);
    assert!(gap);
}

#[test]
fn segments_are_ordered_and_overlaps_counted() {
    let mut segments = Vec::new();
    assert_eq!(add_segment(&mut segments, 14, b"efgh"), None);
    assert_eq!(add_segment(&mut segments, 10, b"abcde"), None);
    assert_eq!(add_segment(&mut segments, 10, b"xyz"), Some(5));
    let (payload, duplicate, gap) = reassemble(&segments);
    assert_eq!(payload, b"abcdefgh");
    assert_eq!(duplicate, 1);
    assert!(!gap);
    assert_eq!(reassemble(&Vec::new()), (Vec::new(), 0, false));
}

#[test]
fn turns_follow_the_directions_of_events() {
    let events = vec![
        (Direction::ClientToServer, 1, b"he".to_vec()),
        (Direction::ClientToServer, 3, b"llo".to_vec()),
        (Direction::ServerToClient, 1, b"hi".to_vec()),
        (Direction::ClientToServer, 6, b"bye".to_vec()),
    ];
    let turns = build_turns(&events);
    assert_eq!(turns.len(), 3);
    assert_eq!(turns[0].payload, b"hello");
    assert_eq!(turns[1].payload, b"hi");
    assert_eq!(turns[2].direction, Direction::ClientToServer);
}

#[test]
fn extracts_content_length_and_chunked_keep_alive_transactions() {
    let requests = b"POST /one HTTP/1.1\r\nHost: old.test\r\nContent-Length: 3\r\n\r\noneGET /two HTTP/1.1\r\nHost: old.test\r\n\r\n";
    let responses = b"HTTP/1.1 201 Created\r\nContent-Length: 3\r\n\r\ntwoHTTP/1.1 200 OK\r\nTransfer-Encoding: chunked\r\n\r\n3\r\nend\r\n0\r\n\r\n";
    let transactions = extract_http_transactions(requests, responses).unwrap();
    assert_eq!(transactions.len(), 2);
    assert_eq!(
        transactions[0].request,
        b"POST /one HTTP/1.1\r\nHost: old.test\r\nContent-Length: 3\r\n\r\none"
    );
    assert_eq!(
        transactions[0].response,
        b"HTTP/1.1 201 Created\r\nContent-Length: 3\r\n\r\ntwo"
    );
    assert_eq!(
        transactions[1].request,
        b"GET /two HTTP/1.1\r\nHost: old.test\r\n\r\n"
    );
    assert_eq!(
        transactions[1].response,
        b"HTTP/1.1 200 OK\r\nTransfer-Encoding: chunked\r\n\r\n3\r\nend\r\n0\r\n\r\n"
    );
}

#[test]
fn rejects_upgrade_and_close_delimited_http_flows() {
    assert!(extract_http_transactions(
        b"GET /chat HTTP/1.1\r\nHost: old.test\r\nConnection: Upgrade\r\nUpgrade: websocket\r\n\r\n",
        b"HTTP/1.1 101 Switching Protocols\r\nConnection: Upgrade\r\nUpgrade: websocket\r\n\r\n"
    )
    .is_none());
    assert!(extract_http_transactions(
        b"GET / HTTP/1.1\r\nHost: old.test\r\n\r\n",
        b"HTTP/1.1 200 OK\r\nConnection: close\r\n\r\nbody"
    )
    .is_none());
}

#[test]
fn http_exclusion_reasons_are_counted_during_capture_analysis() {
    let mut analysis = CaptureAnalysis {
        packet_count: 0,
        captured_bytes: 0,
        flows: Vec::new(),
        exclusions: Exclusions::default(),
    };
    let key = FlowKey {
        client: Endpoint { address: [0; 16], port: 1 },
        server: Endpoint { address: [1; 16], port: 2 },
    };
    let flows = vec![FlowRecord {
        key,
        segments: Segments {
            client: vec![(
                1,
                b"GET / HTTP/1.1\r\nHost: x\r\nConnection: Upgrade\r\n\r\n".to_vec(),
            )],
            server: vec![(
                1,
                b"HTTP/1.1 101 Switching Protocols\r\nConnection: Upgrade\r\n\r\n".to_vec(),
            )],
            ..Default::default()
        },
    }];
    finish_analysis(&mut analysis, &flows);
    assert_eq!(analysis.exclusions.http_upgrade_flows, 1);
    assert!(analysis.flows[0].http_transactions.is_empty());
}

#[test]
fn malformed_captures_are_refused() {
    assert_eq!(analyze_pcap(&[0; 10]).unwrap_err(), CaptureError::Truncated);
    assert_eq!(analyze_pcap(&[0; 24]).unwrap_err(), CaptureError::UnsupportedFormat);
    let mut other_link = pcap(&[], true);
    other_link[20] = 101;
    assert_eq!(
        analyze_pcap(&other_link).unwrap_err(),
        CaptureError::UnsupportedLinkType(101)
    );
    let mut cut = pcap(&plaintext_frames(), true);
    cut.pop();
    assert_eq!(analyze_capture(&cut).unwrap_err(), CaptureError::Truncated);
    let mut cut = pcapng(&plaintext_frames());
    cut.pop();
    assert_eq!(analyze_pcapng(&cut).unwrap_err(), CaptureError::Truncated);
    assert!(!CaptureError::Truncated.message().is_empty());
}

#[test]
fn encrypted_and_incomplete_flows_are_left_out() {
    let client = [192, 0, 2, 1];
    let server = [192, 0, 2, 2];
    let frames = vec![
        ipv4_frame(
            client,
            server,
            6,
            &tcp_segment(1_000, 443, 1, &[0x16, 0x03, 0x03, 0, 4, 1, 2, 3, 4]),
        ),
        ipv4_frame(server, client, 6, &tcp_segment(443, 1_000, 1, &[0x16, 3, 3, 0, 1, 2])),
        ipv4_frame(server, client, 6, &tcp_segment(80, 1_001, 1, b"ok")),
        ipv4_frame(client, server, 6, &tcp_segment(1_001, 80, 1, b"ab")),
        ipv4_frame(client, server, 6, &tcp_segment(1_001, 80, 9, b"cd")),
        vec![0; 10],
    ];
    let analysis = analyze_pcap(&pcap(&frames, true)).unwrap();
    assert!(analysis.flows.is_empty());
    assert_eq!(analysis.exclusions.encrypted_tls_flows, 1);
    assert_eq!(analysis.exclusions.incomplete_flows, 1);
    assert_eq!(analysis.exclusions.truncated_packets, 1);
}

#[test]
fn text_is_found_without_regard_to_case() {
    assert!(contains_ascii_case_insensitive(b"Connection: UPGRADE", b"upgrade"));
    assert!(!contains_ascii_case_insensitive(b"Connection: close", b"upgrade"));
}

#[test]
fn replay_plan_is_built_from_scapy_fixture() {
    let capture = pcap(&plaintext_frames(), true);
    let plan =
        ReplayPlan::from_capture(&capture, &Scenario::default(), ReplayRole::Client).unwrap();
    assert_eq!(plan.flows.len(), 2);
    assert_eq!(plan.flows[0].len(), 2);
    assert_eq!(plan.flows[1].len(), 2);
}

#[test]
fn http_replay_plan_filters_flows_and_rewrites_endpoint() {
    let capture = pcap(&plaintext_frames(), true);
    let mut scenario = Scenario::default();
    scenario.protocol = Protocol::Http1;
    scenario.path = ScenarioPath::ExplicitProxy {
        client_node_id: "client".into(),
        client_bind_ip: IpAddr::V4(0xc000_020a),
        server_node_id: "server".into(),
        server_listen_ip: IpAddr::V4(0xc000_0214),
        server_port: 8080,
        proxy_addr: "proxy.test:3128".into(),
    };
    scenario.request.host = "origin.test".into();
    let plan = ReplayPlan::from_capture(&capture, &scenario, ReplayRole::Client).unwrap();
    assert_eq!(plan.flows.len(), 1);
    assert_eq!(plan.flows[0].len(), 2);
    assert!(plan.flows[0][0]
        .payload
        .starts_with(b"POST http://192.0.2.20:8080/scan HTTP/1.1\r\n"));
    assert!(plan.flows[0][0]
        .payload
        .windows(b"Host: origin.test\r\n".len())
        .any(|window| window == b"Host: origin.test\r\n"));
    assert!(plan.flows[0][0].payload.ends_with(b"DLP-SECRET"));
    assert_eq!(
        plan.flows[0][1].payload,
        b"HTTP/1.1 200 OK\r\nContent-Length: 2\r\n\r\nOK"
    );
    let server_plan = ReplayPlan::from_capture(&capture, &scenario, ReplayRole::Server).unwrap();
    assert!(server_plan.flows[0][0].payload.starts_with(b"POST /scan HTTP/1.1\r\n"));
}

#[test]
fn captures_without_usable_flows_are_not_replayed() {
    let empty = pcap(&[], true);
    let error = ReplayPlan::from_capture(&empty, &Scenario::default(), ReplayRole::Client)
        .unwrap_err();
    assert_eq!(error.message, "capture contains no supported flows");
    let mut scenario = Scenario::default();
    scenario.protocol = Protocol::Http2;
    let capture = pcap(&plaintext_frames(), true);
    assert!(ReplayPlan::from_capture(&capture, &scenario, ReplayRole::Client).is_err());
}
