use proxy_tester::agent::replay::{ReplayPlan, ReplayRole};
use proxy_tester::capture::files::analyze_capture;
use proxy_tester::capture::hpack::Table;
use proxy_tester::capture::http2::{extract_http2_transactions, starts_as_http2};
use proxy_tester::domain::scenario::{Protocol, Scenario};

const PREFACE: &[u8] = b"PRI * HTTP/2.0\r\n\r\nSM\r\n\r\n";

const DATA: u8 = 0;
const HEADERS: u8 = 1;
const PRIORITY: u8 = 2;
const RST_STREAM: u8 = 3;
const SETTINGS: u8 = 4;
const PUSH_PROMISE: u8 = 5;
const PING: u8 = 6;
const GOAWAY: u8 = 7;
const WINDOW_UPDATE: u8 = 8;
const CONTINUATION: u8 = 9;

const END_STREAM: u8 = 1;
const END_HEADERS: u8 = 4;

/// Three requests of one connection, with Huffman-coded strings: each refers to fields of those
/// before it.
const REQUESTS: [&[u8]; 3] = [
    &[
        0x82, 0x86, 0x84, 0x41, 0x8c, 0xf1, 0xe3, 0xc2, 0xe5, 0xf2, 0x3a, 0x6b, 0xa0, 0xab, 0x90,
        0xf4, 0xff,
    ],
    &[0x82, 0x86, 0x84, 0xbe, 0x58, 0x86, 0xa8, 0xeb, 0x10, 0x64, 0x9c, 0xbf],
    &[
        0x82, 0x87, 0x85, 0xbf, 0x40, 0x88, 0x25, 0xa8, 0x49, 0xe9, 0x5b, 0xa9, 0x7d, 0x7f, 0x89,
        0x25, 0xa8, 0x49, 0xe9, 0x5b, 0xb8, 0xe8, 0xb4, 0xbf,
    ],
];

fn frame(kind: u8, flags: u8, stream: u32, payload: &[u8]) -> Vec<u8> {
    let length = (payload.len() as u32).to_be_bytes();
    [&length[1..], &[kind, flags][..], &stream.to_be_bytes()[..], payload].concat()
}

fn client(frames: &[Vec<u8>]) -> Vec<u8> {
    [PREFACE, &frames.concat()[..]].concat()
}

fn answer(stream: u32, body: &[u8]) -> Vec<u8> {
    [frame(HEADERS, END_HEADERS, stream, &[0x88]), frame(DATA, END_STREAM, stream, body)].concat()
}

fn read(client: &[u8], server: &[u8]) -> Option<Vec<(Vec<u8>, Vec<u8>)>> {
    extract_http2_transactions(client, server)
        .map(|list| list.into_iter().map(|t| (t.request_body, t.response_body)).collect())
}

fn pairs(list: &[(&[u8], &[u8])]) -> Option<Vec<(Vec<u8>, Vec<u8>)>> {
    Some(list.iter().map(|(a, b)| (a.to_vec(), b.to_vec())).collect())
}

#[test]
fn header_tables_follow_the_blocks() {
    let mut table = Table::default();
    assert!(table.take_block(REQUESTS[0]));
    assert_eq!(table.entries, vec![(10, 15)]);
    assert!(table.take_block(REQUESTS[1]));
    assert_eq!(table.entries, vec![(13, 8), (10, 15)]);
    assert!(table.take_block(REQUESTS[2]));
    assert_eq!(table.entries, vec![(10, 12), (13, 8), (10, 15)]);
    assert_eq!(table.room, 4096);
}

#[test]
fn header_tables_drop_what_does_not_fit() {
    let first = [
        0x3f, 0xe1, 0x01, 0x48, 0x82, 0x64, 0x02, 0x58, 0x85, 0xae, 0xc3, 0x77, 0x1a, 0x4b, 0x61,
        0x96, 0xd0, 0x7a, 0xbe, 0x94, 0x10, 0x54, 0xd4, 0x44, 0xa8, 0x20, 0x05, 0x95, 0x04, 0x0b,
        0x81, 0x66, 0xe0, 0x82, 0xa6, 0x2d, 0x1b, 0xff, 0x6e, 0x91, 0x9d, 0x29, 0xad, 0x17, 0x18,
        0x63, 0xc7, 0x8f, 0x0b, 0x97, 0xc8, 0xe9, 0xae, 0x82, 0xae, 0x43, 0xd3,
    ];
    let mut table = Table::default();
    assert!(table.take_block(&first));
    assert_eq!(table.room, 256);
    assert_eq!(table.entries, vec![(8, 23), (4, 29), (13, 7), (7, 3)]);
    assert!(table.take_block(&[0x48, 0x83, 0x64, 0x0e, 0xff, 0xc1, 0xc0, 0xbf]));
    assert_eq!(table.entries, vec![(7, 3), (8, 23), (4, 29), (13, 7)]);
    // No room: nothing is held.
    assert!(table.take_block(&[0x20]));
    assert_eq!(table.entries, vec![]);
}

#[test]
fn broken_header_blocks_are_refused() {
    for block in [
        &[0x80][..],
        &[0xbe],
        &[0xff],
        &[0xff, 0x80, 0x80, 0x80, 0x80, 0x80, 0x80, 0x80, 0x80, 0x80, 0x80, 0x01],
        &[0x40, 0x01],
        &[0x40, 0x01, b'a', 0x05, b'b'],
        &[0x40, 0x01, b'a', 0x81, 0x00],
        &[0x40, 0x01, b'a', 0x84, 0xff, 0xff, 0xff, 0xff],
    ] {
        assert!(!Table::default().take_block(block));
    }
}

#[test]
fn interleaved_streams_are_told_apart() {
    let requests = client(&[
        frame(SETTINGS, 0, 0, &[0, 3, 0, 0, 0, 100]),
        frame(HEADERS, END_HEADERS, 1, REQUESTS[0]),
        frame(HEADERS, END_HEADERS, 3, REQUESTS[1]),
        frame(DATA, 0, 1, b"one "),
        frame(DATA, 0, 3, b"two "),
        frame(WINDOW_UPDATE, 0, 0, &[0, 0, 1, 0]),
        frame(DATA, END_STREAM, 3, b"second"),
        frame(PING, 0, 0, &[0; 8]),
        frame(DATA, END_STREAM, 1, b"first"),
        frame(HEADERS, END_HEADERS | END_STREAM, 5, REQUESTS[2]),
        frame(GOAWAY, 0, 0, &[0; 8]),
    ]);
    let responses = [
        frame(SETTINGS, 0, 0, &[]),
        frame(SETTINGS, 1, 0, &[]),
        answer(5, b"none"),
        frame(HEADERS, END_HEADERS, 3, &[0x88]),
        frame(HEADERS, END_HEADERS, 1, &[0x88]),
        frame(DATA, 0, 3, b"B"),
        frame(DATA, END_STREAM, 1, b"A"),
        frame(DATA, END_STREAM, 3, b"B"),
    ]
    .concat();
    assert_eq!(
        read(&requests, &responses),
        pairs(&[(b"one first", b"A"), (b"two second", b"BB"), (b"", b"none")]),
    );
}

#[test]
fn split_header_blocks_are_joined() {
    for cut in 0..REQUESTS[0].len() {
        let requests = client(&[
            frame(HEADERS, END_STREAM, 1, &REQUESTS[0][..cut]),
            frame(CONTINUATION, 0, 1, &[]),
            frame(CONTINUATION, END_HEADERS, 1, &REQUESTS[0][cut..]),
        ]);
        assert_eq!(read(&requests, &answer(1, b"OK")), pairs(&[(b"", b"OK")]));
    }
    let interrupted = client(&[
        frame(HEADERS, END_STREAM, 1, &REQUESTS[0][..4]),
        frame(PING, 0, 0, &[0; 8]),
        frame(CONTINUATION, END_HEADERS, 1, &REQUESTS[0][4..]),
    ]);
    assert_eq!(read(&interrupted, &answer(1, b"OK")), None);
    let unfinished = client(&[frame(HEADERS, END_STREAM, 1, REQUESTS[0])]);
    assert_eq!(read(&unfinished, &answer(1, b"OK")), None);
}

#[test]
fn padding_priority_and_trailers_are_understood() {
    let headers = [&[3, 0x80, 0, 0, 0, 16][..], REQUESTS[0], &[0; 3]].concat();
    let requests = client(&[
        frame(PRIORITY, 0, 3, &[0, 0, 0, 0, 1]),
        frame(HEADERS, END_HEADERS | 0x28, 1, &headers),
        frame(DATA, 8, 1, b"\x02body\0\0"),
        frame(HEADERS, END_HEADERS | END_STREAM, 1, &[0xbe]),
        frame(0x2a, 0xff, 1, b"unknown"),
    ]);
    assert_eq!(read(&requests, &answer(1, b"OK")), pairs(&[(b"body", b"OK")]));
    let padded = client(&[
        frame(HEADERS, END_HEADERS, 1, REQUESTS[0]),
        frame(DATA, 8 | END_STREAM, 1, b"\x05body"),
    ]);
    assert_eq!(read(&padded, &answer(1, b"OK")), None);
}

#[test]
fn connections_that_cannot_be_followed_are_refused() {
    let request = frame(HEADERS, END_HEADERS | END_STREAM, 1, REQUESTS[0]);
    let good = client(&[request.clone()]);
    assert!(starts_as_http2(&good));
    assert!(read(&good, &answer(1, b"OK")).is_some());
    for frames in [
        vec![],
        vec![request.clone(), frame(RST_STREAM, 0, 1, &[0; 4])],
        vec![request.clone(), frame(PUSH_PROMISE, END_HEADERS, 1, &[0, 0, 0, 2, 0x82])],
        vec![request.clone(), frame(DATA, END_STREAM, 1, b"late")],
        vec![frame(DATA, END_STREAM, 1, b"early"), request.clone()],
        vec![frame(GOAWAY, 0, 0, &[0; 8]), request.clone()],
        vec![frame(HEADERS, END_HEADERS | END_STREAM, 0, REQUESTS[0])],
        vec![frame(HEADERS, END_HEADERS | END_STREAM, 1, REQUESTS[1])],
        vec![frame(HEADERS, END_HEADERS, 1, REQUESTS[0])],
        vec![request.clone(), frame(HEADERS, END_HEADERS | END_STREAM, 3, REQUESTS[1])],
        vec![frame(HEADERS, END_HEADERS | END_STREAM, 3, REQUESTS[0])],
        vec![request[..request.len() - 1].to_vec()],
        vec![request[..8].to_vec()],
        vec![frame(CONTINUATION, END_HEADERS, 1, REQUESTS[0])],
    ] {
        assert_eq!(read(&client(&frames), &answer(1, b"OK")), None);
    }
    assert_eq!(read(&request, &answer(1, b"OK")), None);
    assert!(!starts_as_http2(&PREFACE[..23]));
}

fn segment(source: u16, destination: u16, payload: &[u8]) -> Vec<u8> {
    let mut packet = vec![2, 0, 0, 0, 0, 2, 2, 0, 0, 0, 0, 1, 0x08, 0x00, 0x45, 0];
    packet.extend_from_slice(&((40 + payload.len()) as u16).to_be_bytes());
    packet.extend_from_slice(&[0, 1, 0, 0, 64, 6, 0, 0]);
    packet.extend_from_slice(&[192, 0, 2, if source < destination { 2 } else { 1 }]);
    packet.extend_from_slice(&[192, 0, 2, if source < destination { 1 } else { 2 }]);
    packet.extend_from_slice(&source.to_be_bytes());
    packet.extend_from_slice(&destination.to_be_bytes());
    packet.extend_from_slice(&[0, 0, 0, 9, 0, 0, 0, 0, 0x50, 0x18, 0x20, 0, 0, 0, 0, 0]);
    packet.extend_from_slice(payload);
    packet
}

fn capture(packets: &[Vec<u8>]) -> Vec<u8> {
    let mut file = vec![0xd4, 0xc3, 0xb2, 0xa1, 2, 0, 4, 0, 0, 0, 0, 0, 0, 0, 0, 0];
    file.extend_from_slice(&65_535u32.to_le_bytes());
    file.extend_from_slice(&1u32.to_le_bytes());
    for packet in packets {
        let length = (packet.len() as u32).to_le_bytes();
        file.extend_from_slice(&[0; 8]);
        file.extend_from_slice(&length);
        file.extend_from_slice(&length);
        file.extend_from_slice(packet);
    }
    file
}

#[test]
fn captured_http2_is_extracted_and_replayed() {
    let requests = client(&[
        frame(HEADERS, END_HEADERS, 1, REQUESTS[0]),
        frame(DATA, END_STREAM, 1, b"DLP-SECRET"),
    ]);
    let reset = client(&[frame(RST_STREAM, 0, 1, &[0; 4])]);
    let file = capture(&[
        segment(40_000, 80, &requests),
        segment(80, 40_000, &answer(1, b"OK")),
        segment(40_001, 80, &reset),
        segment(80, 40_001, &answer(1, b"OK")),
    ]);
    let (_, analysis) = analyze_capture(&file).unwrap();
    assert_eq!(analysis.flows.len(), 2);
    assert_eq!(analysis.exclusions.unsupported_http2_flows, 1);
    assert_eq!(analysis.exclusions.unsupported_http_flows, 0);
    assert_eq!(analysis.flows[0].http2_transactions.len(), 1);
    assert_eq!(analysis.flows[0].http2_transactions[0].request_body, b"DLP-SECRET");
    assert_eq!(analysis.flows[0].http2_transactions[0].response_body, b"OK");
    assert!(analysis.flows[0].http_transactions.is_empty());
    assert!(analysis.flows[1].http2_transactions.is_empty());

    let scenario = Scenario { protocol: Protocol::Http2, ..Scenario::default() };
    let plan = ReplayPlan::from_capture(&file, &scenario, ReplayRole::Client).unwrap();
    assert_eq!(plan.flows.len(), 1);
    let payloads: Vec<&[u8]> =
        plan.flows[0].iter().map(|turn| turn.payload.as_slice()).collect();
    assert_eq!(payloads, [&b"DLP-SECRET"[..], b"OK"]);
}
