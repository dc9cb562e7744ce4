use proxy_tester::digest::sha256_hex;
use proxy_tester::domain::load::{ramp_clients, LoadStage, LoadStageMode};
use proxy_tester::domain::network::{ipv4_range, NetworkProfileDraft};
use proxy_tester::domain::payload::{PayloadKind, PayloadMode, PayloadProfile, MAX_PAYLOAD_BYTES};
use proxy_tester::domain::scenario::{valid_host_port, Protocol, Scenario, ScenarioPath};
use proxy_tester::domain::tls::{TlsProfile, TlsVersion};
use proxy_tester::id::Uuid;
use proxy_tester::ip::IpAddr;

#[test]
fn default_is_valid() {
    assert!(Scenario::default().validate().is_ok());
}

#[test]
fn http2_requires_tls_and_bounded_stream_concurrency() {
    let mut scenario = Scenario::default();
    scenario.protocol = Protocol::Http2;
    assert!(scenario.validate().unwrap_err().message().contains("requires TLS"));
    scenario.tls.enabled = true;
    scenario.tls.server_cert_pem = Some("certificate".into());
    scenario.tls.server_key_pem = Some("key".into());
    scenario.http2.max_concurrent_streams = 0;
    assert!(scenario
        .validate()
        .unwrap_err()
        .message()
        .contains("max_concurrent_streams"));
    scenario.http2.max_concurrent_streams = 100;
    assert!(scenario.validate().is_ok());
}

#[test]
fn scenario_v4_rejects_unsealed_managed_profile() {
    let mut scenario = Scenario::default();
    scenario.path = ScenarioPath::ManagedDirect {
        profile_revision_id: Uuid::nil(),
        server_port: 8080,
    };
    assert!(scenario
        .validate()
        .unwrap_err()
        .message()
        .contains("profile_revision_id"));
}

#[test]
fn text_uses_utf8_length_and_payload_limit_is_enforced() {
    let mut scenario = Scenario::default();
    scenario.request_payload = Some(PayloadProfile {
        kind: PayloadKind::Text,
        text: "가".into(),
        ..Default::default()
    });
    assert_eq!(scenario.request_payload().byte_len(), 3);
    scenario.response_payload = Some(PayloadProfile::fixed(MAX_PAYLOAD_BYTES + 1));
    assert!(scenario.validate().unwrap_err().message().contains("64 MiB"));
}

#[test]
fn capture_replay_requires_an_artifact_reference() {
    let mut scenario = Scenario::default();
    scenario.payload_mode = PayloadMode::CaptureReplay;
    assert!(scenario.validate().is_err());
    scenario.capture_artifact_id = Some(Uuid::new_v4());
    assert!(scenario.validate().is_ok());
}

#[test]
fn explicit_requires_proxy() {
    let s = Scenario {
        path: ScenarioPath::ExplicitProxy {
            client_node_id: "client-node".into(),
            client_bind_ip: IpAddr::V4(0xc000_020a),
            server_node_id: "server-node".into(),
            server_listen_ip: IpAddr::V4(0xc000_0214),
            server_port: 8080,
            proxy_addr: String::new(),
        },
        ..Scenario::default()
    };
    assert!(s.validate().is_err());
}

#[test]
fn tls_version_and_cipher_must_be_compatible() {
    let mut profile = TlsProfile::default();
    assert_eq!(profile.version, TlsVersion::Tls13);
    assert!(!profile.verify_peer);
    profile.cipher_suite = Some("TLS13_AES_128_GCM_SHA256".into());
    assert!(profile.cipher_is_compatible());
    profile.version = TlsVersion::Tls12;
    assert!(!profile.cipher_is_compatible());
    profile.cipher_suite = Some("TLS_ECDHE_RSA_WITH_AES_128_GCM_SHA256".into());
    assert!(profile.cipher_is_compatible());
    profile.cipher_suite = Some("TLS_RSA_WITH_3DES_EDE_CBC_SHA".into());
    assert!(!profile.cipher_is_compatible());
}

#[test]
fn unsupported_features_fail_instead_of_being_ignored() {
    let mut scenario = Scenario::default();
    scenario.tls.enabled = true;
    assert!(scenario.validate().unwrap_err().message().contains("TLS"));

    let scenario = Scenario {
        warmup_secs: 1,
        ..Scenario::default()
    };
    assert!(scenario.validate().unwrap_err().message().contains("warmup"));
}

#[test]
fn network_profile_validates_subnet_pool_and_interfaces() {
    let profile = NetworkProfileDraft::default();
    assert!(profile.validate().is_ok());
    let mut overlap = profile.clone();
    overlap.server_endpoint.start_cidr = "10.20.0.20/24".into();
    assert!(overlap.validate().unwrap_err().message().contains("overlap"));
    let mut too_large = profile;
    too_large.client_endpoint.count = 4097;
    assert!(too_large.validate().unwrap_err().message().contains("4096"));
}

#[test]
fn multiple_http_transactions_require_keep_alive() {
    let mut scenario = Scenario {
        protocol: Protocol::Http1,
        ..Scenario::default()
    };
    scenario.request.keep_alive = false;
    scenario.request.transactions_per_connection = 2;
    assert!(scenario.validate().is_err());

    scenario.request.keep_alive = true;
    assert!(scenario.validate().is_ok());
    scenario.request.transactions_per_connection = 0;
    assert!(scenario.validate().is_ok());
}

#[test]
fn staged_load_interpolates_and_holds() {
    let scenario = Scenario {
        load_stages: vec![
            LoadStage {
                name: "ramp".into(),
                mode: LoadStageMode::Ramp,
                duration_secs: 10,
                target_virtual_clients: 100,
                include_in_results: false,
            },
            LoadStage {
                name: "hold".into(),
                mode: LoadStageMode::Hold,
                duration_secs: 20,
                target_virtual_clients: 100,
                include_in_results: true,
            },
        ],
        ..Scenario::default()
    };
    assert_eq!(scenario.effective_duration_secs(), 30);
    assert_eq!(scenario.maximum_virtual_clients(), 100);
    assert_eq!(scenario.load_at(5_000), (0, 50, false));
    assert_eq!(scenario.load_at(15_000), (1, 100, true));
    assert!(scenario.validate().is_ok());
}

fn ramp_in_floats(from: u32, to: u32, elapsed: u64, duration: u64) -> u32 {
    let progress = elapsed as f64 / duration as f64;
    (from as f64 + (to as f64 - from as f64) * progress).round() as u32
}

#[test]
fn ramps_stay_between_their_targets() {
    for (from, to) in [(0, 7), (7, 0), (3, 100_000), (4_294_967_295, 1)] {
        let duration = 997;
        for elapsed in 0..=duration {
            let clients = ramp_clients(from, to, elapsed, duration);
            assert!(from.min(to) <= clients && clients <= from.max(to));
        }
        assert_eq!(ramp_clients(from, to, 0, duration), from);
        assert_eq!(ramp_clients(from, to, duration, duration), to);
    }
}

#[test]
fn default_scenarios_have_the_defaults_of_their_parts() {
    let scenario = Scenario::default();
    assert_eq!(scenario.request.path, "/");
    assert_eq!(scenario.request.host, "proxy-tester.local");
    assert_eq!(scenario.request.request_body_bytes, 0);
    assert_eq!(scenario.request.response_body_bytes, 128);
    assert_eq!(scenario.request.think_time_ms, 0);
    assert_eq!(scenario.tls.server_name, "proxy-tester.local");
    assert!(scenario.tls.cipher_suite.is_none() && scenario.tls.ca_pem.is_none());
    assert_eq!(scenario.server_port(), 8080);
}

#[test]
fn ramps_agree_with_double_precision() {
    let cases = [
        (0, 100, 5_000, 10_000),
        (0, 1, 4_999, 10_000),
        (0, 1, 5_000, 10_000),
        (100, 0, 3_333, 10_000),
        (7, 100_000, 1, 3),
        (100_000, 7, 2, 3),
        (1, 4_294_967_295, 1, 7),
        (4_294_967_295, 0, 6, 7),
        (0, 3, 1, 6),
        (0, 3, 5, 6),
        (0, 4_294_967_295, 999_999_999_999, 1_000_000_000_000),
        (50, 50, 0, 1_000),
    ];
    for (from, to, elapsed, duration) in cases {
        assert_eq!(
            ramp_clients(from, to, elapsed, duration),
            ramp_in_floats(from, to, elapsed, duration)
        );
    }
    let mut seed: u64 = 88_172_645_463_325_252;
    for _ in 0..20_000 {
        seed ^= seed << 13;
        seed ^= seed >> 7;
        seed ^= seed << 17;
        let from = (seed >> 3) as u32 % 100_001;
        let to = (seed >> 29) as u32 % 100_001;
        let duration = (seed >> 11) % 86_400_000 + 1;
        let elapsed = (seed >> 5) % duration;
        assert_eq!(
            ramp_clients(from, to, elapsed, duration),
            ramp_in_floats(from, to, elapsed, duration)
        );
    }
}

#[test]
fn scenarios_without_stages_hold_their_clients() {
    let scenario = Scenario {
        virtual_clients: 7,
        duration_secs: 9,
        ..Scenario::default()
    };
    assert_eq!(scenario.effective_duration_secs(), 9);
    assert_eq!(scenario.maximum_virtual_clients(), 7);
    assert_eq!(scenario.load_at(1), (0, 7, true));
    assert_eq!(scenario.load_at(1_000_000), (0, 7, true));
}

fn refusal(change: fn(&mut Scenario)) -> String {
    let mut scenario = Scenario::default();
    change(&mut scenario);
    scenario.validate().unwrap_err().message().to_string()
}

fn stage(name: &str, duration_secs: u64, target_virtual_clients: u32) -> LoadStage {
    LoadStage {
        name: name.into(),
        mode: LoadStageMode::Hold,
        duration_secs,
        target_virtual_clients,
        include_in_results: true,
    }
}

fn with_proxy(
    server_node_id: &str,
    server_listen_ip: IpAddr,
    server_port: u16,
    proxy_addr: &str,
) -> ScenarioPath {
    ScenarioPath::ExplicitProxy {
        client_node_id: "client-node".into(),
        client_bind_ip: IpAddr::V4(0xc000_020a),
        server_node_id: server_node_id.into(),
        server_listen_ip,
        server_port,
        proxy_addr: proxy_addr.into(),
    }
}

#[test]
fn every_refusal_of_a_scenario_is_told() {
    assert_eq!(refusal(|s| s.version = 3), "지원하지 않는 scenario version: 3");
    assert_eq!(
        refusal(|s| s.payload_mode = PayloadMode::CaptureReplay),
        "PCAP session replay requires an analyzed capture artifact"
    );
    assert_eq!(
        refusal(|s| s.request_payload = Some(PayloadProfile {
            kind: PayloadKind::File,
            ..Default::default()
        })),
        "request file payload requires artifact_id"
    );
    assert_eq!(
        refusal(|s| s.response_payload = Some(PayloadProfile {
            kind: PayloadKind::Empty,
            artifact_id: Some(Uuid { value: 5 }),
            ..Default::default()
        })),
        "response artifact_id is only valid for file payload"
    );
    assert_eq!(refusal(|s| s.name = "  ".into()), "name은 비어 있을 수 없습니다");
    assert_eq!(
        refusal(|s| s.duration_secs = 0),
        "duration_secs는 1 이상이어야 합니다"
    );
    assert_eq!(
        refusal(|s| s.virtual_clients = 0),
        "virtual_clients는 1 이상이어야 합니다"
    );
    assert_eq!(
        refusal(|s| s.load_stages = (0..51).map(|_| stage("s", 1, 1)).collect()),
        "load stage는 최대 50개까지 설정할 수 있습니다"
    );
    assert_eq!(
        refusal(|s| s.load_stages = vec![stage(" ", 1, 1)]),
        "각 load stage에는 이름과 1초 이상의 시간이 필요합니다"
    );
    assert_eq!(
        refusal(|s| s.load_stages = vec![stage("s", 1, 0)]),
        "load stage 중 하나는 1명 이상의 가상 클라이언트를 사용해야 합니다"
    );
    assert_eq!(
        refusal(|s| s.protocol = Protocol::Connect),
        "CONNECT는 시험 프로토콜이 아닙니다. explicit proxy와 TCP를 선택하세요"
    );
    assert_eq!(
        refusal(|s| s.path = ScenarioPath::ManagedDirect {
            profile_revision_id: Uuid { value: 1 },
            server_port: 0,
        }),
        "server_port must be non-zero"
    );
    assert_eq!(
        refusal(|s| s.path = with_proxy(" ", IpAddr::V4(1), 80, "proxy.test:3128")),
        "explicit_proxy requires client and server node IDs"
    );
    assert_eq!(
        refusal(|s| s.path = with_proxy("b", IpAddr::V6([0; 8]), 80, "proxy.test:3128")),
        "explicit_proxy endpoint addresses must be IPv4"
    );
    assert_eq!(
        refusal(|s| s.path = with_proxy("b", IpAddr::V4(1), 0, "proxy.test:3128")),
        "explicit_proxy requires server port and proxy host:port"
    );
}

fn profile_refusal(change: fn(&mut NetworkProfileDraft)) -> String {
    let mut draft = NetworkProfileDraft::default();
    change(&mut draft);
    draft.validate().unwrap_err().message().to_string()
}

#[test]
fn every_refusal_of_a_network_profile_is_told() {
    assert_eq!(
        profile_refusal(|d| d.name = String::new()),
        "network profile name is required"
    );
    assert_eq!(
        profile_refusal(|d| d.mtu = 9217),
        "MTU must be between 576 and 9216"
    );
    assert_eq!(
        profile_refusal(|d| d.diagnostic_port = 0),
        "diagnostic_port must be non-zero"
    );
    assert_eq!(
        profile_refusal(|d| d.client_endpoint.node_id = " ".into()),
        "endpoint node and interface are required"
    );
    assert_eq!(
        profile_refusal(|d| d.client_endpoint.start_cidr = "10.20.0.11".into()),
        "start_cidr must be IPv4/prefix"
    );
    assert_eq!(
        profile_refusal(|d| d.client_endpoint.start_cidr = "10.20.0.011/24".into()),
        "start_cidr must be IPv4/prefix"
    );
    assert_eq!(
        profile_refusal(|d| d.client_endpoint.start_cidr = "10.20.0.11/256".into()),
        "invalid IPv4 prefix"
    );
    assert_eq!(
        profile_refusal(|d| d.client_endpoint.start_cidr = "10.20.0.11/31".into()),
        "IPv4 prefix must be between 1 and 30"
    );
    assert_eq!(
        profile_refusal(|d| {
            d.client_endpoint.start_cidr = "255.255.255.255/24".into();
            d.client_endpoint.count = 2;
        }),
        "IP pool overflows"
    );
    assert_eq!(
        profile_refusal(|d| d.client_endpoint.start_cidr = "10.20.0.0/24".into()),
        "IP pool includes network/broadcast or leaves subnet"
    );
    assert_eq!(
        profile_refusal(|d| d.client_endpoint.start_cidr = "10.21.0.11/24".into()),
        "client and server pools must use the same IPv4 subnet"
    );
    assert_eq!(
        profile_refusal(|d| {
            d.server_endpoint.node_id = d.client_endpoint.node_id.clone();
            d.server_endpoint.interface_name = d.client_endpoint.interface_name.clone();
        }),
        "client and server endpoints require different interfaces on the same node"
    );
}

#[test]
fn proxy_addresses_name_a_host_and_a_port() {
    assert!(valid_host_port("proxy.test:3128"));
    assert!(valid_host_port("192.0.2.1:80"));
    assert!(!valid_host_port("proxy.test"));
    assert!(!valid_host_port(":3128"));
    assert!(!valid_host_port("proxy.test:0"));
    assert!(!valid_host_port("proxy.test:65536"));
}

#[test]
fn target_addresses_are_written_out() {
    let scenario = Scenario {
        path: ScenarioPath::ExplicitProxy {
            client_node_id: "a".into(),
            client_bind_ip: IpAddr::V4(0xc000_020a),
            server_node_id: "b".into(),
            server_listen_ip: IpAddr::V4(0xc000_0214),
            server_port: 8080,
            proxy_addr: "proxy.test:3128".into(),
        },
        ..Scenario::default()
    };
    assert!(scenario.is_explicit_proxy());
    assert_eq!(scenario.client_node_id(), Some("a"));
    assert_eq!(scenario.server_node_id(), Some("b"));
    assert_eq!(scenario.proxy_addr(), Some("proxy.test:3128"));
    assert_eq!(scenario.server_port(), 8080);
    assert_eq!(scenario.target_addr(), "192.0.2.20:8080");
}

#[test]
fn address_pools_are_counted_within_their_subnet() {
    let mut draft = NetworkProfileDraft::default();
    draft.client_endpoint.start_cidr = "10.0.0.250/24".into();
    draft.client_endpoint.count = 5;
    assert_eq!(
        ipv4_range(&draft.client_endpoint).unwrap(),
        (0x0a00_00fa, 0x0a00_00fe, 0x0a00_0000, 24)
    );
    draft.client_endpoint.count = 6;
    assert!(ipv4_range(&draft.client_endpoint).is_err());
    draft.client_endpoint.start_cidr = "10.0.0.300/24".into();
    assert!(ipv4_range(&draft.client_endpoint).is_err());
    draft.client_endpoint.start_cidr = "10.0.0.1".into();
    assert!(ipv4_range(&draft.client_endpoint).is_err());
}

#[test]
fn cipher_complaints_quote_the_suite() {
    let mut profile = TlsProfile::default();
    profile.enabled = true;
    profile.server_cert_pem = Some("certificate".into());
    profile.server_key_pem = Some("key".into());
    assert_eq!(profile.problem(), None);
    profile.cipher_suite = Some("TLS_\"odd\"".into());
    assert_eq!(
        profile.problem().unwrap(),
        "cipher suite Some(\"TLS_\\\"odd\\\"\") is not supported by Tls13"
    );
    profile.cipher_suite = None;
    profile.server_key_pem = None;
    assert_eq!(
        profile.problem().unwrap(),
        "TLS server certificate와 private key가 필요합니다"
    );
    profile.server_key_pem = Some("key".into());
    profile.verify_peer = true;
    assert_eq!(
        profile.problem().unwrap(),
        "TLS 인증서 검증을 사용하려면 CA PEM이 필요합니다"
    );
    profile.server_name = String::new();
    assert_eq!(profile.problem().unwrap(), "TLS server_name이 필요합니다");
}

#[test]
fn identifiers_are_written_and_read_back() {
    let id = Uuid::new_v4();
    assert!(!id.is_nil());
    assert_ne!(id, Uuid::new_v4());
    let text = id.to_text();
    assert_eq!(text.len(), 36);
    assert_eq!(Uuid::parse_str(&text).ok(), Some(id));
    assert!(Uuid::parse_str("not-an-id").is_err());
    assert_eq!(Uuid::nil().to_text(), "00000000-0000-0000-0000-000000000000");
}

#[test]
fn digests_are_written_in_hexadecimal() {
    assert_eq!(
        sha256_hex(b"abc"),
        "ba7816bf8f01cfea414140de5dae2223b00361a396177a9cb410ff61f20015ad"
    );
}

#[test]
fn addresses_are_written_out() {
    let mut text = String::new();
    IpAddr::V4(0x0102_03ff).push_text(&mut text);
    assert_eq!(text, "1.2.3.255");
    let cases = [
        [0x2001, 0xdb8, 0, 0, 0, 0, 0, 1],
        [0, 0, 0, 0, 0, 0, 0, 0],
        [1, 0, 0, 2, 0, 0, 0, 3],
        [1, 0, 2, 3, 4, 5, 6, 7],
        [0, 0, 0, 0, 0, 0xffff, 0xc000, 0x0201],
        [0xfe80, 0, 0, 0, 0, 0, 0, 0],
    ];
    let written = [
        "2001:db8::1",
        "::",
        "1:0:0:2::3",
        "1:0:2:3:4:5:6:7",
        "::ffff:192.0.2.1",
        "fe80::",
    ];
    for (groups, expected) in cases.into_iter().zip(written) {
        let mut text = String::new();
        IpAddr::V6(groups).push_text(&mut text);
        assert_eq!(text, expected);
    }
}
