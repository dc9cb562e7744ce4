use proxy_tester::agent::counts::{
    interface_count, retransmitted_segments, take_counts, SystemCounts,
};
use proxy_tester::agent::telemetry::Counters;
use proxy_tester::control::error::{ApiError, ApiErrorKind};
use proxy_tester::control::network::NodeReply;
use proxy_tester::control::participants::{check_command, phase_after};
use proxy_tester::control::runtime::{
    check_artifact, named_runtime, prepared_runtime, EndRuntime,
};
use proxy_tester::domain::payload::PayloadMode;
use proxy_tester::domain::scenario::{Scenario, ScenarioPath};
use proxy_tester::id::Uuid;
use proxy_tester::ip::IpAddr;
use proxy_tester::wire::{WireEndpointPlan, WirePlan};

fn end(role: &str, interface: &str, addresses: &[&str]) -> WireEndpointPlan {
    WireEndpointPlan {
        role: role.into(),
        namespace: format!("ns-{role}"),
        interface: interface.into(),
        addresses: addresses.iter().map(|a| a.to_string()).collect(),
    }
}

fn plan(endpoints: Vec<WireEndpointPlan>) -> WirePlan {
    WirePlan {
        profile_revision_id: String::new(),
        node_id: String::new(),
        inventory_fingerprint: String::new(),
        endpoints,
        semantic_changes: vec![],
        commands: vec![],
        rollback_commands: vec![],
        warnings: vec![],
    }
}

#[test]
fn prepared_ends_get_their_addresses() {
    let client = plan(vec![
        end("server", "eth9", &["10.9.0.1/24"]),
        end("client", "eth1", &["10.0.0.1/24", "10.0.0.2/24"]),
    ]);
    let server = plan(vec![end("server", "eth2", &["10.0.0.9/24", "10.0.0.10"])]);
    let (from, to) = prepared_runtime(&client, &server, 8443).unwrap();
    assert_eq!(
        from,
        EndRuntime {
            target_addr: "10.0.0.9:8443".into(),
            interface: "eth1".into(),
            namespace: "ns-client".into(),
            source_ips: vec!["10.0.0.1".into(), "10.0.0.2".into()],
        },
    );
    assert_eq!(to.target_addr, from.target_addr);
    assert_eq!(to.interface, "eth2");
    assert_eq!(to.source_ips, ["10.0.0.9", "10.0.0.10"]);

    let bare = plan(vec![end("server", "eth2", &[])]);
    for (client, server, message) in [
        (&server, &server, "network plan has no client end"),
        (&client, &plan(vec![]), "network plan has no server end"),
        (&client, &bare, "network plan has no server address"),
    ] {
        let error = prepared_runtime(client, server, 1).unwrap_err();
        assert_eq!(error.kind, ApiErrorKind::Internal);
        assert_eq!(error.message, message);
    }
}

#[test]
fn named_ends_get_the_addresses_of_the_scenario() {
    let mut scenario = Scenario::default();
    assert!(named_runtime(&scenario).is_none());
    scenario.path = ScenarioPath::ExplicitProxy {
        client_node_id: "a".into(),
        client_bind_ip: IpAddr::V4(0x0a00_0001),
        server_node_id: "b".into(),
        server_listen_ip: IpAddr::V4(0x0a00_0002),
        server_port: 9000,
        proxy_addr: "10.0.0.3:3128".into(),
    };
    let (client, server) = named_runtime(&scenario).unwrap();
    assert_eq!(client.target_addr, "10.0.0.2:9000");
    assert_eq!(client.source_ips, ["10.0.0.1"]);
    assert_eq!(server.target_addr, "10.0.0.2:9000");
    assert_eq!(server.source_ips, ["10.0.0.2"]);
    assert_eq!((client.interface.as_str(), client.namespace.as_str()), ("", ""));
}

#[test]
fn artifacts_are_of_the_kind_that_is_needed() {
    let mut scenario = Scenario::default();
    let id = Uuid { value: 4 };
    let name = id.to_text();
    let message = |scenario: &Scenario, kind| check_artifact(scenario, id, kind).unwrap_err().message;
    assert!(check_artifact(&scenario, id, Some("payload")).is_ok());
    assert_eq!(message(&scenario, Some("pcap")), format!("artifact {name} is not a payload"));
    assert_eq!(message(&scenario, None), format!("artifact {name} does not exist"));
    scenario.payload_mode = PayloadMode::CaptureReplay;
    scenario.capture_artifact_id = Some(id);
    assert!(check_artifact(&scenario, id, Some("pcap")).is_ok());
    assert_eq!(message(&scenario, Some("payload")), format!("artifact {name} is not a pcap"));
    assert!(check_artifact(&scenario, Uuid { value: 5 }, Some("payload")).is_ok());
}

#[test]
fn answers_of_agents_are_kept() {
    assert!(check_command("a", "prepare", &NodeReply::Accepted).is_ok());
    let refused = check_command("a", "prepare", &NodeReply::Refused("busy".into()));
    assert_eq!(refused.as_ref().unwrap_err().message, "a prepare failed: busy");
    let silent = check_command("a", "start", &NodeReply::Silent);
    assert_eq!(silent.unwrap_err().message, "a start timed out");
    assert_eq!(phase_after("prepare", &Ok(())), ("prepare_acked".to_string(), None));
    assert_eq!(
        phase_after("prepare", &Err(ApiError::internal("busy"))),
        ("prepare".to_string(), Some("busy".to_string())),
    );
    assert_eq!(phase_after("prepare", &refused).0, "prepare");
}

#[test]
fn system_counts_are_read() {
    let table = "Ip: Forwarding RetransSegs\nIp: 1 7\n\
                 Tcp: RtoAlgorithm  OutSegs RetransSegs InErrs\nTcp: 1 20\t42 0\n";
    assert_eq!(retransmitted_segments(table), 42);
    assert_eq!(retransmitted_segments("Tcp: OutSegs\nTcp: 20\n"), 0);
    assert_eq!(retransmitted_segments("Tcp: OutSegs RetransSegs\nTcp: 20\n"), 0);
    assert_eq!(retransmitted_segments("Tcp: RetransSegs\n"), 0);
    assert_eq!(retransmitted_segments(""), 0);
    assert_eq!(interface_count("1234\n"), 1234);
    assert_eq!(interface_count("none"), 0);
}

#[test]
fn system_counts_are_taken_over() {
    let first = SystemCounts {
        tx_packets: 10,
        rx_packets: 20,
        tx_bytes: 1_000,
        rx_bytes: 2_000,
        retransmitted: 5,
    };
    let now = SystemCounts { tx_packets: 13, tx_bytes: 1_500, retransmitted: 4, ..first };
    let mut counters = Counters { packets_rx: 3, wire_tx_bytes: 700, ..Counters::default() };
    take_counts(&mut counters, &first, &now);
    assert_eq!(counters.packets_tx, 3);
    assert_eq!(counters.packets_rx, 3);
    assert_eq!(counters.wire_tx_bytes, 700);
    assert_eq!(counters.wire_rx_bytes, 0);
    assert_eq!(counters.tcp_retransmissions, 0);
    take_counts(&mut counters, &first, &SystemCounts { tx_bytes: 1_900, ..now });
    assert_eq!(counters.wire_tx_bytes, 900);
}
