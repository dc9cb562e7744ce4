use proxy_tester::agent::inventory::{
    add_addresses, inventory_of, parse_offloads, read_devices, read_interfaces, sort_by_name,
    Flags, InterfaceInventory, NodeInventory,
};
use proxy_tester::agent::journal::{
    command_outcome, describe, millis_until, rollback_outcome, ApplyStep, NetworkJournal, Rollback,
    RollbackStep,
};
use proxy_tester::agent::plan::{
    expand_pool, short, validate_identifier, CommandSpec, NetworkManager,
};
use proxy_tester::agent::replay::ReplayRole;
use proxy_tester::agent::session::{
    draft_to_plan, network_ack, undoes, NetworkAction, PauseCommand, PrepareCommand, PrepareGate,
    Role, Session, StartCommand, StopCommand,
};
use proxy_tester::control::plans::{
    inventory_to_json, json_to_plan, plan_detail, plan_in_reply, plan_to_json, progress_detail,
    progress_status, recorded_plan, string_array, string_field,
};
use proxy_tester::domain::network::{NetworkProfileDraft, ProvisioningPolicy};
use proxy_tester::domain::payload::PayloadMode;
use proxy_tester::domain::scenario::Scenario;
use proxy_tester::id::Uuid;
use proxy_tester::ip::IpAddr;
use proxy_tester::json::JsonValue;
use proxy_tester::wire::{
    network_draft_from_wire, network_draft_to_wire, plan_from_wire, plan_to_wire, WireDraft,
};

fn text(value: &str) -> JsonValue {
    JsonValue::Text(value.into())
}

fn object(members: Vec<(&str, JsonValue)>) -> JsonValue {
    JsonValue::Object(members.into_iter().map(|(k, v)| (k.to_string(), v)).collect())
}

fn two_interfaces() -> NodeInventory {
    NodeInventory {
        interfaces: vec![
            InterfaceInventory { name: "eth1".into(), ..Default::default() },
            InterfaceInventory { name: "eth2".into(), ..Default::default() },
        ],
        fingerprint: "abc".into(),
        ..Default::default()
    }
}

#[test]
fn plan_is_deterministic_and_rejects_management_nic() {
    let mut inventory = two_interfaces();
    let draft = NetworkProfileDraft::default();
    let manager = NetworkManager::new("unused");
    let plan = manager.plan("node-1", "12345678-revision", &draft, &inventory).unwrap();
    let wire = plan_to_wire(plan.clone());
    assert_eq!(plan_from_wire(wire), plan);
    assert_eq!(plan.endpoints.len(), 2);
    assert!(plan.commands.iter().all(|c| c.program == "ip"));
    assert_eq!(plan.endpoints[0].addresses.len(), 16);
    assert!(plan.rollback_commands[0].args.contains(&"link".to_owned()));
    assert_eq!(plan.rollback_commands[2].args, ["netns", "del", "pt-12345678-client"]);
    assert_eq!(
        parse_offloads("rx-checksumming: on\ngeneric-receive-offload: off\n").get("rx"),
        Some(true)
    );
    inventory.protected_interfaces.push("eth1".into());
    assert!(manager
        .plan("node-1", "revision", &draft, &inventory)
        .unwrap_err()
        .message
        .contains("management"));
}

#[test]
fn plans_refuse_interfaces_that_are_in_use() {
    let draft = NetworkProfileDraft::default();
    let manager = NetworkManager::new("unused");
    let refusal = |change: fn(&mut InterfaceInventory)| {
        let mut inventory = two_interfaces();
        change(&mut inventory.interfaces[0]);
        manager.plan("node-1", "12345678-r", &draft, &inventory).unwrap_err().message
    };
    assert!(!refusal(|i| i.name = "eth9".into()).is_empty());
    assert!(!refusal(|i| i.addresses = vec!["192.0.2.1".into()]).is_empty());
    assert!(!refusal(|i| i.master = Some("br0".into())).is_empty());
    let mut six = two_interfaces();
    six.interfaces[0].addresses = vec!["fe80::1".into()];
    assert!(manager.plan("node-1", "12345678-r", &draft, &six).is_ok());
}

#[test]
fn virtual_links_are_borrowed_only_where_allowed() {
    let mut draft = NetworkProfileDraft::default();
    let manager = NetworkManager::new("unused");
    let mut inventory = two_interfaces();
    inventory.interfaces[0].kind = Some("veth".into());
    assert_eq!(
        manager.plan("node-1", "12345678-r", &draft, &inventory).unwrap_err().message,
        "interface eth1 is a virtual link of kind veth"
    );
    draft.allow_virtual_interfaces = true;
    assert!(manager.plan("node-1", "12345678-r", &draft, &inventory).is_ok());
}

#[test]
fn operators_networks_are_left_alone() {
    let mut draft = NetworkProfileDraft::default();
    draft.policy = ProvisioningPolicy::OperatorManaged;
    draft.client_endpoint.count = 2;
    draft.server_endpoint.count = 1;
    let manager = NetworkManager::new("unused");
    let mut inventory = two_interfaces();
    inventory.interfaces[0].kind = Some("vxlan".into());
    inventory.interfaces[0].master = Some("br0".into());
    inventory.interfaces[0].addresses = vec!["10.20.0.10/24".into(), "fe80::1/64".into()];
    inventory.interfaces[1].addresses = vec!["10.20.0.100/16".into()];
    assert_eq!(
        manager.plan("node-1", "12345678-r", &draft, &inventory).unwrap_err().message,
        "interface eth1 does not have 10.20.0.11"
    );
    inventory.interfaces[0].addresses.push("10.20.0.11/24".into());
    let plan = manager.plan("node-1", "12345678-r", &draft, &inventory).unwrap();
    assert!(plan.commands.is_empty() && plan.rollback_commands.is_empty());
    assert!(plan.warnings.is_empty());
    assert_eq!(plan.endpoints[0].namespace, "");
    assert_eq!(plan.endpoints[0].addresses, ["10.20.0.10/24", "10.20.0.11/24"]);
    assert_eq!(
        plan.semantic_changes,
        ["use 2 IPv4 addresses of eth1 as they are", "use 1 IPv4 addresses of eth2 as they are"]
    );
    inventory.protected_interfaces.push("eth2".into());
    assert!(manager.plan("node-1", "12345678-r", &draft, &inventory).is_err());
    let wire = network_draft_to_wire(draft.clone());
    assert_eq!(network_draft_from_wire(wire).unwrap(), draft);
}

#[test]
fn plans_take_only_the_ends_of_their_node() {
    let draft = NetworkProfileDraft::default();
    let manager = NetworkManager::new("unused");
    let refused = manager.plan("node-2", "12345678-r", &draft, &two_interfaces());
    assert!(refused.unwrap().endpoints.is_empty());
    let mut draft = draft;
    draft.server_endpoint.node_id = "node-2".into();
    let plan = manager.plan("node-1", "12345678-r", &draft, &two_interfaces()).unwrap();
    assert_eq!(plan.endpoints.len(), 1);
    assert_eq!((plan.endpoints[0].role.as_str(), plan.endpoints[0].addresses.len()), ("client", 16));
    draft.server_endpoint.start_cidr = "255.255.255.255/24".into();
    draft.server_endpoint.interface_name = "no such; name".into();
    assert_eq!(manager.plan("node-1", "12345678-r", &draft, &two_interfaces()).unwrap(), plan);
}

#[test]
fn pools_and_names_are_written_out() {
    let mut endpoint = NetworkProfileDraft::default().client_endpoint;
    endpoint.count = 2;
    let (cidrs, addresses) = expand_pool(&endpoint).unwrap();
    assert_eq!(addresses, ["10.20.0.10", "10.20.0.11"]);
    assert_eq!(cidrs, ["10.20.0.10/24", "10.20.0.11/24"]);
    assert_eq!(short("12345678-revision"), "12345678");
    assert_eq!(short("abc"), "abc");
    assert!(validate_identifier("eth0.100").is_ok());
    assert!(validate_identifier("eth0; rm").is_err());
    assert!(validate_identifier("").is_err());
}

#[test]
fn network_draft_round_trips() {
    let draft = NetworkProfileDraft::default();
    let wire = network_draft_to_wire(draft.clone());
    assert_eq!(network_draft_from_wire(wire).unwrap(), draft);
}

#[test]
fn missing_endpoint_has_field_context() {
    let value = WireDraft { id: Uuid::new_v4().to_text(), ..Default::default() };
    let error = network_draft_from_wire(value).unwrap_err();
    assert!(error.message().contains("client endpoint"));
}

#[test]
fn other_conversion_errors_tell_the_field() {
    let mut wire = network_draft_to_wire(NetworkProfileDraft::default());
    wire.diagnostic_port = 65_536;
    assert!(network_draft_from_wire(wire).unwrap_err().message().contains("65536"));
    let mut wire = network_draft_to_wire(NetworkProfileDraft::default());
    wire.id = "odd".into();
    assert!(!network_draft_from_wire(wire).unwrap_err().message().is_empty());
    assert!(draft_to_plan(None).is_err());
    let draft = NetworkProfileDraft::default();
    assert_eq!(draft_to_plan(Some(network_draft_to_wire(draft.clone()))).unwrap(), draft);
}

#[test]
fn recorded_plans_are_read_back() {
    let manager = NetworkManager::new("unused");
    let plan = manager
        .plan("node-1", "12345678-r", &NetworkProfileDraft::default(), &two_interfaces())
        .unwrap();
    let wire = plan_to_wire(plan.clone());
    let recorded = plan_to_json(&wire);
    assert_eq!(string_field(&recorded, "node_id"), "node-1");
    assert_eq!(string_array(&recorded, "warnings"), plan.warnings);
    assert_eq!(plan_from_wire(json_to_plan(&recorded).unwrap()), plan);
    assert!(json_to_plan(&JsonValue::Null).is_err());
    assert_eq!(progress_detail(&Some(wire), "e"), recorded);
    assert_eq!(string_field(&progress_detail(&None, "no route"), "error"), "no route");
    assert_eq!((progress_status(true), progress_status(false)), ("completed", "failed"));
}

#[test]
fn planned_changes_are_staged() {
    let plan = |node: &str| {
        let mut wire = plan_to_wire(small_plan());
        wire.node_id = node.into();
        wire
    };
    let nodes = vec!["a".to_string(), "b".to_string()];
    let detail = plan_detail(&nodes, &vec![plan("a"), plan("b")]);
    assert_eq!(string_array(&detail, "nodes"), nodes);
    assert_eq!(recorded_plan(&detail, "a").unwrap(), plan("a"));
    assert_eq!(recorded_plan(&detail, "b").unwrap(), plan("b"));
    assert_eq!(
        recorded_plan(&detail, "c").unwrap_err().message,
        "network plan missing node c"
    );
    assert_eq!(
        recorded_plan(&JsonValue::Null, "a").unwrap_err().message,
        "network plan has no node plans"
    );
    assert!(plan_in_reply(Some(plan("a"))).is_ok());
    assert_eq!(
        plan_in_reply(None).unwrap_err().message,
        "agent plan response is missing plan"
    );
}

#[test]
fn inventories_are_read_from_what_the_system_tells() {
    let links = vec![
        object(vec![
            ("ifname", text("eth2")),
            ("address", text("02:00:00:00:00:01")),
            ("mtu", JsonValue::Unsigned(1500)),
            ("operstate", text("UP")),
            ("flags", JsonValue::Array(vec![text("BROADCAST"), text("UP")])),
            ("master", text("br0")),
        ]),
        object(vec![("ifname", text("eth1")), ("operstate", text("DOWN"))]),
        object(vec![
            ("mtu", JsonValue::Unsigned(1500)),
            ("linkinfo", object(vec![("info_kind", text("veth"))])),
        ]),
    ];
    let addresses = vec![object(vec![
        ("ifname", text("eth1")),
        (
            "addr_info",
            JsonValue::Array(vec![object(vec![
                ("local", text("192.0.2.9")),
                ("prefixlen", JsonValue::Unsigned(24)),
            ])]),
        ),
    ])];
    let routes = vec![
        object(vec![("dst", text("default")), ("dev", text("eth0"))]),
        object(vec![("dst", text("default"))]),
    ];
    let offloads = vec![Some("rx-checksumming: on\ngeneric-receive-offload: off\n".to_string()), None];
    let (list, protected) = inventory_of(&links, &addresses, &routes, &offloads);
    let mut steps = read_interfaces(&links);
    steps[0].offloads = parse_offloads(offloads[0].as_deref().unwrap());
    add_addresses(&mut steps, &addresses);
    assert_eq!(sort_by_name(steps), list);
    assert_eq!(list.last().unwrap().name, "eth2");
    let first = list.iter().find(|i| i.name == "eth1").unwrap();
    assert!(first.addresses[0].starts_with("192.0.2.9"));
    assert!(!first.link_up);
    let second = list.iter().find(|i| i.name == "eth2").unwrap();
    assert_eq!(second.mac.as_deref(), Some("02:00:00:00:00:01"));
    assert_eq!(second.mtu, Some(1500));
    assert_eq!(second.master.as_deref(), Some("br0"));
    assert!(second.link_up);
    assert_eq!(second.offloads.get("rx"), Some(true));
    assert_eq!(list[0].kind.as_deref(), Some("veth"));
    assert_eq!(read_devices(&routes), protected);
    assert_eq!(protected, ["eth0"]);
    let inventory = NodeInventory::new(list, Flags::default(), protected);
    assert_eq!(
        inventory.fingerprint,
        "7bf8aca75d21ac8f97b6f731d5bd91b24aac6eb0b269dbf21a5d8af6b889e7fe"
    );
    let told = inventory_to_json(&inventory);
    assert_eq!(told.get_text("fingerprint"), Some(inventory.fingerprint.as_str()));
}

#[test]
fn flags_that_are_set_are_found() {
    let mut flags = Flags::default();
    flags.insert("tx", false);
    flags.insert("rx", true);
    flags.insert("tx", true);
    assert!(flags.is_on("tx") && flags.is_on("rx"));
    assert_eq!(flags.get("gro"), None);
    let read = parse_offloads(
        "Features for eth1:\nrx-checksumming: off [fixed]\ntcp-segmentation-offload: on\nodd line\n",
    );
    assert_eq!(read.get("rx"), Some(false));
    assert_eq!(read.get("tso"), Some(true));
}

fn command(args: &[&str]) -> CommandSpec {
    CommandSpec::new("ip", args)
}

fn small_plan() -> proxy_tester::agent::plan::NetworkPlan {
    let manager = NetworkManager::new("unused");
    manager
        .plan("node-1", "12345678-r", &NetworkProfileDraft::default(), &two_interfaces())
        .unwrap()
}

#[test]
fn changes_are_journaled_before_each_command() {
    let manager = NetworkManager::new("unused");
    let plan = small_plan();
    assert!(manager.apply("op", &plan, 9, "other").is_err());
    let mut applying = manager.apply("op", &plan, 9, "abc").unwrap();
    let mut writes = 0;
    let mut runs = 0;
    loop {
        match applying.step {
            ApplyStep::Write => {
                assert_eq!(applying.journal.completed_commands, runs);
                writes += 1;
            }
            ApplyStep::Run => {
                assert_eq!(applying.command().unwrap(), &plan.commands[runs]);
                runs += 1;
                assert_eq!(writes, runs);
            }
            ApplyStep::WriteStaged => assert_eq!(applying.journal.phase, "staged"),
            ApplyStep::Done => break,
            _ => panic!("no failure expected"),
        }
        applying.advance(Ok(()));
    }
    assert_eq!(runs, plan.commands.len());
    let committed = manager.commit(Some(applying.journal)).unwrap();
    assert_eq!(committed.phase, "prepared");
    assert!(manager.enforce_lease(&Some(committed.clone()), "op").is_none());
    assert!(manager.recover(&Some(committed.clone()), true).is_none());
    assert!(manager.recover(&Some(committed.clone()), false).is_some());
    assert!(manager.commit(Some(committed)).is_err());
    assert!(manager.commit(None).is_err());
    assert!(manager.recover(&None, false).is_none());
}

#[test]
fn failed_commands_lead_to_a_rollback() {
    let manager = NetworkManager::new("unused");
    let mut applying = manager.apply("op", &small_plan(), 9, "abc").unwrap();
    applying.advance(Ok(()));
    applying.advance(Err("no device".into()));
    assert_eq!(applying.step, ApplyStep::WriteRollback);
    assert_eq!(applying.journal.phase, "rolling_back");
    applying.advance(Ok(()));
    assert_eq!(applying.step, ApplyStep::RollBack);
    applying.advance(Ok(()));
    assert_eq!(applying.step, ApplyStep::Failed);
    assert_eq!(applying.error, "no device");
}

#[test]
fn rollbacks_try_three_times_and_keep_namespaces_after_failures() {
    let commands = vec![
        command(&["link", "set", "eth1", "up"]),
        command(&["netns", "del", "pt-a-client"]),
    ];
    let mut rollback = Rollback::start(&commands);
    let mut tries = 0;
    while rollback.step == RollbackStep::Run || rollback.step == RollbackStep::Wait {
        if rollback.step == RollbackStep::Run {
            assert_eq!(rollback.command().unwrap(), &commands[0]);
            tries += 1;
            rollback.advance(Err("busy".into()));
        } else {
            assert!(rollback.delay_secs() > 0);
            rollback.advance(Ok(()));
        }
    }
    assert_eq!(tries, 3);
    assert_eq!(rollback.step, RollbackStep::Failed);
    assert_eq!(
        rollback.error,
        "rollback failed: ip [\"link\", \"set\", \"eth1\", \"up\"]"
    );
    let mut rollback = Rollback::start(&commands);
    rollback.advance(Ok(()));
    rollback.advance(Ok(()));
    assert_eq!(rollback.step, RollbackStep::Remove);
    rollback.advance(Ok(()));
    assert_eq!(rollback.step, RollbackStep::Done);
}

#[test]
fn leases_end_only_what_was_not_committed() {
    let manager = NetworkManager::new("unused");
    let journal = |phase: &str| {
        Some(NetworkJournal {
            operation_id: "op".into(),
            profile_revision_id: "r".into(),
            phase: phase.into(),
            lease_expires_unix_ms: 5,
            rollback_commands: vec![command(&["netns", "del", "a"])],
            completed_commands: 0,
        })
    };
    assert!(manager.enforce_lease(&journal("applying"), "op").is_some());
    assert!(manager.enforce_lease(&journal("staged"), "op").is_some());
    assert!(manager.enforce_lease(&journal("staged"), "other").is_none());
    assert!(manager.enforce_lease(&journal("prepared"), "op").is_none());
    assert_eq!(millis_until(1_500, 1_000), 500);
    assert_eq!(millis_until(1_000, 1_500), 0);
}

#[test]
fn commands_are_described_and_judged() {
    let spec = command(&["link", "set", "eth1", "up"]);
    assert_eq!(describe(&spec), "ip [\"link\", \"set\", \"eth1\", \"up\"]");
    assert!(command_outcome(&spec, true, b"").is_ok());
    assert!(command_outcome(&spec, false, b"denied\n").unwrap_err().contains("denied"));
    let absent = command(&["netns", "del", "pt-a-client"]);
    assert!(rollback_outcome(&absent, true, b"").is_ok());
    assert!(rollback_outcome(&absent, false, b"busy").is_err());
}

fn prepare_command(command_id: &str, run_id: &str, endpoint_role: i32) -> PrepareCommand {
    PrepareCommand {
        command_id: command_id.into(),
        run_id: run_id.into(),
        endpoint_role,
        target_addr: "192.0.2.20:8080".into(),
        interface_name: String::new(),
        namespace: "pt-a-client".into(),
    }
}

fn prepared_session(run_id: &str) -> Session {
    let mut session = Session::default();
    let c = prepare_command("p", run_id, 1);
    let PrepareGate::Open(role) = session.prepare_gate(&c) else { panic!("open gate expected") };
    let run = session.prepare(&c, Scenario::default(), vec![IpAddr::V4(1)]).unwrap();
    assert_eq!(run.runtime.target_addr.as_deref(), Some("192.0.2.20:8080"));
    assert_eq!(run.runtime.interface, None);
    assert_eq!(run.runtime.namespace.as_deref(), Some("pt-a-client"));
    assert!(run.capture.is_none());
    let ack = session.complete(&c, role, run, None).unwrap();
    assert!(ack.ok && ack.phase == "prepare");
    session
}

#[test]
fn runs_are_prepared_started_paused_and_stopped_once() {
    let run_id = Uuid { value: 3 }.to_text();
    let mut session = prepared_session(&run_id);
    assert!(matches!(
        session.prepare_gate(&prepare_command("p", &run_id, 1)),
        PrepareGate::Repeat(_)
    ));
    let start = StartCommand {
        command_id: "s".into(),
        run_id: run_id.clone(),
        endpoint_role: 1,
        start_unix_ms: 0,
    };
    let reply = session.start(&start).unwrap();
    assert!(reply.ack.ok);
    assert_eq!(reply.launch, Some(Role::Client));
    let again = session.start(&start).unwrap();
    assert!(again.ack.ok && again.launch.is_none());
    let second = StartCommand { command_id: "t".into(), ..start.clone() };
    assert_eq!(session.start(&second).unwrap().ack.error, "another run is active");
    let pause = PauseCommand {
        command_id: "u".into(),
        run_id: run_id.clone(),
        endpoint_role: 0,
        paused: true,
    };
    assert!(session.set_paused(&pause).ok);
    assert!(session.client.unwrap().paused);
    let stop = StopCommand { command_id: "v".into(), run_id, endpoint_role: 0 };
    assert!(session.stop(&stop).ok);
    assert!(!session.client.unwrap().running);
    let third = StartCommand { command_id: "w".into(), ..start };
    assert_eq!(session.start(&third).unwrap().launch, Some(Role::Client));
    session.worker_ended(session.client.unwrap().number);
    assert!(!session.client.unwrap().running);
}

#[test]
fn commands_out_of_place_are_refused() {
    let mut session = Session::default();
    let start = StartCommand {
        command_id: "s".into(),
        run_id: Uuid { value: 3 }.to_text(),
        endpoint_role: 2,
        start_unix_ms: 0,
    };
    assert_eq!(session.start(&start).unwrap().ack.error, "run was not prepared");
    let odd = StartCommand { endpoint_role: 7, ..start };
    assert_eq!(session.start(&odd).unwrap_err(), "invalid endpoint role");
    assert!(matches!(
        session.prepare_gate(&prepare_command("p", "r", 0)),
        PrepareGate::Refuse(_)
    ));
    let mut scenario = Scenario::default();
    scenario.payload_mode = PayloadMode::CaptureReplay;
    scenario.capture_artifact_id = Some(Uuid { value: 8 });
    let c = prepare_command("p", "r", 1);
    assert_eq!(
        session.prepare(&c, scenario, Vec::new()).unwrap_err(),
        "capture artifact 00000000-0000-0000-0000-000000000008 was not transferred"
    );
    let run = session.prepare(&c, Scenario::default(), Vec::new()).unwrap();
    assert!(session.complete(&c, Role::Client, run, None).is_err());
}

#[test]
fn roles_are_numbered() {
    assert_eq!(Role::Client.proto(), 1);
    assert_eq!(Role::from_proto(2), Some(Role::Server));
    assert_eq!(Role::from_proto(0), None);
    assert_eq!(Role::Server.replay(), ReplayRole::Server);
}

#[test]
fn network_actions_are_answered() {
    assert!(undoes(NetworkAction::Teardown) && undoes(NetworkAction::Rollback));
    assert!(!undoes(NetworkAction::Commit));
    assert!(network_ack("c", NetworkAction::Stage, Ok(())).ok);
    let ack = network_ack("c", NetworkAction::Stage, Err("no plan".into()));
    assert!(!ack.ok);
    assert_eq!(ack.error, "no plan");
}
