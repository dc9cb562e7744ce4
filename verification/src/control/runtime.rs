//! What both ends of a run are given besides the scenario.
use crate::agent::plan::{host_part, EndpointPlanView, PlanView};
use crate::control::error::{api_problem, bad, internal, ApiError, ApiErrorView};
use crate::domain::payload::PayloadMode;
use crate::domain::scenario::{Scenario, ScenarioPath};
use crate::id::{uuid_text, Uuid};
use crate::ip::{ip_text, IpAddr};
use crate::text::{
    append, chars_of, copy, decimal, find_char, next_char, push_decimal, same_text, string_views,
    text_of,
};
use crate::wire::WirePlan;
use vstd::prelude::*;

verus! {

/// What an end of a run is given besides the scenario.
#[derive(Debug, Clone, PartialEq, Eq)]
pub struct EndRuntime {
    pub target_addr: String,
    pub interface: String,
    pub namespace: String,
    pub source_ips: Vec<String>,
}

/// What an end of a run is given.
#[verifier::ext_equal]
pub struct EndRuntimeView {
    pub target_addr: Seq<char>,
    pub interface: Seq<char>,
    pub namespace: Seq<char>,
    pub source_ips: Seq<Seq<char>>,
}

impl View for EndRuntime {
    type V = EndRuntimeView;

    open spec fn view(&self) -> EndRuntimeView {
        EndRuntimeView {
            target_addr: self.target_addr@,
            interface: self.interface@,
            namespace: self.namespace@,
            source_ips: string_views(self.source_ips@),
        }
    }
}

/// What an end is given whose addresses the scenario names.
pub open spec fn named_end(target: Seq<char>, address: IpAddr) -> EndRuntimeView {
    EndRuntimeView {
        target_addr: target,
        interface: Seq::empty(),
        namespace: Seq::empty(),
        source_ips: seq![ip_text(address)],
    }
}

/// What both ends are given where the scenario names their addresses.
pub open spec fn named_ends(path: ScenarioPath) -> Option<(EndRuntimeView, EndRuntimeView)> {
    match path {
        ScenarioPath::ManagedDirect { .. } => None,
        ScenarioPath::ExplicitProxy { client_bind_ip, server_listen_ip, server_port, .. } => {
            let target = ip_text(server_listen_ip) + ":"@ + decimal(server_port as int);
            Some((named_end(target, client_bind_ip), named_end(target, server_listen_ip)))
        },
    }
}

fn write_named_end(target: &str, address: &IpAddr) -> (r: EndRuntime)
    ensures
        r@ == named_end(target@, *address),
{
    let mut text = String::new();
    address.push_text(&mut text);
    assert(text@ =~= ip_text(*address));
    let mut source_ips: Vec<String> = Vec::new();
    source_ips.push(text);
    let r = EndRuntime {
        target_addr: copy(target),
        interface: String::new(),
        namespace: String::new(),
        source_ips,
    };
    assert(r@ =~= named_end(target@, *address));
    r
}

/// What both ends of a run are given where the scenario names their addresses; nothing where they
/// come from what was prepared on the nodes.
pub fn named_runtime(scenario: &Scenario) -> (r: Option<(EndRuntime, EndRuntime)>)
    ensures
        match r {
            Some((client, server)) => named_ends(scenario.path) == Some((client@, server@)),
            None => named_ends(scenario.path) is None,
        },
{
    match &scenario.path {
        ScenarioPath::ManagedDirect { .. } => None,
        ScenarioPath::ExplicitProxy { client_bind_ip, server_listen_ip, .. } => {
            let target = scenario.target_addr();
            let client = write_named_end(target.as_str(), client_bind_ip);
            let server = write_named_end(target.as_str(), server_listen_ip);
            Some((client, server))
        },
    }
}

/// The first of the planned ends from `from` on that has a role.
pub open spec fn end_with_role(ends: Seq<EndpointPlanView>, role: Seq<char>, from: int) -> Option<
    EndpointPlanView,
>
    decreases ends.len() - from,
{
    if from >= ends.len() {
        None
    } else if ends[from].role == role {
        Some(ends[from])
    } else {
        end_with_role(ends, role, from + 1)
    }
}

/// Addresses without their prefixes.
pub open spec fn hosts(addresses: Seq<Seq<char>>) -> Seq<Seq<char>> {
    Seq::new(addresses.len(), |i: int| host_part(addresses[i]))
}

/// What a prepared end is given.
pub open spec fn prepared_end(end: EndpointPlanView, target: Seq<char>) -> EndRuntimeView {
    EndRuntimeView {
        target_addr: target,
        interface: end.interface,
        namespace: end.namespace,
        source_ips: hosts(end.addresses),
    }
}

/// What both ends are given where they were prepared on their nodes by these plans: the target is
/// the first address of the server. Or why they cannot be given anything.
pub open spec fn prepared_ends(client: PlanView, server: PlanView, port: u16) -> Result<
    (EndRuntimeView, EndRuntimeView),
    ApiErrorView,
> {
    match end_with_role(client.endpoints, "client"@, 0) {
        None => Err(internal("network plan has no client end"@)),
        Some(from) => match end_with_role(server.endpoints, "server"@, 0) {
            None => Err(internal("network plan has no server end"@)),
            Some(to) => if to.addresses.len() == 0 {
                Err(internal("network plan has no server address"@))
            } else {
                let target = host_part(to.addresses[0]) + ":"@ + decimal(port as int);
                Ok((prepared_end(from, target), prepared_end(to, target)))
            },
        },
    }
}

/// What an end with a role is given, but for the target.
fn find_end(plan: &WirePlan, role: &str) -> (r: Option<EndRuntime>)
    ensures
        match r {
            Some(end) => end_with_role(plan@.endpoints, role@, 0) is Some && end@ == prepared_end(
                end_with_role(plan@.endpoints, role@, 0)->0,
                Seq::empty(),
            ),
            None => end_with_role(plan@.endpoints, role@, 0) is None,
        },
{
    let mut i: usize = 0;
    while i < plan.endpoints.len()
        invariant
            i <= plan.endpoints@.len(),
            end_with_role(plan@.endpoints, role@, 0) == end_with_role(
                plan@.endpoints,
                role@,
                i as int,
            ),
        decreases plan.endpoints@.len() - i,
    {
        assert(plan@.endpoints[i as int] == plan.endpoints@[i as int]@);
        if same_text(plan.endpoints[i].role.as_str(), role) {
            let source_ips = without_prefixes(&plan.endpoints[i].addresses);
            let r = EndRuntime {
                target_addr: String::new(),
                interface: copy(plan.endpoints[i].interface.as_str()),
                namespace: copy(plan.endpoints[i].namespace.as_str()),
                source_ips,
            };
            assert(r@ =~= prepared_end(plan@.endpoints[i as int], Seq::empty()));
            return Some(r);
        }
        i += 1;
    }
    None
}

/// Addresses without their prefixes.
fn without_prefixes(addresses: &Vec<String>) -> (r: Vec<String>)
    ensures
        string_views(r@) == hosts(string_views(addresses@)),
{
    let mut out: Vec<String> = Vec::new();
    let mut i: usize = 0;
    while i < addresses.len()
        invariant
            i <= addresses@.len(),
            out@.len() == i,
            forall|j: int| 0 <= j < i ==> (#[trigger] out@[j])@ == host_part(addresses@[j]@),
        decreases addresses@.len() - i,
    {
        let text = chars_of(addresses[i].as_str());
        let slash: usize = find_char(text.as_slice(), '/', 0);
        let part = text_of(&text.as_slice()[0..slash]);
        assert(part@ =~= host_part(addresses@[i as int]@));
        out.push(part);
        i += 1;
    }
    assert(string_views(out@) =~= hosts(string_views(addresses@)));
    out
}

/// What both ends of a run are given that were prepared on their nodes by these plans.
pub fn prepared_runtime(client: &WirePlan, server: &WirePlan, port: u16) -> (r: Result<
    (EndRuntime, EndRuntime),
    ApiError,
>)
    ensures
        match r {
            Ok((from, to)) => prepared_ends(client@, server@, port) == Ok::<
                (EndRuntimeView, EndRuntimeView),
                ApiErrorView,
            >((from@, to@)),
            Err(error) => prepared_ends(client@, server@, port) == Err::<
                (EndRuntimeView, EndRuntimeView),
                ApiErrorView,
            >(error@),
        },
{
    let mut from = match find_end(client, "client") {
        Some(end) => end,
        None => {
            return Err(ApiError::internal("network plan has no client end"));
        },
    };
    let mut to = match find_end(server, "server") {
        Some(end) => end,
        None => {
            return Err(ApiError::internal("network plan has no server end"));
        },
    };
    let ghost a = end_with_role(client@.endpoints, "client"@, 0)->0;
    let ghost b = end_with_role(server@.endpoints, "server"@, 0)->0;
    assert(string_views(to.source_ips@) == hosts(b.addresses));
    assert(to.source_ips@.len() == b.addresses.len());
    if to.source_ips.len() == 0 {
        return Err(ApiError::internal("network plan has no server address"));
    }
    assert(to.source_ips@[0]@ == hosts(b.addresses)[0]) by {
        assert(string_views(to.source_ips@)[0] == to.source_ips@[0]@);
    }
    let mut target = copy(to.source_ips[0].as_str());
    append(&mut target, ":");
    push_decimal(&mut target, port as u64);
    from.target_addr = copy(target.as_str());
    to.target_addr = target;
    assert(from@ =~= prepared_end(a, target@));
    assert(to@ =~= prepared_end(b, target@));
    Ok((from, to))
}

/// Both ends of a run are given one target, and it is the address of the server.
pub proof fn ends_have_one_target(client: PlanView, server: PlanView, port: u16)
    requires
        prepared_ends(client, server, port) is Ok,
    ensures
        ({
            let ends = prepared_ends(client, server, port)->Ok_0;
            &&& ends.0.target_addr == ends.1.target_addr
            &&& ends.1.source_ips.len() > 0
            &&& ends.1.target_addr == ends.1.source_ips[0] + ":"@ + decimal(port as int)
        }),
{
}

/// An artifact is what a scenario replays.
pub open spec fn is_replayed(scenario: Scenario, id: Uuid) -> bool {
    scenario.payload_mode == PayloadMode::CaptureReplay && scenario.capture_artifact_id == Some(id)
}

/// The kind that an artifact of a scenario is to have.
pub open spec fn expected_kind(scenario: Scenario, id: Uuid) -> Seq<char> {
    if is_replayed(scenario, id) {
        "pcap"@
    } else {
        "payload"@
    }
}

/// Why an artifact that a scenario needs cannot be used, given the kind of what is stored under
/// its identifier.
pub open spec fn artifact_problem(scenario: Scenario, id: Uuid, kind: Option<Seq<char>>) -> Option<
    ApiErrorView,
> {
    match kind {
        None => Some(bad("artifact "@ + uuid_text(id.value) + " does not exist"@)),
        Some(kind) => if kind != expected_kind(scenario, id) {
            Some(
                bad(
                    "artifact "@ + uuid_text(id.value) + " is not a "@ + expected_kind(
                        scenario,
                        id,
                    ),
                ),
            )
        } else {
            None
        },
    }
}

/// Whether an artifact that a scenario needs is there and of the right kind.
pub fn check_artifact(scenario: &Scenario, id: Uuid, kind: Option<&str>) -> (r: Result<
    (),
    ApiError,
>)
    ensures
        api_problem(r) == artifact_problem(
            *scenario,
            id,
            match kind {
                Some(kind) => Some(kind@),
                None => None,
            },
        ),
{
    let replayed: bool = match scenario.capture_artifact_id {
        Some(capture) => scenario.payload_mode == PayloadMode::CaptureReplay && capture.value
            == id.value,
        None => false,
    };
    let expected = if replayed {
        "pcap"
    } else {
        "payload"
    };
    let mut message = copy("artifact ");
    append(&mut message, id.to_text().as_str());
    match kind {
        None => {
            append(&mut message, " does not exist");
            Err(ApiError::bad(message.as_str()))
        },
        Some(kind) => {
            if same_text(kind, expected) {
                return Ok(());
            }
            append(&mut message, " is not a ");
            append(&mut message, expected);
            Err(ApiError::bad(message.as_str()))
        },
    }
}

proof fn prefix_is_taken_off(host: Seq<char>, length: Seq<char>, from: int)
    requires
        0 <= from <= host.len(),
        forall|i: int| 0 <= i < host.len() ==> host[i] != '/',
    ensures
        next_char(host + seq!['/'] + length, '/', from) == host.len(),
    decreases host.len() - from,
{
    let text = host + seq!['/'] + length;
    if from < host.len() {
        assert(text[from] == host[from]);
        prefix_is_taken_off(host, length, from + 1);
    } else {
        assert(text[from] == '/');
    }
}

proof fn end_is_found(ends: Seq<EndpointPlanView>, role: Seq<char>, from: int, i: int)
    requires
        0 <= from <= i < ends.len(),
        ends[i].role == role,
        forall|j: int| from <= j < i ==> (#[trigger] ends[j]).role != role,
    ensures
        end_with_role(ends, role, from) == Some(ends[i]),
    decreases i - from,
{
    if from < i {
        assert(ends[from].role != role);
        end_is_found(ends, role, from + 1, i);
    }
}

/// An end gets the interface, the namespace and the addresses that were prepared for it, each
/// without the length of its prefix. Both go by the first address of the server.
pub proof fn ends_get_what_was_prepared(
    client: PlanView,
    server: PlanView,
    port: u16,
    i: int,
    j: int,
    k: int,
    host: Seq<char>,
    length: Seq<char>,
    target: Seq<char>,
    rest: Seq<char>,
)
    requires
        0 <= i < client.endpoints.len(),
        client.endpoints[i].role == "client"@,
        forall|l: int| 0 <= l < i ==> (#[trigger] client.endpoints[l]).role != "client"@,
        0 <= j < server.endpoints.len(),
        server.endpoints[j].role == "server"@,
        forall|l: int| 0 <= l < j ==> (#[trigger] server.endpoints[l]).role != "server"@,
        server.endpoints[j].addresses.len() > 0,
        server.endpoints[j].addresses[0] == target + seq!['/'] + rest,
        forall|l: int| 0 <= l < target.len() ==> target[l] != '/',
        0 <= k < client.endpoints[i].addresses.len(),
        client.endpoints[i].addresses[k] == host + seq!['/'] + length,
        forall|l: int| 0 <= l < host.len() ==> host[l] != '/',
    ensures
        prepared_ends(client, server, port) is Ok,
        ({
            let ends = prepared_ends(client, server, port)->Ok_0;
            &&& ends.0.interface == client.endpoints[i].interface
            &&& ends.0.namespace == client.endpoints[i].namespace
            &&& ends.0.source_ips.len() == client.endpoints[i].addresses.len()
            &&& ends.0.source_ips[k] == host
            &&& ends.1.interface == server.endpoints[j].interface
            &&& ends.1.namespace == server.endpoints[j].namespace
            &&& ends.1.source_ips.len() == server.endpoints[j].addresses.len()
            &&& ends.1.source_ips[0] == target
            &&& ends.0.target_addr == target + seq![':'] + decimal(port as int)
            &&& ends.1.target_addr == target + seq![':'] + decimal(port as int)
        }),
{
    reveal_strlit(":");
    assert(":"@ =~= seq![':']);
    end_is_found(client.endpoints, "client"@, 0, i);
    end_is_found(server.endpoints, "server"@, 0, j);
    prefix_is_taken_off(host, length, 0);
    prefix_is_taken_off(target, rest, 0);
    assert((host + seq!['/'] + length).subrange(0, host.len() as int) =~= host);
    assert((target + seq!['/'] + rest).subrange(0, target.len() as int) =~= target);
}

/// Where a scenario names the addresses, the client sends from its own, the server listens on its
/// own, and both go by that of the server.
pub proof fn named_ends_use_their_addresses(path: ScenarioPath)
    ensures
        match path {
            ScenarioPath::ExplicitProxy { client_bind_ip, server_listen_ip, server_port, .. } => {
                let ends = named_ends(path)->0;
                &&& named_ends(path) is Some
                &&& ends.0.source_ips == seq![ip_text(client_bind_ip)]
                &&& ends.1.source_ips == seq![ip_text(server_listen_ip)]
                &&& ends.0.target_addr == ip_text(server_listen_ip) + seq![':'] + decimal(
                    server_port as int,
                )
                &&& ends.1.target_addr == ends.0.target_addr
                &&& ends.0.interface.len() == 0 && ends.1.interface.len() == 0
                &&& ends.0.namespace.len() == 0 && ends.1.namespace.len() == 0
            },
            ScenarioPath::ManagedDirect { .. } => named_ends(path) is None,
        },
{
    reveal_strlit(":");
    assert(":"@ =~= seq![':']);
}

} // verus!
