//! The messages between control and agents, and what they stand for.
use crate::agent::plan::{
    command_views, endpoint_views, CommandSpec, CommandView, EndpointPlan, EndpointPlanView,
    NetworkPlan, PlanView,
};
use crate::domain::network::{EndpointProfile, NetworkProfileDraft, ProvisioningPolicy};
use crate::id::{uuid_of, uuid_text, Uuid};
use crate::text::{append, copy, copy_strings, decimal, push_decimal, string_views};
use vstd::prelude::*;

verus! {

/// One end of a network profile in a message.
#[derive(Debug, Clone, PartialEq, Eq)]
pub struct WireEndpoint {
    pub node_id: String,
    pub interface_name: String,
    pub start_cidr: String,
    pub count: u32,
}

/// A network profile in a message. A message may leave out either end.
#[derive(Debug, Clone, PartialEq, Eq)]
pub struct WireDraft {
    pub id: String,
    pub name: String,
    pub client_endpoint: Option<WireEndpoint>,
    pub server_endpoint: Option<WireEndpoint>,
    pub mtu: u32,
    pub diagnostic_port: u32,
    pub path_probe_enabled: bool,
    pub operator_managed: bool,
    pub allow_virtual_interfaces: bool,
}

impl Default for WireDraft {
    fn default() -> (r: WireDraft)
        ensures
            r.id@.len() == 0,
            r.name@.len() == 0,
            r.client_endpoint is None,
            r.server_endpoint is None,
            r.mtu == 0,
            r.diagnostic_port == 0,
            !r.path_probe_enabled,
            !r.operator_managed,
            !r.allow_virtual_interfaces,
    {
        WireDraft {
            id: String::new(),
            name: String::new(),
            client_endpoint: None,
            server_endpoint: None,
            mtu: 0,
            diagnostic_port: 0,
            path_probe_enabled: false,
            operator_managed: false,
            allow_virtual_interfaces: false,
        }
    }
}

/// Why a network profile in a message stands for none.
#[derive(Debug, Clone, PartialEq, Eq)]
pub enum ConversionError {
    /// The identifier is not one: what is said of it.
    InvalidProfileId(String),
    /// An end is missing: `client` or `server`.
    MissingEndpoint(String),
    /// The port does not fit in 16 bits.
    InvalidDiagnosticPort(u32),
}

impl ConversionError {
    /// The message.
    pub open spec fn text(&self) -> Seq<char> {
        match self {
            ConversionError::InvalidProfileId(complaint) => "network profile ID is invalid: "@
                + complaint@,
            ConversionError::MissingEndpoint(end) => "network profile is missing the "@ + end@
                + " endpoint"@,
            ConversionError::InvalidDiagnosticPort(port) =>
            "diagnostic port is outside the u16 range: "@ + decimal(*port as int),
        }
    }

    /// The message.
    pub fn message(&self) -> (r: String)
        ensures
            r@ == self.text(),
    {
        match self {
            ConversionError::InvalidProfileId(complaint) => {
                let mut text = copy("network profile ID is invalid: ");
                append(&mut text, complaint.as_str());
                text
            },
            ConversionError::MissingEndpoint(end) => {
                let mut text = copy("network profile is missing the ");
                append(&mut text, end.as_str());
                append(&mut text, " endpoint");
                text
            },
            ConversionError::InvalidDiagnosticPort(port) => {
                let mut text = copy("diagnostic port is outside the u16 range: ");
                push_decimal(&mut text, *port as u64);
                text
            },
        }
    }
}

/// The message form of one end.
pub open spec fn same_end(wire: WireEndpoint, end: EndpointProfile) -> bool {
    &&& wire.node_id@ == end.node_id@
    &&& wire.interface_name@ == end.interface_name@
    &&& wire.start_cidr@ == end.start_cidr@
    &&& wire.count == end.count
}

/// `wire` is the message form of `draft`.
pub open spec fn is_wire_of(wire: WireDraft, draft: NetworkProfileDraft) -> bool {
    &&& uuid_of(wire.id@) == Ok::<u128, Seq<char>>(draft.id.value)
    &&& wire.name@ == draft.name@
    &&& wire.client_endpoint is Some && same_end(wire.client_endpoint->0, draft.client_endpoint)
    &&& wire.server_endpoint is Some && same_end(wire.server_endpoint->0, draft.server_endpoint)
    &&& wire.mtu == draft.mtu
    &&& wire.diagnostic_port == draft.diagnostic_port
    &&& wire.path_probe_enabled == draft.path_probe_enabled
    &&& wire.operator_managed == (draft.policy == ProvisioningPolicy::OperatorManaged)
    &&& wire.allow_virtual_interfaces == draft.allow_virtual_interfaces
}

/// Two network profiles are the same.
pub open spec fn same_draft(a: NetworkProfileDraft, b: NetworkProfileDraft) -> bool {
    &&& a.id == b.id
    &&& a.name@ == b.name@
    &&& a.client_endpoint.node_id@ == b.client_endpoint.node_id@
    &&& a.client_endpoint.interface_name@ == b.client_endpoint.interface_name@
    &&& a.client_endpoint.start_cidr@ == b.client_endpoint.start_cidr@
    &&& a.client_endpoint.count == b.client_endpoint.count
    &&& a.server_endpoint.node_id@ == b.server_endpoint.node_id@
    &&& a.server_endpoint.interface_name@ == b.server_endpoint.interface_name@
    &&& a.server_endpoint.start_cidr@ == b.server_endpoint.start_cidr@
    &&& a.server_endpoint.count == b.server_endpoint.count
    &&& a.mtu == b.mtu
    &&& a.diagnostic_port == b.diagnostic_port
    &&& a.path_probe_enabled == b.path_probe_enabled
    &&& a.policy == b.policy
    &&& a.allow_virtual_interfaces == b.allow_virtual_interfaces
}

/// The message form of a network profile stands for that profile and for no other.
pub proof fn wire_drafts_round_trip(
    wire: WireDraft,
    sent: NetworkProfileDraft,
    received: NetworkProfileDraft,
)
    requires
        is_wire_of(wire, sent),
        is_wire_of(wire, received),
    ensures
        same_draft(sent, received),
{
}

/// Why a network profile in a message stands for none, in the order in which it is looked for.
pub open spec fn wire_problem(wire: WireDraft) -> Option<Seq<char>> {
    if let Err(complaint) = uuid_of(wire.id@) {
        Some("network profile ID is invalid: "@ + complaint)
    } else if wire.client_endpoint is None {
        Some("network profile is missing the client endpoint"@)
    } else if wire.server_endpoint is None {
        Some("network profile is missing the server endpoint"@)
    } else if wire.diagnostic_port > u16::MAX {
        Some("diagnostic port is outside the u16 range: "@ + decimal(wire.diagnostic_port as int))
    } else {
        None
    }
}

/// The message form of one end.
pub fn endpoint_to_wire(value: &EndpointProfile) -> (r: WireEndpoint)
    ensures
        same_end(r, *value),
{
    WireEndpoint {
        node_id: copy(value.node_id.as_str()),
        interface_name: copy(value.interface_name.as_str()),
        start_cidr: copy(value.start_cidr.as_str()),
        count: value.count,
    }
}

/// The end that a message stands for.
pub fn endpoint_from_wire(value: WireEndpoint) -> (r: EndpointProfile)
    ensures
        same_end(value, r),
{
    EndpointProfile {
        node_id: value.node_id,
        interface_name: value.interface_name,
        start_cidr: value.start_cidr,
        count: value.count,
    }
}

/// The message form of a network profile. `network_draft_from_wire` takes it back.
pub fn network_draft_to_wire(value: NetworkProfileDraft) -> (r: WireDraft)
    ensures
        is_wire_of(r, value),
        r.id@ == uuid_text(value.id.value),
        wire_problem(r) is None,
{
    WireDraft {
        id: value.id.to_text(),
        client_endpoint: Some(endpoint_to_wire(&value.client_endpoint)),
        server_endpoint: Some(endpoint_to_wire(&value.server_endpoint)),
        name: value.name,
        mtu: value.mtu,
        diagnostic_port: value.diagnostic_port as u32,
        path_probe_enabled: value.path_probe_enabled,
        operator_managed: value.policy == ProvisioningPolicy::OperatorManaged,
        allow_virtual_interfaces: value.allow_virtual_interfaces,
    }
}

/// The network profile that a message stands for, or why it stands for none.
pub fn network_draft_from_wire(value: WireDraft) -> (r: Result<NetworkProfileDraft, ConversionError>)
    ensures
        match r {
            Ok(draft) => is_wire_of(value, draft) && wire_problem(value) is None,
            Err(error) => wire_problem(value) == Some(error.text()),
        },
{
    proof {
        reveal_strlit("network profile is missing the ");
        reveal_strlit("client");
        reveal_strlit("server");
        reveal_strlit(" endpoint");
        reveal_strlit("network profile is missing the client endpoint");
        reveal_strlit("network profile is missing the server endpoint");
        assert("network profile is missing the "@ + "client"@ + " endpoint"@
            =~= "network profile is missing the client endpoint"@);
        assert("network profile is missing the "@ + "server"@ + " endpoint"@
            =~= "network profile is missing the server endpoint"@);
    }
    let id: Uuid = match Uuid::parse_str(value.id.as_str()) {
        Ok(id) => id,
        Err(complaint) => {
            return Err(ConversionError::InvalidProfileId(complaint));
        },
    };
    let client = match value.client_endpoint {
        Some(end) => end,
        None => {
            return Err(ConversionError::MissingEndpoint(copy("client")));
        },
    };
    let server = match value.server_endpoint {
        Some(end) => end,
        None => {
            return Err(ConversionError::MissingEndpoint(copy("server")));
        },
    };
    if value.diagnostic_port > 65535 {
        return Err(ConversionError::InvalidDiagnosticPort(value.diagnostic_port));
    }
    Ok(
        NetworkProfileDraft {
            id,
            name: value.name,
            client_endpoint: endpoint_from_wire(client),
            server_endpoint: endpoint_from_wire(server),
            mtu: value.mtu,
            diagnostic_port: value.diagnostic_port as u16,
            path_probe_enabled: value.path_probe_enabled,
            policy: if value.operator_managed {
                ProvisioningPolicy::OperatorManaged
            } else {
                ProvisioningPolicy::ManagedNamespace
            },
            allow_virtual_interfaces: value.allow_virtual_interfaces,
        },
    )
}

/// A command in a message.
#[derive(Debug, Clone, PartialEq, Eq)]
pub struct WireCommand {
    pub program: String,
    pub args: Vec<String>,
}

impl View for WireCommand {
    type V = CommandView;

    open spec fn view(&self) -> CommandView {
        CommandView { program: self.program@, args: string_views(self.args@) }
    }
}

/// What becomes of one end, in a message.
#[derive(Debug, Clone, PartialEq, Eq)]
pub struct WireEndpointPlan {
    pub role: String,
    pub namespace: String,
    pub interface: String,
    pub addresses: Vec<String>,
}

impl View for WireEndpointPlan {
    type V = EndpointPlanView;

    open spec fn view(&self) -> EndpointPlanView {
        EndpointPlanView {
            role: self.role@,
            namespace: self.namespace@,
            interface: self.interface@,
            addresses: string_views(self.addresses@),
        }
    }
}

/// A plan in a message.
#[derive(Debug, Clone, PartialEq, Eq)]
pub struct WirePlan {
    pub profile_revision_id: String,
    pub node_id: String,
    pub inventory_fingerprint: String,
    pub endpoints: Vec<WireEndpointPlan>,
    pub semantic_changes: Vec<String>,
    pub commands: Vec<WireCommand>,
    pub rollback_commands: Vec<WireCommand>,
    pub warnings: Vec<String>,
}

/// What commands in a message are.
pub open spec fn wire_commands(list: Seq<WireCommand>) -> Seq<CommandView> {
    list.map_values(|c: WireCommand| c@)
}

/// What planned ends in a message are.
pub open spec fn wire_endpoints(list: Seq<WireEndpointPlan>) -> Seq<EndpointPlanView> {
    list.map_values(|e: WireEndpointPlan| e@)
}

impl View for WirePlan {
    type V = PlanView;

    open spec fn view(&self) -> PlanView {
        PlanView {
            profile_revision_id: self.profile_revision_id@,
            node_id: self.node_id@,
            inventory_fingerprint: self.inventory_fingerprint@,
            endpoints: wire_endpoints(self.endpoints@),
            semantic_changes: string_views(self.semantic_changes@),
            commands: wire_commands(self.commands@),
            rollback_commands: wire_commands(self.rollback_commands@),
            warnings: string_views(self.warnings@),
        }
    }
}

fn commands_to_wire(list: Vec<CommandSpec>) -> (r: Vec<WireCommand>)
    ensures
        wire_commands(r@) == command_views(list@),
{
    let mut out: Vec<WireCommand> = Vec::new();
    let mut i: usize = 0;
    while i < list.len()
        invariant
            i <= list@.len(),
            out@.len() == i,
            forall|j: int| 0 <= j < i ==> (#[trigger] out@[j])@ == list@[j]@,
        decreases list@.len() - i,
    {
        out.push(
            WireCommand {
                program: copy(list[i].program.as_str()),
                args: copy_strings(&list[i].args),
            },
        );
        i += 1;
    }
    assert(wire_commands(out@) =~= command_views(list@));
    out
}

fn commands_from_wire(list: Vec<WireCommand>) -> (r: Vec<CommandSpec>)
    ensures
        command_views(r@) == wire_commands(list@),
{
    let mut out: Vec<CommandSpec> = Vec::new();
    let mut i: usize = 0;
    while i < list.len()
        invariant
            i <= list@.len(),
            out@.len() == i,
            forall|j: int| 0 <= j < i ==> (#[trigger] out@[j])@ == list@[j]@,
        decreases list@.len() - i,
    {
        out.push(
            CommandSpec {
                program: copy(list[i].program.as_str()),
                args: copy_strings(&list[i].args),
            },
        );
        i += 1;
    }
    assert(command_views(out@) =~= wire_commands(list@));
    out
}

fn endpoints_to_wire(list: Vec<EndpointPlan>) -> (r: Vec<WireEndpointPlan>)
    ensures
        wire_endpoints(r@) == endpoint_views(list@),
{
    let mut out: Vec<WireEndpointPlan> = Vec::new();
    let mut i: usize = 0;
    while i < list.len()
        invariant
            i <= list@.len(),
            out@.len() == i,
            forall|j: int| 0 <= j < i ==> (#[trigger] out@[j])@ == list@[j]@,
        decreases list@.len() - i,
    {
        out.push(
            WireEndpointPlan {
                role: copy(list[i].role.as_str()),
                namespace: copy(list[i].namespace.as_str()),
                interface: copy(list[i].interface.as_str()),
                addresses: copy_strings(&list[i].addresses),
            },
        );
        i += 1;
    }
    assert(wire_endpoints(out@) =~= endpoint_views(list@));
    out
}

fn endpoints_from_wire(list: Vec<WireEndpointPlan>) -> (r: Vec<EndpointPlan>)
    ensures
        endpoint_views(r@) == wire_endpoints(list@),
{
    let mut out: Vec<EndpointPlan> = Vec::new();
    let mut i: usize = 0;
    while i < list.len()
        invariant
            i <= list@.len(),
            out@.len() == i,
            forall|j: int| 0 <= j < i ==> (#[trigger] out@[j])@ == list@[j]@,
        decreases list@.len() - i,
    {
        out.push(
            EndpointPlan {
                role: copy(list[i].role.as_str()),
                namespace: copy(list[i].namespace.as_str()),
                interface: copy(list[i].interface.as_str()),
                addresses: copy_strings(&list[i].addresses),
            },
        );
        i += 1;
    }
    assert(endpoint_views(out@) =~= wire_endpoints(list@));
    out
}

/// The message form of a plan. It says what the plan says, so that nothing is lost when it is
/// read back.
pub fn plan_to_wire(value: NetworkPlan) -> (r: WirePlan)
    ensures
        r@ == value@,
{
    let r = WirePlan {
        profile_revision_id: value.profile_revision_id,
        node_id: value.node_id,
        inventory_fingerprint: value.inventory_fingerprint,
        endpoints: endpoints_to_wire(value.endpoints),
        semantic_changes: value.semantic_changes,
        commands: commands_to_wire(value.commands),
        rollback_commands: commands_to_wire(value.rollback_commands),
        warnings: value.warnings,
    };
    assert(r@ =~= value@);
    r
}

/// The plan that a message stands for.
pub fn plan_from_wire(value: WirePlan) -> (r: NetworkPlan)
    ensures
        r@ == value@,
{
    let r = NetworkPlan {
        profile_revision_id: value.profile_revision_id,
        node_id: value.node_id,
        inventory_fingerprint: value.inventory_fingerprint,
        endpoints: endpoints_from_wire(value.endpoints),
        semantic_changes: value.semantic_changes,
        commands: commands_from_wire(value.commands),
        rollback_commands: commands_from_wire(value.rollback_commands),
        warnings: value.warnings,
    };
    assert(r@ =~= value@);
    r
}

} // verus!
