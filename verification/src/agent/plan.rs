//! Network plans: the commands that set up the two ends of a test, and those that undo them.
use crate::agent::inventory::{flag, InterfaceInventory, NodeInventory};
use crate::domain::network::{
    draft_problem, pool_of, EndpointProfile, NetworkProfileDraft, Provisioning, ProvisioningPolicy,
};
use crate::ip::{ipv4_of, ipv4_text, ipv4_to_text, parse_ipv4_address};
use crate::text::{
    append, chars_of, copy, decimal, find_char, next_char, push_decimal, same_text, str_views,
    string_views, text_of, to_decimal,
};
use vstd::prelude::*;
use vstd::utf8::{decode_utf8, encode_utf8, is_char_boundary};

verus! {

/// A command: a program and its arguments.
#[derive(Debug, Clone, PartialEq, Eq)]
pub struct CommandSpec {
    pub program: String,
    pub args: Vec<String>,
}

/// What a command is.
#[verifier::ext_equal]
pub struct CommandView {
    pub program: Seq<char>,
    pub args: Seq<Seq<char>>,
}

impl View for CommandSpec {
    type V = CommandView;

    open spec fn view(&self) -> CommandView {
        CommandView { program: self.program@, args: string_views(self.args@) }
    }
}

/// What a list of commands holds.
pub open spec fn command_views(list: Seq<CommandSpec>) -> Seq<CommandView> {
    list.map_values(|c: CommandSpec| c@)
}

impl CommandSpec {
    /// A command.
    pub fn new(program: &str, args: &[&str]) -> (r: CommandSpec)
        ensures
            r@ == (CommandView { program: program@, args: str_views(args@) }),
    {
        let mut list: Vec<String> = Vec::new();
        let mut i: usize = 0;
        while i < args.len()
            invariant
                i <= args@.len(),
                list@.len() == i,
                forall|j: int| 0 <= j < i ==> (#[trigger] list@[j])@ == args@[j]@,
            decreases args@.len() - i,
        {
            list.push(copy(args[i]));
            i += 1;
        }
        assert(string_views(list@) =~= str_views(args@));
        CommandSpec { program: copy(program), args: list }
    }

    /// A copy of this command.
    pub fn duplicate(&self) -> (r: CommandSpec)
        ensures
            r@ == self@,
    {
        CommandSpec {
            program: copy(self.program.as_str()),
            args: crate::text::copy_strings(&self.args),
        }
    }
}

/// What becomes of one end of a test on a node.
#[derive(Debug, Clone, PartialEq, Eq)]
pub struct EndpointPlan {
    pub role: String,
    pub namespace: String,
    pub interface: String,
    pub addresses: Vec<String>,
}

/// What is planned for one end.
#[verifier::ext_equal]
pub struct EndpointPlanView {
    pub role: Seq<char>,
    pub namespace: Seq<char>,
    pub interface: Seq<char>,
    pub addresses: Seq<Seq<char>>,
}

impl View for EndpointPlan {
    type V = EndpointPlanView;

    open spec fn view(&self) -> EndpointPlanView {
        EndpointPlanView {
            role: self.role@,
            namespace: self.namespace@,
            interface: self.interface@,
            addresses: string_views(self.addresses@),
        }
    }
}

/// What a list of planned ends holds.
pub open spec fn endpoint_views(list: Seq<EndpointPlan>) -> Seq<EndpointPlanView> {
    list.map_values(|e: EndpointPlan| e@)
}

/// The changes that a network profile makes on a node.
#[derive(Debug, Clone, PartialEq, Eq)]
pub struct NetworkPlan {
    pub profile_revision_id: String,
    pub node_id: String,
    pub inventory_fingerprint: String,
    pub endpoints: Vec<EndpointPlan>,
    pub semantic_changes: Vec<String>,
    pub commands: Vec<CommandSpec>,
    pub rollback_commands: Vec<CommandSpec>,
    pub warnings: Vec<String>,
}

/// What a plan is.
#[verifier::ext_equal]
pub struct PlanView {
    pub profile_revision_id: Seq<char>,
    pub node_id: Seq<char>,
    pub inventory_fingerprint: Seq<char>,
    pub endpoints: Seq<EndpointPlanView>,
    pub semantic_changes: Seq<Seq<char>>,
    pub commands: Seq<CommandView>,
    pub rollback_commands: Seq<CommandView>,
    pub warnings: Seq<Seq<char>>,
}

impl View for NetworkPlan {
    type V = PlanView;

    open spec fn view(&self) -> PlanView {
        PlanView {
            profile_revision_id: self.profile_revision_id@,
            node_id: self.node_id@,
            inventory_fingerprint: self.inventory_fingerprint@,
            endpoints: endpoint_views(self.endpoints@),
            semantic_changes: string_views(self.semantic_changes@),
            commands: command_views(self.commands@),
            rollback_commands: command_views(self.rollback_commands@),
            warnings: string_views(self.warnings@),
        }
    }
}

/// Why a network change is refused.
#[derive(Debug, Clone, PartialEq, Eq)]
pub struct NetworkError {
    pub message: String,
}

impl NetworkError {
    /// An error with this message.
    pub fn new(message: &str) -> (r: NetworkError)
        ensures
            r.message@ == message@,
    {
        NetworkError { message: copy(message) }
    }
}

/// A character that the name of a network interface or namespace may have.
pub open spec fn is_name_char(c: char) -> bool {
    ||| 'a' <= c <= 'z'
    ||| 'A' <= c <= 'Z'
    ||| '0' <= c <= '9'
    ||| c == '-'
    ||| c == '_'
    ||| c == '.'
}

/// A name that is safe to hand to a command: one to 64 letters, digits, hyphens, underscores
/// and dots.
pub open spec fn is_identifier(text: Seq<char>) -> bool {
    1 <= text.len() <= 64 && forall|i: int| 0 <= i < text.len() ==> is_name_char(#[trigger] text[i])
}

/// Whether a name is safe to hand to a command.
pub fn validate_identifier(value: &str) -> (r: Result<(), NetworkError>)
    ensures
        match r {
            Ok(_) => is_identifier(value@),
            Err(error) => !is_identifier(value@) && error.message@
                == "unsafe Linux network identifier"@,
        },
{
    let text = chars_of(value);
    let mut safe: bool = text.len() >= 1 && text.len() <= 64;
    let mut i: usize = 0;
    while i < text.len()
        invariant
            text@ == value@,
            i <= text@.len(),
            safe == (1 <= text@.len() <= 64 && forall|j: int|
                0 <= j < i ==> is_name_char(#[trigger] text@[j])),
        decreases text@.len() - i,
    {
        let c: char = text[i];
        let good: bool = ('a' <= c && c <= 'z') || ('A' <= c && c <= 'Z') || ('0' <= c && c <= '9')
            || c == '-' || c == '_' || c == '.';
        assert(good == is_name_char(text@[i as int]));
        safe = safe && good;
        i += 1;
    }
    if safe {
        Ok(())
    } else {
        Err(NetworkError::new("unsafe Linux network identifier"))
    }
}

/// A text can be cut behind its first eight bytes.
pub open spec fn can_shorten(text: Seq<char>) -> bool {
    encode_utf8(text).len() > 8 ==> is_char_boundary(encode_utf8(text), 8)
}

/// The first eight bytes of a text, or all of it if it has no more.
pub open spec fn shortened(text: Seq<char>) -> Seq<char> {
    if encode_utf8(text).len() > 8 {
        decode_utf8(encode_utf8(text).subrange(0, 8))
    } else {
        text
    }
}

/// The first eight bytes of a text, or all of it if it has no more.
pub fn short(value: &str) -> (r: &str)
    requires
        can_shorten(value@),
    ensures
        r@ == shortened(value@),
{
    if value.as_bytes().len() > 8 {
        let (head, _) = value.split_at(8);
        proof {
            vstd::utf8::encode_utf8_decode_utf8(head@);
        }
        head
    } else {
        value
    }
}

/// The addresses of an end with their prefix, or why there are none.
pub open spec fn expanded(endpoint: EndpointProfile) -> Result<Seq<Seq<char>>, Seq<char>> {
    let cidr = endpoint.start_cidr@;
    let slash = next_char(cidr, '/', 0);
    if slash >= cidr.len() {
        Err("invalid start_cidr"@)
    } else {
        match ipv4_of(cidr.subrange(0, slash)) {
            None => Err("invalid IPv4 address syntax"@),
            Some(start) => Ok(
                Seq::new(
                    endpoint.count as nat,
                    |n: int|
                        ipv4_text(start + n) + "/"@ + cidr.subrange(slash + 1, cidr.len() as int),
                ),
            ),
        }
    }
}

/// The addresses of an end without their prefix.
pub open spec fn hosts(endpoint: EndpointProfile) -> Seq<Seq<char>> {
    let cidr = endpoint.start_cidr@;
    let start = ipv4_of(cidr.subrange(0, next_char(cidr, '/', 0)))->0;
    Seq::new(endpoint.count as nat, |n: int| ipv4_text(start + n))
}

/// The addresses of an end, where it has any, stay within 32 bits.
pub open spec fn pool_fits(endpoint: EndpointProfile) -> bool {
    let cidr = endpoint.start_cidr@;
    let slash = next_char(cidr, '/', 0);
    slash < cidr.len() ==> match ipv4_of(cidr.subrange(0, slash)) {
        Some(start) => start + endpoint.count <= u32::MAX + 1,
        None => true,
    }
}

/// The addresses of a valid network profile stay within 32 bits.
pub proof fn valid_pools_fit(draft: NetworkProfileDraft)
    requires
        draft_problem(draft) is None,
    ensures
        pool_fits(draft.client_endpoint),
        pool_fits(draft.server_endpoint),
{
    assert(pool_of(draft.client_endpoint) is Ok);
    assert(pool_of(draft.server_endpoint) is Ok);
}

/// The addresses of an end: with their prefix, and without.
pub fn expand_pool(endpoint: &EndpointProfile) -> (r: Result<
    (Vec<String>, Vec<String>),
    NetworkError,
>)
    requires
        pool_fits(*endpoint),
    ensures
        match r {
            Ok((list, plain)) => expanded(*endpoint) == Ok::<Seq<Seq<char>>, Seq<char>>(
                string_views(list@),
            ) && string_views(plain@) == hosts(*endpoint),
            Err(error) => expanded(*endpoint) == Err::<Seq<Seq<char>>, Seq<char>>(error.message@),
        },
{
    let cidr = chars_of(endpoint.start_cidr.as_str());
    let slash: usize = find_char(cidr.as_slice(), '/', 0);
    if slash == cidr.len() {
        return Err(NetworkError::new("invalid start_cidr"));
    }
    let start: u32 = match parse_ipv4_address(&cidr.as_slice()[0..slash]) {
        Some(start) => start,
        None => {
            return Err(NetworkError::new("invalid IPv4 address syntax"));
        },
    };
    let prefix = text_of(&cidr.as_slice()[slash + 1..cidr.len()]);
    let ghost goal = expanded(*endpoint)->Ok_0;
    let mut list: Vec<String> = Vec::new();
    let mut plain: Vec<String> = Vec::new();
    let mut n: u32 = 0;
    while n < endpoint.count
        invariant
            n <= endpoint.count,
            start + endpoint.count <= u32::MAX + 1,
            goal == Seq::new(
                endpoint.count as nat,
                |k: int| ipv4_text(start + k) + "/"@ + prefix@,
            ),
            hosts(*endpoint) == Seq::new(endpoint.count as nat, |k: int| ipv4_text(start + k)),
            list@.len() == n,
            plain@.len() == n,
            forall|j: int| 0 <= j < n ==> (#[trigger] list@[j])@ == goal[j],
            forall|j: int| 0 <= j < n ==> (#[trigger] plain@[j])@ == ipv4_text(start + j),
        decreases endpoint.count - n,
    {
        let host = ipv4_to_text(start + n);
        let mut address = copy(host.as_str());
        append(&mut address, "/");
        append(&mut address, prefix.as_str());
        list.push(address);
        plain.push(host);
        n += 1;
    }
    assert(string_views(list@) =~= goal);
    assert(string_views(plain@) =~= hosts(*endpoint));
    Ok((list, plain))
}

/// An address of an interface is an IPv4 address: what stands before the slash is one.
pub open spec fn is_ipv4_cidr(text: Seq<char>) -> bool {
    ipv4_of(text.subrange(0, next_char(text, '/', 0))) is Some
}

/// An interface has an IPv4 address.
pub open spec fn has_ipv4(addresses: Seq<Seq<char>>) -> bool {
    exists|i: int| 0 <= i < addresses.len() && is_ipv4_cidr(#[trigger] addresses[i])
}

/// The first interface at or after `from` with a name.
pub open spec fn find_interface(
    interfaces: Seq<InterfaceInventory>,
    name: Seq<char>,
    from: int,
) -> Option<int>
    decreases interfaces.len() - from,
{
    if from >= interfaces.len() {
        None
    } else if interfaces[from].name@ == name {
        Some(from)
    } else {
        find_interface(interfaces, name, from + 1)
    }
}

/// The namespace of one end.
pub open spec fn namespace_of(revision: Seq<char>, role: Seq<char>) -> Seq<char> {
    "pt-"@ + shortened(revision) + "-"@ + role
}

/// A command.
pub open spec fn command(program: Seq<char>, args: Seq<Seq<char>>) -> CommandView {
    CommandView { program, args }
}

/// The command that looks whether an address is in use on the network.
pub open spec fn probe_command(interface: Seq<char>, host: Seq<char>) -> CommandView {
    command("arping"@, seq!["-D"@, "-c"@, "2"@, "-w"@, "2"@, "-I"@, interface, host])
}

/// The command that gives an address to an interface in a namespace.
pub open spec fn address_command(
    namespace: Seq<char>,
    interface: Seq<char>,
    address: Seq<char>,
) -> CommandView {
    command("ip"@, seq!["-n"@, namespace, "address"@, "add"@, address, "dev"@, interface])
}

/// The command that switches an offload off in a namespace.
pub open spec fn offload_command(
    namespace: Seq<char>,
    interface: Seq<char>,
    feature: Seq<char>,
) -> CommandView {
    command(
        "ip"@,
        seq!["netns"@, "exec"@, namespace, "ethtool"@, "-K"@, interface, feature, "off"@],
    )
}

/// The commands that make a namespace and move an interface into it.
pub open spec fn move_commands(
    namespace: Seq<char>,
    interface: Seq<char>,
    mtu: Seq<char>,
) -> Seq<CommandView> {
    seq![
        command("ip"@, seq!["netns"@, "add"@, namespace]),
        command("ip"@, seq!["link"@, "set"@, interface, "netns"@, namespace]),
        command("ip"@, seq!["-n"@, namespace, "link"@, "set"@, "lo"@, "up"@]),
        command("ip"@, seq!["-n"@, namespace, "link"@, "set"@, interface, "mtu"@, mtu, "up"@]),
    ]
}

/// The offloads that are switched off, in this order.
pub open spec fn disabled_features() -> Seq<Seq<char>> {
    seq!["gro"@, "gso"@, "tso"@, "lro"@, "rx"@, "tx"@]
}

/// The offloads that are restored, in this order: some drivers refuse segmentation offloads
/// while transmit checksums are off.
pub open spec fn restored_features() -> Seq<Seq<char>> {
    seq!["tx"@, "rx"@, "tso"@, "gso"@, "gro"@, "lro"@]
}

/// The commands that set up one end.
pub open spec fn setup_commands(
    endpoint: EndpointProfile,
    namespace: Seq<char>,
    mtu: int,
    arping: bool,
    ethtool: bool,
) -> Seq<CommandView> {
    let interface = endpoint.interface_name@;
    let addresses = expanded(endpoint)->Ok_0;
    let probes = if arping {
        Seq::new(addresses.len(), |i: int| probe_command(interface, hosts(endpoint)[i]))
    } else {
        Seq::empty()
    };
    let offloads = if ethtool {
        Seq::new(
            6,
            |i: int| offload_command(namespace, interface, disabled_features()[i]),
        )
    } else {
        Seq::empty()
    };
    probes + move_commands(namespace, interface, decimal(mtu)) + Seq::new(
        addresses.len(),
        |i: int| address_command(namespace, interface, addresses[i]),
    ) + offloads
}

/// The command that restores an offload.
pub open spec fn restore_command(interface: Seq<char>, feature: Seq<char>, on: bool) -> CommandView {
    command(
        "ethtool"@,
        seq![
            "-K"@,
            interface,
            feature,
            if on {
                "on"@
            } else {
                "off"@
            },
        ],
    )
}

/// The commands that restore the first `n` offloads, as far as their state is known.
pub open spec fn restore_commands(
    interface: Seq<char>,
    offloads: Seq<(Seq<char>, bool)>,
    n: int,
) -> Seq<CommandView>
    decreases n,
{
    if n <= 0 {
        Seq::empty()
    } else {
        let feature = restored_features()[n - 1];
        let before = restore_commands(interface, offloads, n - 1);
        match flag(offloads, feature) {
            Some(on) => before.push(restore_command(interface, feature, on)),
            None => before,
        }
    }
}

/// The command that deletes a namespace.
pub open spec fn delete_command(namespace: Seq<char>) -> CommandView {
    command("ip"@, seq!["netns"@, "del"@, namespace])
}

/// The commands that undo the setup of one end: the interface goes back, its offloads, its MTU
/// and its state are restored, and only then the namespace is deleted.
pub open spec fn undo_commands(current: InterfaceInventory, namespace: Seq<char>) -> Seq<
    CommandView,
> {
    let interface = current.name@;
    let mtu = match current.mtu {
        Some(mtu) => seq![
            command("ip"@, seq!["link"@, "set"@, interface, "mtu"@, decimal(mtu as int)]),
        ],
        None => Seq::empty(),
    };
    seq![command("ip"@, seq!["-n"@, namespace, "link"@, "set"@, interface, "netns"@, "1"@])]
        + restore_commands(interface, current.offloads@, 6) + mtu + seq![
        command(
            "ip"@,
            seq![
                "link"@,
                "set"@,
                interface,
                if current.link_up {
                    "up"@
                } else {
                    "down"@
                },
            ],
        ),
        delete_command(namespace),
    ]
}

/// What is planned for one end.
#[verifier::ext_equal]
pub struct EndStep {
    pub endpoint: EndpointPlanView,
    pub semantic_change: Seq<char>,
    pub commands: Seq<CommandView>,
    pub rollback_commands: Seq<CommandView>,
    pub warnings: Seq<Seq<char>>,
}

/// The part of an address of an interface before the prefix.
pub open spec fn host_part(address: Seq<char>) -> Seq<char> {
    address.subrange(0, next_char(address, '/', 0))
}

/// An interface has an address.
pub open spec fn has_host(addresses: Seq<Seq<char>>, host: Seq<char>) -> bool {
    exists|i: int| 0 <= i < addresses.len() && host_part(#[trigger] addresses[i]) == host
}

/// The first of the hosts from `from` on that an interface does not have.
pub open spec fn missing_host(
    addresses: Seq<Seq<char>>,
    hosts: Seq<Seq<char>>,
    from: int,
) -> Option<Seq<char>>
    decreases hosts.len() - from,
{
    if from >= hosts.len() {
        None
    } else if !has_host(addresses, hosts[from]) {
        Some(hosts[from])
    } else {
        missing_host(addresses, hosts, from + 1)
    }
}

/// What is planned for one end whose interface and addresses are the operator's: nothing changes,
/// but every address must be there.
pub open spec fn operator_step(
    role: Seq<char>,
    endpoint: EndpointProfile,
    current: InterfaceInventory,
) -> Result<EndStep, Seq<char>> {
    let interface = endpoint.interface_name@;
    match expanded(endpoint) {
        Err(problem) => Err(problem),
        Ok(addresses) => match missing_host(
            string_views(current.addresses@),
            hosts(endpoint),
            0,
        ) {
            Some(host) => Err("interface "@ + interface + " does not have "@ + host),
            None => Ok(
                EndStep {
                    endpoint: EndpointPlanView {
                        role,
                        namespace: Seq::empty(),
                        interface,
                        addresses,
                    },
                    semantic_change: "use "@ + decimal(addresses.len() as int)
                        + " IPv4 addresses of "@ + interface + " as they are"@,
                    commands: Seq::empty(),
                    rollback_commands: Seq::empty(),
                    warnings: Seq::empty(),
                },
            ),
        },
    }
}

/// What is planned for one end whose interface is borrowed.
pub open spec fn managed_step(
    role: Seq<char>,
    endpoint: EndpointProfile,
    how: Provisioning,
    node: Seq<char>,
    revision: Seq<char>,
    inventory: NodeInventory,
    current: InterfaceInventory,
) -> Result<EndStep, Seq<char>> {
    let interface = endpoint.interface_name@;
    let namespace = namespace_of(revision, role);
    let arping = flag(inventory.capabilities@, "arping"@) == Some(true);
    let ethtool = flag(inventory.capabilities@, "ethtool"@) == Some(true);
    if has_ipv4(string_views(current.addresses@)) {
        Err("interface "@ + interface + " already has addresses"@)
    } else if current.master is Some {
        Err("interface "@ + interface + " is enslaved to "@ + current.master->0@)
    } else if current.kind is Some && !how.allow_virtual_interfaces {
        Err("interface "@ + interface + " is a virtual link of kind "@ + current.kind->0@)
    } else if !is_identifier(namespace) {
        Err("unsafe Linux network identifier"@)
    } else {
        match expanded(endpoint) {
            Err(problem) => Err(problem),
            Ok(addresses) => Ok(
                EndStep {
                    endpoint: EndpointPlanView { role, namespace, interface, addresses },
                    semantic_change: "move "@ + interface + " into "@ + namespace
                        + " and assign "@ + decimal(addresses.len() as int) + " IPv4 addresses"@,
                    commands: setup_commands(
                        endpoint,
                        namespace,
                        how.mtu as int,
                        arping,
                        ethtool,
                    ),
                    rollback_commands: undo_commands(current, namespace),
                    warnings: if arping {
                        Seq::empty()
                    } else {
                        seq![
                            "arping is unavailable on "@ + node
                                + "; address conflict probing is skipped"@,
                        ]
                    },
                },
            ),
        }
    }
}

/// What is planned for one end on a node, or why nothing can be.
pub open spec fn end_step(
    role: Seq<char>,
    endpoint: EndpointProfile,
    how: Provisioning,
    node: Seq<char>,
    revision: Seq<char>,
    inventory: NodeInventory,
) -> Result<EndStep, Seq<char>> {
    let interface = endpoint.interface_name@;
    if !is_identifier(interface) {
        Err("unsafe Linux network identifier"@)
    } else {
        match find_interface(inventory.interfaces@, interface, 0) {
            None => Err("interface "@ + interface + " not found"@),
            Some(at) => {
                let current = inventory.interfaces@[at];
                if string_views(inventory.protected_interfaces@).contains(interface) {
                    Err("interface "@ + interface + " carries the management route"@)
                } else {
                    match how.policy {
                        ProvisioningPolicy::OperatorManaged => operator_step(
                            role,
                            endpoint,
                            current,
                        ),
                        ProvisioningPolicy::ManagedNamespace => managed_step(
                            role,
                            endpoint,
                            how,
                            node,
                            revision,
                            inventory,
                            current,
                        ),
                    }
                }
            },
        }
    }
}

/// A plan without any end.
pub open spec fn empty_plan(node: Seq<char>, revision: Seq<char>, fingerprint: Seq<char>) -> PlanView {
    PlanView {
        profile_revision_id: revision,
        node_id: node,
        inventory_fingerprint: fingerprint,
        endpoints: Seq::empty(),
        semantic_changes: Seq::empty(),
        commands: Seq::empty(),
        rollback_commands: Seq::empty(),
        warnings: Seq::empty(),
    }
}

/// A plan with one more end.
pub open spec fn with_step(plan: PlanView, step: EndStep) -> PlanView {
    PlanView {
        endpoints: plan.endpoints.push(step.endpoint),
        semantic_changes: plan.semantic_changes.push(step.semantic_change),
        commands: plan.commands + step.commands,
        rollback_commands: plan.rollback_commands + step.rollback_commands,
        warnings: plan.warnings + step.warnings,
        ..plan
    }
}

/// A plan with one more end, if that end is on the node.
pub open spec fn with_end(
    plan: PlanView,
    role: Seq<char>,
    endpoint: EndpointProfile,
    how: Provisioning,
    node: Seq<char>,
    revision: Seq<char>,
    inventory: NodeInventory,
) -> Result<PlanView, Seq<char>> {
    if endpoint.node_id@ != node {
        Ok(plan)
    } else {
        match end_step(role, endpoint, how, node, revision, inventory) {
            Ok(step) => Ok(with_step(plan, step)),
            Err(problem) => Err(problem),
        }
    }
}

/// The plan of a network profile for a node: its client end, then its server end, as far as they
/// are on the node; or why there is none.
pub open spec fn plan_of(
    node: Seq<char>,
    revision: Seq<char>,
    draft: NetworkProfileDraft,
    inventory: NodeInventory,
) -> Result<PlanView, Seq<char>> {
    let start = empty_plan(node, revision, inventory.fingerprint@);
    let how = draft.how();
    match with_end(start, "client"@, draft.client_endpoint, how, node, revision, inventory) {
        Err(problem) => Err(problem),
        Ok(client) => match with_end(
            client,
            "server"@,
            draft.server_endpoint,
            how,
            node,
            revision,
            inventory,
        ) {
            Err(problem) => Err(problem),
            Ok(plan) => Ok(
                if flag(inventory.capabilities@, "ethtool"@) == Some(true) || how.policy
                    == ProvisioningPolicy::OperatorManaged {
                    plan
                } else {
                    PlanView {
                        warnings: plan.warnings.push(
                            "ethtool is unavailable; offload state cannot be changed"@,
                        ),
                        ..plan
                    }
                },
            ),
        },
    }
}

/// An interface can be used: it is there and carries no default route. To be borrowed it must also
/// have no IPv4 address, belong to no other interface and, unless virtual links are allowed, be
/// physical.
pub open spec fn is_free(inventory: NodeInventory, name: Seq<char>, how: Provisioning) -> bool {
    match find_interface(inventory.interfaces@, name, 0) {
        Some(at) => {
            let current = inventory.interfaces@[at];
            &&& !string_views(inventory.protected_interfaces@).contains(name)
            &&& how.policy == ProvisioningPolicy::ManagedNamespace ==> {
                &&& !has_ipv4(string_views(current.addresses@))
                &&& current.master is None
                &&& current.kind is None || how.allow_virtual_interfaces
            }
        },
        None => false,
    }
}

/// An end can be planned: where it is on the node and its interface can be used, a namespace
/// can be named after the revision if one is made, and the addresses that it would have stay
/// within 32 bits.
pub open spec fn end_fits(
    role: Seq<char>,
    endpoint: EndpointProfile,
    how: Provisioning,
    node: Seq<char>,
    revision: Seq<char>,
    inventory: NodeInventory,
) -> bool {
    let interface = endpoint.interface_name@;
    endpoint.node_id@ == node && is_identifier(interface) && is_free(inventory, interface, how)
        ==> match how.policy {
        ProvisioningPolicy::OperatorManaged => pool_fits(endpoint),
        ProvisioningPolicy::ManagedNamespace => {
            &&& can_shorten(revision)
            &&& is_identifier(namespace_of(revision, role)) ==> pool_fits(endpoint)
        },
    }
}

/// The ends of a network profile can be planned, as far as they are looked at: the server end is
/// not where the client end is refused.
pub open spec fn draft_fits(
    node: Seq<char>,
    revision: Seq<char>,
    draft: NetworkProfileDraft,
    inventory: NodeInventory,
) -> bool {
    let start = empty_plan(node, revision, inventory.fingerprint@);
    let how = draft.how();
    &&& end_fits("client"@, draft.client_endpoint, how, node, revision, inventory)
    &&& with_end(start, "client"@, draft.client_endpoint, how, node, revision, inventory) is Ok
        ==> end_fits("server"@, draft.server_endpoint, how, node, revision, inventory)
}

/// A plan uses only interfaces that are free: never one that carries a default route, and to borrow
/// it, never one that has an IPv4 address, belongs to another interface or is virtual where that is
/// not allowed. It has the ends of the profile that are on the node, and no others.
pub proof fn planned_interfaces_are_free(
    node: Seq<char>,
    revision: Seq<char>,
    draft: NetworkProfileDraft,
    inventory: NodeInventory,
    i: int,
)
    requires
        plan_of(node, revision, draft, inventory) is Ok,
        0 <= i < plan_of(node, revision, draft, inventory)->Ok_0.endpoints.len(),
    ensures
        ({
            let plan = plan_of(node, revision, draft, inventory)->Ok_0;
            let end = plan.endpoints[i];
            &&& is_free(inventory, end.interface, draft.how())
            &&& is_identifier(end.interface)
            &&& match draft.policy {
                ProvisioningPolicy::ManagedNamespace => is_identifier(end.namespace)
                    && end.namespace == namespace_of(revision, end.role),
                ProvisioningPolicy::OperatorManaged => end.namespace.len() == 0,
            }
            &&& plan.endpoints.len() == (if draft.client_endpoint.node_id@ == node {
                1int
            } else {
                0
            }) + (if draft.server_endpoint.node_id@ == node {
                1int
            } else {
                0
            })
            &&& plan.inventory_fingerprint == inventory.fingerprint@
        }),
{
    let start = empty_plan(node, revision, inventory.fingerprint@);
    let how = draft.how();
    let client = with_end(
        start,
        "client"@,
        draft.client_endpoint,
        how,
        node,
        revision,
        inventory,
    )->Ok_0;
    let plan = plan_of(node, revision, draft, inventory)->Ok_0;
    if draft.client_endpoint.node_id@ == node && i == 0 {
        assert(client.endpoints[0] == plan.endpoints[0]);
    }
}

/// A plan for the operator's interfaces and addresses changes nothing, and takes nothing back.
pub proof fn operators_networks_are_left_alone(
    node: Seq<char>,
    revision: Seq<char>,
    draft: NetworkProfileDraft,
    inventory: NodeInventory,
)
    requires
        draft.policy == ProvisioningPolicy::OperatorManaged,
        plan_of(node, revision, draft, inventory) is Ok,
    ensures
        plan_of(node, revision, draft, inventory)->Ok_0.commands.len() == 0,
        plan_of(node, revision, draft, inventory)->Ok_0.rollback_commands.len() == 0,
{
}

/// What is planned of an end, where it is on the node.
pub open spec fn planned_ends(
    role: Seq<char>,
    endpoint: EndpointProfile,
    policy: ProvisioningPolicy,
    node: Seq<char>,
    revision: Seq<char>,
) -> Seq<EndpointPlanView> {
    if endpoint.node_id@ == node {
        seq![
            EndpointPlanView {
                role,
                namespace: match policy {
                    ProvisioningPolicy::ManagedNamespace => namespace_of(revision, role),
                    ProvisioningPolicy::OperatorManaged => Seq::empty(),
                },
                interface: endpoint.interface_name@,
                addresses: expanded(endpoint)->Ok_0,
            },
        ]
    } else {
        Seq::empty()
    }
}

/// A plan has exactly the ends of the profile that are on its node, the client end before the
/// server end, each with its interface and as many addresses as it asks for.
pub proof fn plans_have_the_ends_of_their_node(
    node: Seq<char>,
    revision: Seq<char>,
    draft: NetworkProfileDraft,
    inventory: NodeInventory,
)
    requires
        plan_of(node, revision, draft, inventory) is Ok,
    ensures
        plan_of(node, revision, draft, inventory)->Ok_0.endpoints == planned_ends(
            "client"@,
            draft.client_endpoint,
            draft.policy,
            node,
            revision,
        ) + planned_ends("server"@, draft.server_endpoint, draft.policy, node, revision),
        draft.client_endpoint.node_id@ == node ==> expanded(draft.client_endpoint) is Ok
            && expanded(draft.client_endpoint)->Ok_0.len() == draft.client_endpoint.count,
        draft.server_endpoint.node_id@ == node ==> expanded(draft.server_endpoint) is Ok
            && expanded(draft.server_endpoint)->Ok_0.len() == draft.server_endpoint.count,
{
    assert(plan_of(node, revision, draft, inventory)->Ok_0.endpoints =~= planned_ends(
        "client"@,
        draft.client_endpoint,
        draft.policy,
        node,
        revision,
    ) + planned_ends("server"@, draft.server_endpoint, draft.policy, node, revision));
}

/// An end on another node is neither looked at nor planned: whatever it is, the plan is the same.
pub proof fn ends_on_other_nodes_do_not_matter(
    node: Seq<char>,
    revision: Seq<char>,
    draft: NetworkProfileDraft,
    other: NetworkProfileDraft,
    inventory: NodeInventory,
)
    requires
        draft.how() == other.how(),
        draft.client_endpoint == other.client_endpoint || (draft.client_endpoint.node_id@ != node
            && other.client_endpoint.node_id@ != node),
        draft.server_endpoint == other.server_endpoint || (draft.server_endpoint.node_id@ != node
            && other.server_endpoint.node_id@ != node),
    ensures
        plan_of(node, revision, draft, inventory) == plan_of(node, revision, other, inventory),
        draft_fits(node, revision, draft, inventory) == draft_fits(
            node,
            revision,
            other,
            inventory,
        ),
{
}

/// The first interface with a name.
fn position(interfaces: &Vec<InterfaceInventory>, name: &str) -> (r: Option<usize>)
    ensures
        match r {
            Some(i) => find_interface(interfaces@, name@, 0) == Some(i as int) && i
                < interfaces@.len() && interfaces@[i as int].name@ == name@,
            None => find_interface(interfaces@, name@, 0) is None,
        },
{
    let mut i: usize = 0;
    while i < interfaces.len()
        invariant
            find_interface(interfaces@, name@, 0) == find_interface(interfaces@, name@, i as int),
        decreases interfaces@.len() - i,
    {
        if same_text(interfaces[i].name.as_str(), name) {
            return Some(i);
        }
        i += 1;
    }
    None
}

/// Whether a list has a text.
pub fn list_has(list: &Vec<String>, text: &str) -> (r: bool)
    ensures
        r == string_views(list@).contains(text@),
{
    let ghost views = string_views(list@);
    let mut i: usize = 0;
    while i < list.len()
        invariant
            views == string_views(list@),
            i <= list@.len(),
            forall|j: int| 0 <= j < i ==> views[j] != text@,
        decreases list@.len() - i,
    {
        assert(views[i as int] == list@[i as int]@);
        if same_text(list[i].as_str(), text) {
            return true;
        }
        i += 1;
    }
    false
}

/// Whether a list of addresses has an IPv4 address.
fn any_ipv4(addresses: &Vec<String>) -> (r: bool)
    ensures
        r == has_ipv4(string_views(addresses@)),
{
    let ghost views = string_views(addresses@);
    let mut i: usize = 0;
    while i < addresses.len()
        invariant
            views == string_views(addresses@),
            i <= addresses@.len(),
            forall|j: int| 0 <= j < i ==> !is_ipv4_cidr(#[trigger] views[j]),
        decreases addresses@.len() - i,
    {
        let text = chars_of(addresses[i].as_str());
        let slash: usize = find_char(text.as_slice(), '/', 0);
        assert(views[i as int] == text@);
        if parse_ipv4_address(&text.as_slice()[0..slash]).is_some() {
            assert(is_ipv4_cidr(views[i as int]));
            return true;
        }
        i += 1;
    }
    false
}

/// Adds a command to a list.
fn push_command(list: &mut Vec<CommandSpec>, program: &str, args: &[&str])
    ensures
        command_views(final(list)@) == command_views(old(list)@).push(
            command(program@, str_views(args@)),
        ),
{
    let ghost before = list@;
    let c = CommandSpec::new(program, args);
    list.push(c);
    assert(command_views(list@) =~= command_views(before).push(c@));
}

/// Three parts as one error.
fn refusal(head: &str, name: &str, tail: &str) -> (r: NetworkError)
    ensures
        r.message@ == head@ + name@ + tail@,
{
    let mut message = copy(head);
    append(&mut message, name);
    append(&mut message, tail);
    NetworkError { message }
}

/// Adds the commands that look for address conflicts.
fn push_probes(list: &mut Vec<CommandSpec>, interface: &str, plain: &Vec<String>)
    ensures
        command_views(final(list)@) == command_views(old(list)@) + Seq::new(
            plain@.len(),
            |i: int| probe_command(interface@, string_views(plain@)[i]),
        ),
{
    let ghost before = command_views(list@);
    let ghost views = string_views(plain@);
    let ghost goal = Seq::new(plain@.len(), |i: int| probe_command(interface@, views[i]));
    let mut i: usize = 0;
    assert(before + goal.take(0) =~= before);
    while i < plain.len()
        invariant
            i <= plain@.len(),
            views == string_views(plain@),
            goal == Seq::new(plain@.len(), |k: int| probe_command(interface@, views[k])),
            command_views(list@) == before + goal.take(i as int),
        decreases plain@.len() - i,
    {
        let args: [&str; 8] = ["-D", "-c", "2", "-w", "2", "-I", interface, plain[i].as_str()];
        assert(views[i as int] == plain@[i as int]@);
        assert(str_views(args@) =~= seq![
            "-D"@,
            "-c"@,
            "2"@,
            "-w"@,
            "2"@,
            "-I"@,
            interface@,
            views[i as int],
        ]);
        push_command(list, "arping", args.as_slice());
        assert(goal.take(i + 1) =~= goal.take(i as int).push(goal[i as int]));
        assert(command_views(list@) =~= before + goal.take(i + 1));
        i += 1;
    }
    assert(goal.take(i as int) =~= goal);
}

/// Adds the commands that give addresses to an interface.
fn push_addresses(
    list: &mut Vec<CommandSpec>,
    namespace: &str,
    interface: &str,
    addresses: &Vec<String>,
)
    ensures
        command_views(final(list)@) == command_views(old(list)@) + Seq::new(
            addresses@.len(),
            |i: int| address_command(namespace@, interface@, string_views(addresses@)[i]),
        ),
{
    let ghost before = command_views(list@);
    let ghost views = string_views(addresses@);
    let ghost goal = Seq::new(
        addresses@.len(),
        |i: int| address_command(namespace@, interface@, views[i]),
    );
    let mut i: usize = 0;
    assert(before + goal.take(0) =~= before);
    while i < addresses.len()
        invariant
            i <= addresses@.len(),
            views == string_views(addresses@),
            goal == Seq::new(
                addresses@.len(),
                |k: int| address_command(namespace@, interface@, views[k]),
            ),
            command_views(list@) == before + goal.take(i as int),
        decreases addresses@.len() - i,
    {
        let args: [&str; 7] = [
            "-n",
            namespace,
            "address",
            "add",
            addresses[i].as_str(),
            "dev",
            interface,
        ];
        assert(views[i as int] == addresses@[i as int]@);
        assert(str_views(args@) =~= seq![
            "-n"@,
            namespace@,
            "address"@,
            "add"@,
            views[i as int],
            "dev"@,
            interface@,
        ]);
        push_command(list, "ip", args.as_slice());
        assert(goal.take(i + 1) =~= goal.take(i as int).push(goal[i as int]));
        assert(command_views(list@) =~= before + goal.take(i + 1));
        i += 1;
    }
    assert(goal.take(i as int) =~= goal);
}

/// Adds the command that switches an offload off.
fn push_offload(list: &mut Vec<CommandSpec>, namespace: &str, interface: &str, feature: &str)
    ensures
        command_views(final(list)@) == command_views(old(list)@).push(
            offload_command(namespace@, interface@, feature@),
        ),
{
    let args: [&str; 8] = [
        "netns",
        "exec",
        namespace,
        "ethtool",
        "-K",
        interface,
        feature,
        "off",
    ];
    assert(str_views(args@) =~= seq![
        "netns"@,
        "exec"@,
        namespace@,
        "ethtool"@,
        "-K"@,
        interface@,
        feature@,
        "off"@,
    ]);
    push_command(list, "ip", args.as_slice());
}

/// Adds the commands that make a namespace and move an interface into it.
fn push_move(list: &mut Vec<CommandSpec>, namespace: &str, interface: &str, mtu: &str)
    ensures
        command_views(final(list)@) == command_views(old(list)@) + move_commands(
            namespace@,
            interface@,
            mtu@,
        ),
{
    let ghost before = command_views(list@);
    let add: [&str; 3] = ["netns", "add", namespace];
    assert(str_views(add@) =~= seq!["netns"@, "add"@, namespace@]);
    push_command(list, "ip", add.as_slice());
    let enter: [&str; 5] = ["link", "set", interface, "netns", namespace];
    assert(str_views(enter@) =~= seq!["link"@, "set"@, interface@, "netns"@, namespace@]);
    push_command(list, "ip", enter.as_slice());
    let lo: [&str; 6] = ["-n", namespace, "link", "set", "lo", "up"];
    assert(str_views(lo@) =~= seq!["-n"@, namespace@, "link"@, "set"@, "lo"@, "up"@]);
    push_command(list, "ip", lo.as_slice());
    let up: [&str; 8] = ["-n", namespace, "link", "set", interface, "mtu", mtu, "up"];
    assert(str_views(up@) =~= seq![
        "-n"@,
        namespace@,
        "link"@,
        "set"@,
        interface@,
        "mtu"@,
        mtu@,
        "up"@,
    ]);
    push_command(list, "ip", up.as_slice());
    assert(command_views(list@) =~= before + move_commands(namespace@, interface@, mtu@));
}

/// The commands that set up one end.
fn build_setup(
    endpoint: &EndpointProfile,
    namespace: &str,
    mtu: u32,
    arping: bool,
    ethtool: bool,
    addresses: &Vec<String>,
    plain: &Vec<String>,
) -> (r: Vec<CommandSpec>)
    requires
        expanded(*endpoint) == Ok::<Seq<Seq<char>>, Seq<char>>(string_views(addresses@)),
        string_views(plain@) == hosts(*endpoint),
    ensures
        command_views(r@) == setup_commands(*endpoint, namespace@, mtu as int, arping, ethtool),
{
    let interface: &str = endpoint.interface_name.as_str();
    let mut list: Vec<CommandSpec> = Vec::new();
    let ghost views = string_views(addresses@);
    assert(addresses@.len() == views.len());
    assert(plain@.len() == hosts(*endpoint).len());
    assert(command_views(list@) =~= Seq::empty());
    if arping {
        push_probes(&mut list, interface, plain);
    }
    let ghost probes = command_views(list@);
    let mtu_text = to_decimal(mtu as u64);
    push_move(&mut list, namespace, interface, mtu_text.as_str());
    push_addresses(&mut list, namespace, interface, addresses);
    let ghost ready = command_views(list@);
    if ethtool {
        push_offload(&mut list, namespace, interface, "gro");
        push_offload(&mut list, namespace, interface, "gso");
        push_offload(&mut list, namespace, interface, "tso");
        push_offload(&mut list, namespace, interface, "lro");
        push_offload(&mut list, namespace, interface, "rx");
        push_offload(&mut list, namespace, interface, "tx");
        assert(command_views(list@) =~= ready + Seq::new(
            6,
            |i: int| offload_command(namespace@, interface@, disabled_features()[i]),
        ));
    }
    assert(command_views(list@) =~= setup_commands(
        *endpoint,
        namespace@,
        mtu as int,
        arping,
        ethtool,
    ));
    list
}

/// Adds the command that restores an offload, if its state is known.
fn push_restore(list: &mut Vec<CommandSpec>, current: &InterfaceInventory, feature: &str)
    ensures
        command_views(final(list)@) == (match flag(current.offloads@, feature@) {
            Some(on) => command_views(old(list)@).push(
                restore_command(current.name@, feature@, on),
            ),
            None => command_views(old(list)@),
        }),
{
    if let Some(on) = current.offloads.get(feature) {
        let state: &str = if on {
            "on"
        } else {
            "off"
        };
        let args: [&str; 4] = ["-K", current.name.as_str(), feature, state];
        assert(str_views(args@) =~= seq!["-K"@, current.name@, feature@, state@]);
        push_command(list, "ethtool", args.as_slice());
    }
}

/// The commands that undo the setup of one end.
fn build_undo(current: &InterfaceInventory, namespace: &str) -> (r: Vec<CommandSpec>)
    ensures
        command_views(r@) == undo_commands(*current, namespace@),
{
    let interface: &str = current.name.as_str();
    let mut list: Vec<CommandSpec> = Vec::new();
    assert(command_views(list@) =~= Seq::empty());
    let back: [&str; 7] = ["-n", namespace, "link", "set", interface, "netns", "1"];
    assert(str_views(back@) =~= seq![
        "-n"@,
        namespace@,
        "link"@,
        "set"@,
        interface@,
        "netns"@,
        "1"@,
    ]);
    push_command(&mut list, "ip", back.as_slice());
    let ghost first = seq![
        command("ip"@, seq!["-n"@, namespace@, "link"@, "set"@, interface@, "netns"@, "1"@]),
    ];
    let ghost offloads = current.offloads@;
    assert(command_views(list@) =~= first + restore_commands(interface@, offloads, 0));
    push_restore(&mut list, current, "tx");
    assert(command_views(list@) =~= first + restore_commands(interface@, offloads, 1));
    push_restore(&mut list, current, "rx");
    assert(command_views(list@) =~= first + restore_commands(interface@, offloads, 2));
    push_restore(&mut list, current, "tso");
    assert(command_views(list@) =~= first + restore_commands(interface@, offloads, 3));
    push_restore(&mut list, current, "gso");
    assert(command_views(list@) =~= first + restore_commands(interface@, offloads, 4));
    push_restore(&mut list, current, "gro");
    assert(command_views(list@) =~= first + restore_commands(interface@, offloads, 5));
    push_restore(&mut list, current, "lro");
    assert(command_views(list@) =~= first + restore_commands(interface@, offloads, 6));
    if let Some(mtu) = current.mtu {
        let mtu_text = to_decimal(mtu as u64);
        let args: [&str; 5] = ["link", "set", interface, "mtu", mtu_text.as_str()];
        assert(str_views(args@) =~= seq![
            "link"@,
            "set"@,
            interface@,
            "mtu"@,
            decimal(mtu as int),
        ]);
        push_command(&mut list, "ip", args.as_slice());
    }
    let state: &str = if current.link_up {
        "up"
    } else {
        "down"
    };
    let args: [&str; 4] = ["link", "set", interface, state];
    assert(str_views(args@) =~= seq!["link"@, "set"@, interface@, state@]);
    push_command(&mut list, "ip", args.as_slice());
    let delete: [&str; 3] = ["netns", "del", namespace];
    assert(str_views(delete@) =~= seq!["netns"@, "del"@, namespace@]);
    push_command(&mut list, "ip", delete.as_slice());
    assert(command_views(list@) =~= undo_commands(*current, namespace@));
    list
}

/// The namespace of one end.
fn build_namespace(revision: &str, role: &str) -> (r: String)
    requires
        can_shorten(revision@),
    ensures
        r@ == namespace_of(revision@, role@),
{
    let mut text = copy("pt-");
    append(&mut text, short(revision));
    append(&mut text, "-");
    append(&mut text, role);
    text
}

/// Whether an interface has an address.
fn lists_host(addresses: &Vec<String>, host: &str) -> (r: bool)
    ensures
        r == has_host(string_views(addresses@), host@),
{
    let ghost views = string_views(addresses@);
    let mut i: usize = 0;
    while i < addresses.len()
        invariant
            views == string_views(addresses@),
            i <= addresses@.len(),
            forall|j: int| 0 <= j < i ==> host_part(#[trigger] views[j]) != host@,
        decreases addresses@.len() - i,
    {
        let text = chars_of(addresses[i].as_str());
        let slash: usize = find_char(text.as_slice(), '/', 0);
        let part = text_of(&text.as_slice()[0..slash]);
        assert(views[i as int] == text@);
        assert(part@ =~= host_part(views[i as int]));
        if same_text(part.as_str(), host) {
            return true;
        }
        i += 1;
    }
    false
}

/// The first of the hosts that an interface does not have.
fn find_missing<'a>(addresses: &Vec<String>, hosts: &'a Vec<String>) -> (r: Option<&'a str>)
    ensures
        match r {
            Some(host) => missing_host(string_views(addresses@), string_views(hosts@), 0) == Some(
                host@,
            ),
            None => missing_host(string_views(addresses@), string_views(hosts@), 0) is None,
        },
{
    let ghost views = string_views(addresses@);
    let ghost all = string_views(hosts@);
    let mut i: usize = 0;
    while i < hosts.len()
        invariant
            views == string_views(addresses@),
            all == string_views(hosts@),
            i <= hosts@.len(),
            missing_host(views, all, 0) == missing_host(views, all, i as int),
        decreases hosts@.len() - i,
    {
        assert(all[i as int] == hosts@[i as int]@);
        if !lists_host(addresses, hosts[i].as_str()) {
            return Some(hosts[i].as_str());
        }
        i += 1;
    }
    None
}

/// Adds one end to a plan whose interface and addresses are the operator's.
fn add_operator_end(
    plan: &mut NetworkPlan,
    role: &str,
    endpoint: &EndpointProfile,
    current: &InterfaceInventory,
) -> (r: Result<(), NetworkError>)
    requires
        pool_fits(*endpoint),
    ensures
        match r {
            Ok(_) => operator_step(role@, *endpoint, *current) is Ok && final(plan)@ == with_step(
                old(plan)@,
                operator_step(role@, *endpoint, *current)->Ok_0,
            ),
            Err(error) => operator_step(role@, *endpoint, *current) == Err::<EndStep, Seq<char>>(
                error.message@,
            ),
        },
{
    let ghost before = plan@;
    let interface: &str = endpoint.interface_name.as_str();
    let (addresses, plain) = match expand_pool(endpoint) {
        Ok(pool) => pool,
        Err(error) => {
            return Err(error);
        },
    };
    if let Some(host) = find_missing(&current.addresses, &plain) {
        let mut error = refusal("interface ", interface, " does not have ");
        append(&mut error.message, host);
        return Err(error);
    }
    let ghost step = operator_step(role@, *endpoint, *current)->Ok_0;
    let mut semantic = copy("use ");
    push_decimal(&mut semantic, addresses.len() as u64);
    append(&mut semantic, " IPv4 addresses of ");
    append(&mut semantic, interface);
    append(&mut semantic, " as they are");
    let ghost old_semantic = plan.semantic_changes@;
    plan.semantic_changes.push(semantic);
    assert(string_views(plan.semantic_changes@) =~= string_views(old_semantic).push(
        step.semantic_change,
    ));
    let ghost old_endpoints = plan.endpoints@;
    let end = EndpointPlan {
        role: copy(role),
        namespace: String::new(),
        interface: copy(interface),
        addresses,
    };
    assert(end@ =~= step.endpoint);
    plan.endpoints.push(end);
    assert(endpoint_views(plan.endpoints@) =~= endpoint_views(old_endpoints).push(step.endpoint));
    assert(plan@ =~= with_step(before, step));
    Ok(())
}

/// Adds one end to a plan whose interface is borrowed.
fn add_managed_end(
    plan: &mut NetworkPlan,
    role: &str,
    endpoint: &EndpointProfile,
    how: Provisioning,
    node_id: &str,
    revision_id: &str,
    inventory: &NodeInventory,
    current: &InterfaceInventory,
) -> (r: Result<(), NetworkError>)
    requires
        !has_ipv4(string_views(current.addresses@)) && current.master is None && (current.kind
            is None || how.allow_virtual_interfaces) ==> {
            &&& can_shorten(revision_id@)
            &&& is_identifier(namespace_of(revision_id@, role@)) ==> pool_fits(*endpoint)
        },
    ensures
        match r {
            Ok(_) => managed_step(
                role@,
                *endpoint,
                how,
                node_id@,
                revision_id@,
                *inventory,
                *current,
            ) is Ok && final(plan)@ == with_step(
                old(plan)@,
                managed_step(
                    role@,
                    *endpoint,
                    how,
                    node_id@,
                    revision_id@,
                    *inventory,
                    *current,
                )->Ok_0,
            ),
            Err(error) => managed_step(
                role@,
                *endpoint,
                how,
                node_id@,
                revision_id@,
                *inventory,
                *current,
            ) == Err::<EndStep, Seq<char>>(error.message@),
        },
{
    let ghost before = plan@;
    let interface: &str = endpoint.interface_name.as_str();
    if any_ipv4(&current.addresses) {
        return Err(refusal("interface ", interface, " already has addresses"));
    }
    if let Some(master) = &current.master {
        let mut error = refusal("interface ", interface, " is enslaved to ");
        append(&mut error.message, master.as_str());
        return Err(error);
    }
    if let Some(kind) = &current.kind {
        if !how.allow_virtual_interfaces {
            let mut error = refusal("interface ", interface, " is a virtual link of kind ");
            append(&mut error.message, kind.as_str());
            return Err(error);
        }
    }
    let namespace = build_namespace(revision_id, role);
    if let Err(error) = validate_identifier(namespace.as_str()) {
        return Err(error);
    }
    let (addresses, plain) = match expand_pool(endpoint) {
        Ok(pool) => pool,
        Err(error) => {
            return Err(error);
        },
    };
    let ghost step = managed_step(
        role@,
        *endpoint,
        how,
        node_id@,
        revision_id@,
        *inventory,
        *current,
    )->Ok_0;
    let mut semantic = copy("move ");
    append(&mut semantic, interface);
    append(&mut semantic, " into ");
    append(&mut semantic, namespace.as_str());
    append(&mut semantic, " and assign ");
    push_decimal(&mut semantic, addresses.len() as u64);
    append(&mut semantic, " IPv4 addresses");
    let ghost old_semantic = plan.semantic_changes@;
    plan.semantic_changes.push(semantic);
    assert(string_views(plan.semantic_changes@) =~= string_views(old_semantic).push(
        step.semantic_change,
    ));
    let arping: bool = inventory.capabilities.is_on("arping");
    let ethtool: bool = inventory.capabilities.is_on("ethtool");
    let ghost old_warnings = plan.warnings@;
    if !arping {
        let mut warning = copy("arping is unavailable on ");
        append(&mut warning, node_id);
        append(&mut warning, "; address conflict probing is skipped");
        plan.warnings.push(warning);
    }
    assert(string_views(plan.warnings@) =~= string_views(old_warnings) + step.warnings);
    let mut setup = build_setup(
        endpoint,
        namespace.as_str(),
        how.mtu,
        arping,
        ethtool,
        &addresses,
        &plain,
    );
    let ghost old_commands = plan.commands@;
    let ghost added = setup@;
    plan.commands.append(&mut setup);
    assert(command_views(plan.commands@) =~= command_views(old_commands) + command_views(added));
    let mut undo = build_undo(current, namespace.as_str());
    let ghost old_rollback = plan.rollback_commands@;
    let ghost undone = undo@;
    plan.rollback_commands.append(&mut undo);
    assert(command_views(plan.rollback_commands@) =~= command_views(old_rollback) + command_views(
        undone,
    ));
    let ghost old_endpoints = plan.endpoints@;
    let end = EndpointPlan {
        role: copy(role),
        namespace,
        interface: copy(interface),
        addresses,
    };
    assert(end@ =~= step.endpoint);
    plan.endpoints.push(end);
    assert(endpoint_views(plan.endpoints@) =~= endpoint_views(old_endpoints).push(step.endpoint));
    assert(plan@ =~= with_step(before, step));
    Ok(())
}

/// Adds one end to a plan, if that end is on the node.
fn add_end(
    plan: &mut NetworkPlan,
    role: &str,
    endpoint: &EndpointProfile,
    how: Provisioning,
    node_id: &str,
    revision_id: &str,
    inventory: &NodeInventory,
) -> (r: Result<(), NetworkError>)
    requires
        end_fits(role@, *endpoint, how, node_id@, revision_id@, *inventory),
    ensures
        match r {
            Ok(_) => with_end(
                old(plan)@,
                role@,
                *endpoint,
                how,
                node_id@,
                revision_id@,
                *inventory,
            ) == Ok::<PlanView, Seq<char>>(final(plan)@),
            Err(error) => with_end(
                old(plan)@,
                role@,
                *endpoint,
                how,
                node_id@,
                revision_id@,
                *inventory,
            ) == Err::<PlanView, Seq<char>>(error.message@),
        },
{
    if !same_text(endpoint.node_id.as_str(), node_id) {
        return Ok(());
    }
    let interface: &str = endpoint.interface_name.as_str();
    if let Err(error) = validate_identifier(interface) {
        return Err(error);
    }
    let at: usize = match position(&inventory.interfaces, interface) {
        Some(at) => at,
        None => {
            return Err(refusal("interface ", interface, " not found"));
        },
    };
    let current = &inventory.interfaces[at];
    if list_has(&inventory.protected_interfaces, interface) {
        return Err(refusal("interface ", interface, " carries the management route"));
    }
    match how.policy {
        ProvisioningPolicy::OperatorManaged => add_operator_end(plan, role, endpoint, current),
        ProvisioningPolicy::ManagedNamespace => add_managed_end(
            plan,
            role,
            endpoint,
            how,
            node_id,
            revision_id,
            inventory,
            current,
        ),
    }
}

/// The place where a node keeps the state of its network changes.
#[derive(Debug, Clone, PartialEq, Eq)]
pub struct NetworkManager {
    pub journal_path: String,
}

impl NetworkManager {
    /// A manager that keeps its journal at a path.
    pub fn new(path: &str) -> (r: NetworkManager)
        ensures
            r.journal_path@ == path@,
    {
        NetworkManager { journal_path: copy(path) }
    }

    /// The plan of a network profile for a node, or why there is none. It depends on the
    /// arguments alone.
    pub fn plan(
        &self,
        node_id: &str,
        revision_id: &str,
        draft: &NetworkProfileDraft,
        inventory: &NodeInventory,
    ) -> (r: Result<NetworkPlan, NetworkError>)
        requires
            draft_fits(node_id@, revision_id@, *draft, *inventory),
        ensures
            match r {
                Ok(plan) => plan_of(node_id@, revision_id@, *draft, *inventory) == Ok::<
                    PlanView,
                    Seq<char>,
                >(plan@),
                Err(error) => plan_of(node_id@, revision_id@, *draft, *inventory) == Err::<
                    PlanView,
                    Seq<char>,
                >(error.message@),
            },
    {
        let mut plan = NetworkPlan {
            profile_revision_id: copy(revision_id),
            node_id: copy(node_id),
            inventory_fingerprint: copy(inventory.fingerprint.as_str()),
            endpoints: Vec::new(),
            semantic_changes: Vec::new(),
            commands: Vec::new(),
            rollback_commands: Vec::new(),
            warnings: Vec::new(),
        };
        assert(plan@ =~= empty_plan(node_id@, revision_id@, inventory.fingerprint@));
        let how: Provisioning = draft.provisioning();
        if let Err(error) = add_end(
            &mut plan,
            "client",
            &draft.client_endpoint,
            how,
            node_id,
            revision_id,
            inventory,
        ) {
            return Err(error);
        }
        if let Err(error) = add_end(
            &mut plan,
            "server",
            &draft.server_endpoint,
            how,
            node_id,
            revision_id,
            inventory,
        ) {
            return Err(error);
        }
        if !inventory.capabilities.is_on("ethtool") && how.policy
            == ProvisioningPolicy::ManagedNamespace {
            let ghost before = plan@;
            plan.warnings.push(copy("ethtool is unavailable; offload state cannot be changed"));
            assert(string_views(plan.warnings@) =~= before.warnings.push(
                "ethtool is unavailable; offload state cannot be changed"@,
            ));
            assert(plan@ =~= PlanView {
                warnings: before.warnings.push(
                    "ethtool is unavailable; offload state cannot be changed"@,
                ),
                ..before
            });
        }
        Ok(plan)
    }
}

} // verus!
