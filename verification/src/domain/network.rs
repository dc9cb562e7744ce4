//! Network profiles: the address pools of the two ends of a test.
use crate::domain::scenario::ValidationError;
use crate::id::Uuid;
use crate::ip::{ipv4_of, parse_ipv4_address};
use crate::num::power_of_two;
use crate::text::{
    blank, chars_of, copy, decimal_number, find_char, is_blank, next_char, parse_decimal,
};
use vstd::arithmetic::power2::pow2;
use vstd::prelude::*;

verus! {

/// One end of a test: a network interface of a node, and the addresses that it gets.
#[derive(Debug, Clone, PartialEq, Eq)]
pub struct EndpointProfile {
    pub node_id: String,
    pub interface_name: String,
    /// First address and prefix, for example `10.20.0.10/24`.
    pub start_cidr: String,
    pub count: u32,
}

/// Who makes the network of a test.
#[derive(Debug, Clone, Copy, PartialEq, Eq, Structural)]
pub enum ProvisioningPolicy {
    /// Interfaces without addresses are borrowed, moved into namespaces and given addresses.
    ManagedNamespace,
    /// Interfaces and addresses of the operator are used as they are.
    OperatorManaged,
}

impl Default for ProvisioningPolicy {
    fn default() -> (r: ProvisioningPolicy)
        ensures
            r == ProvisioningPolicy::ManagedNamespace,
    {
        ProvisioningPolicy::ManagedNamespace
    }
}

/// How the ends of a network are made.
#[derive(Debug, Clone, Copy, PartialEq, Eq, Structural)]
pub struct Provisioning {
    pub policy: ProvisioningPolicy,
    pub allow_virtual_interfaces: bool,
    pub mtu: u32,
}

/// A network profile that can still change.
#[derive(Debug, Clone, PartialEq, Eq)]
pub struct NetworkProfileDraft {
    pub id: Uuid,
    pub name: String,
    pub client_endpoint: EndpointProfile,
    pub server_endpoint: EndpointProfile,
    pub mtu: u32,
    pub diagnostic_port: u16,
    pub path_probe_enabled: bool,
    pub policy: ProvisioningPolicy,
    /// Virtual links may be borrowed too. This is for disposable environments.
    pub allow_virtual_interfaces: bool,
}

/// A network profile that no longer changes.
#[derive(Debug, Clone, PartialEq, Eq)]
pub struct NetworkProfileRevision {
    pub id: Uuid,
    pub profile_id: Uuid,
    pub revision: u32,
    pub sha256: String,
    pub body: NetworkProfileDraft,
}

impl Default for NetworkProfileDraft {
    fn default() -> (r: NetworkProfileDraft)
        ensures
            r.id.value != 0,
            r.name@ == "Managed direct network"@,
            r.client_endpoint.node_id@ == "node-1"@,
            r.client_endpoint.interface_name@ == "eth1"@,
            r.client_endpoint.start_cidr@ == "10.20.0.10/24"@,
            r.client_endpoint.count == 16,
            r.server_endpoint.node_id@ == "node-1"@,
            r.server_endpoint.interface_name@ == "eth2"@,
            r.server_endpoint.start_cidr@ == "10.20.0.100/24"@,
            r.server_endpoint.count == 16,
            r.mtu == 1370,
            r.diagnostic_port == 39000,
            r.path_probe_enabled,
            r.policy == ProvisioningPolicy::ManagedNamespace,
            !r.allow_virtual_interfaces,
    {
        NetworkProfileDraft {
            id: Uuid::new_v4(),
            name: copy("Managed direct network"),
            client_endpoint: EndpointProfile {
                node_id: copy("node-1"),
                interface_name: copy("eth1"),
                start_cidr: copy("10.20.0.10/24"),
                count: 16,
            },
            server_endpoint: EndpointProfile {
                node_id: copy("node-1"),
                interface_name: copy("eth2"),
                start_cidr: copy("10.20.0.100/24"),
                count: 16,
            },
            mtu: 1370,
            diagnostic_port: 39000,
            path_probe_enabled: true,
            policy: ProvisioningPolicy::ManagedNamespace,
            allow_virtual_interfaces: false,
        }
    }
}

impl NetworkProfileDraft {
    /// How the ends of this network are made.
    pub open spec fn how(&self) -> Provisioning {
        Provisioning {
            policy: self.policy,
            allow_virtual_interfaces: self.allow_virtual_interfaces,
            mtu: self.mtu,
        }
    }

    /// How the ends of this network are made.
    pub fn provisioning(&self) -> (r: Provisioning)
        ensures
            r == self.how(),
    {
        Provisioning {
            policy: self.policy,
            allow_virtual_interfaces: self.allow_virtual_interfaces,
            mtu: self.mtu,
        }
    }
}

/// A pool of addresses: the first and the last of them, and the subnet that they are in.
#[verifier::ext_equal]
pub struct PoolView {
    pub start: int,
    pub end: int,
    pub network: int,
    pub prefix: int,
}

/// How many addresses a subnet has.
pub open spec fn subnet_size(prefix: int) -> int {
    pow2((32 - prefix) as nat) as int
}

/// The first address of the subnet that an address is in.
pub open spec fn network_of(address: int, prefix: int) -> int {
    address - address % subnet_size(prefix)
}

/// The address pool of one end, or what is wrong with it, in the order in which it is looked
/// for.
pub open spec fn pool_of(endpoint: EndpointProfile) -> Result<PoolView, Seq<char>> {
    let cidr = endpoint.start_cidr@;
    let slash = next_char(cidr, '/', 0);
    let address = ipv4_of(cidr.subrange(0, slash));
    let prefix = decimal_number(cidr.subrange(slash + 1, cidr.len() as int), 255);
    if blank(endpoint.node_id@) || blank(endpoint.interface_name@) {
        Err("endpoint node and interface are required"@)
    } else if !(1 <= endpoint.count <= 4096) {
        Err("endpoint pool count must be between 1 and 4096"@)
    } else if slash >= cidr.len() || address is None {
        Err("start_cidr must be IPv4/prefix"@)
    } else if prefix is None {
        Err("invalid IPv4 prefix"@)
    } else if !(1 <= prefix->0 <= 30) {
        Err("IPv4 prefix must be between 1 and 30"@)
    } else {
        let start = address->0;
        let end = start + endpoint.count - 1;
        let network = network_of(start, prefix->0);
        if end > u32::MAX {
            Err("IP pool overflows"@)
        } else if start <= network || end >= network + subnet_size(prefix->0) - 1 {
            Err("IP pool includes network/broadcast or leaves subnet"@)
        } else {
            Ok(PoolView { start, end, network, prefix: prefix->0 })
        }
    }
}

/// What is wrong with a network profile, in the order in which it is looked for.
pub open spec fn draft_problem(draft: NetworkProfileDraft) -> Option<Seq<char>> {
    if blank(draft.name@) {
        Some("network profile name is required"@)
    } else if !(576 <= draft.mtu <= 9216) {
        Some("MTU must be between 576 and 9216"@)
    } else if draft.diagnostic_port == 0 {
        Some("diagnostic_port must be non-zero"@)
    } else {
        match (pool_of(draft.client_endpoint), pool_of(draft.server_endpoint)) {
            (Err(problem), _) => Some(problem),
            (_, Err(problem)) => Some(problem),
            (Ok(client), Ok(server)) => if client.network != server.network || client.prefix
                != server.prefix {
                Some("client and server pools must use the same IPv4 subnet"@)
            } else if client.start <= server.end && server.start <= client.end {
                Some("client and server pools must not overlap"@)
            } else if draft.client_endpoint.node_id@ == draft.server_endpoint.node_id@
                && draft.client_endpoint.interface_name@ == draft.server_endpoint.interface_name@ {
                Some("client and server endpoints require different interfaces on the same node"@)
            } else {
                None
            },
        }
    }
}

/// The `i`-th address of a pool.
pub open spec fn pool_address(pool: PoolView, i: int) -> int {
    pool.start + i
}

/// In a valid profile every address of either pool is a host address of one common subnet, and
/// no address is in both pools.
pub proof fn valid_pools_are_apart(draft: NetworkProfileDraft, i: int, j: int)
    requires
        draft_problem(draft) is None,
        0 <= i < draft.client_endpoint.count,
        0 <= j < draft.server_endpoint.count,
    ensures
        pool_of(draft.client_endpoint) is Ok,
        pool_of(draft.server_endpoint) is Ok,
        ({
            let client = pool_of(draft.client_endpoint)->Ok_0;
            let server = pool_of(draft.server_endpoint)->Ok_0;
            let last = client.network + subnet_size(client.prefix) - 1;
            &&& client.network < pool_address(client, i) < last
            &&& client.network < pool_address(server, j) < last
            &&& pool_address(client, i) != pool_address(server, j)
            &&& network_of(pool_address(client, i), client.prefix) == client.network
            &&& network_of(pool_address(server, j), client.prefix) == client.network
        }),
{
    let client = pool_of(draft.client_endpoint)->Ok_0;
    let server = pool_of(draft.server_endpoint)->Ok_0;
    same_subnet(client.start, client.prefix, pool_address(client, i));
    same_subnet(server.start, server.prefix, pool_address(server, j));
}

proof fn same_subnet(start: int, prefix: int, address: int)
    requires
        0 <= prefix <= 32,
        network_of(start, prefix) <= address < network_of(start, prefix) + subnet_size(prefix),
    ensures
        network_of(address, prefix) == network_of(start, prefix),
{
    vstd::arithmetic::power2::lemma_pow2_pos((32 - prefix) as nat);
    let size = subnet_size(prefix);
    let q = start / size;
    let network = network_of(start, prefix);
    assert(network == q * size) by (nonlinear_arith)
        requires
            network == start - start % size,
            q == start / size,
            size > 0,
    ;
    assert(address - address % size == q * size) by (nonlinear_arith)
        requires
            q * size <= address < q * size + size,
            size > 0,
    ;
}

/// The address pool of one end: its first and last address, its network and its prefix.
pub fn ipv4_range(endpoint: &EndpointProfile) -> (r: Result<(u32, u32, u32, u8), ValidationError>)
    ensures
        match r {
            Ok((start, end, network, prefix)) => pool_of(*endpoint) == Ok::<PoolView, Seq<char>>(
                PoolView {
                    start: start as int,
                    end: end as int,
                    network: network as int,
                    prefix: prefix as int,
                },
            ),
            Err(error) => pool_of(*endpoint) == Err::<PoolView, Seq<char>>(error.text()),
        },
{
    if is_blank(endpoint.node_id.as_str()) || is_blank(endpoint.interface_name.as_str()) {
        return Err(ValidationError::new("endpoint node and interface are required"));
    }
    if endpoint.count < 1 || endpoint.count > 4096 {
        return Err(ValidationError::new("endpoint pool count must be between 1 and 4096"));
    }
    let cidr = chars_of(endpoint.start_cidr.as_str());
    let slash: usize = find_char(cidr.as_slice(), '/', 0);
    if slash == cidr.len() {
        return Err(ValidationError::new("start_cidr must be IPv4/prefix"));
    }
    let start: u32 = match parse_ipv4_address(&cidr.as_slice()[0..slash]) {
        Some(address) => address,
        None => {
            return Err(ValidationError::new("start_cidr must be IPv4/prefix"));
        },
    };
    let prefix: u64 = match parse_decimal(&cidr.as_slice()[slash + 1..cidr.len()], 255) {
        Some(prefix) => prefix,
        None => {
            return Err(ValidationError::new("invalid IPv4 prefix"));
        },
    };
    if prefix < 1 || prefix > 30 {
        return Err(ValidationError::new("IPv4 prefix must be between 1 and 30"));
    }
    let size: u128 = power_of_two((32 - prefix) as u32);
    proof {
        vstd::arithmetic::power2::lemma_pow2_pos((32 - prefix) as nat);
        vstd::arithmetic::power2::lemma2_to64();
        vstd::arithmetic::power2::lemma_pow2_strictly_increases((32 - prefix) as nat, 32);
    }
    let block: u64 = size as u64;
    let offset: u64 = start as u64 % block;
    proof {
        vstd::arithmetic::div_mod::lemma_mod_decreases(start as nat, block as nat);
    }
    let network: u64 = start as u64 - offset;
    let end: u64 = start as u64 + endpoint.count as u64 - 1;
    if end > u32::MAX as u64 {
        return Err(ValidationError::new("IP pool overflows"));
    }
    if start as u64 <= network || end >= network + block - 1 {
        return Err(ValidationError::new("IP pool includes network/broadcast or leaves subnet"));
    }
    Ok((start, end as u32, network as u32, prefix as u8))
}

impl NetworkProfileDraft {
    /// Whether this profile can be used, or why it cannot.
    pub fn validate(&self) -> (r: Result<(), ValidationError>)
        ensures
            match r {
                Ok(_) => draft_problem(*self) is None,
                Err(error) => draft_problem(*self) == Some(error.text()),
            },
    {
        if is_blank(self.name.as_str()) {
            return Err(ValidationError::new("network profile name is required"));
        }
        if self.mtu < 576 || self.mtu > 9216 {
            return Err(ValidationError::new("MTU must be between 576 and 9216"));
        }
        if self.diagnostic_port == 0 {
            return Err(ValidationError::new("diagnostic_port must be non-zero"));
        }
        let client: (u32, u32, u32, u8) = match ipv4_range(&self.client_endpoint) {
            Ok(range) => range,
            Err(error) => {
                return Err(error);
            },
        };
        let server: (u32, u32, u32, u8) = match ipv4_range(&self.server_endpoint) {
            Ok(range) => range,
            Err(error) => {
                return Err(error);
            },
        };
        if client.2 != server.2 || client.3 != server.3 {
            return Err(
                ValidationError::new("client and server pools must use the same IPv4 subnet"),
            );
        }
        if client.0 <= server.1 && server.0 <= client.1 {
            return Err(ValidationError::new("client and server pools must not overlap"));
        }
        if self.client_endpoint.node_id == self.server_endpoint.node_id
            && self.client_endpoint.interface_name == self.server_endpoint.interface_name {
            return Err(
                ValidationError::new(
                    "client and server endpoints require different interfaces on the same node",
                ),
            );
        }
        Ok(())
    }
}

} // verus!
