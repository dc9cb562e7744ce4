//! Which scenarios and networks are valid.
use crate::domain::load::{greatest_target, greatest_target_is_greatest};
use crate::domain::network::{draft_problem, pool_of, EndpointProfile, NetworkProfileDraft};
use crate::domain::payload::{PayloadKind, PayloadMode, PayloadProfile};
use crate::domain::scenario::{is_host_port, scenario_problem, Protocol, Scenario, ScenarioPath};
use crate::domain::tls::{version_has_cipher, TlsProfile};
use crate::ip::{ipv4_text, ipv4_text_denotes_address};
use crate::text::{
    blank, decimal, decimal_number, decimals_denote_their_number, last_char, next_char,
};
use vstd::prelude::*;

verus! {

/// A payload can be sent: it has at most 64 MiB, and refers to an artifact exactly if it is a file.
/// Where none is given, so many bytes stand for it.
pub open spec fn is_sendable(given: Option<PayloadProfile>, bytes: int) -> bool {
    match given {
        None => bytes <= 64 * 1024 * 1024,
        Some(payload) => {
            &&& payload.length() <= 64 * 1024 * 1024
            &&& payload.artifact_id is Some <==> payload.kind == PayloadKind::File
        },
    }
}

/// A load can be generated: without stages there is a duration and a client; with stages there are at
/// most 50, each has a name and takes time, and one of them has a client.
pub open spec fn is_generable(s: Scenario) -> bool {
    let stages = s.load_stages@;
    if stages.len() == 0 {
        s.duration_secs >= 1 && s.virtual_clients >= 1
    } else {
        &&& stages.len() <= 50
        &&& forall|i: int|
            0 <= i < stages.len() ==> !blank((#[trigger] stages[i]).name@)
                && stages[i].duration_secs >= 1
        &&& exists|i: int| 0 <= i < stages.len() && (#[trigger] stages[i]).target_virtual_clients > 0
    }
}

/// TLS can be set up: the cipher suite, where one is chosen, belongs to the version; the server has
/// a name, a certificate and a key; and who verifies has a certificate authority.
pub open spec fn is_settable(tls: TlsProfile) -> bool {
    &&& tls.cipher_suite is Some ==> version_has_cipher(tls.version, tls.cipher_suite->0@)
    &&& !blank(tls.server_name@)
    &&& tls.server_cert_pem is Some && tls.server_cert_pem->0@.len() > 0
    &&& tls.server_key_pem is Some && tls.server_key_pem->0@.len() > 0
    &&& tls.verify_peer ==> tls.ca_pem is Some && tls.ca_pem->0@.len() > 0
}

/// A path can be taken: through a prepared network, or between two nodes by way of a proxy.
pub open spec fn is_passable(path: ScenarioPath) -> bool {
    match path {
        ScenarioPath::ManagedDirect { profile_revision_id, server_port } => profile_revision_id.value
            != 0 && server_port != 0,
        ScenarioPath::ExplicitProxy {
            client_node_id,
            client_bind_ip,
            server_node_id,
            server_listen_ip,
            server_port,
            proxy_addr,
        } => {
            &&& !blank(client_node_id@) && !blank(server_node_id@)
            &&& client_bind_ip is V4 && server_listen_ip is V4
            &&& server_port != 0
            &&& is_host_port(proxy_addr@)
        },
    }
}

/// A scenario is valid exactly if it is of the known version, its payloads can be sent, its capture is
/// named if it replays one, its load can be generated, its TLS settings can be set up if TLS is in use,
/// its path can be taken, and its protocol fits: no warm-up and no bare CONNECT, HTTP/2 within TLS with
/// 1 to 1000 streams at once, and over HTTP/1.1 one transaction for each connection unless it is kept.
pub proof fn valid_scenarios_can_be_run(s: Scenario)
    ensures
        scenario_problem(s) is None <==> {
            let http = s.protocol == Protocol::Http1 || s.protocol == Protocol::Http2;
            &&& s.version == 4
            &&& !blank(s.name@)
            &&& s.payload_mode == PayloadMode::CaptureReplay ==> s.capture_artifact_id is Some
            &&& is_sendable(
                s.request_payload,
                if http {
                    s.request.request_body_bytes as int
                } else {
                    s.tcp.tx_bytes as int
                },
            )
            &&& is_sendable(
                s.response_payload,
                if http {
                    s.request.response_body_bytes as int
                } else {
                    s.tcp.rx_bytes as int
                },
            )
            &&& is_generable(s)
            &&& s.tls.enabled ==> is_settable(s.tls)
            &&& s.warmup_secs == 0
            &&& s.protocol != Protocol::Connect
            &&& s.protocol == Protocol::Http2 ==> s.tls.enabled && 1
                <= s.http2.max_concurrent_streams <= 1000
            &&& s.protocol == Protocol::Http1 ==> s.request.keep_alive
                || s.request.transactions_per_connection == 1
            &&& is_passable(s.path)
        },
{
    let stages = s.load_stages@;
    if stages.len() > 0 {
        greatest_target_is_greatest(stages, stages.len() as int);
        if exists|i: int| 0 <= i < stages.len() && (#[trigger] stages[i]).target_virtual_clients > 0 {
            let i = choose|i: int|
                0 <= i < stages.len() && (#[trigger] stages[i]).target_virtual_clients > 0;
            assert(stages[i].target_virtual_clients <= greatest_target(
                stages,
                stages.len() as int,
            ));
        }
        if exists|i: int|
            0 <= i < stages.len() && crate::domain::scenario::is_bad_stage(stages[i]) {
            let i = choose|i: int|
                0 <= i < stages.len() && crate::domain::scenario::is_bad_stage(stages[i]);
            assert(blank(stages[i].name@) || stages[i].duration_secs == 0);
        } else {
            assert forall|i: int| 0 <= i < stages.len() implies !blank((#[trigger] stages[i]).name@)
                && stages[i].duration_secs >= 1 by {
                assert(!crate::domain::scenario::is_bad_stage(stages[i]));
            }
        }
    }
}

proof fn last_char_is(text: Seq<char>, c: char, at: int, end: int)
    requires
        0 <= at < end <= text.len(),
        text[at] == c,
        forall|i: int| at < i < end ==> text[i] != c,
    ensures
        last_char(text, c, end) == Some(at),
    decreases end - at,
{
    if at + 1 < end {
        last_char_is(text, c, at, end - 1);
    }
}

/// A host, a colon and a port make an address; a port is between 1 and 65535.
pub proof fn addresses_have_a_host_and_a_port(host: Seq<char>, port: int)
    requires
        0 <= port,
    ensures
        is_host_port(host + ":"@ + decimal(port)) == (host.len() > 0 && 1 <= port <= 65535),
{
    reveal_strlit(":");
    let text = host + ":"@ + decimal(port);
    let at = host.len() as int;
    assert(text =~= host + seq![':'] + decimal(port));
    decimals_denote_their_number(port, port);
    assert forall|i: int| at < i < text.len() implies text[i] != ':' by {
        assert(text[i] == decimal(port)[i - at - 1]);
    }
    last_char_is(text, ':', at, text.len() as int);
    assert(text.subrange(at + 1, text.len() as int) =~= decimal(port));
    if port <= 65535 {
        decimals_denote_their_number(port, 65535);
    } else {
        assert(decimal_number(decimal(port), 65535) is None);
    }
}

/// The first position with a character is where it stands and does not stand before.
pub proof fn next_char_at(text: Seq<char>, c: char, start: int, at: int)
    requires
        0 <= start <= at < text.len(),
        text[at] == c,
        forall|i: int| start <= i < at ==> text[i] != c,
    ensures
        next_char(text, c, start) == at,
    decreases at - start,
{
    if start < at {
        next_char_at(text, c, start + 1, at);
    }
}

/// The text of an address has no slash.
pub proof fn address_text_has_no_slash(address: u32)
    ensures
        forall|i: int|
            0 <= i < ipv4_text(address as int).len() ==> #[trigger] ipv4_text(address as int)[i]
                != '/',
{
    let text = ipv4_text(address as int);
    let w = decimal((address / 0x100_0000) as int);
    let x = decimal(((address / 0x1_0000) % 0x100) as int);
    let y = decimal(((address / 0x100) % 0x100) as int);
    let z = decimal((address % 0x100) as int);
    decimals_denote_their_number((address / 0x100_0000) as int, u32::MAX as int);
    decimals_denote_their_number(((address / 0x1_0000) % 0x100) as int, u32::MAX as int);
    decimals_denote_their_number(((address / 0x100) % 0x100) as int, u32::MAX as int);
    decimals_denote_their_number((address % 0x100) as int, u32::MAX as int);
    assert(text =~= w + seq!['.'] + x + seq!['.'] + y + seq!['.'] + z);
    assert forall|i: int| 0 <= i < text.len() implies #[trigger] text[i] != '/' by {
        let a = w.len() as int;
        let b = a + 1 + x.len();
        let c = b + 1 + y.len();
        if i < a {
            assert(text[i] == w[i]);
        } else if a < i < b {
            assert(text[i] == x[i - a - 1]);
        } else if b < i < c {
            assert(text[i] == y[i - b - 1]);
        } else if i > c {
            assert(text[i] == z[i - c - 1]);
        }
    }
}

/// The addresses of an end that is written as an address and a prefix begin with that address.
pub proof fn pools_begin_with_their_address(endpoint: EndpointProfile, start: u32, prefix: int)
    requires
        0 <= prefix <= 255,
        endpoint.start_cidr@ == ipv4_text(start as int) + "/"@ + decimal(prefix),
    ensures
        pool_of(endpoint) is Ok ==> {
            let pool = pool_of(endpoint)->Ok_0;
            &&& pool.start == start
            &&& pool.end == start + endpoint.count - 1
            &&& pool.prefix == prefix
            &&& 1 <= prefix <= 30
            &&& 1 <= endpoint.count <= 4096
            &&& !blank(endpoint.node_id@)
            &&& !blank(endpoint.interface_name@)
        },
{
    reveal_strlit("/");
    let cidr = endpoint.start_cidr@;
    let at = ipv4_text(start as int).len() as int;
    assert(cidr =~= ipv4_text(start as int) + seq!['/'] + decimal(prefix));
    address_text_has_no_slash(start);
    assert forall|i: int| 0 <= i < at implies cidr[i] != '/' by {
        assert(cidr[i] == ipv4_text(start as int)[i]);
    }
    next_char_at(cidr, '/', 0, at);
    assert(cidr.subrange(0, at) =~= ipv4_text(start as int));
    assert(cidr.subrange(at + 1, cidr.len() as int) =~= decimal(prefix));
    ipv4_text_denotes_address(start);
    decimals_denote_their_number(prefix, 255);
}

/// A network profile is valid exactly if it has a name, an MTU from 576 to 9216 and a port for
/// diagnosis, and its two pools are valid, in one subnet, apart from each other and not on one
/// interface.
pub proof fn valid_networks_can_be_made(draft: NetworkProfileDraft)
    ensures
        draft_problem(draft) is None <==> {
            &&& !blank(draft.name@)
            &&& 576 <= draft.mtu <= 9216
            &&& draft.diagnostic_port != 0
            &&& pool_of(draft.client_endpoint) is Ok
            &&& pool_of(draft.server_endpoint) is Ok
            &&& {
                let client = pool_of(draft.client_endpoint)->Ok_0;
                let server = pool_of(draft.server_endpoint)->Ok_0;
                &&& client.network == server.network
                &&& client.prefix == server.prefix
                &&& client.end < server.start || server.end < client.start
            }
            &&& !(draft.client_endpoint.node_id@ == draft.server_endpoint.node_id@
                && draft.client_endpoint.interface_name@ == draft.server_endpoint.interface_name@)
        },
{
}

} // verus!
