//! What is replayed is what was captured.
use crate::agent::replay::{
    http2_turns, proxied_origin, replayed, replayed_flows, rewritten, transaction_turns, ReplayRole,
};
use crate::capture::analysis::FlowView;
use crate::capture::packet::Direction;
use crate::domain::scenario::{Protocol, Scenario, ScenarioPath};
use crate::ip::ip_text;
use crate::text::decimal;
use vstd::prelude::*;

verus! {

/// The transactions of a flow are replayed in their order: the client sends each request, for the
/// host and the way that the scenario says, and the server answers with the response that was
/// captured.
pub proof fn transactions_are_replayed_in_order(
    list: Seq<(Seq<u8>, Seq<u8>)>,
    host: Seq<char>,
    origin: Option<Seq<char>>,
    n: int,
)
    requires
        0 <= n <= list.len(),
    ensures
        transaction_turns(list, host, origin, n).len() == 2 * n,
        forall|i: int|
            0 <= i < n ==> transaction_turns(list, host, origin, n)[2 * i] == (
                Direction::ClientToServer,
                rewritten((#[trigger] list[i]).0, host, origin),
            ) && transaction_turns(list, host, origin, n)[2 * i + 1] == (
                Direction::ServerToClient,
                list[i].1,
            ),
    decreases n,
{
    if n > 0 {
        transactions_are_replayed_in_order(list, host, origin, n - 1);
        let before = transaction_turns(list, host, origin, n - 1);
        let after = transaction_turns(list, host, origin, n);
        assert forall|i: int| 0 <= i < n implies after[2 * i] == (
            Direction::ClientToServer,
            rewritten((#[trigger] list[i]).0, host, origin),
        ) && after[2 * i + 1] == (Direction::ServerToClient, list[i].1) by {
            if i < n - 1 {
                assert(after[2 * i] == before[2 * i]);
                assert(after[2 * i + 1] == before[2 * i + 1]);
            }
        }
    }
}

/// Over HTTP/2 what the requests and the responses carry is replayed in their order, as it was.
pub proof fn bodies_are_replayed_in_order(list: Seq<(Seq<u8>, Seq<u8>)>, n: int)
    requires
        0 <= n <= list.len(),
    ensures
        http2_turns(list, n).len() == 2 * n,
        forall|i: int|
            0 <= i < n ==> http2_turns(list, n)[2 * i] == (
                Direction::ClientToServer,
                (#[trigger] list[i]).0,
            ) && http2_turns(list, n)[2 * i + 1] == (Direction::ServerToClient, list[i].1),
    decreases n,
{
    if n > 0 {
        bodies_are_replayed_in_order(list, n - 1);
        let before = http2_turns(list, n - 1);
        let after = http2_turns(list, n);
        assert forall|i: int| 0 <= i < n implies after[2 * i] == (
            Direction::ClientToServer,
            (#[trigger] list[i]).0,
        ) && after[2 * i + 1] == (Direction::ServerToClient, list[i].1) by {
            if i < n - 1 {
                assert(after[2 * i] == before[2 * i]);
                assert(after[2 * i + 1] == before[2 * i + 1]);
            }
        }
    }
}

/// What a flow is replayed as goes by the protocol: over HTTP/1.1 and HTTP/2 its transactions of that
/// protocol, and not at all where it has none; over plain TCP all that it said.
pub proof fn flows_are_replayed_by_protocol(flow: FlowView, scenario: Scenario, role: ReplayRole)
    ensures
        scenario.protocol == Protocol::Http1 ==> {
            &&& (replayed(flow, scenario, role) is None <==> flow.http_transactions.len() == 0)
            &&& flow.http_transactions.len() > 0 ==> replayed(flow, scenario, role)->0.len() == 2
                * flow.http_transactions.len()
        },
        scenario.protocol == Protocol::Http2 ==> {
            &&& (replayed(flow, scenario, role) is None <==> flow.http2_transactions.len() == 0)
            &&& flow.http2_transactions.len() > 0 ==> replayed(flow, scenario, role)->0.len() == 2
                * flow.http2_transactions.len()
        },
        scenario.protocol != Protocol::Http1 && scenario.protocol != Protocol::Http2 ==> replayed(
            flow,
            scenario,
            role,
        ) == Some(flow.turns),
{
    transactions_are_replayed_in_order(
        flow.http_transactions,
        scenario.request.host@,
        proxied_origin(scenario, role),
        flow.http_transactions.len() as int,
    );
    bodies_are_replayed_in_order(flow.http2_transactions, flow.http2_transactions.len() as int);
}

/// Requests name the server in full only where a client sends them in the clear to a proxy: not on
/// the side of the server, not within TLS, and not where there is no proxy.
pub proof fn only_proxies_get_absolute_targets(scenario: Scenario, role: ReplayRole)
    ensures
        proxied_origin(scenario, ReplayRole::Server) is None,
        scenario.tls.enabled ==> proxied_origin(scenario, role) is None,
        scenario.path is ManagedDirect ==> proxied_origin(scenario, role) is None,
        !scenario.tls.enabled ==> match scenario.path {
            ScenarioPath::ExplicitProxy { server_listen_ip, server_port, .. } => proxied_origin(
                scenario,
                ReplayRole::Client,
            ) == Some(ip_text(server_listen_ip) + ":"@ + decimal(server_port as int)),
            _ => true,
        },
{
}

/// Every flow that can be replayed is, in the order of the capture, and no other.
pub proof fn replayable_flows_are_replayed(
    flows: Seq<FlowView>,
    scenario: Scenario,
    role: ReplayRole,
    n: int,
    i: int,
)
    requires
        0 <= i < n <= flows.len(),
    ensures
        replayed_flows(flows, scenario, role, n).len() <= n,
        replayed(flows[i], scenario, role) is Some ==> replayed_flows(
            flows,
            scenario,
            role,
            n,
        ).contains(replayed(flows[i], scenario, role)->0),
        (forall|k: int| 0 <= k < n ==> replayed(#[trigger] flows[k], scenario, role) is Some)
            ==> replayed_flows(flows, scenario, role, n).len() == n && replayed_flows(
            flows,
            scenario,
            role,
            n,
        )[i] == replayed(flows[i], scenario, role)->0,
    decreases n,
{
    let before = replayed_flows(flows, scenario, role, n - 1);
    let after = replayed_flows(flows, scenario, role, n);
    if i < n - 1 {
        replayable_flows_are_replayed(flows, scenario, role, n - 1, i);
        if replayed(flows[i], scenario, role) is Some {
            let turns = replayed(flows[i], scenario, role)->0;
            let k = choose|k: int| 0 <= k < before.len() && before[k] == turns;
            assert(after[k] == turns);
        }
    } else {
        if n > 1 {
            replayable_flows_are_replayed(flows, scenario, role, n - 1, 0);
        }
        match replayed(flows[i], scenario, role) {
            Some(turns) => {
                assert(after[after.len() - 1] == turns);
            },
            None => {},
        }
    }
    if forall|k: int| 0 <= k < n ==> replayed(#[trigger] flows[k], scenario, role) is Some {
        assert(replayed(flows[n - 1], scenario, role) is Some);
    }
}

} // verus!
