//! What is done on several nodes is done on each of them.
use crate::control::error::ApiErrorView;
use crate::control::network::{
    earlier, expiry_of, nodes_of, operation_after, operation_start, teardown_after, OperationStep,
    OperationView, TeardownStep, TeardownView,
};
use crate::control::pause::{pausing_after, pausing_start, PauseStep, PausingView};
use crate::control::results::digest_in;
use crate::control::runs::agents_of;
use crate::control::start::{is_reachable, start_after, start_moment, RunStartView, StartStep};
use crate::json::{member, number_member, text_member, JsonView};
use crate::text::text_before;
use vstd::prelude::*;

verus! {

/// A run being paused after `k` steps that went well.
pub open spec fn paused_so_far(agents: Seq<Seq<char>>, paused: bool, k: int) -> PausingView
    decreases k,
{
    if k <= 0 {
        pausing_start(agents, paused)
    } else {
        pausing_after(paused_so_far(agents, paused, k - 1), None)
    }
}

/// Every agent of a run is told, one after the other, before the run counts as paused or as going
/// on.
pub proof fn all_agents_are_told(agents: Seq<Seq<char>>, paused: bool, k: int)
    requires
        0 <= k <= agents.len() + 1,
    ensures
        ({
            let s = paused_so_far(agents, paused, k);
            &&& s.agents == agents
            &&& s.paused == paused
            &&& s.error is None
            &&& k < agents.len() ==> s.step == PauseStep::Command && s.next == k
            &&& k == agents.len() ==> s.step == PauseStep::Record
            &&& k > agents.len() ==> s.step == PauseStep::Done
        }),
    decreases k,
{
    if k > 0 {
        all_agents_are_told(agents, paused, k - 1);
    }
}

/// Where an agent does not do as it is told, the run is not recorded as if it had: it goes no
/// further, and the reason is kept.
pub proof fn failed_pauses_go_no_further(
    agents: Seq<Seq<char>>,
    paused: bool,
    k: int,
    error: ApiErrorView,
    later: Option<ApiErrorView>,
)
    requires
        0 <= k < agents.len(),
    ensures
        ({
            let s = pausing_after(paused_so_far(agents, paused, k), Some(error));
            &&& s.step == PauseStep::Failed
            &&& s.error == Some(error)
            &&& pausing_after(s, later) == s
        }),
{
    all_agents_are_told(agents, paused, k);
}

/// A change of the network after `k` steps that went well.
pub open spec fn applied_so_far(nodes: Seq<Seq<char>>, k: int) -> OperationView
    decreases k,
{
    if k <= 0 {
        operation_start(nodes)
    } else {
        operation_after(applied_so_far(nodes, k - 1), None)
    }
}

/// A change is staged on every node, then committed on every node, in their order, and then it is
/// recorded as being in effect.
pub proof fn changes_reach_all_nodes(nodes: Seq<Seq<char>>, k: int)
    requires
        nodes.len() > 0,
        0 <= k <= 2 * nodes.len() + 1,
    ensures
        ({
            let n = nodes.len() as int;
            let s = applied_so_far(nodes, k);
            &&& s.nodes == nodes
            &&& s.error is None
            &&& s.undone == 0
            &&& !s.committing
            &&& k < n ==> s.step == OperationStep::Stage && s.next == k && s.staged == k
            &&& k >= n ==> s.staged == n
            &&& n <= k < 2 * n ==> s.step == OperationStep::Commit && s.next == k - n
            &&& k == 2 * n ==> s.step == OperationStep::RecordSuccess
            &&& k > 2 * n ==> s.step == OperationStep::Done
        }),
    decreases k,
{
    if k > 0 {
        changes_reach_all_nodes(nodes, k - 1);
    }
}

/// A change that failed on a node, after `j` more steps with these outcomes.
pub open spec fn failed_so_far(
    s: OperationView,
    error: ApiErrorView,
    outcomes: spec_fn(int) -> Option<ApiErrorView>,
    j: int,
) -> OperationView
    decreases j,
{
    if j <= 0 {
        operation_after(s, Some(error))
    } else {
        operation_after(failed_so_far(s, error, outcomes, j - 1), outcomes(j - 1))
    }
}

/// A change that cannot be staged on a node is taken back on all those where it was, whether that
/// goes well or not, and its failure is recorded with the first reason.
pub proof fn failed_changes_are_taken_back(
    nodes: Seq<Seq<char>>,
    k: int,
    error: ApiErrorView,
    outcomes: spec_fn(int) -> Option<ApiErrorView>,
    j: int,
)
    requires
        0 <= j <= k < nodes.len(),
    ensures
        ({
            let s = failed_so_far(applied_so_far(nodes, k), error, outcomes, j);
            &&& s.error == Some(error)
            &&& s.staged == k
            &&& s.undone == j
            &&& !s.committing
            &&& s.nodes == nodes
            &&& j < k ==> s.step == OperationStep::Rollback
            &&& j == k ==> s.step == OperationStep::RecordFailure
        }),
    decreases j,
{
    changes_reach_all_nodes(nodes, k);
    if j > 0 {
        failed_changes_are_taken_back(nodes, k, error, outcomes, j - 1);
    }
}

/// A change that cannot be committed on a node is taken back on all nodes.
pub proof fn uncommitted_changes_are_taken_back(
    nodes: Seq<Seq<char>>,
    k: int,
    error: ApiErrorView,
    outcomes: spec_fn(int) -> Option<ApiErrorView>,
    j: int,
)
    requires
        0 <= k < nodes.len(),
        0 <= j <= nodes.len(),
    ensures
        ({
            let n = nodes.len() as int;
            let s = failed_so_far(applied_so_far(nodes, n + k), error, outcomes, j);
            &&& s.error == Some(error)
            &&& s.undone == j
            &&& s.staged == n
            &&& s.committing
            &&& s.nodes == nodes
            &&& j < n ==> s.step == OperationStep::Rollback
            &&& j == n ==> s.step == OperationStep::Failed
        }),
    decreases j,
{
    changes_reach_all_nodes(nodes, nodes.len() + k);
    if j > 0 {
        uncommitted_changes_are_taken_back(nodes, k, error, outcomes, j - 1);
    }
}

/// A teardown after `k` steps that went well.
pub open spec fn torn_down_so_far(nodes: Seq<Seq<char>>, k: int) -> TeardownView
    decreases k,
{
    if k <= 0 {
        TeardownView { nodes, next: 0, step: TeardownStep::Node, error: None }
    } else {
        teardown_after(torn_down_so_far(nodes, k - 1), None)
    }
}

/// A network is torn down on every node before that is recorded.
pub proof fn networks_are_torn_down_everywhere(nodes: Seq<Seq<char>>, k: int)
    requires
        nodes.len() > 0,
        0 <= k <= nodes.len() + 1,
    ensures
        ({
            let s = torn_down_so_far(nodes, k);
            &&& s.nodes == nodes
            &&& s.error is None
            &&& k < nodes.len() ==> s.step == TeardownStep::Node && s.next == k
            &&& k == nodes.len() ==> s.step == TeardownStep::RecordSuccess
            &&& k > nodes.len() ==> s.step == TeardownStep::Done
        }),
    decreases k,
{
    if k > 0 {
        networks_are_torn_down_everywhere(nodes, k - 1);
    }
}

proof fn one_text_is_before_the_other(a: Seq<char>, b: Seq<char>, i: int)
    requires
        0 <= i,
        i <= a.len(),
        i <= b.len(),
        forall|j: int| 0 <= j < i ==> a[j] == b[j],
        a != b,
    ensures
        text_before(a, b, i) != text_before(b, a, i),
    decreases a.len() - i,
{
    if i < a.len() && i < b.len() {
        if a[i] == b[i] {
            one_text_is_before_the_other(a, b, i + 1);
        }
    } else if a.len() == b.len() {
        assert(a =~= b);
    }
}

/// A change concerns the nodes of both ends and no others, each once, and in the same order whichever
/// of them is the client.
pub proof fn changes_concern_both_nodes(client: Seq<char>, server: Seq<char>, node: Seq<char>)
    ensures
        nodes_of(client, server).contains(node) <==> node == client || node == server,
        nodes_of(client, server).no_duplicates(),
        nodes_of(client, server) == nodes_of(server, client),
{
    let nodes = nodes_of(client, server);
    if client != server {
        one_text_is_before_the_other(client, server, 0);
        assert(nodes[0] == client && nodes[1] == server || nodes[0] == server && nodes[1] == client);
    } else {
        assert(nodes[0] == client);
    }
}

/// A run has the agents of both ends and no others, each once.
pub proof fn runs_have_both_agents(client: Seq<char>, server: Seq<char>, agent: Seq<char>)
    ensures
        agents_of(client, server).contains(agent) <==> agent == client || agent == server,
        agents_of(client, server).no_duplicates(),
{
    let agents = agents_of(client, server);
    assert(agents[0] == client);
    if client != server {
        assert(agents[1] == server);
    }
}

/// A digest is that of the first sample of an end that gives one.
pub proof fn digests_are_those_of_their_end(
    samples: Seq<JsonView>,
    role: int,
    field: Seq<char>,
    from: int,
    i: int,
    metrics: JsonView,
    digest: Seq<char>,
)
    requires
        0 <= from <= i < samples.len(),
        number_member(samples[i], "role"@) == Some(role),
        member(samples[i], "metrics"@) == Some(metrics),
        text_member(metrics, field) == Some(digest),
        forall|j: int|
            from <= j < i ==> number_member(#[trigger] samples[j], "role"@) != Some(role) || member(
                samples[j],
                "metrics"@,
            ) is None,
    ensures
        digest_in(samples, role, field, from) == Some(digest),
    decreases i - from,
{
    if from < i {
        assert(number_member(samples[from], "role"@) != Some(role) || member(
            samples[from],
            "metrics"@,
        ) is None);
        digests_are_those_of_their_end(samples, role, field, from + 1, i, metrics, digest);
    }
}

/// The start of a run after `k` steps that went well.
pub open spec fn started_so_far(s: RunStartView, k: int) -> RunStartView
    decreases k,
{
    if k <= 0 {
        s
    } else {
        start_after(started_so_far(s, k - 1), None)
    }
}

/// A run whose artifacts were sent to each of its agents, once each, is prepared at both ends and
/// then started at both ends.
pub proof fn runs_are_prepared_and_started(s: RunStartView)
    requires
        s.step == StartStep::SendToClient,
    ensures
        ({
            let sent = if s.same_agent {
                1int
            } else {
                2
            };
            &&& !s.same_agent ==> started_so_far(s, 1).step == StartStep::SendToServer
            &&& started_so_far(s, sent).step == StartStep::PrepareClient
            &&& started_so_far(s, sent + 1).step == StartStep::PrepareServer
            &&& started_so_far(s, sent + 2).step == StartStep::StartClient
            &&& started_so_far(s, sent + 3).step == StartStep::StartServer
            &&& started_so_far(s, sent + 4).step == StartStep::MarkRunning
            &&& started_so_far(s, sent + 5).step == StartStep::Done
            &&& started_so_far(s, sent + 5).error == s.error
        }),
{
    reveal_with_fuel(started_so_far, 9);
}

/// A run that fails before it was started anywhere is recorded as failed and stopped nowhere.
pub proof fn unstarted_runs_are_only_recorded(s: RunStartView, error: ApiErrorView)
    requires
        s.step == StartStep::SendToClient || s.step == StartStep::SendToServer || s.step
            == StartStep::PrepareClient || s.step == StartStep::PrepareServer,
    ensures
        start_after(s, Some(error)).step == StartStep::RecordFailure,
        start_after(s, Some(error)).error == Some(error),
        start_after(start_after(s, Some(error)), None).step == StartStep::Failed,
        start_after(start_after(s, Some(error)), None).error == Some(error),
{
}

/// A plan can be applied for five minutes, to the nanosecond.
pub proof fn plans_last_five_minutes(secs: i64, nanos: u32)
    requires
        0 <= secs < 0x1_0000_0000_0000,
        0 < nanos,
    ensures
        !earlier(expiry_of((secs, nanos)), ((secs + 300) as i64, nanos)),
        earlier(expiry_of((secs, (nanos - 1) as u32)), ((secs + 300) as i64, nanos)),
        earlier(expiry_of((secs, nanos)), ((secs + 301) as i64, 0)),
{
}

/// An agent can be reached that was heard of within fifteen seconds, and none of which nothing was
/// heard.
pub proof fn agents_are_reachable_for_fifteen_seconds(seen: i64)
    requires
        0 <= seen < 0x1_0000_0000_0000,
    ensures
        is_reachable(Some(seen), (seen + 15_000) as i64),
        !is_reachable(Some(seen), (seen + 15_001) as i64),
        !is_reachable(None, seen),
{
}

/// A run is to start one second after the first end is told, and then it stays at that.
pub proof fn runs_start_a_second_later(s: RunStartView, now: i64, time: i64)
    ensures
        s.start_at is None ==> start_moment(s, now) == now + 1000,
        start_moment(RunStartView { start_at: Some(time), ..s }, now) == time,
{
}

} // verus!
