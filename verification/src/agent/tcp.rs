//! Plain TCP traffic and the replay of captured turns.
use crate::agent::replay::{flow_turns, flows_problem, valid_flows_are_told_apart, ReplayRole, Turns};
use crate::bytes::{occurs_at, starts_with};
use crate::capture::packet::Direction;
use crate::capture::segments::{turn_views, ReplayTurn};
use crate::domain::scenario::Protocol;
use crate::text::copy;
use vstd::prelude::*;

verus! {

/// What one side does in a turn.
#[derive(Debug, Clone, Copy, PartialEq, Eq, Structural)]
pub struct TurnStep {
    /// Whether the side sends the payload; otherwise it receives as many bytes.
    pub sends: bool,
    /// How many bytes go over the connection.
    pub bytes: usize,
    /// Whether a transaction is complete after the turn.
    pub completes: bool,
}

/// What one side does in a turn: the client sends what goes to the server, and the server what
/// goes to the client. Over HTTP/1.1 what goes to the client completes a transaction.
pub open spec fn step_of(
    direction: Direction,
    length: int,
    role: ReplayRole,
    protocol: Protocol,
) -> TurnStep {
    TurnStep {
        sends: (direction == Direction::ClientToServer) == (role == ReplayRole::Client),
        bytes: length as usize,
        completes: direction == Direction::ServerToClient && protocol == Protocol::Http1,
    }
}

/// What one side does in a turn.
pub fn turn_step(turn: &ReplayTurn, role: ReplayRole, protocol: Protocol) -> (r: TurnStep)
    ensures
        r == step_of(turn.direction, turn.payload@.len() as int, role, protocol),
{
    let to_server: bool = turn.direction == Direction::ClientToServer;
    TurnStep {
        sends: to_server == (role == ReplayRole::Client),
        bytes: turn.payload.len(),
        completes: !to_server && protocol == Protocol::Http1,
    }
}

/// In every turn one side sends exactly the bytes that the other receives, and both agree whether
/// a transaction is complete.
pub proof fn replay_peers_mirror_each_other(direction: Direction, length: int, protocol: Protocol)
    ensures
        ({
            let client = step_of(direction, length, ReplayRole::Client, protocol);
            let server = step_of(direction, length, ReplayRole::Server, protocol);
            &&& client.sends == !server.sends
            &&& client.bytes == server.bytes
            &&& client.completes == server.completes
        }),
{
}

/// The first `n` candidates among the flows: those whose first turn starts with the bytes that
/// were received.
pub open spec fn candidates_of(flows: Seq<Turns>, received: Seq<u8>, n: int) -> Seq<int>
    decreases n,
{
    if n <= 0 {
        Seq::empty()
    } else if occurs_at(flows[n - 1][0].1, received, 0) {
        candidates_of(flows, received, n - 1).push(n - 1)
    } else {
        candidates_of(flows, received, n - 1)
    }
}

/// What a responder knows of the flow that it is in.
#[derive(Debug, Clone, Copy, PartialEq, Eq, Structural)]
pub enum Detection {
    /// More than one flow, or more of one flow, is possible.
    More,
    /// It is this flow, and its first turn is complete.
    Found(usize),
    /// It is none of the flows.
    NoMatch,
}

/// What a responder knows after these bytes.
pub open spec fn detection_of(flows: Seq<Turns>, received: Seq<u8>) -> Detection {
    let candidates = candidates_of(flows, received, flows.len() as int);
    if candidates.len() == 0 {
        Detection::NoMatch
    } else if candidates.len() == 1 && flows[candidates[0]][0].1.len() == received.len() {
        Detection::Found(candidates[0] as usize)
    } else {
        Detection::More
    }
}

/// What is said where no flow starts with the received bytes.
pub fn no_match_message() -> (r: String)
    ensures
        r@ == "first client turn does not match any capture flow"@,
{
    copy("first client turn does not match any capture flow")
}

/// Looks which flow starts with the bytes that were received.
pub fn detect_flow(flows: &Vec<Vec<ReplayTurn>>, received: &[u8]) -> (r: Detection)
    requires
        forall|i: int| 0 <= i < flows@.len() ==> (#[trigger] flows@[i])@.len() > 0,
    ensures
        r == detection_of(flow_turns(flows@), received@),
{
    let ghost views = flow_turns(flows@);
    let mut count: usize = 0;
    let mut first: usize = 0;
    let mut i: usize = 0;
    while i < flows.len()
        invariant
            views == flow_turns(flows@),
            forall|k: int| 0 <= k < flows@.len() ==> (#[trigger] flows@[k])@.len() > 0,
            i <= flows@.len(),
            count <= i,
            count == candidates_of(views, received@, i as int).len(),
            count > 0 ==> first < i && candidates_of(views, received@, i as int)[0] == first,
        decreases flows@.len() - i,
    {
        assert(views[i as int] == turn_views(flows@[i as int]@));
        assert(views[i as int][0] == flows@[i as int]@[0]@);
        if starts_with(flows[i][0].payload.as_slice(), received) {
            if count == 0 {
                first = i;
            }
            count += 1;
        }
        i += 1;
    }
    if count == 0 {
        return Detection::NoMatch;
    }
    assert(views[first as int] == turn_views(flows@[first as int]@));
    assert(views[first as int][0] == flows@[first as int]@[0]@);
    if count == 1 && flows[first][0].payload.len() == received.len() {
        return Detection::Found(first);
    }
    Detection::More
}

proof fn only_candidate(flows: Seq<Turns>, i: int, n: int)
    requires
        flows_problem(flows, 0) is None,
        0 <= i < flows.len(),
        0 <= n <= flows.len(),
    ensures
        candidates_of(flows, flows[i][0].1, n) == if i < n {
            seq![i]
        } else {
            Seq::<int>::empty()
        },
    decreases n,
{
    if n > 0 {
        only_candidate(flows, i, n - 1);
        let k = n - 1;
        if k == i {
            assert(flows[i][0].1.subrange(0, flows[i][0].1.len() as int) =~= flows[i][0].1);
            assert(Seq::<int>::empty().push(i) =~= seq![i]);
        } else {
            valid_flows_are_told_apart(flows, k, i);
        }
    }
}

/// Among the flows of a valid replay, a responder that has received the whole first turn of a
/// flow knows that it is in that flow.
pub proof fn first_turns_are_detected(flows: Seq<Turns>, i: int)
    requires
        flows_problem(flows, 0) is None,
        0 <= i < flows.len() <= usize::MAX,
    ensures
        detection_of(flows, flows[i][0].1) == Detection::Found(i as usize),
{
    only_candidate(flows, i, flows.len() as int);
}

} // verus!
