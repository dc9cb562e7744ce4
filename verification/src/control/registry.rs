//! The agents that are connected.
use crate::id::Uuid;
use crate::text::same_text;
use vstd::prelude::*;

verus! {

/// For how many milliseconds an agent counts as online after it was last heard of.
pub const ONLINE_MS: i64 = 15_000;

/// A connection of an agent. The generation tells it from other connections of the same agent.
#[derive(Debug, Clone, PartialEq, Eq)]
pub struct AgentSession {
    pub id: String,
    pub instance_id: String,
    pub generation: Uuid,
    pub hostname: String,
    pub interfaces: Vec<String>,
    pub inventory_json: String,
    pub last_seen_ms: i64,
}

/// The agents that are connected. No agent is there twice.
#[derive(Debug, Clone, PartialEq, Eq)]
pub struct Registry {
    pub sessions: Vec<AgentSession>,
}

impl Default for Registry {
    fn default() -> (r: Registry)
        ensures
            r.sessions@.len() == 0,
            distinct(r.sessions@),
    {
        Registry { sessions: Vec::new() }
    }
}

/// Where an agent is in a list, from `from` on.
pub open spec fn session_at(sessions: Seq<AgentSession>, id: Seq<char>, from: int) -> Option<int>
    decreases sessions.len() - from,
{
    if from >= sessions.len() {
        None
    } else if sessions[from].id@ == id {
        Some(from)
    } else {
        session_at(sessions, id, from + 1)
    }
}

/// The connection of an agent.
pub open spec fn session_of(sessions: Seq<AgentSession>, id: Seq<char>) -> Option<AgentSession> {
    match session_at(sessions, id, 0) {
        Some(i) => Some(sessions[i]),
        None => None,
    }
}

/// No agent is in a list twice.
pub open spec fn distinct(sessions: Seq<AgentSession>) -> bool {
    forall|i: int, j: int|
        0 <= i < j < sessions.len() ==> (#[trigger] sessions[i]).id@ != (#[trigger] sessions[j]).id@
}

/// The list with a connection of an agent, in place of an earlier one of the same agent.
pub open spec fn with_session(sessions: Seq<AgentSession>, session: AgentSession) -> Seq<
    AgentSession,
> {
    match session_at(sessions, session.id@, 0) {
        Some(i) => sessions.update(i, session),
        None => sessions.push(session),
    }
}

/// An agent has this connection.
pub open spec fn is_current(sessions: Seq<AgentSession>, id: Seq<char>, generation: Uuid) -> bool {
    session_of(sessions, id) matches Some(session) && session.generation == generation
}

/// The list after a connection of an agent has ended. A later connection stays.
pub open spec fn without_session(sessions: Seq<AgentSession>, id: Seq<char>, generation: Uuid) -> Seq<
    AgentSession,
> {
    if is_current(sessions, id, generation) {
        sessions.remove(session_at(sessions, id, 0)->0)
    } else {
        sessions
    }
}

/// The list after an agent was heard of over a connection. An earlier connection counts no more.
pub open spec fn with_heartbeat(
    sessions: Seq<AgentSession>,
    id: Seq<char>,
    generation: Uuid,
    now: i64,
) -> Seq<AgentSession> {
    if is_current(sessions, id, generation) {
        let i = session_at(sessions, id, 0)->0;
        sessions.update(i, AgentSession { last_seen_ms: now, ..sessions[i] })
    } else {
        sessions
    }
}

proof fn found_session(sessions: Seq<AgentSession>, id: Seq<char>, from: int)
    requires
        0 <= from,
    ensures
        match session_at(sessions, id, from) {
            Some(i) => from <= i < sessions.len() && sessions[i].id@ == id,
            None => forall|i: int| from <= i < sessions.len() ==> (#[trigger] sessions[i]).id@ != id,
        },
    decreases sessions.len() - from,
{
    if from < sessions.len() && sessions[from].id@ != id {
        found_session(sessions, id, from + 1);
    }
}

proof fn only_session(sessions: Seq<AgentSession>, id: Seq<char>, i: int)
    requires
        distinct(sessions),
        0 <= i < sessions.len(),
        sessions[i].id@ == id,
    ensures
        session_at(sessions, id, 0) == Some(i),
{
    found_session(sessions, id, 0);
}

/// A new connection of an agent takes the place of an earlier one, and other agents keep theirs.
/// No agent is then there twice.
pub proof fn newer_connections_replace_older(
    sessions: Seq<AgentSession>,
    session: AgentSession,
    other: Seq<char>,
)
    requires
        distinct(sessions),
    ensures
        distinct(with_session(sessions, session)),
        session_of(with_session(sessions, session), session.id@) == Some(session),
        other != session.id@ ==> session_of(with_session(sessions, session), other) == session_of(
            sessions,
            other,
        ),
{
    let after = with_session(sessions, session);
    found_session(sessions, session.id@, 0);
    let at = match session_at(sessions, session.id@, 0) {
        Some(i) => i,
        None => sessions.len() as int,
    };
    assert(after[at] == session);
    only_session(after, session.id@, at);
    if other != session.id@ {
        found_session(sessions, other, 0);
        found_session(after, other, 0);
        match session_at(sessions, other, 0) {
            Some(i) => {
                assert(after[i] == sessions[i]);
                only_session(after, other, i);
            },
            None => {},
        }
    }
}

/// The end of a connection removes its agent only if it has no later connection. Other agents keep
/// theirs.
pub proof fn only_the_last_connection_counts(
    sessions: Seq<AgentSession>,
    id: Seq<char>,
    generation: Uuid,
    other: Seq<char>,
)
    requires
        distinct(sessions),
    ensures
        ({
            let after = without_session(sessions, id, generation);
            &&& distinct(after)
            &&& is_current(sessions, id, generation) ==> session_of(after, id) is None
            &&& !is_current(sessions, id, generation) ==> after == sessions
            &&& other != id ==> session_of(after, other) == session_of(sessions, other)
        }),
{
    if is_current(sessions, id, generation) {
        found_session(sessions, id, 0);
        let at = session_at(sessions, id, 0)->0;
        let after = without_session(sessions, id, generation);
        found_session(after, id, 0);
        assert forall|i: int, j: int| 0 <= i < j < after.len() implies (#[trigger] after[i]).id@ != (
        #[trigger] after[j]).id@ by {
            let a = if i < at {
                i
            } else {
                i + 1
            };
            let b = if j < at {
                j
            } else {
                j + 1
            };
            assert(after[i] == sessions[a] && after[j] == sessions[b]);
        }
        if session_at(after, id, 0) is Some {
            let i = session_at(after, id, 0)->0;
            let a = if i < at {
                i
            } else {
                i + 1
            };
            assert(after[i] == sessions[a]);
            assert(false);
        }
        if other != id {
            found_session(sessions, other, 0);
            found_session(after, other, 0);
            match session_at(sessions, other, 0) {
                Some(i) => {
                    let a = if i < at {
                        i
                    } else {
                        i - 1
                    };
                    assert(after[a] == sessions[i]);
                    only_session(after, other, a);
                },
                None => {
                    if session_at(after, other, 0) is Some {
                        let i = session_at(after, other, 0)->0;
                        let a = if i < at {
                            i
                        } else {
                            i + 1
                        };
                        assert(after[i] == sessions[a]);
                        assert(false);
                    }
                },
            }
        }
    }
}

impl Registry {
    /// Where an agent is.
    fn position(&self, id: &str) -> (r: Option<usize>)
        ensures
            match r {
                Some(i) => session_at(self.sessions@, id@, 0) == Some(i as int) && i
                    < self.sessions@.len(),
                None => session_at(self.sessions@, id@, 0) is None,
            },
    {
        let mut i: usize = 0;
        while i < self.sessions.len()
            invariant
                i <= self.sessions@.len(),
                session_at(self.sessions@, id@, 0) == session_at(self.sessions@, id@, i as int),
            decreases self.sessions@.len() - i,
        {
            if same_text(self.sessions[i].id.as_str(), id) {
                return Some(i);
            }
            i += 1;
        }
        None
    }

    /// The connection of an agent.
    pub fn find(&self, id: &str) -> (r: Option<&AgentSession>)
        ensures
            match r {
                Some(session) => session_of(self.sessions@, id@) == Some(*session),
                None => session_of(self.sessions@, id@) is None,
            },
    {
        match self.position(id) {
            Some(i) => Some(&self.sessions[i]),
            None => None,
        }
    }

    /// Takes up a connection of an agent, in place of an earlier one.
    pub fn connect(&mut self, session: AgentSession)
        requires
            distinct(old(self).sessions@),
        ensures
            final(self).sessions@ == with_session(old(self).sessions@, session),
            distinct(final(self).sessions@),
    {
        proof {
            newer_connections_replace_older(self.sessions@, session, session.id@);
        }
        match self.position(session.id.as_str()) {
            Some(i) => {
                self.sessions.set(i, session);
            },
            None => {
                self.sessions.push(session);
            },
        }
    }

    /// Takes notice that an agent was heard of over a connection.
    pub fn heartbeat(&mut self, id: &str, generation: Uuid, now: i64)
        ensures
            final(self).sessions@ == with_heartbeat(old(self).sessions@, id@, generation, now),
    {
        if let Some(i) = self.position(id) {
            if self.sessions[i].generation.value == generation.value {
                self.sessions[i].last_seen_ms = now;
                assert(self.sessions@ =~= with_heartbeat(
                    old(self).sessions@,
                    id@,
                    generation,
                    now,
                ));
            }
        }
    }

    /// Ends a connection of an agent. Says whether the agent is gone with it.
    pub fn disconnect(&mut self, id: &str, generation: Uuid) -> (r: bool)
        ensures
            final(self).sessions@ == without_session(old(self).sessions@, id@, generation),
            r == is_current(old(self).sessions@, id@, generation),
    {
        if let Some(i) = self.position(id) {
            if self.sessions[i].generation.value == generation.value {
                let _ = self.sessions.remove(i);
                return true;
            }
        }
        false
    }
}

/// Whether an agent counts as online in a list: it was heard of less than fifteen seconds ago.
pub fn is_online(last_seen_ms: i64, now: i64) -> (r: bool)
    requires
        i64::MIN <= now - last_seen_ms <= i64::MAX,
    ensures
        r == (now - last_seen_ms < ONLINE_MS),
{
    now - last_seen_ms < ONLINE_MS
}

/// What an agent says first.
#[derive(Debug, Clone, Copy, PartialEq, Eq, Structural)]
pub enum Greeting {
    /// It says nothing.
    Missing,
    /// It says who it is.
    Hello { has_inventory: bool },
    /// It says something else.
    Other,
}

/// Why an agent is turned away: it has to say who it is first, with its inventory.
pub open spec fn greeting_problem(greeting: Greeting) -> Option<Seq<char>> {
    match greeting {
        Greeting::Missing => Some("hello required"@),
        Greeting::Other => Some("first message must be hello"@),
        Greeting::Hello { has_inventory } => if has_inventory {
            None
        } else {
            Some("node inventory required"@)
        },
    }
}

/// Whether an agent is taken in.
pub fn check_greeting(greeting: Greeting) -> (r: Result<(), &'static str>)
    ensures
        match r {
            Ok(_) => greeting_problem(greeting) is None,
            Err(message) => greeting_problem(greeting) == Some(message@),
        },
{
    match greeting {
        Greeting::Missing => Err("hello required"),
        Greeting::Other => Err("first message must be hello"),
        Greeting::Hello { has_inventory } => if has_inventory {
            Ok(())
        } else {
            Err("node inventory required")
        },
    }
}

} // verus!
