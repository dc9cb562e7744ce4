//! The run that is active: who takes part in it and how it ends.
use crate::id::{uuid_of, Uuid};
use crate::text::{append, copy, copy_strings, same_text, string_views};
use vstd::prelude::*;

verus! {

/// One end of a run: an agent and the number of its role.
#[derive(Debug, Clone, PartialEq, Eq)]
pub struct Participant {
    pub agent_id: String,
    pub role: i32,
}

/// What an end of a run is.
#[verifier::ext_equal]
pub struct ParticipantView {
    pub agent_id: Seq<char>,
    pub role: i32,
}

impl View for Participant {
    type V = ParticipantView;

    open spec fn view(&self) -> ParticipantView {
        ParticipantView { agent_id: self.agent_id@, role: self.role }
    }
}

/// What ends of a run are.
pub open spec fn participant_views(list: Seq<Participant>) -> Seq<ParticipantView> {
    list.map_values(|p: Participant| p@)
}

/// A run that is active.
#[derive(Debug, Clone, PartialEq, Eq)]
pub struct CurrentRun {
    pub run_id: Uuid,
    /// The agents that take part in it.
    pub agents: Vec<String>,
    /// The ends that are to complete.
    pub expected: Vec<Participant>,
    /// The ends that have completed.
    pub completed: Vec<Participant>,
}

/// What is known of a run that is active.
#[verifier::ext_equal]
pub struct CurrentRunView {
    pub run_id: Uuid,
    pub agents: Seq<Seq<char>>,
    pub expected: Seq<ParticipantView>,
    pub completed: Seq<ParticipantView>,
}

impl View for CurrentRun {
    type V = CurrentRunView;

    open spec fn view(&self) -> CurrentRunView {
        CurrentRunView {
            run_id: self.run_id,
            agents: string_views(self.agents@),
            expected: participant_views(self.expected@),
            completed: participant_views(self.completed@),
        }
    }
}

/// The run that is active, if there is one.
#[derive(Debug, Clone, PartialEq, Eq)]
pub struct ActiveRuns {
    pub current: Option<CurrentRun>,
}

impl Default for ActiveRuns {
    fn default() -> (r: ActiveRuns)
        ensures
            r.current is None,
    {
        ActiveRuns { current: None }
    }
}

impl View for ActiveRuns {
    type V = Option<CurrentRunView>;

    open spec fn view(&self) -> Option<CurrentRunView> {
        match self.current {
            Some(run) => Some(run@),
            None => None,
        }
    }
}

/// This run is active.
pub open spec fn is_active(s: Option<CurrentRunView>, run_id: Uuid) -> bool {
    s is Some && s->0.run_id == run_id
}

/// The agents of both ends. One agent may be at both.
pub open spec fn agents_of(client: Seq<char>, server: Seq<char>) -> Seq<Seq<char>> {
    if client == server {
        seq![client]
    } else {
        seq![client, server]
    }
}

/// A run between two agents that has just started.
pub open spec fn started(run_id: Uuid, client: Seq<char>, server: Seq<char>) -> CurrentRunView {
    CurrentRunView {
        run_id,
        agents: agents_of(client, server),
        expected: seq![
            ParticipantView { agent_id: client, role: 1 },
            ParticipantView { agent_id: server, role: 2 },
        ],
        completed: Seq::empty(),
    }
}

/// An end has completed. That it did so more than once makes no difference.
pub open spec fn with_completed(run: CurrentRunView, p: ParticipantView) -> CurrentRunView {
    if run.completed.contains(p) {
        run
    } else {
        CurrentRunView { completed: run.completed.push(p), ..run }
    }
}

/// Every end that is to complete has done so. A run without ends never does.
pub open spec fn all_completed(run: CurrentRunView) -> bool {
    &&& run.expected.len() > 0
    &&& forall|i: int|
        0 <= i < run.expected.len() ==> run.completed.contains(#[trigger] run.expected[i])
}

/// An event that an agent reports.
#[derive(Debug, Clone, PartialEq, Eq)]
pub struct AgentEvent {
    pub run_id: String,
    pub level: String,
    pub message: String,
    pub endpoint_role: i32,
}

/// The run that an event is about, if it is active.
pub open spec fn concerns(s: Option<CurrentRunView>, event: AgentEvent) -> bool {
    s is Some && uuid_of(event.run_id@) == Ok::<u128, Seq<char>>(s->0.run_id.value)
}

/// An event says that the work at an end failed.
pub open spec fn is_failure(s: Option<CurrentRunView>, event: AgentEvent) -> bool {
    event.level@ == "error"@ && concerns(s, event)
}

/// An event says that an end has completed. After a failure the run is no longer active.
pub open spec fn is_completion(s: Option<CurrentRunView>, event: AgentEvent) -> bool {
    !is_failure(s, event) && event.message@ == "run_completed"@ && concerns(s, event)
}

/// How a run ends.
#[derive(Debug, Clone, PartialEq, Eq)]
pub enum RunEnd {
    /// It goes on.
    GoesOn,
    /// All its ends have completed.
    Completed(Uuid),
    /// It failed for this reason, and its agents are to stop it.
    Failed(Uuid, String),
}

/// How a run ends, as plain values.
#[verifier::ext_equal]
pub enum RunEndView {
    GoesOn,
    Completed(Uuid),
    Failed(Uuid, Seq<char>),
}

impl View for RunEnd {
    type V = RunEndView;

    open spec fn view(&self) -> RunEndView {
        match self {
            RunEnd::GoesOn => RunEndView::GoesOn,
            RunEnd::Completed(id) => RunEndView::Completed(*id),
            RunEnd::Failed(id, reason) => RunEndView::Failed(*id, reason@),
        }
    }
}

/// The active run after an event of an agent. When the run ends, none is active.
pub open spec fn event_after(
    s: Option<CurrentRunView>,
    agent: Seq<char>,
    event: AgentEvent,
) -> Option<CurrentRunView> {
    if is_failure(s, event) {
        None
    } else if is_completion(s, event) {
        let run = with_completed(
            s->0,
            ParticipantView { agent_id: agent, role: event.endpoint_role },
        );
        if all_completed(run) {
            None
        } else {
            Some(run)
        }
    } else {
        s
    }
}

/// How the active run ends with an event of an agent.
pub open spec fn event_end(
    s: Option<CurrentRunView>,
    agent: Seq<char>,
    event: AgentEvent,
) -> RunEndView {
    if is_failure(s, event) {
        RunEndView::Failed(s->0.run_id, "endpoint_worker_failed: "@ + event.message@)
    } else if is_completion(s, event) && all_completed(
        with_completed(
            s->0,
            ParticipantView { agent_id: agent, role: event.endpoint_role },
        ),
    ) {
        RunEndView::Completed(s->0.run_id)
    } else {
        RunEndView::GoesOn
    }
}

/// A run is completed only when each of its ends has reported so: an end that has not keeps it
/// from being completed.
pub proof fn runs_complete_at_all_ends(
    s: Option<CurrentRunView>,
    agent: Seq<char>,
    event: AgentEvent,
    i: int,
)
    requires
        s is Some,
        0 <= i < s->0.expected.len(),
        event_end(s, agent, event) is Completed,
    ensures
        s->0.completed.contains(s->0.expected[i]) || s->0.expected[i] == (ParticipantView {
            agent_id: agent,
            role: event.endpoint_role,
        }),
        event.message@ == "run_completed"@,
        event_end(s, agent, event) == RunEndView::Completed(s->0.run_id),
{
    let p = ParticipantView { agent_id: agent, role: event.endpoint_role };
    let run = with_completed(s->0, p);
    assert(run.completed.contains(run.expected[i]));
    if !s->0.completed.contains(p) {
        let k = choose|k: int| 0 <= k < run.completed.len() && run.completed[k] == run.expected[i];
        if k < s->0.completed.len() {
            assert(s->0.completed[k] == run.expected[i]);
        }
    }
}

/// A run between two agents is completed once both ends have reported so, in either order and
/// however often one of them has done so before.
pub proof fn two_reports_complete_a_run(
    run_id: Uuid,
    client: Seq<char>,
    server: Seq<char>,
    first: AgentEvent,
    second: AgentEvent,
)
    requires
        is_report(first, run_id, 1),
        is_report(second, run_id, 2),
    ensures
        ({
            let s = Some(started(run_id, client, server));
            let half = event_after(s, client, first);
            let other = event_after(s, server, second);
            &&& event_end(s, client, first) == RunEndView::GoesOn
            &&& event_end(half, client, first) == RunEndView::GoesOn
            &&& event_end(half, server, second) == RunEndView::Completed(run_id)
            &&& event_after(half, server, second) is None
            &&& event_end(s, server, second) == RunEndView::GoesOn
            &&& event_end(other, client, first) == RunEndView::Completed(run_id)
        }),
{
    let start = started(run_id, client, server);
    let a = ParticipantView { agent_id: client, role: 1 };
    let b = ParticipantView { agent_id: server, role: 2 };
    let one = with_completed(start, a);
    let two = with_completed(start, b);
    assert(start.expected[0] == a && start.expected[1] == b);
    assert(one.completed =~= seq![a]);
    assert(two.completed =~= seq![b]);
    assert(!one.completed.contains(b)) by {
        assert(one.completed[0] != b);
    }
    assert(!two.completed.contains(a)) by {
        assert(two.completed[0] != a);
    }
    assert(one.completed.contains(a)) by {
        assert(one.completed[0] == a);
    }
    assert(!all_completed(one)) by {
        assert(!one.completed.contains(one.expected[1]));
    }
    assert(!all_completed(two)) by {
        assert(!two.completed.contains(two.expected[0]));
    }
    let both = with_completed(one, b);
    assert(both.completed[0] == a && both.completed[1] == b);
    assert(all_completed(both));
    let reversed = with_completed(two, a);
    assert(reversed.completed[0] == b && reversed.completed[1] == a);
    assert(all_completed(reversed));
}

/// An event by which an end of a run reports that it has completed.
pub open spec fn is_report(event: AgentEvent, run_id: Uuid, role: i32) -> bool {
    &&& event.level@ != "error"@
    &&& event.message@ == "run_completed"@
    &&& event.endpoint_role == role
    &&& uuid_of(event.run_id@) == Ok::<u128, Seq<char>>(run_id.value)
}

/// Whether an end is in a list.
fn lists(list: &Vec<Participant>, agent: &str, role: i32) -> (r: bool)
    ensures
        r == participant_views(list@).contains(ParticipantView { agent_id: agent@, role }),
{
    let ghost views = participant_views(list@);
    let ghost wanted = ParticipantView { agent_id: agent@, role };
    let mut i: usize = 0;
    while i < list.len()
        invariant
            views == participant_views(list@),
            wanted == (ParticipantView { agent_id: agent@, role }),
            i <= list@.len(),
            forall|j: int| 0 <= j < i ==> (#[trigger] views[j]) != wanted,
        decreases list@.len() - i,
    {
        assert(views[i as int] == list@[i as int]@);
        if same_text(list[i].agent_id.as_str(), agent) && list[i].role == role {
            assert(views[i as int] =~= wanted);
            return true;
        }
        i += 1;
    }
    false
}

/// Whether an agent takes part in a run.
fn takes_part(agents: &Vec<String>, agent: &str) -> (r: bool)
    ensures
        r == string_views(agents@).contains(agent@),
{
    let ghost views = string_views(agents@);
    let mut i: usize = 0;
    while i < agents.len()
        invariant
            views == string_views(agents@),
            i <= agents@.len(),
            forall|j: int| 0 <= j < i ==> (#[trigger] views[j]) != agent@,
        decreases agents@.len() - i,
    {
        assert(views[i as int] == agents@[i as int]@);
        if same_text(agents[i].as_str(), agent) {
            return true;
        }
        i += 1;
    }
    false
}

impl CurrentRun {
    /// Whether every end that is to complete has done so.
    fn is_complete(&self) -> (r: bool)
        ensures
            r == all_completed(self@),
    {
        if self.expected.len() == 0 {
            return false;
        }
        let mut i: usize = 0;
        while i < self.expected.len()
            invariant
                i <= self.expected@.len(),
                forall|j: int|
                    0 <= j < i ==> self@.completed.contains(#[trigger] self@.expected[j]),
            decreases self.expected@.len() - i,
        {
            assert(self@.expected[i as int] == self.expected@[i as int]@);
            if !lists(
                &self.completed,
                self.expected[i].agent_id.as_str(),
                self.expected[i].role,
            ) {
                assert(!self@.completed.contains(self@.expected[i as int]));
                return false;
            }
            i += 1;
        }
        true
    }
}

/// What the agents of a run that has lost one of them are told while they wait for it.
pub open spec fn waiting_text(agent: Seq<char>) -> Seq<char> {
    agent + " disconnected; waiting for reconnect grace"@
}

/// Why a run fails that has lost an agent. It is not taken up again even if the agent came back:
/// what was measured has a gap.
pub open spec fn lost_text(agent: Seq<char>, reconnected: bool) -> Seq<char> {
    (if reconnected {
        "agent_reconnected_no_resume"@
    } else {
        "agent_disconnected"@
    }) + ": "@ + agent
}

impl ActiveRuns {
    /// The run that is active.
    pub fn run_id(&self) -> (r: Option<Uuid>)
        ensures
            match r {
                Some(id) => is_active(self@, id),
                None => self@ is None,
            },
    {
        match &self.current {
            Some(run) => Some(run.run_id),
            None => None,
        }
    }

    /// Whether this run is active.
    pub fn has(&self, run_id: Uuid) -> (r: bool)
        ensures
            r == is_active(self@, run_id),
    {
        match &self.current {
            Some(run) => run.run_id.value == run_id.value,
            None => false,
        }
    }

    /// Takes up a run between two agents.
    pub fn begin(&mut self, run_id: Uuid, client: &str, server: &str)
        ensures
            final(self)@ == Some(started(run_id, client@, server@)),
    {
        let mut agents: Vec<String> = Vec::new();
        agents.push(copy(client));
        if !same_text(client, server) {
            agents.push(copy(server));
        }
        assert(string_views(agents@) =~= agents_of(client@, server@));
        let mut expected: Vec<Participant> = Vec::new();
        expected.push(Participant { agent_id: copy(client), role: 1 });
        expected.push(Participant { agent_id: copy(server), role: 2 });
        let run = CurrentRun { run_id, agents, expected, completed: Vec::new() };
        assert(run@.expected =~= started(run_id, client@, server@).expected);
        assert(run@.completed =~= started(run_id, client@, server@).completed);
        self.current = Some(run);
    }

    /// Ends a run. Another one stays active.
    pub fn finish(&mut self, run_id: Uuid)
        ensures
            final(self)@ == (if is_active(old(self)@, run_id) {
                None
            } else {
                old(self)@
            }),
    {
        if self.has(run_id) {
            self.current = None;
        }
    }

    /// The agents of the active run, if it is this one.
    pub fn agents(&self, run_id: Uuid) -> (r: Option<Vec<String>>)
        ensures
            match r {
                Some(list) => is_active(self@, run_id) && string_views(list@) == self@->0.agents,
                None => !is_active(self@, run_id),
            },
    {
        match &self.current {
            Some(run) => if run.run_id.value == run_id.value {
                Some(copy_strings(&run.agents))
            } else {
                None
            },
            None => None,
        }
    }

    /// Takes notice of an event of an agent, and says how the active run ends with it.
    pub fn event(&mut self, agent_id: &str, event: &AgentEvent) -> (r: RunEnd)
        ensures
            final(self)@ == event_after(old(self)@, agent_id@, *event),
            r@ == event_end(old(self)@, agent_id@, *event),
    {
        let failed: bool = same_text(event.level.as_str(), "error");
        let completed: bool = same_text(event.message.as_str(), "run_completed");
        if !failed && !completed {
            return RunEnd::GoesOn;
        }
        let about: Uuid = match Uuid::parse_str(event.run_id.as_str()) {
            Ok(id) => id,
            Err(_) => {
                return RunEnd::GoesOn;
            },
        };
        if !self.has(about) {
            return RunEnd::GoesOn;
        }
        if failed {
            self.current = None;
            let mut reason = copy("endpoint_worker_failed: ");
            append(&mut reason, event.message.as_str());
            return RunEnd::Failed(about, reason);
        }
        let mut run: CurrentRun = match self.current.take() {
            Some(run) => run,
            None => {
                return RunEnd::GoesOn;
            },
        };
        let ghost before = run@;
        if !lists(&run.completed, agent_id, event.endpoint_role) {
            run.completed.push(
                Participant { agent_id: copy(agent_id), role: event.endpoint_role },
            );
            assert(run@.completed =~= before.completed.push(
                ParticipantView { agent_id: agent_id@, role: event.endpoint_role },
            ));
        }
        assert(run@ =~= with_completed(
            before,
            ParticipantView { agent_id: agent_id@, role: event.endpoint_role },
        ));
        if run.is_complete() {
            RunEnd::Completed(about)
        } else {
            self.current = Some(run);
            RunEnd::GoesOn
        }
    }

    /// Says whether an agent that is gone takes part in the active run, and what is then said of
    /// the run.
    pub fn agent_lost(&self, agent_id: &str) -> (r: Option<(Uuid, String)>)
        ensures
            match r {
                Some((id, message)) => {
                    &&& is_active(self@, id)
                    &&& self@->0.agents.contains(agent_id@)
                    &&& message@ == waiting_text(agent_id@)
                },
                None => self@ is None || !self@->0.agents.contains(agent_id@),
            },
    {
        match &self.current {
            Some(run) => if takes_part(&run.agents, agent_id) {
                let mut message = copy(agent_id);
                append(&mut message, " disconnected; waiting for reconnect grace");
                Some((run.run_id, message))
            } else {
                None
            },
            None => None,
        }
    }

    /// Ends a run that has lost an agent, after the time to wait for it. It fails whether or not
    /// the agent came back, unless it has ended before.
    pub fn grace_over(&mut self, run_id: Uuid, agent_id: &str, reconnected: bool) -> (r: RunEnd)
        ensures
            final(self)@ == (if is_active(old(self)@, run_id) {
                None
            } else {
                old(self)@
            }),
            r@ == (if is_active(old(self)@, run_id) {
                RunEndView::Failed(run_id, lost_text(agent_id@, reconnected))
            } else {
                RunEndView::GoesOn
            }),
    {
        if !self.has(run_id) {
            return RunEnd::GoesOn;
        }
        self.current = None;
        let mut reason = if reconnected {
            copy("agent_reconnected_no_resume")
        } else {
            copy("agent_disconnected")
        };
        append(&mut reason, ": ");
        append(&mut reason, agent_id);
        RunEnd::Failed(run_id, reason)
    }
}

} // verus!
