//! How the active run is paused, goes on and is stopped.
use crate::control::error::{api_problem, bad, internal, ApiError, ApiErrorView};
use crate::control::runs::{is_active, ActiveRuns};
use crate::id::Uuid;
use crate::text::{append, copy, string_views};
use vstd::prelude::*;

verus! {

/// What comes next when a run is paused or goes on.
#[derive(Debug, Clone, Copy, PartialEq, Eq, Structural)]
pub enum PauseStep {
    /// An agent is told.
    Command,
    /// The state of the run is recorded.
    Record,
    Done,
    Failed,
}

/// A run that is being paused or is to go on.
#[derive(Debug, Clone, PartialEq, Eq)]
pub struct Pausing {
    pub agents: Vec<String>,
    pub paused: bool,
    pub next: usize,
    pub step: PauseStep,
    pub error: Option<ApiError>,
}

/// How far it has come.
#[verifier::ext_equal]
pub struct PausingView {
    pub agents: Seq<Seq<char>>,
    pub paused: bool,
    pub next: int,
    pub step: PauseStep,
    pub error: Option<ApiErrorView>,
}

impl View for Pausing {
    type V = PausingView;

    open spec fn view(&self) -> PausingView {
        PausingView {
            agents: string_views(self.agents@),
            paused: self.paused,
            next: self.next as int,
            step: self.step,
            error: match self.error {
                Some(error) => Some(error@),
                None => None,
            },
        }
    }
}

/// What comes next, after a step that went well or failed.
pub open spec fn pausing_after(s: PausingView, problem: Option<ApiErrorView>) -> PausingView {
    match (s.step, problem) {
        (PauseStep::Command, None) => if s.next + 1 < s.agents.len() {
            PausingView { next: s.next + 1, ..s }
        } else {
            PausingView { next: s.next + 1, step: PauseStep::Record, ..s }
        },
        (PauseStep::Record, None) => PausingView { step: PauseStep::Done, ..s },
        (PauseStep::Done, _) => s,
        (PauseStep::Failed, _) => s,
        (_, Some(error)) => PausingView { step: PauseStep::Failed, error: Some(error), ..s },
    }
}

/// The agents are told in turn, and the state is recorded when all of them were.
pub open spec fn pausing_holds(s: PausingView) -> bool {
    &&& 0 <= s.next <= s.agents.len()
    &&& match s.step {
        PauseStep::Command => s.next < s.agents.len(),
        PauseStep::Record | PauseStep::Done => s.next == s.agents.len() && s.error is None,
        PauseStep::Failed => s.error is Some,
    }
    &&& s.step == PauseStep::Command ==> s.error is None
}

/// The start of it.
pub open spec fn pausing_start(agents: Seq<Seq<char>>, paused: bool) -> PausingView {
    PausingView {
        agents,
        paused,
        next: 0,
        step: if agents.len() > 0 {
            PauseStep::Command
        } else {
            PauseStep::Record
        },
        error: None,
    }
}

/// What is said of a run that is not active.
pub open spec fn not_running() -> ApiErrorView {
    bad("실행 중인 run이 아닙니다"@)
}

/// A run is recorded as paused, or as going on, only when every one of its agents has followed; an
/// agent that does not follow ends the request with its error.
pub proof fn runs_are_paused_on_all_ends(s: PausingView, problem: Option<ApiErrorView>)
    requires
        pausing_holds(s),
    ensures
        ({
            let after = pausing_after(s, problem);
            &&& pausing_holds(after)
            &&& after.agents == s.agents
            &&& after.step == PauseStep::Record ==> after.next == after.agents.len()
            &&& s.step == PauseStep::Command && problem is Some ==> after.step
                == PauseStep::Failed && after.error == problem
        }),
{
}

impl ActiveRuns {
    /// Starts to pause a run or to let it go on, if it is active.
    pub fn set_paused(&self, run_id: Uuid, paused: bool) -> (r: Result<Pausing, ApiError>)
        ensures
            match r {
                Ok(pausing) => {
                    &&& is_active(self@, run_id)
                    &&& pausing@ == pausing_start(self@->0.agents, paused)
                    &&& pausing_holds(pausing@)
                },
                Err(error) => !is_active(self@, run_id) && error@ == not_running(),
            },
    {
        match self.agents(run_id) {
            None => Err(ApiError::bad("실행 중인 run이 아닙니다")),
            Some(agents) => {
                let step: PauseStep = if agents.len() > 0 {
                    PauseStep::Command
                } else {
                    PauseStep::Record
                };
                Ok(Pausing { agents, paused, next: 0, step, error: None })
            },
        }
    }

    /// The agents that are told to stop a run, if it is active.
    pub fn stop(&self, run_id: Uuid) -> (r: Result<Vec<String>, ApiError>)
        ensures
            match r {
                Ok(agents) => is_active(self@, run_id) && string_views(agents@) == self@->0.agents,
                Err(error) => !is_active(self@, run_id) && error@ == not_running(),
            },
    {
        match self.agents(run_id) {
            None => Err(ApiError::bad("실행 중인 run이 아닙니다")),
            Some(agents) => Ok(agents),
        }
    }
}

/// The name of the command to agents.
pub open spec fn pause_name(paused: bool) -> Seq<char> {
    if paused {
        "pause"@
    } else {
        "resume"@
    }
}

/// The state of a run that was paused, or that goes on.
pub open spec fn pause_status(paused: bool) -> Seq<char> {
    if paused {
        "paused"@
    } else {
        "running"@
    }
}

/// What is said of an agent that is not connected.
pub fn agent_disconnected(agent: &str) -> (r: ApiError)
    ensures
        r@ == internal(agent@ + " is disconnected"@),
{
    let mut message = copy(agent);
    append(&mut message, " is disconnected");
    ApiError::internal(message.as_str())
}

impl Pausing {
    /// The agent that is told next.
    pub fn agent(&self) -> (r: Option<&str>)
        requires
            pausing_holds(self@),
        ensures
            match r {
                Some(agent) => self.step == PauseStep::Command && agent@
                    == self@.agents[self.next as int],
                None => self.step != PauseStep::Command,
            },
    {
        if self.step == PauseStep::Command {
            Some(self.agents[self.next].as_str())
        } else {
            None
        }
    }

    /// The name of the command to agents.
    pub fn command(&self) -> (r: &'static str)
        ensures
            r@ == pause_name(self.paused),
    {
        if self.paused {
            "pause"
        } else {
            "resume"
        }
    }

    /// The state that is recorded.
    pub fn status(&self) -> (r: &'static str)
        ensures
            r@ == pause_status(self.paused),
    {
        if self.paused {
            "paused"
        } else {
            "running"
        }
    }

    /// Goes on after a step.
    pub fn advance(&mut self, outcome: Result<(), ApiError>)
        requires
            pausing_holds(old(self)@),
        ensures
            final(self)@ == pausing_after(old(self)@, api_problem(outcome)),
            pausing_holds(final(self)@),
    {
        proof {
            runs_are_paused_on_all_ends(self@, api_problem(outcome));
        }
        match outcome {
            Ok(_) => match self.step {
                PauseStep::Command => {
                    let count: usize = self.agents.len();
                    self.next = self.next + 1;
                    if self.next >= count {
                        self.step = PauseStep::Record;
                    }
                },
                PauseStep::Record => {
                    self.step = PauseStep::Done;
                },
                _ => {},
            },
            Err(error) => match self.step {
                PauseStep::Command | PauseStep::Record => {
                    self.step = PauseStep::Failed;
                    self.error = Some(error);
                },
                _ => {},
            },
        }
    }
}

} // verus!
