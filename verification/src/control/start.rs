//! How a run is started at both ends.
use crate::control::error::{
    api_problem, bad, conflict, ApiError, ApiErrorView,
};
use crate::control::registry::ONLINE_MS;
use crate::control::runs::ActiveRuns;
use crate::domain::payload::{PayloadKind, PayloadMode, PayloadProfile};
use crate::domain::scenario::Scenario;
use crate::id::Uuid;
use crate::text::{append, chars_of, copy, text_of, trim_chars, trimmed};
use vstd::prelude::*;

verus! {

/// How many milliseconds after it is told to start a run starts.
pub const START_DELAY_MS: i64 = 1000;

/// A payload is the contents of an artifact.
pub open spec fn uses_artifact(payload: Option<PayloadProfile>, id: Uuid) -> bool {
    payload matches Some(p) && p.kind == PayloadKind::File && p.artifact_id == Some(id)
}

/// A scenario needs an artifact: as a payload, or as the capture that it replays.
pub open spec fn is_needed(scenario: Scenario, id: Uuid) -> bool {
    ||| uses_artifact(scenario.request_payload, id)
    ||| uses_artifact(scenario.response_payload, id)
    ||| scenario.payload_mode == PayloadMode::CaptureReplay && scenario.capture_artifact_id
        == Some(id)
}

/// Adds an identifier to a list unless it is there.
fn add_id(list: &mut Vec<Uuid>, id: Uuid)
    requires
        old(list)@.no_duplicates(),
    ensures
        final(list)@.no_duplicates(),
        forall|x: Uuid|
            (#[trigger] final(list)@.contains(x)) <==> old(list)@.contains(x) || x == id,
{
    let mut i: usize = 0;
    while i < list.len()
        invariant
            list@ == old(list)@,
            i <= list@.len(),
            forall|j: int| 0 <= j < i ==> (#[trigger] list@[j]) != id,
            old(list)@.no_duplicates(),
        decreases list@.len() - i,
    {
        if list[i].value == id.value {
            assert(list@[i as int] == id);
            return ;
        }
        i += 1;
    }
    list.push(id);
    assert forall|x: Uuid| list@.contains(x) <==> old(list)@.contains(x) || x == id by {
        if old(list)@.contains(x) {
            let k = choose|k: int| 0 <= k < old(list)@.len() && old(list)@[k] == x;
            assert(list@[k] == x);
        }
        if list@.contains(x) && x != id {
            let k = choose|k: int| 0 <= k < list@.len() && list@[k] == x;
            assert(old(list)@[k] == x);
        }
        assert(list@[old(list)@.len() as int] == id);
    }
}

/// Adds the artifact that a payload is the contents of.
fn add_payload(list: &mut Vec<Uuid>, payload: &Option<PayloadProfile>)
    requires
        old(list)@.no_duplicates(),
    ensures
        final(list)@.no_duplicates(),
        forall|x: Uuid|
            (#[trigger] final(list)@.contains(x)) <==> old(list)@.contains(x) || uses_artifact(
                *payload,
                x,
            ),
{
    if let Some(profile) = payload {
        if profile.kind == PayloadKind::File {
            if let Some(id) = profile.artifact_id {
                add_id(list, id);
            }
        }
    }
}

/// The artifacts that a scenario needs, each once.
pub fn needed_artifacts(scenario: &Scenario) -> (r: Vec<Uuid>)
    ensures
        r@.no_duplicates(),
        forall|id: Uuid| r@.contains(id) <==> is_needed(*scenario, id),
{
    let mut list: Vec<Uuid> = Vec::new();
    let ghost none = list@;
    add_payload(&mut list, &scenario.request_payload);
    let ghost one = list@;
    add_payload(&mut list, &scenario.response_payload);
    let ghost two = list@;
    if scenario.payload_mode == PayloadMode::CaptureReplay {
        if let Some(id) = scenario.capture_artifact_id {
            add_id(&mut list, id);
        }
    }
    assert forall|id: Uuid| list@.contains(id) <==> is_needed(*scenario, id) by {
        assert(!none.contains(id));
        assert(one.contains(id) <==> none.contains(id) || uses_artifact(
            scenario.request_payload,
            id,
        ));
        assert(two.contains(id) <==> one.contains(id) || uses_artifact(
            scenario.response_payload,
            id,
        ));
    }
    list
}

/// How the start of a run is written in its name.
pub open spec fn name_pattern() -> Seq<char> {
    "%Y-%m-%d %H:%M:%S UTC"@
}

/// A time in seconds since 1970, written by a pattern.
pub uninterp spec fn time_text(secs: i64, pattern: Seq<char>) -> Option<Seq<char>>;

/// `chrono::DateTime::from_timestamp` and `format`: the text of a time in UTC, if it has one. How
/// it is written is not stated; it depends on the time and the pattern alone.
#[verifier::external_body]
fn write_time(secs: i64, pattern: &str) -> (r: Option<String>)
    requires
        pattern@ == name_pattern(),
    ensures
        match r {
            Some(text) => time_text(secs, pattern@) == Some(text@),
            None => time_text(secs, pattern@) is None,
        },
{
    chrono::DateTime::<chrono::Utc>::from_timestamp(secs, 0)
        .map(|time| time.format(pattern).to_string())
}

/// The name of a run: the requested one without white space around it, or else that of the
/// scenario and the time of the start.
pub open spec fn name_of(
    requested: Option<Seq<char>>,
    scenario: Seq<char>,
    time: Option<Seq<char>>,
) -> Seq<char> {
    if requested is Some && trimmed(requested->0).len() > 0 {
        trimmed(requested->0)
    } else {
        scenario + " · "@ + match time {
            Some(text) => text,
            None => Seq::empty(),
        }
    }
}

/// The name of a run, given how the time of its start is written.
pub fn name_run(requested: Option<&str>, scenario: &str, time: Option<&str>) -> (r: String)
    ensures
        r@ == name_of(
            match requested {
                Some(text) => Some(text@),
                None => None,
            },
            scenario@,
            match time {
                Some(text) => Some(text@),
                None => None,
            },
        ),
{
    if let Some(text) = requested {
        let chars = chars_of(text);
        let name = trim_chars(chars.as_slice());
        if name.len() > 0 {
            return text_of(name);
        }
    }
    let mut name = copy(scenario);
    append(&mut name, " · ");
    if let Some(text) = time {
        append(&mut name, text);
    } else {
        assert(name@ =~= name@ + Seq::<char>::empty());
    }
    name
}

/// The name of a run that starts at a time.
pub fn run_name(requested: Option<&str>, scenario: &str, start_secs: i64) -> (r: String)
    ensures
        r@ == name_of(
            match requested {
                Some(text) => Some(text@),
                None => None,
            },
            scenario@,
            time_text(start_secs, name_pattern()),
        ),
{
    match write_time(start_secs, "%Y-%m-%d %H:%M:%S UTC") {
        Some(text) => name_run(requested, scenario, Some(text.as_str())),
        None => name_run(requested, scenario, None),
    }
}

/// An agent was heard of within the last fifteen seconds.
pub open spec fn is_reachable(last_seen_ms: Option<i64>, now: i64) -> bool {
    last_seen_ms matches Some(seen) && seen >= now - ONLINE_MS
}

/// Why a run cannot start: another one is active, the network is not prepared, or an agent is not
/// connected.
pub open spec fn start_problem(
    active: bool,
    prepared: bool,
    client_seen: Option<i64>,
    server_seen: Option<i64>,
    now: i64,
) -> Option<ApiErrorView> {
    if active {
        Some(conflict("이미 실행 중인 시험이 있습니다"@))
    } else if !prepared {
        Some(conflict("referenced network profile revision is not prepared"@))
    } else if !is_reachable(client_seen, now) {
        Some(bad("client agent가 연결되지 않았습니다"@))
    } else if !is_reachable(server_seen, now) {
        Some(bad("server agent가 연결되지 않았습니다"@))
    } else {
        None
    }
}

/// Whether an agent was heard of within the last fifteen seconds.
fn reachable(last_seen_ms: Option<i64>, now: i64) -> (r: bool)
    requires
        now >= i64::MIN + ONLINE_MS,
    ensures
        r == is_reachable(last_seen_ms, now),
{
    match last_seen_ms {
        Some(seen) => seen >= now - ONLINE_MS,
        None => false,
    }
}

/// Whether a run can start, given when the agents of its ends were last heard of.
pub fn check_start(
    active: &ActiveRuns,
    prepared: bool,
    client_seen: Option<i64>,
    server_seen: Option<i64>,
    now: i64,
) -> (r: Result<(), ApiError>)
    requires
        now >= i64::MIN + ONLINE_MS,
    ensures
        api_problem(r) == start_problem(active@ is Some, prepared, client_seen, server_seen, now),
{
    if active.run_id().is_some() {
        return Err(ApiError::conflict("이미 실행 중인 시험이 있습니다"));
    }
    if !prepared {
        return Err(ApiError::conflict("referenced network profile revision is not prepared"));
    }
    if !reachable(client_seen, now) {
        return Err(ApiError::bad("client agent가 연결되지 않았습니다"));
    }
    if !reachable(server_seen, now) {
        return Err(ApiError::bad("server agent가 연결되지 않았습니다"));
    }
    Ok(())
}

/// What is done next while a run is started.
#[derive(Debug, Clone, Copy, PartialEq, Eq, Structural)]
pub enum StartStep {
    /// Send the artifacts to the agent of the client.
    SendToClient,
    /// Send the artifacts to the agent of the server.
    SendToServer,
    PrepareClient,
    PrepareServer,
    StartClient,
    StartServer,
    /// Tell both agents to stop the run.
    StopBoth,
    /// Record that the run failed.
    RecordFailure,
    /// Record that the run goes on.
    MarkRunning,
    /// The run goes on.
    Done,
    /// The run failed.
    Failed,
}

/// A run that is being started.
#[derive(Debug, Clone, PartialEq, Eq)]
pub struct RunStart {
    /// One agent is at both ends.
    pub same_agent: bool,
    pub step: StartStep,
    /// When both ends start, in milliseconds since 1970.
    pub start_at: Option<i64>,
    pub error: Option<ApiError>,
}

/// What is known of a run that is being started.
#[verifier::ext_equal]
pub struct RunStartView {
    pub same_agent: bool,
    pub step: StartStep,
    pub start_at: Option<i64>,
    pub error: Option<ApiErrorView>,
}

impl View for RunStart {
    type V = RunStartView;

    open spec fn view(&self) -> RunStartView {
        RunStartView {
            same_agent: self.same_agent,
            step: self.step,
            start_at: self.start_at,
            error: match self.error {
                Some(error) => Some(error@),
                None => None,
            },
        }
    }
}

/// The step that follows when a step succeeds.
pub open spec fn next_step(step: StartStep, same_agent: bool) -> StartStep {
    match step {
        StartStep::SendToClient => if same_agent {
            StartStep::PrepareClient
        } else {
            StartStep::SendToServer
        },
        StartStep::SendToServer => StartStep::PrepareClient,
        StartStep::PrepareClient => StartStep::PrepareServer,
        StartStep::PrepareServer => StartStep::StartClient,
        StartStep::StartClient => StartStep::StartServer,
        StartStep::StartServer => StartStep::MarkRunning,
        StartStep::MarkRunning => StartStep::Done,
        StartStep::StopBoth => StartStep::RecordFailure,
        StartStep::RecordFailure => StartStep::Failed,
        StartStep::Done => StartStep::Done,
        StartStep::Failed => StartStep::Failed,
    }
}

/// The step that follows when a step fails. Once an end was told to start, both are told to stop.
pub open spec fn failure_step(step: StartStep) -> StartStep {
    match step {
        StartStep::SendToClient => StartStep::RecordFailure,
        StartStep::SendToServer => StartStep::RecordFailure,
        StartStep::PrepareClient => StartStep::RecordFailure,
        StartStep::PrepareServer => StartStep::RecordFailure,
        StartStep::StartClient => StartStep::StopBoth,
        StartStep::StartServer => StartStep::StopBoth,
        StartStep::StopBoth => StartStep::RecordFailure,
        StartStep::RecordFailure => StartStep::Failed,
        StartStep::MarkRunning => StartStep::Failed,
        StartStep::Done => StartStep::Done,
        StartStep::Failed => StartStep::Failed,
    }
}

/// How the start goes on after a step with this outcome. The error that is told is the first one,
/// unless recording it fails. Whether both could be told to stop makes no difference.
pub open spec fn start_after(s: RunStartView, problem: Option<ApiErrorView>) -> RunStartView {
    match problem {
        None => RunStartView { step: next_step(s.step, s.same_agent), ..s },
        Some(error) => RunStartView {
            step: failure_step(s.step),
            error: match s.step {
                StartStep::StopBoth => s.error,
                StartStep::Done => s.error,
                StartStep::Failed => s.error,
                _ => Some(error),
            },
            ..s
        },
    }
}

/// A run goes on only after each of its ends was prepared and, after that, each was started: every
/// step is reached only from the one before it, and only if that succeeded.
pub proof fn runs_go_on_when_both_ends_started(s: RunStartView, problem: Option<ApiErrorView>)
    ensures
        ({
            let next = start_after(s, problem).step;
            let moved = next != s.step;
            &&& moved && next == StartStep::Done ==> s.step == StartStep::MarkRunning && problem
                is None
            &&& next == StartStep::MarkRunning ==> s.step == StartStep::StartServer && problem
                is None
            &&& next == StartStep::StartServer ==> s.step == StartStep::StartClient && problem
                is None
            &&& next == StartStep::StartClient ==> s.step == StartStep::PrepareServer && problem
                is None
            &&& next == StartStep::PrepareServer ==> s.step == StartStep::PrepareClient && problem
                is None
        }),
{
}

/// When starting an end fails, both ends are told to stop, the failure is recorded, and its error
/// comes out.
pub proof fn failed_starts_are_stopped(
    s: RunStartView,
    error: ApiErrorView,
    stopping: Option<ApiErrorView>,
)
    requires
        s.step == StartStep::StartClient || s.step == StartStep::StartServer,
    ensures
        ({
            let stop = start_after(s, Some(error));
            let record = start_after(stop, stopping);
            let end = start_after(record, None);
            &&& stop.step == StartStep::StopBoth
            &&& record.step == StartStep::RecordFailure
            &&& end.step == StartStep::Failed
            &&& end.error == Some(error)
        }),
{
}

/// When an end starts: a second after the time at which this is first asked.
pub open spec fn start_moment(s: RunStartView, now: i64) -> int {
    match s.start_at {
        Some(time) => time as int,
        None => now + START_DELAY_MS,
    }
}

/// Both ends of a run start at the same moment: when the server is told when to start, it is told
/// what the client was told, however much later that is.
pub proof fn ends_start_together(s: RunStartView, now: i64, outcome: Option<ApiErrorView>, later: i64)
    requires
        s.step == StartStep::StartClient,
        now <= i64::MAX - START_DELAY_MS,
    ensures
        ({
            let told = RunStartView { start_at: Some(start_moment(s, now) as i64), ..s };
            start_moment(start_after(told, outcome), later) == start_moment(s, now)
        }),
{
}

impl RunStart {
    /// Starts a run.
    pub fn new(same_agent: bool) -> (r: RunStart)
        ensures
            r@ == (RunStartView {
                same_agent,
                step: StartStep::SendToClient,
                start_at: None,
                error: None,
            }),
    {
        RunStart { same_agent, step: StartStep::SendToClient, start_at: None, error: None }
    }

    /// When an end starts: a second after the time at which this is first asked.
    pub fn start_time(&mut self, now: i64) -> (r: i64)
        requires
            now <= i64::MAX - START_DELAY_MS,
        ensures
            r == start_moment(old(self)@, now),
            final(self)@ == (RunStartView { start_at: Some(r), ..old(self)@ }),
    {
        match self.start_at {
            Some(time) => time,
            None => {
                let time: i64 = now + START_DELAY_MS;
                self.start_at = Some(time);
                time
            },
        }
    }

    /// Goes on after a step with this outcome.
    pub fn advance(&mut self, outcome: Result<(), ApiError>)
        ensures
            final(self)@ == start_after(old(self)@, api_problem(outcome)),
    {
        match outcome {
            Ok(_) => {
                self.step = match self.step {
                    StartStep::SendToClient => if self.same_agent {
                        StartStep::PrepareClient
                    } else {
                        StartStep::SendToServer
                    },
                    StartStep::SendToServer => StartStep::PrepareClient,
                    StartStep::PrepareClient => StartStep::PrepareServer,
                    StartStep::PrepareServer => StartStep::StartClient,
                    StartStep::StartClient => StartStep::StartServer,
                    StartStep::StartServer => StartStep::MarkRunning,
                    StartStep::MarkRunning => StartStep::Done,
                    StartStep::StopBoth => StartStep::RecordFailure,
                    StartStep::RecordFailure => StartStep::Failed,
                    StartStep::Done => StartStep::Done,
                    StartStep::Failed => StartStep::Failed,
                };
            },
            Err(error) => {
                match self.step {
                    StartStep::StopBoth => {
                        self.step = StartStep::RecordFailure;
                    },
                    StartStep::Done => {},
                    StartStep::Failed => {},
                    StartStep::StartClient => {
                        self.error = Some(error);
                        self.step = StartStep::StopBoth;
                    },
                    StartStep::StartServer => {
                        self.error = Some(error);
                        self.step = StartStep::StopBoth;
                    },
                    StartStep::RecordFailure => {
                        self.error = Some(error);
                        self.step = StartStep::Failed;
                    },
                    StartStep::MarkRunning => {
                        self.error = Some(error);
                        self.step = StartStep::Failed;
                    },
                    _ => {
                        self.error = Some(error);
                        self.step = StartStep::RecordFailure;
                    },
                }
            },
        }
    }
}

} // verus!
