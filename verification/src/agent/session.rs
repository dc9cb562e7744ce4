//! A connection to the control: what an agent does with each command.
use crate::agent::artifact::{completed_at, CompletedArtifact, Transfers};
use crate::agent::commands::{
    command_seen, is_seen, remember_command, remembered, remembering_is_bounded_and_idempotent,
    well_kept, CompletedCommands,
};
use crate::agent::payload::{is_made, making_problem, PreparedPayloads};
use crate::agent::replay::{flow_turns, plan_of_capture, ReplayPlan, ReplayRole, Turns};
use crate::domain::network::NetworkProfileDraft;
use crate::domain::payload::PayloadMode;
use crate::domain::scenario::{
    first_of, plain_request_bytes, plain_response_bytes, scenario_problem, Scenario,
};
use crate::id::{uuid_of, uuid_text, Uuid};
use crate::ip::IpAddr;
use crate::text::{append, copy};
use crate::wire::{is_wire_of, network_draft_from_wire, wire_problem, WireDraft};
use vstd::prelude::*;

verus! {

/// One end of a test.
#[derive(Debug, Clone, Copy, PartialEq, Eq, Structural)]
pub enum Role {
    Client,
    Server,
}

/// The end that a number in a message stands for.
pub open spec fn role_of(number: i32) -> Option<Role> {
    if number == 1 {
        Some(Role::Client)
    } else if number == 2 {
        Some(Role::Server)
    } else {
        None
    }
}

impl Role {
    /// The number of this end in a message.
    pub fn proto(self) -> (r: i32)
        ensures
            role_of(r) == Some(self),
            r == (if self == Role::Client {
                1int
            } else {
                2
            }),
    {
        match self {
            Role::Client => 1,
            Role::Server => 2,
        }
    }

    /// The end that a number in a message stands for.
    pub fn from_proto(value: i32) -> (r: Option<Role>)
        ensures
            r == role_of(value),
    {
        if value == 1 {
            Some(Role::Client)
        } else if value == 2 {
            Some(Role::Server)
        } else {
            None
        }
    }

    /// The part of this end in a replay.
    pub fn replay(self) -> (r: ReplayRole)
        ensures
            r == replay_role(self),
    {
        match self {
            Role::Client => ReplayRole::Client,
            Role::Server => ReplayRole::Server,
        }
    }
}

/// The part of an end in a replay.
pub open spec fn replay_role(role: Role) -> ReplayRole {
    match role {
        Role::Client => ReplayRole::Client,
        Role::Server => ReplayRole::Server,
    }
}

/// Where a run takes place. What is not given is decided by the scenario or the system.
#[derive(Debug, Clone, PartialEq, Eq)]
pub struct Runtime {
    pub target_addr: Option<String>,
    pub interface: Option<String>,
    pub namespace: Option<String>,
    pub source_ips: Vec<IpAddr>,
}

/// A run that is ready to start.
#[derive(Debug, Clone)]
pub struct PreparedRun {
    pub run_id: Uuid,
    pub scenario: Scenario,
    pub runtime: Runtime,
    pub payloads: PreparedPayloads,
    pub replay: Option<ReplayPlan>,
}

/// A run that was started. The number tells it from others of the same end.
#[derive(Debug, Clone, Copy, PartialEq, Eq)]
pub struct ActiveRun {
    pub run_id: Uuid,
    pub number: u64,
    pub running: bool,
    pub paused: bool,
}

/// What an agent keeps while it is connected.
#[derive(Debug, Clone)]
pub struct Session {
    pub commands: CompletedCommands,
    pub transfers: Transfers,
    pub prepared_client: Option<PreparedRun>,
    pub prepared_server: Option<PreparedRun>,
    pub client: Option<ActiveRun>,
    pub server: Option<ActiveRun>,
    pub started: u64,
}

/// What is known of a session.
#[verifier::ext_equal]
pub struct SessionView {
    pub commands: Seq<Seq<char>>,
    pub transfers: Transfers,
    pub prepared_client: Option<PreparedRun>,
    pub prepared_server: Option<PreparedRun>,
    pub client: Option<ActiveRun>,
    pub server: Option<ActiveRun>,
    pub started: u64,
}

impl View for Session {
    type V = SessionView;

    open spec fn view(&self) -> SessionView {
        SessionView {
            commands: self.commands@,
            transfers: self.transfers,
            prepared_client: self.prepared_client,
            prepared_server: self.prepared_server,
            client: self.client,
            server: self.server,
            started: self.started,
        }
    }
}

impl Default for Session {
    fn default() -> (r: Session)
        ensures
            r@.commands == Seq::<Seq<char>>::empty(),
            r.transfers.incoming@.len() == 0,
            r.transfers.completed@.len() == 0,
            r.prepared_client is None,
            r.prepared_server is None,
            r.client is None,
            r.server is None,
            r.started == 0,
            well_kept(r@.commands),
    {
        Session {
            commands: CompletedCommands::default(),
            transfers: Transfers::default(),
            prepared_client: None,
            prepared_server: None,
            client: None,
            server: None,
            started: 0,
        }
    }
}

/// The answer to a command.
#[derive(Debug, Clone, PartialEq, Eq)]
pub struct CommandAck {
    pub command_id: String,
    pub run_id: String,
    pub phase: String,
    pub ok: bool,
    pub error: String,
}

/// What an answer says.
#[verifier::ext_equal]
pub struct AckView {
    pub command_id: Seq<char>,
    pub run_id: Seq<char>,
    pub phase: Seq<char>,
    pub ok: bool,
    pub error: Seq<char>,
}

impl View for CommandAck {
    type V = AckView;

    open spec fn view(&self) -> AckView {
        AckView {
            command_id: self.command_id@,
            run_id: self.run_id@,
            phase: self.phase@,
            ok: self.ok,
            error: self.error@,
        }
    }
}

/// The answer to a command that was carried out.
pub open spec fn ack_of(command: Seq<char>, run: Seq<char>, phase: Seq<char>) -> AckView {
    AckView { command_id: command, run_id: run, phase, ok: true, error: Seq::empty() }
}

impl CommandAck {
    /// The answer to a command that was carried out.
    pub fn accept(command_id: &str, run_id: &str, phase: &str) -> (r: CommandAck)
        ensures
            r@ == ack_of(command_id@, run_id@, phase@),
    {
        let r = CommandAck {
            command_id: copy(command_id),
            run_id: copy(run_id),
            phase: copy(phase),
            ok: true,
            error: String::new(),
        };
        assert(r@ =~= ack_of(command_id@, run_id@, phase@));
        r
    }

    /// The answer to a command that was refused.
    pub fn refuse(command_id: &str, run_id: &str, phase: &str, error: &str) -> (r: CommandAck)
        ensures
            r@ == (AckView {
                command_id: command_id@,
                run_id: run_id@,
                phase: phase@,
                ok: false,
                error: error@,
            }),
    {
        CommandAck {
            command_id: copy(command_id),
            run_id: copy(run_id),
            phase: copy(phase),
            ok: false,
            error: copy(error),
        }
    }
}

/// The command to start a run.
#[derive(Debug, Clone, PartialEq, Eq)]
pub struct StartCommand {
    pub command_id: String,
    pub run_id: String,
    pub endpoint_role: i32,
    pub start_unix_ms: i64,
}

/// The command to stop a run. Without an end it is for both.
#[derive(Debug, Clone, PartialEq, Eq)]
pub struct StopCommand {
    pub command_id: String,
    pub run_id: String,
    pub endpoint_role: i32,
}

/// The command to pause a run or to let it go on. Without an end it is for both.
#[derive(Debug, Clone, PartialEq, Eq)]
pub struct PauseCommand {
    pub command_id: String,
    pub run_id: String,
    pub endpoint_role: i32,
    pub paused: bool,
}

/// The command to prepare a run. The scenario and the addresses come with it.
#[derive(Debug, Clone, PartialEq, Eq)]
pub struct PrepareCommand {
    pub command_id: String,
    pub run_id: String,
    pub endpoint_role: i32,
    pub target_addr: String,
    pub interface_name: String,
    pub namespace: String,
}

/// What follows from a command to start a run: the answer, and whether a worker is to be started.
#[derive(Debug, Clone, PartialEq, Eq)]
pub struct StartReply {
    pub ack: CommandAck,
    pub launch: Option<Role>,
}

/// The run that is ready at an end.
pub open spec fn prepared_at(s: SessionView, role: Role) -> Option<PreparedRun> {
    match role {
        Role::Client => s.prepared_client,
        Role::Server => s.prepared_server,
    }
}

/// The run that was last started at an end.
pub open spec fn active_at(s: SessionView, role: Role) -> Option<ActiveRun> {
    match role {
        Role::Client => s.client,
        Role::Server => s.server,
    }
}

/// The session with another run at an end.
pub open spec fn with_active(s: SessionView, role: Role, run: Option<ActiveRun>) -> SessionView {
    match role {
        Role::Client => SessionView { client: run, ..s },
        Role::Server => SessionView { server: run, ..s },
    }
}

/// A run is going on.
pub open spec fn is_running(run: Option<ActiveRun>) -> bool {
    run is Some && run->0.running
}

/// A run cannot start at an end: one was started there, and a run is going on at some end.
pub open spec fn is_taken(s: SessionView, role: Role) -> bool {
    (is_running(s.client) || is_running(s.server)) && active_at(s, role) is Some
}

/// What is answered to a command to start a run, and where a worker is to be started; or why the
/// connection ends.
pub open spec fn start_reply(s: SessionView, c: StartCommand) -> Result<
    (AckView, Option<Role>),
    Seq<char>,
> {
    let accepted = ack_of(c.command_id@, c.run_id@, "start"@);
    match role_of(c.endpoint_role) {
        None => Err("invalid endpoint role"@),
        Some(role) => if is_seen(s.commands, c.command_id@) {
            Ok((accepted, None))
        } else if prepared_at(s, role) is None {
            Ok((AckView { ok: false, error: "run was not prepared"@, ..accepted }, None))
        } else if is_taken(s, role) {
            Ok((AckView { ok: false, error: "another run is active"@, ..accepted }, None))
        } else {
            Ok((accepted, Some(role)))
        },
    }
}

/// The session after a command to start a run.
pub open spec fn start_after(s: SessionView, c: StartCommand) -> SessionView {
    match start_reply(s, c) {
        Ok((_, Some(role))) => {
            let run = ActiveRun {
                run_id: prepared_at(s, role)->0.run_id,
                number: s.started.wrapping_add(1),
                running: true,
                paused: false,
            };
            SessionView {
                commands: remembered(s.commands, c.command_id@),
                started: s.started.wrapping_add(1),
                ..with_active(s, role, Some(run))
            }
        },
        _ => s,
    }
}

/// A command for this run and this end, or for both, means a run at an end.
pub open spec fn is_meant(run: ActiveRun, role: Role, run_id: Seq<char>, number: i32) -> bool {
    &&& uuid_of(run_id) == Ok::<u128, Seq<char>>(run.run_id.value)
    &&& number == 0 || role_of(number) == Some(role)
}

/// A run after the command to stop it.
pub open spec fn stopped(run: Option<ActiveRun>, role: Role, c: StopCommand) -> Option<ActiveRun> {
    match run {
        Some(active) => if is_meant(active, role, c.run_id@, c.endpoint_role) {
            Some(ActiveRun { running: false, paused: false, ..active })
        } else {
            Some(active)
        },
        None => None,
    }
}

/// The session after a command to stop a run.
pub open spec fn stop_after(s: SessionView, c: StopCommand) -> SessionView {
    if is_seen(s.commands, c.command_id@) {
        s
    } else {
        SessionView {
            commands: remembered(s.commands, c.command_id@),
            client: stopped(s.client, Role::Client, c),
            server: stopped(s.server, Role::Server, c),
            ..s
        }
    }
}

/// A run after the command to pause it or to let it go on. A run that has ended stays as it is.
pub open spec fn paused(run: Option<ActiveRun>, role: Role, c: PauseCommand) -> Option<ActiveRun> {
    match run {
        Some(active) => if is_meant(active, role, c.run_id@, c.endpoint_role) && active.running {
            Some(ActiveRun { paused: c.paused, ..active })
        } else {
            Some(active)
        },
        None => None,
    }
}

/// The session after a command to pause a run or to let it go on.
pub open spec fn pause_after(s: SessionView, c: PauseCommand) -> SessionView {
    if is_seen(s.commands, c.command_id@) {
        s
    } else {
        SessionView {
            commands: remembered(s.commands, c.command_id@),
            client: paused(s.client, Role::Client, c),
            server: paused(s.server, Role::Server, c),
            ..s
        }
    }
}

/// A run after its worker has ended.
pub open spec fn ended(run: Option<ActiveRun>, number: u64) -> Option<ActiveRun> {
    match run {
        Some(active) => if active.number == number {
            Some(ActiveRun { running: false, ..active })
        } else {
            Some(active)
        },
        None => None,
    }
}

/// What is to be done with a command to prepare a run.
#[derive(Debug, Clone, PartialEq, Eq)]
pub enum PrepareGate {
    /// The connection ends, for this reason.
    Refuse(String),
    /// It was carried out before; this is the answer.
    Repeat(CommandAck),
    /// It is to be carried out for this end.
    Open(Role),
}

/// Why a command to prepare a run ends the connection at once.
pub open spec fn prepare_refusal(s: SessionView, c: PrepareCommand) -> Option<Seq<char>> {
    if role_of(c.endpoint_role) is None {
        Some("invalid endpoint role"@)
    } else if !is_seen(s.commands, c.command_id@) && s.transfers.incoming@.len() > 0 {
        Some("PrepareRun arrived before artifact transfer completed"@)
    } else {
        None
    }
}

/// A run that is being prepared. The capture is still to be read from its path, if there is one.
#[derive(Debug, Clone)]
pub struct PreparingRun {
    pub scenario: Scenario,
    pub runtime: Runtime,
    pub payloads: PreparedPayloads,
    pub capture: Option<String>,
}

/// A text that may be left empty.
pub open spec fn given_text(text: Seq<char>, r: Option<String>) -> bool {
    match r {
        Some(t) => text.len() > 0 && t@ == text,
        None => text.len() == 0,
    }
}

/// A text that may be left empty.
fn unless_empty(text: &str) -> (r: Option<String>)
    ensures
        given_text(text@, r),
{
    if text.is_empty() {
        None
    } else {
        Some(copy(text))
    }
}

/// What is missing of the capture that a scenario replays.
pub open spec fn capture_problem(scenario: Scenario, artifacts: Transfers) -> Option<Seq<char>> {
    if scenario.payload_mode != PayloadMode::CaptureReplay {
        None
    } else {
        match scenario.capture_artifact_id {
            None => Some("capture artifact ID"@),
            Some(id) => match completed_at(artifacts.completed@, id, 0) {
                Some(i) if artifacts.completed@[i].1 is Capture => None,
                _ => Some("capture artifact "@ + uuid_text(id.value) + " was not transferred"@),
            },
        }
    }
}

/// Why a run with this scenario cannot be prepared: the scenario is not valid, a payload cannot be
/// made, or the capture is missing.
pub open spec fn preparing_problem(scenario: Scenario, artifacts: Transfers) -> Option<Seq<char>> {
    first_of(
        first_of(
            scenario_problem(scenario),
            first_of(
                making_problem(scenario.request_payload, artifacts),
                making_problem(scenario.response_payload, artifacts),
            ),
        ),
        capture_problem(scenario, artifacts),
    )
}

/// Why a run that is being prepared cannot be completed: its capture, or the identifier.
pub open spec fn completing_problem(
    scenario: Scenario,
    capture: Option<Seq<u8>>,
    role: Role,
    run_id: Seq<char>,
) -> Option<Seq<char>> {
    match capture {
        Some(bytes) => match plan_of_capture(bytes, scenario, replay_role(role)) {
            Err(message) => Some(message),
            Ok(_) => match uuid_of(run_id) {
                Err(message) => Some(message),
                Ok(_) => None,
            },
        },
        None => match uuid_of(run_id) {
            Err(message) => Some(message),
            Ok(_) => None,
        },
    }
}

impl Session {
    /// What is to be done with a command to prepare a run.
    pub fn prepare_gate(&self, c: &PrepareCommand) -> (r: PrepareGate)
        ensures
            match r {
                PrepareGate::Refuse(message) => prepare_refusal(self@, *c) == Some(message@),
                PrepareGate::Repeat(ack) => {
                    &&& prepare_refusal(self@, *c) is None
                    &&& is_seen(self@.commands, c.command_id@)
                    &&& ack@ == ack_of(c.command_id@, c.run_id@, "prepare"@)
                },
                PrepareGate::Open(role) => {
                    &&& prepare_refusal(self@, *c) is None
                    &&& !is_seen(self@.commands, c.command_id@)
                    &&& role_of(c.endpoint_role) == Some(role)
                },
            },
    {
        match Role::from_proto(c.endpoint_role) {
            None => PrepareGate::Refuse(copy("invalid endpoint role")),
            Some(role) => {
                if command_seen(&self.commands, c.command_id.as_str()) {
                    return PrepareGate::Repeat(
                        CommandAck::accept(c.command_id.as_str(), c.run_id.as_str(), "prepare"),
                    );
                }
                if self.transfers.incoming.len() > 0 {
                    return PrepareGate::Refuse(
                        copy("PrepareRun arrived before artifact transfer completed"),
                    );
                }
                PrepareGate::Open(role)
            },
        }
    }

    /// Prepares a run with this scenario and these source addresses, up to its capture.
    pub fn prepare(&self, c: &PrepareCommand, scenario: Scenario, source_ips: Vec<IpAddr>) -> (r:
        Result<PreparingRun, String>)
        ensures
            match r {
                Ok(run) => {
                    &&& preparing_problem(scenario, self.transfers) is None
                    &&& run.scenario == scenario
                    &&& given_text(c.target_addr@, run.runtime.target_addr)
                    &&& given_text(c.interface_name@, run.runtime.interface)
                    &&& given_text(c.namespace@, run.runtime.namespace)
                    &&& run.runtime.source_ips == source_ips
                    &&& is_made(
                        run.payloads.request@,
                        scenario.request_payload,
                        plain_request_bytes(scenario),
                        self.transfers,
                    )
                    &&& is_made(
                        run.payloads.response@,
                        scenario.response_payload,
                        plain_response_bytes(scenario),
                        self.transfers,
                    )
                    &&& match run.capture {
                        Some(path) => {
                            let id = scenario.capture_artifact_id->0;
                            let at = completed_at(self.transfers.completed@, id, 0)->0;
                            &&& scenario.payload_mode == PayloadMode::CaptureReplay
                            &&& self.transfers.completed@[at].1 matches CompletedArtifact::Capture(
                                stored,
                            ) && stored@ == path@
                        },
                        None => scenario.payload_mode != PayloadMode::CaptureReplay,
                    }
                },
                Err(message) => preparing_problem(scenario, self.transfers) == Some(message@),
            },
    {
        if let Err(error) = scenario.validate() {
            return Err(copy(error.message()));
        }
        let payloads = match PreparedPayloads::new(&scenario, &self.transfers) {
            Ok(payloads) => payloads,
            Err(message) => {
                return Err(message);
            },
        };
        let mut capture: Option<String> = None;
        if scenario.payload_mode == PayloadMode::CaptureReplay {
            let id: Uuid = match scenario.capture_artifact_id {
                Some(id) => id,
                None => {
                    return Err(copy("capture artifact ID"));
                },
            };
            match self.transfers.find(id) {
                Some(CompletedArtifact::Capture(path)) => {
                    capture = Some(copy(path.as_str()));
                },
                _ => {
                    let mut message = copy("capture artifact ");
                    let text = id.to_text();
                    append(&mut message, text.as_str());
                    append(&mut message, " was not transferred");
                    return Err(message);
                },
            }
        }
        Ok(
            PreparingRun {
                scenario,
                runtime: Runtime {
                    target_addr: unless_empty(c.target_addr.as_str()),
                    interface: unless_empty(c.interface_name.as_str()),
                    namespace: unless_empty(c.namespace.as_str()),
                    source_ips,
                },
                payloads,
                capture,
            },
        )
    }

    /// Completes a run that is being prepared, with the contents of its capture.
    pub fn complete(
        &mut self,
        c: &PrepareCommand,
        role: Role,
        run: PreparingRun,
        capture: Option<Vec<u8>>,
    ) -> (r: Result<CommandAck, String>)
        requires
            well_kept(old(self)@.commands),
        ensures
            well_kept(final(self)@.commands),
            ({
                let bytes = match capture {
                    Some(data) => Some(data@),
                    None => None,
                };
                let problem = completing_problem(run.scenario, bytes, role, c.run_id@);
                match r {
                    Ok(ack) => {
                        let ready = prepared_at(final(self)@, role);
                        &&& problem is None
                        &&& ack@ == ack_of(c.command_id@, c.run_id@, "prepare"@)
                        &&& ready is Some
                        &&& uuid_of(c.run_id@) == Ok::<u128, Seq<char>>(ready->0.run_id.value)
                        &&& ready->0.scenario == run.scenario
                        &&& ready->0.runtime == run.runtime
                        &&& ready->0.payloads == run.payloads
                        &&& match ready->0.replay {
                            Some(plan) => bytes is Some && plan_of_capture(
                                bytes->0,
                                run.scenario,
                                replay_role(role),
                            ) == Ok::<Seq<Turns>, Seq<char>>(flow_turns(plan.flows@)),
                            None => bytes is None,
                        }
                        &&& final(self)@ == (match role {
                            Role::Client => SessionView {
                                commands: remembered(old(self)@.commands, c.command_id@),
                                prepared_client: ready,
                                ..old(self)@
                            },
                            Role::Server => SessionView {
                                commands: remembered(old(self)@.commands, c.command_id@),
                                prepared_server: ready,
                                ..old(self)@
                            },
                        })
                    },
                    Err(message) => problem == Some(message@) && *final(self) == *old(self),
                }
            }),
    {
        proof {
            remembering_is_bounded_and_idempotent(self@.commands, c.command_id@);
        }
        let replay: Option<ReplayPlan> = match &capture {
            Some(bytes) => match ReplayPlan::from_capture(
                bytes.as_slice(),
                &run.scenario,
                role.replay(),
            ) {
                Ok(plan) => Some(plan),
                Err(error) => {
                    return Err(error.message);
                },
            },
            None => None,
        };
        let run_id: Uuid = match Uuid::parse_str(c.run_id.as_str()) {
            Ok(id) => id,
            Err(message) => {
                return Err(message);
            },
        };
        let ready = PreparedRun {
            run_id,
            scenario: run.scenario,
            runtime: run.runtime,
            payloads: run.payloads,
            replay,
        };
        match role {
            Role::Client => {
                self.prepared_client = Some(ready);
            },
            Role::Server => {
                self.prepared_server = Some(ready);
            },
        }
        remember_command(&mut self.commands, c.command_id.as_str());
        Ok(CommandAck::accept(c.command_id.as_str(), c.run_id.as_str(), "prepare"))
    }

    /// Carries out a command to start a run. An error ends the connection.
    pub fn start(&mut self, c: &StartCommand) -> (r: Result<StartReply, String>)
        requires
            well_kept(old(self)@.commands),
        ensures
            well_kept(final(self)@.commands),
            final(self)@ == start_after(old(self)@, *c),
            match r {
                Ok(reply) => start_reply(old(self)@, *c) == Ok::<
                    (AckView, Option<Role>),
                    Seq<char>,
                >((reply.ack@, reply.launch)),
                Err(message) => start_reply(old(self)@, *c) == Err::<
                    (AckView, Option<Role>),
                    Seq<char>,
                >(message@),
            },
    {
        proof {
            remembering_is_bounded_and_idempotent(self@.commands, c.command_id@);
        }
        let role: Role = match Role::from_proto(c.endpoint_role) {
            Some(role) => role,
            None => {
                return Err(copy("invalid endpoint role"));
            },
        };
        if command_seen(&self.commands, c.command_id.as_str()) {
            return Ok(
                StartReply {
                    ack: CommandAck::accept(c.command_id.as_str(), c.run_id.as_str(), "start"),
                    launch: None,
                },
            );
        }
        let ready: Option<Uuid> = match role {
            Role::Client => match &self.prepared_client {
                Some(run) => Some(run.run_id),
                None => None,
            },
            Role::Server => match &self.prepared_server {
                Some(run) => Some(run.run_id),
                None => None,
            },
        };
        let run_id: Uuid = match ready {
            Some(id) => id,
            None => {
                return Ok(
                    StartReply {
                        ack: CommandAck::refuse(
                            c.command_id.as_str(),
                            c.run_id.as_str(),
                            "start",
                            "run was not prepared",
                        ),
                        launch: None,
                    },
                );
            },
        };
        let client_runs: bool = match &self.client {
            Some(run) => run.running,
            None => false,
        };
        let server_runs: bool = match &self.server {
            Some(run) => run.running,
            None => false,
        };
        let here: bool = match role {
            Role::Client => self.client.is_some(),
            Role::Server => self.server.is_some(),
        };
        if (client_runs || server_runs) && here {
            return Ok(
                StartReply {
                    ack: CommandAck::refuse(
                        c.command_id.as_str(),
                        c.run_id.as_str(),
                        "start",
                        "another run is active",
                    ),
                    launch: None,
                },
            );
        }
        self.started = self.started.wrapping_add(1);
        let run = ActiveRun { run_id, number: self.started, running: true, paused: false };
        match role {
            Role::Client => {
                self.client = Some(run);
            },
            Role::Server => {
                self.server = Some(run);
            },
        }
        remember_command(&mut self.commands, c.command_id.as_str());
        Ok(
            StartReply {
                ack: CommandAck::accept(c.command_id.as_str(), c.run_id.as_str(), "start"),
                launch: Some(role),
            },
        )
    }

    /// Carries out a command to stop a run.
    pub fn stop(&mut self, c: &StopCommand) -> (r: CommandAck)
        requires
            well_kept(old(self)@.commands),
        ensures
            well_kept(final(self)@.commands),
            final(self)@ == stop_after(old(self)@, *c),
            r@ == ack_of(c.command_id@, c.run_id@, "stop"@),
    {
        proof {
            remembering_is_bounded_and_idempotent(self@.commands, c.command_id@);
        }
        let ack = CommandAck::accept(c.command_id.as_str(), c.run_id.as_str(), "stop");
        if command_seen(&self.commands, c.command_id.as_str()) {
            return ack;
        }
        if let Ok(run_id) = Uuid::parse_str(c.run_id.as_str()) {
            if let Some(run) = self.client {
                if run.run_id.value == run_id.value && (c.endpoint_role == 0 || c.endpoint_role
                    == 1) {
                    self.client = Some(ActiveRun { running: false, paused: false, ..run });
                }
            }
            if let Some(run) = self.server {
                if run.run_id.value == run_id.value && (c.endpoint_role == 0 || c.endpoint_role
                    == 2) {
                    self.server = Some(ActiveRun { running: false, paused: false, ..run });
                }
            }
        }
        remember_command(&mut self.commands, c.command_id.as_str());
        ack
    }

    /// Carries out a command to pause a run or to let it go on.
    pub fn set_paused(&mut self, c: &PauseCommand) -> (r: CommandAck)
        requires
            well_kept(old(self)@.commands),
        ensures
            well_kept(final(self)@.commands),
            final(self)@ == pause_after(old(self)@, *c),
            r@ == ack_of(c.command_id@, c.run_id@, "pause"@),
    {
        proof {
            remembering_is_bounded_and_idempotent(self@.commands, c.command_id@);
        }
        let ack = CommandAck::accept(c.command_id.as_str(), c.run_id.as_str(), "pause");
        if command_seen(&self.commands, c.command_id.as_str()) {
            return ack;
        }
        if let Ok(run_id) = Uuid::parse_str(c.run_id.as_str()) {
            if let Some(run) = self.client {
                if run.run_id.value == run_id.value && (c.endpoint_role == 0 || c.endpoint_role
                    == 1) && run.running {
                    self.client = Some(ActiveRun { paused: c.paused, ..run });
                }
            }
            if let Some(run) = self.server {
                if run.run_id.value == run_id.value && (c.endpoint_role == 0 || c.endpoint_role
                    == 2) && run.running {
                    self.server = Some(ActiveRun { paused: c.paused, ..run });
                }
            }
        }
        remember_command(&mut self.commands, c.command_id.as_str());
        ack
    }

    /// Takes notice that the worker of a run has ended.
    pub fn worker_ended(&mut self, number: u64)
        ensures
            final(self)@ == (SessionView {
                client: ended(old(self)@.client, number),
                server: ended(old(self)@.server, number),
                ..old(self)@
            }),
    {
        if let Some(run) = self.client {
            if run.number == number {
                self.client = Some(ActiveRun { running: false, ..run });
            }
        }
        if let Some(run) = self.server {
            if run.number == number {
                self.server = Some(ActiveRun { running: false, ..run });
            }
        }
    }
}

/// A command that was carried out is not carried out again: it changes nothing and is answered as
/// before. Once it was carried out it is remembered.
pub proof fn commands_are_carried_out_once(
    s: SessionView,
    start: StartCommand,
    stop: StopCommand,
    pause: PauseCommand,
)
    requires
        well_kept(s.commands),
    ensures
        stop.command_id@.len() > 0 ==> stop_after(stop_after(s, stop), stop) == stop_after(s, stop),
        pause.command_id@.len() > 0 ==> pause_after(pause_after(s, pause), pause) == pause_after(
            s,
            pause,
        ),
        (start.command_id@.len() > 0 && start_reply(s, start) is Ok && start_reply(
            s,
            start,
        )->Ok_0.0.ok) ==> {
            let after = start_after(s, start);
            &&& start_after(after, start) == after
            &&& start_reply(after, start) == Ok::<(AckView, Option<Role>), Seq<char>>(
                (start_reply(s, start)->Ok_0.0, None),
            )
        },
{
    remembering_is_bounded_and_idempotent(s.commands, stop.command_id@);
    remembering_is_bounded_and_idempotent(s.commands, pause.command_id@);
    remembering_is_bounded_and_idempotent(s.commands, start.command_id@);
}

/// After a command to stop a run that was not carried out before, that run goes on at none of the
/// ends that it means, and every other run is as it was.
pub proof fn stopped_runs_do_not_go_on(s: SessionView, c: StopCommand, role: Role)
    requires
        !is_seen(s.commands, c.command_id@),
    ensures
        ({
            let before = active_at(s, role);
            let after = active_at(stop_after(s, c), role);
            if before is Some && is_meant(before->0, role, c.run_id@, c.endpoint_role) {
                !is_running(after)
            } else {
                after == before
            }
        }),
{
}

/// A run is not started at an end where another one goes on.
pub proof fn ends_have_one_run_at_a_time(s: SessionView, c: StartCommand, role: Role)
    requires
        is_running(active_at(s, role)),
    ensures
        active_at(start_after(s, c), role) == active_at(s, role),
{
}

/// What a network command asks for.
#[derive(Debug, Clone, Copy, PartialEq, Eq, Structural)]
pub enum NetworkAction {
    Plan,
    Stage,
    Commit,
    Rollback,
    Teardown,
    Reconcile,
    /// Nothing.
    Missing,
}

/// The name of what a network command asks for.
pub open spec fn stage_name(action: NetworkAction) -> Seq<char> {
    match action {
        NetworkAction::Plan => "plan"@,
        NetworkAction::Stage => "stage"@,
        NetworkAction::Commit => "commit"@,
        NetworkAction::Rollback => "rollback"@,
        NetworkAction::Teardown => "teardown"@,
        NetworkAction::Reconcile => "reconcile"@,
        NetworkAction::Missing => "unknown"@,
    }
}

/// The name of what a network command asks for.
fn name_stage(action: NetworkAction) -> (r: &'static str)
    ensures
        r@ == stage_name(action),
{
    match action {
        NetworkAction::Plan => "plan",
        NetworkAction::Stage => "stage",
        NetworkAction::Commit => "commit",
        NetworkAction::Rollback => "rollback",
        NetworkAction::Teardown => "teardown",
        NetworkAction::Reconcile => "reconcile",
        NetworkAction::Missing => "unknown",
    }
}

/// Whether a network command is carried out by undoing what the journal tells of.
pub fn undoes(action: NetworkAction) -> (r: bool)
    ensures
        r == (action == NetworkAction::Rollback || action == NetworkAction::Teardown || action
            == NetworkAction::Reconcile),
{
    action == NetworkAction::Rollback || action == NetworkAction::Teardown || action
        == NetworkAction::Reconcile
}

/// The answer to a network command with this outcome. One that asks for nothing is refused. Its
/// `phase` is also the stage of the progress that is reported.
pub fn network_ack(command_id: &str, action: NetworkAction, outcome: Result<(), String>) -> (r:
    CommandAck)
    ensures
        r@.command_id == command_id@,
        r@.run_id == Seq::<char>::empty(),
        r@.phase == stage_name(action),
        r@.ok == (action != NetworkAction::Missing && outcome is Ok),
        r@.error == (if action == NetworkAction::Missing {
            "network action is required"@
        } else {
            match outcome {
                Ok(_) => Seq::empty(),
                Err(message) => message@,
            }
        }),
{
    let phase: &str = name_stage(action);
    if action == NetworkAction::Missing {
        let r = CommandAck::refuse(command_id, "", phase, "network action is required");
        proof {
            reveal_strlit("");
        }
        assert(r@.run_id =~= Seq::empty());
        return r;
    }
    let r = match outcome {
        Ok(_) => CommandAck::accept(command_id, "", phase),
        Err(message) => CommandAck::refuse(command_id, "", phase, message.as_str()),
    };
    proof {
        reveal_strlit("");
    }
    assert(r@.run_id =~= Seq::empty());
    r
}

/// The network profile that a command to plan brings, or why the connection ends.
pub fn draft_to_plan(draft: Option<WireDraft>) -> (r: Result<NetworkProfileDraft, String>)
    ensures
        match r {
            Ok(value) => draft is Some && wire_problem(draft->0) is None && is_wire_of(
                draft->0,
                value,
            ),
            Err(message) => match draft {
                None => message@ == "network draft"@,
                Some(wire) => wire_problem(wire) == Some(message@),
            },
        },
{
    match draft {
        None => Err(copy("network draft")),
        Some(wire) => match network_draft_from_wire(wire) {
            Ok(value) => Ok(value),
            Err(error) => Err(error.message()),
        },
    }
}

} // verus!
