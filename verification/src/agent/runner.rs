//! The course of a run on one side.
use crate::agent::replay::ReplayRole;
use crate::domain::scenario::{duration_of, Protocol, Scenario};
use vstd::prelude::*;

verus! {

/// What a worker looks at before a transaction.
#[derive(Debug, Clone, Copy, PartialEq, Eq, Structural)]
pub struct WorkerGate {
    pub running: bool,
    pub paused: bool,
    pub generating: bool,
    pub desired_clients: u32,
    pub worker_index: u32,
}

impl WorkerGate {
    /// A worker is enabled while the run goes on and its number is below that of the clients that
    /// are due.
    pub open spec fn is_enabled(&self) -> bool {
        self.running && self.generating && self.worker_index < self.desired_clients
    }

    /// Whether the worker is enabled.
    pub fn enabled(&self) -> (r: bool)
        ensures
            r == self.is_enabled(),
    {
        self.running && self.generating && self.worker_index < self.desired_clients
    }

    /// Whether the worker waits before its next transaction: the run is paused and goes on.
    pub fn waits(&self) -> (r: bool)
        ensures
            r == (self.paused && self.running && self.generating),
    {
        self.paused && self.running && self.generating
    }

    /// Whether the worker opens no connection now: the run is paused, or fewer clients are due.
    pub fn idles(&self) -> (r: bool)
        ensures
            r == (self.paused || self.worker_index >= self.desired_clients),
    {
        self.paused || self.worker_index >= self.desired_clients
    }
}

/// Which of the flows of a replay a connection takes: they take turns.
pub fn flow_index(counter: u64, flows: usize) -> (r: usize)
    requires
        flows > 0,
    ensures
        r == counter % (flows as u64),
        r < flows,
{
    let index: u64 = counter % (flows as u64);
    index as usize
}

/// The time that a run has been active. Time in which it is paused does not count.
#[derive(Debug, Clone, Copy, PartialEq, Eq, Structural)]
pub struct RunClock {
    pub active_nanos: u64,
    pub last_tick: u64,
}

impl RunClock {
    /// A clock that starts now.
    pub fn start(now: u64) -> (r: RunClock)
        ensures
            r.active_nanos == 0,
            r.last_tick == now,
    {
        RunClock { active_nanos: 0, last_tick: now }
    }

    /// The clock at a later time.
    pub open spec fn ticked(self, now: u64, paused: bool) -> RunClock {
        RunClock {
            active_nanos: if paused || now < self.last_tick {
                self.active_nanos
            } else {
                (self.active_nanos + (now - self.last_tick)) as u64
            },
            last_tick: now,
        }
    }

    /// Lets the clock go on to a later time.
    pub fn tick(&mut self, now: u64, paused: bool)
        requires
            old(self).active_nanos + now <= u64::MAX,
        ensures
            *final(self) == old(self).ticked(now, paused),
    {
        if !paused {
            self.active_nanos = self.active_nanos + now.saturating_sub(self.last_tick);
        }
        self.last_tick = now;
    }

    /// The active time in milliseconds.
    pub fn active_ms(&self) -> (r: u64)
        ensures
            r == self.active_nanos / 1_000_000,
    {
        self.active_nanos / 1_000_000
    }

    /// Whether the active time has reached a number of milliseconds.
    pub fn has_reached(&self, duration_ms: u64) -> (r: bool)
        ensures
            r == (self.active_nanos >= duration_ms * 1_000_000),
    {
        self.active_nanos as u128 >= duration_ms as u128 * 1_000_000
    }
}

/// A paused run makes no progress, and a run that is not paused makes as much as time passes.
pub proof fn pauses_do_not_count(clock: RunClock, now: u64, paused: bool)
    requires
        clock.last_tick <= now,
        clock.active_nanos + now <= u64::MAX,
    ensures
        paused ==> clock.ticked(now, paused).active_nanos == clock.active_nanos,
        !paused ==> clock.ticked(now, paused).active_nanos - clock.active_nanos == now
            - clock.last_tick,
{
}

/// How long a side runs, in milliseconds: as long as the scenario, and a responder 700 more.
pub fn run_duration_ms(scenario: &Scenario, role: ReplayRole) -> (r: u64)
    requires
        duration_of(*scenario) * 1000 + 700 <= u64::MAX,
    ensures
        r == duration_of(*scenario) * 1000 + (if role == ReplayRole::Server {
            700int
        } else {
            0
        }),
{
    let duration: u64 = scenario.effective_duration_secs() * 1000;
    match role {
        ReplayRole::Client => duration,
        ReplayRole::Server => duration + 700,
    }
}

/// What a client does over a connection.
#[derive(Debug, Clone, Copy, PartialEq, Eq, Structural)]
pub enum ClientWork {
    Http2,
    Replay,
    /// HTTP/1.1, with targets in absolute form where plain requests go to a proxy.
    Http1 { absolute: bool },
    Tcp,
}

/// What a client does over a connection: HTTP/2 comes before a replay, and a replay before
/// anything else.
pub fn client_work(scenario: &Scenario, replays: bool) -> (r: ClientWork)
    ensures
        r == (if scenario.protocol == Protocol::Http2 {
            ClientWork::Http2
        } else if replays {
            ClientWork::Replay
        } else if scenario.protocol == Protocol::Http1 {
            ClientWork::Http1 {
                absolute: scenario.path is ExplicitProxy && !scenario.tls.enabled,
            }
        } else {
            ClientWork::Tcp
        }),
{
    if scenario.protocol == Protocol::Http2 {
        return ClientWork::Http2;
    }
    if replays {
        return ClientWork::Replay;
    }
    match scenario.protocol {
        Protocol::Http1 => ClientWork::Http1 {
            absolute: scenario.is_explicit_proxy() && !scenario.tls.enabled,
        },
        _ => ClientWork::Tcp,
    }
}

/// What a responder does over a connection.
#[derive(Debug, Clone, Copy, PartialEq, Eq, Structural)]
pub enum ServerWork {
    Http2,
    Replay,
    Http1,
    Tcp,
}

/// What a responder does over a connection.
pub fn server_work(scenario: &Scenario, replays: bool) -> (r: ServerWork)
    ensures
        r == (if scenario.protocol == Protocol::Http2 {
            ServerWork::Http2
        } else if replays {
            ServerWork::Replay
        } else if scenario.protocol == Protocol::Http1 {
            ServerWork::Http1
        } else {
            ServerWork::Tcp
        }),
{
    match scenario.protocol {
        Protocol::Http2 => ServerWork::Http2,
        _ => if replays {
            ServerWork::Replay
        } else {
            match scenario.protocol {
                Protocol::Http1 => ServerWork::Http1,
                _ => ServerWork::Tcp,
            }
        },
    }
}

/// Whether a connection that ended well counts as one transaction. Over HTTP its transactions
/// have been counted one by one.
pub fn connection_counts(protocol: Protocol) -> (r: bool)
    ensures
        r == (protocol != Protocol::Http1 && protocol != Protocol::Http2),
{
    protocol != Protocol::Http1 && protocol != Protocol::Http2
}

} // verus!
