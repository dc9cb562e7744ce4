//! What becomes of runs, of artifacts on their way and of connections with TLS.
use crate::agent::artifact::{
    artifact_limit, chunk_outcome, completed_at, incoming_at, received_before, same_artifact,
    ArtifactChunk, ChunkStep, Transfers,
};
use crate::agent::commands::{is_seen, remembered};
use crate::agent::connector::{head_step, HeadStep};
use crate::agent::http2::asked_length;
use crate::agent::runner::RunClock;
use crate::agent::session::{
    active_at, is_taken, pause_after, prepared_at, role_of, start_after, start_reply, stop_after,
    PauseCommand, Role, SessionView, StartCommand, StopCommand,
};
use crate::agent::tls::{client_tls_of, positions_of, server_tls_of, suites_of};
use crate::capture::http::head_end_mark;
use crate::domain::scenario::{Protocol, Scenario};
use crate::domain::tls::TlsVersion;
use crate::id::{uuid_of, Uuid};
use crate::text::{decimal, decimals_denote_their_number};
use vstd::prelude::*;

verus! {

/// A command for a role means an end of a run: it names the run, and the role or none.
pub open spec fn names_run(run_id: Seq<char>, number: i32, id: Uuid, role: Role) -> bool {
    &&& uuid_of(run_id) == Ok::<u128, Seq<char>>(id.value)
    &&& number == 0 || number == (match role {
        Role::Client => 1i32,
        Role::Server => 2i32,
    })
}

/// A prepared run that is started runs, rests from when it is paused until it goes on, and does not
/// run any more when it is stopped. It stays the same run all the time.
pub proof fn runs_live_until_they_are_stopped(
    s: SessionView,
    start: StartCommand,
    pause: PauseCommand,
    resume: PauseCommand,
    stop: StopCommand,
    role: Role,
)
    requires
        start.endpoint_role == (match role {
            Role::Client => 1i32,
            Role::Server => 2i32,
        }),
        prepared_at(s, role) is Some,
        !is_taken(s, role),
        !is_seen(s.commands, start.command_id@),
        names_run(pause.run_id@, pause.endpoint_role, prepared_at(s, role)->0.run_id, role),
        names_run(resume.run_id@, resume.endpoint_role, prepared_at(s, role)->0.run_id, role),
        names_run(stop.run_id@, stop.endpoint_role, prepared_at(s, role)->0.run_id, role),
        pause.paused,
        !resume.paused,
        !is_seen(start_after(s, start).commands, pause.command_id@),
        !is_seen(pause_after(start_after(s, start), pause).commands, resume.command_id@),
        !is_seen(
            pause_after(pause_after(start_after(s, start), pause), resume).commands,
            stop.command_id@,
        ),
    ensures
        ({
            let one = active_at(start_after(s, start), role);
            let two = active_at(pause_after(start_after(s, start), pause), role);
            let three = active_at(
                pause_after(pause_after(start_after(s, start), pause), resume),
                role,
            );
            let four = active_at(
                stop_after(pause_after(pause_after(start_after(s, start), pause), resume), stop),
                role,
            );
            &&& one is Some && two is Some && three is Some && four is Some
            &&& one->0.run_id == prepared_at(s, role)->0.run_id
            &&& one->0.running && !one->0.paused
            &&& two->0.running && two->0.paused
            &&& three == one
            &&& !four->0.running && !four->0.paused
            &&& one->0.run_id == two->0.run_id && two->0.run_id == four->0.run_id
            &&& one->0.number == two->0.number && two->0.number == four->0.number
        }),
        start_reply(s, start) is Ok,
        start_reply(s, start)->Ok_0.0.ok,
        start_reply(s, start)->Ok_0.1 == Some(role),
{
}

/// A command that means another run changes no end.
pub proof fn other_runs_are_left_alone(
    s: SessionView,
    pause: PauseCommand,
    stop: StopCommand,
    role: Role,
)
    requires
        active_at(s, role) is Some,
        uuid_of(pause.run_id@) != Ok::<u128, Seq<char>>(active_at(s, role)->0.run_id.value),
        uuid_of(stop.run_id@) != Ok::<u128, Seq<char>>(active_at(s, role)->0.run_id.value),
    ensures
        active_at(pause_after(s, pause), role) == active_at(s, role),
        active_at(stop_after(s, stop), role) == active_at(s, role),
{
}

/// Starting a run at one end does not touch the other, nor what is prepared.
pub proof fn ends_are_started_alone(s: SessionView, start: StartCommand, role: Role)
    requires
        role_of(start.endpoint_role) != Some(role),
    ensures
        active_at(start_after(s, start), role) == active_at(s, role),
        start_after(s, start).prepared_client == s.prepared_client,
        start_after(s, start).prepared_server == s.prepared_server,
        start_after(s, start).transfers == s.transfers,
{
}

/// Only the part that goes on where an artifact stopped is stored, and the last one is that with
/// which it is whole.
pub proof fn artifacts_arrive_in_order(t: Transfers, chunk: ArtifactChunk)
    requires
        chunk_outcome(t, chunk) matches Ok(ChunkStep::Store { .. }),
    ensures
        ({
            let id = Uuid { value: uuid_of(chunk.artifact_id@)->Ok_0 };
            let last = chunk_outcome(t, chunk)->Ok_0->last;
            &&& chunk.offset == received_before(t, id)
            &&& chunk.offset + chunk.data@.len() <= chunk.total_size
            &&& chunk.total_size <= artifact_limit(chunk.artifact_kind@)
            &&& last ==> chunk.offset + chunk.data@.len() == chunk.total_size
            &&& last == chunk.eof
        }),
{
}

/// A part that goes on where an artifact stopped, says the same of it as those before and does not
/// reach beyond its end, is stored.
pub proof fn next_parts_are_stored(t: Transfers, chunk: ArtifactChunk, id: Uuid)
    requires
        uuid_of(chunk.artifact_id@) == Ok::<u128, Seq<char>>(id.value),
        completed_at(t.completed@, id, 0) is None,
        chunk.total_size <= artifact_limit(chunk.artifact_kind@),
        incoming_at(t.incoming@, id, 0) is Some ==> same_artifact(
            t.incoming@[incoming_at(t.incoming@, id, 0)->0],
            chunk,
        ),
        chunk.offset == received_before(t, id),
        chunk.offset + chunk.data@.len() <= chunk.total_size,
        chunk.eof ==> chunk.offset + chunk.data@.len() == chunk.total_size,
    ensures
        chunk_outcome(t, chunk) == Ok::<ChunkStep, Seq<char>>(
            ChunkStep::Store {
                first: incoming_at(t.incoming@, id, 0) is None,
                last: chunk.eof,
            },
        ),
{
    assert(Uuid { value: id.value } == id);
}

/// Time that passes in parts passes as a whole, and what passes while a run rests does not count
/// wherever it lies.
pub proof fn time_adds_up(clock: RunClock, a: u64, b: u64, c: u64)
    requires
        clock.last_tick <= a <= b <= c,
        clock.active_nanos + c <= u64::MAX,
    ensures
        clock.ticked(a, false).ticked(b, false) == clock.ticked(b, false),
        clock.ticked(a, true).ticked(b, true) == clock.ticked(b, true),
        clock.ticked(a, false).ticked(b, true).ticked(c, false).active_nanos == clock.active_nanos
            + (a - clock.last_tick) + (c - b),
{
}

/// An answer over HTTP/2 has the length that was asked for, or that of the payload where none was.
pub proof fn answers_have_the_asked_length(n: usize, payload: int)
    ensures
        asked_length(Some(decimal(n as int)), payload) == n,
        asked_length(None, payload) == payload,
{
    decimals_denote_their_number(n as int, usize::MAX as int);
}

proof fn positions_have_the_name(list: Seq<Seq<char>>, name: Seq<char>, n: int, at: int)
    requires
        0 <= n <= list.len(),
    ensures
        positions_of(list, name, n).contains(at) <==> 0 <= at < n && list[at] == name,
    decreases n,
{
    if n > 0 {
        positions_have_the_name(list, name, n - 1, at);
        let before = positions_of(list, name, n - 1);
        if list[n - 1] == name {
            let after = before.push(n - 1);
            assert(after[before.len() as int] == n - 1);
            if before.contains(at) {
                let k = choose|k: int| 0 <= k < before.len() && before[k] == at;
                assert(after[k] == at);
            }
            if after.contains(at) && at != n - 1 {
                let k = choose|k: int| 0 <= k < after.len() && after[k] == at;
                assert(before[k] == at);
            }
        }
    }
}

/// Exactly the cipher suite that is configured is offered, or every one where none is.
pub proof fn configured_suites_are_offered(
    available: Seq<Seq<char>>,
    configured: Option<Seq<char>>,
    at: int,
)
    ensures
        match suites_of(available, configured) {
            Ok(list) => list.contains(at) <==> 0 <= at < available.len() && (configured is None
                || available[at] == configured->0),
            Err(_) => configured is Some && !(0 <= at < available.len() && available[at]
                == configured->0),
        },
{
    let n = available.len() as int;
    match configured {
        Some(name) => {
            positions_have_the_name(available, name, n, at);
            let found = positions_of(available, name, n);
            if found.len() == 0 {
                assert(!found.contains(at));
            }
        },
        None => {
            let all = suites_of(available, configured)->Ok_0;
            if 0 <= at < n {
                assert(all[at] == at);
            }
        },
    }
}

/// The two ends of a run with TLS offer the same: the same cipher suites, the same version and the
/// same protocol, those of the scenario; and the client asks for the server by its name.
pub proof fn ends_agree_on_tls(scenario: Scenario, available: Seq<Seq<char>>)
    requires
        client_tls_of(scenario, available) is Ok,
        server_tls_of(scenario, available) is Ok,
    ensures
        ({
            let client = client_tls_of(scenario, available)->Ok_0;
            let server = server_tls_of(scenario, available)->Ok_0;
            &&& client.suites == server.suites
            &&& client.tls13 == server.tls13
            &&& client.tls13 <==> scenario.tls.version == TlsVersion::Tls13
            &&& client.http2 == server.http2
            &&& client.http2 <==> scenario.protocol == Protocol::Http2
            &&& client.server_name == scenario.tls.server_name@
            &&& client.roots is Some <==> scenario.tls.verify_peer
        }),
{
}

/// The last 256 commands are known: a new one makes way for itself only where there are as many, and
/// then the oldest goes.
pub proof fn the_last_commands_are_known(commands: Seq<Seq<char>>, id: Seq<char>)
    requires
        id.len() > 0,
        !commands.contains(id),
        commands.len() <= 256,
    ensures
        commands.len() < 256 ==> remembered(commands, id) == commands.push(id),
        commands.len() == 256 ==> remembered(commands, id) == commands.subrange(1, 256).push(id),
{
    if commands.len() == 256 {
        assert(remembered(commands, id) =~= commands.subrange(1, 256).push(id));
    }
}

/// The answer of a proxy is read until its head is complete, up to 16384 bytes.
pub proof fn answers_of_proxies_are_bounded(head: Seq<u8>)
    requires
        head.len() < 4 || head.subrange(head.len() - 4, head.len() as int) != seq![
            0x0du8,
            0x0a,
            0x0d,
            0x0a,
        ],
    ensures
        head.len() < 16384 ==> head_step(head) == HeadStep::More,
        head.len() >= 16384 ==> head_step(head) == HeadStep::TooLarge,
{
    reveal_strlit("\r\n\r\n");
    assert(head_end_mark() =~= seq![0x0du8, 0x0a, 0x0d, 0x0a]);
}

/// A capture of up to 512 MiB is taken, and a payload of up to 64 MiB.
pub proof fn artifacts_are_bounded(kind: Seq<char>)
    ensures
        artifact_limit("pcap"@) == 536_870_912,
        kind != "pcap"@ ==> artifact_limit(kind) == 67_108_864,
{
}

} // verus!
