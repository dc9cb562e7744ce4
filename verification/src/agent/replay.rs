//! Replaying the flows of a capture.
use crate::bytes::{
    ascii, ascii_bytes, eq_ignore_case, fields, find, find_byte, find_from, next_sep, occurs_at,
    same_ignoring_case, split, starts_with, contents,
};
use crate::capture::analysis::{CaptureAnalysis, FlowView, ReassembledFlow};
use crate::capture::files::{analyze_capture, capture_analysis};
use crate::capture::http::{
    chomp, crlf, head_end_mark, http2_views, Http2Transaction, HttpTransaction,
};
use crate::capture::packet::Direction;
use crate::capture::segments::{turn_views, ReplayTurn};
use crate::domain::scenario::{Protocol, Scenario, ScenarioPath};
use crate::ip::ip_text;
use crate::text::{append, copy, decimal, lossy_text, push_decimal, utf8_lossy};
use vstd::prelude::*;
use vstd::utf8::encode_utf8;

verus! {

/// The side of a connection that a replay takes.
#[derive(Debug, Clone, Copy, PartialEq, Eq, Structural)]
pub enum ReplayRole {
    Client,
    Server,
}

/// The turns of a flow.
pub type Turns = Seq<(Direction, Seq<u8>)>;

/// The flows that a replay cycles through.
#[derive(Debug, Clone, PartialEq, Eq)]
pub struct ReplayPlan {
    pub flows: Vec<Vec<ReplayTurn>>,
}

/// What the flows of a replay are.
pub open spec fn flow_turns(flows: Seq<Vec<ReplayTurn>>) -> Seq<Turns> {
    flows.map_values(|f: Vec<ReplayTurn>| turn_views(f@))
}

/// Why a capture cannot be replayed.
#[derive(Debug, Clone, PartialEq, Eq)]
pub struct ReplayError {
    pub message: String,
}

/// The path of a request target. In a target with the scheme `http` it starts at the first slash
/// behind the host, and is a slash where there is none.
pub open spec fn target_path(target: Seq<u8>) -> Seq<u8> {
    if occurs_at(target, ascii("http://"@), 0) {
        let slash = next_sep(target, 0x2f, 7);
        if slash < target.len() {
            target.subrange(slash, target.len() as int)
        } else {
            seq![0x2fu8]
        }
    } else {
        target
    }
}

/// The target of a request that is sent to `origin` by way of a proxy, or directly where there
/// is none.
pub open spec fn new_target(path: Seq<u8>, origin: Option<Seq<char>>) -> Seq<u8> {
    match origin {
        Some(address) => encode_utf8("http://"@ + address + utf8_lossy(path)),
        None => path,
    }
}

/// The header line that names a host.
pub open spec fn host_line(host: Seq<char>) -> Seq<u8> {
    encode_utf8("Host: "@ + host + "\r\n"@)
}

/// A header line has the field `Host`.
pub open spec fn is_host_line(line: Seq<u8>) -> bool {
    same_ignoring_case(fields(line, 0x3a)[0], ascii("host"@))
}

/// The first `n` header lines with the host replaced. Empty lines are left out.
pub open spec fn new_lines(lines: Seq<Seq<u8>>, host: Seq<char>, n: int) -> Seq<u8>
    decreases n,
{
    if n <= 0 {
        Seq::empty()
    } else {
        let line = chomp(lines[n - 1]);
        let before = new_lines(lines, host, n - 1);
        if line.len() == 0 {
            before
        } else if is_host_line(line) {
            before + host_line(host)
        } else {
            before + line + crlf()
        }
    }
}

/// One of the first `n` header lines names a host.
pub open spec fn names_host(lines: Seq<Seq<u8>>, n: int) -> bool
    decreases n,
{
    n > 0 && (names_host(lines, n - 1) || (chomp(lines[n - 1]).len() > 0 && is_host_line(
        chomp(lines[n - 1]),
    )))
}

/// A captured request as it is sent again: its target is the path of the old one, or the
/// absolute form where it goes to `origin` by way of a proxy; its host is `host`; everything else
/// is as it was. What is no request stays unchanged.
pub open spec fn rewritten(request: Seq<u8>, host: Seq<char>, origin: Option<Seq<char>>) -> Seq<u8> {
    match find_from(request, head_end_mark(), 0) {
        None => request,
        Some(p) => {
            let head = request.subrange(0, p + 4);
            let line_end = find_from(head, crlf(), 0)->0;
            let line = head.subrange(0, line_end);
            let a = next_sep(line, 0x20, 0);
            let b = next_sep(line, 0x20, a + 1);
            if b >= line.len() {
                request
            } else {
                let method = line.subrange(0, a);
                let target = line.subrange(a + 1, b);
                let version = line.subrange(b + 1, line.len() as int);
                let lines = fields(head.subrange(line_end + 2, p + 2), 0x0a);
                method + seq![0x20u8] + new_target(target_path(target), origin) + seq![0x20u8]
                    + version + crlf() + new_lines(lines, host, lines.len() as int) + (
                if names_host(lines, lines.len() as int) {
                    Seq::empty()
                } else {
                    host_line(host)
                }) + crlf() + request.subrange(p + 4, request.len() as int)
            }
        },
    }
}

/// A captured request that is sent again keeps its body.
pub proof fn rewritten_requests_keep_their_body(
    request: Seq<u8>,
    host: Seq<char>,
    origin: Option<Seq<char>>,
)
    requires
        find_from(request, head_end_mark(), 0) is Some,
    ensures
        ({
            let body = request.subrange(
                find_from(request, head_end_mark(), 0)->0 + 4,
                request.len() as int,
            );
            let sent = rewritten(request, host, origin);
            &&& sent.len() >= body.len()
            &&& sent.subrange(sent.len() - body.len(), sent.len() as int) == body
        }),
{
    crate::bytes::find_from_is_first(request, head_end_mark(), 0);
    let p = find_from(request, head_end_mark(), 0)->0;
    let body = request.subrange(p + 4, request.len() as int);
    let sent = rewritten(request, host, origin);
    assert(sent.subrange(sent.len() - body.len(), sent.len() as int) =~= body);
}

/// The address that a request in absolute form names: that of the server, where the client sends
/// plain requests to a proxy.
pub open spec fn proxied_origin(scenario: Scenario, role: ReplayRole) -> Option<Seq<char>> {
    match scenario.path {
        ScenarioPath::ExplicitProxy { server_listen_ip, server_port, .. } => if role
            == ReplayRole::Client && !scenario.tls.enabled {
            Some(ip_text(server_listen_ip) + ":"@ + decimal(server_port as int))
        } else {
            None
        },
        ScenarioPath::ManagedDirect { .. } => None,
    }
}

/// The turns of the first `n` transactions.
pub open spec fn transaction_turns(
    list: Seq<(Seq<u8>, Seq<u8>)>,
    host: Seq<char>,
    origin: Option<Seq<char>>,
    n: int,
) -> Turns
    decreases n,
{
    if n <= 0 {
        Seq::empty()
    } else {
        transaction_turns(list, host, origin, n - 1).push(
            (Direction::ClientToServer, rewritten(list[n - 1].0, host, origin)),
        ).push((Direction::ServerToClient, list[n - 1].1))
    }
}

/// The turns of the first `n` transactions over HTTP/2: what the request carries, then what the
/// response carries.
pub open spec fn http2_turns(list: Seq<(Seq<u8>, Seq<u8>)>, n: int) -> Turns
    decreases n,
{
    if n <= 0 {
        Seq::empty()
    } else {
        http2_turns(list, n - 1).push((Direction::ClientToServer, list[n - 1].0)).push(
            (Direction::ServerToClient, list[n - 1].1),
        )
    }
}

/// The turns that a flow is replayed with, if it is replayed. Over HTTP/1.1 and HTTP/2 they are
/// its transactions of that protocol. Over any other protocol they are the turns of the flow.
pub open spec fn replayed(flow: FlowView, scenario: Scenario, role: ReplayRole) -> Option<Turns> {
    match scenario.protocol {
        Protocol::Http1 => if flow.http_transactions.len() > 0 {
            Some(
                transaction_turns(
                    flow.http_transactions,
                    scenario.request.host@,
                    proxied_origin(scenario, role),
                    flow.http_transactions.len() as int,
                ),
            )
        } else {
            None
        },
        Protocol::Http2 => if flow.http2_transactions.len() > 0 {
            Some(http2_turns(flow.http2_transactions, flow.http2_transactions.len() as int))
        } else {
            None
        },
        _ => Some(flow.turns),
    }
}

/// The turns of the first `n` flows, as far as they are replayed.
pub open spec fn replayed_flows(
    flows: Seq<FlowView>,
    scenario: Scenario,
    role: ReplayRole,
    n: int,
) -> Seq<Turns>
    decreases n,
{
    if n <= 0 {
        Seq::empty()
    } else {
        let before = replayed_flows(flows, scenario, role, n - 1);
        match replayed(flows[n - 1], scenario, role) {
            Some(turns) => before.push(turns),
            None => before,
        }
    }
}

/// The first turn of one flow starts with that of another, or the other way around.
pub open spec fn ambiguous(a: Turns, b: Turns) -> bool {
    b.len() > 0 && (occurs_at(b[0].1, a[0].1, 0) || occurs_at(a[0].1, b[0].1, 0))
}

/// The first flow at or after `j`, other than flow `i`, that cannot be told from flow `i` by its
/// first turn.
pub open spec fn first_ambiguous(flows: Seq<Turns>, i: int, j: int) -> Option<int>
    decreases flows.len() - j,
{
    if j >= flows.len() {
        None
    } else if j != i && ambiguous(flows[i], flows[j]) {
        Some(j)
    } else {
        first_ambiguous(flows, i, j + 1)
    }
}

/// What is wrong with flow `i`, in the order in which it is looked for.
pub open spec fn flow_problem(flows: Seq<Turns>, i: int) -> Option<Seq<char>> {
    if flows[i].len() == 0 {
        Some("flow "@ + decimal(i) + " has no replay turns"@)
    } else if flows[i][0].0 != Direction::ClientToServer || flows[i][0].1.len() == 0 {
        Some("flow "@ + decimal(i) + " must start with a non-empty client turn"@)
    } else {
        match first_ambiguous(flows, i, 0) {
            Some(j) => Some(
                "flows "@ + decimal(i) + " and "@ + decimal(j)
                    + " have ambiguous first client turns"@,
            ),
            None => None,
        }
    }
}

/// What is wrong with the flows from `i` on.
pub open spec fn flows_problem(flows: Seq<Turns>, i: int) -> Option<Seq<char>>
    decreases flows.len() - i,
{
    if i >= flows.len() {
        None
    } else if flow_problem(flows, i) is Some {
        flow_problem(flows, i)
    } else {
        flows_problem(flows, i + 1)
    }
}

proof fn no_problem_from(flows: Seq<Turns>, i: int, k: int)
    requires
        flows_problem(flows, i) is None,
        0 <= i <= k < flows.len(),
    ensures
        flow_problem(flows, k) is None,
    decreases k - i,
{
    if i < k {
        no_problem_from(flows, i + 1, k);
    }
}

proof fn none_ambiguous_from(flows: Seq<Turns>, i: int, j: int, k: int)
    requires
        first_ambiguous(flows, i, j) is None,
        0 <= j <= k < flows.len(),
        k != i,
    ensures
        !ambiguous(flows[i], flows[k]),
    decreases k - j,
{
    if j < k {
        none_ambiguous_from(flows, i, j + 1, k);
    }
}

/// The flows of a valid replay start with a client turn that is not empty, and no first turn is
/// the start of another: a responder can tell from the bytes it receives which flow it is in.
pub proof fn valid_flows_are_told_apart(flows: Seq<Turns>, i: int, j: int)
    requires
        flows_problem(flows, 0) is None,
        0 <= i < flows.len(),
        0 <= j < flows.len(),
        i != j,
    ensures
        flows[i].len() > 0 && flows[i][0].0 == Direction::ClientToServer && flows[i][0].1.len() > 0,
        !occurs_at(flows[i][0].1, flows[j][0].1, 0),
        !occurs_at(flows[j][0].1, flows[i][0].1, 0),
{
    no_problem_from(flows, 0, i);
    no_problem_from(flows, 0, j);
    none_ambiguous_from(flows, i, 0, j);
}

/// The replay of a capture, or why there is none.
pub open spec fn plan_of_capture(bytes: Seq<u8>, scenario: Scenario, role: ReplayRole) -> Result<
    Seq<Turns>,
    Seq<char>,
> {
    match capture_analysis(bytes) {
        Err(error) => Err(error.text()),
        Ok((_, analysis)) => {
            let flows = replayed_flows(
                analysis.flows,
                scenario,
                role,
                analysis.flows.len() as int,
            );
            if analysis.flows.len() == 0 {
                Err("capture contains no supported flows"@)
            } else if flows.len() == 0 {
                Err("capture contains no supported HTTP transactions"@)
            } else {
                match flows_problem(flows, 0) {
                    Some(problem) => Err(problem),
                    None => Ok(flows),
                }
            }
        },
    }
}

proof fn first_part(s: Seq<u8>, sep: u8)
    ensures
        fields(s, sep).len() > 0,
        fields(s, sep)[0] == s.subrange(0, next_sep(s, sep, 0)),
        0 <= next_sep(s, sep, 0) <= s.len(),
{
    sep_bounds(s, sep, 0);
}

proof fn sep_bounds(s: Seq<u8>, sep: u8, start: int)
    requires
        0 <= start <= s.len(),
    ensures
        start <= next_sep(s, sep, start) <= s.len(),
    decreases s.len() - start,
{
    if start < s.len() && s[start] != sep {
        sep_bounds(s, sep, start + 1);
    }
}

/// The path of a request target.
fn path_of(target: &[u8]) -> (r: Vec<u8>)
    ensures
        r@ == target_path(target@),
{
    proof {
        reveal_strlit("http://");
    }
    if starts_with(target, ascii_bytes("http://")) {
        let slash: usize = find_byte(target, 0x2f, 7);
        if slash < target.len() {
            vstd::slice::slice_to_vec(&target[slash..target.len()])
        } else {
            let mut path: Vec<u8> = Vec::new();
            path.push(0x2f);
            assert(path@ =~= seq![0x2fu8]);
            path
        }
    } else {
        vstd::slice::slice_to_vec(target)
    }
}

/// Adds bytes to bytes.
fn extend(out: &mut Vec<u8>, more: &[u8])
    ensures
        final(out)@ == old(out)@ + more@,
{
    let ghost before = out@;
    out.extend_from_slice(more);
    assert(out@ =~= before + more@);
}

/// Adds the header line that names a host.
fn push_host(out: &mut Vec<u8>, host: &str)
    ensures
        final(out)@ == old(out)@ + host_line(host@),
{
    let mut line = copy("Host: ");
    append(&mut line, host);
    append(&mut line, "\r\n");
    extend(out, line.as_str().as_bytes());
}

/// Adds the header lines with the host replaced. Says whether one was.
fn push_lines(out: &mut Vec<u8>, block: &[u8], host: &str) -> (r: bool)
    ensures
        ({
            let lines = fields(block@, 0x0a);
            &&& final(out)@ == old(out)@ + new_lines(lines, host@, lines.len() as int)
            &&& r == names_host(lines, lines.len() as int)
        }),
{
    let ghost before = out@;
    let lines = split(block, 0x0a);
    let ghost views = fields(block@, 0x0a);
    assert(contents(lines@) == views);
    assert(lines@.len() == views.len());
    let line_mark: [u8; 2] = [0x0d, 0x0a];
    assert(line_mark@ =~= crlf());
    let mut found: bool = false;
    let mut i: usize = 0;
    assert(out@ =~= before + new_lines(views, host@, 0));
    proof {
        reveal_strlit("host");
    }
    let name: &[u8] = ascii_bytes("host");
    while i < lines.len()
        invariant
            contents(lines@) == views,
            lines@.len() == views.len(),
            line_mark@ == crlf(),
            name@ == ascii("host"@),
            i <= views.len(),
            out@ == before + new_lines(views, host@, i as int),
            found == names_host(views, i as int),
        decreases lines@.len() - i,
    {
        let raw: &[u8] = lines[i];
        assert(views[i as int] == contents(lines@)[i as int]);
        assert(views[i as int] == raw@);
        let end: usize = if raw.len() > 0 && raw[raw.len() - 1] == 0x0d {
            raw.len() - 1
        } else {
            raw.len()
        };
        let line: &[u8] = &raw[0..end];
        assert(line@ =~= chomp(raw@));
        if line.len() > 0 {
            let colon: usize = find_byte(line, 0x3a, 0);
            proof {
                first_part(line@, 0x3a);
            }
            if eq_ignore_case(&line[0..colon], name) {
                push_host(out, host);
                found = true;
            } else {
                extend(out, line);
                extend(out, line_mark.as_slice());
            }
        }
        assert(out@ =~= before + new_lines(views, host@, i + 1));
        i += 1;
    }
    found
}

/// A captured request as it is sent again.
pub fn rewrite_request(request: &[u8], host: &str, origin: Option<&str>) -> (r: Vec<u8>)
    ensures
        r@ == rewritten(
            request@,
            host@,
            match origin {
                Some(address) => Some(address@),
                None => None,
            },
        ),
{
    let line_mark: [u8; 2] = [0x0d, 0x0a];
    let end_mark: [u8; 4] = [0x0d, 0x0a, 0x0d, 0x0a];
    assert(line_mark@ =~= crlf());
    assert(end_mark@ =~= head_end_mark());
    let p: usize = match find(request, end_mark.as_slice(), 0) {
        Some(p) => p,
        None => {
            return vstd::slice::slice_to_vec(request);
        },
    };
    let head: &[u8] = &request[0..p + 4];
    proof {
        crate::bytes::find_from_is_first(request@, head_end_mark(), 0);
        crate::bytes::find_from_is_first(head@, crlf(), 0);
        assert(request@.subrange(p as int, p + 4)[0] == 0x0d);
        assert(request@.subrange(p as int, p + 4)[1] == 0x0a);
        assert(head@.subrange(p as int, p + 2) =~= crlf());
        assert(occurs_at(head@, crlf(), p as int));
    }
    let line_end: usize = match find(head, line_mark.as_slice(), 0) {
        Some(e) => e,
        None => {
            return vstd::slice::slice_to_vec(request);
        },
    };
    let line: &[u8] = &head[0..line_end];
    let a: usize = find_byte(line, 0x20, 0);
    if a == line.len() {
        return vstd::slice::slice_to_vec(request);
    }
    let b: usize = find_byte(line, 0x20, a + 1);
    if b == line.len() {
        return vstd::slice::slice_to_vec(request);
    }
    let path = path_of(&line[a + 1..b]);
    let mut out: Vec<u8> = Vec::new();
    extend(&mut out, &line[0..a]);
    out.push(0x20);
    match origin {
        Some(address) => {
            let mut target = copy("http://");
            append(&mut target, address);
            let text = lossy_text(path.as_slice());
            append(&mut target, text.as_str());
            extend(&mut out, target.as_str().as_bytes());
        },
        None => {
            extend(&mut out, path.as_slice());
        },
    }
    out.push(0x20);
    extend(&mut out, &line[b + 1..line.len()]);
    extend(&mut out, line_mark.as_slice());
    let block: &[u8] = &head[line_end + 2..p + 2];
    let found: bool = push_lines(&mut out, block, host);
    if !found {
        push_host(&mut out, host);
    }
    extend(&mut out, line_mark.as_slice());
    extend(&mut out, &request[p + 4..request.len()]);
    let ghost goal = rewritten(
        request@,
        host@,
        match origin {
            Some(address) => Some(address@),
            None => None,
        },
    );
    assert(out@ =~= goal);
    out
}

/// A captured request as a scenario sends it again.
pub fn rewrite_http_request(request: &[u8], scenario: &Scenario, role: ReplayRole) -> (r: Vec<u8>)
    ensures
        r@ == rewritten(request@, scenario.request.host@, proxied_origin(*scenario, role)),
{
    let absolute: bool = role == ReplayRole::Client && scenario.is_explicit_proxy()
        && !scenario.tls.enabled;
    if absolute {
        let origin = scenario.target_addr();
        rewrite_request(request, scenario.request.host.as_str(), Some(origin.as_str()))
    } else {
        rewrite_request(request, scenario.request.host.as_str(), None)
    }
}

/// The turns of a list of transactions.
pub fn http_replay_turns(
    list: &Vec<HttpTransaction>,
    scenario: &Scenario,
    role: ReplayRole,
) -> (r: Vec<ReplayTurn>)
    ensures
        turn_views(r@) == transaction_turns(
            crate::capture::http::transaction_views(list@),
            scenario.request.host@,
            proxied_origin(*scenario, role),
            list@.len() as int,
        ),
{
    let ghost views = crate::capture::http::transaction_views(list@);
    let ghost host = scenario.request.host@;
    let ghost origin = proxied_origin(*scenario, role);
    let mut turns: Vec<ReplayTurn> = Vec::new();
    let mut i: usize = 0;
    assert(turn_views(turns@) =~= Seq::empty());
    while i < list.len()
        invariant
            views == crate::capture::http::transaction_views(list@),
            host == scenario.request.host@,
            origin == proxied_origin(*scenario, role),
            i <= list@.len(),
            turn_views(turns@) == transaction_turns(views, host, origin, i as int),
        decreases list@.len() - i,
    {
        assert(views[i as int] == list@[i as int]@);
        let ghost before = turns@;
        let request = rewrite_http_request(list[i].request.as_slice(), scenario, role);
        let response = vstd::slice::slice_to_vec(list[i].response.as_slice());
        turns.push(ReplayTurn { direction: Direction::ClientToServer, payload: request });
        turns.push(ReplayTurn { direction: Direction::ServerToClient, payload: response });
        assert(turn_views(turns@) =~= turn_views(before).push(
            (Direction::ClientToServer, request@),
        ).push((Direction::ServerToClient, response@)));
        i += 1;
    }
    turns
}

/// The turns of a list of transactions over HTTP/2.
fn http2_replay_turns(list: &Vec<Http2Transaction>) -> (r: Vec<ReplayTurn>)
    ensures
        turn_views(r@) == http2_turns(http2_views(list@), list@.len() as int),
{
    let ghost views = http2_views(list@);
    let mut turns: Vec<ReplayTurn> = Vec::new();
    let mut i: usize = 0;
    assert(turn_views(turns@) =~= Seq::empty());
    while i < list.len()
        invariant
            views == http2_views(list@),
            i <= list@.len(),
            turn_views(turns@) == http2_turns(views, i as int),
        decreases list@.len() - i,
    {
        assert(views[i as int] == list@[i as int]@);
        let ghost before = turns@;
        let request = vstd::slice::slice_to_vec(list[i].request_body.as_slice());
        let response = vstd::slice::slice_to_vec(list[i].response_body.as_slice());
        turns.push(ReplayTurn { direction: Direction::ClientToServer, payload: request });
        turns.push(ReplayTurn { direction: Direction::ServerToClient, payload: response });
        assert(turn_views(turns@) =~= turn_views(before).push(
            (Direction::ClientToServer, request@),
        ).push((Direction::ServerToClient, response@)));
        i += 1;
    }
    turns
}

/// Copies of turns.
fn copy_turns(list: &Vec<ReplayTurn>) -> (r: Vec<ReplayTurn>)
    ensures
        turn_views(r@) == turn_views(list@),
{
    let mut turns: Vec<ReplayTurn> = Vec::new();
    let mut i: usize = 0;
    while i < list.len()
        invariant
            i <= list@.len(),
            turns@.len() == i,
            forall|j: int| 0 <= j < i ==> (#[trigger] turns@[j])@ == list@[j]@,
        decreases list@.len() - i,
    {
        turns.push(
            ReplayTurn {
                direction: list[i].direction,
                payload: vstd::slice::slice_to_vec(list[i].payload.as_slice()),
            },
        );
        i += 1;
    }
    assert(turn_views(turns@) =~= turn_views(list@));
    turns
}

/// The turns that a flow is replayed with, if it is replayed.
pub fn replay_flow(flow: &ReassembledFlow, scenario: &Scenario, role: ReplayRole) -> (r: Option<
    Vec<ReplayTurn>,
>)
    ensures
        match r {
            Some(turns) => replayed(flow@, *scenario, role) == Some(turn_views(turns@)),
            None => replayed(flow@, *scenario, role) is None,
        },
{
    match scenario.protocol {
        Protocol::Http1 => if flow.http_transactions.len() > 0 {
            Some(http_replay_turns(&flow.http_transactions, scenario, role))
        } else {
            None
        },
        Protocol::Http2 => if flow.http2_transactions.len() > 0 {
            Some(http2_replay_turns(&flow.http2_transactions))
        } else {
            None
        },
        _ => Some(copy_turns(&flow.turns)),
    }
}

/// A complaint about one flow.
fn refuse_flow(index: usize, tail: &str) -> (r: ReplayError)
    ensures
        r.message@ == "flow "@ + decimal(index as int) + tail@,
{
    let mut message = copy("flow ");
    push_decimal(&mut message, index as u64);
    append(&mut message, tail);
    ReplayError { message }
}

/// Whether a replay can use these flows, or why it cannot.
pub fn validate_flows(flows: &Vec<Vec<ReplayTurn>>) -> (r: Result<(), ReplayError>)
    ensures
        match r {
            Ok(_) => flows_problem(flow_turns(flows@), 0) is None,
            Err(error) => flows_problem(flow_turns(flows@), 0) == Some(error.message@),
        },
{
    let ghost views = flow_turns(flows@);
    let mut i: usize = 0;
    while i < flows.len()
        invariant
            views == flow_turns(flows@),
            i <= flows@.len(),
            flows_problem(views, 0) == flows_problem(views, i as int),
        decreases flows@.len() - i,
    {
        assert(views[i as int] == turn_views(flows@[i as int]@));
        if flows[i].len() == 0 {
            return Err(refuse_flow(i, " has no replay turns"));
        }
        let first = &flows[i][0];
        assert(views[i as int][0] == first@);
        if first.direction != Direction::ClientToServer || first.payload.len() == 0 {
            return Err(refuse_flow(i, " must start with a non-empty client turn"));
        }
        let mut j: usize = 0;
        while j < flows.len()
            invariant
                views == flow_turns(flows@),
                i < flows@.len(),
                j <= flows@.len(),
                views[i as int].len() > 0,
                views[i as int][0] == first@,
                first.direction == Direction::ClientToServer,
                first.payload@.len() > 0,
                flows_problem(views, 0) == flows_problem(views, i as int),
                first_ambiguous(views, i as int, 0) == first_ambiguous(views, i as int, j as int),
            decreases flows@.len() - j,
        {
            assert(views[j as int] == turn_views(flows@[j as int]@));
            if j != i && flows[j].len() > 0 {
                let other = &flows[j][0];
                assert(views[j as int][0] == other@);
                if starts_with(other.payload.as_slice(), first.payload.as_slice()) || starts_with(
                    first.payload.as_slice(),
                    other.payload.as_slice(),
                ) {
                    let mut message = copy("flows ");
                    push_decimal(&mut message, i as u64);
                    append(&mut message, " and ");
                    push_decimal(&mut message, j as u64);
                    append(&mut message, " have ambiguous first client turns");
                    return Err(ReplayError { message });
                }
            }
            j += 1;
        }
        i += 1;
    }
    Ok(())
}

impl ReplayPlan {
    /// The replay of a capture, or why there is none.
    pub fn from_capture(bytes: &[u8], scenario: &Scenario, role: ReplayRole) -> (r: Result<
        ReplayPlan,
        ReplayError,
    >)
        ensures
            match r {
                Ok(plan) => plan_of_capture(bytes@, *scenario, role) == Ok::<Seq<Turns>, Seq<char>>(
                    flow_turns(plan.flows@),
                ),
                Err(error) => plan_of_capture(bytes@, *scenario, role) == Err::<
                    Seq<Turns>,
                    Seq<char>,
                >(error.message@),
            },
    {
        let analysis: CaptureAnalysis = match analyze_capture(bytes) {
            Ok((_, analysis)) => analysis,
            Err(error) => {
                return Err(ReplayError { message: error.message() });
            },
        };
        let ghost views = analysis@.flows;
        assert(views.len() == analysis.flows@.len());
        if analysis.flows.len() == 0 {
            return Err(ReplayError { message: copy("capture contains no supported flows") });
        }
        let mut flows: Vec<Vec<ReplayTurn>> = Vec::new();
        let mut i: usize = 0;
        assert(flow_turns(flows@) =~= Seq::empty());
        while i < analysis.flows.len()
            invariant
                views == analysis@.flows,
                views.len() == analysis.flows@.len(),
                i <= views.len(),
                flow_turns(flows@) == replayed_flows(views, *scenario, role, i as int),
            decreases views.len() - i,
        {
            let ghost before = flows@;
            assert(views[i as int] == analysis.flows@[i as int]@);
            if let Some(turns) = replay_flow(&analysis.flows[i], scenario, role) {
                flows.push(turns);
                assert(flow_turns(flows@) =~= flow_turns(before).push(turn_views(turns@)));
            }
            i += 1;
        }
        assert(flows@.len() == flow_turns(flows@).len());
        if flows.len() == 0 {
            return Err(
                ReplayError { message: copy("capture contains no supported HTTP transactions") },
            );
        }
        if let Err(error) = validate_flows(&flows) {
            return Err(error);
        }
        Ok(ReplayPlan { flows })
    }
}

} // verus!
