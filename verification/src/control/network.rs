//! How network changes are applied and taken back on all their nodes.
use crate::agent::session::NetworkAction;
use crate::control::error::{
    api_problem, bad, conflict, internal, not_found, ApiError, ApiErrorView,
};
use crate::digest::{sha256_hex, sha256_text};
use crate::domain::network::NetworkProfileDraft;
use crate::text::{append, comes_before, copy, same_text, string_views, text_before};
use vstd::prelude::*;
use vstd::utf8::encode_utf8;

verus! {

/// For how many milliseconds a network change waits to be committed.
pub const LEASE_MS: i64 = 180_000;

/// For how many seconds a plan can be applied.
pub const PLAN_SECS: i64 = 300;

/// When a network change that is staged now is taken back unless it is committed, in milliseconds
/// since 1970.
pub fn lease_end(now_ms: i64) -> (r: i64)
    requires
        now_ms <= i64::MAX - LEASE_MS,
    ensures
        r == now_ms + LEASE_MS,
{
    now_ms + LEASE_MS
}

/// When a plan that is made now expires.
pub open spec fn expiry_of(now: (i64, u32)) -> (i64, u32) {
    ((now.0 + PLAN_SECS) as i64, now.1)
}

/// When a plan that is made now expires.
pub fn plan_expiry(now: (i64, u32)) -> (r: (i64, u32))
    requires
        now.0 <= i64::MAX - PLAN_SECS,
    ensures
        r == expiry_of(now),
{
    (now.0 + PLAN_SECS, now.1)
}

/// The nodes of a network profile, in order and each once.
pub open spec fn nodes_of(client: Seq<char>, server: Seq<char>) -> Seq<Seq<char>> {
    if client == server {
        seq![client]
    } else if text_before(client, server, 0) {
        seq![client, server]
    } else {
        seq![server, client]
    }
}

/// The nodes of a network profile.
pub fn profile_nodes(draft: &NetworkProfileDraft) -> (r: Vec<String>)
    ensures
        string_views(r@) == nodes_of(
            draft.client_endpoint.node_id@,
            draft.server_endpoint.node_id@,
        ),
        r@.len() > 0,
{
    let client: &str = draft.client_endpoint.node_id.as_str();
    let server: &str = draft.server_endpoint.node_id.as_str();
    let mut list: Vec<String> = Vec::new();
    if same_text(client, server) {
        list.push(copy(client));
    } else if comes_before(client, server) {
        list.push(copy(client));
        list.push(copy(server));
    } else {
        list.push(copy(server));
        list.push(copy(client));
    }
    assert(string_views(list@) =~= nodes_of(client@, server@));
    list
}

/// What a name asks a node for.
pub open spec fn action_of(name: Seq<char>) -> Option<NetworkAction> {
    if name == "plan"@ {
        Some(NetworkAction::Plan)
    } else if name == "stage"@ {
        Some(NetworkAction::Stage)
    } else if name == "commit"@ {
        Some(NetworkAction::Commit)
    } else if name == "rollback"@ {
        Some(NetworkAction::Rollback)
    } else if name == "teardown"@ {
        Some(NetworkAction::Teardown)
    } else if name == "reconcile"@ {
        Some(NetworkAction::Reconcile)
    } else {
        None
    }
}

/// What a name asks a node for.
pub fn network_action(name: &str) -> (r: Result<NetworkAction, ApiError>)
    ensures
        match r {
            Ok(action) => action_of(name@) == Some(action),
            Err(error) => action_of(name@) is None && error@ == internal(
                "unknown network action "@ + name@,
            ),
        },
{
    if same_text(name, "plan") {
        Ok(NetworkAction::Plan)
    } else if same_text(name, "stage") {
        Ok(NetworkAction::Stage)
    } else if same_text(name, "commit") {
        Ok(NetworkAction::Commit)
    } else if same_text(name, "rollback") {
        Ok(NetworkAction::Rollback)
    } else if same_text(name, "teardown") {
        Ok(NetworkAction::Teardown)
    } else if same_text(name, "reconcile") {
        Ok(NetworkAction::Reconcile)
    } else {
        let mut message = copy("unknown network action ");
        append(&mut message, name);
        Err(ApiError::internal(message.as_str()))
    }
}

/// What a node says of a command, or nothing if it did not answer in time.
#[derive(Debug, Clone, PartialEq, Eq)]
pub enum NodeReply {
    Accepted,
    Refused(String),
    Silent,
}

/// What is said of a command to a node that was not carried out.
pub open spec fn reply_problem(node: Seq<char>, action: Seq<char>, reply: NodeReply) -> Option<
    ApiErrorView,
> {
    match reply {
        NodeReply::Accepted => None,
        NodeReply::Refused(error) => Some(
            internal("node "@ + node + " "@ + action + " failed: "@ + error@),
        ),
        NodeReply::Silent => Some(internal("node "@ + node + " "@ + action + " timed out"@)),
    }
}

/// Whether a command to a node was carried out.
pub fn check_reply(node: &str, action: &str, reply: &NodeReply) -> (r: Result<(), ApiError>)
    ensures
        api_problem(r) == reply_problem(node@, action@, *reply),
{
    let mut message = copy("node ");
    append(&mut message, node);
    append(&mut message, " ");
    append(&mut message, action);
    match reply {
        NodeReply::Accepted => Ok(()),
        NodeReply::Refused(error) => {
            append(&mut message, " failed: ");
            append(&mut message, error.as_str());
            Err(ApiError::internal(message.as_str()))
        },
        NodeReply::Silent => {
            append(&mut message, " timed out");
            Err(ApiError::internal(message.as_str()))
        },
    }
}

/// What is said of a command to a node that is not connected.
pub fn node_offline(node: &str) -> (r: ApiError)
    ensures
        r@ == bad("node "@ + node@ + " is offline"@),
{
    let mut message = copy("node ");
    append(&mut message, node);
    append(&mut message, " is offline");
    ApiError::bad(message.as_str())
}

/// What is said of a plan without a part for a node.
pub fn plan_missing(node: &str) -> (r: ApiError)
    ensures
        r@ == internal("network plan missing node "@ + node@),
{
    let mut message = copy("network plan missing node ");
    append(&mut message, node);
    ApiError::internal(message.as_str())
}

/// Why a profile is not archived: a run is active, or a revision of it is prepared.
pub open spec fn archive_problem(active: bool, prepared: i64) -> Option<ApiErrorView> {
    if active {
        Some(conflict("profiles cannot be archived during a run"@))
    } else if prepared > 0 {
        Some(conflict("teardown the prepared revision before archiving the profile"@))
    } else {
        None
    }
}

/// Whether a profile with this number of prepared revisions can be archived.
pub fn check_archive(active: bool, prepared: i64) -> (r: Result<(), ApiError>)
    ensures
        api_problem(r) == archive_problem(active, prepared),
{
    if active {
        return Err(ApiError::conflict("profiles cannot be archived during a run"));
    }
    if prepared > 0 {
        return Err(
            ApiError::conflict("teardown the prepared revision before archiving the profile"),
        );
    }
    Ok(())
}

/// Whether a profile was there to be archived.
pub fn check_archived(rows: u64) -> (r: Result<(), ApiError>)
    ensures
        api_problem(r) == (if rows == 0 {
            Some(not_found("network profile not found"@))
        } else {
            None
        }),
{
    if rows == 0 {
        Err(ApiError::not_found("network profile not found"))
    } else {
        Ok(())
    }
}

/// Whether a network can be taken down.
pub fn check_teardown(active: bool) -> (r: Result<(), ApiError>)
    ensures
        api_problem(r) == (if active {
            Some(conflict("active run must finish before teardown"@))
        } else {
            None
        }),
{
    if active {
        Err(ApiError::conflict("active run must finish before teardown"))
    } else {
        Ok(())
    }
}

/// For how many seconds an answer of a node is waited for: at least three minutes.
pub fn reply_timeout_secs(configured: u64) -> (r: u64)
    ensures
        r == (if configured < 180 {
            180
        } else {
            configured
        }),
{
    if configured < 180 {
        180
    } else {
        configured
    }
}

/// The time that a text denotes: seconds since 1970 and nanoseconds.
pub uninterp spec fn time_of(text: Seq<char>) -> Option<(i64, u32)>;

/// `str::parse` into `chrono::DateTime<chrono::Utc>`: the time that a text denotes, if it denotes
/// one. How it is read is not stated; it depends on the text alone.
#[verifier::external_body]
fn read_time(text: &str) -> (r: Option<(i64, u32)>)
    ensures
        r == time_of(text@),
{
    text.parse::<chrono::DateTime<chrono::Utc>>()
        .ok()
        .map(|time| (time.timestamp(), time.timestamp_subsec_nanos()))
}

/// A plan as it was recorded.
#[derive(Debug, Clone, PartialEq, Eq)]
pub struct PlanRecord {
    pub status: String,
    pub token_hash: String,
    pub expires_at: String,
}

/// One time comes before another.
pub open spec fn earlier(a: (i64, u32), b: (i64, u32)) -> bool {
    a.0 < b.0 || (a.0 == b.0 && a.1 < b.1)
}

/// Why a plan cannot be applied, given when it expires. A plan can be applied once, within its
/// time, by whoever has its token, and not during a run.
pub open spec fn apply_problem(
    active: bool,
    plan: Option<PlanRecord>,
    token: Seq<char>,
    expires: Option<(i64, u32)>,
    now: (i64, u32),
) -> Option<ApiErrorView> {
    if active {
        Some(conflict("network profile cannot be applied during a run"@))
    } else {
        match plan {
            None => Some(not_found("network plan not found"@)),
            Some(record) => if record.status@ != "planned"@ {
                Some(conflict("network plan token is single-use"@))
            } else if record.token_hash@ != sha256_text(encode_utf8(token)) {
                Some(bad("invalid plan token"@))
            } else {
                match expires {
                    None => Some(bad("invalid plan expiry"@)),
                    Some(end) => if earlier(end, now) {
                        Some(conflict("network plan expired"@))
                    } else {
                        None
                    },
                }
            },
        }
    }
}

/// Whether a plan can be applied, given when it expires.
pub fn check_plan(
    active: bool,
    plan: &Option<PlanRecord>,
    token: &str,
    expires: Option<(i64, u32)>,
    now: (i64, u32),
) -> (r: Result<(), ApiError>)
    ensures
        api_problem(r) == apply_problem(active, *plan, token@, expires, now),
{
    if active {
        return Err(ApiError::conflict("network profile cannot be applied during a run"));
    }
    let record = match plan {
        Some(record) => record,
        None => {
            return Err(ApiError::not_found("network plan not found"));
        },
    };
    if !same_text(record.status.as_str(), "planned") {
        return Err(ApiError::conflict("network plan token is single-use"));
    }
    let hash = sha256_hex(token.as_bytes());
    if !same_text(record.token_hash.as_str(), hash.as_str()) {
        return Err(ApiError::bad("invalid plan token"));
    }
    match expires {
        None => Err(ApiError::bad("invalid plan expiry")),
        Some(end) => if end.0 < now.0 || (end.0 == now.0 && end.1 < now.1) {
            Err(ApiError::conflict("network plan expired"))
        } else {
            Ok(())
        },
    }
}

/// Whether a plan can be applied.
pub fn check_apply(active: bool, plan: &Option<PlanRecord>, token: &str, now: (i64, u32)) -> (r:
    Result<(), ApiError>)
    ensures
        api_problem(r) == apply_problem(
            active,
            *plan,
            token@,
            match *plan {
                Some(record) => time_of(record.expires_at@),
                None => None,
            },
            now,
        ),
{
    let expires: Option<(i64, u32)> = match plan {
        Some(record) => read_time(record.expires_at.as_str()),
        None => None,
    };
    check_plan(active, plan, token, expires, now)
}

/// The digest by which the token of a plan is recorded.
pub fn token_hash(token: &str) -> (r: String)
    ensures
        r@ == sha256_text(encode_utf8(token@)),
{
    sha256_hex(token.as_bytes())
}

/// A plan can be applied with its own token until it expires, unless a run is active. Once it is
/// no longer merely planned, it cannot be applied again.
pub proof fn plans_are_applied_once(
    record: PlanRecord,
    token: Seq<char>,
    expires: (i64, u32),
    now: (i64, u32),
    active: bool,
)
    requires
        record.token_hash@ == sha256_text(encode_utf8(token)),
        !earlier(expires, now),
    ensures
        record.status@ == "planned"@ && !active ==> apply_problem(
            active,
            Some(record),
            token,
            Some(expires),
            now,
        ) is None,
        record.status@ != "planned"@ ==> apply_problem(
            active,
            Some(record),
            token,
            Some(expires),
            now,
        ) is Some,
        active ==> apply_problem(active, Some(record), token, Some(expires), now) is Some,
{
}

/// A plan can be applied for five minutes after it was made, and is refused at any later time.
pub proof fn plans_expire(record: PlanRecord, token: Seq<char>, made: (i64, u32), now: (i64, u32))
    requires
        record.status@ == "planned"@,
        record.token_hash@ == sha256_text(encode_utf8(token)),
        made.0 <= i64::MAX - PLAN_SECS,
    ensures
        apply_problem(false, Some(record), token, Some(expiry_of(made)), now) == (if earlier(
            expiry_of(made),
            now,
        ) {
            Some(conflict("network plan expired"@))
        } else {
            None
        }),
        earlier(expiry_of(made), now) <==> now.0 > made.0 + PLAN_SECS || (now.0 == made.0
            + PLAN_SECS && now.1 > made.1),
        forall|active: bool|
            earlier(expiry_of(made), now) ==> #[trigger] apply_problem(
                active,
                Some(record),
                token,
                Some(expiry_of(made)),
                now,
            ) is Some,
{
}

/// What is done next while a plan is applied on all its nodes.
#[derive(Debug, Clone, Copy, PartialEq, Eq, Structural)]
pub enum OperationStep {
    /// Stage the change on the next node.
    Stage,
    /// Commit the change on the next node.
    Commit,
    /// Take the change back on a node where it is staged.
    Rollback,
    /// Record that the change failed.
    RecordFailure,
    /// Record that the change is in effect.
    RecordSuccess,
    Done,
    Failed,
}

/// A plan that is being applied on all its nodes.
#[derive(Debug, Clone, PartialEq, Eq)]
pub struct Operation {
    pub nodes: Vec<String>,
    pub step: OperationStep,
    /// The node that is staged or committed next.
    pub next: usize,
    /// On how many nodes the change is staged.
    pub staged: usize,
    /// On how many nodes the change was taken back.
    pub undone: usize,
    /// The change failed when it was to be committed.
    pub committing: bool,
    pub error: Option<ApiError>,
}

/// What is known of a plan that is being applied.
#[verifier::ext_equal]
pub struct OperationView {
    pub nodes: Seq<Seq<char>>,
    pub step: OperationStep,
    pub next: int,
    pub staged: int,
    pub undone: int,
    pub committing: bool,
    pub error: Option<ApiErrorView>,
}

impl View for Operation {
    type V = OperationView;

    open spec fn view(&self) -> OperationView {
        OperationView {
            nodes: string_views(self.nodes@),
            step: self.step,
            next: self.next as int,
            staged: self.staged as int,
            undone: self.undone as int,
            committing: self.committing,
            error: match self.error {
                Some(error) => Some(error@),
                None => None,
            },
        }
    }
}

/// Turns to taking the change back, where there is something to take back. A change that failed
/// before it was to be committed is recorded.
pub open spec fn undoing(s: OperationView) -> OperationView {
    OperationView {
        step: if s.undone < s.staged {
            OperationStep::Rollback
        } else if s.committing {
            OperationStep::Failed
        } else {
            OperationStep::RecordFailure
        },
        ..s
    }
}

/// How the operation goes on after a step with this outcome.
pub open spec fn operation_after(s: OperationView, problem: Option<ApiErrorView>) -> OperationView {
    match (s.step, problem) {
        (OperationStep::Stage, None) => if s.next + 1 < s.nodes.len() {
            OperationView { next: s.next + 1, staged: s.staged + 1, ..s }
        } else {
            OperationView { step: OperationStep::Commit, next: 0, staged: s.staged + 1, ..s }
        },
        (OperationStep::Stage, Some(error)) => undoing(OperationView { error: Some(error), ..s }),
        (OperationStep::Commit, None) => if s.next + 1 < s.nodes.len() {
            OperationView { next: s.next + 1, ..s }
        } else {
            OperationView { step: OperationStep::RecordSuccess, ..s }
        },
        (OperationStep::Commit, Some(error)) => undoing(
            OperationView { error: Some(error), committing: true, ..s },
        ),
        (OperationStep::Rollback, _) => undoing(OperationView { undone: s.undone + 1, ..s }),
        (OperationStep::RecordSuccess, None) => OperationView { step: OperationStep::Done, ..s },
        (OperationStep::RecordFailure, None) => OperationView { step: OperationStep::Failed, ..s },
        (OperationStep::Done, _) => s,
        (OperationStep::Failed, _) => s,
        (_, Some(error)) => OperationView {
            step: OperationStep::Failed,
            error: Some(error),
            ..s
        },
    }
}

/// What holds while a plan is applied: nothing is committed before it is staged on every node, and
/// after a failure it is taken back on every node where it is staged.
pub open spec fn operation_holds(s: OperationView) -> bool {
    &&& 0 <= s.next < s.nodes.len()
    &&& 0 <= s.undone <= s.staged <= s.nodes.len()
    &&& match s.step {
        OperationStep::Stage => s.staged == s.next && s.undone == 0 && !s.committing,
        OperationStep::Commit => s.staged == s.nodes.len() && s.undone == 0 && !s.committing,
        OperationStep::Rollback => s.undone < s.staged && s.error is Some,
        OperationStep::RecordFailure => s.undone == s.staged && s.error is Some,
        OperationStep::RecordSuccess => s.staged == s.nodes.len() && s.undone == 0 && s.next + 1
            == s.nodes.len(),
        OperationStep::Done => s.staged == s.nodes.len() && s.undone == 0,
        OperationStep::Failed => s.error is Some && (s.undone == s.staged || s.undone == 0),
    }
}

/// What holds when an operation starts holds after each of its steps. So a node commits only when
/// all have staged, a change is in effect only when all have committed, and after a failure it is
/// taken back everywhere.
pub proof fn operations_take_effect_everywhere_or_nowhere(
    nodes: Seq<Seq<char>>,
    s: OperationView,
    problem: Option<ApiErrorView>,
)
    requires
        nodes.len() > 0,
    ensures
        operation_holds(operation_start(nodes)),
        operation_holds(s) ==> operation_holds(operation_after(s, problem)),
        operation_after(s, problem).nodes == s.nodes,
        operation_holds(s) && s.step != OperationStep::Done && operation_after(s, problem).step
            == OperationStep::Done ==> s.step == OperationStep::RecordSuccess,
        s.step != OperationStep::RecordSuccess && operation_after(s, problem).step
            == OperationStep::RecordSuccess ==> s.step == OperationStep::Commit && problem is None
            && s.next + 1 >= s.nodes.len(),
{
}

/// An operation that starts.
pub open spec fn operation_start(nodes: Seq<Seq<char>>) -> OperationView {
    OperationView {
        nodes,
        step: OperationStep::Stage,
        next: 0,
        staged: 0,
        undone: 0,
        committing: false,
        error: None,
    }
}

impl Operation {
    /// Applies a plan on these nodes.
    pub fn start(nodes: Vec<String>) -> (r: Operation)
        requires
            nodes@.len() > 0,
        ensures
            r@ == operation_start(string_views(nodes@)),
            operation_holds(r@),
    {
        Operation {
            nodes,
            step: OperationStep::Stage,
            next: 0,
            staged: 0,
            undone: 0,
            committing: false,
            error: None,
        }
    }

    /// The node that the next step is for, if it is for one.
    pub fn node(&self) -> (r: Option<&str>)
        requires
            operation_holds(self@),
        ensures
            match r {
                Some(node) => match self.step {
                    OperationStep::Stage => node@ == self@.nodes[self@.next],
                    OperationStep::Commit => node@ == self@.nodes[self@.next],
                    OperationStep::Rollback => node@ == self@.nodes[self@.undone],
                    _ => false,
                },
                None => self.step != OperationStep::Stage && self.step != OperationStep::Commit
                    && self.step != OperationStep::Rollback,
            },
    {
        match self.step {
            OperationStep::Stage => Some(self.nodes[self.next].as_str()),
            OperationStep::Commit => Some(self.nodes[self.next].as_str()),
            OperationStep::Rollback => Some(self.nodes[self.undone].as_str()),
            _ => None,
        }
    }

    /// Turns to taking the change back.
    fn turn_back(&mut self)
        ensures
            final(self)@ == undoing(old(self)@),
    {
        self.step = if self.undone < self.staged {
            OperationStep::Rollback
        } else if self.committing {
            OperationStep::Failed
        } else {
            OperationStep::RecordFailure
        };
    }

    /// Goes on after a step with this outcome.
    pub fn advance(&mut self, outcome: Result<(), ApiError>)
        requires
            operation_holds(old(self)@),
        ensures
            final(self)@ == operation_after(old(self)@, api_problem(outcome)),
            operation_holds(final(self)@),
    {
        proof {
            operations_take_effect_everywhere_or_nowhere(
                self@.nodes,
                self@,
                api_problem(outcome),
            );
        }
        let total: usize = self.nodes.len();
        assert(self.next < total && self.staged <= total);
        match (self.step, outcome) {
            (OperationStep::Stage, Ok(_)) => {
                self.staged = self.staged + 1;
                if self.next + 1 < total {
                    self.next = self.next + 1;
                } else {
                    self.next = 0;
                    self.step = OperationStep::Commit;
                }
            },
            (OperationStep::Stage, Err(error)) => {
                self.error = Some(error);
                self.turn_back();
            },
            (OperationStep::Commit, Ok(_)) => {
                if self.next + 1 < total {
                    self.next = self.next + 1;
                } else {
                    self.step = OperationStep::RecordSuccess;
                }
            },
            (OperationStep::Commit, Err(error)) => {
                self.error = Some(error);
                self.committing = true;
                self.turn_back();
            },
            (OperationStep::Rollback, _) => {
                self.undone = self.undone + 1;
                self.turn_back();
            },
            (OperationStep::RecordSuccess, Ok(_)) => {
                self.step = OperationStep::Done;
            },
            (OperationStep::RecordFailure, Ok(_)) => {
                self.step = OperationStep::Failed;
            },
            (OperationStep::Done, _) => {},
            (OperationStep::Failed, _) => {},
            (_, Err(error)) => {
                self.error = Some(error);
                self.step = OperationStep::Failed;
            },
        }
    }
}

/// What is done next while a network is torn down on all its nodes.
#[derive(Debug, Clone, Copy, PartialEq, Eq, Structural)]
pub enum TeardownStep {
    /// Tear down on the next node.
    Node,
    /// Record that the network is in quarantine: a node could not tear it down.
    Quarantine,
    /// Record that the network is torn down.
    RecordSuccess,
    Done,
    Failed,
}

/// A network that is being torn down.
#[derive(Debug, Clone, PartialEq, Eq)]
pub struct Teardown {
    pub nodes: Vec<String>,
    pub next: usize,
    pub step: TeardownStep,
    pub error: Option<ApiError>,
}

/// What is known of a network that is being torn down.
#[verifier::ext_equal]
pub struct TeardownView {
    pub nodes: Seq<Seq<char>>,
    pub next: int,
    pub step: TeardownStep,
    pub error: Option<ApiErrorView>,
}

impl View for Teardown {
    type V = TeardownView;

    open spec fn view(&self) -> TeardownView {
        TeardownView {
            nodes: string_views(self.nodes@),
            next: self.next as int,
            step: self.step,
            error: match self.error {
                Some(error) => Some(error@),
                None => None,
            },
        }
    }
}

/// How tearing down goes on after a step with this outcome. The first node that fails ends it.
pub open spec fn teardown_after(s: TeardownView, problem: Option<ApiErrorView>) -> TeardownView {
    match (s.step, problem) {
        (TeardownStep::Node, None) => if s.next + 1 < s.nodes.len() {
            TeardownView { next: s.next + 1, ..s }
        } else {
            TeardownView { step: TeardownStep::RecordSuccess, ..s }
        },
        (TeardownStep::Node, Some(error)) => TeardownView {
            step: TeardownStep::Quarantine,
            error: Some(error),
            ..s
        },
        (TeardownStep::Quarantine, None) => TeardownView { step: TeardownStep::Failed, ..s },
        (TeardownStep::RecordSuccess, None) => TeardownView { step: TeardownStep::Done, ..s },
        (TeardownStep::Done, _) => s,
        (TeardownStep::Failed, _) => s,
        (_, Some(error)) => TeardownView { step: TeardownStep::Failed, error: Some(error), ..s },
    }
}

/// What holds while a network is torn down.
pub open spec fn teardown_holds(s: TeardownView) -> bool {
    &&& 0 <= s.next < s.nodes.len()
    &&& (s.step == TeardownStep::RecordSuccess || s.step == TeardownStep::Done ==> s.next + 1
        == s.nodes.len() && s.error is None)
    &&& (s.step == TeardownStep::Node ==> s.error is None)
    &&& (s.step == TeardownStep::Quarantine || s.step == TeardownStep::Failed ==> s.error is Some)
}

/// A network counts as torn down only when every node has torn it down; one that a node could not
/// tear down is put in quarantine.
pub proof fn failed_teardowns_are_quarantined(s: TeardownView, problem: Option<ApiErrorView>)
    requires
        teardown_holds(s),
    ensures
        teardown_holds(teardown_after(s, problem)),
        s.step == TeardownStep::Node && problem is Some ==> teardown_after(s, problem).step
            == TeardownStep::Quarantine && teardown_after(s, problem).error == problem,
        s.step == TeardownStep::Node && teardown_after(s, problem).step
            == TeardownStep::RecordSuccess ==> problem is None && s.next + 1 == s.nodes.len(),
{
}

impl Teardown {
    /// Tears a network down on these nodes.
    pub fn start(nodes: Vec<String>) -> (r: Teardown)
        requires
            nodes@.len() > 0,
        ensures
            r@ == (TeardownView {
                nodes: string_views(nodes@),
                next: 0,
                step: TeardownStep::Node,
                error: None,
            }),
            teardown_holds(r@),
    {
        Teardown { nodes, next: 0, step: TeardownStep::Node, error: None }
    }

    /// The node that the next step is for. In quarantine, the one that failed.
    pub fn node(&self) -> (r: &str)
        requires
            teardown_holds(self@),
        ensures
            r@ == self@.nodes[self@.next],
    {
        self.nodes[self.next].as_str()
    }

    /// Goes on after a step with this outcome.
    pub fn advance(&mut self, outcome: Result<(), ApiError>)
        requires
            teardown_holds(old(self)@),
        ensures
            final(self)@ == teardown_after(old(self)@, api_problem(outcome)),
            teardown_holds(final(self)@),
    {
        proof {
            failed_teardowns_are_quarantined(self@, api_problem(outcome));
        }
        let total: usize = self.nodes.len();
        assert(self.next < total);
        match (self.step, outcome) {
            (TeardownStep::Node, Ok(_)) => {
                if self.next + 1 < total {
                    self.next = self.next + 1;
                } else {
                    self.step = TeardownStep::RecordSuccess;
                }
            },
            (TeardownStep::Node, Err(error)) => {
                self.error = Some(error);
                self.step = TeardownStep::Quarantine;
            },
            (TeardownStep::Quarantine, Ok(_)) => {
                self.step = TeardownStep::Failed;
            },
            (TeardownStep::RecordSuccess, Ok(_)) => {
                self.step = TeardownStep::Done;
            },
            (TeardownStep::Done, _) => {},
            (TeardownStep::Failed, _) => {},
            (_, Err(error)) => {
                self.error = Some(error);
                self.step = TeardownStep::Failed;
            },
        }
    }
}

} // verus!
