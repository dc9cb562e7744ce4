//! Network changes in progress: how they are journaled, applied, committed and rolled back.
use crate::agent::inventory::InterfaceInventory;
use crate::agent::plan::{
    command_views, delete_command, restore_commands, undo_commands, CommandSpec, CommandView,
    NetworkError, NetworkManager, NetworkPlan, PlanView,
};
use crate::text::{
    append, chars_of, contains_text, copy, debug_quote, debug_quoted, has_text, join, joined,
    lossy_text, same_text, string_views, utf8_lossy,
};
use vstd::prelude::*;

verus! {

/// The record of a network change. It is kept on disk while the change is in effect.
#[derive(Debug, Clone, PartialEq, Eq)]
pub struct NetworkJournal {
    pub operation_id: String,
    pub profile_revision_id: String,
    pub phase: String,
    pub lease_expires_unix_ms: i64,
    pub rollback_commands: Vec<CommandSpec>,
    pub completed_commands: usize,
}

/// What a journal says.
#[verifier::ext_equal]
pub struct JournalView {
    pub operation_id: Seq<char>,
    pub profile_revision_id: Seq<char>,
    pub phase: Seq<char>,
    pub lease_expires_unix_ms: int,
    pub rollback_commands: Seq<CommandView>,
    pub completed_commands: int,
}

impl View for NetworkJournal {
    type V = JournalView;

    open spec fn view(&self) -> JournalView {
        JournalView {
            operation_id: self.operation_id@,
            profile_revision_id: self.profile_revision_id@,
            phase: self.phase@,
            lease_expires_unix_ms: self.lease_expires_unix_ms as int,
            rollback_commands: command_views(self.rollback_commands@),
            completed_commands: self.completed_commands as int,
        }
    }
}

/// What went wrong, if anything.
pub open spec fn problem_of(outcome: Result<(), String>) -> Option<Seq<char>> {
    match outcome {
        Ok(_) => None,
        Err(message) => Some(message@),
    }
}

/// Arguments in quotes.
pub open spec fn quoted(args: Seq<Seq<char>>) -> Seq<Seq<char>> {
    args.map_values(|arg: Seq<char>| debug_quoted(arg))
}

/// A command as it is written in a message.
pub open spec fn command_text(command: CommandView) -> Seq<char> {
    command.program + " ["@ + joined(quoted(command.args), ", "@, command.args.len() as int) + "]"@
}

/// A command as it is written in a message.
pub fn describe(command: &CommandSpec) -> (r: String)
    ensures
        r@ == command_text(command@),
{
    let mut args: Vec<String> = Vec::new();
    let mut i: usize = 0;
    while i < command.args.len()
        invariant
            i <= command.args@.len(),
            args@.len() == i,
            forall|j: int|
                0 <= j < i ==> (#[trigger] args@[j])@ == debug_quoted(command.args@[j]@),
        decreases command.args@.len() - i,
    {
        args.push(debug_quote(command.args[i].as_str()));
        i += 1;
    }
    assert(string_views(args@) =~= quoted(command@.args));
    let mut text = copy(command.program.as_str());
    append(&mut text, " [");
    let list = join(&args, ", ");
    append(&mut text, list.as_str());
    append(&mut text, "]");
    text
}

/// What is said of a command that failed with this output.
pub open spec fn command_failure(command: CommandView, stderr: Seq<u8>) -> Seq<char> {
    command_text(command) + " failed: "@ + utf8_lossy(stderr)
}

/// What is said of a command that failed with this output.
fn describe_failure(command: &CommandSpec, stderr: &[u8]) -> (r: String)
    ensures
        r@ == command_failure(command@, stderr@),
{
    let mut message = describe(command);
    append(&mut message, " failed: ");
    let text = lossy_text(stderr);
    append(&mut message, text.as_str());
    message
}

/// Whether a command has done its work, or what is said of it.
pub fn command_outcome(command: &CommandSpec, success: bool, stderr: &[u8]) -> (r: Result<
    (),
    String,
>)
    ensures
        problem_of(r) == (if success {
            None
        } else {
            Some(command_failure(command@, stderr@))
        }),
{
    if success {
        Ok(())
    } else {
        Err(describe_failure(command, stderr))
    }
}

/// The output says that what was to be undone is not there.
pub open spec fn nothing_to_undo(output: Seq<char>) -> bool {
    ||| contains_text(output, "Cannot open network namespace"@)
    ||| contains_text(output, "No such file or directory"@)
    ||| contains_text(output, "Cannot find device"@)
    ||| contains_text(output, "does not exist"@)
}

/// Whether a command that undoes something has done its work, or what is said of it. Where there
/// was nothing to undo, it has.
pub fn rollback_outcome(command: &CommandSpec, success: bool, stderr: &[u8]) -> (r: Result<
    (),
    String,
>)
    ensures
        problem_of(r) == (if success || nothing_to_undo(utf8_lossy(stderr@)) {
            None
        } else {
            Some(command_failure(command@, stderr@))
        }),
{
    if success {
        return Ok(());
    }
    let text = lossy_text(stderr);
    let chars = chars_of(text.as_str());
    if has_text(chars.as_slice(), "Cannot open network namespace") || has_text(
        chars.as_slice(),
        "No such file or directory",
    ) || has_text(chars.as_slice(), "Cannot find device") || has_text(
        chars.as_slice(),
        "does not exist",
    ) {
        return Ok(());
    }
    Err(describe_failure(command, stderr))
}

/// What is done next while a plan is applied.
#[derive(Debug, Clone, Copy, PartialEq, Eq, Structural)]
pub enum ApplyStep {
    /// Write the journal.
    Write,
    /// Run the next command.
    Run,
    /// Write the journal of a change that is complete.
    WriteStaged,
    /// Write the journal of a change that failed.
    WriteRollback,
    /// Undo the change.
    RollBack,
    /// The change is staged.
    Done,
    /// The change failed.
    Failed,
}

/// A plan that is being applied.
#[derive(Debug, Clone, PartialEq, Eq)]
pub struct Applying {
    pub journal: NetworkJournal,
    pub commands: Vec<CommandSpec>,
    pub step: ApplyStep,
    pub error: String,
}

/// What is known of a plan that is being applied.
#[verifier::ext_equal]
pub struct ApplyView {
    pub journal: JournalView,
    pub commands: Seq<CommandView>,
    pub step: ApplyStep,
    pub error: Seq<char>,
}

impl View for Applying {
    type V = ApplyView;

    open spec fn view(&self) -> ApplyView {
        ApplyView {
            journal: self.journal@,
            commands: command_views(self.commands@),
            step: self.step,
            error: self.error@,
        }
    }
}

/// A plan that starts to be applied.
pub open spec fn apply_start(operation: Seq<char>, plan: PlanView, lease: int) -> ApplyView {
    ApplyView {
        journal: JournalView {
            operation_id: operation,
            profile_revision_id: plan.profile_revision_id,
            phase: "applying"@,
            lease_expires_unix_ms: lease,
            rollback_commands: plan.rollback_commands,
            completed_commands: 0,
        },
        commands: plan.commands,
        step: ApplyStep::Write,
        error: Seq::empty(),
    }
}

/// How the application of a plan goes on after a step with this outcome.
pub open spec fn apply_after(s: ApplyView, problem: Option<Seq<char>>) -> ApplyView {
    match (s.step, problem) {
        (ApplyStep::Write, None) => if s.journal.completed_commands < s.commands.len() {
            ApplyView { step: ApplyStep::Run, ..s }
        } else {
            ApplyView {
                step: ApplyStep::WriteStaged,
                journal: JournalView { phase: "staged"@, ..s.journal },
                ..s
            }
        },
        (ApplyStep::Run, None) => ApplyView {
            step: ApplyStep::Write,
            journal: JournalView {
                completed_commands: s.journal.completed_commands + 1,
                ..s.journal
            },
            ..s
        },
        (ApplyStep::Run, Some(error)) => ApplyView {
            step: ApplyStep::WriteRollback,
            journal: JournalView { phase: "rolling_back"@, ..s.journal },
            error,
            ..s
        },
        (ApplyStep::WriteRollback, None) => ApplyView { step: ApplyStep::RollBack, ..s },
        (ApplyStep::RollBack, _) => ApplyView { step: ApplyStep::Failed, ..s },
        (ApplyStep::WriteStaged, None) => ApplyView { step: ApplyStep::Done, ..s },
        (ApplyStep::Done, _) => s,
        (ApplyStep::Failed, _) => s,
        (_, Some(error)) => ApplyView { step: ApplyStep::Failed, error, ..s },
    }
}

/// What holds while a plan is applied: the journal counts the commands that were run and says how
/// far the change is.
pub open spec fn apply_holds(s: ApplyView) -> bool {
    let done = s.journal.completed_commands;
    &&& 0 <= done <= s.commands.len()
    &&& match s.step {
        ApplyStep::Write => s.journal.phase == "applying"@,
        ApplyStep::Run => s.journal.phase == "applying"@ && done < s.commands.len(),
        ApplyStep::WriteStaged => s.journal.phase == "staged"@ && done == s.commands.len(),
        ApplyStep::Done => s.journal.phase == "staged"@ && done == s.commands.len(),
        ApplyStep::WriteRollback => s.journal.phase == "rolling_back"@,
        ApplyStep::RollBack => s.journal.phase == "rolling_back"@,
        ApplyStep::Failed => true,
    }
}

/// What holds at the start of an application holds after each of its steps, and no step changes
/// the commands or what would undo them. So a change is staged only when every command was run.
pub proof fn applying_stays_consistent(
    operation: Seq<char>,
    plan: PlanView,
    lease: int,
    s: ApplyView,
    problem: Option<Seq<char>>,
)
    ensures
        apply_holds(apply_start(operation, plan, lease)),
        apply_holds(s) ==> apply_holds(apply_after(s, problem)),
        apply_after(s, problem).commands == s.commands,
        apply_after(s, problem).journal.rollback_commands == s.journal.rollback_commands,
{
}

/// A command is run only right after the journal that tells how to undo it was written.
pub proof fn commands_are_journaled_first(s: ApplyView, problem: Option<Seq<char>>)
    ensures
        apply_after(s, problem).step == ApplyStep::Run ==> s.step == ApplyStep::Write && problem
            is None,
{
}

/// When a command fails, the change is undone, and the error that comes out is that of the
/// command, whether or not undoing it succeeds.
pub proof fn failed_commands_are_rolled_back(
    s: ApplyView,
    error: Seq<char>,
    undoing: Option<Seq<char>>,
)
    requires
        s.step == ApplyStep::Run,
    ensures
        ({
            let writing = apply_after(s, Some(error));
            let undo = apply_after(writing, None);
            let end = apply_after(undo, undoing);
            &&& writing.step == ApplyStep::WriteRollback
            &&& undo.step == ApplyStep::RollBack
            &&& end.step == ApplyStep::Failed
            &&& end.error == error
        }),
{
}

/// Copies of commands.
fn copy_commands(list: &Vec<CommandSpec>) -> (r: Vec<CommandSpec>)
    ensures
        command_views(r@) == command_views(list@),
{
    let mut out: Vec<CommandSpec> = Vec::new();
    let mut i: usize = 0;
    while i < list.len()
        invariant
            i <= list@.len(),
            out@.len() == i,
            forall|j: int| 0 <= j < i ==> (#[trigger] out@[j])@ == list@[j]@,
        decreases list@.len() - i,
    {
        out.push(list[i].duplicate());
        i += 1;
    }
    assert(command_views(out@) =~= command_views(list@));
    out
}

impl Applying {
    /// The command to run, if it is time to run one.
    pub fn command(&self) -> (r: Option<&CommandSpec>)
        requires
            apply_holds(self@),
        ensures
            match r {
                Some(c) => self.step == ApplyStep::Run && c@
                    == self@.commands[self@.journal.completed_commands],
                None => self.step != ApplyStep::Run,
            },
    {
        match self.step {
            ApplyStep::Run => Some(&self.commands[self.journal.completed_commands]),
            _ => None,
        }
    }

    /// Goes on after a step with this outcome.
    pub fn advance(&mut self, outcome: Result<(), String>)
        requires
            apply_holds(old(self)@),
        ensures
            final(self)@ == apply_after(old(self)@, problem_of(outcome)),
            apply_holds(final(self)@),
    {
        let total: usize = self.commands.len();
        match (self.step, outcome) {
            (ApplyStep::Write, Ok(_)) => {
                if self.journal.completed_commands < total {
                    self.step = ApplyStep::Run;
                } else {
                    self.journal.phase = copy("staged");
                    self.step = ApplyStep::WriteStaged;
                }
            },
            (ApplyStep::Run, Ok(_)) => {
                assert(self.journal.completed_commands < total);
                self.journal.completed_commands = self.journal.completed_commands + 1;
                self.step = ApplyStep::Write;
            },
            (ApplyStep::Run, Err(error)) => {
                self.journal.phase = copy("rolling_back");
                self.error = error;
                self.step = ApplyStep::WriteRollback;
            },
            (ApplyStep::WriteRollback, Ok(_)) => {
                self.step = ApplyStep::RollBack;
            },
            (ApplyStep::RollBack, _) => {
                self.step = ApplyStep::Failed;
            },
            (ApplyStep::WriteStaged, Ok(_)) => {
                self.step = ApplyStep::Done;
            },
            (ApplyStep::Done, _) => {},
            (ApplyStep::Failed, _) => {},
            (_, Err(error)) => {
                self.error = error;
                self.step = ApplyStep::Failed;
            },
        }
    }
}

/// What is done next while a change is undone.
#[derive(Debug, Clone, Copy, PartialEq, Eq, Structural)]
pub enum RollbackStep {
    /// Run the command at the index.
    Run,
    /// Wait before the command is tried again or given up.
    Wait,
    /// Remove the journal.
    Remove,
    /// The change is undone.
    Done,
    /// The change could not be undone.
    Failed,
}

/// A change that is being undone.
#[derive(Debug, Clone, PartialEq, Eq)]
pub struct Rollback {
    pub commands: Vec<CommandSpec>,
    pub index: usize,
    pub attempt: u64,
    pub failures: Vec<String>,
    pub step: RollbackStep,
    pub error: String,
}

/// What is known of a change that is being undone.
#[verifier::ext_equal]
pub struct RollbackView {
    pub commands: Seq<CommandView>,
    pub index: int,
    pub attempt: int,
    pub failures: Seq<Seq<char>>,
    pub step: RollbackStep,
    pub error: Seq<char>,
}

impl View for Rollback {
    type V = RollbackView;

    open spec fn view(&self) -> RollbackView {
        RollbackView {
            commands: command_views(self.commands@),
            index: self.index as int,
            attempt: self.attempt as int,
            failures: string_views(self.failures@),
            step: self.step,
            error: self.error@,
        }
    }
}

/// A command that deletes a network namespace.
pub open spec fn is_deletion(c: CommandView) -> bool {
    &&& c.program == "ip"@
    &&& c.args.len() >= 2
    &&& c.args[0] == "netns"@
    &&& c.args[1] == "del"@
}

/// Whether a command deletes a network namespace.
fn deletes_namespace(command: &CommandSpec) -> (r: bool)
    ensures
        r == is_deletion(command@),
{
    same_text(command.program.as_str(), "ip") && command.args.len() >= 2 && same_text(
        command.args[0].as_str(),
        "netns",
    ) && same_text(command.args[1].as_str(), "del")
}

/// What is said when these commands failed.
pub open spec fn rollback_complaint(failures: Seq<Seq<char>>) -> Seq<char> {
    "rollback failed: "@ + joined(failures, ", "@, failures.len() as int)
}

/// Turns to the command at the index. Once a command has failed, no namespace is deleted: what
/// could not be moved out of it would be destroyed with it. After the last command the journal is
/// removed, or the failures are told.
pub open spec fn settled(s: RollbackView) -> RollbackView
    decreases s.commands.len() - s.index,
{
    if s.index >= s.commands.len() {
        if s.failures.len() == 0 {
            RollbackView { step: RollbackStep::Remove, ..s }
        } else {
            RollbackView {
                step: RollbackStep::Failed,
                error: rollback_complaint(s.failures),
                ..s
            }
        }
    } else if s.failures.len() > 0 && is_deletion(s.commands[s.index]) {
        settled(RollbackView { index: s.index + 1, ..s })
    } else {
        RollbackView { step: RollbackStep::Run, ..s }
    }
}

/// A change that starts to be undone.
pub open spec fn rollback_start(commands: Seq<CommandView>) -> RollbackView {
    settled(
        RollbackView {
            commands,
            index: 0,
            attempt: 0,
            failures: Seq::empty(),
            step: RollbackStep::Run,
            error: Seq::empty(),
        },
    )
}

/// How undoing goes on after a step with this outcome. A command is tried three times.
pub open spec fn rollback_after(s: RollbackView, problem: Option<Seq<char>>) -> RollbackView {
    match s.step {
        RollbackStep::Run => match problem {
            None => settled(RollbackView { index: s.index + 1, attempt: 0, ..s }),
            Some(_) => RollbackView { step: RollbackStep::Wait, ..s },
        },
        RollbackStep::Wait => if s.attempt + 1 < 3 {
            RollbackView { attempt: s.attempt + 1, step: RollbackStep::Run, ..s }
        } else {
            settled(
                RollbackView {
                    index: s.index + 1,
                    attempt: 0,
                    failures: s.failures.push(command_text(s.commands[s.index])),
                    ..s
                },
            )
        },
        RollbackStep::Remove => match problem {
            None => RollbackView { step: RollbackStep::Done, ..s },
            Some(error) => RollbackView { step: RollbackStep::Failed, error, ..s },
        },
        RollbackStep::Done => s,
        RollbackStep::Failed => s,
    }
}

/// What holds while a change is undone: a command is tried at most three times, no namespace is
/// deleted after a failure, and the journal is removed only without one.
pub open spec fn rollback_holds(s: RollbackView) -> bool {
    &&& 0 <= s.index <= s.commands.len()
    &&& 0 <= s.attempt < 3
    &&& match s.step {
        RollbackStep::Run | RollbackStep::Wait => s.index < s.commands.len() && !(s.failures.len()
            > 0 && is_deletion(s.commands[s.index])),
        RollbackStep::Remove | RollbackStep::Done => s.failures.len() == 0 && s.index
            == s.commands.len(),
        RollbackStep::Failed => true,
    }
}

proof fn settling_holds(s: RollbackView)
    requires
        0 <= s.index <= s.commands.len(),
        0 <= s.attempt < 3,
    ensures
        rollback_holds(settled(s)),
        settled(s).commands == s.commands,
        settled(s).failures == s.failures,
        settled(s).index >= s.index,
        settled(s).attempt == s.attempt,
    decreases s.commands.len() - s.index,
{
    if s.index < s.commands.len() && s.failures.len() > 0 && is_deletion(s.commands[s.index]) {
        settling_holds(RollbackView { index: s.index + 1, ..s });
    }
}

/// What holds when undoing starts holds after each of its steps: no namespace is deleted once a
/// command has failed, and the journal stays unless every command succeeded. Failures are never
/// forgotten.
pub proof fn rolling_back_stays_safe(
    commands: Seq<CommandView>,
    s: RollbackView,
    problem: Option<Seq<char>>,
)
    ensures
        rollback_holds(rollback_start(commands)),
        rollback_holds(s) ==> {
            let next = rollback_after(s, problem);
            &&& rollback_holds(next)
            &&& next.commands == s.commands
            &&& next.index >= s.index
            &&& s.failures.len() <= next.failures.len()
            &&& next.failures.subrange(0, s.failures.len() as int) == s.failures
        },
{
    settling_holds(
        RollbackView {
            commands,
            index: 0,
            attempt: 0,
            failures: Seq::empty(),
            step: RollbackStep::Run,
            error: Seq::empty(),
        },
    );
    if rollback_holds(s) {
        assert(s.failures.subrange(0, s.failures.len() as int) =~= s.failures);
        if s.step == RollbackStep::Run && problem is None {
            settling_holds(RollbackView { index: s.index + 1, attempt: 0, ..s });
        }
        if s.step == RollbackStep::Wait && s.attempt + 1 >= 3 {
            let failures = s.failures.push(command_text(s.commands[s.index]));
            settling_holds(RollbackView { index: s.index + 1, attempt: 0, failures, ..s });
            assert(failures.subrange(0, s.failures.len() as int) =~= s.failures);
        }
    }
}

/// A change that could be undone leaves no journal, and one that could not keeps it: undoing ends
/// well only after the journal was removed.
pub proof fn undone_changes_leave_no_journal(s: RollbackView, problem: Option<Seq<char>>)
    requires
        rollback_holds(s),
        s.step != RollbackStep::Done,
    ensures
        rollback_after(s, problem).step == RollbackStep::Done ==> s.step == RollbackStep::Remove
            && problem is None && s.failures.len() == 0,
{
    if s.step == RollbackStep::Run && problem is None {
        settled_is_not_done(RollbackView { index: s.index + 1, attempt: 0, ..s });
    }
    if s.step == RollbackStep::Wait && s.attempt + 1 >= 3 {
        settled_is_not_done(
            RollbackView {
                index: s.index + 1,
                attempt: 0,
                failures: s.failures.push(command_text(s.commands[s.index])),
                ..s
            },
        );
    }
}

proof fn settled_is_not_done(s: RollbackView)
    ensures
        settled(s).step != RollbackStep::Done,
    decreases s.commands.len() - s.index,
{
    if s.index < s.commands.len() && s.failures.len() > 0 && is_deletion(s.commands[s.index]) {
        settled_is_not_done(RollbackView { index: s.index + 1, ..s });
    }
}

impl Rollback {
    /// Turns to the command at the index.
    fn settle(&mut self)
        requires
            old(self)@.index <= old(self)@.commands.len(),
        ensures
            final(self)@ == settled(old(self)@),
    {
        let ghost start = self@;
        while self.index < self.commands.len() && self.failures.len() > 0 && deletes_namespace(
            &self.commands[self.index],
        )
            invariant
                self@.index <= self@.commands.len(),
                settled(start) == settled(self@),
            decreases self@.commands.len() - self@.index,
        {
            self.index = self.index + 1;
        }
        if self.index < self.commands.len() {
            self.step = RollbackStep::Run;
        } else if self.failures.len() == 0 {
            self.step = RollbackStep::Remove;
        } else {
            let mut error = copy("rollback failed: ");
            let list = join(&self.failures, ", ");
            append(&mut error, list.as_str());
            self.error = error;
            self.step = RollbackStep::Failed;
        }
    }

    /// Undoes what these commands undo.
    pub fn start(commands: &Vec<CommandSpec>) -> (r: Rollback)
        ensures
            r@ == rollback_start(command_views(commands@)),
            rollback_holds(r@),
    {
        let mut r = Rollback {
            commands: copy_commands(commands),
            index: 0,
            attempt: 0,
            failures: Vec::new(),
            step: RollbackStep::Run,
            error: String::new(),
        };
        assert(string_views(r.failures@) =~= Seq::<Seq<char>>::empty());
        assert(r.error@ =~= Seq::<char>::empty());
        proof {
            settling_holds(r@);
        }
        r.settle();
        r
    }

    /// The command to run, if it is time to run one.
    pub fn command(&self) -> (r: Option<&CommandSpec>)
        requires
            rollback_holds(self@),
        ensures
            match r {
                Some(c) => self.step == RollbackStep::Run && c@ == self@.commands[self@.index],
                None => self.step != RollbackStep::Run,
            },
    {
        match self.step {
            RollbackStep::Run => Some(&self.commands[self.index]),
            _ => None,
        }
    }

    /// How many seconds to wait after a failed attempt: one, two and four.
    pub fn delay_secs(&self) -> (r: u64)
        requires
            rollback_holds(self@),
        ensures
            r == (if self.attempt == 0 {
                1int
            } else if self.attempt == 1 {
                2
            } else {
                4
            }),
    {
        if self.attempt == 0 {
            1
        } else if self.attempt == 1 {
            2
        } else {
            4
        }
    }

    /// Goes on after a step with this outcome.
    pub fn advance(&mut self, outcome: Result<(), String>)
        requires
            rollback_holds(old(self)@),
        ensures
            final(self)@ == rollback_after(old(self)@, problem_of(outcome)),
            rollback_holds(final(self)@),
    {
        proof {
            rolling_back_stays_safe(self@.commands, self@, problem_of(outcome));
        }
        let total: usize = self.commands.len();
        assert(self@.step == RollbackStep::Run || self@.step == RollbackStep::Wait ==> self.index
            < total);
        match self.step {
            RollbackStep::Run => match outcome {
                Ok(_) => {
                    self.index = self.index + 1;
                    self.attempt = 0;
                    self.settle();
                },
                Err(_) => {
                    self.step = RollbackStep::Wait;
                },
            },
            RollbackStep::Wait => {
                if self.attempt + 1 < 3 {
                    self.attempt = self.attempt + 1;
                    self.step = RollbackStep::Run;
                } else {
                    let ghost before = self.failures@;
                    let text = describe(&self.commands[self.index]);
                    self.failures.push(text);
                    assert(string_views(self.failures@) =~= string_views(before).push(text@));
                    self.index = self.index + 1;
                    self.attempt = 0;
                    self.settle();
                }
            },
            RollbackStep::Remove => match outcome {
                Ok(_) => {
                    self.step = RollbackStep::Done;
                },
                Err(error) => {
                    self.error = error;
                    self.step = RollbackStep::Failed;
                },
            },
            RollbackStep::Done => {},
            RollbackStep::Failed => {},
        }
    }
}

impl NetworkManager {
    /// Starts to apply a plan, unless the inventory has changed since it was made.
    pub fn apply(
        &self,
        operation_id: &str,
        plan: &NetworkPlan,
        lease_expires_unix_ms: i64,
        current_fingerprint: &str,
    ) -> (r: Result<Applying, NetworkError>)
        ensures
            match r {
                Ok(applying) => {
                    &&& current_fingerprint@ == plan.inventory_fingerprint@
                    &&& applying@ == apply_start(
                        operation_id@,
                        plan@,
                        lease_expires_unix_ms as int,
                    )
                    &&& apply_holds(applying@)
                },
                Err(error) => current_fingerprint@ != plan.inventory_fingerprint@
                    && error.message@ == "inventory changed after plan; create a new plan"@,
            },
    {
        if !same_text(current_fingerprint, plan.inventory_fingerprint.as_str()) {
            return Err(NetworkError::new("inventory changed after plan; create a new plan"));
        }
        let applying = Applying {
            journal: NetworkJournal {
                operation_id: copy(operation_id),
                profile_revision_id: copy(plan.profile_revision_id.as_str()),
                phase: copy("applying"),
                lease_expires_unix_ms,
                rollback_commands: copy_commands(&plan.rollback_commands),
                completed_commands: 0,
            },
            commands: copy_commands(&plan.commands),
            step: ApplyStep::Write,
            error: String::new(),
        };
        assert(applying.error@ =~= Seq::<char>::empty());
        Ok(applying)
    }

    /// Commits a change: the journal to write, if there is one of a staged change.
    pub fn commit(&self, journal: Option<NetworkJournal>) -> (r: Result<
        NetworkJournal,
        NetworkError,
    >)
        ensures
            match r {
                Ok(after) => {
                    &&& journal is Some
                    &&& journal->0.phase@ == "staged"@
                    &&& after@ == (JournalView { phase: "prepared"@, ..journal->0@ })
                },
                Err(error) => match journal {
                    None => error.message@ == "no staged network operation"@,
                    Some(before) => before.phase@ != "staged"@ && error.message@
                        == "network operation is not staged"@,
                },
            },
    {
        match journal {
            None => Err(NetworkError::new("no staged network operation")),
            Some(before) => {
                if !same_text(before.phase.as_str(), "staged") {
                    return Err(NetworkError::new("network operation is not staged"));
                }
                let mut after = before;
                after.phase = copy("prepared");
                Ok(after)
            },
        }
    }

    /// Undoes the change of a journal.
    pub fn rollback(&self, journal: &NetworkJournal) -> (r: Rollback)
        ensures
            r@ == rollback_start(journal@.rollback_commands),
            rollback_holds(r@),
    {
        Rollback::start(&journal.rollback_commands)
    }

    /// Undoes what a journal tells of. When the agent starts, a change that was committed stays.
    pub fn recover(&self, journal: &Option<NetworkJournal>, startup: bool) -> (r: Option<Rollback>)
        ensures
            match r {
                Some(rollback) => {
                    &&& journal is Some
                    &&& !(startup && journal->0.phase@ == "prepared"@)
                    &&& rollback@ == rollback_start(journal->0@.rollback_commands)
                    &&& rollback_holds(rollback@)
                },
                None => journal is None || (startup && journal->0.phase@ == "prepared"@),
            },
    {
        match journal {
            None => None,
            Some(found) => {
                if startup && same_text(found.phase.as_str(), "prepared") {
                    return None;
                }
                Some(self.rollback(found))
            },
        }
    }

    /// Undoes a change whose lease has run out before it was committed.
    pub fn enforce_lease(&self, journal: &Option<NetworkJournal>, operation_id: &str) -> (r: Option<
        Rollback,
    >)
        ensures
            match r {
                Some(rollback) => {
                    &&& lease_applies(*journal, operation_id@)
                    &&& rollback@ == rollback_start(journal->0@.rollback_commands)
                    &&& rollback_holds(rollback@)
                },
                None => !lease_applies(*journal, operation_id@),
            },
    {
        match journal {
            None => None,
            Some(found) => {
                if same_text(found.operation_id.as_str(), operation_id) && (same_text(
                    found.phase.as_str(),
                    "applying",
                ) || same_text(found.phase.as_str(), "staged")) {
                    Some(self.rollback(found))
                } else {
                    None
                }
            },
        }
    }
}

/// The journal is that of an operation that was not committed.
pub open spec fn lease_applies(journal: Option<NetworkJournal>, operation: Seq<char>) -> bool {
    &&& journal is Some
    &&& journal->0.operation_id@ == operation
    &&& journal->0.phase@ == "applying"@ || journal->0.phase@ == "staged"@
}

/// How many milliseconds are left until a time: none if it has passed.
pub fn millis_until(unix_ms: i64, now: i64) -> (r: u64)
    requires
        i64::MIN <= unix_ms - now <= i64::MAX,
    ensures
        r == (if unix_ms > now {
            unix_ms - now
        } else {
            0
        }),
{
    if unix_ms > now {
        (unix_ms - now) as u64
    } else {
        0
    }
}

/// A change that was committed does not fall to its lease, and survives a restart.
pub proof fn committed_changes_stay(journal: NetworkJournal, operation: Seq<char>)
    requires
        journal.phase@ == "prepared"@,
    ensures
        !lease_applies(Some(journal), operation),
{
    reveal_strlit("prepared");
    reveal_strlit("applying");
    reveal_strlit("staged");
    assert("prepared"@[0] != "applying"@[0]);
    assert("prepared"@[0] != "staged"@[0]);
}

proof fn restoring_does_not_delete(interface: Seq<char>, offloads: Seq<(Seq<char>, bool)>, n: int)
    ensures
        forall|i: int|
            0 <= i < restore_commands(interface, offloads, n).len() ==> !is_deletion(
                #[trigger] restore_commands(interface, offloads, n)[i],
            ),
    decreases n,
{
    reveal_strlit("ip");
    reveal_strlit("ethtool");
    assert("ip"@.len() != "ethtool"@.len());
    if n > 0 {
        restoring_does_not_delete(interface, offloads, n - 1);
        let before = restore_commands(interface, offloads, n - 1);
        let all = restore_commands(interface, offloads, n);
        assert forall|i: int| 0 <= i < all.len() implies !is_deletion(#[trigger] all[i]) by {
            if i < before.len() {
                assert(all[i] == before[i]);
            }
        }
    }
}

/// What undoes the setup of an end deletes the namespace with its last command and with no other:
/// by then the interface is out of it.
pub proof fn namespaces_are_deleted_last(current: InterfaceInventory, namespace: Seq<char>, i: int)
    requires
        0 <= i < undo_commands(current, namespace).len(),
    ensures
        is_deletion(undo_commands(current, namespace)[i]) <==> i + 1 == undo_commands(
            current,
            namespace,
        ).len(),
        undo_commands(current, namespace).last() == delete_command(namespace),
        undo_commands(current, namespace)[0].args == seq![
            "-n"@,
            namespace,
            "link"@,
            "set"@,
            current.name@,
            "netns"@,
            "1"@,
        ],
{
    reveal_strlit("netns");
    reveal_strlit("-n");
    reveal_strlit("link");
    assert("netns"@.len() != "-n"@.len() && "netns"@.len() != "link"@.len());
    restoring_does_not_delete(current.name@, current.offloads@, 6);
    let all = undo_commands(current, namespace);
    let restored = restore_commands(current.name@, current.offloads@, 6);
    if 1 <= i < 1 + restored.len() {
        assert(all[i] == restored[i - 1]);
    }
}

} // verus!
