//! A change runs to its end, and so does what undoes it.
use crate::agent::journal::{
    apply_after, apply_start, command_text, is_deletion, rollback_after, rollback_start, settled,
    ApplyStep, ApplyView, RollbackStep, RollbackView,
};
use crate::agent::plan::{CommandView, PlanView};
use vstd::prelude::*;

verus! {

/// The application of a plan after `n` steps that all succeed.
pub open spec fn applied(s: ApplyView, n: int) -> ApplyView
    decreases n,
{
    if n <= 0 {
        s
    } else {
        apply_after(applied(s, n - 1), None)
    }
}

/// Where every step succeeds, the commands of a plan are run one after the other, each after the
/// journal was written that counts those before it. When the last one was run the change is staged,
/// under the operation, the lease and the rollback that it began with.
pub proof fn changes_run_all_commands(operation: Seq<char>, plan: PlanView, lease: int, i: int)
    requires
        0 <= i <= plan.commands.len(),
    ensures
        ({
            let s = apply_start(operation, plan, lease);
            let writing = applied(s, 2 * i);
            let running = applied(s, 2 * i + 1);
            let n = plan.commands.len() as int;
            let end = applied(s, 2 * n + 2);
            &&& writing.step == ApplyStep::Write
            &&& writing.journal.completed_commands == i
            &&& i < n ==> running.step == ApplyStep::Run && running.journal.completed_commands == i
                && running.commands[i] == plan.commands[i]
            &&& end.step == ApplyStep::Done
            &&& end.journal.phase == "staged"@
            &&& end.journal.completed_commands == n
            &&& end.journal.operation_id == operation
            &&& end.journal.profile_revision_id == plan.profile_revision_id
            &&& end.journal.lease_expires_unix_ms == lease
            &&& end.journal.rollback_commands == plan.rollback_commands
        }),
{
    let n = plan.commands.len() as int;
    changes_go_on(operation, plan, lease, i);
    changes_go_on(operation, plan, lease, n);
    let s = apply_start(operation, plan, lease);
    reveal_with_fuel(applied, 3);
    assert(applied(s, 2 * n + 2) == apply_after(apply_after(applied(s, 2 * n), None), None));
}

proof fn changes_go_on(operation: Seq<char>, plan: PlanView, lease: int, i: int)
    requires
        0 <= i <= plan.commands.len(),
    ensures
        applied(apply_start(operation, plan, lease), 2 * i) == (ApplyView {
            journal: crate::agent::journal::JournalView {
                completed_commands: i,
                ..apply_start(operation, plan, lease).journal
            },
            ..apply_start(operation, plan, lease)
        }),
    decreases i,
{
    if i > 0 {
        changes_go_on(operation, plan, lease, i - 1);
        let s = apply_start(operation, plan, lease);
        let before = applied(s, 2 * (i - 1));
        assert(applied(s, 2 * i - 1) == apply_after(before, None));
        assert(applied(s, 2 * i) == apply_after(applied(s, 2 * i - 1), None));
    }
}

/// Undoing a change after `n` steps that all succeed.
pub open spec fn undone(s: RollbackView, n: int) -> RollbackView
    decreases n,
{
    if n <= 0 {
        s
    } else {
        rollback_after(undone(s, n - 1), None)
    }
}

/// Where every step succeeds, the commands that undo a change are run one after the other, each
/// once, in the order in which they are listed, and at the end the journal is removed.
pub proof fn undoing_runs_all_commands(commands: Seq<CommandView>, i: int)
    requires
        0 <= i <= commands.len(),
    ensures
        ({
            let s = rollback_start(commands);
            let n = commands.len() as int;
            &&& i < n ==> undone(s, i).step == RollbackStep::Run && undone(s, i).index == i
                && undone(s, i).commands[i] == commands[i]
            &&& undone(s, n).step == RollbackStep::Remove
            &&& undone(s, n + 1).step == RollbackStep::Done
        }),
{
    undoing_goes_on(commands, i);
    undoing_goes_on(commands, commands.len() as int);
}

proof fn undoing_goes_on(commands: Seq<CommandView>, i: int)
    requires
        0 <= i <= commands.len(),
    ensures
        undone(rollback_start(commands), i) == (RollbackView {
            commands,
            index: i,
            attempt: 0,
            failures: Seq::empty(),
            step: if i < commands.len() {
                RollbackStep::Run
            } else {
                RollbackStep::Remove
            },
            error: Seq::empty(),
        }),
    decreases i,
{
    if i > 0 {
        undoing_goes_on(commands, i - 1);
    }
}

/// A command that fails is tried again twice; if it fails each time, it is remembered as failed, and
/// the next one that may still be run follows.
pub proof fn failing_commands_are_tried_three_times(s: RollbackView, problem: Seq<char>)
    requires
        s.step == RollbackStep::Run,
        s.attempt == 0,
        0 <= s.index < s.commands.len(),
    ensures
        ({
            let first = rollback_after(rollback_after(s, Some(problem)), None);
            let second = rollback_after(rollback_after(first, Some(problem)), None);
            let third = rollback_after(rollback_after(second, Some(problem)), None);
            &&& first.step == RollbackStep::Run && first.index == s.index && first.failures
                == s.failures
            &&& second.step == RollbackStep::Run && second.index == s.index && second.failures
                == s.failures
            &&& third.index > s.index
            &&& third.failures == s.failures.push(command_text(s.commands[s.index]))
            &&& third.step == RollbackStep::Run || third.step == RollbackStep::Failed
            &&& forall|k: int|
                s.index < k < third.index ==> is_deletion(#[trigger] third.commands[k])
        }),
{
    let failed = RollbackView {
        index: s.index + 1,
        attempt: 0,
        failures: s.failures.push(command_text(s.commands[s.index])),
        step: RollbackStep::Wait,
        ..s
    };
    passed_over_are_deletions(failed);
}

proof fn passed_over_are_deletions(s: RollbackView)
    requires
        0 <= s.index <= s.commands.len(),
        s.failures.len() > 0,
    ensures
        settled(s).commands == s.commands,
        settled(s).failures == s.failures,
        s.index <= settled(s).index <= s.commands.len(),
        settled(s).step == RollbackStep::Run || settled(s).step == RollbackStep::Failed,
        forall|k: int| s.index <= k < settled(s).index ==> is_deletion(#[trigger] s.commands[k]),
    decreases s.commands.len() - s.index,
{
    if s.index < s.commands.len() && is_deletion(s.commands[s.index]) {
        passed_over_are_deletions(RollbackView { index: s.index + 1, ..s });
    }
}

} // verus!
