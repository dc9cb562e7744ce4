//! The commands that an agent has completed.
use crate::text::{copy, same_text, string_views};
use vstd::prelude::*;

verus! {

/// How many completed commands an agent remembers.
pub const REMEMBERED_COMMANDS: usize = 256;

/// The completed commands, the oldest first.
#[derive(Debug, Clone, PartialEq, Eq)]
pub struct CompletedCommands {
    pub order: Vec<String>,
}

impl View for CompletedCommands {
    type V = Seq<Seq<char>>;

    open spec fn view(&self) -> Seq<Seq<char>> {
        string_views(self.order@)
    }
}

impl Default for CompletedCommands {
    fn default() -> (r: CompletedCommands)
        ensures
            r@ == Seq::<Seq<char>>::empty(),
    {
        let r = CompletedCommands { order: Vec::new() };
        assert(r@ =~= Seq::empty());
        r
    }
}

/// A command is remembered as completed. A command without an identifier never is.
pub open spec fn is_seen(commands: Seq<Seq<char>>, id: Seq<char>) -> bool {
    id.len() > 0 && commands.contains(id)
}

/// The completed commands with one more. Beyond the limit the oldest is forgotten.
pub open spec fn remembered(commands: Seq<Seq<char>>, id: Seq<char>) -> Seq<Seq<char>> {
    if id.len() == 0 || commands.contains(id) {
        commands
    } else if commands.len() < REMEMBERED_COMMANDS {
        commands.push(id)
    } else {
        commands.push(id).subrange(1, commands.len() as int + 1)
    }
}

/// At most the limit of commands, none of them twice and all with an identifier.
pub open spec fn well_kept(commands: Seq<Seq<char>>) -> bool {
    &&& commands.len() <= REMEMBERED_COMMANDS
    &&& forall|i: int, j: int|
        0 <= i < j < commands.len() ==> (#[trigger] commands[i]) != (#[trigger] commands[j])
    &&& forall|i: int| 0 <= i < commands.len() ==> (#[trigger] commands[i]).len() > 0
}

/// Remembering a command keeps the list bounded and without repetitions. The command is then
/// seen, and remembering it again changes nothing.
pub proof fn remembering_is_bounded_and_idempotent(commands: Seq<Seq<char>>, id: Seq<char>)
    requires
        well_kept(commands),
    ensures
        well_kept(remembered(commands, id)),
        id.len() > 0 ==> is_seen(remembered(commands, id), id),
        remembered(remembered(commands, id), id) == remembered(commands, id),
{
    let after = remembered(commands, id);
    if id.len() > 0 && !commands.contains(id) {
        let pushed = commands.push(id);
        assert forall|i: int, j: int| 0 <= i < j < pushed.len() implies (#[trigger] pushed[i]) != (
        #[trigger] pushed[j]) by {
            if j == commands.len() {
                assert(commands.contains(pushed[i]));
            }
        }
        let drop = if commands.len() < REMEMBERED_COMMANDS {
            0int
        } else {
            1int
        };
        assert(forall|i: int| 0 <= i < after.len() ==> #[trigger] after[i] == pushed[i + drop]);
        assert(after[after.len() - 1] == id);
        assert(after.contains(id));
    }
}

/// A command is forgotten only after 256 others have been remembered: while fewer than the limit
/// are kept, none is forgotten.
pub proof fn remembering_forgets_only_the_oldest(
    commands: Seq<Seq<char>>,
    id: Seq<char>,
    other: Seq<char>,
)
    requires
        well_kept(commands),
        is_seen(commands, other),
        commands.len() < REMEMBERED_COMMANDS || commands[0] != other,
    ensures
        is_seen(remembered(commands, id), other),
{
    let i = choose|i: int| 0 <= i < commands.len() && commands[i] == other;
    let after = remembered(commands, id);
    if id.len() > 0 && !commands.contains(id) {
        if commands.len() < REMEMBERED_COMMANDS {
            assert(after[i] == other);
        } else {
            assert(after[i - 1] == other);
        }
    }
}

/// Whether a command is remembered as completed.
pub fn command_seen(completed: &CompletedCommands, command_id: &str) -> (r: bool)
    ensures
        r == is_seen(completed@, command_id@),
{
    if command_id.is_empty() {
        return false;
    }
    let ghost views = completed@;
    let mut i: usize = 0;
    while i < completed.order.len()
        invariant
            views == completed@,
            command_id@.len() > 0,
            i <= completed.order@.len(),
            forall|j: int| 0 <= j < i ==> views[j] != command_id@,
        decreases completed.order@.len() - i,
    {
        assert(views[i as int] == completed.order@[i as int]@);
        if same_text(completed.order[i].as_str(), command_id) {
            return true;
        }
        i += 1;
    }
    false
}

/// Remembers a command as completed.
pub fn remember_command(completed: &mut CompletedCommands, command_id: &str)
    requires
        well_kept(old(completed)@),
    ensures
        final(completed)@ == remembered(old(completed)@, command_id@),
        well_kept(final(completed)@),
{
    let ghost before = completed@;
    proof {
        remembering_is_bounded_and_idempotent(before, command_id@);
    }
    if command_id.is_empty() || command_seen(completed, command_id) {
        return;
    }
    completed.order.push(copy(command_id));
    assert(completed@ =~= before.push(command_id@));
    if completed.order.len() > REMEMBERED_COMMANDS {
        let ghost pushed = completed.order@;
        let _ = completed.order.remove(0);
        assert(completed.order@ =~= pushed.subrange(1, pushed.len() as int));
        assert(completed@ =~= before.push(command_id@).subrange(1, before.len() as int + 1));
    }
}

} // verus!
