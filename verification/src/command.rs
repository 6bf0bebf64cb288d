//! What the handlers of a tick ask the world to do once they are done.
use crate::creature::Creature;
use vstd::prelude::*;

verus! {

/// Something that happens to a unit.
#[derive(Debug, Clone, Copy)]
pub enum UnitEffect {
    Root { until: u64 },
    Damage { amount: u32 },
}

/// A change of the world that waits for its phase of the tick.
#[derive(Debug)]
pub enum WorldCommand {
    SpawnCreature(Creature),
    KillCreature(u64),
}

/// The changes that wait, in the order in which they were asked for.
#[derive(Debug)]
pub struct CommandQueue {
    cmds: Vec<WorldCommand>,
}

impl View for CommandQueue {
    type V = Seq<WorldCommand>;

    closed spec fn view(&self) -> Seq<WorldCommand> {
        self.cmds@
    }
}

impl Default for CommandQueue {
    fn default() -> (r: Self)
        ensures
            r@ == Seq::<WorldCommand>::empty(),
    {
        CommandQueue { cmds: Vec::new() }
    }
}

impl CommandQueue {
    pub fn new() -> (r: Self)
        ensures
            r@ == Seq::<WorldCommand>::empty(),
    {
        Self::default()
    }

    pub fn push(&mut self, cmd: WorldCommand)
        ensures
            final(self)@ == old(self)@.push(cmd),
    {
        self.cmds.push(cmd);
    }

    /// Hand out everything that waits, first come first.
    pub fn drain(&mut self) -> (r: Vec<WorldCommand>)
        ensures
            r@ == old(self)@,
            final(self)@ == Seq::<WorldCommand>::empty(),
    {
        let mut r: Vec<WorldCommand> = Vec::new();
        r.append(&mut self.cmds);
        assert(r@ =~= old(self)@);
        r
    }

    pub fn len(&self) -> (r: usize)
        ensures
            r as nat == self@.len(),
    {
        self.cmds.len()
    }

    pub fn is_empty(&self) -> (r: bool)
        ensures
            r == (self@.len() == 0),
    {
        self.cmds.is_empty()
    }
}

/// What is asked for first is handed out first, all of it, and then nothing waits.
pub proof fn commands_wait_their_turn(
    a: &mut CommandQueue,
    first: WorldCommand,
    u: (),
    b: &mut CommandQueue,
    second: WorldCommand,
    v: (),
    c: &mut CommandQueue,
    r: Vec<WorldCommand>,
)
    requires
        call_ensures(CommandQueue::push, (a, first), u),
        *old(b) == *final(a),
        call_ensures(CommandQueue::push, (b, second), v),
        *old(c) == *final(b),
        call_ensures(CommandQueue::drain, (c,), r),
    ensures
        r@ == old(a)@.push(first).push(second),
        final(c)@.len() == 0,
{
}

} // verus!
