//! The queue of commands from the engine to the runtime.

use std::collections::vec_deque::Iter;
use std::collections::VecDeque;

use vstd::prelude::*;
use vstd::std_specs::iter::IteratorSpec;

use crate::command::Command;
use crate::sm;
use crate::sm::CommandSeq;
use crate::type_config::RaftTypeConfig;

verus! {

/// `cmd` as it is queued: a state machine command gets the number `seq`, any other command stays
/// as it is.
pub open spec fn numbered<C: RaftTypeConfig>(cmd: Command<C>, seq: CommandSeq) -> Command<C> {
    match cmd {
        Command::StateMachine { command } => Command::StateMachine {
            command: command.with_seq(seq),
        },
        _ => cmd,
    }
}

/// Both commands are commits, and the range of `next` starts where the range of `previous` ends.
pub open spec fn continues<C: RaftTypeConfig>(previous: Command<C>, next: Command<C>) -> bool {
    &&& previous is Commit
    &&& next is Commit
    &&& next->already_committed == Some(previous->Commit_upto)
}

/// The commit of two contiguous ranges at once, under the number of the later one.
pub open spec fn joined<C: RaftTypeConfig>(previous: Command<C>, next: Command<C>) -> Command<C> {
    Command::Commit {
        seq: next->Commit_seq,
        already_committed: previous->already_committed,
        upto: next->Commit_upto,
    }
}

/// The position of the queued commit that `cmd` continues, where the two are merged: the last
/// command, or the one before it if the last command is a `ReplicateCommitted`.
pub open spec fn merge_position<C: RaftTypeConfig>(
    queue: Seq<Command<C>>,
    cmd: Command<C>,
) -> Option<int> {
    let end = queue.len() as int;
    if end >= 1 && continues(queue[end - 1], cmd) {
        Some(end - 1)
    } else if end >= 2 && queue[end - 1] is ReplicateCommitted && continues(queue[end - 2], cmd) {
        Some(end - 2)
    } else {
        None
    }
}

/// The queue after a command has been pushed: the command is appended, and if it is merged with a
/// queued commit, the merged commit takes its place and the queued one is gone.
pub open spec fn enqueued<C: RaftTypeConfig>(
    queue: Seq<Command<C>>,
    cmd: Command<C>,
) -> Seq<Command<C>> {
    match merge_position(queue, cmd) {
        Some(i) => queue.remove(i).push(joined(queue[i], cmd)),
        None => queue.push(cmd),
    }
}

/// The queue after a command has been put back to its head.
pub open spec fn postponed<C: RaftTypeConfig>(
    queue: Seq<Command<C>>,
    cmd: Command<C>,
) -> Seq<Command<C>> {
    seq![cmd] + queue
}

/// The state machine commands of a queue are numbered in the order of the queue, from 1 to at most
/// `seq`, and no number occurs twice.
pub open spec fn in_sequence<C: RaftTypeConfig>(queue: Seq<Command<C>>, seq: CommandSeq) -> bool {
    &&& forall|i: int|
        0 <= i < queue.len() && (#[trigger] queue[i]) is StateMachine ==> 1
            <= queue[i]->command.seq <= seq
    &&& forall|i: int, j: int|
        0 <= i < j < queue.len() && (#[trigger] queue[i]) is StateMachine && (
        #[trigger] queue[j]) is StateMachine ==> queue[i]->command.seq < queue[j]->command.seq
}

/// `cmd` can be put in front of a queue whose state machine commands are numbered up to `seq`: if
/// it is a state machine command, its number is from 1 to `seq` and below all numbers in the queue.
pub open spec fn goes_before<C: RaftTypeConfig>(
    cmd: Command<C>,
    queue: Seq<Command<C>>,
    seq: CommandSeq,
) -> bool {
    cmd is StateMachine ==> {
        &&& 1 <= cmd->command.seq <= seq
        &&& forall|i: int|
            0 <= i < queue.len() && (#[trigger] queue[i]) is StateMachine ==> cmd->command.seq
                < queue[i]->command.seq
    }
}

/// Putting a command to the head of a queue that is in sequence keeps it so exactly if the command
/// goes before the queue.
proof fn lemma_postponed_in_sequence<C: RaftTypeConfig>(
    queue: Seq<Command<C>>,
    cmd: Command<C>,
    seq: CommandSeq,
)
    ensures
        in_sequence(postponed(queue, cmd), seq) <==> in_sequence(queue, seq) && goes_before(
            cmd,
            queue,
            seq,
        ),
{
    let after = postponed(queue, cmd);
    assert(after[0] == cmd);
    assert forall|i: int| 0 <= i < queue.len() implies #[trigger] queue[i] == after[i + 1] by {}
}

/// The output of the engine: commands for the runtime, in the order of their execution.
#[derive(Debug)]
pub struct EngineOutput<C: RaftTypeConfig> {
    /// The number of the last state machine command.
    pub seq: CommandSeq,
    /// The commands that the runtime has not executed yet.
    pub commands: VecDeque<Command<C>>,
}

impl<C: RaftTypeConfig> EngineOutput<C> {
    /// The numbers of the queued state machine commands rise, and `seq` is not below any of them.
    pub open spec fn is_in_sequence(&self) -> bool {
        in_sequence(self.commands@, self.seq)
    }

    /// Take the next number for a state machine command.
    pub fn next_sm_seq(&mut self) -> (r: CommandSeq)
        requires
            old(self).seq < u64::MAX,
        ensures
            r == old(self).seq + 1,
            final(self).seq == r,
            final(self).commands@ == old(self).commands@,
            old(self).is_in_sequence() ==> final(self).is_in_sequence(),
    {
        self.seq += 1;
        self.seq
    }

    /// The number of the last state machine command, 0 if there was none.
    pub fn last_sm_seq(&self) -> (r: CommandSeq)
        ensures
            r == self.seq,
    {
        self.seq
    }

    /// An empty queue with room for `command_buffer_size` commands, as far as there is memory.
    pub fn new(command_buffer_size: usize) -> (r: Self)
        ensures
            r.seq == 0,
            r.commands@ == Seq::<Command<C>>::empty(),
            r.is_in_sequence(),
    {
        EngineOutput { seq: 0, commands: VecDeque::with_capacity(command_buffer_size) }
    }

    /// Push a command to the queue.
    ///
    /// A state machine command gets the next number. A commit whose range starts where the range
    /// of a queued commit ends is merged with it, if nothing or only a `ReplicateCommitted` stands
    /// between the two: a leader queues that notification before each of its commits, a follower
    /// queues its commits one after the other. The logs are then applied in one go.
    pub fn push_command(&mut self, cmd: Command<C>)
        requires
            cmd is StateMachine ==> old(self).seq < u64::MAX,
        ensures
            final(self).seq == old(self).seq + (if cmd is StateMachine {
                1int
            } else {
                0
            }),
            final(self).commands@ == enqueued(
                old(self).commands@,
                numbered(cmd, final(self).seq),
            ),
            !(cmd is Commit) && !(cmd is StateMachine) ==> final(self).commands@ == old(self).commands@.push(cmd),
            cmd matches Command::StateMachine { command } ==> final(self).commands@ == old(self).commands@.push(
                Command::StateMachine {
                    command: sm::Command { seq: final(self).seq, payload: command.payload },
                },
            ),
            cmd matches Command::Commit { seq, already_committed, upto } ==> {
                let queue = old(self).commands@;
                let end = queue.len() as int;
                if end >= 1 && queue[end - 1] is Commit && already_committed == Some(
                    queue[end - 1]->Commit_upto,
                ) {
                    final(self).commands@ == queue.take(end - 1).push(
                        Command::Commit {
                            seq,
                            already_committed: queue[end - 1]->already_committed,
                            upto,
                        },
                    )
                } else if end >= 2 && queue[end - 1] is ReplicateCommitted && queue[end
                    - 2] is Commit && already_committed == Some(queue[end - 2]->Commit_upto) {
                    final(self).commands@ == queue.take(end - 2).push(queue[end - 1]).push(
                        Command::Commit {
                            seq,
                            already_committed: queue[end - 2]->already_committed,
                            upto,
                        },
                    )
                } else {
                    final(self).commands@ == queue.push(cmd)
                }
            },
            old(self).is_in_sequence() ==> final(self).is_in_sequence(),
    {
        let mut cmd = cmd;
        match &mut cmd {
            Command::StateMachine { command } => {
                let seq: CommandSeq = self.next_sm_seq();
                command.set_seq(seq);
            },
            _ => {},
        }
        let mut merged: Option<(usize, Command<C>)> = None;
        if let Command::Commit { seq, already_committed, upto } = &cmd {
            let len: usize = self.commands.len();
            let merge_index: Option<usize> = if len >= 1 && matches!(
                &self.commands[len - 1],
                Command::Commit { .. }
            ) {
                Some(len - 1)
            } else if len >= 2 && matches!(
                &self.commands[len - 1],
                Command::ReplicateCommitted { .. }
            ) {
                Some(len - 2)
            } else {
                None
            };
            if let Some(merge_index) = merge_index {
                if let (
                    Command::Commit { already_committed: previous_already, upto: previous_upto, .. },
                    Some(already),
                ) = (&self.commands[merge_index], already_committed) {
                    if *already == *previous_upto {
                        merged = Some(
                            (
                                merge_index,
                                Command::Commit {
                                    seq: *seq,
                                    already_committed: *previous_already,
                                    upto: *upto,
                                },
                            ),
                        );
                    }
                }
            }
        }
        if let Some((merge_index, commit)) = merged {
            self.commands.remove(merge_index);
            cmd = commit;
        }
        self.commands.push_back(cmd);
    }

    /// Put back a command to the head of the queue.
    ///
    /// This is for a command that is not ready to be executed.
    pub fn postpone_command(&mut self, cmd: Command<C>)
        ensures
            final(self).seq == old(self).seq,
            final(self).commands@ == postponed(old(self).commands@, cmd),
            final(self).commands@.len() == old(self).commands@.len() + 1,
            final(self).commands@[0] == cmd,
            final(self).commands@.drop_first() == old(self).commands@,
            final(self).is_in_sequence() <==> old(self).is_in_sequence() && goes_before(
                cmd,
                old(self).commands@,
                old(self).seq,
            ),
    {
        proof {
            lemma_postponed_in_sequence(self.commands@, cmd, self.seq);
        }
        self.commands.push_front(cmd);
    }

    /// Take the command to execute next off the queue.
    pub fn pop_command(&mut self) -> (r: Option<Command<C>>)
        ensures
            final(self).seq == old(self).seq,
            match r {
                Some(cmd) => {
                    &&& old(self).commands@.len() > 0
                    &&& cmd == old(self).commands@.first()
                    &&& final(self).commands@ == old(self).commands@.drop_first()
                },
                None => {
                    &&& old(self).commands@.len() == 0
                    &&& final(self).commands@ == old(self).commands@
                },
            },
            old(self).is_in_sequence() ==> final(self).is_in_sequence(),
    {
        self.commands.pop_front()
    }

    /// Iterate over the queued commands.
    pub fn iter_commands(&self) -> (r: Iter<'_, Command<C>>)
        ensures
            r.remaining() == self.commands@.as_ref(),
    {
        self.commands.iter()
    }

    /// Take all queued commands, in their order, and leave the queue empty.
    pub fn take_commands(&mut self) -> (r: Vec<Command<C>>)
        ensures
            r@ == old(self).commands@,
            final(self).seq == old(self).seq,
            final(self).commands@ == Seq::<Command<C>>::empty(),
            final(self).is_in_sequence(),
    {
        let mut taken: Vec<Command<C>> = Vec::new();
        while self.commands.len() > 0
            invariant
                taken@ + self.commands@ == old(self).commands@,
                self.seq == old(self).seq,
            decreases self.commands@.len(),
        {
            if let Some(cmd) = self.commands.pop_front() {
                taken.push(cmd);
            }
        }
        taken
    }

    /// Drop all queued commands.
    pub fn clear_commands(&mut self)
        ensures
            final(self).seq == old(self).seq,
            final(self).commands@ == Seq::<Command<C>>::empty(),
            final(self).is_in_sequence(),
    {
        self.commands.clear();
    }
}

impl<C: RaftTypeConfig> Default for EngineOutput<C> {
    /// An empty queue.
    fn default() -> (r: Self)
        ensures
            r.seq == 0,
            r.commands@ == Seq::<Command<C>>::empty(),
            r.is_in_sequence(),
    {
        EngineOutput { seq: 0, commands: VecDeque::new() }
    }
}

} // verus!
