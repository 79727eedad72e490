//! What holds of the command queue across several operations.

use std::collections::vec_deque::Iter;

use vstd::prelude::*;
use vstd::std_specs::iter::IteratorSpec;

use crate::command::Command;
use crate::engine_output::continues;
use crate::engine_output::enqueued;
use crate::engine_output::goes_before;
use crate::engine_output::in_sequence;
use crate::engine_output::joined;
use crate::engine_output::merge_position;
use crate::engine_output::postponed;
use crate::engine_output::EngineOutput;
use crate::log_id::LogId;
use crate::sm;
use crate::sm::CommandSeq;
use crate::type_config::RaftTypeConfig;

verus! {

/// The log id up to which the logs are applied when `queue` has been executed, if they were
/// applied up to `start` before. `None` if some commit in the queue does not start where the logs
/// are applied up to by then.
pub open spec fn applied_upto<C: RaftTypeConfig>(
    queue: Seq<Command<C>>,
    start: Option<LogId<C::NodeId>>,
) -> Option<Option<LogId<C::NodeId>>>
    decreases queue.len(),
{
    if queue.len() == 0 {
        Some(start)
    } else {
        match applied_upto(queue.drop_last(), start) {
            Some(at) => match queue.last() {
                Command::Commit { already_committed, upto, .. } => if already_committed == at {
                    Some(Some(upto))
                } else {
                    None
                },
                _ => Some(at),
            },
            None => None,
        }
    }
}

/// The commands of a queue that are not commits, in their order.
pub open spec fn without_commits<C: RaftTypeConfig>(queue: Seq<Command<C>>) -> Seq<Command<C>> {
    queue.filter(|cmd: Command<C>| !(cmd is Commit))
}

/// The queue after all of `cmds` have been pushed, one after the other.
pub open spec fn all_enqueued<C: RaftTypeConfig>(
    queue: Seq<Command<C>>,
    cmds: Seq<Command<C>>,
) -> Seq<Command<C>>
    decreases cmds.len(),
{
    if cmds.len() == 0 {
        queue
    } else {
        enqueued(all_enqueued(queue, cmds.drop_last()), cmds.last())
    }
}

/// Each of the commands is a commit whose range starts where the range before it ends.
pub open spec fn is_chain<C: RaftTypeConfig>(commits: Seq<Command<C>>) -> bool {
    &&& forall|i: int| 0 <= i < commits.len() ==> (#[trigger] commits[i]) is Commit
    &&& forall|i: int, j: int|
        #![trigger commits[i], commits[j]]
        0 <= i < commits.len() && j == i + 1 && j < commits.len() ==> commits[j]->already_committed
            == Some(commits[i]->Commit_upto)
}

/// What a leader pushes for its commits: each notification, and after it the commit.
pub open spec fn interleaved<C: RaftTypeConfig>(
    notices: Seq<Command<C>>,
    commits: Seq<Command<C>>,
) -> Seq<Command<C>> {
    Seq::new(
        2 * commits.len(),
        |i: int|
            if i % 2 == 0 {
                notices[i / 2]
            } else {
                commits[i / 2]
            },
    )
}

/// What stands in front of a pushed command: the whole queue, or if the command is merged, the
/// queue without the commit that it is merged with. That was the last command, or the last but one
/// in front of a notification, which stays.
proof fn lemma_shape_after_push<C: RaftTypeConfig>(queue: Seq<Command<C>>, cmd: Command<C>)
    ensures
        queue.push(cmd).drop_last() == queue,
        match merge_position(queue, cmd) {
            Some(i) => {
                let rest = enqueued(queue, cmd).drop_last();
                if i == queue.len() - 1 {
                    rest == queue.drop_last()
                } else {
                    &&& rest.len() > 0
                    &&& rest.drop_last() == queue.drop_last().drop_last()
                    &&& rest.last() == queue.last()
                }
            },
            None => true,
        },
{
    assert(queue.push(cmd).drop_last() =~= queue);
    if let Some(i) = merge_position(queue, cmd) {
        let rest = enqueued(queue, cmd).drop_last();
        assert(rest =~= queue.remove(i));
        if i == queue.len() - 1 {
            assert(rest =~= queue.drop_last());
        } else {
            assert(rest.drop_last() =~= queue.drop_last().drop_last());
        }
    }
}

/// A chain without its last commit is a chain.
proof fn lemma_shorter_chain<C: RaftTypeConfig>(commits: Seq<Command<C>>)
    requires
        commits.len() > 0,
        is_chain(commits),
    ensures
        is_chain(commits.drop_last()),
{
    let shorter = commits.drop_last();
    assert forall|i: int, j: int|
        #![trigger shorter[i], shorter[j]]
        0 <= i < shorter.len() && j == i + 1 && j
            < shorter.len() implies shorter[j]->already_committed == Some(
        shorter[i]->Commit_upto,
    ) by {
        assert(shorter[i] == commits[i] && shorter[j] == commits[j]);
    }
}

/// Merging changes nothing about which logs are applied: executing the queue applies the same
/// contiguous ranges, from the same start to the same end, as it would without any merge.
pub proof fn law_push_keeps_applied_range<C: RaftTypeConfig>(
    queue: Seq<Command<C>>,
    cmd: Command<C>,
    start: Option<LogId<C::NodeId>>,
)
    ensures
        applied_upto(enqueued(queue, cmd), start) == applied_upto(queue.push(cmd), start),
{
    reveal_with_fuel(applied_upto, 4);
    lemma_shape_after_push(queue, cmd);
}

/// Merging keeps every command that is not a commit, and keeps their order.
pub proof fn law_push_keeps_other_commands<C: RaftTypeConfig>(
    queue: Seq<Command<C>>,
    cmd: Command<C>,
)
    ensures
        without_commits(enqueued(queue, cmd)) == without_commits(queue.push(cmd)),
{
    reveal_with_fuel(Seq::filter, 4);
    lemma_shape_after_push(queue, cmd);
}

/// A pushed command stands at the end of the queue, at most merged with an earlier commit: then it
/// keeps its number and its end, and the queue does not grow.
pub proof fn law_pushed_command_is_last<C: RaftTypeConfig>(queue: Seq<Command<C>>, cmd: Command<C>)
    ensures
        ({
            let after = enqueued(queue, cmd);
            if merge_position(queue, cmd) is Some {
                &&& after.len() == queue.len()
                &&& cmd is Commit
                &&& after.last() is Commit
                &&& after.last()->Commit_seq == cmd->Commit_seq
                &&& after.last()->Commit_upto == cmd->Commit_upto
            } else {
                &&& after.len() == queue.len() + 1
                &&& after.last() == cmd
                &&& after.drop_last() == queue
            }
        }),
{
    if merge_position(queue, cmd) is None {
        assert(enqueued(queue, cmd).drop_last() =~= queue);
    }
}

/// A commit that continues the last command of the queue is merged with it.
pub proof fn law_follower_commits_merge<C: RaftTypeConfig>(
    before: Seq<Command<C>>,
    previous: Command<C>,
    next: Command<C>,
)
    requires
        continues(previous, next),
    ensures
        enqueued(before.push(previous), next) == before.push(joined(previous, next)),
{
    assert(before.push(previous).remove(before.len() as int) =~= before);
}

/// A commit that continues the last commit of the queue is merged with it across the notification
/// that a leader queues in between, and the notification stays in front of the merged commit.
pub proof fn law_leader_commits_merge<C: RaftTypeConfig>(
    before: Seq<Command<C>>,
    previous: Command<C>,
    notice: Command<C>,
    next: Command<C>,
)
    requires
        continues(previous, next),
        notice is ReplicateCommitted,
    ensures
        enqueued(before.push(previous).push(notice), next) == before.push(notice).push(
            joined(previous, next),
        ),
{
    assert(before.push(previous).push(notice).remove(before.len() as int) =~= before.push(notice));
}

/// Nothing is merged unless a queued commit ends where the pushed commit starts.
pub proof fn law_other_ranges_do_not_merge<C: RaftTypeConfig>(
    queue: Seq<Command<C>>,
    cmd: Command<C>,
)
    requires
        forall|i: int| 0 <= i < queue.len() ==> !continues(#[trigger] queue[i], cmd),
    ensures
        enqueued(queue, cmd) == queue.push(cmd),
{
}

/// Nothing is merged across a command that is neither a commit nor a `ReplicateCommitted`, with or
/// without a notification behind it.
pub proof fn law_other_commands_are_boundaries<C: RaftTypeConfig>(
    before: Seq<Command<C>>,
    boundary: Command<C>,
    notice: Command<C>,
    cmd: Command<C>,
)
    requires
        !(boundary is Commit),
        !(boundary is ReplicateCommitted),
        notice is ReplicateCommitted,
    ensures
        enqueued(before.push(boundary), cmd) == before.push(boundary).push(cmd),
        enqueued(before.push(boundary).push(notice), cmd) == before.push(boundary).push(
            notice,
        ).push(cmd),
{
}

/// Nothing is merged across two notifications.
pub proof fn law_two_notifications_are_a_boundary<C: RaftTypeConfig>(
    before: Seq<Command<C>>,
    first: Command<C>,
    second: Command<C>,
    cmd: Command<C>,
)
    requires
        first is ReplicateCommitted,
        second is ReplicateCommitted,
    ensures
        enqueued(before.push(first).push(second), cmd) == before.push(first).push(second).push(cmd),
{
}

/// However many contiguous commits a follower pushes one after the other, one commit is queued for
/// them: it starts where the first one starts, and has the end and the number of the last one.
pub proof fn law_chain_becomes_one_commit<C: RaftTypeConfig>(
    queue: Seq<Command<C>>,
    commits: Seq<Command<C>>,
)
    requires
        commits.len() > 0,
        is_chain(commits),
        merge_position(queue, commits[0]) is None,
    ensures
        all_enqueued(queue, commits) == queue.push(
            Command::Commit {
                seq: commits.last()->Commit_seq,
                already_committed: commits[0]->already_committed,
                upto: commits.last()->Commit_upto,
            },
        ),
    decreases commits.len(),
{
    reveal_with_fuel(all_enqueued, 2);
    if commits.len() == 1 {
        assert(commits.drop_last() =~= seq![]);
        assert(commits.last() == joined(commits[0], commits[0]));
    } else {
        let shorter = commits.drop_last();
        lemma_shorter_chain(commits);
        law_chain_becomes_one_commit(queue, shorter);
        assert(continues(commits[commits.len() - 2], commits[commits.len() - 1]));
        law_follower_commits_merge(queue, joined(commits[0], shorter.last()), commits.last());
    }
}

/// However many contiguous commits a leader pushes, each after its notification, one commit is
/// queued for them, behind all of the notifications, which keep their order.
pub proof fn law_leader_chain_becomes_one_commit<C: RaftTypeConfig>(
    queue: Seq<Command<C>>,
    notices: Seq<Command<C>>,
    commits: Seq<Command<C>>,
)
    requires
        commits.len() > 0,
        notices.len() == commits.len(),
        is_chain(commits),
        forall|i: int| 0 <= i < notices.len() ==> (#[trigger] notices[i]) is ReplicateCommitted,
        merge_position(queue.push(notices[0]), commits[0]) is None,
    ensures
        all_enqueued(queue, interleaved(notices, commits)) == (queue + notices).push(
            Command::Commit {
                seq: commits.last()->Commit_seq,
                already_committed: commits[0]->already_committed,
                upto: commits.last()->Commit_upto,
            },
        ),
    decreases commits.len(),
{
    reveal_with_fuel(all_enqueued, 3);
    let pushed = interleaved(notices, commits);
    let n = commits.len() as int;
    assert(pushed.last() == commits.last());
    assert(pushed.drop_last().last() == notices.last());
    let earlier = pushed.drop_last().drop_last();
    if n == 1 {
        assert(earlier =~= seq![]);
        assert(queue + notices =~= queue.push(notices[0]));
        assert(commits.last() == joined(commits[0], commits[0]));
    } else {
        let some_notices = notices.drop_last();
        let some_commits = commits.drop_last();
        lemma_shorter_chain(commits);
        assert(earlier =~= interleaved(some_notices, some_commits));
        law_leader_chain_becomes_one_commit(queue, some_notices, some_commits);
        assert(continues(commits[n - 2], commits[n - 1]));
        let one = joined(commits[0], some_commits.last());
        law_leader_commits_merge(queue + some_notices, one, notices.last(), commits.last());
        assert((queue + some_notices).push(notices.last()) =~= queue + notices);
    }
}

/// Putting back a command and taking the next one off the queue undo each other.
pub proof fn law_postpone_undoes_pop<C: RaftTypeConfig>(queue: Seq<Command<C>>, cmd: Command<C>)
    ensures
        postponed(queue, cmd).first() == cmd,
        postponed(queue, cmd).drop_first() == queue,
        queue.len() > 0 ==> postponed(queue.drop_first(), queue.first()) == queue,
{
    assert(postponed(queue, cmd).drop_first() =~= queue);
    if queue.len() > 0 {
        assert(postponed(queue.drop_first(), queue.first()) =~= queue);
    }
}

/// A command that has just been taken off a queue in sequence can be put back to its head.
pub proof fn law_popped_command_goes_before<C: RaftTypeConfig>(
    queue: Seq<Command<C>>,
    seq: CommandSeq,
)
    requires
        in_sequence(queue, seq),
        queue.len() > 0,
    ensures
        goes_before(queue.first(), queue.drop_first(), seq),
{
    let rest = queue.drop_first();
    assert forall|i: int|
        0 <= i < rest.len() && (#[trigger] rest[i]) is StateMachine
            && queue[0] is StateMachine implies queue[0]->command.seq < rest[i]->command.seq by {
        assert(rest[i] == queue[i + 1]);
    }
}

/// The first command of the queue stays first, whatever is pushed, unless it is a commit and the
/// pushed command is merged with it.
pub proof fn law_push_keeps_head<C: RaftTypeConfig>(queue: Seq<Command<C>>, cmd: Command<C>)
    requires
        queue.len() > 0,
        merge_position(queue, cmd) != Some(0int),
    ensures
        enqueued(queue, cmd).first() == queue.first(),
{
}

/// However many commands are pushed, the logs are applied as if none of them had been merged.
pub proof fn law_pushes_keep_applied_range<C: RaftTypeConfig>(
    queue: Seq<Command<C>>,
    cmds: Seq<Command<C>>,
    start: Option<LogId<C::NodeId>>,
)
    ensures
        applied_upto(all_enqueued(queue, cmds), start) == applied_upto(queue + cmds, start),
    decreases cmds.len(),
{
    if cmds.len() == 0 {
        assert(queue + cmds =~= queue);
    } else {
        let earlier = all_enqueued(queue, cmds.drop_last());
        law_pushes_keep_applied_range(queue, cmds.drop_last(), start);
        law_push_keeps_applied_range(earlier, cmds.last(), start);
        assert(earlier.push(cmds.last()).drop_last() =~= earlier);
        assert((queue + cmds).drop_last() =~= queue + cmds.drop_last());
    }
}

/// However many commands are pushed, those that are not commits stay in the order in which they
/// were pushed, and none is lost.
pub proof fn law_pushes_keep_other_commands<C: RaftTypeConfig>(
    queue: Seq<Command<C>>,
    cmds: Seq<Command<C>>,
)
    ensures
        without_commits(all_enqueued(queue, cmds)) == without_commits(queue + cmds),
    decreases cmds.len(),
{
    if cmds.len() == 0 {
        assert(queue + cmds =~= queue);
    } else {
        reveal_with_fuel(Seq::filter, 2);
        let earlier = all_enqueued(queue, cmds.drop_last());
        law_pushes_keep_other_commands(queue, cmds.drop_last());
        law_push_keeps_other_commands(earlier, cmds.last());
        assert(earlier.push(cmds.last()).drop_last() =~= earlier);
        assert((queue + cmds).drop_last() =~= queue + cmds.drop_last());
    }
}

/// Commands that are not commits are queued exactly as they are pushed.
pub proof fn law_without_commits_first_in_first_out<C: RaftTypeConfig>(
    queue: Seq<Command<C>>,
    cmds: Seq<Command<C>>,
)
    requires
        forall|i: int| 0 <= i < cmds.len() ==> !((#[trigger] cmds[i]) is Commit),
    ensures
        all_enqueued(queue, cmds) == queue + cmds,
    decreases cmds.len(),
{
    if cmds.len() == 0 {
        assert(queue + cmds =~= queue);
    } else {
        law_without_commits_first_in_first_out(queue, cmds.drop_last());
        assert((queue + cmds.drop_last()).push(cmds.last()) =~= queue + cmds);
    }
}

/// Pushing a command that is neither a commit nor for the state machine appends exactly that
/// command, whatever it holds and whatever is queued.
pub proof fn law_push_appends_other_commands<C: RaftTypeConfig>(
    output: &mut EngineOutput<C>,
    cmd: Command<C>,
)
    requires
        call_ensures(EngineOutput::<C>::push_command, (output, cmd), ()),
        !(cmd is Commit),
        !(cmd is StateMachine),
    ensures
        final(output).commands@ == old(output).commands@.push(cmd),
        final(output).seq == old(output).seq,
{
}

/// Pushing a state machine command appends it with its payload, under the number that follows the
/// last one. Whatever number it had before does not matter.
pub proof fn law_push_numbers_state_machine_commands<C: RaftTypeConfig>(
    output: &mut EngineOutput<C>,
    seq: CommandSeq,
    payload: C::SmPayload,
)
    requires
        call_ensures(
            EngineOutput::<C>::push_command,
            (output, Command::StateMachine { command: sm::Command { seq, payload } }),
            (),
        ),
    ensures
        final(output).seq == old(output).seq + 1,
        final(output).commands@ == old(output).commands@.push(
            Command::StateMachine { command: sm::Command { seq: final(output).seq, payload } },
        ),
{
}

/// Pushing a commit behind a commit that ends where it starts leaves one commit for both, from the
/// start of the first to the end of the second. How many logs either of them spans does not matter.
pub proof fn law_push_joins_contiguous_ranges<C: RaftTypeConfig>(
    output: &mut EngineOutput<C>,
    before: Seq<Command<C>>,
    first_seq: CommandSeq,
    start: Option<LogId<C::NodeId>>,
    middle: LogId<C::NodeId>,
    second_seq: CommandSeq,
    end: LogId<C::NodeId>,
)
    requires
        old(output).commands@ == before.push(
            Command::Commit { seq: first_seq, already_committed: start, upto: middle },
        ),
        call_ensures(
            EngineOutput::<C>::push_command,
            (
                output,
                Command::Commit { seq: second_seq, already_committed: Some(middle), upto: end },
            ),
            (),
        ),
    ensures
        final(output).commands@ == before.push(
            Command::Commit { seq: second_seq, already_committed: start, upto: end },
        ),
        final(output).seq == old(output).seq,
{
    let queue = output.commands@;
    assert(queue.take(queue.len() - 1) =~= before);
}

/// The same across the notification that a leader queues before each of its commits. It stays, in
/// front of the commit for both ranges.
pub proof fn law_push_joins_ranges_across_notification<C: RaftTypeConfig>(
    output: &mut EngineOutput<C>,
    before: Seq<Command<C>>,
    first_seq: CommandSeq,
    start: Option<LogId<C::NodeId>>,
    middle: LogId<C::NodeId>,
    committed: Option<LogId<C::NodeId>>,
    second_seq: CommandSeq,
    end: LogId<C::NodeId>,
)
    requires
        old(output).commands@ == before.push(
            Command::Commit { seq: first_seq, already_committed: start, upto: middle },
        ).push(Command::ReplicateCommitted { committed }),
        call_ensures(
            EngineOutput::<C>::push_command,
            (
                output,
                Command::Commit { seq: second_seq, already_committed: Some(middle), upto: end },
            ),
            (),
        ),
    ensures
        final(output).commands@ == before.push(Command::ReplicateCommitted { committed }).push(
            Command::Commit { seq: second_seq, already_committed: start, upto: end },
        ),
        final(output).seq == old(output).seq,
{
    let queue = output.commands@;
    assert(queue.take(queue.len() - 2) =~= before);
}

/// Pushing a commit onto any other queue appends exactly that commit: neither the last command, nor
/// the one in front of a notification at the end, is a commit that ends where it starts.
pub proof fn law_push_appends_separate_ranges<C: RaftTypeConfig>(
    output: &mut EngineOutput<C>,
    seq: CommandSeq,
    start: Option<LogId<C::NodeId>>,
    end: LogId<C::NodeId>,
)
    requires
        call_ensures(
            EngineOutput::<C>::push_command,
            (output, Command::Commit { seq, already_committed: start, upto: end }),
            (),
        ),
        forall|before: Seq<Command<C>>, n: CommandSeq, a: Option<LogId<C::NodeId>>, m: LogId<C::NodeId>|
            old(output).commands@ == #[trigger] before.push(
                Command::Commit { seq: n, already_committed: a, upto: m },
            ) ==> start != Some(m),
        forall|
            before: Seq<Command<C>>,
            n: CommandSeq,
            a: Option<LogId<C::NodeId>>,
            m: LogId<C::NodeId>,
            committed: Option<LogId<C::NodeId>>,
        |
            old(output).commands@ == #[trigger] before.push(
                Command::Commit { seq: n, already_committed: a, upto: m },
            ).push(Command::ReplicateCommitted { committed }) ==> start != Some(m),
    ensures
        final(output).commands@ == old(output).commands@.push(
            Command::Commit { seq, already_committed: start, upto: end },
        ),
        final(output).seq == old(output).seq,
{
    let queue = output.commands@;
    let n = queue.len() as int;
    if n >= 1 && queue[n - 1] is Commit {
        let last = queue[n - 1];
        assert(queue =~= queue.take(n - 1).push(
            Command::Commit {
                seq: last->Commit_seq,
                already_committed: last->already_committed,
                upto: last->Commit_upto,
            },
        ));
    } else if n >= 2 && queue[n - 1] is ReplicateCommitted && queue[n - 2] is Commit {
        let last = queue[n - 2];
        let committed = queue[n - 1]->committed;
        assert(queue =~= queue.take(n - 2).push(
            Command::Commit {
                seq: last->Commit_seq,
                already_committed: last->already_committed,
                upto: last->Commit_upto,
            },
        ).push(Command::ReplicateCommitted { committed }));
    }
}

/// Commands leave the queue at its head, one by one and unchanged, and only an empty queue has
/// none to give.
pub proof fn law_pop_takes_the_first<C: RaftTypeConfig>(
    output: &mut EngineOutput<C>,
    r: Option<Command<C>>,
)
    requires
        call_ensures(EngineOutput::<C>::pop_command, (output,), r),
    ensures
        final(output).seq == old(output).seq,
        r is None <==> old(output).commands@.len() == 0,
        r matches Some(cmd) ==> seq![cmd] + final(output).commands@ == old(output).commands@,
        r is None ==> final(output).commands@ == old(output).commands@,
{
    if let Some(cmd) = r {
        assert(seq![cmd] + final(output).commands@ =~= output.commands@);
    }
}

/// A command that is put back is the next to be taken off, and then all is as it was.
pub proof fn law_postponed_command_is_next<C: RaftTypeConfig>(
    output: &mut EngineOutput<C>,
    cmd: Command<C>,
    later: &mut EngineOutput<C>,
    r: Option<Command<C>>,
)
    requires
        call_ensures(EngineOutput::<C>::postpone_command, (output, cmd), ()),
        *final(output) == *old(later),
        call_ensures(EngineOutput::<C>::pop_command, (later,), r),
    ensures
        r == Some(cmd),
        final(later).commands@ == old(output).commands@,
        final(later).seq == old(output).seq,
{
}

/// A command that is pushed to an empty queue is what is taken off next, unless it is for the state
/// machine and gets a number.
pub proof fn law_pushed_command_comes_out_unchanged<C: RaftTypeConfig>(
    output: &mut EngineOutput<C>,
    cmd: Command<C>,
    later: &mut EngineOutput<C>,
    r: Option<Command<C>>,
)
    requires
        old(output).commands@.len() == 0,
        call_ensures(EngineOutput::<C>::push_command, (output, cmd), ()),
        *final(output) == *old(later),
        call_ensures(EngineOutput::<C>::pop_command, (later,), r),
        !(cmd is StateMachine),
    ensures
        r == Some(cmd),
        final(later).commands@.len() == 0,
{
}

/// Taking all commands gives what popping them one by one would give, in that order, and leaves
/// none. Clearing the queue leaves none either. The number of the last state machine command stays.
pub proof fn law_take_and_clear_leave_nothing<C: RaftTypeConfig>(
    taken: &mut EngineOutput<C>,
    r: Vec<Command<C>>,
    cleared: &mut EngineOutput<C>,
)
    requires
        call_ensures(EngineOutput::<C>::take_commands, (taken,), r),
        call_ensures(EngineOutput::<C>::clear_commands, (cleared,), ()),
    ensures
        r@ == old(taken).commands@,
        final(taken).commands@.len() == 0,
        final(taken).seq == old(taken).seq,
        final(cleared).commands@.len() == 0,
        final(cleared).seq == old(cleared).seq,
{
}

/// A new queue is empty, and no number has been used.
pub proof fn law_new_queue_is_empty<C: RaftTypeConfig>(
    size: usize,
    new: EngineOutput<C>,
    default: EngineOutput<C>,
)
    requires
        call_ensures(EngineOutput::<C>::new, (size,), new),
        call_ensures(EngineOutput::<C>::default, (), default),
    ensures
        new.commands@.len() == 0,
        new.seq == 0,
        default.commands@.len() == 0,
        default.seq == 0,
{
}

/// Each number follows the one before it, and the last one can be asked for. Nothing is queued by
/// that.
pub proof fn law_numbers_follow_each_other<C: RaftTypeConfig>(
    output: &mut EngineOutput<C>,
    next: CommandSeq,
    before: CommandSeq,
    after: CommandSeq,
)
    requires
        call_ensures(EngineOutput::<C>::last_sm_seq, (&*old(output),), before),
        call_ensures(EngineOutput::<C>::next_sm_seq, (output,), next),
        call_ensures(EngineOutput::<C>::last_sm_seq, (&*final(output),), after),
    ensures
        next == before + 1,
        after == next,
        final(output).commands@ == old(output).commands@,
{
}

/// The commands that are iterated over are those in the queue, in their order.
pub proof fn law_iteration_shows_the_queue<'a, C: RaftTypeConfig>(
    output: &'a EngineOutput<C>,
    r: Iter<'a, Command<C>>,
)
    requires
        call_ensures(EngineOutput::<C>::iter_commands, (output,), r),
    ensures
        r.remaining().len() == output.commands@.len(),
        forall|i: int| 0 <= i < output.commands@.len() ==> *(#[trigger] r.remaining()[i])
            == output.commands@[i],
{
}

/// The number that a pushed state machine command gets is above all numbers in the queue.
pub proof fn law_new_number_is_the_highest<C: RaftTypeConfig>(
    output: &mut EngineOutput<C>,
    command: sm::Command<C>,
)
    requires
        forall|i: int|
            0 <= i < old(output).commands@.len() && (#[trigger] old(output).commands@[i]) is StateMachine
                ==> old(output).commands@[i]->command.seq <= old(output).seq,
        call_ensures(
            EngineOutput::<C>::push_command,
            (output, Command::StateMachine { command }),
            (),
        ),
    ensures
        forall|i: int|
            0 <= i < old(output).commands@.len() && (#[trigger] old(output).commands@[i]) is StateMachine
                ==> old(output).commands@[i]->command.seq < final(output).commands@.last()->command.seq,
{
}

} // verus!
