//! Commands from the engine to the runtime.

use vstd::prelude::*;

use crate::log_id::LogId;
use crate::sm;
use crate::type_config::RaftTypeConfig;

verus! {

/// A command that the engine asks the runtime to execute.
#[derive(Debug, PartialEq)]
pub enum Command<C: RaftTypeConfig> {
    /// This node has become the leader.
    BecomeLeader,
    /// This node is no longer the leader.
    QuitLeader,
    /// Append log entries.
    AppendInputEntries { vote: C::Vote, entries: Vec<C::Entry> },
    /// Tell the other nodes which log id is committed.
    ReplicateCommitted { committed: Option<LogId<C::NodeId>> },
    /// Apply the logs after `already_committed`, up to and including `upto`, to the state machine.
    Commit {
        seq: sm::CommandSeq,
        already_committed: Option<LogId<C::NodeId>>,
        upto: LogId<C::NodeId>,
    },
    /// Send logs or a snapshot to a target.
    Replicate { target: C::NodeId, req: C::Inflight },
    /// Close all replication streams and open new ones.
    RebuildReplicationStreams { targets: Vec<(C::NodeId, C::ProgressEntry)> },
    /// Save a vote.
    SaveVote { vote: C::Vote },
    /// Ask the other nodes for their votes.
    SendVote { vote_req: C::VoteRequest },
    /// Purge the logs up to and including `upto`.
    PurgeLog { upto: LogId<C::NodeId> },
    /// Delete the logs from `since` on, which conflict with the leader's.
    DeleteConflictLog { since: LogId<C::NodeId> },
    /// Forward a command to the state machine worker.
    StateMachine { command: sm::Command<C> },
    /// Answer a caller.
    Respond { when: Option<C::Condition>, resp: C::Respond },
}

} // verus!
