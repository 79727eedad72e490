use openraft::sm;
use openraft::Command;
use openraft::CommittedLeaderId;
use openraft::EngineOutput;
use openraft::LogId;
use openraft::RaftTypeConfig;

#[derive(Debug, PartialEq)]
struct UTConfig;

impl RaftTypeConfig for UTConfig {
    type NodeId = u64;
    type Entry = u64;
    type Vote = u64;
    type VoteRequest = u64;
    type Inflight = u64;
    type ProgressEntry = u64;
    type SmPayload = &'static str;
    type Condition = u64;
    type Respond = &'static str;
}

fn log_id(term: u64, node_id: u64, index: u64) -> LogId<u64> {
    LogId {
        leader_id: CommittedLeaderId { term, node_id },
        index,
    }
}

fn commit(seq: u64, already_committed: Option<LogId<u64>>, upto: LogId<u64>) -> Command<UTConfig> {
    Command::Commit {
        seq,
        already_committed,
        upto,
    }
}

fn replicate_committed(index: u64) -> Command<UTConfig> {
    Command::ReplicateCommitted {
        committed: Some(log_id(1, 1, index)),
    }
}

fn state_machine(payload: &'static str) -> Command<UTConfig> {
    Command::StateMachine {
        command: sm::Command::new(payload),
    }
}

fn numbered(seq: u64, payload: &'static str) -> Command<UTConfig> {
    Command::StateMachine {
        command: sm::Command { seq, payload },
    }
}

#[test]
fn coalesces_only_contiguous_commit_ranges() {
    let mut output = EngineOutput::<UTConfig>::new(8);
    output.push_command(Command::ReplicateCommitted {
        committed: Some(log_id(1, 1, 1)),
    });
    output.push_command(Command::Commit {
        seq: 1,
        already_committed: None,
        upto: log_id(1, 1, 1),
    });
    output.push_command(Command::ReplicateCommitted {
        committed: Some(log_id(1, 1, 2)),
    });
    output.push_command(Command::Commit {
        seq: 2,
        already_committed: Some(log_id(1, 1, 1)),
        upto: log_id(1, 1, 2),
    });

    assert_eq!(output.take_commands(), vec![
        Command::ReplicateCommitted {
            committed: Some(log_id(1, 1, 1)),
        },
        Command::ReplicateCommitted {
            committed: Some(log_id(1, 1, 2)),
        },
        Command::Commit {
            seq: 2,
            already_committed: None,
            upto: log_id(1, 1, 2),
        },
    ]);
}

#[test]
fn does_not_merge_when_a_non_contiguous_range_is_queued() {
    let mut output = EngineOutput::<UTConfig>::new(8);
    output.push_command(Command::ReplicateCommitted {
        committed: Some(log_id(1, 1, 1)),
    });
    output.push_command(Command::Commit {
        seq: 1,
        already_committed: None,
        upto: log_id(1, 1, 1),
    });
    output.push_command(Command::ReplicateCommitted {
        committed: Some(log_id(1, 1, 3)),
    });
    output.push_command(Command::Commit {
        seq: 2,
        already_committed: Some(log_id(1, 1, 2)),
        upto: log_id(1, 1, 3),
    });

    assert_eq!(output.take_commands().len(), 4);
}

#[test]
fn coalesces_follower_commit_ranges_without_network_notifications() {
    let mut output = EngineOutput::<UTConfig>::new(8);
    output.push_command(Command::Commit {
        seq: 1,
        already_committed: None,
        upto: log_id(1, 1, 1),
    });
    output.push_command(Command::Commit {
        seq: 2,
        already_committed: Some(log_id(1, 1, 1)),
        upto: log_id(1, 1, 2),
    });

    assert_eq!(output.take_commands(), vec![Command::Commit {
        seq: 2,
        already_committed: None,
        upto: log_id(1, 1, 2),
    }]);
}

#[test]
fn a_new_queue_is_empty() {
    let mut output = EngineOutput::<UTConfig>::new(0);
    assert_eq!(output.last_sm_seq(), 0);
    assert_eq!(output.iter_commands().count(), 0);
    assert_eq!(output.pop_command(), None);

    let mut output = EngineOutput::<UTConfig>::default();
    assert_eq!(output.last_sm_seq(), 0);
    assert_eq!(output.take_commands(), vec![]);
}

#[test]
fn state_machine_commands_are_numbered_in_order() {
    let mut output = EngineOutput::<UTConfig>::new(8);
    output.push_command(state_machine("build"));
    output.push_command(Command::SaveVote { vote: 7 });
    output.push_command(state_machine("install"));
    assert_eq!(output.last_sm_seq(), 2);
    assert_eq!(output.next_sm_seq(), 3);
    output.push_command(state_machine("get"));

    assert_eq!(output.last_sm_seq(), 4);
    assert_eq!(output.take_commands(), vec![
        numbered(1, "build"),
        Command::SaveVote { vote: 7 },
        numbered(2, "install"),
        numbered(4, "get"),
    ]);
    assert_eq!(output.last_sm_seq(), 4);
}

#[test]
fn commands_without_commits_leave_as_they_came() {
    let mut output = EngineOutput::<UTConfig>::new(2);
    output.push_command(Command::BecomeLeader);
    output.push_command(Command::AppendInputEntries { vote: 1, entries: vec![3, 4] });
    output.push_command(replicate_committed(1));
    output.push_command(Command::Replicate { target: 2, req: 9 });
    output.push_command(Command::RebuildReplicationStreams { targets: vec![(2, 5)] });
    output.push_command(Command::SendVote { vote_req: 6 });
    output.push_command(Command::PurgeLog { upto: log_id(1, 1, 4) });
    output.push_command(Command::DeleteConflictLog { since: log_id(1, 1, 5) });
    output.push_command(Command::Respond { when: None, resp: "done" });
    output.push_command(Command::QuitLeader);

    assert_eq!(output.iter_commands().count(), 10);
    assert_eq!(output.pop_command(), Some(Command::BecomeLeader));
    assert_eq!(output.pop_command(), Some(Command::AppendInputEntries { vote: 1, entries: vec![3, 4] }));
    assert_eq!(output.pop_command(), Some(replicate_committed(1)));
    assert_eq!(output.pop_command(), Some(Command::Replicate { target: 2, req: 9 }));
    assert_eq!(output.pop_command(), Some(Command::RebuildReplicationStreams { targets: vec![(2, 5)] }));
    assert_eq!(output.pop_command(), Some(Command::SendVote { vote_req: 6 }));
    assert_eq!(output.pop_command(), Some(Command::PurgeLog { upto: log_id(1, 1, 4) }));
    assert_eq!(output.pop_command(), Some(Command::DeleteConflictLog { since: log_id(1, 1, 5) }));
    assert_eq!(output.pop_command(), Some(Command::Respond { when: None, resp: "done" }));
    assert_eq!(output.pop_command(), Some(Command::QuitLeader));
    assert_eq!(output.pop_command(), None);
}

#[test]
fn a_postponed_command_is_next() {
    let mut output = EngineOutput::<UTConfig>::new(8);
    output.push_command(state_machine("build"));
    output.push_command(Command::QuitLeader);
    let first = output.pop_command().unwrap();
    output.postpone_command(first);

    assert_eq!(output.last_sm_seq(), 1);
    let queued: Vec<&Command<UTConfig>> = output.iter_commands().collect();
    assert_eq!(queued, vec![&numbered(1, "build"), &Command::QuitLeader]);
    assert_eq!(output.pop_command(), Some(numbered(1, "build")));
}

#[test]
fn cleared_commands_are_gone() {
    let mut output = EngineOutput::<UTConfig>::new(8);
    output.push_command(state_machine("build"));
    output.push_command(Command::BecomeLeader);
    output.clear_commands();
    assert_eq!(output.pop_command(), None);
    assert_eq!(output.last_sm_seq(), 1);
}

#[test]
fn a_chain_of_follower_commits_becomes_one() {
    let mut output = EngineOutput::<UTConfig>::new(8);
    output.push_command(Command::BecomeLeader);
    output.push_command(commit(10, Some(log_id(1, 1, 4)), log_id(1, 1, 5)));
    for i in 5..50 {
        output.push_command(commit(6 + i, Some(log_id(1, 1, i)), log_id(1, 1, i + 1)));
    }
    assert_eq!(output.take_commands(), vec![
        Command::BecomeLeader,
        commit(55, Some(log_id(1, 1, 4)), log_id(1, 1, 50)),
    ]);
}

#[test]
fn a_chain_of_leader_commits_becomes_one_behind_the_notifications() {
    let mut output = EngineOutput::<UTConfig>::new(8);
    output.push_command(replicate_committed(1));
    output.push_command(commit(1, None, log_id(1, 1, 1)));
    for i in 1..4 {
        output.push_command(replicate_committed(i + 1));
        output.push_command(commit(i + 1, Some(log_id(1, 1, i)), log_id(1, 1, i + 1)));
    }
    assert_eq!(output.take_commands(), vec![
        replicate_committed(1),
        replicate_committed(2),
        replicate_committed(3),
        replicate_committed(4),
        commit(4, None, log_id(1, 1, 4)),
    ]);
}

#[test]
fn other_commands_are_boundaries() {
    let mut output = EngineOutput::<UTConfig>::new(8);
    output.push_command(commit(1, None, log_id(1, 1, 1)));
    output.push_command(Command::SaveVote { vote: 3 });
    output.push_command(commit(2, Some(log_id(1, 1, 1)), log_id(1, 1, 2)));
    output.push_command(replicate_committed(2));
    output.push_command(replicate_committed(3));
    output.push_command(commit(3, Some(log_id(1, 1, 2)), log_id(1, 1, 3)));
    assert_eq!(output.take_commands(), vec![
        commit(1, None, log_id(1, 1, 1)),
        Command::SaveVote { vote: 3 },
        commit(2, Some(log_id(1, 1, 1)), log_id(1, 1, 2)),
        replicate_committed(2),
        replicate_committed(3),
        commit(3, Some(log_id(1, 1, 2)), log_id(1, 1, 3)),
    ]);
}

#[test]
fn the_whole_log_id_has_to_match() {
    for already in [log_id(2, 1, 1), log_id(1, 2, 1), log_id(1, 1, 2)] {
        let mut output = EngineOutput::<UTConfig>::new(8);
        output.push_command(commit(1, None, log_id(1, 1, 1)));
        output.push_command(commit(2, Some(already), log_id(3, 3, 3)));
        assert_eq!(output.take_commands().len(), 2);
    }
    let mut output = EngineOutput::<UTConfig>::new(8);
    output.push_command(commit(1, None, log_id(1, 1, 1)));
    output.push_command(commit(2, None, log_id(1, 1, 2)));
    assert_eq!(output.take_commands().len(), 2);
}

#[test]
fn a_notification_alone_is_not_merged_with() {
    let mut output = EngineOutput::<UTConfig>::new(8);
    output.push_command(replicate_committed(1));
    output.push_command(commit(1, Some(log_id(1, 1, 1)), log_id(1, 1, 2)));
    assert_eq!(output.take_commands(), vec![
        replicate_committed(1),
        commit(1, Some(log_id(1, 1, 1)), log_id(1, 1, 2)),
    ]);
}

#[test]
fn merging_keeps_the_applied_range_and_the_other_commands() {
    let mut output = EngineOutput::<UTConfig>::new(8);
    output.push_command(state_machine("build"));
    output.push_command(commit(1, None, log_id(1, 1, 2)));
    output.push_command(replicate_committed(5));
    output.push_command(commit(2, Some(log_id(1, 1, 2)), log_id(1, 1, 5)));
    output.push_command(Command::PurgeLog { upto: log_id(1, 1, 1) });
    output.push_command(commit(3, Some(log_id(1, 1, 5)), log_id(2, 1, 6)));

    let mut applied = None;
    let mut others = 0;
    for cmd in output.take_commands() {
        match cmd {
            Command::Commit { already_committed, upto, .. } => {
                assert_eq!(already_committed, applied);
                applied = Some(upto);
            }
            _ => others += 1,
        }
    }
    assert_eq!(applied, Some(log_id(2, 1, 6)));
    assert_eq!(others, 3);
}
