//! Log ids: the position of an entry in the log and the leader that proposed it.

use std::fmt::Debug;

use vstd::laws_eq::obeys_concrete_eq;
use vstd::prelude::*;

verus! {

/// The id of a node in the cluster.
///
/// Ids are compared with `==`, so an implementation has to show that `==` on it tells two ids
/// apart exactly when they differ.
pub trait NodeId: Copy + Debug + PartialEq {
    /// `==` decides whether two ids are the same.
    proof fn eq_is_identity()
        ensures
            obeys_concrete_eq::<Self>(),
    ;
}

impl NodeId for u64 {
    proof fn eq_is_identity() {
        reveal(obeys_concrete_eq);
    }
}

/// The leader that proposed a log entry: its term, and the node that leads in that term.
#[derive(Copy, Debug)]
pub struct CommittedLeaderId<NID: NodeId> {
    pub term: u64,
    pub node_id: NID,
}

impl<NID: NodeId> Clone for CommittedLeaderId<NID> {
    fn clone(&self) -> (r: Self)
        ensures
            r == *self,
    {
        *self
    }
}

/// The id of a log entry: the leader that proposed it and its index in the log.
#[derive(Copy, Debug)]
pub struct LogId<NID: NodeId> {
    pub leader_id: CommittedLeaderId<NID>,
    pub index: u64,
}

impl<NID: NodeId> Clone for LogId<NID> {
    fn clone(&self) -> (r: Self)
        ensures
            r == *self,
    {
        *self
    }
}

impl<NID: NodeId> PartialEq for LogId<NID> {
    fn eq(&self, other: &Self) -> (r: bool) {
        proof {
            NID::eq_is_identity();
            reveal(obeys_concrete_eq);
        }
        self.leader_id.term == other.leader_id.term && self.leader_id.node_id
            == other.leader_id.node_id && self.index == other.index
    }
}

impl<NID: NodeId> vstd::std_specs::cmp::PartialEqSpecImpl for LogId<NID> {
    open spec fn obeys_eq_spec() -> bool {
        true
    }

    open spec fn eq_spec(&self, other: &Self) -> bool {
        *self == *other
    }
}

/// The index that follows an optional log id: 0 if there is none.
pub open spec fn index_after<NID: NodeId>(log_id: Option<&LogId<NID>>) -> nat {
    match log_id {
        Some(log_id) => (log_id.index + 1) as nat,
        None => 0,
    }
}

/// The index that follows an optional log id: 0 if there is none.
pub fn next_index<NID: NodeId>(log_id: Option<&LogId<NID>>) -> (r: u64)
    requires
        index_after(log_id) <= u64::MAX,
    ensures
        r == index_after(log_id),
        log_id matches Some(log_id) ==> r == log_id.index + 1,
        log_id is None ==> r == 0,
{
    match log_id {
        Some(log_id) => log_id.index + 1,
        None => 0,
    }
}

/// Two log ids are equal exactly if the leader, term and node, and the index are.
pub proof fn law_log_ids_are_equal_by_fields<NID: NodeId>(a: LogId<NID>, b: LogId<NID>, r: bool)
    requires
        call_ensures(LogId::<NID>::eq, (&a, &b), r),
    ensures
        r <==> a.leader_id.term == b.leader_id.term && a.leader_id.node_id == b.leader_id.node_id
            && a.index == b.index,
{
}

/// The index that follows a log id is the next one, whoever the leader is. Without a log id it is
/// 0.
pub proof fn law_next_index_follows<NID: NodeId>(
    leader_id: CommittedLeaderId<NID>,
    index: u64,
    r: u64,
    none: u64,
)
    requires
        call_ensures(next_index::<NID>, (Some(&LogId { leader_id, index }),), r),
        call_ensures(next_index::<NID>, (None,), none),
    ensures
        r == index + 1,
        none == 0,
{
}

} // verus!
