//! The types and the runtime that an application chooses for its Raft node.

use std::fmt::Debug;

use rand::Rng;
use vstd::prelude::*;

use crate::log_id::NodeId;

verus! {

/// The application defined types of a Raft node.
///
/// Apart from the node id, these are payloads: the engine output carries them from the engine to
/// the runtime and never looks inside.
pub trait RaftTypeConfig: Sized + Debug + PartialEq {
    /// The id of a node in the cluster.
    type NodeId: NodeId;

    /// A log entry.
    type Entry: Debug + PartialEq;

    /// A vote, granted or asked for.
    type Vote: Debug + PartialEq;

    /// A request for a vote.
    type VoteRequest: Debug + PartialEq;

    /// The logs or the snapshot that is being sent to a replication target.
    type Inflight: Debug + PartialEq;

    /// The progress of one replication target.
    type ProgressEntry: Debug + PartialEq;

    /// The work that a state machine command asks for.
    type SmPayload: Debug + PartialEq;

    /// The condition under which a response is sent.
    type Condition: Debug + PartialEq;

    /// A response to a caller.
    type Respond: Debug + PartialEq;
}

/// What a configuration asks of the async runtime: random numbers.
pub trait AsyncRuntime {
    /// A random number that is at least `low` and below `high`.
    fn gen_range(low: u64, high: u64) -> (r: u64)
        requires
            low < high,
        ensures
            low <= r < high,
    ;
}

/// A runtime whose random numbers come from the generator of the current thread.
pub struct ThreadRngRuntime;

impl AsyncRuntime for ThreadRngRuntime {
    fn gen_range(low: u64, high: u64) -> (r: u64) {
        thread_rng_gen_range(low, high)
    }
}

/// `rand::Rng::gen_range` on the range `low..high`, with the generator of `rand::thread_rng`.
///
/// It panics if the range is empty, which `requires` rules out, and if the operating system does
/// not give the generator its first seed. Otherwise the result is in the range. Which number of
/// the range it is depends on chance, so nothing more is said of it.
#[verifier::external_body]
fn thread_rng_gen_range(low: u64, high: u64) -> (r: u64)
    requires
        low < high,
    ensures
        low <= r < high,
{
    rand::thread_rng().gen_range(low..high)
}

} // verus!
