//! Errors of the configuration.

use vstd::prelude::*;

verus! {

/// What is wrong with a configuration.
#[derive(Debug, PartialEq, Eq)]
pub enum ConfigError {
    /// The command line arguments `args` could not be parsed, for the reason in `source`.
    ParseError { source: String, args: Vec<String> },
    /// The minimum election timeout is not below the maximum.
    ElectionTimeout { min: u64, max: u64 },
    /// A payload has to have room for an entry.
    MaxPayloadIs0,
    /// The minimum election timeout is not above the heartbeat interval.
    ElectionTimeoutLTHeartBeat { election_timeout_min: u64, heartbeat_interval: u64 },
    /// `invalid` is not a snapshot policy, which has to be written like `syntax`.
    InvalidSnapshotPolicy { syntax: String, invalid: String },
    /// There is no number in `invalid`, for the reason in `reason`.
    InvalidNumber { invalid: String, reason: String },
}

impl ConfigError {
    /// The error says that there is no number in `invalid`, for the reason in `reason`.
    pub open spec fn is_invalid_number(self, invalid: Seq<char>, reason: Seq<char>) -> bool {
        &&& self is InvalidNumber
        &&& self->InvalidNumber_invalid@ == invalid
        &&& self->reason@ == reason
    }

    /// The error says that `invalid` is not a snapshot policy, which has to be written like
    /// `syntax`.
    pub open spec fn is_invalid_snapshot_policy(
        self,
        invalid: Seq<char>,
        syntax: Seq<char>,
    ) -> bool {
        &&& self is InvalidSnapshotPolicy
        &&& self->InvalidSnapshotPolicy_invalid@ == invalid
        &&& self->syntax@ == syntax
    }
}

} // verus!
