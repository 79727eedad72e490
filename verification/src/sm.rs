//! Commands for the state machine worker.

use vstd::prelude::*;

use crate::type_config::RaftTypeConfig;

verus! {

/// The sequence number that identifies a state machine command.
pub type CommandSeq = u64;

/// A command for the state machine worker.
#[derive(Debug, PartialEq)]
pub struct Command<C: RaftTypeConfig> {
    /// The number under which the worker reports the outcome.
    pub seq: CommandSeq,
    /// What the worker is asked to do.
    pub payload: C::SmPayload,
}

impl<C: RaftTypeConfig> Command<C> {
    /// A command that has not been queued yet and has the number 0.
    pub fn new(payload: C::SmPayload) -> (r: Self)
        ensures
            r == (Self { seq: 0, payload }),
    {
        Command { seq: 0, payload }
    }

    /// This command under another number.
    pub open spec fn with_seq(self, seq: CommandSeq) -> Self {
        Command { seq, payload: self.payload }
    }

    /// Give the command its number.
    pub fn set_seq(&mut self, seq: CommandSeq)
        ensures
            *final(self) == old(self).with_seq(seq),
            final(self).seq == seq,
            final(self).payload == old(self).payload,
    {
        self.seq = seq;
    }
}

/// A new command holds what it was made with, under the number 0.
pub proof fn law_new_command_has_no_number<C: RaftTypeConfig>(
    payload: C::SmPayload,
    r: Command<C>,
)
    requires
        call_ensures(Command::<C>::new, (payload,), r),
    ensures
        r.seq == 0,
        r.payload == payload,
{
}

/// A command that is given a number has that number, and holds what it held.
pub proof fn law_number_is_set<C: RaftTypeConfig>(command: &mut Command<C>, seq: CommandSeq)
    requires
        call_ensures(Command::<C>::set_seq, (command, seq), ()),
    ensures
        final(command).seq == seq,
        final(command).payload == old(command).payload,
{
}

} // verus!
