//! The record kept for each open call.

use vstd::prelude::*;
use crate::identity::{AccountId, CallId};
use crate::vote::Vote;
use crate::voters::VoterMap;

verus! {

/// What is known of one open call: the thread that shows it, who proposed it,
/// and each voter's latest vote.
#[derive(Debug, PartialEq, Eq)]
pub struct CallState {
    pub call_id: CallId,
    pub thread_handle: u64,
    pub proposer: AccountId,
    pub voters: VoterMap,
}

impl Clone for CallState {
    fn clone(&self) -> (copy: CallState)
        ensures
            copy.call_id == self.call_id,
            copy.thread_handle == self.thread_handle,
            copy.proposer == self.proposer,
            copy.voters.ballots() == self.voters.ballots(),
    {
        CallState {
            call_id: self.call_id,
            thread_handle: self.thread_handle,
            proposer: self.proposer,
            voters: self.voters.clone(),
        }
    }
}

impl CallState {
    /// The state of a call that has just been proposed: the proposer is the
    /// first voter, and theirs is the only vote.
    pub fn open(call_id: CallId, thread_handle: u64, proposer: AccountId, vote: Vote) -> (state:
        CallState)
        ensures
            state.call_id == call_id,
            state.thread_handle == thread_handle,
            state.proposer == proposer,
            state.voters.ballots() == seq![(proposer@, vote)],
            state.voters@ == Map::<Seq<u8>, Vote>::empty().insert(proposer@, vote),
    {
        let mut voters = VoterMap::new();
        let pushed = voters.push_rising(proposer, vote);
        assert(voters.ballots() =~= seq![(proposer@, vote)]);
        proof {
            crate::voters::lemma_with_ballot(Seq::empty(), proposer@, vote);
            assert(crate::voters::with_ballot(Seq::empty(), proposer@, vote) =~= seq![
                (proposer@, vote),
            ]);
        }
        CallState { call_id, thread_handle, proposer, voters }
    }
}

} // verus!
