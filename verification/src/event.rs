//! Events of the chain, and the three that concern the bridge.

use vstd::prelude::*;
use crate::config::Config;
use crate::identity::{AccountId, CallId};
use crate::vote::Vote;

verus! {

/// The call that an event is about, as text, where it could be decoded.
#[derive(Debug, PartialEq, Eq)]
pub enum CallPayload {
    Decoded(String),
    Undecodable,
}

/// How the execution of a call ended.
#[derive(Clone, Copy, Debug, PartialEq, Eq, Structural)]
pub enum ExecutionOutcome {
    Succeeded,
    Failed,
}

/// The totals of a call's votes as the chain counts them.
#[derive(Clone, Copy, Debug, PartialEq, Eq, Structural)]
pub struct Tally {
    pub ayes: u128,
    pub nays: u128,
}

/// An event of the governance module, as the chain reports it.
#[derive(Debug, PartialEq, Eq)]
pub enum GovernanceEvent {
    VoteStarted {
        core_id: u32,
        executor_account: AccountId,
        voter: AccountId,
        votes_added: Vote,
        call_hash: CallId,
        call: CallPayload,
    },
    VoteAdded {
        core_id: u32,
        executor_account: AccountId,
        voter: AccountId,
        votes_added: Vote,
        current_votes: Tally,
        call_hash: CallId,
        call: CallPayload,
    },
    Executed {
        core_id: u32,
        executor_account: AccountId,
        voter: AccountId,
        call_hash: CallId,
        call: CallPayload,
        result: ExecutionOutcome,
    },
    /// Any other event of the module.
    Other,
}

/// An event of the chain.
#[derive(Debug, PartialEq, Eq)]
pub enum ChainEvent {
    Governance(GovernanceEvent),
    /// An event of any other module.
    Foreign,
}

/// A step in the life of a call of the followed core.
#[derive(Debug, PartialEq, Eq)]
pub enum DomainEvent {
    /// A call was proposed; the proposal counts as the first vote.
    Started {
        call_id: CallId,
        proposer: AccountId,
        voter: AccountId,
        vote: Vote,
        call_payload: CallPayload,
    },
    /// A vote was cast on a call; the totals are those of the chain.
    VoteAdded {
        call_id: CallId,
        voter: AccountId,
        vote: Vote,
        aggregate_ayes: u128,
        aggregate_nays: u128,
        call_payload: CallPayload,
    },
    /// A call was executed.
    Executed {
        call_id: CallId,
        voter: AccountId,
        call_payload: CallPayload,
        outcome: ExecutionOutcome,
    },
}

impl DomainEvent {
    /// The call that the event is about.
    pub open spec fn call(self) -> CallId {
        match self {
            DomainEvent::Started { call_id, .. } => call_id,
            DomainEvent::VoteAdded { call_id, .. } => call_id,
            DomainEvent::Executed { call_id, .. } => call_id,
        }
    }

    /// The call as text, where it could be decoded.
    pub open spec fn payload(self) -> CallPayload {
        match self {
            DomainEvent::Started { call_payload, .. } => call_payload,
            DomainEvent::VoteAdded { call_payload, .. } => call_payload,
            DomainEvent::Executed { call_payload, .. } => call_payload,
        }
    }

    /// The voter that the event names and, for a proposal or a vote, the
    /// vote that they cast.
    pub open spec fn ballot(self) -> (Seq<u8>, Option<Vote>) {
        match self {
            DomainEvent::Started { voter, vote, .. } => (voter@, Some(vote)),
            DomainEvent::VoteAdded { voter, vote, .. } => (voter@, Some(vote)),
            DomainEvent::Executed { voter, .. } => (voter@, None),
        }
    }

    pub fn call_id(&self) -> (id: CallId)
        ensures
            id == self.call(),
    {
        match self {
            DomainEvent::Started { call_id, .. } => *call_id,
            DomainEvent::VoteAdded { call_id, .. } => *call_id,
            DomainEvent::Executed { call_id, .. } => *call_id,
        }
    }
}

/// What `filter` lets through of `event` when the followed core is `followed`.
pub open spec fn filtered(followed: u32, event: ChainEvent) -> Option<DomainEvent> {
    match event {
        ChainEvent::Governance(
            GovernanceEvent::VoteStarted {
                core_id,
                executor_account,
                voter,
                votes_added,
                call_hash,
                call,
            },
        ) if core_id == followed => Some(
            DomainEvent::Started {
                call_id: call_hash,
                proposer: executor_account,
                voter,
                vote: votes_added,
                call_payload: call,
            },
        ),
        ChainEvent::Governance(
            GovernanceEvent::VoteAdded {
                core_id,
                executor_account,
                voter,
                votes_added,
                current_votes,
                call_hash,
                call,
            },
        ) if core_id == followed => Some(
            DomainEvent::VoteAdded {
                call_id: call_hash,
                voter,
                vote: votes_added,
                aggregate_ayes: current_votes.ayes,
                aggregate_nays: current_votes.nays,
                call_payload: call,
            },
        ),
        ChainEvent::Governance(
            GovernanceEvent::Executed { core_id, executor_account, voter, call_hash, call, result },
        ) if core_id == followed => Some(
            DomainEvent::Executed {
                call_id: call_hash,
                voter,
                call_payload: call,
                outcome: result,
            },
        ),
        _ => None,
    }
}

/// Lets through the events of the governance module that are about the
/// followed core and are one of the three steps in the life of a call;
/// everything else is dropped.
pub fn filter(config: &Config, event: ChainEvent) -> (kept: Option<DomainEvent>)
    ensures
        kept == filtered(config.followed_core(), event),
{
    let followed = config.core_id();
    match event {
        ChainEvent::Governance(
            GovernanceEvent::VoteStarted {
                core_id,
                executor_account,
                voter,
                votes_added,
                call_hash,
                call,
            },
        ) => {
            if core_id == followed {
                Some(
                    DomainEvent::Started {
                        call_id: call_hash,
                        proposer: executor_account,
                        voter,
                        vote: votes_added,
                        call_payload: call,
                    },
                )
            } else {
                None
            }
        },
        ChainEvent::Governance(
            GovernanceEvent::VoteAdded {
                core_id,
                executor_account,
                voter,
                votes_added,
                current_votes,
                call_hash,
                call,
            },
        ) => {
            if core_id == followed {
                Some(
                    DomainEvent::VoteAdded {
                        call_id: call_hash,
                        voter,
                        vote: votes_added,
                        aggregate_ayes: current_votes.ayes,
                        aggregate_nays: current_votes.nays,
                        call_payload: call,
                    },
                )
            } else {
                None
            }
        },
        ChainEvent::Governance(
            GovernanceEvent::Executed { core_id, executor_account, voter, call_hash, call, result },
        ) => {
            if core_id == followed {
                Some(
                    DomainEvent::Executed {
                        call_id: call_hash,
                        voter,
                        call_payload: call,
                        outcome: result,
                    },
                )
            } else {
                None
            }
        },
        _ => None,
    }
}

} // verus!
