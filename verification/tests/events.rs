use multisig_bridge::config::Config;
use multisig_bridge::event::{
    filter, CallPayload, ChainEvent, DomainEvent, ExecutionOutcome, GovernanceEvent, Tally,
};
use multisig_bridge::identity::{AccountId, CallId};
use multisig_bridge::vote::Vote;

fn config(core_id: u32) -> Config {
    Config::new(core_id, 1_000_000, 1, String::new(), String::new(), 0, 0).unwrap()
}

fn executor() -> AccountId {
    AccountId::new([0xEE; 32])
}

fn voter() -> AccountId {
    AccountId::new([0x01; 32])
}

fn call() -> CallId {
    CallId::new([0xAA; 32])
}

fn payload() -> CallPayload {
    CallPayload::Decoded("System::remark".to_string())
}

fn vote_started(core_id: u32) -> ChainEvent {
    ChainEvent::Governance(GovernanceEvent::VoteStarted {
        core_id,
        executor_account: executor(),
        voter: voter(),
        votes_added: Vote::Aye(5),
        call_hash: call(),
        call: payload(),
    })
}

fn vote_added(core_id: u32) -> ChainEvent {
    ChainEvent::Governance(GovernanceEvent::VoteAdded {
        core_id,
        executor_account: executor(),
        voter: voter(),
        votes_added: Vote::Nay(2),
        current_votes: Tally { ayes: 5, nays: 2 },
        call_hash: call(),
        call: payload(),
    })
}

fn executed(core_id: u32, result: ExecutionOutcome) -> ChainEvent {
    ChainEvent::Governance(GovernanceEvent::Executed {
        core_id,
        executor_account: executor(),
        voter: voter(),
        call_hash: call(),
        call: CallPayload::Undecodable,
        result,
    })
}

#[test]
fn filter_drops_events_of_other_modules() {
    assert_eq!(filter(&config(0), ChainEvent::Foreign), None);
}

#[test]
fn filter_drops_other_events_of_the_governance_module() {
    assert_eq!(filter(&config(0), ChainEvent::Governance(GovernanceEvent::Other)), None);
}

#[test]
fn filter_drops_events_of_other_cores() {
    assert_eq!(filter(&config(0), vote_started(1)), None);
    assert_eq!(filter(&config(0), vote_added(1)), None);
    assert_eq!(filter(&config(0), executed(1, ExecutionOutcome::Succeeded)), None);
    assert_eq!(filter(&config(7), vote_started(0)), None);
}

#[test]
fn filter_keeps_a_proposal() {
    let kept = filter(&config(3), vote_started(3));
    assert_eq!(
        kept,
        Some(DomainEvent::Started {
            call_id: call(),
            proposer: executor(),
            voter: voter(),
            vote: Vote::Aye(5),
            call_payload: payload(),
        })
    );
    assert_eq!(kept.unwrap().call_id(), call());
}

#[test]
fn filter_keeps_a_vote_with_the_totals_of_the_chain() {
    assert_eq!(
        filter(&config(3), vote_added(3)),
        Some(DomainEvent::VoteAdded {
            call_id: call(),
            voter: voter(),
            vote: Vote::Nay(2),
            aggregate_ayes: 5,
            aggregate_nays: 2,
            call_payload: payload(),
        })
    );
}

#[test]
fn filter_keeps_an_execution_with_its_outcome() {
    assert_eq!(
        filter(&config(3), executed(3, ExecutionOutcome::Failed)),
        Some(DomainEvent::Executed {
            call_id: call(),
            voter: voter(),
            call_payload: CallPayload::Undecodable,
            outcome: ExecutionOutcome::Failed,
        })
    );
}
