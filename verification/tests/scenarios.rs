use multisig_bridge::command::{close_thread, create_thread, update_thread};
use multisig_bridge::config::Config;
use multisig_bridge::event::{CallPayload, DomainEvent, ExecutionOutcome};
use multisig_bridge::identity::{AccountId, CallId};
use multisig_bridge::reconcile::{plan, PendingCall, ReconcileError, Reconciler, Step};
use multisig_bridge::record::{decode, encode, DecodeError};
use multisig_bridge::state::CallState;
use multisig_bridge::store::StateStore;
use multisig_bridge::vote::Vote;

const ALICE: [u8; 32] = [
    0xd4, 0x35, 0x93, 0xc7, 0x15, 0xfd, 0xd3, 0x1c, 0x61, 0x14, 0x1a, 0xbd, 0x04, 0xa9, 0x9f, 0xd6,
    0x82, 0x2c, 0x85, 0x58, 0x85, 0x4c, 0xcd, 0xe3, 0x9a, 0x56, 0x84, 0xe7, 0xa5, 0x6d, 0xa2, 0x7d,
];
const BOB: [u8; 32] = [
    0x8e, 0xaf, 0x04, 0x15, 0x16, 0x87, 0x73, 0x63, 0x26, 0xc9, 0xfe, 0xa1, 0x7e, 0x25, 0xfc, 0x52,
    0x87, 0x61, 0x36, 0x93, 0xc9, 0x12, 0x90, 0x9c, 0xb2, 0x26, 0xaa, 0x47, 0x94, 0xf2, 0x6a, 0x48,
];
const HANDLE: u64 = 1_100_000_000_000_000_001;

fn config() -> Config {
    Config::new(
        0,
        1_000_000,
        1089713385475674172,
        "wss://example.invalid:443/public-ws".to_string(),
        "https://example.invalid/#/extrinsics/decode/0x".to_string(),
        71,
        4,
    )
    .unwrap()
}

fn alice() -> AccountId {
    AccountId::new(ALICE)
}

fn bob() -> AccountId {
    AccountId::new(BOB)
}

fn call() -> CallId {
    CallId::new([0xAA; 32])
}

fn other_call() -> CallId {
    CallId::new([0xBB; 32])
}

fn payload() -> CallPayload {
    CallPayload::Decoded("Balances::transfer".to_string())
}

fn started(call_id: CallId) -> DomainEvent {
    DomainEvent::Started {
        call_id,
        proposer: alice(),
        voter: alice(),
        vote: Vote::Aye(5_000_000),
        call_payload: payload(),
    }
}

fn bob_votes(call_id: CallId) -> DomainEvent {
    DomainEvent::VoteAdded {
        call_id,
        voter: bob(),
        vote: Vote::Nay(2_000_000),
        aggregate_ayes: 5_000_000,
        aggregate_nays: 2_000_000,
        call_payload: payload(),
    }
}

fn executed(call_id: CallId, outcome: ExecutionOutcome) -> DomainEvent {
    DomainEvent::Executed { call_id, voter: bob(), call_payload: payload(), outcome }
}

fn pending() -> PendingCall {
    PendingCall { call_id: call(), proposer: alice(), vote: Vote::Aye(5_000_000) }
}

fn opened() -> CallState {
    CallState::open(call(), HANDLE, alice(), Vote::Aye(5_000_000))
}

fn voted() -> CallState {
    let mut state = opened();
    state.voters.insert(bob(), Vote::Nay(2_000_000));
    state
}

fn state_in(reconciler: &Reconciler, call_id: CallId) -> Option<CallState> {
    reconciler.store().get(&call_id).map(|record| decode(call_id, record).unwrap())
}

fn open_reconciler() -> Reconciler {
    let mut reconciler = Reconciler::new(config(), StateStore::new());
    assert!(reconciler.thread_created(&pending(), HANDLE).is_some());
    reconciler
}

#[test]
fn store_starts_empty() {
    let store = StateStore::new();
    assert_eq!(store.len(), 0);
    assert_eq!(store.get(&call()), None);
    assert!(!store.contains(&call()));
}

#[test]
fn store_put_get_delete() {
    let mut store = StateStore::new();
    store.put(call(), vec![1, 2, 3]);
    store.put(other_call(), vec![4]);
    assert_eq!(store.len(), 2);
    assert_eq!(store.get(&call()), Some(&vec![1u8, 2, 3]));
    assert_eq!(store.get(&other_call()), Some(&vec![4u8]));
    store.put(call(), vec![9]);
    assert_eq!(store.len(), 2);
    assert_eq!(store.get(&call()), Some(&vec![9u8]));
    assert!(store.delete(&call()));
    assert!(!store.delete(&call()));
    assert_eq!(store.len(), 1);
    assert_eq!(store.get(&call()), None);
    assert!(store.contains(&other_call()));
}

#[test]
fn started_on_an_unknown_call_asks_for_one_thread() {
    let mut reconciler = Reconciler::new(config(), StateStore::new());
    let step = reconciler.handle(&started(call())).unwrap();
    let expected = Step::Create {
        pending: pending(),
        command: create_thread(&config(), &alice(), &alice(), Vote::Aye(5_000_000), &call(), "Balances::transfer"),
    };
    assert_eq!(step, expected);
    assert_eq!(reconciler.store().len(), 0);
}

#[test]
fn started_scenario_stores_the_proposer_and_shows_five_ayes() {
    let mut reconciler = Reconciler::new(config(), StateStore::new());
    let step = reconciler.handle(&started(call())).unwrap();
    let (pending, command) = match step {
        Step::Create { pending, command } => (pending, command),
        other => panic!("unexpected step {other:?}"),
    };
    assert_eq!(command.title, "aa".repeat(32));
    assert_eq!(command.content.aye_votes, "5");
    assert_eq!(command.content.nay_votes, "0");
    let record = reconciler.thread_created(&pending, HANDLE);
    assert_eq!(record, Some(encode(&opened())));
    assert_eq!(reconciler.store().len(), 1);
    let state = state_in(&reconciler, call()).unwrap();
    assert_eq!(state, opened());
    assert_eq!(state.proposer, alice());
    assert_eq!(state.thread_handle, HANDLE);
    assert_eq!(state.voters.len(), 1);
    assert_eq!(state.voters.get(&alice()), Some(Vote::Aye(5_000_000)));
}

#[test]
fn started_again_changes_nothing_and_asks_for_nothing() {
    let mut reconciler = open_reconciler();
    let before = reconciler.store().get(&call()).cloned();
    assert_eq!(reconciler.handle(&started(call())), Ok(Step::Duplicate));
    assert_eq!(reconciler.store().get(&call()).cloned(), before);
    assert_eq!(reconciler.store().len(), 1);
}

#[test]
fn a_thread_handle_is_set_once() {
    let mut reconciler = open_reconciler();
    assert_eq!(reconciler.thread_created(&pending(), HANDLE + 1), None);
    assert_eq!(state_in(&reconciler, call()).unwrap().thread_handle, HANDLE);
}

#[test]
fn started_with_an_undecodable_call_is_skipped() {
    let mut reconciler = Reconciler::new(config(), StateStore::new());
    let event = DomainEvent::Started {
        call_id: call(),
        proposer: alice(),
        voter: alice(),
        vote: Vote::Aye(1),
        call_payload: CallPayload::Undecodable,
    };
    assert_eq!(reconciler.handle(&event), Err(ReconcileError::UndecodablePayload));
    assert_eq!(reconciler.store().len(), 0);
}

#[test]
fn vote_scenario_stores_both_voters_and_shows_the_totals_of_the_chain() {
    let mut reconciler = open_reconciler();
    let step = reconciler.handle(&bob_votes(call())).unwrap();
    let expected = Step::Update {
        record: encode(&voted()),
        command: update_thread(&config(), &voted(), 5_000_000, 2_000_000, "Balances::transfer"),
    };
    assert_eq!(step, expected);
    match step {
        Step::Update { command, .. } => {
            assert_eq!(command.thread_handle, HANDLE);
            assert_eq!(command.content.aye_votes, "5");
            assert_eq!(command.content.nay_votes, "2");
        },
        other => panic!("unexpected step {other:?}"),
    }
    let state = state_in(&reconciler, call()).unwrap();
    assert_eq!(state, voted());
    assert_eq!(state.voters.len(), 2);
    assert_eq!(state.voters.get(&alice()), Some(Vote::Aye(5_000_000)));
    assert_eq!(state.voters.get(&bob()), Some(Vote::Nay(2_000_000)));
}

#[test]
fn totals_shown_are_those_of_the_event_not_sums_of_the_voters() {
    let mut reconciler = open_reconciler();
    let event = DomainEvent::VoteAdded {
        call_id: call(),
        voter: bob(),
        vote: Vote::Nay(2_000_000),
        aggregate_ayes: 40_000_000,
        aggregate_nays: 30_000_000,
        call_payload: payload(),
    };
    match reconciler.handle(&event).unwrap() {
        Step::Update { command, .. } => {
            assert_eq!(command.content.aye_votes, "40");
            assert_eq!(command.content.nay_votes, "30");
        },
        other => panic!("unexpected step {other:?}"),
    }
}

#[test]
fn votes_in_sequence_keep_each_voters_last_vote() {
    let mut reconciler = open_reconciler();
    let votes = [
        (bob(), Vote::Nay(2_000_000)),
        (alice(), Vote::Nay(1_000_000)),
        (bob(), Vote::Aye(3_000_000)),
        (AccountId::new([7; 32]), Vote::Aye(9_000_000)),
        (bob(), Vote::Nay(8_000_000)),
    ];
    for (voter, vote) in votes {
        let event = DomainEvent::VoteAdded {
            call_id: call(),
            voter,
            vote,
            aggregate_ayes: 0,
            aggregate_nays: 0,
            call_payload: payload(),
        };
        assert!(matches!(reconciler.handle(&event), Ok(Step::Update { .. })));
    }
    let state = state_in(&reconciler, call()).unwrap();
    assert_eq!(state.thread_handle, HANDLE);
    assert_eq!(state.proposer, alice());
    assert_eq!(state.voters.len(), 3);
    assert_eq!(state.voters.get(&alice()), Some(Vote::Nay(1_000_000)));
    assert_eq!(state.voters.get(&bob()), Some(Vote::Nay(8_000_000)));
    assert_eq!(state.voters.get(&AccountId::new([7; 32])), Some(Vote::Aye(9_000_000)));
}

#[test]
fn a_vote_on_an_unknown_call_is_a_gap() {
    let mut reconciler = open_reconciler();
    let before = reconciler.store().get(&call()).cloned();
    assert_eq!(reconciler.handle(&bob_votes(other_call())), Ok(Step::Gap));
    assert_eq!(reconciler.store().len(), 1);
    assert_eq!(reconciler.store().get(&call()).cloned(), before);
    assert_eq!(reconciler.store().get(&other_call()), None);
}

#[test]
fn an_execution_of_an_unknown_call_is_a_gap() {
    let mut reconciler = Reconciler::new(config(), StateStore::new());
    assert_eq!(reconciler.handle(&executed(call(), ExecutionOutcome::Succeeded)), Ok(Step::Gap));
    assert_eq!(reconciler.store().len(), 0);
}

#[test]
fn executed_scenario_removes_the_call_and_closes_the_thread() {
    let mut reconciler = open_reconciler();
    reconciler.handle(&bob_votes(call())).unwrap();
    let step = reconciler.handle(&executed(call(), ExecutionOutcome::Succeeded)).unwrap();
    let expected = Step::Close {
        command: close_thread(
            &config(),
            HANDLE,
            &bob(),
            &call(),
            "Balances::transfer",
            ExecutionOutcome::Succeeded,
        ),
    };
    assert_eq!(step, expected);
    match step {
        Step::Close { command } => {
            assert!(command.succeeded);
            assert_eq!(command.thread_handle, HANDLE);
            assert_eq!(command.content.result, "Successful");
        },
        other => panic!("unexpected step {other:?}"),
    }
    assert_eq!(reconciler.store().get(&call()), None);
    assert_eq!(reconciler.store().len(), 0);
}

#[test]
fn a_failed_execution_closes_the_thread_as_failed() {
    let mut reconciler = open_reconciler();
    match reconciler.handle(&executed(call(), ExecutionOutcome::Failed)).unwrap() {
        Step::Close { command } => {
            assert!(!command.succeeded);
            assert_eq!(command.content.result, "Error");
        },
        other => panic!("unexpected step {other:?}"),
    }
    assert!(!reconciler.store().contains(&call()));
}

#[test]
fn after_an_execution_votes_and_executions_are_gaps() {
    let mut reconciler = open_reconciler();
    reconciler.handle(&executed(call(), ExecutionOutcome::Succeeded)).unwrap();
    assert_eq!(reconciler.handle(&bob_votes(call())), Ok(Step::Gap));
    assert_eq!(reconciler.handle(&executed(call(), ExecutionOutcome::Succeeded)), Ok(Step::Gap));
    assert_eq!(reconciler.store().len(), 0);
}

#[test]
fn calls_are_independent_of_each_other() {
    let mut reconciler = open_reconciler();
    let other = PendingCall { call_id: other_call(), proposer: bob(), vote: Vote::Nay(1) };
    assert!(reconciler.thread_created(&other, 5).is_some());
    reconciler.handle(&bob_votes(call())).unwrap();
    reconciler.handle(&executed(call(), ExecutionOutcome::Succeeded)).unwrap();
    assert_eq!(reconciler.store().len(), 1);
    assert_eq!(
        state_in(&reconciler, other_call()),
        Some(CallState::open(other_call(), 5, bob(), Vote::Nay(1)))
    );
}

#[test]
fn a_corrupt_record_skips_the_event_and_stays() {
    let mut store = StateStore::new();
    store.put(call(), vec![1, 2, 3]);
    let mut reconciler = Reconciler::new(config(), store);
    assert_eq!(
        reconciler.handle(&bob_votes(call())),
        Err(ReconcileError::CorruptRecord(DecodeError::Truncated))
    );
    assert_eq!(
        reconciler.handle(&executed(call(), ExecutionOutcome::Succeeded)),
        Err(ReconcileError::CorruptRecord(DecodeError::Truncated))
    );
    assert_eq!(reconciler.handle(&started(call())), Ok(Step::Duplicate));
    assert_eq!(reconciler.store().get(&call()), Some(&vec![1u8, 2, 3]));
}

#[test]
fn an_undecodable_call_skips_a_vote_and_an_execution() {
    let mut reconciler = open_reconciler();
    let before = reconciler.store().get(&call()).cloned();
    let vote = DomainEvent::VoteAdded {
        call_id: call(),
        voter: bob(),
        vote: Vote::Nay(1),
        aggregate_ayes: 0,
        aggregate_nays: 1,
        call_payload: CallPayload::Undecodable,
    };
    assert_eq!(reconciler.handle(&vote), Err(ReconcileError::UndecodablePayload));
    let execution = DomainEvent::Executed {
        call_id: call(),
        voter: bob(),
        call_payload: CallPayload::Undecodable,
        outcome: ExecutionOutcome::Succeeded,
    };
    assert_eq!(reconciler.handle(&execution), Err(ReconcileError::UndecodablePayload));
    assert_eq!(reconciler.store().get(&call()).cloned(), before);
}

#[test]
fn plan_decides_without_a_store() {
    let record = encode(&opened());
    assert_eq!(plan(&config(), None, &bob_votes(call())), Ok(Step::Gap));
    assert_eq!(plan(&config(), Some(&record), &started(call())), Ok(Step::Duplicate));
    assert_eq!(
        plan(&config(), Some(&record), &bob_votes(call())),
        Ok(Step::Update {
            record: encode(&voted()),
            command: update_thread(&config(), &voted(), 5_000_000, 2_000_000, "Balances::transfer"),
        })
    );
    assert_eq!(
        plan(&config(), Some(&[9u8][..]), &bob_votes(call())),
        Err(ReconcileError::CorruptRecord(DecodeError::UnknownVersion))
    );
}

#[test]
fn reconciler_gives_back_its_settings() {
    let reconciler = Reconciler::new(config(), StateStore::new());
    assert_eq!(reconciler.config().core_id(), 0);
    assert_eq!(reconciler.config().display_scale(), 1_000_000);
}
