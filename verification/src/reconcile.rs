//! The life of a call: absent, open, absent again. For each event this
//! module decides what becomes of the call's record and what the chat
//! surface is asked to do.

use vstd::prelude::*;
use crate::command::{
    close_thread, close_view, create_thread, create_view, update_thread, update_view, CloseThread,
    CloseThreadView, CreateThread, CreateThreadView, UpdateThread, UpdateThreadView,
};
use crate::config::Config;
use crate::event::{CallPayload, DomainEvent};
use crate::identity::{AccountId, CallId};
use crate::record::{
    decode, encode, record_ballots, record_bytes, record_fault, record_handle, record_proposer,
    DecodeError,
};
use crate::state::CallState;
use crate::store::StateStore;
use crate::vote::Vote;
use crate::voters::with_ballot;

verus! {

/// A call whose thread has been asked for: what will be recorded of it once
/// the thread exists.
#[derive(Clone, Copy, Debug, PartialEq, Eq)]
pub struct PendingCall {
    pub call_id: CallId,
    pub proposer: AccountId,
    pub vote: Vote,
}

/// Why an event was skipped.
#[derive(Clone, Copy, Debug, PartialEq, Eq, Structural)]
pub enum ReconcileError {
    /// What is stored for the call is not a record.
    CorruptRecord(DecodeError),
    /// The event's call could not be decoded.
    UndecodablePayload,
}

/// What an event leads to.
#[derive(Debug, PartialEq, Eq)]
#[allow(inconsistent_fields)]
pub enum Step {
    /// A new call: its thread is to be opened. Nothing is recorded until the
    /// thread exists.
    Create { pending: PendingCall, command: CreateThread },
    /// A vote on an open call: `record` takes the place of the call's
    /// record, and the thread is to show the new tally.
    Update { record: Vec<u8>, command: UpdateThread },
    /// An open call was executed: its record goes, and the thread is to be
    /// closed.
    Close { command: CloseThread },
    /// A call that is already open was announced again: nothing to do.
    Duplicate,
    /// A vote on, or the execution of, a call of which nothing is recorded:
    /// nothing to do.
    Gap,
}

#[allow(inconsistent_fields)]
pub enum StepView {
    Create { pending: PendingCall, command: CreateThreadView },
    Update { record: Seq<u8>, command: UpdateThreadView },
    Close { command: CloseThreadView },
    Duplicate,
    Gap,
}

impl View for Step {
    type V = StepView;

    open spec fn view(&self) -> StepView {
        match self {
            Step::Create { pending, command } => StepView::Create {
                pending: *pending,
                command: command@,
            },
            Step::Update { record, command } => StepView::Update {
                record: record@,
                command: command@,
            },
            Step::Close { command } => StepView::Close { command: command@ },
            Step::Duplicate => StepView::Duplicate,
            Step::Gap => StepView::Gap,
        }
    }
}

/// The record of a call after `voter` has cast `vote`: the same thread
/// handle and proposer, and the voters with that vote recorded.
pub open spec fn record_with_vote(record: Seq<u8>, voter: Seq<u8>, vote: Vote) -> Seq<u8> {
    record_bytes(
        record_handle(record),
        record_proposer(record),
        with_ballot(record_ballots(record), voter, vote),
    )
}

/// The first record of a call: the proposer is the only voter.
pub open spec fn first_record(pending: PendingCall, thread_handle: u64) -> Seq<u8> {
    record_bytes(thread_handle, pending.proposer@, seq![(pending.proposer@, pending.vote)])
}

/// What `event` leads to when `existing` is what is stored for its call.
pub open spec fn planned(config: Config, existing: Option<Seq<u8>>, event: DomainEvent) -> Result<
    StepView,
    ReconcileError,
> {
    match event {
        DomainEvent::Started { call_id, proposer, voter, vote, call_payload } => match existing {
            Some(_) => Ok(StepView::Duplicate),
            None => match call_payload {
                CallPayload::Undecodable => Err(ReconcileError::UndecodablePayload),
                CallPayload::Decoded(call) => Ok(
                    StepView::Create {
                        pending: PendingCall { call_id, proposer: voter, vote },
                        command: create_view(config, proposer@, voter@, vote, call_id@, call@),
                    },
                ),
            },
        },
        DomainEvent::VoteAdded {
            call_id,
            voter,
            vote,
            aggregate_ayes,
            aggregate_nays,
            call_payload,
        } => match existing {
            None => Ok(StepView::Gap),
            Some(record) => match record_fault(record) {
                Some(fault) => Err(ReconcileError::CorruptRecord(fault)),
                None => match call_payload {
                    CallPayload::Undecodable => Err(ReconcileError::UndecodablePayload),
                    CallPayload::Decoded(call) => Ok(
                        StepView::Update {
                            record: record_with_vote(record, voter@, vote),
                            command: update_view(
                                config,
                                record_handle(record),
                                record_proposer(record),
                                aggregate_ayes,
                                aggregate_nays,
                                with_ballot(record_ballots(record), voter@, vote),
                                call_id@,
                                call@,
                            ),
                        },
                    ),
                },
            },
        },
        DomainEvent::Executed { call_id, voter, call_payload, outcome } => match existing {
            None => Ok(StepView::Gap),
            Some(record) => match record_fault(record) {
                Some(fault) => Err(ReconcileError::CorruptRecord(fault)),
                None => match call_payload {
                    CallPayload::Undecodable => Err(ReconcileError::UndecodablePayload),
                    CallPayload::Decoded(call) => Ok(
                        StepView::Close {
                            command: close_view(
                                config,
                                record_handle(record),
                                voter@,
                                call_id@,
                                call@,
                                outcome,
                            ),
                        },
                    ),
                },
            },
        },
    }
}

/// What is stored after an event has been handled with this result: a vote
/// replaces the call's record, an execution removes it, and anything else,
/// a skipped event too, leaves the store as it was.
pub open spec fn store_after(
    store: Map<Seq<u8>, Seq<u8>>,
    call_id: Seq<u8>,
    result: Result<StepView, ReconcileError>,
) -> Map<Seq<u8>, Seq<u8>> {
    match result {
        Ok(StepView::Update { record, .. }) => store.insert(call_id, record),
        Ok(StepView::Close { .. }) => store.remove(call_id),
        _ => store,
    }
}

/// What is stored for `call_id`, if anything.
pub open spec fn stored(store: Map<Seq<u8>, Seq<u8>>, call_id: Seq<u8>) -> Option<Seq<u8>> {
    if store.contains_key(call_id) {
        Some(store[call_id])
    } else {
        None
    }
}

/// What is stored once the thread of a pending call exists: the call's first
/// record, unless the call has a record already, which then stays.
pub open spec fn store_after_thread(
    store: Map<Seq<u8>, Seq<u8>>,
    pending: PendingCall,
    thread_handle: u64,
) -> Map<Seq<u8>, Seq<u8>> {
    if store.contains_key(pending.call_id@) {
        store
    } else {
        store.insert(pending.call_id@, first_record(pending, thread_handle))
    }
}

/// The bytes of an optional record.
pub open spec fn bytes_of(existing: Option<&[u8]>) -> Option<Seq<u8>> {
    match existing {
        Some(bytes) => Some(bytes@),
        None => None,
    }
}

/// Decides what `event` leads to when `existing` is what is stored for its
/// call. Nothing is changed: the caller stores the new record or removes the
/// old one, as the step says.
pub fn plan(config: &Config, existing: Option<&[u8]>, event: &DomainEvent) -> (result: Result<
    Step,
    ReconcileError,
>)
    ensures
        match result {
            Ok(step) => planned(*config, bytes_of(existing), *event) == Ok::<
                StepView,
                ReconcileError,
            >(step@),
            Err(error) => planned(*config, bytes_of(existing), *event) == Err::<
                StepView,
                ReconcileError,
            >(error),
        },
{
    match event {
        DomainEvent::Started { call_id, proposer, voter, vote, call_payload } => {
            if existing.is_some() {
                return Ok(Step::Duplicate);
            }
            match call_payload {
                CallPayload::Undecodable => Err(ReconcileError::UndecodablePayload),
                CallPayload::Decoded(call) => {
                    let command = create_thread(
                        config,
                        proposer,
                        voter,
                        *vote,
                        call_id,
                        call.as_str(),
                    );
                    let pending = PendingCall { call_id: *call_id, proposer: *voter, vote: *vote };
                    Ok(Step::Create { pending, command })
                },
            }
        },
        DomainEvent::VoteAdded {
            call_id,
            voter,
            vote,
            aggregate_ayes,
            aggregate_nays,
            call_payload,
        } => {
            let record = match existing {
                None => {
                    return Ok(Step::Gap);
                },
                Some(record) => record,
            };
            let mut state = match decode(*call_id, record) {
                Err(fault) => {
                    return Err(ReconcileError::CorruptRecord(fault));
                },
                Ok(state) => state,
            };
            match call_payload {
                CallPayload::Undecodable => Err(ReconcileError::UndecodablePayload),
                CallPayload::Decoded(call) => {
                    state.voters.insert(*voter, *vote);
                    let command = update_thread(
                        config,
                        &state,
                        *aggregate_ayes,
                        *aggregate_nays,
                        call.as_str(),
                    );
                    Ok(Step::Update { record: encode(&state), command })
                },
            }
        },
        DomainEvent::Executed { call_id, voter, call_payload, outcome } => {
            let record = match existing {
                None => {
                    return Ok(Step::Gap);
                },
                Some(record) => record,
            };
            let state = match decode(*call_id, record) {
                Err(fault) => {
                    return Err(ReconcileError::CorruptRecord(fault));
                },
                Ok(state) => state,
            };
            match call_payload {
                CallPayload::Undecodable => Err(ReconcileError::UndecodablePayload),
                CallPayload::Decoded(call) => {
                    let command = close_thread(
                        config,
                        state.thread_handle,
                        voter,
                        call_id,
                        call.as_str(),
                        *outcome,
                    );
                    Ok(Step::Close { command })
                },
            }
        },
    }
}

/// The reconciler: the settings and the store of open calls. It takes the
/// events of the followed core one at a time, in the order of the chain.
#[derive(Debug)]
pub struct Reconciler {
    config: Config,
    store: StateStore,
}

impl Reconciler {
    /// The settings that the reconciler was made with.
    pub closed spec fn settings(self) -> Config {
        self.config
    }

    /// What is stored: the record of each open call under its identifier.
    pub closed spec fn records(self) -> Map<Seq<u8>, Seq<u8>> {
        self.store@
    }

    /// A reconciler that works on `store`.
    pub fn new(config: Config, store: StateStore) -> (reconciler: Reconciler)
        ensures
            reconciler.settings() == config,
            reconciler.records() == store@,
    {
        Reconciler { config, store }
    }

    pub fn config(&self) -> (config: &Config)
        ensures
            *config == self.settings(),
    {
        &self.config
    }

    pub fn store(&self) -> (store: &StateStore)
        ensures
            store@ == self.records(),
    {
        &self.store
    }

    /// Handles one event: looks up what is stored for its call, decides what
    /// the event leads to, and stores or removes the call's record as that
    /// step says. The command of the step is left to the caller to carry out;
    /// whether that succeeds does not change what is stored.
    ///
    /// An event that is skipped, or that finds nothing to do, leaves the
    /// store as it was.
    pub fn handle(&mut self, event: &DomainEvent) -> (result: Result<Step, ReconcileError>)
        ensures
            final(self).settings() == old(self).settings(),
            match result {
                Ok(step) => planned(
                    old(self).settings(),
                    stored(old(self).records(), event.call()@),
                    *event,
                ) == Ok::<StepView, ReconcileError>(step@),
                Err(error) => planned(
                    old(self).settings(),
                    stored(old(self).records(), event.call()@),
                    *event,
                ) == Err::<StepView, ReconcileError>(error),
            },
            final(self).records() == store_after(
                old(self).records(),
                event.call()@,
                planned(old(self).settings(), stored(old(self).records(), event.call()@), *event),
            ),
    {
        let call_id = event.call_id();
        let result = match self.store.get(&call_id) {
            Some(record) => plan(&self.config, Some(record.as_slice()), event),
            None => plan(&self.config, None, event),
        };
        match &result {
            Ok(Step::Update { record, .. }) => {
                let mut copy: Vec<u8> = Vec::new();
                crate::record::push_all(&mut copy, record.as_slice());
                assert(copy@ =~= record@);
                self.store.put(call_id, copy);
            },
            Ok(Step::Close { .. }) => {
                let _ = self.store.delete(&call_id);
            },
            _ => {},
        }
        result
    }

    /// Records a call whose thread now exists under `thread_handle`, and
    /// gives the record that was stored. If the call has a record already,
    /// that record stays as it is and `None` is returned: a call's thread
    /// handle is set once.
    pub fn thread_created(&mut self, pending: &PendingCall, thread_handle: u64) -> (record: Option<
        Vec<u8>,
    >)
        ensures
            final(self).settings() == old(self).settings(),
            final(self).records() == store_after_thread(
                old(self).records(),
                *pending,
                thread_handle,
            ),
            match record {
                Some(bytes) => !old(self).records().contains_key(pending.call_id@) && bytes@
                    == first_record(*pending, thread_handle),
                None => old(self).records().contains_key(pending.call_id@),
            },
    {
        if self.store.contains(&pending.call_id) {
            return None;
        }
        let state = CallState::open(pending.call_id, thread_handle, pending.proposer, pending.vote);
        let record = encode(&state);
        let mut copy: Vec<u8> = Vec::new();
        crate::record::push_all(&mut copy, record.as_slice());
        assert(copy@ =~= record@);
        self.store.put(pending.call_id, copy);
        Some(record)
    }
}

} // verus!
