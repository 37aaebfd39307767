//! What holds of the life of a call, whatever the events are.

use vstd::prelude::*;
use crate::config::Config;
use crate::event::DomainEvent;
use crate::reconcile::{
    first_record, planned, record_with_vote, store_after, store_after_thread, stored,
    ReconcileError, StepView,
};
use crate::record::{
    lemma_faultless_record, lemma_record_round_trip, record_ballots, record_fault, record_handle,
    record_proposer,
};
use crate::vote::Vote;
use crate::voters::{
    after_votes, ascending, ballot_map, ballots_after, lemma_ballots_after, lemma_with_ballot,
    voter_at,
};

verus! {

/// A call is announced once. The first announcement of a call asks for
/// exactly one thread and stores nothing; once the thread exists, exactly
/// one record is stored, that of the proposer's vote. The same announcement
/// again finds the call open: it asks for nothing and changes nothing, and
/// the record keeps the thread handle it was given.
pub proof fn lemma_started_once(
    config: Config,
    store: Map<Seq<u8>, Seq<u8>>,
    event: DomainEvent,
    thread_handle: u64,
    other_handle: u64,
)
    requires
        event is Started,
        event.payload() is Decoded,
        !store.contains_key(event.call()@),
    ensures
        ({
            let id = event.call()@;
            let first = planned(config, stored(store, id), event);
            &&& first matches Ok(StepView::Create { pending, .. })
            &&& pending.call_id == event.call()
            &&& store_after(store, id, first) == store
            &&& {
                let opened = store_after_thread(store, pending, thread_handle);
                let again = planned(config, stored(opened, id), event);
                &&& opened == store.insert(id, first_record(pending, thread_handle))
                &&& again == Ok::<StepView, ReconcileError>(StepView::Duplicate)
                &&& store_after(opened, id, again) == opened
                &&& store_after_thread(opened, pending, other_handle) == opened
            }
        }),
{
}

/// A vote on, or the execution of, a call of which nothing is stored is a
/// gap: it asks for nothing and changes nothing.
pub proof fn lemma_missing_state_is_a_gap(
    config: Config,
    store: Map<Seq<u8>, Seq<u8>>,
    event: DomainEvent,
)
    requires
        !(event is Started),
        !store.contains_key(event.call()@),
    ensures
        planned(config, stored(store, event.call()@), event) == Ok::<StepView, ReconcileError>(
            StepView::Gap,
        ),
        store_after(
            store,
            event.call()@,
            planned(config, stored(store, event.call()@), event),
        ) == store,
{
}

/// The execution of an open call closes its thread and removes its record,
/// and leaves every other record alone. A later vote on that call, or a
/// second execution, is then a gap.
pub proof fn lemma_executed_call_is_gone(
    config: Config,
    store: Map<Seq<u8>, Seq<u8>>,
    event: DomainEvent,
    later: DomainEvent,
)
    requires
        event is Executed,
        event.payload() is Decoded,
        store.contains_key(event.call()@),
        record_fault(store[event.call()@]) is None,
        !(later is Started),
        later.call()@ == event.call()@,
    ensures
        ({
            let id = event.call()@;
            let closing = planned(config, stored(store, id), event);
            let after = store_after(store, id, closing);
            &&& closing matches Ok(StepView::Close { command })
            &&& command.thread_handle == record_handle(store[id])
            &&& after == store.remove(id)
            &&& planned(config, stored(after, id), later) == Ok::<StepView, ReconcileError>(
                StepView::Gap,
            )
            &&& store_after(after, id, planned(config, stored(after, id), later)) == after
        }),
{
}

/// The store after the events have been handled one by one, in their order.
pub open spec fn store_after_all(
    config: Config,
    store: Map<Seq<u8>, Seq<u8>>,
    events: Seq<DomainEvent>,
) -> Map<Seq<u8>, Seq<u8>>
    decreases events.len(),
{
    if events.len() == 0 {
        store
    } else {
        let before = store_after_all(config, store, events.drop_last());
        let event = events.last();
        store_after(
            before,
            event.call()@,
            planned(config, stored(before, event.call()@), event),
        )
    }
}

/// True when `event` is a vote on the call `id` whose call could be decoded.
pub open spec fn is_vote_on(event: DomainEvent, id: Seq<u8>) -> bool {
    &&& event is VoteAdded
    &&& event.payload() is Decoded
    &&& event.call()@ == id
}

/// The votes that a sequence of events casts, in its order.
pub open spec fn votes_cast(events: Seq<DomainEvent>) -> Seq<(Seq<u8>, Vote)> {
    Seq::new(events.len(), |i: int| (events[i].ballot().0, events[i].ballot().1.unwrap()))
}

/// Votes on an open call, in any number and order, leave the call open with
/// the thread handle and proposer it had, and leave every other call alone.
/// Its voters are then those it had and those who voted, each once, in
/// rising order, and the mapping from voter to vote is what recording the
/// votes one by one gives: each voter's last vote.
///
/// The number of voters has to fit the record's count of 8 bytes.
pub proof fn lemma_votes_on_open_call(
    config: Config,
    store: Map<Seq<u8>, Seq<u8>>,
    id: Seq<u8>,
    events: Seq<DomainEvent>,
)
    requires
        store.contains_key(id),
        record_fault(store[id]) is None,
        forall|i: int| 0 <= i < events.len() ==> is_vote_on(#[trigger] events[i], id),
        record_ballots(store[id]).len() + events.len() <= u64::MAX,
    ensures
        ({
            let after = store_after_all(config, store, events);
            let was = store[id];
            &&& after.dom() == store.dom()
            &&& forall|other: Seq<u8>|
                other != id && store.contains_key(other) ==> #[trigger] after[other] == store[other]
            &&& record_fault(after[id]) is None
            &&& record_handle(after[id]) == record_handle(was)
            &&& record_proposer(after[id]) == record_proposer(was)
            &&& record_ballots(after[id]) == ballots_after(record_ballots(was), votes_cast(events))
            &&& ascending(record_ballots(after[id]))
            &&& ballot_map(record_ballots(after[id])) == after_votes(
                ballot_map(record_ballots(was)),
                votes_cast(events),
            )
        }),
    decreases events.len(),
{
    let was = store[id];
    let cast = votes_cast(events);
    lemma_faultless_record(was);
    assert forall|i: int| 0 <= i < cast.len() implies (#[trigger] voter_at(cast, i)).len()
        == 32 by {
        assert(is_vote_on(events[i], id));
        lemma_voter_len(events[i]);
    }
    lemma_ballots_after(record_ballots(was), cast);
    if events.len() == 0 {
        assert(store_after_all(config, store, events).dom() =~= store.dom());
    } else {
        let earlier = events.drop_last();
        let event = events.last();
        assert forall|i: int| 0 <= i < earlier.len() implies is_vote_on(
            #[trigger] earlier[i],
            id,
        ) by {
            assert(is_vote_on(events[i], id));
        }
        lemma_votes_on_open_call(config, store, id, earlier);
        let before = store_after_all(config, store, earlier);
        let record = before[id];
        assert(is_vote_on(events[events.len() - 1], id));
        assert(votes_cast(earlier) =~= cast.drop_last());
        lemma_voter_len(event);
        let voter = event.ballot().0;
        let vote = event.ballot().1.unwrap();
        assert(cast.last() == (voter, vote));
        lemma_faultless_record(record);
        assert forall|i: int| 0 <= i < cast.drop_last().len() implies (#[trigger] voter_at(
            cast.drop_last(),
            i,
        )).len() == 32 by {
            assert(voter_at(cast, i).len() == 32);
        }
        lemma_ballots_after(record_ballots(was), cast.drop_last());
        lemma_with_ballot(record_ballots(record), voter, vote);
        let ballots = crate::voters::with_ballot(record_ballots(record), voter, vote);
        lemma_record_round_trip(record_handle(record), record_proposer(record), ballots);
        let after = store_after_all(config, store, events);
        assert(after == before.insert(id, record_with_vote(record, voter, vote)));
        assert(after.dom() =~= store.dom());
    }
}

/// The voter that an event names is a full-length identity.
proof fn lemma_voter_len(event: DomainEvent)
    ensures
        event.ballot().0.len() == 32,
{
    match event {
        DomainEvent::Started { voter, .. } => crate::identity::lemma_id_len(voter.bytes),
        DomainEvent::VoteAdded { voter, .. } => crate::identity::lemma_id_len(voter.bytes),
        DomainEvent::Executed { voter, .. } => crate::identity::lemma_id_len(voter.bytes),
    }
}

} // verus!
