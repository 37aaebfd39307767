//! The projection of the chain's open calls: for each, under its call
//! identifier, the stored form of its state.

use vstd::prelude::*;
use crate::identity::CallId;

verus! {

/// The key held at position `i`.
spec fn key_at(pairs: Seq<(Seq<u8>, Seq<u8>)>, i: int) -> Seq<u8> {
    pairs[i].0
}

/// True when no key is held twice.
spec fn distinct(pairs: Seq<(Seq<u8>, Seq<u8>)>) -> bool {
    forall|i: int, j: int|
        0 <= i < j < pairs.len() ==> #[trigger] key_at(pairs, i) != #[trigger] key_at(pairs, j)
}

/// True when `key` is held.
spec fn holds(pairs: Seq<(Seq<u8>, Seq<u8>)>, key: Seq<u8>) -> bool {
    exists|i: int| 0 <= i < pairs.len() && #[trigger] key_at(pairs, i) == key
}

/// A position at which `key` is held, if it is.
spec fn index_of(pairs: Seq<(Seq<u8>, Seq<u8>)>, key: Seq<u8>) -> int {
    choose|i: int| 0 <= i < pairs.len() && #[trigger] key_at(pairs, i) == key
}

/// The mapping that a list of keys with records stands for.
spec fn pair_map(pairs: Seq<(Seq<u8>, Seq<u8>)>) -> Map<Seq<u8>, Seq<u8>> {
    Map::new(|key: Seq<u8>| holds(pairs, key), |key: Seq<u8>| pairs[index_of(pairs, key)].1)
}

/// Where no key is held twice, a held key maps to the record held with it.
proof fn lemma_pair_lookup(pairs: Seq<(Seq<u8>, Seq<u8>)>, i: int)
    requires
        distinct(pairs),
        0 <= i < pairs.len(),
    ensures
        pair_map(pairs).contains_key(pairs[i].0),
        pair_map(pairs)[pairs[i].0] == pairs[i].1,
{
    let key = pairs[i].0;
    assert(key_at(pairs, i) == key);
    let j = index_of(pairs, key);
    if i < j {
        assert(key_at(pairs, i) != key_at(pairs, j));
    } else if j < i {
        assert(key_at(pairs, j) != key_at(pairs, i));
    }
}

/// Replacing the record at one position changes the mapping at that key only.
proof fn lemma_pair_replaced(pairs: Seq<(Seq<u8>, Seq<u8>)>, at: int, record: Seq<u8>)
    requires
        distinct(pairs),
        0 <= at < pairs.len(),
    ensures
        distinct(pairs.update(at, (pairs[at].0, record))),
        pair_map(pairs.update(at, (pairs[at].0, record))) == pair_map(pairs).insert(
            pairs[at].0,
            record,
        ),
{
    let key = pairs[at].0;
    let after = pairs.update(at, (key, record));
    let goal = pair_map(pairs).insert(key, record);
    assert forall|i: int, j: int| 0 <= i < j < after.len() implies #[trigger] key_at(after, i)
        != #[trigger] key_at(after, j) by {
        assert(key_at(pairs, i) != key_at(pairs, j));
    }
    assert forall|k: Seq<u8>| pair_map(after).contains_key(k) == goal.contains_key(k) by {
        if holds(after, k) {
            assert(key_at(pairs, index_of(after, k)) == k);
        }
        if holds(pairs, k) {
            assert(key_at(after, index_of(pairs, k)) == k);
        }
        if k == key {
            assert(key_at(after, at) == k);
        }
    }
    assert forall|k: Seq<u8>| pair_map(after).contains_key(k) implies pair_map(after)[k]
        == goal[k] by {
        assert(holds(after, k));
        let i = index_of(after, k);
        lemma_pair_lookup(after, i);
        if i != at {
            assert(pairs[i].0 == k);
            lemma_pair_lookup(pairs, i);
            if i < at {
                assert(key_at(pairs, i) != key_at(pairs, at));
            } else {
                assert(key_at(pairs, at) != key_at(pairs, i));
            }
        }
    }
    assert(pair_map(after) =~= goal);
}

/// Appending a key that is not held adds it to the mapping.
proof fn lemma_pair_appended(pairs: Seq<(Seq<u8>, Seq<u8>)>, key: Seq<u8>, record: Seq<u8>)
    requires
        distinct(pairs),
        !holds(pairs, key),
    ensures
        distinct(pairs.push((key, record))),
        pair_map(pairs.push((key, record))) == pair_map(pairs).insert(key, record),
{
    let after = pairs.push((key, record));
    let last = pairs.len() as int;
    let goal = pair_map(pairs).insert(key, record);
    assert forall|i: int, j: int| 0 <= i < j < after.len() implies #[trigger] key_at(after, i)
        != #[trigger] key_at(after, j) by {
        if j < last {
            assert(key_at(pairs, i) != key_at(pairs, j));
        } else {
            assert(key_at(pairs, i) != key);
        }
    }
    assert forall|k: Seq<u8>| pair_map(after).contains_key(k) == goal.contains_key(k) by {
        if holds(after, k) {
            let i = index_of(after, k);
            if i < last {
                assert(key_at(pairs, i) == k);
            }
        }
        if holds(pairs, k) {
            assert(key_at(after, index_of(pairs, k)) == k);
        }
        if k == key {
            assert(key_at(after, last) == k);
        }
    }
    assert forall|k: Seq<u8>| pair_map(after).contains_key(k) implies pair_map(after)[k]
        == goal[k] by {
        assert(holds(after, k));
        let i = index_of(after, k);
        lemma_pair_lookup(after, i);
        if i < last {
            assert(pairs[i].0 == k);
            assert(key_at(pairs, i) == k);
            lemma_pair_lookup(pairs, i);
        }
    }
    assert(pair_map(after) =~= goal);
}

/// Taking out the pair at one position takes its key out of the mapping.
proof fn lemma_pair_removed(pairs: Seq<(Seq<u8>, Seq<u8>)>, at: int)
    requires
        distinct(pairs),
        0 <= at < pairs.len(),
    ensures
        distinct(pairs.remove(at)),
        pair_map(pairs.remove(at)) == pair_map(pairs).remove(pairs[at].0),
{
    let key = pairs[at].0;
    let after = pairs.remove(at);
    let goal = pair_map(pairs).remove(key);
    assert forall|i: int, j: int| 0 <= i < j < after.len() implies #[trigger] key_at(after, i)
        != #[trigger] key_at(after, j) by {
        let pi = if i < at { i } else { i + 1 };
        let pj = if j < at { j } else { j + 1 };
        assert(key_at(pairs, pi) != key_at(pairs, pj));
    }
    assert forall|k: Seq<u8>| pair_map(after).contains_key(k) == goal.contains_key(k) by {
        if holds(after, k) {
            let i = index_of(after, k);
            let pi = if i < at { i } else { i + 1 };
            assert(key_at(pairs, pi) == k);
            if pi < at {
                assert(key_at(pairs, pi) != key_at(pairs, at));
            } else {
                assert(key_at(pairs, at) != key_at(pairs, pi));
            }
        }
        if holds(pairs, k) && k != key {
            let i = index_of(pairs, k);
            if i < at {
                assert(key_at(after, i) == k);
            } else {
                assert(key_at(after, i - 1) == k);
            }
        }
    }
    assert forall|k: Seq<u8>| pair_map(after).contains_key(k) implies pair_map(after)[k]
        == goal[k] by {
        assert(holds(after, k));
        let i = index_of(after, k);
        lemma_pair_lookup(after, i);
        let pi = if i < at { i } else { i + 1 };
        assert(after[i] == pairs[pi]);
        assert(key_at(pairs, pi) == k);
        lemma_pair_lookup(pairs, pi);
        if pi < at {
            assert(key_at(pairs, pi) != key_at(pairs, at));
        } else {
            assert(key_at(pairs, at) != key_at(pairs, pi));
        }
    }
    assert(pair_map(after) =~= goal);
}

/// One stored record with its key.
#[derive(Debug, PartialEq, Eq)]
struct StoredCall {
    call_id: CallId,
    record: Vec<u8>,
}

impl StoredCall {
    spec fn pair(self) -> (Seq<u8>, Seq<u8>) {
        (self.call_id@, self.record@)
    }
}

/// The keys with their records that a vector of stored calls holds.
spec fn pairs_of(calls: Seq<StoredCall>) -> Seq<(Seq<u8>, Seq<u8>)> {
    Seq::new(calls.len(), |i: int| calls[i].pair())
}

/// The records of the open calls, each under its call identifier. A call
/// identifier is held once at most.
#[derive(Debug, PartialEq, Eq)]
pub struct StateStore {
    calls: Vec<StoredCall>,
}

impl View for StateStore {
    type V = Map<Seq<u8>, Seq<u8>>;

    /// The mapping from call identifier to stored record.
    closed spec fn view(&self) -> Map<Seq<u8>, Seq<u8>> {
        pair_map(pairs_of(self.calls@))
    }
}

impl StateStore {
    #[verifier::type_invariant]
    spec fn keys_distinct(self) -> bool {
        distinct(pairs_of(self.calls@))
    }

    /// A store that holds nothing.
    pub fn new() -> (store: StateStore)
        ensures
            store@ == Map::<Seq<u8>, Seq<u8>>::empty(),
    {
        let store = StateStore { calls: Vec::new() };
        assert(store@ =~= Map::<Seq<u8>, Seq<u8>>::empty());
        store
    }

    /// Number of open calls.
    pub fn len(&self) -> (n: usize)
        ensures
            n == self@.len(),
            self@.dom().finite(),
    {
        proof {
            use_type_invariant(self);
            lemma_pair_count(pairs_of(self.calls@));
        }
        self.calls.len()
    }

    /// The position at which `call_id` is held, if it is.
    fn find(&self, call_id: &CallId) -> (found: Option<usize>)
        ensures
            match found {
                Some(i) => i < self.calls@.len() && self.calls@[i as int].call_id@ == call_id@,
                None => !holds(pairs_of(self.calls@), call_id@),
            },
    {
        let ghost pairs = pairs_of(self.calls@);
        let mut i: usize = 0;
        while i < self.calls.len()
            invariant
                0 <= i <= self.calls.len(),
                pairs == pairs_of(self.calls@),
                forall|j: int| 0 <= j < i ==> #[trigger] key_at(pairs, j) != call_id@,
            decreases self.calls.len() - i,
        {
            if self.calls[i].call_id.same_as(call_id) {
                return Some(i);
            }
            assert(key_at(pairs, i as int) == self.calls@[i as int].call_id@);
            i += 1;
        }
        proof {
            if holds(pairs, call_id@) {
                assert(key_at(pairs, index_of(pairs, call_id@)) != call_id@);
            }
        }
        None
    }

    /// The record stored under `call_id`, if there is one.
    pub fn get(&self, call_id: &CallId) -> (record: Option<&Vec<u8>>)
        ensures
            match record {
                Some(bytes) => self@.contains_key(call_id@) && bytes@ == self@[call_id@],
                None => !self@.contains_key(call_id@),
            },
    {
        proof {
            use_type_invariant(self);
        }
        match self.find(call_id) {
            Some(i) => {
                proof {
                    lemma_pair_lookup(pairs_of(self.calls@), i as int);
                }
                Some(&self.calls[i].record)
            },
            None => None,
        }
    }

    /// Whether a record is stored under `call_id`.
    pub fn contains(&self, call_id: &CallId) -> (held: bool)
        ensures
            held == self@.contains_key(call_id@),
    {
        self.get(call_id).is_some()
    }

    /// Stores `record` under `call_id`, in place of what was stored there.
    pub fn put(&mut self, call_id: CallId, record: Vec<u8>)
        ensures
            final(self)@ == old(self)@.insert(call_id@, record@),
    {
        proof {
            use_type_invariant(&*self);
        }
        let found = self.find(&call_id);
        let ghost before = pairs_of(self.calls@);
        let mut calls: Vec<StoredCall> = Vec::new();
        assert(pairs_of(calls@) =~= Seq::<(Seq<u8>, Seq<u8>)>::empty());
        core::mem::swap(&mut self.calls, &mut calls);
        let ghost new_record = record@;
        match found {
            Some(i) => {
                proof {
                    lemma_pair_replaced(before, i as int, new_record);
                }
                calls.set(i, StoredCall { call_id, record });
                assert(pairs_of(calls@) =~= before.update(i as int, (call_id@, new_record)));
            },
            None => {
                proof {
                    lemma_pair_appended(before, call_id@, new_record);
                }
                calls.push(StoredCall { call_id, record });
                assert(pairs_of(calls@) =~= before.push((call_id@, new_record)));
            },
        }
        self.calls = calls;
    }

    /// Removes what is stored under `call_id`, and says whether there was
    /// anything.
    pub fn delete(&mut self, call_id: &CallId) -> (removed: bool)
        ensures
            removed == old(self)@.contains_key(call_id@),
            final(self)@ == old(self)@.remove(call_id@),
    {
        proof {
            use_type_invariant(&*self);
        }
        match self.find(call_id) {
            Some(i) => {
                let ghost before = pairs_of(self.calls@);
                proof {
                    lemma_pair_lookup(before, i as int);
                    lemma_pair_removed(before, i as int);
                }
                let mut calls: Vec<StoredCall> = Vec::new();
                assert(pairs_of(calls@) =~= Seq::<(Seq<u8>, Seq<u8>)>::empty());
                core::mem::swap(&mut self.calls, &mut calls);
                let _ = calls.remove(i);
                assert(pairs_of(calls@) =~= before.remove(i as int));
                self.calls = calls;
                true
            },
            None => {
                assert(self@ =~= self@.remove(call_id@));
                false
            },
        }
    }
}

/// Where no key is held twice, the mapping has as many keys as the list has
/// pairs.
proof fn lemma_pair_count(pairs: Seq<(Seq<u8>, Seq<u8>)>)
    requires
        distinct(pairs),
    ensures
        pair_map(pairs).dom().finite(),
        pair_map(pairs).len() == pairs.len(),
    decreases pairs.len(),
{
    if pairs.len() == 0 {
        assert(pair_map(pairs) =~= Map::<Seq<u8>, Seq<u8>>::empty());
    } else {
        let last = pairs.len() - 1;
        let front = pairs.drop_last();
        assert(front =~= pairs.remove(last));
        lemma_pair_lookup(pairs, last);
        lemma_pair_removed(pairs, last);
        lemma_pair_count(front);
        assert(pair_map(pairs).dom() =~= pair_map(front).dom().insert(pairs[last].0));
    }
}

} // verus!
