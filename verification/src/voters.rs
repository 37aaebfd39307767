//! The voters of one call: each voter's latest vote, kept in the order of the
//! voters' identities.

use vstd::prelude::*;
use crate::identity::{be_value, lemma_be_value_injective, place, AccountId, Placement};
use crate::vote::Vote;

verus! {

/// The voter listed at position `i`.
pub open spec fn voter_at(ballots: Seq<(Seq<u8>, Vote)>, i: int) -> Seq<u8> {
    ballots[i].0
}

/// The place in the order of accounts of the voter listed at position `i`.
pub open spec fn rank_at(ballots: Seq<(Seq<u8>, Vote)>, i: int) -> nat {
    be_value(ballots[i].0)
}

/// True when every voter is a full-length identity and the voters come in
/// strictly rising order, so that none occurs twice.
pub open spec fn ascending(ballots: Seq<(Seq<u8>, Vote)>) -> bool {
    &&& forall|i: int| 0 <= i < ballots.len() ==> (#[trigger] voter_at(ballots, i)).len() == 32
    &&& forall|i: int, j: int|
        0 <= i < j < ballots.len() ==> #[trigger] rank_at(ballots, i) < #[trigger] rank_at(
            ballots,
            j,
        )
}

/// True when `voter` is listed.
pub open spec fn listed(ballots: Seq<(Seq<u8>, Vote)>, voter: Seq<u8>) -> bool {
    exists|i: int| 0 <= i < ballots.len() && #[trigger] voter_at(ballots, i) == voter
}

/// A position at which `voter` is listed, if they are.
pub open spec fn position(ballots: Seq<(Seq<u8>, Vote)>, voter: Seq<u8>) -> int {
    choose|i: int| 0 <= i < ballots.len() && #[trigger] voter_at(ballots, i) == voter
}

/// The mapping that a list of ballots stands for: each listed voter to the
/// vote listed with them.
pub open spec fn ballot_map(ballots: Seq<(Seq<u8>, Vote)>) -> Map<Seq<u8>, Vote> {
    Map::new(
        |voter: Seq<u8>| listed(ballots, voter),
        |voter: Seq<u8>| ballots[position(ballots, voter)].1,
    )
}

/// The position at which `voter` stands, or belongs, in a rising list.
pub open spec fn slot(ballots: Seq<(Seq<u8>, Vote)>, voter: Seq<u8>) -> int
    decreases ballots.len(),
{
    if ballots.len() == 0 {
        0
    } else if be_value(ballots.last().0) < be_value(voter) {
        ballots.len() as int
    } else {
        slot(ballots.drop_last(), voter)
    }
}

/// The list after `voter` has cast `vote`: their earlier vote, if any, is
/// replaced; a new voter is put in at their place in the order.
pub open spec fn with_ballot(ballots: Seq<(Seq<u8>, Vote)>, voter: Seq<u8>, vote: Vote) -> Seq<
    (Seq<u8>, Vote),
> {
    let at = slot(ballots, voter);
    if at < ballots.len() && ballots[at].0 == voter {
        ballots.update(at, (voter, vote))
    } else {
        ballots.insert(at, (voter, vote))
    }
}

/// In a rising list a voter is listed at one position only.
pub proof fn lemma_one_position(ballots: Seq<(Seq<u8>, Vote)>, i: int, j: int)
    requires
        ascending(ballots),
        0 <= i < ballots.len(),
        0 <= j < ballots.len(),
        ballots[i].0 == ballots[j].0,
    ensures
        i == j,
{
    if i < j {
        assert(rank_at(ballots, i) < rank_at(ballots, j));
    } else if j < i {
        assert(rank_at(ballots, j) < rank_at(ballots, i));
    }
}

/// In a rising list a listed voter maps to the vote listed with them.
pub proof fn lemma_ballot_lookup(ballots: Seq<(Seq<u8>, Vote)>, i: int)
    requires
        ascending(ballots),
        0 <= i < ballots.len(),
    ensures
        ballot_map(ballots).contains_key(ballots[i].0),
        ballot_map(ballots)[ballots[i].0] == ballots[i].1,
{
    let voter = ballots[i].0;
    assert(voter_at(ballots, i) == voter);
    assert(listed(ballots, voter));
    lemma_one_position(ballots, i, position(ballots, voter));
}

/// A rising list without its last ballot is rising.
pub proof fn lemma_front_ascending(ballots: Seq<(Seq<u8>, Vote)>)
    requires
        ascending(ballots),
        ballots.len() > 0,
    ensures
        ascending(ballots.drop_last()),
{
    let front = ballots.drop_last();
    assert forall|i: int| 0 <= i < front.len() implies (#[trigger] voter_at(front, i)).len()
        == 32 by {
        assert(voter_at(ballots, i).len() == 32);
    }
    assert forall|i: int, j: int| 0 <= i < j < front.len() implies #[trigger] rank_at(front, i)
        < #[trigger] rank_at(front, j) by {
        assert(rank_at(ballots, i) < rank_at(ballots, j));
    }
}

/// `slot` splits a rising list: all before it rank below `voter`, all from
/// it on do not.
pub proof fn lemma_slot_splits(ballots: Seq<(Seq<u8>, Vote)>, voter: Seq<u8>)
    requires
        ascending(ballots),
    ensures
        0 <= slot(ballots, voter) <= ballots.len(),
        forall|j: int|
            0 <= j < slot(ballots, voter) ==> #[trigger] rank_at(ballots, j) < be_value(voter),
        forall|j: int|
            slot(ballots, voter) <= j < ballots.len() ==> #[trigger] rank_at(ballots, j)
                >= be_value(voter),
    decreases ballots.len(),
{
    if ballots.len() > 0 {
        let front = ballots.drop_last();
        let last = ballots.len() - 1;
        lemma_front_ascending(ballots);
        lemma_slot_splits(front, voter);
        if be_value(ballots.last().0) < be_value(voter) {
            assert forall|j: int| 0 <= j < ballots.len() implies #[trigger] rank_at(ballots, j)
                < be_value(voter) by {
                if j < last {
                    assert(rank_at(ballots, j) < rank_at(ballots, last));
                }
            }
        } else {
            assert forall|j: int| slot(ballots, voter) <= j < ballots.len() implies #[trigger] rank_at(
                ballots,
                j,
            ) >= be_value(voter) by {
                if j < last {
                    assert(rank_at(front, j) >= be_value(voter));
                }
            }
            assert forall|j: int| 0 <= j < slot(ballots, voter) implies #[trigger] rank_at(
                ballots,
                j,
            ) < be_value(voter) by {
                assert(rank_at(front, j) < be_value(voter));
            }
        }
    }
}

/// A position that splits a rising list as `slot` does is `slot`.
pub proof fn lemma_slot_found(ballots: Seq<(Seq<u8>, Vote)>, voter: Seq<u8>, at: int)
    requires
        ascending(ballots),
        0 <= at <= ballots.len(),
        forall|j: int| 0 <= j < at ==> #[trigger] rank_at(ballots, j) < be_value(voter),
        at < ballots.len() ==> rank_at(ballots, at) >= be_value(voter),
    ensures
        slot(ballots, voter) == at,
{
    lemma_slot_splits(ballots, voter);
    let s = slot(ballots, voter);
    if at < s {
        assert(rank_at(ballots, at) < be_value(voter));
    } else if s < at {
        assert(rank_at(ballots, s) < be_value(voter));
    }
}

/// Replacing the vote at one position keeps a rising list rising and changes
/// the mapping at that voter only.
pub proof fn lemma_replaced(ballots: Seq<(Seq<u8>, Vote)>, at: int, vote: Vote)
    requires
        ascending(ballots),
        0 <= at < ballots.len(),
    ensures
        ascending(ballots.update(at, (ballots[at].0, vote))),
        ballot_map(ballots.update(at, (ballots[at].0, vote))) == ballot_map(ballots).insert(
            ballots[at].0,
            vote,
        ),
{
    let voter = ballots[at].0;
    let after = ballots.update(at, (voter, vote));
    assert forall|i: int| 0 <= i < after.len() implies (#[trigger] voter_at(after, i)).len()
        == 32 by {
        assert(voter_at(ballots, i).len() == 32);
    }
    assert forall|i: int, j: int| 0 <= i < j < after.len() implies #[trigger] rank_at(after, i)
        < #[trigger] rank_at(after, j) by {
        assert(rank_at(ballots, i) < rank_at(ballots, j));
    }
    let goal = ballot_map(ballots).insert(voter, vote);
    assert forall|k: Seq<u8>| ballot_map(after).contains_key(k) == goal.contains_key(k) by {
        if listed(after, k) {
            let i = position(after, k);
            assert(voter_at(ballots, i) == k);
        }
        if listed(ballots, k) {
            let i = position(ballots, k);
            assert(voter_at(after, i) == k);
        }
        if k == voter {
            assert(voter_at(after, at) == k);
        }
    }
    assert forall|k: Seq<u8>| ballot_map(after).contains_key(k) implies ballot_map(after)[k]
        == goal[k] by {
        assert(listed(after, k));
        let i = position(after, k);
        lemma_ballot_lookup(after, i);
        if i != at {
            assert(ballots[i].0 == k);
            lemma_ballot_lookup(ballots, i);
            if k == voter {
                lemma_one_position(ballots, i, at);
            }
        }
    }
    assert(ballot_map(after) =~= goal);
}

/// Putting a new voter in between those that rank below and those that rank
/// above keeps a rising list rising and adds that voter to the mapping.
pub proof fn lemma_put_in(ballots: Seq<(Seq<u8>, Vote)>, at: int, voter: Seq<u8>, vote: Vote)
    requires
        ascending(ballots),
        voter.len() == 32,
        0 <= at <= ballots.len(),
        forall|j: int| 0 <= j < at ==> #[trigger] rank_at(ballots, j) < be_value(voter),
        forall|j: int| at <= j < ballots.len() ==> #[trigger] rank_at(ballots, j) > be_value(voter),
    ensures
        ascending(ballots.insert(at, (voter, vote))),
        ballot_map(ballots.insert(at, (voter, vote))) == ballot_map(ballots).insert(voter, vote),
{
    let after = ballots.insert(at, (voter, vote));
    assert forall|i: int| 0 <= i < after.len() implies (#[trigger] voter_at(after, i)).len()
        == 32 by {
        if i < at {
            assert(voter_at(ballots, i).len() == 32);
        } else if i > at {
            assert(voter_at(ballots, i - 1).len() == 32);
        }
    }
    assert forall|i: int, j: int| 0 <= i < j < after.len() implies #[trigger] rank_at(after, i)
        < #[trigger] rank_at(after, j) by {
        let bi = if i < at { i } else { i - 1 };
        let bj = if j < at { j } else { j - 1 };
        if i != at && j != at {
            assert(rank_at(ballots, bi) < rank_at(ballots, bj));
        } else if i == at {
            assert(rank_at(ballots, bj) > be_value(voter));
        } else {
            assert(rank_at(ballots, bi) < be_value(voter));
        }
    }
    let goal = ballot_map(ballots).insert(voter, vote);
    assert forall|k: Seq<u8>| ballot_map(after).contains_key(k) == goal.contains_key(k) by {
        if listed(after, k) {
            let i = position(after, k);
            if i < at {
                assert(voter_at(ballots, i) == k);
            } else if i > at {
                assert(voter_at(ballots, i - 1) == k);
            }
        }
        if listed(ballots, k) {
            let i = position(ballots, k);
            if i < at {
                assert(voter_at(after, i) == k);
            } else {
                assert(voter_at(after, i + 1) == k);
            }
        }
        if k == voter {
            assert(voter_at(after, at) == k);
        }
    }
    assert forall|k: Seq<u8>| ballot_map(after).contains_key(k) implies ballot_map(after)[k]
        == goal[k] by {
        assert(listed(after, k));
        let i = position(after, k);
        lemma_ballot_lookup(after, i);
        if i < at {
            assert(ballots[i].0 == k);
            lemma_ballot_lookup(ballots, i);
            assert(rank_at(ballots, i) < be_value(voter));
        } else if i > at {
            assert(ballots[i - 1].0 == k);
            lemma_ballot_lookup(ballots, i - 1);
            assert(rank_at(ballots, i - 1) > be_value(voter));
        }
    }
    assert(ballot_map(after) =~= goal);
}

/// Casting a vote keeps the list rising and changes the mapping at that one
/// voter only.
pub proof fn lemma_with_ballot(ballots: Seq<(Seq<u8>, Vote)>, voter: Seq<u8>, vote: Vote)
    requires
        ascending(ballots),
        voter.len() == 32,
    ensures
        ascending(with_ballot(ballots, voter, vote)),
        ballot_map(with_ballot(ballots, voter, vote)) == ballot_map(ballots).insert(voter, vote),
        with_ballot(ballots, voter, vote).len() <= ballots.len() + 1,
{
    lemma_slot_splits(ballots, voter);
    let at = slot(ballots, voter);
    if at < ballots.len() && ballots[at].0 == voter {
        lemma_replaced(ballots, at, vote);
    } else {
        assert forall|j: int| at <= j < ballots.len() implies #[trigger] rank_at(ballots, j)
            > be_value(voter) by {
            if j == at {
                assert(voter_at(ballots, at).len() == 32);
                if rank_at(ballots, at) == be_value(voter) {
                    lemma_be_value_injective(ballots[at].0, voter);
                }
            } else {
                assert(rank_at(ballots, at) < rank_at(ballots, j));
            }
        }
        lemma_put_in(ballots, at, voter, vote);
    }
}

/// The mapping after the votes of `cast` have been recorded one by one, in
/// their order, on top of `start`.
pub open spec fn after_votes(start: Map<Seq<u8>, Vote>, cast: Seq<(Seq<u8>, Vote)>) -> Map<
    Seq<u8>,
    Vote,
>
    decreases cast.len(),
{
    if cast.len() == 0 {
        start
    } else {
        after_votes(start, cast.drop_last()).insert(cast.last().0, cast.last().1)
    }
}

/// The list after the votes of `cast` have been recorded one by one.
pub open spec fn ballots_after(start: Seq<(Seq<u8>, Vote)>, cast: Seq<(Seq<u8>, Vote)>) -> Seq<
    (Seq<u8>, Vote),
>
    decreases cast.len(),
{
    if cast.len() == 0 {
        start
    } else {
        with_ballot(ballots_after(start, cast.drop_last()), cast.last().0, cast.last().1)
    }
}

/// True when no later vote in `cast` comes from the voter of the vote at `i`.
pub open spec fn is_last_of_voter(cast: Seq<(Seq<u8>, Vote)>, i: int) -> bool {
    &&& 0 <= i < cast.len()
    &&& forall|j: int| i < j < cast.len() ==> #[trigger] voter_at(cast, j) != cast[i].0
}

proof fn lemma_votes_domain(start: Map<Seq<u8>, Vote>, cast: Seq<(Seq<u8>, Vote)>, voter: Seq<u8>)
    ensures
        after_votes(start, cast).contains_key(voter) <==> (start.contains_key(voter) || listed(
            cast,
            voter,
        )),
    decreases cast.len(),
{
    if cast.len() > 0 {
        let earlier = cast.drop_last();
        let last = cast.len() - 1;
        lemma_votes_domain(start, earlier, voter);
        if listed(earlier, voter) {
            assert(voter_at(cast, position(earlier, voter)) == voter);
        }
        if listed(cast, voter) {
            let i = position(cast, voter);
            if i < last {
                assert(voter_at(earlier, i) == voter);
            }
        }
        if voter == cast.last().0 {
            assert(voter_at(cast, last) == voter);
        }
    }
}

proof fn lemma_votes_last(start: Map<Seq<u8>, Vote>, cast: Seq<(Seq<u8>, Vote)>, i: int)
    requires
        is_last_of_voter(cast, i),
    ensures
        after_votes(start, cast)[cast[i].0] == cast[i].1,
    decreases cast.len(),
{
    let last = cast.len() - 1;
    if i < last {
        let earlier = cast.drop_last();
        assert(voter_at(cast, last) != cast[i].0);
        assert forall|j: int| i < j < earlier.len() implies #[trigger] voter_at(earlier, j)
            != earlier[i].0 by {
            assert(voter_at(cast, j) != cast[i].0);
        }
        lemma_votes_last(start, earlier, i);
    }
}

proof fn lemma_votes_untouched(
    start: Map<Seq<u8>, Vote>,
    cast: Seq<(Seq<u8>, Vote)>,
    voter: Seq<u8>,
)
    requires
        !listed(cast, voter),
    ensures
        after_votes(start, cast)[voter] == start[voter],
    decreases cast.len(),
{
    if cast.len() > 0 {
        let earlier = cast.drop_last();
        let last = cast.len() - 1;
        assert(voter_at(cast, last) != voter);
        if listed(earlier, voter) {
            assert(voter_at(cast, position(earlier, voter)) == voter);
        }
        lemma_votes_untouched(start, earlier, voter);
    }
}

/// Last write wins. After any sequence of votes the mapping holds exactly the
/// voters it held before and those who voted; each who voted maps to the last
/// vote they cast, and each who did not keeps the vote they had.
pub proof fn lemma_last_vote_wins(start: Map<Seq<u8>, Vote>, cast: Seq<(Seq<u8>, Vote)>)
    ensures
        forall|voter: Seq<u8>| #[trigger]
            after_votes(start, cast).contains_key(voter) <==> (start.contains_key(voter) || listed(
                cast,
                voter,
            )),
        forall|i: int| #[trigger]
            is_last_of_voter(cast, i) ==> after_votes(start, cast)[cast[i].0] == cast[i].1,
        forall|voter: Seq<u8>|
            !#[trigger] listed(cast, voter) ==> after_votes(start, cast)[voter] == start[voter],
{
    assert forall|voter: Seq<u8>| #[trigger]
        after_votes(start, cast).contains_key(voter) <==> (start.contains_key(voter) || listed(
            cast,
            voter,
        )) by {
        lemma_votes_domain(start, cast, voter);
    }
    assert forall|i: int| #[trigger] is_last_of_voter(cast, i) implies after_votes(
        start,
        cast,
    )[cast[i].0] == cast[i].1 by {
        lemma_votes_last(start, cast, i);
    }
    assert forall|voter: Seq<u8>| !#[trigger] listed(cast, voter) implies after_votes(
        start,
        cast,
    )[voter] == start[voter] by {
        lemma_votes_untouched(start, cast, voter);
    }
}

/// Recording votes one by one on a rising list keeps it rising, and the list
/// then stands for the mapping that `after_votes` gives: no voter is listed
/// twice, however often they voted.
pub proof fn lemma_ballots_after(start: Seq<(Seq<u8>, Vote)>, cast: Seq<(Seq<u8>, Vote)>)
    requires
        ascending(start),
        forall|i: int| 0 <= i < cast.len() ==> (#[trigger] voter_at(cast, i)).len() == 32,
    ensures
        ascending(ballots_after(start, cast)),
        ballot_map(ballots_after(start, cast)) == after_votes(ballot_map(start), cast),
        ballots_after(start, cast).len() <= start.len() + cast.len(),
    decreases cast.len(),
{
    if cast.len() > 0 {
        let earlier = cast.drop_last();
        assert forall|i: int| 0 <= i < earlier.len() implies (#[trigger] voter_at(
            earlier,
            i,
        )).len() == 32 by {
            assert(voter_at(cast, i).len() == 32);
        }
        lemma_ballots_after(start, earlier);
        assert(voter_at(cast, cast.len() - 1).len() == 32);
        lemma_with_ballot(ballots_after(start, earlier), cast.last().0, cast.last().1);
    }
}

/// One voter with their latest vote.
#[derive(Clone, Copy, Debug, PartialEq, Eq)]
pub struct VoterEntry {
    pub voter: AccountId,
    pub vote: Vote,
}

impl VoterEntry {
    /// The entry as a pair of plain values.
    pub open spec fn ballot(self) -> (Seq<u8>, Vote) {
        (self.voter@, self.vote)
    }
}

/// The ballots that a vector of entries holds, in its order.
pub open spec fn ballots_of(entries: Seq<VoterEntry>) -> Seq<(Seq<u8>, Vote)> {
    Seq::new(entries.len(), |i: int| entries[i].ballot())
}

/// Each voter's latest vote. No voter occurs twice, and the voters are held
/// in rising order of identity.
#[derive(Debug, PartialEq, Eq)]
pub struct VoterMap {
    entries: Vec<VoterEntry>,
}

impl View for VoterMap {
    type V = Map<Seq<u8>, Vote>;

    /// The mapping from voter to latest vote.
    open spec fn view(&self) -> Map<Seq<u8>, Vote> {
        ballot_map(self.ballots())
    }
}

impl Clone for VoterMap {
    fn clone(&self) -> (copy: VoterMap)
        ensures
            copy.ballots() == self.ballots(),
            copy@ == self@,
    {
        proof {
            use_type_invariant(self);
        }
        let mut entries: Vec<VoterEntry> = Vec::new();
        let mut i: usize = 0;
        while i < self.entries.len()
            invariant
                0 <= i <= self.entries.len(),
                entries@ == self.entries@.take(i as int),
            decreases self.entries.len() - i,
        {
            entries.push(self.entries[i]);
            assert(entries@ =~= self.entries@.take(i + 1));
            i += 1;
        }
        assert(entries@ =~= self.entries@);
        VoterMap { entries }
    }
}

impl VoterMap {
    #[verifier::type_invariant]
    spec fn rising(self) -> bool {
        ascending(ballots_of(self.entries@))
    }

    /// The voters with their votes, in rising order of identity.
    pub closed spec fn ballots(&self) -> Seq<(Seq<u8>, Vote)> {
        ballots_of(self.entries@)
    }

    /// A map with no voter.
    pub fn new() -> (voters: VoterMap)
        ensures
            voters.ballots() == Seq::<(Seq<u8>, Vote)>::empty(),
            voters@ == Map::<Seq<u8>, Vote>::empty(),
    {
        let voters = VoterMap { entries: Vec::new() };
        assert(voters.ballots() =~= Seq::<(Seq<u8>, Vote)>::empty());
        assert(voters@ =~= Map::<Seq<u8>, Vote>::empty());
        voters
    }

    /// The ballots of any voter map are rising.
    pub fn ballots_rise(&self)
        ensures
            ascending(self.ballots()),
    {
        proof {
            use_type_invariant(self);
        }
    }

    /// Number of voters.
    pub fn len(&self) -> (n: usize)
        ensures
            n == self.ballots().len(),
    {
        self.entries.len()
    }

    /// The voter at position `i` of the rising order, with their vote.
    pub fn entry(&self, i: usize) -> (entry: VoterEntry)
        requires
            i < self.ballots().len(),
        ensures
            entry.ballot() == self.ballots()[i as int],
    {
        self.entries[i]
    }

    /// The latest vote of `voter`, if they have voted.
    pub fn get(&self, voter: &AccountId) -> (vote: Option<Vote>)
        ensures
            vote == (if self@.contains_key(voter@) {
                Some(self@[voter@])
            } else {
                None
            }),
    {
        proof {
            use_type_invariant(self);
        }
        let mut i: usize = 0;
        while i < self.entries.len()
            invariant
                0 <= i <= self.entries.len(),
                ascending(self.ballots()),
                forall|j: int| 0 <= j < i ==> #[trigger] voter_at(self.ballots(), j) != voter@,
            decreases self.entries.len() - i,
        {
            if self.entries[i].voter.same_as(voter) {
                proof {
                    assert(self.ballots()[i as int].0 == voter@);
                    lemma_ballot_lookup(self.ballots(), i as int);
                }
                return Some(self.entries[i].vote);
            }
            i += 1;
        }
        proof {
            if listed(self.ballots(), voter@) {
                assert(voter_at(self.ballots(), position(self.ballots(), voter@)) != voter@);
            }
        }
        None
    }

    /// Appends `voter` with `vote` if `voter` ranks above every voter held,
    /// and says whether it did. Otherwise the map stays as it is.
    pub fn push_rising(&mut self, voter: AccountId, vote: Vote) -> (pushed: bool)
        ensures
            pushed == (old(self).ballots().len() == 0 || be_value(old(self).ballots().last().0)
                < be_value(voter@)),
            pushed ==> final(self).ballots() == old(self).ballots().push((voter@, vote)),
            !pushed ==> final(self).ballots() == old(self).ballots(),
    {
        proof {
            use_type_invariant(&*self);
        }
        let ghost before = self.ballots();
        let n = self.entries.len();
        if n > 0 {
            assert(before[n - 1].0 == self.entries[n - 1].voter@);
            match place(&self.entries[n - 1].voter.bytes, &voter.bytes) {
                Placement::Before => {},
                _ => {
                    return false;
                },
            }
        }
        let mut entries: Vec<VoterEntry> = Vec::new();
        assert(ballots_of(entries@) =~= Seq::<(Seq<u8>, Vote)>::empty());
        core::mem::swap(&mut self.entries, &mut entries);
        entries.push(VoterEntry { voter, vote });
        proof {
            let after = ballots_of(entries@);
            assert(after =~= before.push((voter@, vote)));
            assert forall|i: int| 0 <= i < after.len() implies (#[trigger] voter_at(
                after,
                i,
            )).len() == 32 by {
                if i < n {
                    assert(voter_at(before, i).len() == 32);
                }
            }
            assert forall|i: int, j: int| 0 <= i < j < after.len() implies #[trigger] rank_at(
                after,
                i,
            ) < #[trigger] rank_at(after, j) by {
                if j < n {
                    assert(rank_at(before, i) < rank_at(before, j));
                } else if i < n - 1 {
                    assert(rank_at(before, i) < rank_at(before, n - 1));
                }
            }
        }
        self.entries = entries;
        true
    }

    /// Records that `voter` cast `vote`: it replaces their earlier vote, if
    /// there is one.
    pub fn insert(&mut self, voter: AccountId, vote: Vote)
        ensures
            final(self).ballots() == with_ballot(old(self).ballots(), voter@, vote),
            final(self)@ == old(self)@.insert(voter@, vote),
    {
        proof {
            use_type_invariant(&*self);
            lemma_with_ballot(self.ballots(), voter@, vote);
        }
        let ghost before = self.ballots();
        let entry = VoterEntry { voter, vote };
        let mut entries: Vec<VoterEntry> = Vec::new();
        assert(ballots_of(entries@) =~= Seq::<(Seq<u8>, Vote)>::empty());
        core::mem::swap(&mut self.entries, &mut entries);
        let mut i: usize = 0;
        let mut found = false;
        while i < entries.len()
            invariant_except_break
                !found,
            invariant
                0 <= i <= entries.len(),
                ballots_of(entries@) == before,
                ascending(before),
                forall|j: int| 0 <= j < i ==> #[trigger] rank_at(before, j) < be_value(voter@),
            ensures
                found ==> i < entries.len() && before[i as int].0 == voter@,
                !found && i < entries.len() ==> rank_at(before, i as int) > be_value(voter@),
            decreases entries.len() - i,
        {
            assert(before[i as int].0 == entries[i as int].voter@);
            assert(rank_at(before, i as int) == be_value(entries[i as int].voter@));
            match place(&entries[i].voter.bytes, &voter.bytes) {
                Placement::Before => {
                    i += 1;
                },
                Placement::Same => {
                    found = true;
                    break ;
                },
                Placement::After => {
                    break ;
                },
            }
        }
        proof {
            lemma_slot_found(before, voter@, i as int);
        }
        if found {
            entries.set(i, entry);
        } else {
            entries.insert(i, entry);
        }
        assert(ballots_of(entries@) =~= with_ballot(before, voter@, vote));
        self.entries = entries;
    }
}

} // verus!
