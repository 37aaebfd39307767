//! The stored form of a call's state.
//!
//! A record is keyed by the call identifier and holds, in this order: one
//! byte for the layout version; the thread handle, 8 bytes little-endian; the
//! proposer, 32 bytes; the number of voters, 8 bytes little-endian; then for
//! each voter, in rising order of identity, the voter (32 bytes), one byte
//! for the stance (0 aye, 1 nay) and the weight, 16 bytes little-endian.

use vstd::prelude::*;
use vstd::bytes::{
    lemma_auto_spec_u128_to_from_le_bytes, lemma_auto_spec_u64_to_from_le_bytes,
    spec_u128_from_le_bytes, spec_u128_to_le_bytes, spec_u64_from_le_bytes, spec_u64_to_le_bytes,
    u128_from_le_bytes, u128_to_le_bytes, u64_from_le_bytes, u64_to_le_bytes,
};
use vstd::slice::slice_subrange;
use crate::identity::{be_value, AccountId, CallId};
use crate::state::CallState;
use crate::vote::Vote;
use crate::voters::{ascending, rank_at, voter_at, VoterMap};

verus! {

/// The layout version that this library writes and reads.
pub const LAYOUT_VERSION: u8 = 1;

/// Bytes before the first voter: version, handle, proposer and count.
pub const HEADER_LEN: usize = 49;

/// Bytes that each voter takes: identity, stance and weight.
pub const BALLOT_LEN: usize = 49;

/// Why stored bytes are not a record.
#[derive(Clone, Copy, Debug, PartialEq, Eq, Structural)]
pub enum DecodeError {
    /// The bytes end before the record does.
    Truncated,
    /// The first byte names a layout that is not known.
    UnknownVersion,
    /// A stance byte is neither 0 nor 1.
    InvalidStance,
    /// A voter does not rank above the voter before.
    VotersNotRising,
    /// Bytes follow the last voter.
    TrailingBytes,
}

pub open spec fn stance_byte(vote: Vote) -> u8 {
    match vote {
        Vote::Aye(_) => 0,
        Vote::Nay(_) => 1,
    }
}

/// The bytes of one voter with their vote.
pub open spec fn ballot_bytes(ballot: (Seq<u8>, Vote)) -> Seq<u8> {
    ballot.0 + seq![stance_byte(ballot.1)] + spec_u128_to_le_bytes(ballot.1.weight())
}

/// The bytes of a list of voters, one after the other.
pub open spec fn ballots_bytes(ballots: Seq<(Seq<u8>, Vote)>) -> Seq<u8>
    decreases ballots.len(),
{
    if ballots.len() == 0 {
        Seq::empty()
    } else {
        ballots_bytes(ballots.drop_last()) + ballot_bytes(ballots.last())
    }
}

/// The record of a call with this thread handle, proposer and voters.
pub open spec fn record_bytes(
    thread_handle: u64,
    proposer: Seq<u8>,
    ballots: Seq<(Seq<u8>, Vote)>,
) -> Seq<u8> {
    seq![LAYOUT_VERSION] + spec_u64_to_le_bytes(thread_handle) + proposer + spec_u64_to_le_bytes(
        ballots.len() as u64,
    ) + ballots_bytes(ballots)
}

/// The thread handle that a record holds.
pub open spec fn record_handle(bytes: Seq<u8>) -> u64 {
    spec_u64_from_le_bytes(bytes.subrange(1, 9))
}

/// The proposer that a record holds.
pub open spec fn record_proposer(bytes: Seq<u8>) -> Seq<u8> {
    bytes.subrange(9, 41)
}

/// The number of voters that a record announces.
pub open spec fn record_count(bytes: Seq<u8>) -> u64 {
    spec_u64_from_le_bytes(bytes.subrange(41, 49))
}

/// The voter that a record holds at position `i`.
pub open spec fn record_voter(bytes: Seq<u8>, i: int) -> Seq<u8> {
    bytes.subrange(49 + 49 * i, 49 + 49 * i + 32)
}

/// The stance byte that a record holds at position `i`.
pub open spec fn record_stance(bytes: Seq<u8>, i: int) -> u8 {
    bytes[49 + 49 * i + 32]
}

/// The weight that a record holds at position `i`.
pub open spec fn record_weight(bytes: Seq<u8>, i: int) -> u128 {
    spec_u128_from_le_bytes(bytes.subrange(49 + 49 * i + 33, 49 + 49 * i + 49))
}

/// The voter and vote that a record holds at position `i`.
pub open spec fn record_ballot(bytes: Seq<u8>, i: int) -> (Seq<u8>, Vote) {
    (
        record_voter(bytes, i),
        if record_stance(bytes, i) == 0 {
            Vote::Aye(record_weight(bytes, i))
        } else {
            Vote::Nay(record_weight(bytes, i))
        },
    )
}

/// The voters that a record holds, in its order.
pub open spec fn record_ballots(bytes: Seq<u8>) -> Seq<(Seq<u8>, Vote)> {
    Seq::new(record_count(bytes) as nat, |i: int| record_ballot(bytes, i))
}

/// What is wrong with the voter at position `i`, if anything: a stance byte
/// out of range, or a voter that does not rank above the one before.
pub open spec fn ballot_fault(bytes: Seq<u8>, i: int) -> Option<DecodeError> {
    if record_stance(bytes, i) > 1 {
        Some(DecodeError::InvalidStance)
    } else if i > 0 && be_value(record_voter(bytes, i - 1)) >= be_value(record_voter(bytes, i)) {
        Some(DecodeError::VotersNotRising)
    } else {
        None
    }
}

/// The first fault among the first `n` voters, if there is one.
pub open spec fn first_ballot_fault(bytes: Seq<u8>, n: int) -> Option<DecodeError>
    decreases n,
{
    if n <= 0 {
        None
    } else {
        match first_ballot_fault(bytes, n - 1) {
            Some(fault) => Some(fault),
            None => ballot_fault(bytes, n - 1),
        }
    }
}

/// Why `bytes` is not a record, or `None` if it is one.
pub open spec fn record_fault(bytes: Seq<u8>) -> Option<DecodeError> {
    if bytes.len() == 0 {
        Some(DecodeError::Truncated)
    } else if bytes[0] != LAYOUT_VERSION {
        Some(DecodeError::UnknownVersion)
    } else if bytes.len() < 49 {
        Some(DecodeError::Truncated)
    } else if bytes.len() < 49 + 49 * record_count(bytes) {
        Some(DecodeError::Truncated)
    } else if bytes.len() > 49 + 49 * record_count(bytes) {
        Some(DecodeError::TrailingBytes)
    } else {
        first_ballot_fault(bytes, record_count(bytes) as int)
    }
}

impl CallState {
    /// The stored form of this state.
    pub open spec fn record(&self) -> Seq<u8> {
        record_bytes(self.thread_handle, self.proposer@, self.voters.ballots())
    }
}

/// Appends `source` to `out`.
pub fn push_all(out: &mut Vec<u8>, source: &[u8])
    ensures
        final(out)@ == old(out)@ + source@,
{
    let mut i: usize = 0;
    while i < source.len()
        invariant
            0 <= i <= source.len(),
            out@ == old(out)@ + source@.take(i as int),
        decreases source.len() - i,
    {
        out.push(source[i]);
        assert(out@ =~= old(out)@ + source@.take(i + 1));
        i += 1;
    }
    assert(source@.take(source.len() as int) =~= source@);
}

/// Appends the bytes of one voter with their vote.
fn push_ballot(out: &mut Vec<u8>, voter: &AccountId, vote: Vote)
    ensures
        final(out)@ == old(out)@ + ballot_bytes((voter@, vote)),
{
    push_all(out, voter.bytes.as_slice());
    out.push(
        match vote {
            Vote::Aye(_) => 0u8,
            Vote::Nay(_) => 1u8,
        },
    );
    let weight = u128_to_le_bytes(vote.raw_weight());
    push_all(out, weight.as_slice());
    assert(out@ =~= old(out)@ + ballot_bytes((voter@, vote)));
}

/// Writes the stored form of `state`.
pub fn encode(state: &CallState) -> (bytes: Vec<u8>)
    ensures
        bytes@ == state.record(),
{
    let mut out: Vec<u8> = Vec::new();
    out.push(LAYOUT_VERSION);
    let handle = u64_to_le_bytes(state.thread_handle);
    push_all(&mut out, handle.as_slice());
    push_all(&mut out, state.proposer.bytes.as_slice());
    let n = state.voters.len();
    let count = u64_to_le_bytes(n as u64);
    push_all(&mut out, count.as_slice());
    let ghost head = out@;
    let ghost ballots = state.voters.ballots();
    assert(head =~= seq![LAYOUT_VERSION] + spec_u64_to_le_bytes(state.thread_handle)
        + state.proposer@ + spec_u64_to_le_bytes(ballots.len() as u64));
    let mut i: usize = 0;
    while i < n
        invariant
            0 <= i <= n,
            n == ballots.len(),
            ballots == state.voters.ballots(),
            out@ == head + ballots_bytes(ballots.take(i as int)),
        decreases n - i,
    {
        let entry = state.voters.entry(i);
        push_ballot(&mut out, &entry.voter, entry.vote);
        proof {
            let upto = ballots.take(i + 1);
            assert(upto.drop_last() =~= ballots.take(i as int));
            assert(upto.last() == (entry.voter@, entry.vote));
            assert(out@ =~= head + ballots_bytes(upto));
        }
        i += 1;
    }
    assert(ballots.take(n as int) =~= ballots);
    out
}

/// Reads the 32 bytes that start at `at`.
fn read_id(bytes: &[u8], at: usize) -> (id: [u8; 32])
    requires
        at + 32 <= bytes@.len(),
    ensures
        id@ == bytes@.subrange(at as int, at + 32),
{
    let len = bytes.len();
    let mut id = [0u8;32];
    let mut i: usize = 0;
    while i < 32
        invariant
            0 <= i <= 32,
            len == bytes@.len(),
            at + 32 <= len,
            forall|j: int| 0 <= j < i ==> id@[j] == bytes@[at + j],
        decreases 32 - i,
    {
        id[i] = bytes[at + i];
        i += 1;
    }
    assert(id@ =~= bytes@.subrange(at as int, at + 32));
    id
}

/// A fault at position `i`, with none before it, is the first fault of any
/// longer stretch of voters.
proof fn lemma_first_fault_stays(bytes: Seq<u8>, i: int, n: int)
    requires
        0 <= i < n,
        first_ballot_fault(bytes, i) is None,
        ballot_fault(bytes, i) is Some,
    ensures
        first_ballot_fault(bytes, n) == ballot_fault(bytes, i),
    decreases n,
{
    if n > i + 1 {
        lemma_first_fault_stays(bytes, i, n - 1);
    }
}

/// Reads a stored record of the call `call_id`.
///
/// It succeeds exactly on the bytes that `encode` writes, and then gives the
/// state that was written; on any other bytes it says what is wrong with
/// them.
pub fn decode(call_id: CallId, bytes: &[u8]) -> (result: Result<CallState, DecodeError>)
    ensures
        match result {
            Ok(state) => {
                &&& record_fault(bytes@) is None
                &&& state.call_id == call_id
                &&& state.thread_handle == record_handle(bytes@)
                &&& state.proposer@ == record_proposer(bytes@)
                &&& state.voters.ballots() == record_ballots(bytes@)
            },
            Err(fault) => record_fault(bytes@) == Some(fault),
        },
{
    let len = bytes.len();
    if len == 0 {
        return Err(DecodeError::Truncated);
    }
    if bytes[0] != LAYOUT_VERSION {
        return Err(DecodeError::UnknownVersion);
    }
    if len < HEADER_LEN {
        return Err(DecodeError::Truncated);
    }
    let thread_handle = u64_from_le_bytes(slice_subrange(bytes, 1, 9));
    let proposer = AccountId::new(read_id(bytes, 9));
    let count = u64_from_le_bytes(slice_subrange(bytes, 41, 49));
    let room = len - HEADER_LEN;
    let whole = room / BALLOT_LEN;
    if (whole as u64) < count {
        return Err(DecodeError::Truncated);
    }
    if whole as u64 > count || room % BALLOT_LEN != 0 {
        return Err(DecodeError::TrailingBytes);
    }
    let mut voters = VoterMap::new();
    let mut i: usize = 0;
    while i < whole
        invariant
            0 <= i <= whole,
            whole == count,
            count == record_count(bytes@),
            len == bytes@.len(),
            len == 49 + 49 * whole,
            bytes@[0] == LAYOUT_VERSION,
            first_ballot_fault(bytes@, i as int) is None,
            voters.ballots() == record_ballots(bytes@).take(i as int),
        decreases whole - i,
    {
        let at = HEADER_LEN + BALLOT_LEN * i;
        let voter = AccountId::new(read_id(bytes, at));
        let stance = bytes[at + 32];
        let weight = u128_from_le_bytes(slice_subrange(bytes, at + 33, at + 49));
        if stance > 1 {
            proof {
                lemma_first_fault_stays(bytes@, i as int, whole as int);
            }
            return Err(DecodeError::InvalidStance);
        }
        let vote = if stance == 0 {
            Vote::Aye(weight)
        } else {
            Vote::Nay(weight)
        };
        assert((voter@, vote) == record_ballot(bytes@, i as int));
        if i > 0 {
            assert(voters.ballots().last() == record_ballot(bytes@, i - 1));
        }
        if !voters.push_rising(voter, vote) {
            proof {
                lemma_first_fault_stays(bytes@, i as int, whole as int);
            }
            return Err(DecodeError::VotersNotRising);
        }
        assert(voters.ballots() =~= record_ballots(bytes@).take(i + 1));
        i += 1;
    }
    assert(record_ballots(bytes@).take(whole as int) =~= record_ballots(bytes@));
    Ok(CallState { call_id, thread_handle, proposer, voters })
}

/// Each voter of a rising list takes `BALLOT_LEN` bytes, and the bytes of
/// the voter at position `i` stand at `BALLOT_LEN * i`.
pub proof fn lemma_ballots_layout(ballots: Seq<(Seq<u8>, Vote)>)
    requires
        ascending(ballots),
    ensures
        ballots_bytes(ballots).len() == 49 * ballots.len(),
        forall|i: int|
            0 <= i < ballots.len() ==> #[trigger] ballots_bytes(ballots).subrange(
                49 * i,
                49 * i + 49,
            ) == ballot_bytes(ballots[i]),
    decreases ballots.len(),
{
    lemma_auto_spec_u128_to_from_le_bytes();
    if ballots.len() > 0 {
        let front = ballots.drop_last();
        let n = front.len() as int;
        crate::voters::lemma_front_ascending(ballots);
        lemma_ballots_layout(front);
        assert(voter_at(ballots, n).len() == 32);
        assert(ballot_bytes(ballots.last()).len() == 49);
        let all = ballots_bytes(ballots);
        assert forall|i: int| 0 <= i < ballots.len() implies #[trigger] all.subrange(
            49 * i,
            49 * i + 49,
        ) == ballot_bytes(ballots[i]) by {
            if i < n {
                assert(all.subrange(49 * i, 49 * i + 49) =~= ballots_bytes(front).subrange(
                    49 * i,
                    49 * i + 49,
                ));
            } else {
                assert(all.subrange(49 * i, 49 * i + 49) =~= ballot_bytes(ballots.last()));
            }
        }
    }
}

/// What the parts of a record built by `record_bytes` are.
proof fn lemma_record_layout(thread_handle: u64, proposer: Seq<u8>, ballots: Seq<(Seq<u8>, Vote)>)
    requires
        proposer.len() == 32,
        ascending(ballots),
        ballots.len() <= u64::MAX,
    ensures
        ({
            let bytes = record_bytes(thread_handle, proposer, ballots);
            &&& bytes.len() == 49 + 49 * ballots.len()
            &&& bytes[0] == LAYOUT_VERSION
            &&& record_handle(bytes) == thread_handle
            &&& record_proposer(bytes) == proposer
            &&& record_count(bytes) == ballots.len()
            &&& forall|i: int|
                0 <= i < ballots.len() ==> #[trigger] record_ballot(bytes, i) == ballots[i]
            &&& forall|i: int|
                0 <= i < ballots.len() ==> #[trigger] record_stance(bytes, i) <= 1
        }),
{
    lemma_auto_spec_u64_to_from_le_bytes();
    lemma_auto_spec_u128_to_from_le_bytes();
    lemma_ballots_layout(ballots);
    let bytes = record_bytes(thread_handle, proposer, ballots);
    let tail = ballots_bytes(ballots);
    assert(bytes.subrange(1, 9) =~= spec_u64_to_le_bytes(thread_handle));
    assert(bytes.subrange(9, 41) =~= proposer);
    assert(bytes.subrange(41, 49) =~= spec_u64_to_le_bytes(ballots.len() as u64));
    assert(bytes.subrange(49, bytes.len() as int) =~= tail);
    assert forall|i: int| 0 <= i < ballots.len() implies #[trigger] record_ballot(bytes, i)
        == ballots[i] by {
        lemma_record_ballot_at(bytes, tail, ballots, i);
    }
    assert forall|i: int| 0 <= i < ballots.len() implies #[trigger] record_stance(bytes, i)
        <= 1 by {
        lemma_record_ballot_at(bytes, tail, ballots, i);
    }
}

proof fn lemma_record_ballot_at(
    bytes: Seq<u8>,
    tail: Seq<u8>,
    ballots: Seq<(Seq<u8>, Vote)>,
    i: int,
)
    requires
        ascending(ballots),
        0 <= i < ballots.len(),
        bytes.len() == 49 + tail.len(),
        bytes.subrange(49, bytes.len() as int) == tail,
        tail.len() == 49 * ballots.len(),
        tail.subrange(49 * i, 49 * i + 49) == ballot_bytes(ballots[i]),
    ensures
        record_ballot(bytes, i) == ballots[i],
        record_stance(bytes, i) <= 1,
{
    lemma_auto_spec_u128_to_from_le_bytes();
    let ballot = ballots[i];
    let piece = tail.subrange(49 * i, 49 * i + 49);
    assert(voter_at(ballots, i).len() == 32);
    assert(record_voter(bytes, i) =~= piece.subrange(0, 32));
    assert(piece.subrange(0, 32) =~= ballot.0);
    assert(record_stance(bytes, i) == piece[32]);
    assert(piece[32] == stance_byte(ballot.1));
    assert(bytes.subrange(49 + 49 * i + 33, 49 + 49 * i + 49) =~= piece.subrange(33, 49));
    assert(piece.subrange(33, 49) =~= spec_u128_to_le_bytes(ballot.1.weight()));
}

proof fn lemma_no_ballot_fault(bytes: Seq<u8>, ballots: Seq<(Seq<u8>, Vote)>, n: int)
    requires
        ascending(ballots),
        0 <= n <= ballots.len(),
        forall|i: int| 0 <= i < ballots.len() ==> #[trigger] record_ballot(bytes, i) == ballots[i],
        forall|i: int| 0 <= i < ballots.len() ==> #[trigger] record_stance(bytes, i) <= 1,
    ensures
        first_ballot_fault(bytes, n) is None,
    decreases n,
{
    if n > 0 {
        lemma_no_ballot_fault(bytes, ballots, n - 1);
        assert(record_stance(bytes, n - 1) <= 1);
        assert(record_ballot(bytes, n - 1) == ballots[n - 1]);
        if n > 1 {
            assert(record_ballot(bytes, n - 2) == ballots[n - 2]);
            assert(rank_at(ballots, n - 2) < rank_at(ballots, n - 1));
        }
    }
}

/// Reading back what was written gives what was written: the bytes of a
/// record are without fault, and hold the thread handle, the proposer and
/// every voter with their vote, unchanged and in the same order.
pub proof fn lemma_record_round_trip(
    thread_handle: u64,
    proposer: Seq<u8>,
    ballots: Seq<(Seq<u8>, Vote)>,
)
    requires
        proposer.len() == 32,
        ascending(ballots),
        ballots.len() <= u64::MAX,
    ensures
        record_fault(record_bytes(thread_handle, proposer, ballots)) is None,
        record_handle(record_bytes(thread_handle, proposer, ballots)) == thread_handle,
        record_proposer(record_bytes(thread_handle, proposer, ballots)) == proposer,
        record_ballots(record_bytes(thread_handle, proposer, ballots)) == ballots,
{
    let bytes = record_bytes(thread_handle, proposer, ballots);
    lemma_record_layout(thread_handle, proposer, ballots);
    lemma_no_ballot_fault(bytes, ballots, ballots.len() as int);
    assert(record_ballots(bytes) =~= ballots);
}

proof fn lemma_no_fault_at(bytes: Seq<u8>, n: int, i: int)
    requires
        0 <= i < n,
        first_ballot_fault(bytes, n) is None,
    ensures
        ballot_fault(bytes, i) is None,
    decreases n,
{
    if i < n - 1 {
        lemma_no_fault_at(bytes, n - 1, i);
    }
}

proof fn lemma_voters_rise(bytes: Seq<u8>, n: int, i: int, j: int)
    requires
        0 <= i < j < n,
        first_ballot_fault(bytes, n) is None,
    ensures
        be_value(record_voter(bytes, i)) < be_value(record_voter(bytes, j)),
    decreases j - i,
{
    lemma_no_fault_at(bytes, n, j);
    if i < j - 1 {
        lemma_voters_rise(bytes, n, i, j - 1);
    }
}

/// Bytes without fault hold a full-length proposer and a rising list of
/// voters, and are exactly as long as that list asks for.
pub proof fn lemma_faultless_record(bytes: Seq<u8>)
    requires
        record_fault(bytes) is None,
    ensures
        record_proposer(bytes).len() == 32,
        ascending(record_ballots(bytes)),
        bytes.len() == 49 + 49 * record_ballots(bytes).len(),
{
    let ballots = record_ballots(bytes);
    let n = record_count(bytes) as int;
    assert forall|i: int| 0 <= i < ballots.len() implies (#[trigger] voter_at(ballots, i)).len()
        == 32 by {
        assert(ballots[i].0 == record_voter(bytes, i));
    }
    assert forall|i: int, j: int| 0 <= i < j < ballots.len() implies #[trigger] rank_at(
        ballots,
        i,
    ) < #[trigger] rank_at(ballots, j) by {
        lemma_voters_rise(bytes, n, i, j);
        assert(ballots[i].0 == record_voter(bytes, i));
        assert(ballots[j].0 == record_voter(bytes, j));
    }
}

proof fn lemma_ballot_is_canonical(bytes: Seq<u8>, i: int)
    requires
        0 <= i,
        49 + 49 * i + 49 <= bytes.len(),
        record_stance(bytes, i) <= 1,
    ensures
        ballot_bytes(record_ballot(bytes, i)) == bytes.subrange(49 + 49 * i, 49 + 49 * i + 49),
{
    lemma_auto_spec_u128_to_from_le_bytes();
    let at = 49 + 49 * i;
    let weight = bytes.subrange(at + 33, at + 49);
    assert(spec_u128_to_le_bytes(spec_u128_from_le_bytes(weight)) == weight);
    assert(ballot_bytes(record_ballot(bytes, i)) =~= bytes.subrange(at, at + 49));
}

proof fn lemma_ballots_are_canonical(bytes: Seq<u8>, n: int)
    requires
        0 <= n <= record_count(bytes),
        49 + 49 * n <= bytes.len(),
        first_ballot_fault(bytes, n) is None,
    ensures
        ballots_bytes(record_ballots(bytes).take(n)) == bytes.subrange(49, 49 + 49 * n),
    decreases n,
{
    let upto = record_ballots(bytes).take(n);
    if n == 0 {
        assert(ballots_bytes(upto) =~= bytes.subrange(49, 49));
    } else {
        lemma_ballots_are_canonical(bytes, n - 1);
        lemma_no_fault_at(bytes, n, n - 1);
        lemma_ballot_is_canonical(bytes, n - 1);
        assert(upto.drop_last() =~= record_ballots(bytes).take(n - 1));
        assert(upto.last() == record_ballot(bytes, n - 1));
        assert(ballots_bytes(upto) =~= bytes.subrange(49, 49 + 49 * n));
    }
}

/// A record has one stored form: bytes without fault are exactly the bytes
/// that writing what they hold gives.
pub proof fn lemma_record_is_canonical(bytes: Seq<u8>)
    requires
        record_fault(bytes) is None,
    ensures
        record_bytes(record_handle(bytes), record_proposer(bytes), record_ballots(bytes)) == bytes,
{
    lemma_auto_spec_u64_to_from_le_bytes();
    let n = record_count(bytes) as int;
    let ballots = record_ballots(bytes);
    lemma_ballots_are_canonical(bytes, n);
    assert(ballots.take(n) =~= ballots);
    let handle = bytes.subrange(1, 9);
    let count = bytes.subrange(41, 49);
    assert(spec_u64_to_le_bytes(spec_u64_from_le_bytes(handle)) == handle);
    assert(spec_u64_to_le_bytes(spec_u64_from_le_bytes(count)) == count);
    assert(ballots.len() as u64 == record_count(bytes));
    assert(record_bytes(record_handle(bytes), record_proposer(bytes), ballots) =~= seq![
        LAYOUT_VERSION,
    ] + handle + bytes.subrange(9, 41) + count + bytes.subrange(49, 49 + 49 * n));
    assert(seq![LAYOUT_VERSION] + handle + bytes.subrange(9, 41) + count + bytes.subrange(
        49,
        49 + 49 * n,
    ) =~= bytes);
}

} // verus!
