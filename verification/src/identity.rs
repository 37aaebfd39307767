//! Fixed-length identifiers: accounts and call hashes, and the order in which
//! accounts are kept.

use vstd::prelude::*;

verus! {

/// The number that a byte string spells when read most significant byte first.
///
/// Among strings of one length, comparing these numbers is comparing the
/// strings byte by byte from the front.
pub open spec fn be_value(bytes: Seq<u8>) -> nat
    decreases bytes.len(),
{
    if bytes.len() == 0 {
        0
    } else {
        be_value(bytes.drop_last()) * 256 + bytes.last() as nat
    }
}

/// Strings of one length that spell the same number are the same string.
pub proof fn lemma_be_value_injective(a: Seq<u8>, b: Seq<u8>)
    requires
        a.len() == b.len(),
        be_value(a) == be_value(b),
    ensures
        a == b,
    decreases a.len(),
{
    if a.len() > 0 {
        lemma_be_value_injective(a.drop_last(), b.drop_last());
        assert(a =~= a.drop_last().push(a.last()));
        assert(b =~= b.drop_last().push(b.last()));
    } else {
        assert(a =~= b);
    }
}

/// Two strings that agree before position `at` and differ there are ordered
/// by the byte at `at`, whatever follows.
pub proof fn lemma_first_difference_decides(a: Seq<u8>, b: Seq<u8>, at: int)
    requires
        a.len() == b.len(),
        0 <= at < a.len(),
        a.take(at) == b.take(at),
        a[at] < b[at],
    ensures
        be_value(a) < be_value(b),
{
    lemma_order_extends(a, b, at, a.len() as int);
    assert(a.take(a.len() as int) =~= a);
    assert(b.take(b.len() as int) =~= b);
}

proof fn lemma_order_extends(a: Seq<u8>, b: Seq<u8>, at: int, upto: int)
    requires
        a.len() == b.len(),
        0 <= at < upto <= a.len(),
        a.take(at) == b.take(at),
        a[at] < b[at],
    ensures
        be_value(a.take(upto)) < be_value(b.take(upto)),
    decreases upto,
{
    assert(a.take(upto).drop_last() =~= a.take(upto - 1));
    assert(b.take(upto).drop_last() =~= b.take(upto - 1));
    if upto > at + 1 {
        lemma_order_extends(a, b, at, upto - 1);
    }
}

/// An identifier has 32 bytes.
pub proof fn lemma_id_len(bytes: [u8; 32])
    ensures
        bytes@.len() == 32,
{
    vstd::array::array_len_matches_n(&bytes);
}

/// Where one identifier stands relative to another.
#[derive(Clone, Copy, Debug, PartialEq, Eq, Structural)]
pub enum Placement {
    Before,
    Same,
    After,
}

/// Places `left` relative to `right` by their big-endian values.
pub fn place(left: &[u8; 32], right: &[u8; 32]) -> (placement: Placement)
    ensures
        placement == Placement::Before <==> be_value(left@) < be_value(right@),
        placement == Placement::Same <==> left@ == right@,
        placement == Placement::After <==> be_value(left@) > be_value(right@),
{
    let mut i: usize = 0;
    while i < 32
        invariant
            0 <= i <= 32,
            left@.take(i as int) == right@.take(i as int),
        decreases 32 - i,
    {
        if left[i] < right[i] {
            proof {
                lemma_first_difference_decides(left@, right@, i as int);
            }
            return Placement::Before;
        }
        if left[i] > right[i] {
            proof {
                lemma_first_difference_decides(right@, left@, i as int);
            }
            return Placement::After;
        }
        assert(left@.take(i + 1) =~= left@.take(i as int).push(left@[i as int]));
        assert(right@.take(i + 1) =~= right@.take(i as int).push(right@[i as int]));
        i += 1;
    }
    assert(left@.take(32) =~= left@);
    assert(right@.take(32) =~= right@);
    Placement::Same
}

/// Identity of an account on the chain.
#[derive(Clone, Copy, Debug, PartialEq, Eq, Hash)]
pub struct AccountId {
    pub bytes: [u8; 32],
}

impl View for AccountId {
    type V = Seq<u8>;

    open spec fn view(&self) -> Seq<u8> {
        self.bytes@
    }
}

impl AccountId {
    pub fn new(bytes: [u8; 32]) -> (account: AccountId)
        ensures
            account@ == bytes@,
    {
        AccountId { bytes }
    }

    /// The account's place in the order of accounts.
    pub open spec fn rank(&self) -> nat {
        be_value(self@)
    }

    pub fn same_as(&self, other: &AccountId) -> (same: bool)
        ensures
            same == (self@ == other@),
    {
        place(&self.bytes, &other.bytes) == Placement::Same
    }
}

/// Identifier of a governance call: the hash of the call.
#[derive(Clone, Copy, Debug, PartialEq, Eq, Hash)]
pub struct CallId {
    pub bytes: [u8; 32],
}

impl View for CallId {
    type V = Seq<u8>;

    open spec fn view(&self) -> Seq<u8> {
        self.bytes@
    }
}

impl CallId {
    pub fn new(bytes: [u8; 32]) -> (id: CallId)
        ensures
            id@ == bytes@,
    {
        CallId { bytes }
    }

    pub fn same_as(&self, other: &CallId) -> (same: bool)
        ensures
            same == (self@ == other@),
    {
        place(&self.bytes, &other.bytes) == Placement::Same
    }
}

} // verus!
