//! A voter's stance on a call and the weight behind it.

use vstd::prelude::*;

verus! {

/// A vote: for or against, with the token weight that backs it.
#[derive(Clone, Copy, Debug, PartialEq, Eq, Structural)]
pub enum Vote {
    Aye(u128),
    Nay(u128),
}

impl Vote {
    /// The raw weight, whichever way the vote goes.
    pub open spec fn weight(self) -> u128 {
        match self {
            Vote::Aye(w) => w,
            Vote::Nay(w) => w,
        }
    }

    pub open spec fn in_favour(self) -> bool {
        self is Aye
    }

    /// The weight that this vote alone adds to the ayes.
    pub open spec fn ayes(self) -> u128 {
        match self {
            Vote::Aye(w) => w,
            Vote::Nay(_) => 0,
        }
    }

    /// The weight that this vote alone adds to the nays.
    pub open spec fn nays(self) -> u128 {
        match self {
            Vote::Aye(_) => 0,
            Vote::Nay(w) => w,
        }
    }

    pub fn raw_weight(&self) -> (w: u128)
        ensures
            w == self.weight(),
    {
        match self {
            Vote::Aye(w) => *w,
            Vote::Nay(w) => *w,
        }
    }

    pub fn is_aye(&self) -> (aye: bool)
        ensures
            aye == self.in_favour(),
    {
        match self {
            Vote::Aye(_) => true,
            Vote::Nay(_) => false,
        }
    }

    pub fn aye_weight(&self) -> (w: u128)
        ensures
            w == self.ayes(),
    {
        match self {
            Vote::Aye(w) => *w,
            Vote::Nay(_) => 0,
        }
    }

    pub fn nay_weight(&self) -> (w: u128)
        ensures
            w == self.nays(),
    {
        match self {
            Vote::Aye(_) => 0,
            Vote::Nay(w) => *w,
        }
    }
}

} // verus!
