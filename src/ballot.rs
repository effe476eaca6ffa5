//! Role-tagged member identifiers and the total order on ballots.
use core::marker::PhantomData;
use std::cmp::Ordering;
use vstd::prelude::*;

verus! {

/// Role tag of the proposer cluster.
#[derive(Clone, Copy, Debug, PartialEq, Eq, Hash)]
pub struct Proposer {}

/// Role tag of the acceptor cluster.
#[derive(Clone, Copy, Debug, PartialEq, Eq, Hash)]
pub struct Acceptor {}

/// A cluster member's identifier, tagged with the role it belongs to so that
/// a proposer's identifier cannot be used where an acceptor's is expected.
#[derive(Debug)]
pub struct MemberId<R> {
    pub raw_id: u32,
    pub role: PhantomData<R>,
}

impl<R> MemberId<R> {
    pub fn from_raw(raw_id: u32) -> (r: MemberId<R>)
        ensures
            r.raw_id == raw_id,
    {
        MemberId { raw_id, role: PhantomData }
    }
}

impl<R> Clone for MemberId<R> {
    fn clone(&self) -> (r: MemberId<R>)
        ensures
            r == *self,
    {
        MemberId { raw_id: self.raw_id, role: PhantomData }
    }
}

impl<R> Copy for MemberId<R> {}

/// A proposal's priority: compared by round number, then by proposer identity.
#[derive(Clone, Copy, Debug)]
pub struct Ballot {
    pub num: u32,
    pub proposer_id: MemberId<Proposer>,
}

/// `a` is strictly lower than `b`.
pub open spec fn ballot_lt(a: Ballot, b: Ballot) -> bool {
    a.num < b.num || (a.num == b.num && a.proposer_id.raw_id < b.proposer_id.raw_id)
}

/// `a` is lower than or equal to `b`.
pub open spec fn ballot_le(a: Ballot, b: Ballot) -> bool {
    ballot_lt(a, b) || (a.num == b.num && a.proposer_id.raw_id == b.proposer_id.raw_id)
}

impl Ballot {
    pub fn new(num: u32, proposer_id: MemberId<Proposer>) -> (r: Ballot)
        ensures
            r.num == num,
            r.proposer_id == proposer_id,
    {
        Ballot { num, proposer_id }
    }

    /// Whether this ballot is strictly lower than `other`.
    pub fn lt(&self, other: &Ballot) -> (r: bool)
        ensures
            r == ballot_lt(*self, *other),
    {
        self.num < other.num || (self.num == other.num && self.proposer_id.raw_id
            < other.proposer_id.raw_id)
    }

    /// The three-way comparison of the two ballots.
    pub fn compare(&self, other: &Ballot) -> (r: Ordering)
        ensures
            r == Ordering::Less <==> ballot_lt(*self, *other),
            r == Ordering::Greater <==> ballot_lt(*other, *self),
            r == Ordering::Equal <==> (self.num == other.num && self.proposer_id.raw_id
                == other.proposer_id.raw_id),
    {
        if self.lt(other) {
            Ordering::Less
        } else if other.lt(self) {
            Ordering::Greater
        } else {
            Ordering::Equal
        }
    }
}

impl PartialEq for Ballot {
    fn eq(&self, other: &Ballot) -> (r: bool) {
        self.num == other.num && self.proposer_id.raw_id == other.proposer_id.raw_id
    }
}

impl vstd::std_specs::cmp::PartialEqSpecImpl for Ballot {
    open spec fn obeys_eq_spec() -> bool {
        true
    }

    open spec fn eq_spec(&self, other: &Ballot) -> bool {
        *self == *other
    }
}

impl Eq for Ballot {}

impl PartialOrd for Ballot {
    fn partial_cmp(&self, other: &Ballot) -> (r: Option<Ordering>) {
        Some(self.compare(other))
    }
}

impl vstd::std_specs::cmp::PartialOrdSpecImpl for Ballot {
    open spec fn obeys_partial_cmp_spec() -> bool {
        true
    }

    open spec fn partial_cmp_spec(&self, other: &Ballot) -> Option<Ordering> {
        if ballot_lt(*self, *other) {
            Some(Ordering::Less)
        } else if ballot_lt(*other, *self) {
            Some(Ordering::Greater)
        } else {
            Some(Ordering::Equal)
        }
    }
}

/// Ballot order is total: two ballots that differ in some field are ordered one
/// way exactly, and no ballot is lower than itself.
pub proof fn lemma_ballot_total(b1: Ballot, b2: Ballot)
    ensures
        b1 != b2 ==> (ballot_lt(b1, b2) != ballot_lt(b2, b1)),
        b1 == b2 ==> !ballot_lt(b1, b2),
{
}

/// Ballot order is transitive.
pub proof fn lemma_ballot_trans(a: Ballot, b: Ballot, c: Ballot)
    ensures
        ballot_lt(a, b) && ballot_lt(b, c) ==> ballot_lt(a, c),
        ballot_le(a, b) && ballot_le(b, c) ==> ballot_le(a, c),
{
}

} // verus!
