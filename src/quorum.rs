//! Waiting for `k` of `n` keyed responses: the one mechanism that collects
//! both prepare promises and accept acknowledgements.
use crate::ballot::{Acceptor, Ballot, MemberId};
use crate::config::PaxosError;
use vstd::prelude::*;

verus! {

/// The logical round that a response belongs to: a prepare under a ballot,
/// or an accept under a ballot for one slot.
#[derive(Clone, Copy, Debug)]
pub enum RoundKey {
    Prepare(Ballot),
    Accept(Ballot, usize),
}

impl RoundKey {
    /// Whether the two keys name the same round.
    pub fn same(&self, other: &RoundKey) -> (r: bool)
        ensures
            r == (*self == *other),
    {
        match (self, other) {
            (RoundKey::Prepare(a), RoundKey::Prepare(b)) => a.num == b.num
                && a.proposer_id.raw_id == b.proposer_id.raw_id,
            (RoundKey::Accept(a, s), RoundKey::Accept(b, t)) => a.num == b.num
                && a.proposer_id.raw_id == b.proposer_id.raw_id && *s == *t,
            _ => false,
        }
    }
}

/// One member's response in some round.
pub struct QuorumResponse<T> {
    pub round: RoundKey,
    pub member: MemberId<Acceptor>,
    pub payload: T,
}

/// The identifiers of the members whose responses are in `c`.
pub open spec fn members_of<T>(c: Seq<QuorumResponse<T>>) -> Seq<u32> {
    c.map_values(|r: QuorumResponse<T>| r.member.raw_id)
}

/// Whether `r` is counted after the responses `c`: it belongs to `round`, the
/// threshold is not met yet, and its member has not been counted before.
pub open spec fn counts<T>(
    c: Seq<QuorumResponse<T>>,
    r: QuorumResponse<T>,
    round: RoundKey,
    threshold: nat,
) -> bool {
    &&& r.round == round
    &&& c.len() < threshold
    &&& !members_of(c).contains(r.member.raw_id)
}

/// The counted responses after offering `r` to those in `c`.
pub open spec fn collect_step<T>(
    c: Seq<QuorumResponse<T>>,
    r: QuorumResponse<T>,
    round: RoundKey,
    threshold: nat,
) -> Seq<QuorumResponse<T>> {
    if counts(c, r, round, threshold) {
        c.push(r)
    } else {
        c
    }
}

/// The responses counted out of the stream `s`, in the order they arrived.
pub open spec fn collected<T>(s: Seq<QuorumResponse<T>>, round: RoundKey, threshold: nat) -> Seq<
    QuorumResponse<T>,
>
    decreases s.len(),
{
    if s.len() == 0 {
        Seq::empty()
    } else {
        collect_step(collected(s.drop_last(), round, threshold), s.last(), round, threshold)
    }
}

/// The distinct members that responded in `round` somewhere in `s`.
pub open spec fn responders<T>(s: Seq<QuorumResponse<T>>, round: RoundKey) -> Set<u32> {
    Set::new(|m: u32| exists|i: int| 0 <= i < s.len() && s[i].round == round && #[trigger] s[i].member.raw_id == m)
}

/// Collects responses for one round until `threshold` distinct members have
/// answered.
pub struct QuorumCollector<T> {
    round: RoundKey,
    threshold: usize,
    counted: Vec<QuorumResponse<T>>,
}

impl<T> View for QuorumCollector<T> {
    type V = Seq<QuorumResponse<T>>;

    closed spec fn view(&self) -> Seq<QuorumResponse<T>> {
        self.counted@
    }
}

impl<T> QuorumCollector<T> {
    pub closed spec fn round(&self) -> RoundKey {
        self.round
    }

    pub closed spec fn threshold(&self) -> nat {
        self.threshold as nat
    }

    /// A collector for `round` that succeeds at `threshold` distinct members.
    pub fn new(round: RoundKey, threshold: usize) -> (r: QuorumCollector<T>)
        ensures
            r@ == Seq::<QuorumResponse<T>>::empty(),
            r.round() == round,
            r.threshold() == threshold,
    {
        QuorumCollector { round, threshold, counted: Vec::new() }
    }

    pub fn round_key(&self) -> (r: RoundKey)
        ensures
            r == self.round(),
    {
        self.round
    }

    /// Offers one response; returns whether it was counted. Responses of
    /// another round, repeats from a member and responses after the threshold
    /// was met are ignored.
    pub fn offer(&mut self, r: QuorumResponse<T>) -> (counted: bool)
        ensures
            counted == counts(old(self)@, r, old(self).round(), old(self).threshold()),
            final(self)@ == collect_step(old(self)@, r, old(self).round(), old(self).threshold()),
            final(self).round() == old(self).round(),
            final(self).threshold() == old(self).threshold(),
    {
        if !r.round.same(&self.round) || self.counted.len() >= self.threshold {
            return false;
        }
        let mut i: usize = 0;
        while i < self.counted.len()
            invariant
                i <= self.counted.len(),
                forall|j: int| 0 <= j < i ==> self.counted@[j].member.raw_id != r.member.raw_id,
            decreases self.counted.len() - i,
        {
            if self.counted[i].member.raw_id == r.member.raw_id {
                assert(members_of(self@)[i as int] == r.member.raw_id);
                return false;
            }
            i = i + 1;
        }
        assert(!members_of(self@).contains(r.member.raw_id));
        self.counted.push(r);
        true
    }

    /// Whether the threshold has been met.
    pub fn is_reached(&self) -> (r: bool)
        ensures
            r == (self@.len() >= self.threshold()),
    {
        self.counted.len() >= self.threshold
    }

    /// The counted responses, in the order they were counted.
    pub fn into_responses(self) -> (r: Vec<QuorumResponse<T>>)
        ensures
            r@ == self@,
    {
        self.counted
    }
}

/// The outcome of a quorum wait.
pub enum QuorumOutcome<T> {
    /// The first `threshold` distinct members' responses, in arrival order.
    Reached(Vec<QuorumResponse<T>>),
    /// The input ended before `threshold` distinct members answered.
    Insufficient,
}

impl<T> QuorumOutcome<T> {
    /// The counted responses, or `QuorumUnreachable` when the input ran out
    /// first.
    pub fn into_result(self) -> (r: Result<Vec<QuorumResponse<T>>, PaxosError>)
        ensures
            self matches QuorumOutcome::Reached(v) ==> r == Ok::<Vec<QuorumResponse<T>>, PaxosError>(v),
            self is Insufficient ==> r == Err::<Vec<QuorumResponse<T>>, PaxosError>(PaxosError::QuorumUnreachable),
    {
        match self {
            QuorumOutcome::Reached(v) => Ok(v),
            QuorumOutcome::Insufficient => Err(PaxosError::QuorumUnreachable),
        }
    }
}

/// Consumes the responses in order and reports the first `threshold`
/// distinct members' responses of `round`, or that the input ran out first.
pub fn await_quorum<T>(responses: Vec<QuorumResponse<T>>, threshold: usize, round: RoundKey) -> (r:
    QuorumOutcome<T>)
    ensures
        collected(responses@, round, threshold as nat).len() == threshold ==> (r matches QuorumOutcome::Reached(v) && v@
            == collected(responses@, round, threshold as nat)),
        collected(responses@, round, threshold as nat).len() != threshold ==> r is Insufficient,
{
    let ghost all = responses@;
    let mut rest = responses;
    let mut c: QuorumCollector<T> = QuorumCollector::new(round, threshold);
    let ghost mut k: int = 0;
    while rest.len() > 0
        invariant
            0 <= k <= all.len(),
            rest@ == all.subrange(k, all.len() as int),
            c@ == collected(all.take(k), round, threshold as nat),
            c.round() == round,
            c.threshold() == threshold,
        decreases rest.len(),
    {
        let r = rest.remove(0);
        proof {
            assert(all.take(k + 1).drop_last() =~= all.take(k));
            assert(all.take(k + 1).last() == all[k]);
            k = k + 1;
            assert(rest@ =~= all.subrange(k, all.len() as int));
        }
        c.offer(r);
    }
    proof {
        assert(all.take(k) =~= all);
        lemma_collected_bounded(all, round, threshold as nat);
    }
    if c.is_reached() {
        QuorumOutcome::Reached(c.into_responses())
    } else {
        QuorumOutcome::Insufficient
    }
}

/// What is counted is at most `threshold` responses, all of `round`, from
/// distinct members who did respond in `round`.
pub proof fn lemma_collected_bounded<T>(s: Seq<QuorumResponse<T>>, round: RoundKey, threshold: nat)
    ensures
        collected(s, round, threshold).len() <= threshold,
        members_of(collected(s, round, threshold)).no_duplicates(),
        forall|i: int|
            0 <= i < collected(s, round, threshold).len() ==> (#[trigger] collected(
                s,
                round,
                threshold,
            )[i]).round == round,
        members_of(collected(s, round, threshold)).to_set().subset_of(responders(s, round)),
    decreases s.len(),
{
    if s.len() > 0 {
        let p = s.drop_last();
        lemma_collected_bounded(p, round, threshold);
        let c = collected(p, round, threshold);
        let r = s.last();
        assert forall|m: u32| members_of(c).to_set().contains(m) implies responders(s, round).contains(m) by {
            assert(responders(p, round).contains(m));
            let i = choose|i: int| 0 <= i < p.len() && p[i].round == round && #[trigger] p[i].member.raw_id == m;
            assert(s[i] == p[i]);
        }
        if counts(c, r, round, threshold) {
            let c2 = c.push(r);
            assert(members_of(c2) =~= members_of(c).push(r.member.raw_id));
            assert(s[s.len() - 1] == r);
            assert forall|m: u32| members_of(c2).to_set().contains(m) implies responders(s, round).contains(m) by {
                if m != r.member.raw_id {
                    assert(members_of(c).to_set().contains(m)) by {
                        let j = choose|j: int| 0 <= j < members_of(c2).len() && members_of(c2)[j] == m;
                        assert(members_of(c)[j] == m);
                    }
                }
            }
        }
    }
}

/// With fewer than `threshold` distinct members responding in `round`, the
/// quorum is never reached, whatever else the stream holds.
pub proof fn lemma_too_few_responders<T>(s: Seq<QuorumResponse<T>>, round: RoundKey, threshold: nat)
    requires
        responders(s, round).finite(),
        responders(s, round).len() < threshold,
    ensures
        collected(s, round, threshold).len() < threshold,
{
    lemma_collected_bounded(s, round, threshold);
    let m = members_of(collected(s, round, threshold));
    m.unique_seq_to_set();
    vstd::set_lib::lemma_len_subset(m.to_set(), responders(s, round));
}

} // verus!
