//! Agreement across leader changes: a model of the whole protocol, in which
//! acceptors apply the ballot rules of the acceptor role and proposers pick
//! values the way Phase 1 recovery does, and the proof that no two ballots
//! ever choose different values at one slot.
use crate::acceptor::{accept_state, prepare_state, rejects, AcceptorView, LogValue};
use crate::ballot::{ballot_le, ballot_lt, Ballot};
use crate::config::lemma_quorums_intersect;
use vstd::prelude::*;

verus! {

/// An acceptor's acceptance of a value at a slot under a ballot.
pub struct Vote<P> {
    pub acceptor: u32,
    pub ballot: Ballot,
    pub slot: usize,
    pub value: Option<P>,
}

/// An accept message that some proposer sent.
pub struct Proposal<P> {
    pub ballot: Ballot,
    pub slot: usize,
    pub value: Option<P>,
}

/// The state of a whole cluster: each acceptor's highest ballot, every vote
/// ever cast, and every proposal ever sent.
#[verifier::reject_recursive_types(P)]
pub struct System<P> {
    pub acceptors: Set<u32>,
    pub f: nat,
    pub max_ballot: Map<u32, Option<Ballot>>,
    pub votes: Set<Vote<P>>,
    pub proposals: Set<Proposal<P>>,
}

/// `f+1` or more of the cluster's acceptors.
pub open spec fn is_quorum<P>(sys: System<P>, q: Set<u32>) -> bool {
    &&& q.subset_of(sys.acceptors)
    &&& q.finite()
    &&& q.len() >= sys.f + 1
}

/// A quorum voted for `v` at `slot` under `b`.
pub open spec fn chosen<P>(sys: System<P>, b: Ballot, slot: usize, v: Option<P>) -> bool {
    exists|q: Set<u32>| is_quorum(sys, q) && forall|a: u32| #[trigger] q.contains(a) ==> sys.votes.contains(Vote { acceptor: a, ballot: b, slot, value: v })
}

/// Acceptor `a` has recorded a ballot at or above `b`.
pub open spec fn promised<P>(sys: System<P>, a: u32, b: Ballot) -> bool {
    sys.max_ballot.contains_key(a) && (sys.max_ballot[a] matches Some(m) && ballot_le(b, m))
}

/// Acceptor `a` has recorded a ballot strictly above `c`.
pub open spec fn promised_above<P>(sys: System<P>, a: u32, c: Ballot) -> bool {
    sys.max_ballot.contains_key(a) && (sys.max_ballot[a] matches Some(m) && ballot_lt(c, m))
}

/// A vote by a member of `q` at `slot` below `b`: what Phase 1 under `b`
/// reports.
pub open spec fn reported<P>(q: Set<u32>, b: Ballot, slot: usize, x: Vote<P>) -> bool {
    q.contains(x.acceptor) && x.slot == slot && ballot_lt(x.ballot, b)
}

/// A proposer may send `p` after Phase 1 under `p.ballot` reached the quorum
/// `q`: it sends one value per slot under its ballot, and that value is the
/// one of the highest reported vote at the slot, if any was reported.
pub open spec fn may_propose<P>(sys: System<P>, q: Set<u32>, p: Proposal<P>) -> bool {
    &&& is_quorum(sys, q)
    &&& forall|a: u32| #[trigger] q.contains(a) ==> promised(sys, a, p.ballot)
    &&& forall|o: Proposal<P>| #[trigger] sys.proposals.contains(o) && o.ballot == p.ballot && o.slot == p.slot ==> o.value == p.value
    &&& (forall|x: Vote<P>| #[trigger] sys.votes.contains(x) ==> !reported(q, p.ballot, p.slot, x))
        || exists|w: Vote<P>| #[trigger] sys.votes.contains(w) && reported(q, p.ballot, p.slot, w) && w.value == p.value
            && forall|x: Vote<P>| #[trigger] sys.votes.contains(x) && reported(q, p.ballot, p.slot, x) ==> ballot_le(x.ballot, w.ballot)
}

/// One step of the cluster.
pub enum Step<P> {
    /// Acceptor `a` handles a prepare message under the ballot.
    Prepare(u32, Ballot),
    /// Acceptor `a` handles the accept message.
    Accept(u32, Proposal<P>),
    /// A proposer that ran Phase 1 with the quorum sends the proposal.
    Propose(Set<u32>, Proposal<P>),
}

/// The state after acceptor `a` handles a message under `b`.
pub open spec fn after_ballot<P>(sys: System<P>, a: u32, b: Ballot) -> Map<u32, Option<Ballot>> {
    if rejects(sys.max_ballot[a], b) {
        sys.max_ballot
    } else {
        sys.max_ballot.insert(a, Some(b))
    }
}

/// `t` follows from `sys` by `step`.
pub open spec fn next<P>(sys: System<P>, t: System<P>, step: Step<P>) -> bool {
    &&& t.acceptors == sys.acceptors
    &&& t.f == sys.f
    &&& match step {
        Step::Prepare(a, b) => {
            &&& sys.acceptors.contains(a)
            &&& t.max_ballot == after_ballot(sys, a, b)
            &&& t.votes == sys.votes
            &&& t.proposals == sys.proposals
        },
        Step::Accept(a, p) => {
            &&& sys.acceptors.contains(a)
            &&& sys.proposals.contains(p)
            &&& t.max_ballot == after_ballot(sys, a, p.ballot)
            &&& t.votes == if rejects(sys.max_ballot[a], p.ballot) {
                sys.votes
            } else {
                sys.votes.insert(Vote { acceptor: a, ballot: p.ballot, slot: p.slot, value: p.value })
            }
            &&& t.proposals == sys.proposals
        },
        Step::Propose(q, p) => {
            &&& may_propose(sys, q, p)
            &&& t.max_ballot == sys.max_ballot
            &&& t.votes == sys.votes
            &&& t.proposals == sys.proposals.insert(p)
        },
    }
}

/// A cluster of at most `2f+1` acceptors before any message.
pub open spec fn init<P>(sys: System<P>) -> bool {
    &&& sys.acceptors.finite()
    &&& sys.acceptors.len() <= 2 * sys.f + 1
    &&& sys.max_ballot == Map::new(|a: u32| sys.acceptors.contains(a), |a: u32| None::<Ballot>)
    &&& sys.votes == Set::<Vote<P>>::empty()
    &&& sys.proposals == Set::<Proposal<P>>::empty()
}

/// No value but `p.value` is or can still be chosen at `p.slot` under any
/// ballot below `p.ballot`: for each, a quorum has moved past it without
/// voting for another value.
pub open spec fn safe_at<P>(sys: System<P>, p: Proposal<P>) -> bool {
    forall|c: Ballot, w: Option<P>| ballot_lt(c, p.ballot) && w != p.value ==> #[trigger] blocked(sys, c, p.slot, w)
}

/// Some quorum has recorded ballots above `c` and none of its members voted
/// for `w` at `slot` under `c`.
pub open spec fn blocked<P>(sys: System<P>, c: Ballot, slot: usize, w: Option<P>) -> bool {
    exists|q: Set<u32>| is_quorum(sys, q) && forall|a: u32| #[trigger] q.contains(a) ==> promised_above(sys, a, c) && !sys.votes.contains(Vote { acceptor: a, ballot: c, slot, value: w })
}

/// What holds of every reachable state.
pub open spec fn inv<P>(sys: System<P>) -> bool {
    &&& sys.acceptors.finite()
    &&& sys.acceptors.len() <= 2 * sys.f + 1
    &&& sys.max_ballot.dom() == sys.acceptors
    &&& forall|x: Vote<P>| #[trigger] sys.votes.contains(x) ==> sys.acceptors.contains(x.acceptor)
        && sys.proposals.contains(Proposal { ballot: x.ballot, slot: x.slot, value: x.value })
        && promised(sys, x.acceptor, x.ballot)
    &&& forall|p: Proposal<P>, o: Proposal<P>| #[trigger] sys.proposals.contains(p) && #[trigger] sys.proposals.contains(o) && p.ballot == o.ballot && p.slot == o.slot ==> p.value == o.value
    &&& forall|p: Proposal<P>| #[trigger] sys.proposals.contains(p) ==> safe_at(sys, p)
}

proof fn lemma_init_inv<P>(sys: System<P>)
    requires
        init(sys),
    ensures
        inv(sys),
{
    assert(sys.max_ballot.dom() =~= sys.acceptors);
}

proof fn lemma_quorums_meet<P>(sys: System<P>, q1: Set<u32>, q2: Set<u32>) -> (a: u32)
    requires
        inv(sys),
        is_quorum(sys, q1),
        is_quorum(sys, q2),
    ensures
        q1.contains(a),
        q2.contains(a),
{
    lemma_quorums_intersect(sys.acceptors, q1, q2, sys.f);
    choose|a: u32| q1.contains(a) && q2.contains(a)
}

/// Two values chosen at one slot, under any two ballots, are the same.
proof fn lemma_agreement<P>(sys: System<P>, b1: Ballot, b2: Ballot, slot: usize, v1: Option<P>, v2: Option<P>)
    requires
        inv(sys),
        chosen(sys, b1, slot, v1),
        chosen(sys, b2, slot, v2),
    ensures
        v1 == v2,
{
    let q1 = choose|q: Set<u32>| is_quorum(sys, q) && forall|a: u32| #[trigger] q.contains(a) ==> sys.votes.contains(Vote { acceptor: a, ballot: b1, slot, value: v1 });
    let q2 = choose|q: Set<u32>| is_quorum(sys, q) && forall|a: u32| #[trigger] q.contains(a) ==> sys.votes.contains(Vote { acceptor: a, ballot: b2, slot, value: v2 });
    if !ballot_lt(b1, b2) && !ballot_lt(b2, b1) {
        assert(b1 == b2);
        let a = lemma_quorums_meet(sys, q1, q2);
        let x1 = Vote { acceptor: a, ballot: b1, slot, value: v1 };
        let x2 = Vote { acceptor: a, ballot: b2, slot, value: v2 };
        assert(sys.votes.contains(x1));
        assert(sys.votes.contains(x2));
        assert(sys.proposals.contains(Proposal { ballot: b1, slot, value: v1 }));
        assert(sys.proposals.contains(Proposal { ballot: b2, slot, value: v2 }));
    } else if ballot_lt(b1, b2) {
        lemma_later_choice_agrees(sys, b1, b2, slot, v1, v2, q1, q2);
    } else {
        lemma_later_choice_agrees(sys, b2, b1, slot, v2, v1, q2, q1);
    }
}

proof fn lemma_later_choice_agrees<P>(sys: System<P>, b1: Ballot, b2: Ballot, slot: usize, v1: Option<P>, v2: Option<P>, q1: Set<u32>, q2: Set<u32>)
    requires
        inv(sys),
        ballot_lt(b1, b2),
        is_quorum(sys, q1),
        is_quorum(sys, q2),
        forall|a: u32| #[trigger] q1.contains(a) ==> sys.votes.contains(Vote { acceptor: a, ballot: b1, slot, value: v1 }),
        forall|a: u32| #[trigger] q2.contains(a) ==> sys.votes.contains(Vote { acceptor: a, ballot: b2, slot, value: v2 }),
    ensures
        v1 == v2,
{
    let a2 = lemma_quorums_meet(sys, q2, q2);
    assert(sys.votes.contains(Vote { acceptor: a2, ballot: b2, slot, value: v2 }));
    let p2 = Proposal { ballot: b2, slot, value: v2 };
    assert(sys.proposals.contains(p2));
    if v1 != v2 {
        assert(safe_at(sys, p2));
        assert(ballot_lt(b1, p2.ballot) && v1 != p2.value ==> blocked(sys, b1, p2.slot, v1));
        assert(blocked(sys, b1, slot, v1));
        let q = choose|q: Set<u32>| is_quorum(sys, q) && forall|a: u32| #[trigger] q.contains(a) ==> promised_above(sys, a, b1) && !sys.votes.contains(Vote { acceptor: a, ballot: b1, slot, value: v1 });
        let a = lemma_quorums_meet(sys, q, q1);
        assert(false);
    }
}

proof fn lemma_max_grows<P>(sys: System<P>, t: System<P>, step: Step<P>, a: u32)
    requires
        inv(sys),
        next(sys, t, step),
    ensures
        t.max_ballot.dom() == sys.max_ballot.dom(),
        forall|b: Ballot| promised(sys, a, b) ==> promised(t, a, b),
        forall|c: Ballot| promised_above(sys, a, c) ==> promised_above(t, a, c),
{
    match step {
        Step::Prepare(x, b) => {
            assert(t.max_ballot.dom() =~= sys.max_ballot.dom());
        },
        Step::Accept(x, p) => {
            assert(t.max_ballot.dom() =~= sys.max_ballot.dom());
        },
        Step::Propose(q, p) => {},
    }
}

proof fn lemma_blocked_persists<P>(sys: System<P>, t: System<P>, step: Step<P>, c: Ballot, slot: usize, w: Option<P>)
    requires
        inv(sys),
        next(sys, t, step),
        blocked(sys, c, slot, w),
    ensures
        blocked(t, c, slot, w),
{
    let q = choose|q: Set<u32>| is_quorum(sys, q) && forall|a: u32| #[trigger] q.contains(a) ==> promised_above(sys, a, c) && !sys.votes.contains(Vote { acceptor: a, ballot: c, slot, value: w });
    assert forall|a: u32| #[trigger] q.contains(a) implies promised_above(t, a, c) && !t.votes.contains(Vote { acceptor: a, ballot: c, slot, value: w }) by {
        lemma_max_grows(sys, t, step, a);
        if let Step::Accept(x, p) = step {
            if x == a && !rejects(sys.max_ballot[a], p.ballot) {
                assert(Vote { acceptor: a, ballot: c, slot, value: w } != Vote { acceptor: x, ballot: p.ballot, slot: p.slot, value: p.value });
            }
        }
    }
    assert(is_quorum(t, q));
}

proof fn lemma_propose_safe<P>(sys: System<P>, q: Set<u32>, p: Proposal<P>, c: Ballot, w: Option<P>)
    requires
        inv(sys),
        may_propose(sys, q, p),
        ballot_lt(c, p.ballot),
        w != p.value,
    ensures
        blocked(sys, c, p.slot, w),
{
    if exists|m: Vote<P>| #[trigger] sys.votes.contains(m) && reported(q, p.ballot, p.slot, m) && m.value == p.value
        && ballot_lt(c, m.ballot) {
        let m = choose|m: Vote<P>| #[trigger] sys.votes.contains(m) && reported(q, p.ballot, p.slot, m) && m.value == p.value
            && ballot_lt(c, m.ballot);
        let pm = Proposal { ballot: m.ballot, slot: m.slot, value: m.value };
        assert(sys.proposals.contains(pm));
        assert(safe_at(sys, pm));
        assert(ballot_lt(c, pm.ballot) && w != pm.value ==> blocked(sys, c, pm.slot, w));
    } else {
        assert forall|a: u32| #[trigger] q.contains(a) implies promised_above(sys, a, c) && !sys.votes.contains(Vote { acceptor: a, ballot: c, slot: p.slot, value: w }) by {
            let x = Vote { acceptor: a, ballot: c, slot: p.slot, value: w };
            if sys.votes.contains(x) {
                assert(reported(q, p.ballot, p.slot, x));
                let m = choose|m: Vote<P>| #[trigger] sys.votes.contains(m) && reported(q, p.ballot, p.slot, m) && m.value == p.value
                    && forall|y: Vote<P>| #[trigger] sys.votes.contains(y) && reported(q, p.ballot, p.slot, y) ==> ballot_le(y.ballot, m.ballot);
                assert(ballot_le(c, m.ballot));
                assert(c == m.ballot);
                let px = Proposal { ballot: c, slot: p.slot, value: w };
                let pm = Proposal { ballot: m.ballot, slot: m.slot, value: m.value };
                assert(sys.proposals.contains(px));
                assert(sys.proposals.contains(pm));
            }
        }
    }
}

proof fn lemma_next_inv<P>(sys: System<P>, t: System<P>, step: Step<P>)
    requires
        inv(sys),
        next(sys, t, step),
    ensures
        inv(t),
{
    lemma_max_grows(sys, t, step, 0);
    assert forall|x: Vote<P>| #[trigger] t.votes.contains(x) implies t.acceptors.contains(x.acceptor)
        && t.proposals.contains(Proposal { ballot: x.ballot, slot: x.slot, value: x.value })
        && promised(t, x.acceptor, x.ballot) by {
        lemma_max_grows(sys, t, step, x.acceptor);
        if let Step::Accept(a, p) = step {
            if !sys.votes.contains(x) {
                assert(x == Vote { acceptor: a, ballot: p.ballot, slot: p.slot, value: p.value });
                assert(Proposal { ballot: x.ballot, slot: x.slot, value: x.value } == p);
            }
        }
    }
    assert forall|p: Proposal<P>| #[trigger] t.proposals.contains(p) implies safe_at(t, p) by {
        assert forall|c: Ballot, w: Option<P>| ballot_lt(c, p.ballot) && w != p.value implies #[trigger] blocked(t, c, p.slot, w) by {
            if sys.proposals.contains(p) {
                assert(safe_at(sys, p));
                assert(blocked(sys, c, p.slot, w));
                lemma_blocked_persists(sys, t, step, c, p.slot, w);
            } else {
                if let Step::Propose(q, np) = step {
                    assert(p == np);
                    lemma_propose_safe(sys, q, p, c, w);
                    lemma_blocked_persists(sys, t, step, c, p.slot, w);
                }
            }
        }
    }
}

/// `trace` is a run of the cluster: it starts before any message and each
/// state follows from the one before by `steps`.
pub open spec fn is_run<P>(trace: Seq<System<P>>, steps: Seq<Step<P>>) -> bool {
    &&& trace.len() == steps.len() + 1
    &&& init(trace[0])
    &&& forall|i: int| 0 <= i < steps.len() ==> next(trace[i], #[trigger] trace[i + 1], steps[i])
}

proof fn lemma_run_inv<P>(trace: Seq<System<P>>, steps: Seq<Step<P>>, k: int)
    requires
        is_run(trace, steps),
        0 <= k < trace.len(),
    ensures
        inv(trace[k]),
    decreases k,
{
    if k == 0 {
        lemma_init_inv(trace[0]);
    } else {
        lemma_run_inv(trace, steps, k - 1);
        assert(next(trace[k - 1], trace[(k - 1) + 1], steps[k - 1]));
        lemma_next_inv(trace[k - 1], trace[k], steps[k - 1]);
    }
}

proof fn lemma_chosen_stays<P>(trace: Seq<System<P>>, steps: Seq<Step<P>>, i: int, j: int, b: Ballot, slot: usize, v: Option<P>)
    requires
        is_run(trace, steps),
        0 <= i <= j < trace.len(),
        chosen(trace[i], b, slot, v),
    ensures
        chosen(trace[j], b, slot, v),
    decreases j - i,
{
    if i < j {
        let sys = trace[i];
        let t = trace[i + 1];
        assert(next(sys, t, steps[i]));
        let q = choose|q: Set<u32>| is_quorum(sys, q) && forall|a: u32| #[trigger] q.contains(a) ==> sys.votes.contains(Vote { acceptor: a, ballot: b, slot, value: v });
        assert(sys.votes.subset_of(t.votes));
        assert(is_quorum(t, q) && forall|a: u32| #[trigger] q.contains(a) ==> t.votes.contains(Vote { acceptor: a, ballot: b, slot, value: v }));
        lemma_chosen_stays(trace, steps, i + 1, j, b, slot, v);
    }
}

/// Safety: in any run, however often leadership changed, a value chosen at a
/// slot at one point and a value chosen at that slot at another point, under
/// any ballots, are the same value.
pub proof fn lemma_safety<P>(
    trace: Seq<System<P>>,
    steps: Seq<Step<P>>,
    i: int,
    j: int,
    b1: Ballot,
    b2: Ballot,
    slot: usize,
    v1: Option<P>,
    v2: Option<P>,
)
    requires
        is_run(trace, steps),
        0 <= i < trace.len(),
        0 <= j < trace.len(),
        chosen(trace[i], b1, slot, v1),
        chosen(trace[j], b2, slot, v2),
    ensures
        v1 == v2,
{
    let k = if i <= j { j } else { i };
    lemma_chosen_stays(trace, steps, i, k, b1, slot, v1);
    lemma_chosen_stays(trace, steps, j, k, b2, slot, v2);
    lemma_run_inv(trace, steps, k);
    lemma_agreement(trace[k], b1, b2, slot, v1, v2);
}

/// The model's acceptors record ballots by the acceptor role's own rules: the
/// ballot an acceptor holds after a step is the one `prepare_state` and
/// `accept_state` give, and a vote is cast exactly when an accept is not
/// refused, which is when `accept_state` writes the entry.
pub proof fn lemma_model_follows_acceptor<P>(sys: System<P>, a: u32, v: AcceptorView<P>, b: Ballot, slot: usize, value: Option<P>)
    requires
        sys.max_ballot.contains_key(a),
        sys.max_ballot[a] == v.max_ballot,
    ensures
        after_ballot(sys, a, b)[a] == prepare_state(v, b).max_ballot,
        after_ballot(sys, a, b)[a] == accept_state(v, b, slot, value).max_ballot,
        !rejects(v.max_ballot, b) ==> accept_state(v, b, slot, value).log[slot] == (LogValue { ballot: b, value }),
{
}

} // verus!
