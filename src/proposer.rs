//! The proposer role: recovering the log from Phase 1 promises and driving
//! Phase 2 for recovered and new values.
use crate::acceptor::{AcceptReply, LogValue, P2a, PrepareReply};
use crate::ballot::{ballot_le, ballot_lt, Acceptor, Ballot, MemberId, Proposer};
use crate::election::{mint_ballot, next_ballot};
use crate::quorum::{collect_step, counts, QuorumCollector, QuorumResponse, RoundKey};
use vstd::prelude::*;

verus! {

/// One more than the highest slot among the entries, or 0 when there are none.
pub open spec fn slot_bound<P>(s: Seq<(usize, LogValue<P>)>) -> nat
    decreases s.len(),
{
    if s.len() == 0 {
        0
    } else {
        let b = slot_bound(s.drop_last());
        if b > s.last().0 + 1 {
            b
        } else {
            (s.last().0 + 1) as nat
        }
    }
}

/// Entry `i` is the first among those at slot `slot` whose ballot is the
/// highest there.
pub open spec fn is_best<P>(s: Seq<(usize, LogValue<P>)>, slot: usize, i: int) -> bool {
    &&& 0 <= i < s.len()
    &&& s[i].0 == slot
    &&& forall|j: int| 0 <= j < s.len() && s[j].0 == slot ==> ballot_le(#[trigger] s[j].1.ballot, s[i].1.ballot)
    &&& forall|j: int| 0 <= j < i && s[j].0 == slot ==> ballot_lt(#[trigger] s[j].1.ballot, s[i].1.ballot)
}

/// What the recovery of slot `slot` from the entries `s` must be.
pub open spec fn recovered_at<P>(s: Seq<(usize, LogValue<P>)>, slot: usize, r: Option<LogValue<P>>) -> bool {
    match r {
        None => forall|i: int| 0 <= i < s.len() ==> #[trigger] s[i].0 != slot,
        Some(e) => exists|i: int| is_best(s, slot, i) && s[i].1 == e,
    }
}

proof fn lemma_slot_bound<P>(s: Seq<(usize, LogValue<P>)>)
    ensures
        forall|i: int| 0 <= i < s.len() ==> #[trigger] s[i].0 < slot_bound(s),
        s.len() > 0 ==> exists|i: int| 0 <= i < s.len() && slot_bound(s) == #[trigger] s[i].0 + 1,
        s.len() == 0 ==> slot_bound(s) == 0,
    decreases s.len(),
{
    if s.len() > 0 {
        let p = s.drop_last();
        lemma_slot_bound(p);
        assert forall|i: int| 0 <= i < s.len() implies #[trigger] s[i].0 < slot_bound(s) by {
            if i < s.len() - 1 {
                assert(p[i] == s[i]);
            }
        }
        if slot_bound(s) != s.last().0 + 1 {
            let i = choose|i: int| 0 <= i < p.len() && slot_bound(p) == #[trigger] p[i].0 + 1;
            assert(s[i] == p[i]);
        }
    }
}

/// For every slot below the highest slot reported, the entry with the highest
/// ballot among the promised entries (the first such where ballots tie), or
/// `None` where no acceptor reported anything: a hole to fill with a no-op.
pub fn recover_log<P: Copy>(entries: &Vec<(usize, LogValue<P>)>) -> (r: Vec<Option<LogValue<P>>>)
    requires
        forall|i: int| 0 <= i < entries@.len() ==> #[trigger] entries@[i].0 < usize::MAX,
    ensures
        r@.len() == slot_bound(entries@),
        forall|s: int| 0 <= s < r@.len() ==> recovered_at(entries@, s as usize, #[trigger] r@[s]),
{
    let ghost es = entries@;
    let mut bound: usize = 0;
    let mut k: usize = 0;
    while k < entries.len()
        invariant
            k <= entries@.len(),
            es == entries@,
            forall|i: int| 0 <= i < entries@.len() ==> #[trigger] entries@[i].0 < usize::MAX,
            bound == slot_bound(es.take(k as int)),
        decreases entries.len() - k,
    {
        proof {
            assert(es.take(k + 1).drop_last() =~= es.take(k as int));
        }
        let s = entries[k].0;
        if s + 1 > bound {
            bound = s + 1;
        }
        k = k + 1;
    }
    proof {
        assert(es.take(k as int) =~= es);
        lemma_slot_bound(es);
    }
    let mut best: Vec<Option<LogValue<P>>> = Vec::new();
    while best.len() < bound
        invariant
            best@.len() <= bound,
            forall|s: int| 0 <= s < best@.len() ==> #[trigger] best@[s] is None,
        decreases bound - best.len(),
    {
        best.push(None);
    }
    let ghost mut idx: Seq<int> = Seq::new(bound as nat, |s: int| 0);
    k = 0;
    while k < entries.len()
        invariant
            k <= entries@.len(),
            es == entries@,
            best@.len() == bound,
            bound == slot_bound(es),
            idx.len() == bound,
            forall|i: int| 0 <= i < es.len() ==> #[trigger] es[i].0 < bound,
            forall|s: int| 0 <= s < bound ==> (#[trigger] best@[s] is None <==> forall|i: int| 0 <= i < k ==> #[trigger] es[i].0 != s),
            forall|s: int| 0 <= s < bound && #[trigger] best@[s] is Some ==> is_best(es.take(k as int), s as usize, idx[s]) && best@[s] == Some(es[idx[s]].1),
        decreases entries.len() - k,
    {
        let (s, e) = entries[k];
        let replace = match best[s] {
            None => true,
            Some(cur) => cur.ballot.lt(&e.ballot),
        };
        let ghost tk = es.take(k as int);
        let ghost tk1 = es.take(k + 1);
        if replace {
            best.set(s, Some(e));
            proof {
                idx = idx.update(s as int, k as int);
            }
        }
        proof {
            assert forall|t: int| 0 <= t < bound && #[trigger] best@[t] is Some implies is_best(tk1, t as usize, idx[t]) && best@[t] == Some(es[idx[t]].1) by {
                assert(tk1[k as int] == es[k as int]);
                if t != s {
                    assert(is_best(tk, t as usize, idx[t]));
                    assert forall|j: int| 0 <= j < tk1.len() && tk1[j].0 == t as usize implies ballot_le(#[trigger] tk1[j].1.ballot, tk1[idx[t]].1.ballot) by {
                        assert(j < k);
                        assert(tk[j] == tk1[j]);
                    }
                } else if !replace {
                    assert(is_best(tk, t as usize, idx[t]));
                    assert forall|j: int| 0 <= j < tk1.len() && tk1[j].0 == t as usize implies ballot_le(#[trigger] tk1[j].1.ballot, tk1[idx[t]].1.ballot) by {
                        if j < k {
                            assert(tk[j] == tk1[j]);
                        }
                    }
                } else {
                    assert forall|j: int| 0 <= j < tk1.len() && tk1[j].0 == t as usize implies ballot_le(#[trigger] tk1[j].1.ballot, tk1[idx[t]].1.ballot) by {
                        if j < k {
                            assert(tk[j] == tk1[j]);
                        }
                    }
                    assert forall|j: int| 0 <= j < idx[t] && tk1[j].0 == t as usize implies ballot_lt(#[trigger] tk1[j].1.ballot, tk1[idx[t]].1.ballot) by {
                        assert(tk[j] == tk1[j]);
                    }
                }
            }
        }
        k = k + 1;
    }
    proof {
        assert(es.take(k as int) =~= es);
        assert forall|s: int| 0 <= s < best@.len() implies recovered_at(es, s as usize, #[trigger] best@[s]) by {
            if best@[s] is Some {
                assert(is_best(es, s as usize, idx[s]));
            }
        }
    }
    best
}

/// The value to re-propose at `slot` after recovering from the entries `s`:
/// the value of the best entry there, or `None` (a no-op) for a hole.
pub open spec fn reproposal<P>(s: Seq<(usize, LogValue<P>)>, slot: usize, v: Option<P>) -> bool {
    ||| (forall|i: int| 0 <= i < s.len() ==> #[trigger] s[i].0 != slot) && v is None
    ||| exists|i: int| is_best(s, slot, i) && v == s[i].1.value
}

/// The two states agree in everything a caller can observe.
pub open spec fn same_state<P>(a: ProposerState<P>, b: ProposerState<P>) -> bool {
    &&& a.id == b.id
    &&& a.quorum == b.quorum
    &&& a.max_seen == b.max_seen
    &&& a.ballot == b.ballot
    &&& a.phase == b.phase
    &&& a.promises@ == b.promises@
    &&& a.promises.round() == b.promises.round()
    &&& a.promises.threshold() == b.promises.threshold()
    &&& a.promised_log == b.promised_log
    &&& a.next_slot == b.next_slot
    &&& a.pending == b.pending
}

/// Where a proposer stands in its current round.
#[derive(Clone, Copy, Debug, PartialEq, Eq, Structural)]
pub enum Phase {
    /// No round is live.
    Idle,
    /// Phase 1 is collecting promises.
    Preparing,
    /// Phase 1 succeeded; Phase 2 runs under the ballot.
    Leading,
}

/// A slot whose accept message is out, with the acknowledgements so far.
pub struct PendingSlot<P> {
    pub request: P2a<P, Proposer>,
    pub acks: QuorumCollector<()>,
}

/// One proposer's state.
pub struct ProposerState<P> {
    pub id: MemberId<Proposer>,
    /// The number of responses that make a quorum, `f + 1`.
    pub quorum: usize,
    pub max_seen: Option<Ballot>,
    pub ballot: Option<Ballot>,
    pub phase: Phase,
    pub promises: QuorumCollector<()>,
    /// The entries of the promises counted so far.
    pub promised_log: Vec<(usize, LogValue<P>)>,
    pub next_slot: usize,
    pub pending: Vec<PendingSlot<P>>,
}

impl<P: Copy> ProposerState<P> {
    /// The state is consistent: a live round has a ballot, which is the
    /// highest seen, and the promise collector is keyed by it.
    pub open spec fn wf(&self) -> bool {
        &&& self.phase != Phase::Idle ==> (self.ballot matches Some(b) && self.promises.round()
            == RoundKey::Prepare(b) && self.promises.threshold() == self.quorum)
        &&& forall|i: int| 0 <= i < self.pending@.len() ==> (#[trigger] self.pending@[i]).acks.threshold() == self.quorum
        &&& forall|i: int| 0 <= i < self.pending@.len() ==> (#[trigger] self.pending@[i]).acks.round() == RoundKey::Accept(self.pending@[i].request.ballot, self.pending@[i].request.slot)
        &&& forall|i: int| 0 <= i < self.pending@.len() ==> (#[trigger] self.pending@[i]).request.slot < self.next_slot
        &&& forall|i: int, j: int| 0 <= i < self.pending@.len() && 0 <= j < self.pending@.len() && i != j ==> (#[trigger] self.pending@[i]).request.slot != (#[trigger] self.pending@[j]).request.slot
    }

    /// An idle proposer that has seen no ballot.
    pub fn new(id: MemberId<Proposer>, quorum: usize) -> (r: ProposerState<P>)
        ensures
            r.wf(),
            r.id == id,
            r.quorum == quorum,
            r.max_seen is None,
            r.ballot is None,
            r.phase == Phase::Idle,
            r.promised_log@.len() == 0,
            r.next_slot == 0,
            r.pending@.len() == 0,
    {
        let b0 = Ballot { num: 0, proposer_id: id };
        ProposerState {
            id,
            quorum,
            max_seen: None,
            ballot: None,
            phase: Phase::Idle,
            promises: QuorumCollector::new(RoundKey::Prepare(b0), quorum),
            promised_log: Vec::new(),
            next_slot: 0,
            pending: Vec::new(),
        }
    }

    /// Starts Phase 1 under a ballot above every ballot seen, abandoning any
    /// round in flight, Phase 2 waits included. Returns the ballot to send
    /// prepare messages under, or `None` when the rounds are exhausted.
    pub fn start_phase1(&mut self) -> (r: Option<Ballot>)
        requires
            old(self).wf(),
        ensures
            final(self).wf(),
            r == next_ballot(old(self).max_seen, old(self).id),
            final(self).id == old(self).id,
            final(self).quorum == old(self).quorum,
            r is None ==> final(self).phase == old(self).phase && final(self).ballot == old(self).ballot,
            r matches Some(b) ==> {
                &&& final(self).ballot == Some(b)
                &&& final(self).max_seen == Some(b)
                &&& final(self).phase == Phase::Preparing
                &&& final(self).promises@.len() == 0
                &&& final(self).promised_log@.len() == 0
                &&& final(self).pending@.len() == 0
            },
    {
        let r = mint_ballot(self.max_seen, self.id);
        if let Some(b) = r {
            self.ballot = Some(b);
            self.max_seen = Some(b);
            self.phase = Phase::Preparing;
            self.promises = QuorumCollector::new(RoundKey::Prepare(b), self.quorum);
            self.promised_log = Vec::new();
            self.pending = Vec::new();
        }
        r
    }

    /// Records a ballot seen in a reject; a higher one than this proposer's
    /// own ends its round.
    fn observe(&mut self, b: Ballot)
        requires
            old(self).wf(),
        ensures
            final(self).wf(),
            final(self).id == old(self).id,
            final(self).quorum == old(self).quorum,
            final(self).ballot == old(self).ballot,
            final(self).next_slot == old(self).next_slot,
            final(self).promises == old(self).promises,
            final(self).promised_log == old(self).promised_log,
            (old(self).max_seen matches Some(m) && !ballot_lt(m, b)) ==> *final(self) == *old(self),
            !(old(self).max_seen matches Some(m) && !ballot_lt(m, b)) ==> {
                &&& final(self).max_seen == Some(b)
                &&& final(self).phase == Phase::Idle
                &&& final(self).pending@.len() == 0
            },
    {
        if let Some(m) = self.max_seen {
            if !m.lt(&b) {
                return;
            }
        }
        self.max_seen = Some(b);
        self.phase = Phase::Idle;
        self.pending = Vec::new();
    }

    /// Handles a prepare reply from `from`. A reject with a higher ballot
    /// ends the round. A promise for the current Phase 1 from a member not
    /// yet counted adds its log; the one that completes the quorum makes this
    /// proposer lead, and the accept messages that re-propose the recovered
    /// log, one per slot below the highest reported, come back.
    pub fn on_prepare_reply(&mut self, from: MemberId<Acceptor>, reply: PrepareReply<P>) -> (r: Vec<P2a<P, Proposer>>)
        requires
            old(self).wf(),
            old(self).promised_log@.len() + (if reply is Promise { reply->log@.len() } else { 0 }) <= usize::MAX,
            forall|i: int| 0 <= i < old(self).promised_log@.len() ==> #[trigger] old(self).promised_log@[i].0 < usize::MAX,
            reply matches PrepareReply::Promise { log, .. } ==> forall|i: int| 0 <= i < log@.len() ==> #[trigger] log@[i].0 < usize::MAX,
        ensures
            final(self).wf(),
            final(self).id == old(self).id,
            final(self).quorum == old(self).quorum,
            forall|i: int| 0 <= i < final(self).promised_log@.len() ==> #[trigger] final(self).promised_log@[i].0 < usize::MAX,
            reply matches PrepareReply::Reject { max_ballot } ==> r@.len() == 0 && ((old(self).max_seen matches Some(m) && !ballot_lt(m, max_ballot)) ==> *final(self) == *old(self)) && (!(old(self).max_seen matches Some(m) && !ballot_lt(m, max_ballot)) ==> final(self).max_seen == Some(max_ballot) && final(self).phase == Phase::Idle && final(self).pending@.len() == 0),
            reply matches PrepareReply::Promise { ballot, log } ==> {
                let resp = QuorumResponse { round: RoundKey::Prepare(ballot), member: from, payload: () };
                if old(self).phase == Phase::Preparing && counts(old(self).promises@, resp, old(self).promises.round(), old(self).promises.threshold()) {
                    &&& final(self).promises@ == old(self).promises@.push(resp)
                    &&& final(self).promised_log@ == old(self).promised_log@ + log@
                    &&& if final(self).promises@.len() >= final(self).quorum {
                        &&& final(self).phase == Phase::Leading
                        &&& r@.len() == slot_bound(final(self).promised_log@)
                        &&& final(self).next_slot == r@.len()
                        &&& forall|s: int| 0 <= s < r@.len() ==> {
                            &&& (#[trigger] r@[s]).slot == s
                            &&& r@[s].ballot == ballot
                            &&& r@[s].sender == old(self).id
                            &&& reproposal(final(self).promised_log@, s as usize, r@[s].value)
                        }
                    } else {
                        &&& final(self).phase == Phase::Preparing
                        &&& r@.len() == 0
                    }
                } else {
                    &&& same_state(*final(self), *old(self))
                    &&& r@.len() == 0
                }
            },
    {
        match reply {
            PrepareReply::Reject { max_ballot } => {
                self.observe(max_ballot);
                Vec::new()
            },
            PrepareReply::Promise { ballot, log } => {
                let resp = QuorumResponse { round: RoundKey::Prepare(ballot), member: from, payload: () };
                if self.phase != Phase::Preparing {
                    return Vec::new();
                }
                let ghost before = self.promises@;
                let counted = self.promises.offer(resp);
                if !counted {
                    return Vec::new();
                }
                let mut log = log;
                self.promised_log.append(&mut log);
                if !self.promises.is_reached() {
                    return Vec::new();
                }
                self.phase = Phase::Leading;
                self.lead(ballot)
            },
        }
    }

    /// Builds and registers the accept messages that re-propose the log
    /// recovered from the promises.
    fn lead(&mut self, ballot: Ballot) -> (r: Vec<P2a<P, Proposer>>)
        requires
            old(self).wf(),
            forall|i: int| 0 <= i < old(self).promised_log@.len() ==> #[trigger] old(self).promised_log@[i].0 < usize::MAX,
        ensures
            final(self).wf(),
            final(self).id == old(self).id,
            final(self).quorum == old(self).quorum,
            final(self).max_seen == old(self).max_seen,
            final(self).ballot == old(self).ballot,
            final(self).phase == old(self).phase,
            final(self).promises == old(self).promises,
            final(self).promised_log == old(self).promised_log,
            r@.len() == slot_bound(old(self).promised_log@),
            final(self).next_slot == r@.len(),
            forall|s: int| 0 <= s < r@.len() ==> {
                &&& (#[trigger] r@[s]).slot == s
                &&& r@[s].ballot == ballot
                &&& r@[s].sender == old(self).id
                &&& reproposal(old(self).promised_log@, s as usize, r@[s].value)
            },
    {
        let best = recover_log(&self.promised_log);
        let ghost es = self.promised_log@;
        let mut out: Vec<P2a<P, Proposer>> = Vec::new();
        let mut pending: Vec<PendingSlot<P>> = Vec::new();
        let mut s: usize = 0;
        while s < best.len()
            invariant
                s <= best@.len(),
                best@.len() == slot_bound(es),
                forall|t: int| 0 <= t < best@.len() ==> recovered_at(es, t as usize, #[trigger] best@[t]),
                out@.len() == s,
                pending@.len() == s,
                forall|t: int| 0 <= t < s ==> {
                    &&& (#[trigger] out@[t]).slot == t
                    &&& out@[t].ballot == ballot
                    &&& out@[t].sender == self.id
                    &&& reproposal(es, t as usize, out@[t].value)
                },
                forall|i: int| 0 <= i < pending@.len() ==> (#[trigger] pending@[i]).acks.threshold() == self.quorum,
                forall|i: int| 0 <= i < pending@.len() ==> (#[trigger] pending@[i]).request.slot == i,
                forall|i: int| 0 <= i < pending@.len() ==> (#[trigger] pending@[i]).acks.round() == RoundKey::Accept(pending@[i].request.ballot, pending@[i].request.slot),
            decreases best@.len() - s,
        {
            let value = match best[s] {
                Some(e) => e.value,
                None => None,
            };
            proof {
                let t = s as int;
                if best@[t] is Some {
                    let i = choose|i: int| is_best(es, s, i) && es[i].1 == best@[t].unwrap();
                    assert(is_best(es, s, i) && value == es[i].1.value);
                }
            }
            let req = P2a { sender: self.id, ballot, slot: s, value };
            out.push(req);
            pending.push(PendingSlot { request: req, acks: QuorumCollector::new(RoundKey::Accept(ballot, s), self.quorum) });
            s = s + 1;
        }
        self.pending = pending;
        self.next_slot = s;
        out
    }

    /// Assigns the batch of client values consecutive slots from the next
    /// free one and returns their accept messages, while this proposer leads;
    /// returns nothing otherwise.
    pub fn propose(&mut self, values: Vec<P>) -> (r: Vec<P2a<P, Proposer>>)
        requires
            old(self).wf(),
            old(self).next_slot + values@.len() <= usize::MAX,
        ensures
            final(self).wf(),
            final(self).id == old(self).id,
            final(self).quorum == old(self).quorum,
            final(self).max_seen == old(self).max_seen,
            final(self).ballot == old(self).ballot,
            final(self).phase == old(self).phase,
            final(self).promises == old(self).promises,
            final(self).promised_log == old(self).promised_log,
            old(self).phase != Phase::Leading ==> r@.len() == 0 && final(self).next_slot == old(self).next_slot
                && final(self).pending == old(self).pending,
            old(self).phase == Phase::Leading ==> {
                &&& r@.len() == values@.len()
                &&& final(self).next_slot == old(self).next_slot + values@.len()
                &&& final(self).pending@.len() == old(self).pending@.len() + values@.len()
                &&& forall|i: int| 0 <= i < r@.len() ==> {
                    &&& (#[trigger] r@[i]).slot == old(self).next_slot + i
                    &&& r@[i].value == Some(values@[i])
                    &&& r@[i].ballot == old(self).ballot.unwrap()
                    &&& r@[i].sender == old(self).id
                }
            },
    {
        if self.phase != Phase::Leading {
            return Vec::new();
        }
        let ballot = match self.ballot {
            Some(b) => b,
            None => return Vec::new(),
        };
        let mut out: Vec<P2a<P, Proposer>> = Vec::new();
        let mut i: usize = 0;
        let ghost start = self.next_slot;
        let ghost pending0 = self.pending@;
        while i < values.len()
            invariant
                i <= values@.len(),
                self.wf(),
                self.ballot == Some(ballot),
                self.phase == Phase::Leading,
                self.id == old(self).id,
                self.quorum == old(self).quorum,
                self.max_seen == old(self).max_seen,
                self.promises == old(self).promises,
                self.promised_log == old(self).promised_log,
                start == old(self).next_slot,
                start + values@.len() <= usize::MAX,
                self.next_slot == start + i,
                out@.len() == i,
                self.pending@.len() == pending0.len() + i,
                pending0 == old(self).pending@,
                forall|t: int| 0 <= t < i ==> {
                    &&& (#[trigger] out@[t]).slot == start + t
                    &&& out@[t].value == Some(values@[t])
                    &&& out@[t].ballot == ballot
                    &&& out@[t].sender == self.id
                },
            decreases values@.len() - i,
        {
            let req = P2a { sender: self.id, ballot, slot: self.next_slot, value: Some(values[i]) };
            out.push(req);
            self.pending.push(PendingSlot { request: req, acks: QuorumCollector::new(RoundKey::Accept(ballot, self.next_slot), self.quorum) });
            self.next_slot = self.next_slot + 1;
            i = i + 1;
        }
        out
    }

    /// Handles an accept reply from `from`. A reject with a higher ballot
    /// ends the round. An acknowledgement counts towards its slot's quorum;
    /// the one that completes it commits the slot, which comes back as
    /// `(slot, value)` this once and leaves the pending set.
    pub fn on_accept_reply(&mut self, from: MemberId<Acceptor>, reply: AcceptReply) -> (r: Option<(usize, Option<P>)>)
        requires
            old(self).wf(),
        ensures
            final(self).wf(),
            final(self).id == old(self).id,
            final(self).quorum == old(self).quorum,
            final(self).ballot == old(self).ballot,
            final(self).next_slot == old(self).next_slot,
            final(self).promises == old(self).promises,
            final(self).promised_log == old(self).promised_log,
            reply matches AcceptReply::Reject { max_ballot } ==> r is None && ((old(self).max_seen matches Some(m) && !ballot_lt(m, max_ballot)) ==> *final(self) == *old(self)) && (!(old(self).max_seen matches Some(m) && !ballot_lt(m, max_ballot)) ==> final(self).max_seen == Some(max_ballot) && final(self).phase == Phase::Idle && final(self).pending@.len() == 0),
            reply matches AcceptReply::Ack { ballot, slot } ==> {
                &&& final(self).phase == old(self).phase
                &&& final(self).max_seen == old(self).max_seen
                &&& (old(self).phase == Phase::Leading && exists|i: int| 0 <= i < old(self).pending@.len()
                    && (#[trigger] old(self).pending@[i]).request.slot == slot
                    && old(self).pending@[i].request.ballot == ballot
                    && counts(old(self).pending@[i].acks@, QuorumResponse { round: RoundKey::Accept(ballot, slot), member: from, payload: () }, RoundKey::Accept(ballot, slot), old(self).quorum as nat)
                    && old(self).pending@[i].acks@.len() + 1 == old(self).quorum) ==> r is Some
                &&& r is None ==> {
                    &&& final(self).pending@.len() == old(self).pending@.len()
                    &&& forall|j: int| 0 <= j < old(self).pending@.len() ==> {
                        &&& (#[trigger] final(self).pending@[j]).request == old(self).pending@[j].request
                        &&& final(self).pending@[j].acks@ == if old(self).phase == Phase::Leading
                            && old(self).pending@[j].request.slot == slot && old(self).pending@[j].request.ballot == ballot {
                            collect_step(old(self).pending@[j].acks@, QuorumResponse { round: RoundKey::Accept(ballot, slot), member: from, payload: () }, RoundKey::Accept(ballot, slot), old(self).quorum as nat)
                        } else {
                            old(self).pending@[j].acks@
                        }
                    }
                }
                &&& r matches Some((s, v)) ==> {
                    let i = choose|i: int| 0 <= i < old(self).pending@.len() && (#[trigger] old(self).pending@[i]).request.slot == slot && old(self).pending@[i].request.ballot == ballot;
                    &&& old(self).phase == Phase::Leading
                    &&& 0 <= i < old(self).pending@.len()
                    &&& old(self).pending@[i].request.slot == slot
                    &&& old(self).pending@[i].request.ballot == ballot
                    &&& s == slot
                    &&& v == old(self).pending@[i].request.value
                    &&& counts(old(self).pending@[i].acks@, QuorumResponse { round: RoundKey::Accept(ballot, slot), member: from, payload: () }, RoundKey::Accept(ballot, slot), old(self).quorum as nat)
                    &&& old(self).pending@[i].acks@.len() + 1 == old(self).quorum
                    &&& final(self).pending@ == old(self).pending@.remove(i)
                }
            },
    {
        match reply {
            AcceptReply::Reject { max_ballot } => {
                self.observe(max_ballot);
                None
            },
            AcceptReply::Ack { ballot, slot } => {
                if self.phase != Phase::Leading {
                    return None;
                }
                let key = RoundKey::Accept(ballot, slot);
                let mut i: usize = 0;
                while i < self.pending.len() && !(self.pending[i].request.slot == slot && self.pending[i].request.ballot.num == ballot.num && self.pending[i].request.ballot.proposer_id.raw_id == ballot.proposer_id.raw_id)
                    invariant
                        i <= self.pending@.len(),
                        forall|j: int| 0 <= j < i ==> !((#[trigger] self.pending@[j]).request.slot == slot && self.pending@[j].request.ballot == ballot),
                    decreases self.pending@.len() - i,
                {
                    i = i + 1;
                }
                if i == self.pending.len() {
                    proof {
                        if exists|k: int| 0 <= k < self.pending@.len() && (#[trigger] self.pending@[k]).request.slot == slot && self.pending@[k].request.ballot == ballot {
                            let k = choose|k: int| 0 <= k < self.pending@.len() && (#[trigger] self.pending@[k]).request.slot == slot && self.pending@[k].request.ballot == ballot;
                            assert(!(self.pending@[k].request.slot == slot && self.pending@[k].request.ballot == ballot));
                        }
                    }
                    return None;
                }
                proof {
                    if exists|k: int| 0 <= k < self.pending@.len() && (#[trigger] self.pending@[k]).request.slot == slot && self.pending@[k].request.ballot == ballot {
                        let k = choose|k: int| 0 <= k < self.pending@.len() && (#[trigger] self.pending@[k]).request.slot == slot && self.pending@[k].request.ballot == ballot;
                        if k != i {
                            assert(self.pending@[k].request.slot != self.pending@[i as int].request.slot);
                        }
                    }
                }
                let ghost old_pending = self.pending@;
                let mut entry = self.pending.remove(i);
                let resp = QuorumResponse { round: key, member: from, payload: () };
                let counted = entry.acks.offer(resp);
                if counted && entry.acks.is_reached() {
                    proof {
                        let k = choose|k: int| 0 <= k < old_pending.len() && (#[trigger] old_pending[k]).request.slot == slot && old_pending[k].request.ballot == ballot;
                        assert(k == i) by {
                            if k < i {
                                assert(!(old_pending[k].request.slot == slot && old_pending[k].request.ballot == ballot));
                            }
                        }
                    }
                    return Some((slot, entry.request.value));
                }
                proof {
                    if exists|k: int| 0 <= k < old_pending.len() && (#[trigger] old_pending[k]).request.slot == slot && old_pending[k].request.ballot == ballot && counts(old_pending[k].acks@, resp, RoundKey::Accept(ballot, slot), self.quorum as nat) && old_pending[k].acks@.len() + 1 == self.quorum {
                        let k = choose|k: int| 0 <= k < old_pending.len() && (#[trigger] old_pending[k]).request.slot == slot && old_pending[k].request.ballot == ballot && counts(old_pending[k].acks@, resp, RoundKey::Accept(ballot, slot), self.quorum as nat) && old_pending[k].acks@.len() + 1 == self.quorum;
                        if k != i {
                            assert(old_pending[k].request.slot != old_pending[i as int].request.slot);
                        }
                        assert(false);
                    }
                }
                self.pending.insert(i, entry);
                proof {
                    assert(self.pending@[i as int].request == old_pending[i as int].request);
                    assert forall|j: int| 0 <= j < self.pending@.len() && j != i implies self.pending@[j] == old_pending[j] by {
                    }
                    assert forall|j: int| 0 <= j < old_pending.len() && j != i implies !(old_pending[j].request.slot == slot && old_pending[j].request.ballot == ballot) by {
                        assert(old_pending[j].request.slot != old_pending[i as int].request.slot);
                    }
                }
                None
            },
        }
    }
}

/// Recovery keeps a value that may have been chosen: where the promised
/// entries hold at `slot` some entry with a ballot at or above `b`, and every
/// such entry carries `v`, the value re-proposed at `slot` is `v`.
pub proof fn lemma_recovery_keeps_chosen<P>(es: Seq<(usize, LogValue<P>)>, slot: usize, b: Ballot, v: P, r: Option<P>)
    requires
        reproposal(es, slot, r),
        exists|i: int| 0 <= i < es.len() && es[i].0 == slot && ballot_le(b, #[trigger] es[i].1.ballot),
        forall|i: int| 0 <= i < es.len() && es[i].0 == slot && ballot_le(b, #[trigger] es[i].1.ballot) ==> es[i].1.value == Some(v),
    ensures
        r == Some(v),
{
    let w = choose|i: int| 0 <= i < es.len() && es[i].0 == slot && ballot_le(b, #[trigger] es[i].1.ballot);
    assert(es[w].0 == slot);
    let i = choose|i: int| is_best(es, slot, i) && r == es[i].1.value;
    assert(ballot_le(es[w].1.ballot, es[i].1.ballot));
}

} // verus!
