//! The acceptor role: its log of accepted entries and the ballot rules it
//! applies to prepare and accept messages.
use crate::ballot::{ballot_le, ballot_lt, Ballot, MemberId};
use crate::config::PaxosError;
use vstd::prelude::*;

verus! {

/// What an acceptor holds for one slot: the ballot it accepted under and the
/// value, or `None` for a hole.
#[derive(Clone, Copy, Debug)]
pub struct LogValue<P> {
    pub ballot: Ballot,
    pub value: Option<P>,
}

/// The accept message: a proposer asks the acceptors to accept `value` at
/// `slot` under `ballot`.
#[derive(Clone, Copy, Debug)]
pub struct P2a<P, S> {
    pub sender: MemberId<S>,
    pub ballot: Ballot,
    pub slot: usize,
    pub value: Option<P>,
}

/// The reply to a prepare message.
pub enum PrepareReply<P> {
    /// The acceptor promised `ballot` and hands over its log.
    Promise { ballot: Ballot, log: Vec<(usize, LogValue<P>)> },
    /// The acceptor has seen the higher `max_ballot`.
    Reject { max_ballot: Ballot },
}

/// The reply to an accept message.
#[derive(Clone, Copy, Debug)]
pub enum AcceptReply {
    /// The entry was written at `slot` under `ballot`.
    Ack { ballot: Ballot, slot: usize },
    /// The acceptor has seen the higher `max_ballot`.
    Reject { max_ballot: Ballot },
}

impl AcceptReply {
    /// The acknowledged `(ballot, slot)`, or `StaleBallot` for a reject.
    pub fn into_result(self) -> (r: Result<(Ballot, usize), PaxosError>)
        ensures
            self matches AcceptReply::Ack { ballot, slot } ==> r == Ok::<(Ballot, usize), PaxosError>((ballot, slot)),
            self is Reject ==> r == Err::<(Ballot, usize), PaxosError>(PaxosError::StaleBallot),
    {
        match self {
            AcceptReply::Ack { ballot, slot } => Ok((ballot, slot)),
            AcceptReply::Reject { .. } => Err(PaxosError::StaleBallot),
        }
    }
}

/// The map from slot to entry that a list of `(slot, entry)` pairs stands
/// for; a later pair for a slot replaces an earlier one.
pub open spec fn log_map<P>(s: Seq<(usize, LogValue<P>)>) -> Map<usize, LogValue<P>>
    decreases s.len(),
{
    if s.len() == 0 {
        Map::empty()
    } else {
        log_map(s.drop_last()).insert(s.last().0, s.last().1)
    }
}

/// No slot occurs twice in the list.
pub open spec fn slots_unique<P>(s: Seq<(usize, LogValue<P>)>) -> bool {
    forall|i: int, j: int| 0 <= i < s.len() && 0 <= j < s.len() && i != j ==> s[i].0 != s[j].0
}

/// An acceptor's state as a mathematical value.
pub struct AcceptorView<P> {
    pub max_ballot: Option<Ballot>,
    pub log: Map<usize, LogValue<P>>,
}

/// A message with ballot `b` is refused by an acceptor that has seen `max`.
pub open spec fn rejects(max: Option<Ballot>, b: Ballot) -> bool {
    max matches Some(m) && ballot_lt(b, m)
}

/// The state after a prepare message with ballot `b`.
pub open spec fn prepare_state<P>(v: AcceptorView<P>, b: Ballot) -> AcceptorView<P> {
    if rejects(v.max_ballot, b) {
        v
    } else {
        AcceptorView { max_ballot: Some(b), log: v.log }
    }
}

/// The state after an accept message for `value` at `slot` under `b`.
pub open spec fn accept_state<P>(v: AcceptorView<P>, b: Ballot, slot: usize, value: Option<P>) -> AcceptorView<P> {
    if rejects(v.max_ballot, b) {
        v
    } else {
        AcceptorView {
            max_ballot: Some(b),
            log: v.log.insert(slot, LogValue { ballot: b, value }),
        }
    }
}

/// The reply to an accept message for `slot` under `b`.
pub open spec fn accept_reply(v: Option<Ballot>, b: Ballot, slot: usize) -> AcceptReply {
    if rejects(v, b) {
        AcceptReply::Reject { max_ballot: v.unwrap() }
    } else {
        AcceptReply::Ack { ballot: b, slot }
    }
}

/// One acceptor's state.
pub struct AcceptorState<P> {
    max_ballot: Option<Ballot>,
    log: Vec<(usize, LogValue<P>)>,
}

impl<P> View for AcceptorState<P> {
    type V = AcceptorView<P>;

    closed spec fn view(&self) -> AcceptorView<P> {
        AcceptorView { max_ballot: self.max_ballot, log: log_map(self.log@) }
    }
}

proof fn lemma_log_map_dom<P>(s: Seq<(usize, LogValue<P>)>, k: usize)
    ensures
        log_map(s).contains_key(k) <==> exists|i: int| 0 <= i < s.len() && #[trigger] s[i].0 == k,
    decreases s.len(),
{
    if s.len() > 0 {
        let p = s.drop_last();
        lemma_log_map_dom(p, k);
        if exists|i: int| 0 <= i < p.len() && #[trigger] p[i].0 == k {
            let i = choose|i: int| 0 <= i < p.len() && #[trigger] p[i].0 == k;
            assert(s[i].0 == k);
        }
        if exists|i: int| 0 <= i < s.len() && #[trigger] s[i].0 == k {
            let i = choose|i: int| 0 <= i < s.len() && #[trigger] s[i].0 == k;
            if i < s.len() - 1 {
                assert(p[i].0 == k);
            }
        }
    }
}

proof fn lemma_log_map_at<P>(s: Seq<(usize, LogValue<P>)>, i: int)
    requires
        slots_unique(s),
        0 <= i < s.len(),
    ensures
        log_map(s).contains_key(s[i].0),
        log_map(s)[s[i].0] == s[i].1,
    decreases s.len(),
{
    if i < s.len() - 1 {
        let p = s.drop_last();
        assert(p[i] == s[i]);
        lemma_log_map_at(p, i);
    }
}

proof fn lemma_log_map_update<P>(s: Seq<(usize, LogValue<P>)>, i: int, e: LogValue<P>)
    requires
        slots_unique(s),
        0 <= i < s.len(),
    ensures
        log_map(s.update(i, (s[i].0, e))) == log_map(s).insert(s[i].0, e),
    decreases s.len(),
{
    let t = s.update(i, (s[i].0, e));
    if i == s.len() - 1 {
        assert(t.drop_last() =~= s.drop_last());
        assert(log_map(t) =~= log_map(s).insert(s[i].0, e));
    } else {
        let p = s.drop_last();
        assert(t.drop_last() =~= p.update(i, (p[i].0, e)));
        lemma_log_map_update(p, i, e);
        assert(s.last().0 != s[i].0);
        assert(log_map(t) =~= log_map(s).insert(s[i].0, e));
    }
}

impl<P: Copy> AcceptorState<P> {
    pub closed spec fn wf(&self) -> bool {
        slots_unique(self.log@)
    }

    /// An acceptor that has seen no ballot and holds an empty log.
    pub fn new() -> (r: AcceptorState<P>)
        ensures
            r.wf(),
            r@.max_ballot is None,
            r@.log == Map::<usize, LogValue<P>>::empty(),
    {
        AcceptorState { max_ballot: None, log: Vec::new() }
    }

    /// The highest ballot this acceptor has seen.
    pub fn max_ballot(&self) -> (r: Option<Ballot>)
        ensures
            r == self@.max_ballot,
    {
        self.max_ballot
    }

    /// The entry held for `slot`, if any.
    pub fn entry(&self, slot: usize) -> (r: Option<LogValue<P>>)
        requires
            self.wf(),
        ensures
            r == (if self@.log.contains_key(slot) { Some(self@.log[slot]) } else { None }),
    {
        let mut i: usize = 0;
        while i < self.log.len()
            invariant
                i <= self.log.len(),
                slots_unique(self.log@),
                forall|j: int| 0 <= j < i ==> self.log@[j].0 != slot,
            decreases self.log.len() - i,
        {
            if self.log[i].0 == slot {
                proof {
                    lemma_log_map_at(self.log@, i as int);
                }
                return Some(self.log[i].1);
            }
            i = i + 1;
        }
        proof {
            lemma_log_map_dom(self.log@, slot);
        }
        None
    }

    /// A copy of the log as `(slot, entry)` pairs, one per slot.
    pub fn log_entries(&self) -> (r: Vec<(usize, LogValue<P>)>)
        requires
            self.wf(),
        ensures
            log_map(r@) == self@.log,
            slots_unique(r@),
    {
        proof {
            assert(slots_unique(self.log@));
        }
        let mut out: Vec<(usize, LogValue<P>)> = Vec::new();
        let mut i: usize = 0;
        while i < self.log.len()
            invariant
                i <= self.log.len(),
                out@ == self.log@.take(i as int),
            decreases self.log.len() - i,
        {
            out.push(self.log[i]);
            i = i + 1;
            assert(out@ =~= self.log@.take(i as int));
        }
        assert(out@ =~= self.log@);
        out
    }

    /// Handles a prepare message: refuses a ballot below the highest seen,
    /// otherwise records it and promises, handing over the whole log.
    pub fn handle_prepare(&mut self, ballot: Ballot) -> (r: PrepareReply<P>)
        requires
            old(self).wf(),
        ensures
            final(self).wf(),
            final(self)@ == prepare_state(old(self)@, ballot),
            rejects(old(self)@.max_ballot, ballot) ==> r == (PrepareReply::<P>::Reject {
                max_ballot: old(self)@.max_ballot.unwrap(),
            }),
            !rejects(old(self)@.max_ballot, ballot) ==> (r matches PrepareReply::Promise { ballot: b, log }
                && b == ballot && log_map(log@) == old(self)@.log && slots_unique(log@)),
    {
        if let Some(m) = self.max_ballot {
            if ballot.lt(&m) {
                return PrepareReply::Reject { max_ballot: m };
            }
        }
        self.max_ballot = Some(ballot);
        let log = self.log_entries();
        PrepareReply::Promise { ballot, log }
    }

    /// Handles an accept message: refuses a ballot below the highest seen and
    /// leaves the state as it was; otherwise records the ballot, writes the
    /// entry at the slot over any earlier one and acknowledges.
    pub fn handle_accept<S>(&mut self, req: P2a<P, S>) -> (r: AcceptReply)
        requires
            old(self).wf(),
        ensures
            final(self).wf(),
            final(self)@ == accept_state(old(self)@, req.ballot, req.slot, req.value),
            r == accept_reply(old(self)@.max_ballot, req.ballot, req.slot),
    {
        if let Some(m) = self.max_ballot {
            if req.ballot.lt(&m) {
                return AcceptReply::Reject { max_ballot: m };
            }
        }
        self.max_ballot = Some(req.ballot);
        let e = LogValue { ballot: req.ballot, value: req.value };
        let mut i: usize = 0;
        while i < self.log.len()
            invariant
                i <= self.log.len(),
                slots_unique(self.log@),
                self.log@ == old(self).log@,
                self.max_ballot == Some(req.ballot),
                !rejects(old(self)@.max_ballot, req.ballot),
                e == (LogValue { ballot: req.ballot, value: req.value }),
                forall|j: int| 0 <= j < i ==> self.log@[j].0 != req.slot,
            decreases self.log.len() - i,
        {
            if self.log[i].0 == req.slot {
                proof {
                    lemma_log_map_update(self.log@, i as int, e);
                }
                self.log.set(i, (req.slot, e));
                return AcceptReply::Ack { ballot: req.ballot, slot: req.slot };
            }
            i = i + 1;
        }
        proof {
            assert(self.log@.push((req.slot, e)).drop_last() =~= self.log@);
        }
        self.log.push((req.slot, e));
        assert(slots_unique(self.log@));
        assert(log_map(self.log@) =~= log_map(old(self).log@).insert(req.slot, e));
        AcceptReply::Ack { ballot: req.ballot, slot: req.slot }
    }
}

/// Resubmitting an accept message that an acceptor has just accepted leaves
/// the same state and earns the same acknowledgement.
pub proof fn lemma_accept_idempotent<P>(v: AcceptorView<P>, b: Ballot, slot: usize, value: Option<P>)
    ensures
        accept_state(accept_state(v, b, slot, value), b, slot, value) == accept_state(v, b, slot, value),
        !rejects(v.max_ballot, b) ==> accept_reply(accept_state(v, b, slot, value).max_ballot, b, slot)
            == accept_reply(v.max_ballot, b, slot),
{
    let w = accept_state(v, b, slot, value);
    if !rejects(v.max_ballot, b) {
        assert(w.log.insert(slot, LogValue { ballot: b, value }) =~= w.log);
    }
}

/// A message that an acceptor's state admits.
pub enum AcceptorMsg<P> {
    Prepare(Ballot),
    Accept(Ballot, usize, Option<P>),
}

/// The ballot a message carries.
pub open spec fn msg_ballot<P>(m: AcceptorMsg<P>) -> Ballot {
    match m {
        AcceptorMsg::Prepare(b) => b,
        AcceptorMsg::Accept(b, _, _) => b,
    }
}

/// The state after one message.
pub open spec fn acceptor_step<P>(v: AcceptorView<P>, m: AcceptorMsg<P>) -> AcceptorView<P> {
    match m {
        AcceptorMsg::Prepare(b) => prepare_state(v, b),
        AcceptorMsg::Accept(b, slot, value) => accept_state(v, b, slot, value),
    }
}

/// The state after a sequence of messages, in order.
pub open spec fn acceptor_run<P>(v: AcceptorView<P>, ms: Seq<AcceptorMsg<P>>) -> AcceptorView<P>
    decreases ms.len(),
{
    if ms.len() == 0 {
        v
    } else {
        acceptor_step(acceptor_run(v, ms.drop_last()), ms.last())
    }
}

/// Once an acceptor has recorded `b`, whatever messages follow, it still
/// refuses every message with a ballot below `b`, and the refusal leaves its
/// state, log included, as it was.
pub proof fn lemma_monotonic_rejection<P>(v: AcceptorView<P>, b: Ballot, ms: Seq<AcceptorMsg<P>>, m: AcceptorMsg<P>)
    requires
        v.max_ballot == Some(b),
        ballot_lt(msg_ballot(m), b),
    ensures
        rejects(acceptor_run(v, ms).max_ballot, msg_ballot(m)),
        acceptor_step(acceptor_run(v, ms), m) == acceptor_run(v, ms),
    decreases ms.len(),
{
    lemma_max_ballot_grows(v, b, ms);
}

proof fn lemma_max_ballot_grows<P>(v: AcceptorView<P>, b: Ballot, ms: Seq<AcceptorMsg<P>>)
    requires
        v.max_ballot == Some(b),
    ensures
        acceptor_run(v, ms).max_ballot matches Some(c) && ballot_le(b, c),
    decreases ms.len(),
{
    if ms.len() > 0 {
        lemma_max_ballot_grows(v, b, ms.drop_last());
    }
}

} // verus!
