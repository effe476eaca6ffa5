//! Leader election: the decisions of the heartbeat send and check timers, as
//! a step from state and event to next state and action.
use crate::ballot::{ballot_lt, Ballot, MemberId, Proposer};
use crate::config::PaxosConfig;
use vstd::prelude::*;

verus! {

/// The ballot a proposer mints after seeing `max_seen`: one round above it,
/// or round 1 when it has seen none; `None` when the rounds are exhausted.
pub open spec fn next_ballot(max_seen: Option<Ballot>, me: MemberId<Proposer>) -> Option<Ballot> {
    match max_seen {
        None => Some(Ballot { num: 1, proposer_id: me }),
        Some(b) => if b.num < u32::MAX {
            Some(Ballot { num: (b.num + 1) as u32, proposer_id: me })
        } else {
            None
        },
    }
}

/// Mints a ballot strictly above every ballot in `max_seen`.
pub fn mint_ballot(max_seen: Option<Ballot>, me: MemberId<Proposer>) -> (r: Option<Ballot>)
    ensures
        r == next_ballot(max_seen, me),
        r matches Some(b) ==> b.proposer_id == me && (max_seen matches Some(m) ==> ballot_lt(m, b)),
{
    match max_seen {
        None => Some(Ballot { num: 1, proposer_id: me }),
        Some(b) => if b.num < u32::MAX {
            Some(Ballot { num: b.num + 1, proposer_id: me })
        } else {
            None
        },
    }
}

/// A proposer's standing in the election.
#[derive(Clone, Copy, Debug, PartialEq, Eq, Structural)]
pub enum Role {
    Follower,
    Candidate,
    Leader,
}

/// What the surrounding runtime tells the election.
#[derive(Clone, Copy, Debug)]
pub enum ElectionEvent {
    /// The clock reads `now`.
    Tick(u64),
    /// A leader's heartbeat under the ballot, observed at `now`.
    Heartbeat(Ballot, u64),
    /// Phase 1 under the ballot reached a quorum.
    Elected(Ballot),
    /// A higher ballot was seen in a reject.
    Preempted(Ballot),
}

/// What the election asks the runtime to do.
#[derive(Clone, Copy, Debug)]
pub enum ElectionAction {
    Idle,
    /// Broadcast "I am leader" under the ballot.
    SendHeartbeat(Ballot),
    /// Run Phase 1 under the freshly minted ballot.
    StartPhase1(Ballot),
}

/// One proposer's election state.
#[derive(Clone, Copy, Debug)]
pub struct ElectionState {
    pub id: MemberId<Proposer>,
    pub role: Role,
    /// The ballot this proposer last minted.
    pub ballot: Option<Ballot>,
    /// The highest ballot this proposer has seen, its own included.
    pub max_seen: Option<Ballot>,
    /// When a heartbeat was last observed (or the last check restarted).
    pub last_heard: u64,
    /// No check for an expired leader happens before this time.
    pub next_check: u64,
    /// When a leader sends its next heartbeat.
    pub next_send: u64,
    pub send_interval: u64,
    pub check_interval: u64,
}

/// The state and action after a timeout check has fired: a new ballot above
/// everything seen and a Phase 1 under it, whatever else is pending.
pub open spec fn stand_for_leader(s: ElectionState, now: u64) -> (ElectionState, ElectionAction) {
    match next_ballot(s.max_seen, s.id) {
        Some(b) => (
            ElectionState { role: Role::Candidate, ballot: Some(b), max_seen: Some(b), last_heard: now, ..s },
            ElectionAction::StartPhase1(b),
        ),
        None => (s, ElectionAction::Idle),
    }
}

/// The heartbeat check fires at `now`: the staggered start has passed and no
/// heartbeat came for longer than the check interval.
pub open spec fn check_expired(s: ElectionState, now: u64) -> bool {
    now >= s.next_check && now > s.last_heard && now - s.last_heard > s.check_interval
}

/// The next state and action of the election after event `e`.
pub open spec fn election_step(s: ElectionState, e: ElectionEvent) -> (ElectionState, ElectionAction) {
    match e {
        ElectionEvent::Tick(now) => if s.role == Role::Leader {
            if now >= s.next_send && s.ballot is Some {
                (
                    ElectionState {
                        next_send: if now + s.send_interval <= u64::MAX { (now + s.send_interval) as u64 } else { u64::MAX },
                        ..s
                    },
                    ElectionAction::SendHeartbeat(s.ballot.unwrap()),
                )
            } else {
                (s, ElectionAction::Idle)
            }
        } else if check_expired(s, now) {
            stand_for_leader(s, now)
        } else {
            (s, ElectionAction::Idle)
        },
        ElectionEvent::Heartbeat(b, now) => if s.max_seen matches Some(m) && ballot_lt(b, m) {
            (s, ElectionAction::Idle)
        } else if s.ballot == Some(b) {
            (s, ElectionAction::Idle)
        } else {
            (ElectionState { role: Role::Follower, max_seen: Some(b), last_heard: now, ..s }, ElectionAction::Idle)
        },
        ElectionEvent::Elected(b) => if s.role == Role::Candidate && s.ballot == Some(b) && s.max_seen
            == Some(b) {
            (ElectionState { role: Role::Leader, ..s }, ElectionAction::SendHeartbeat(b))
        } else {
            (s, ElectionAction::Idle)
        },
        ElectionEvent::Preempted(b) => if s.max_seen matches Some(m) && !ballot_lt(m, b) {
            (s, ElectionAction::Idle)
        } else if s.role == Role::Leader {
            stand_for_leader(ElectionState { max_seen: Some(b), ..s }, s.last_heard)
        } else {
            (ElectionState { role: Role::Follower, max_seen: Some(b), ..s }, ElectionAction::Idle)
        },
    }
}

impl ElectionState {
    /// A follower whose first check waits `index * multiplier` ticks.
    pub fn new(id: MemberId<Proposer>, index: u64, config: &PaxosConfig) -> (r: ElectionState)
        requires
            index * config.i_am_leader_check_timeout_delay_multiplier <= u64::MAX,
        ensures
            r.id == id,
            r.role == Role::Follower,
            r.ballot is None,
            r.max_seen is None,
            r.last_heard == 0,
            r.next_check == index * config.i_am_leader_check_timeout_delay_multiplier,
            r.next_send == 0,
            r.send_interval == config.i_am_leader_send_timeout,
            r.check_interval == config.i_am_leader_check_timeout,
    {
        let mult = config.i_am_leader_check_timeout_delay_multiplier as u64;
        ElectionState {
            id,
            role: Role::Follower,
            ballot: None,
            max_seen: None,
            last_heard: 0,
            next_check: index * mult,
            next_send: 0,
            send_interval: config.i_am_leader_send_timeout,
            check_interval: config.i_am_leader_check_timeout,
        }
    }

    fn stand(&mut self, now: u64) -> (r: ElectionAction)
        ensures
            (*final(self), r) == stand_for_leader(*old(self), now),
    {
        match mint_ballot(self.max_seen, self.id) {
            Some(b) => {
                self.role = Role::Candidate;
                self.ballot = Some(b);
                self.max_seen = Some(b);
                self.last_heard = now;
                ElectionAction::StartPhase1(b)
            },
            None => ElectionAction::Idle,
        }
    }

    /// Applies one event and returns the action for the runtime to perform.
    pub fn step(&mut self, e: ElectionEvent) -> (r: ElectionAction)
        ensures
            (*final(self), r) == election_step(*old(self), e),
    {
        match e {
            ElectionEvent::Tick(now) => {
                if self.role == Role::Leader {
                    match self.ballot {
                        Some(b) => {
                            if now >= self.next_send {
                                self.next_send = now.saturating_add(self.send_interval);
                                ElectionAction::SendHeartbeat(b)
                            } else {
                                ElectionAction::Idle
                            }
                        },
                        None => ElectionAction::Idle,
                    }
                } else if now >= self.next_check && now > self.last_heard && now - self.last_heard
                    > self.check_interval {
                    self.stand(now)
                } else {
                    ElectionAction::Idle
                }
            },
            ElectionEvent::Heartbeat(b, now) => {
                if let Some(m) = self.max_seen {
                    if b.lt(&m) {
                        return ElectionAction::Idle;
                    }
                }
                if let Some(own) = self.ballot {
                    if own == b {
                        return ElectionAction::Idle;
                    }
                }
                self.role = Role::Follower;
                self.max_seen = Some(b);
                self.last_heard = now;
                ElectionAction::Idle
            },
            ElectionEvent::Elected(b) => {
                if self.role == Role::Candidate {
                    if let (Some(own), Some(m)) = (self.ballot, self.max_seen) {
                        if own == b && m == b {
                            self.role = Role::Leader;
                            return ElectionAction::SendHeartbeat(b);
                        }
                    }
                }
                ElectionAction::Idle
            },
            ElectionEvent::Preempted(b) => {
                if let Some(m) = self.max_seen {
                    if !m.lt(&b) {
                        return ElectionAction::Idle;
                    }
                }
                self.max_seen = Some(b);
                if self.role == Role::Leader {
                    let t = self.last_heard;
                    self.stand(t)
                } else {
                    self.role = Role::Follower;
                    ElectionAction::Idle
                }
            },
        }
    }
}

} // verus!
