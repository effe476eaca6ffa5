//! The fault-tolerance configuration and the composition of the two clusters.
use crate::ballot::{Acceptor, MemberId, Proposer};
use vstd::prelude::*;

verus! {

/// How many faults the cluster tolerates and the leader-election timers.
#[derive(Clone, Copy, Debug)]
pub struct PaxosConfig {
    /// Maximum number of faulty nodes.
    pub f: usize,
    /// How often a leader sends "I am leader" heartbeats.
    pub i_am_leader_send_timeout: u64,
    /// How long a follower waits for a heartbeat before it stands for leader.
    pub i_am_leader_check_timeout: u64,
    /// Initial delay, multiplied by the proposer's index, that staggers the
    /// proposers' first checks.
    pub i_am_leader_check_timeout_delay_multiplier: usize,
}

/// The errors of the consensus core.
#[derive(Clone, Copy, Debug, PartialEq, Eq, Structural)]
pub enum PaxosError {
    /// A message carried a ballot below one already seen.
    StaleBallot,
    /// The responses ended before a quorum answered.
    QuorumUnreachable,
    /// Fewer acceptors than `2f+1` for the configured `f`.
    MembershipInconsistency,
}

impl PaxosConfig {
    /// The number of acknowledgements that commit: `f + 1`.
    pub fn quorum_size(&self) -> (r: usize)
        requires
            self.f < usize::MAX,
        ensures
            r == self.f + 1,
    {
        self.f + 1
    }

    /// The number of acceptors the configuration needs, `2f + 1`, or `None`
    /// where that does not fit in a `usize`.
    pub fn min_cluster_size(&self) -> (r: Option<usize>)
        ensures
            2 * self.f + 1 <= usize::MAX ==> r == Some((2 * self.f + 1) as usize),
            2 * self.f + 1 > usize::MAX ==> r is None,
    {
        if self.f > (usize::MAX - 1) / 2 {
            None
        } else {
            Some(2 * self.f + 1)
        }
    }
}

/// A proposer cluster, an acceptor cluster and their configuration.
pub struct CorePaxos {
    pub proposers: Vec<MemberId<Proposer>>,
    pub acceptors: Vec<MemberId<Acceptor>>,
    pub paxos_config: PaxosConfig,
}

impl CorePaxos {
    /// The acceptor cluster is large enough for the configured `f`.
    pub open spec fn wf(&self) -> bool {
        self.acceptors@.len() >= 2 * self.paxos_config.f + 1
    }

    /// Binds the clusters to the configuration; fails with
    /// `MembershipInconsistency` when there are fewer than `2f+1` acceptors.
    pub fn new(
        proposers: Vec<MemberId<Proposer>>,
        acceptors: Vec<MemberId<Acceptor>>,
        paxos_config: PaxosConfig,
    ) -> (r: Result<CorePaxos, PaxosError>)
        ensures
            acceptors@.len() >= 2 * paxos_config.f + 1 <==> r is Ok,
            r is Err ==> r == Err::<CorePaxos, PaxosError>(PaxosError::MembershipInconsistency),
            r matches Ok(c) ==> c.wf() && c.proposers@ == proposers@ && c.acceptors@ == acceptors@
                && c.paxos_config == paxos_config,
    {
        let _n_acceptors = acceptors.len();
        match paxos_config.min_cluster_size() {
            Some(n) => {
                if acceptors.len() < n {
                    Err(PaxosError::MembershipInconsistency)
                } else {
                    Ok(CorePaxos { proposers, acceptors, paxos_config })
                }
            },
            None => Err(PaxosError::MembershipInconsistency),
        }
    }

    /// The number of acknowledgements that commit a slot, `f + 1`.
    pub fn quorum_size(&self) -> (r: usize)
        requires
            self.wf(),
        ensures
            r == self.paxos_config.f + 1,
    {
        let _n_acceptors = self.acceptors.len();
        self.paxos_config.quorum_size()
    }
}

/// Any two quorums of `f+1` members drawn from at most `2f+1` acceptors share
/// a member: this is what keeps two commits at one slot from disagreeing.
pub proof fn lemma_quorums_intersect(all: Set<u32>, q1: Set<u32>, q2: Set<u32>, f: nat)
    requires
        all.finite(),
        all.len() <= 2 * f + 1,
        q1.subset_of(all),
        q2.subset_of(all),
        q1.len() >= f + 1,
        q2.len() >= f + 1,
    ensures
        exists|m: u32| q1.contains(m) && q2.contains(m),
{
    vstd::set_lib::lemma_len_subset(q1, all);
    vstd::set_lib::lemma_len_subset(q2, all);
    vstd::set_lib::lemma_len_subset(q1 + q2, all);
    if forall|m: u32| !(q1.contains(m) && q2.contains(m)) {
        assert(q1.disjoint(q2));
        vstd::set_lib::lemma_set_disjoint_lens(q1, q2);
    }
}

} // verus!
