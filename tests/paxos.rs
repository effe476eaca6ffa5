use paxos_core::acceptor::{AcceptReply, AcceptorState, LogValue, P2a, PrepareReply};
use paxos_core::ballot::{Acceptor, Ballot, MemberId, Proposer};
use paxos_core::config::{CorePaxos, PaxosConfig, PaxosError};
use paxos_core::election::{mint_ballot, ElectionAction, ElectionEvent, ElectionState, Role};
use paxos_core::proposer::{recover_log, Phase, ProposerState};
use paxos_core::quorum::{await_quorum, QuorumCollector, QuorumOutcome, QuorumResponse, RoundKey};
use std::cmp::Ordering;

fn pid(n: u32) -> MemberId<Proposer> {
    MemberId::from_raw(n)
}

fn aid(n: u32) -> MemberId<Acceptor> {
    MemberId::from_raw(n)
}

fn ballot(num: u32, p: u32) -> Ballot {
    Ballot::new(num, pid(p))
}

fn config(f: usize) -> PaxosConfig {
    PaxosConfig {
        f,
        i_am_leader_send_timeout: 1,
        i_am_leader_check_timeout: 5,
        i_am_leader_check_timeout_delay_multiplier: 3,
    }
}

fn accept(b: Ballot, slot: usize, value: Option<&'static str>) -> P2a<&'static str, Proposer> {
    P2a { sender: b.proposer_id, ballot: b, slot, value }
}

fn is_ack(r: AcceptReply, b: Ballot, s: usize) -> bool {
    match r {
        AcceptReply::Ack { ballot, slot } => ballot == b && slot == s,
        AcceptReply::Reject { .. } => false,
    }
}

fn promise_log(r: PrepareReply<&'static str>) -> Vec<(usize, LogValue<&'static str>)> {
    match r {
        PrepareReply::Promise { log, .. } => log,
        PrepareReply::Reject { .. } => panic!("expected a promise"),
    }
}

#[test]
fn ballots_order_by_round_then_proposer() {
    assert!(ballot(1, 5) < ballot(2, 0));
    assert!(ballot(2, 0) < ballot(2, 1));
    assert!(!(ballot(2, 1) < ballot(2, 1)));
    assert_eq!(ballot(3, 1).compare(&ballot(3, 1)), Ordering::Equal);
    assert_eq!(ballot(3, 2).compare(&ballot(3, 1)), Ordering::Greater);
    assert_eq!(ballot(1, 9).partial_cmp(&ballot(3, 0)), Some(Ordering::Less));
}

#[test]
fn distinct_ballots_are_ordered_exactly_one_way() {
    let bs = [ballot(0, 0), ballot(0, 1), ballot(1, 0), ballot(1, 1), ballot(7, 3)];
    for a in bs.iter() {
        for b in bs.iter() {
            if a != b {
                assert!(a.lt(b) != b.lt(a));
            } else {
                assert!(!a.lt(b));
            }
        }
    }
}

#[test]
fn mint_goes_one_round_above_what_was_seen() {
    assert_eq!(mint_ballot(None, pid(0)), Some(ballot(1, 0)));
    assert_eq!(mint_ballot(Some(ballot(1, 0)), pid(1)), Some(ballot(2, 1)));
    assert_eq!(mint_ballot(Some(ballot(u32::MAX, 0)), pid(1)), None);
}

fn resp(round: RoundKey, m: u32, payload: u32) -> QuorumResponse<u32> {
    QuorumResponse { round, member: aid(m), payload }
}

#[test]
fn quorum_ignores_duplicates_and_stale_rounds() {
    let cur = RoundKey::Prepare(ballot(2, 0));
    let stale = RoundKey::Prepare(ballot(1, 0));
    let rs = vec![resp(cur, 0, 10), resp(cur, 0, 11), resp(stale, 1, 12), resp(cur, 2, 13), resp(cur, 1, 14)];
    match await_quorum(rs, 2, cur) {
        QuorumOutcome::Reached(v) => {
            let got: Vec<(u32, u32)> = v.iter().map(|r| (r.member.raw_id, r.payload)).collect();
            assert_eq!(got, vec![(0, 10), (2, 13)]);
        }
        QuorumOutcome::Insufficient => panic!("quorum expected"),
    }
}

#[test]
fn quorum_insufficient_when_stream_ends_early() {
    let cur = RoundKey::Accept(ballot(1, 0), 0);
    let rs = vec![resp(cur, 0, 1), resp(cur, 0, 2), resp(RoundKey::Accept(ballot(1, 0), 1), 1, 3)];
    assert!(matches!(await_quorum(rs, 2, cur), QuorumOutcome::Insufficient));
    assert!(matches!(await_quorum(Vec::<QuorumResponse<u32>>::new(), 1, cur), QuorumOutcome::Insufficient));
}

#[test]
fn f_acks_never_commit_and_f_plus_one_do() {
    let f: usize = 2;
    let cur = RoundKey::Accept(ballot(1, 0), 4);
    let few: Vec<QuorumResponse<u32>> = (0..f as u32).map(|m| resp(cur, m, 0)).collect();
    assert!(matches!(await_quorum(few, f + 1, cur), QuorumOutcome::Insufficient));
    let enough: Vec<QuorumResponse<u32>> = (0..(f + 1) as u32).map(|m| resp(cur, m, 0)).collect();
    match await_quorum(enough, f + 1, cur) {
        QuorumOutcome::Reached(v) => assert_eq!(v.len(), f + 1),
        QuorumOutcome::Insufficient => panic!("quorum expected"),
    }
}

#[test]
fn collector_counts_each_member_once() {
    let cur = RoundKey::Prepare(ballot(1, 1));
    let mut c: QuorumCollector<u32> = QuorumCollector::new(cur, 2);
    assert!(c.offer(resp(cur, 3, 0)));
    assert!(!c.offer(resp(cur, 3, 1)));
    assert!(!c.is_reached());
    assert!(c.offer(resp(cur, 4, 2)));
    assert!(c.is_reached());
    assert!(!c.offer(resp(cur, 5, 3)));
    assert_eq!(c.into_responses().len(), 2);
}

#[test]
fn construction_needs_two_f_plus_one_acceptors() {
    let ps = vec![pid(0), pid(1)];
    let r = CorePaxos::new(ps.clone(), vec![aid(0), aid(1)], config(1));
    assert!(matches!(r, Err(PaxosError::MembershipInconsistency)));
    let ok = CorePaxos::new(ps.clone(), vec![aid(0), aid(1), aid(2)], config(1)).ok().unwrap();
    assert_eq!(ok.quorum_size(), 2);
    let huge = CorePaxos::new(ps, vec![aid(0)], config(usize::MAX));
    assert!(matches!(huge, Err(PaxosError::MembershipInconsistency)));
    assert_eq!(config(usize::MAX).min_cluster_size(), None);
    assert_eq!(config(3).min_cluster_size(), Some(7));
}

#[test]
fn acceptor_rejects_lower_ballots_without_change() {
    let mut a: AcceptorState<&'static str> = AcceptorState::new();
    assert!(is_ack(a.handle_accept(accept(ballot(2, 1), 0, Some("x"))), ballot(2, 1), 0));
    match a.handle_accept(accept(ballot(1, 0), 0, Some("y"))) {
        AcceptReply::Reject { max_ballot } => assert_eq!(max_ballot, ballot(2, 1)),
        AcceptReply::Ack { .. } => panic!("lower ballot accepted"),
    }
    match a.handle_prepare(ballot(1, 5)) {
        PrepareReply::Reject { max_ballot } => assert_eq!(max_ballot, ballot(2, 1)),
        PrepareReply::Promise { .. } => panic!("lower ballot promised"),
    }
    assert_eq!(a.max_ballot(), Some(ballot(2, 1)));
    let e = a.entry(0).unwrap();
    assert_eq!(e.ballot, ballot(2, 1));
    assert_eq!(e.value, Some("x"));
}

#[test]
fn acceptor_overwrites_slot_under_higher_ballot() {
    let mut a: AcceptorState<&'static str> = AcceptorState::new();
    a.handle_accept(accept(ballot(1, 0), 3, Some("x")));
    a.handle_accept(accept(ballot(2, 1), 3, None));
    let e = a.entry(3).unwrap();
    assert_eq!(e.ballot, ballot(2, 1));
    assert_eq!(e.value, None);
    assert!(a.entry(0).is_none());
    let log = promise_log(a.handle_prepare(ballot(3, 0)));
    assert_eq!(log.len(), 1);
    assert_eq!(a.max_ballot(), Some(ballot(3, 0)));
}

#[test]
fn resubmitted_accept_is_idempotent() {
    let mut a: AcceptorState<&'static str> = AcceptorState::new();
    let req = accept(ballot(4, 2), 1, Some("z"));
    let first = a.handle_accept(req);
    let e1 = a.entry(1).unwrap();
    let second = a.handle_accept(req);
    let e2 = a.entry(1).unwrap();
    assert!(is_ack(first, ballot(4, 2), 1));
    assert!(is_ack(second, ballot(4, 2), 1));
    assert_eq!(e1.ballot, e2.ballot);
    assert_eq!(e1.value, e2.value);
    assert_eq!(promise_log(a.handle_prepare(ballot(4, 2))).len(), 1);
}

fn cluster() -> Vec<AcceptorState<&'static str>> {
    vec![AcceptorState::new(), AcceptorState::new(), AcceptorState::new()]
}

fn phase1(p: &mut ProposerState<&'static str>, acc: &mut [AcceptorState<&'static str>], who: &[u32]) -> Vec<P2a<&'static str, Proposer>> {
    let b = p.start_phase1().unwrap();
    let mut out = Vec::new();
    for &i in who {
        let reply = acc[i as usize].handle_prepare(b);
        out.extend(p.on_prepare_reply(aid(i), reply));
    }
    out
}

#[test]
fn scenario_commit_on_two_of_three() {
    let mut acc = cluster();
    let mut p: ProposerState<&'static str> = ProposerState::new(pid(0), 2);
    let recovered = phase1(&mut p, &mut acc, &[0, 1]);
    assert!(recovered.is_empty());
    assert!(p.phase == Phase::Leading);
    assert_eq!(p.ballot, Some(ballot(1, 0)));
    let reqs = p.propose(vec!["x"]);
    assert_eq!(reqs.len(), 1);
    assert_eq!(reqs[0].slot, 0);
    let r0 = acc[0].handle_accept(reqs[0]);
    assert_eq!(p.on_accept_reply(aid(0), r0), None);
    let r1 = acc[1].handle_accept(reqs[0]);
    assert_eq!(p.on_accept_reply(aid(1), r1), Some((0, Some("x"))));
    let r2 = acc[2].handle_accept(reqs[0]);
    assert_eq!(p.on_accept_reply(aid(2), r2), None);
}

#[test]
fn scenario_new_leader_reproposes_accepted_value() {
    let mut acc = cluster();
    let mut p0: ProposerState<&'static str> = ProposerState::new(pid(0), 2);
    phase1(&mut p0, &mut acc, &[0, 1, 2]);
    let reqs = p0.propose(vec!["x"]);
    acc[0].handle_accept(reqs[0]);
    acc[1].handle_accept(reqs[0]);
    let mut p1: ProposerState<&'static str> = ProposerState::new(pid(1), 2);
    p1.max_seen = Some(ballot(1, 0));
    let recovered = phase1(&mut p1, &mut acc, &[1, 2]);
    assert_eq!(p1.ballot, Some(ballot(2, 1)));
    assert_eq!(recovered.len(), 1);
    assert_eq!(recovered[0].slot, 0);
    assert_eq!(recovered[0].value, Some("x"));
    assert_eq!(recovered[0].ballot, ballot(2, 1));
    let fresh = p1.propose(vec!["new"]);
    assert_eq!(fresh[0].slot, 1);
}

#[test]
fn scenario_stale_leader_is_rejected_everywhere() {
    let mut acc = cluster();
    let mut p0: ProposerState<&'static str> = ProposerState::new(pid(0), 2);
    phase1(&mut p0, &mut acc, &[0, 1, 2]);
    let mut p1: ProposerState<&'static str> = ProposerState::new(pid(1), 2);
    p1.max_seen = Some(ballot(1, 0));
    phase1(&mut p1, &mut acc, &[0, 1, 2]);
    let req = accept(ballot(1, 0), 1, Some("y"));
    let mut committed = None;
    for i in 0..3u32 {
        let r = acc[i as usize].handle_accept(req);
        assert!(matches!(r, AcceptReply::Reject { max_ballot } if max_ballot == ballot(2, 1)));
        assert!(acc[i as usize].entry(1).is_none());
        if let Some(c) = p0.on_accept_reply(aid(i), r) {
            committed = Some(c);
        }
    }
    assert_eq!(committed, None);
    assert!(p0.phase == Phase::Idle);
    assert_eq!(p0.max_seen, Some(ballot(2, 1)));
}

#[test]
fn recovery_fills_holes_and_takes_highest_ballot() {
    let e = |n: u32, p: u32, v: Option<&'static str>| LogValue { ballot: ballot(n, p), value: v };
    let entries = vec![(0, e(1, 0, Some("a"))), (2, e(1, 0, Some("c"))), (0, e(2, 1, Some("b"))), (0, e(2, 1, Some("d")))];
    let r = recover_log(&entries);
    assert_eq!(r.len(), 3);
    assert_eq!(r[0].unwrap().value, Some("b"));
    assert!(r[1].is_none());
    assert_eq!(r[2].unwrap().value, Some("c"));
    assert!(recover_log::<&'static str>(&Vec::new()).is_empty());
}

#[test]
fn hole_is_reproposed_as_noop() {
    let mut acc = cluster();
    acc[0].handle_accept(accept(ballot(1, 0), 2, Some("c")));
    let mut p: ProposerState<&'static str> = ProposerState::new(pid(1), 2);
    p.max_seen = Some(ballot(1, 0));
    let reqs = phase1(&mut p, &mut acc, &[0, 1]);
    assert_eq!(reqs.len(), 3);
    assert_eq!(reqs[0].value, None);
    assert_eq!(reqs[1].value, None);
    assert_eq!(reqs[2].value, Some("c"));
    assert_eq!(p.next_slot, 3);
}

#[test]
fn propose_needs_leadership() {
    let mut p: ProposerState<&'static str> = ProposerState::new(pid(0), 2);
    assert!(p.propose(vec!["x"]).is_empty());
    assert_eq!(p.next_slot, 0);
}

#[test]
fn scenario_candidate_times_out_and_restarts_phase1() {
    let cfg = config(1);
    let mut s = ElectionState::new(pid(0), 0, &cfg);
    let a = s.step(ElectionEvent::Tick(6));
    assert!(matches!(a, ElectionAction::StartPhase1(b) if b == ballot(1, 0)));
    assert!(s.role == Role::Candidate);
    assert!(matches!(s.step(ElectionEvent::Tick(9)), ElectionAction::Idle));
    let a = s.step(ElectionEvent::Tick(12));
    assert!(matches!(a, ElectionAction::StartPhase1(b) if b == ballot(2, 0)));
    let mut p: ProposerState<&'static str> = ProposerState::new(pid(0), 2);
    let mut acc = cluster();
    phase1(&mut p, &mut acc, &[0, 1]);
    p.propose(vec!["x"]);
    assert_eq!(p.pending.len(), 1);
    assert_eq!(p.start_phase1(), Some(ballot(2, 0)));
    assert!(p.phase == Phase::Preparing);
    assert_eq!(p.pending.len(), 0);
}

#[test]
fn first_check_is_staggered_by_index() {
    let cfg = config(1);
    let mut s = ElectionState::new(pid(2), 2, &cfg);
    assert_eq!(s.next_check, 6);
    assert!(matches!(s.step(ElectionEvent::Tick(5)), ElectionAction::Idle));
    assert!(matches!(s.step(ElectionEvent::Tick(6)), ElectionAction::StartPhase1(_)));
}

#[test]
fn leader_sends_heartbeats_and_yields_to_higher_ballot() {
    let cfg = config(1);
    let mut s = ElectionState::new(pid(0), 0, &cfg);
    s.step(ElectionEvent::Tick(6));
    let a = s.step(ElectionEvent::Elected(ballot(1, 0)));
    assert!(matches!(a, ElectionAction::SendHeartbeat(b) if b == ballot(1, 0)));
    assert!(s.role == Role::Leader);
    assert!(matches!(s.step(ElectionEvent::Tick(7)), ElectionAction::SendHeartbeat(_)));
    assert_eq!(s.next_send, 8);
    assert!(matches!(s.step(ElectionEvent::Tick(7)), ElectionAction::Idle));
    let a = s.step(ElectionEvent::Preempted(ballot(3, 1)));
    assert!(matches!(a, ElectionAction::StartPhase1(b) if b == ballot(4, 0)));
    assert!(s.role == Role::Candidate);
}

#[test]
fn heartbeat_keeps_follower_quiet() {
    let cfg = config(1);
    let mut s = ElectionState::new(pid(1), 0, &cfg);
    s.step(ElectionEvent::Heartbeat(ballot(1, 0), 4));
    assert!(matches!(s.step(ElectionEvent::Tick(9)), ElectionAction::Idle));
    assert!(matches!(s.step(ElectionEvent::Tick(10)), ElectionAction::StartPhase1(b) if b == ballot(2, 1)));
    s.step(ElectionEvent::Heartbeat(ballot(1, 0), 11));
    assert!(s.role == Role::Candidate);
    assert_eq!(s.max_seen, Some(ballot(2, 1)));
}

#[test]
fn rejects_and_short_streams_map_to_errors() {
    let mut a: AcceptorState<&'static str> = AcceptorState::new();
    a.handle_prepare(ballot(5, 0));
    let r = a.handle_accept(accept(ballot(4, 9), 0, Some("v")));
    assert_eq!(r.into_result(), Err(PaxosError::StaleBallot));
    let ok = a.handle_accept(accept(ballot(5, 0), 2, Some("v")));
    assert_eq!(ok.into_result(), Ok((ballot(5, 0), 2)));
    let cur = RoundKey::Prepare(ballot(5, 0));
    let short = await_quorum(vec![resp(cur, 1, 0)], 2, cur);
    assert!(matches!(short.into_result(), Err(PaxosError::QuorumUnreachable)));
    let full = await_quorum(vec![resp(cur, 1, 0), resp(cur, 2, 7)], 2, cur);
    assert_eq!(full.into_result().unwrap()[1].payload, 7);
}

#[test]
fn second_leader_commits_the_same_value_at_a_slot() {
    let mut acc = cluster();
    let mut p0: ProposerState<&'static str> = ProposerState::new(pid(0), 2);
    phase1(&mut p0, &mut acc, &[0, 1, 2]);
    let reqs = p0.propose(vec!["x"]);
    let mut first = None;
    for i in [0u32, 1] {
        let r = acc[i as usize].handle_accept(reqs[0]);
        if let Some(c) = p0.on_accept_reply(aid(i), r) {
            first = Some(c);
        }
    }
    assert_eq!(first, Some((0, Some("x"))));
    let mut p1: ProposerState<&'static str> = ProposerState::new(pid(1), 2);
    p1.max_seen = Some(ballot(1, 0));
    let recovered = phase1(&mut p1, &mut acc, &[1, 2]);
    let mut second = None;
    for i in [2u32, 0] {
        let r = acc[i as usize].handle_accept(recovered[0]);
        if let Some(c) = p1.on_accept_reply(aid(i), r) {
            second = Some(c);
        }
    }
    assert_eq!(second, Some((0, Some("x"))));
}
