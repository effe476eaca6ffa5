//! The consensus core of a Multi-Paxos replicated log: ballots, quorum
//! collection, the acceptor's rules, leader election and the proposer's
//! two phases, each stated as a verified function over plain values.
use vstd::prelude::*;

pub mod ballot;
pub mod quorum;
pub mod acceptor;
pub mod config;
pub mod election;
pub mod proposer;
pub mod safety;

verus! {

} // verus!
