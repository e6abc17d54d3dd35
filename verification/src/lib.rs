//! Single-decree Paxos core.
//!
//! A fixed set of acceptors agrees on one value despite concurrent proposers
//! and message loss, as long as a majority of acceptors stays reachable.
//! This crate holds the protocol logic itself: the acceptor state machine
//! (promise / accept bookkeeping) and the proposer's two-phase, quorum-driven
//! decision steps, including the backoff policy used to break livelock.
//!
//! The transport that carries `Prepare` and `Accept` requests between
//! processes is a collaborator, not part of the core: a driver performs the
//! calls and hands the collected responses to the evaluation functions here.

pub mod acceptor;
pub mod backoff;
pub mod proposer;
pub mod protocol;
pub mod safety;
