//! The acceptor state machine.
//!
//! An acceptor is a passive replica: it remembers the highest proposal number
//! it has promised and the highest-numbered proposal it has accepted, and it
//! serves exactly two operations, `Prepare` and `Accept`. A driver must run
//! the two operations on one acceptor under mutual exclusion; each call here
//! is one whole critical section.

use vstd::prelude::*;

use crate::protocol::{AcceptResponse, PrepareResponse, Proposal};

verus! {

/// Returned by `Accept` when the request's number exceeds what the acceptor
/// has promised: a correct proposer never sends such a request, so this
/// signals a calling-protocol bug. The acceptor rejects the request instead
/// of failing, and reports its true promised number.
#[derive(Debug, PartialEq, Eq, Clone)]
pub struct ProtocolViolation {
    pub promise_number: i64,
}

/// Per-acceptor state for one instance of the protocol. In-memory only: it
/// does not survive a restart of the acceptor process.
pub struct Acceptor {
    /// Highest proposal number this acceptor has promised not to go below.
    /// Starts at 0 (no promise yet) and never decreases.
    pub promise_number: i64,
    /// The highest-numbered proposal accepted so far, or none.
    pub highest_numbered_proposal: Option<Proposal>,
}

/// One request an acceptor can serve, as a value: the model of the state
/// machine speaks of sequences of these.
pub enum AcceptorEvent {
    Prepare { number: i64 },
    Accept { proposal: Proposal },
}

impl Acceptor {
    /// A proposal is only ever accepted at the promised number, so what has
    /// been accepted never exceeds what has been promised.
    pub open spec fn wf(self) -> bool {
        match self.highest_numbered_proposal {
            Some(p) => p.number <= self.promise_number,
            None => true,
        }
    }

    /// The state a fresh acceptor starts in: nothing promised, nothing
    /// accepted.
    pub open spec fn init() -> Acceptor {
        Acceptor { promise_number: 0, highest_numbered_proposal: None }
    }

    pub fn new() -> (r: Acceptor)
        ensures
            r == Acceptor::init(),
            r.wf(),
    {
        Acceptor { promise_number: 0, highest_numbered_proposal: None }
    }

    /// Phase-1 request. The promised number rises to `number` if `number` is
    /// higher; the response reports the (possibly updated) promised number
    /// and the accepted proposal, and the caller detects staleness by
    /// comparing the reported number with the one it sent. There is no
    /// reject: the response is informational.
    pub fn prepare(&mut self, number: i64) -> (r: PrepareResponse)
        requires
            old(self).wf(),
        ensures
            final(self).wf(),
            *final(self) == step(*old(self), AcceptorEvent::Prepare { number }),
            final(self).promise_number >= old(self).promise_number,
            r.promise_number == final(self).promise_number,
            r.highest_numbered_proposal == old(self).highest_numbered_proposal,
    {
        if number > self.promise_number {
            self.promise_number = number;
        }
        PrepareResponse {
            promise_number: self.promise_number,
            highest_numbered_proposal: match &self.highest_numbered_proposal {
                Some(p) => Some(p.clone()),
                None => None,
            },
        }
    }

    /// Phase-2 request. A proposal numbered exactly at the promised number is
    /// recorded; one numbered below it is silently not recorded (the acceptor
    /// already promised higher), and the reported promised number lets the
    /// caller see it was outrun. One numbered above the promise is a
    /// calling-protocol violation and is rejected without changing any state.
    /// The promised number itself never changes here.
    pub fn accept(&mut self, proposal: Proposal) -> (r: Result<AcceptResponse, ProtocolViolation>)
        requires
            old(self).wf(),
        ensures
            final(self).wf(),
            *final(self) == step(*old(self), AcceptorEvent::Accept { proposal }),
            final(self).promise_number == old(self).promise_number,
            proposal.number > old(self).promise_number ==> (r == Err::<AcceptResponse,
                ProtocolViolation>(ProtocolViolation {
                promise_number: old(self).promise_number,
            }) && final(self).highest_numbered_proposal == old(
                self,
            ).highest_numbered_proposal),
            proposal.number <= old(self).promise_number ==> (r == Ok::<AcceptResponse,
                ProtocolViolation>(AcceptResponse { promise_number: old(self).promise_number })),
            proposal.number == old(self).promise_number ==> final(self).highest_numbered_proposal
                == Some(proposal),
            proposal.number < old(self).promise_number ==> final(self).highest_numbered_proposal
                == old(self).highest_numbered_proposal,
    {
        if proposal.number > self.promise_number {
            return Err(ProtocolViolation { promise_number: self.promise_number });
        }
        if proposal.number == self.promise_number {
            self.highest_numbered_proposal = Some(proposal);
        }
        Ok(AcceptResponse { promise_number: self.promise_number })
    }
}

/// The transition function of the acceptor state machine: the state after
/// serving one event. `prepare` and `accept` are proved to follow it exactly.
pub open spec fn step(pre: Acceptor, ev: AcceptorEvent) -> Acceptor {
    match ev {
        AcceptorEvent::Prepare { number } => Acceptor {
            promise_number: if number > pre.promise_number {
                number
            } else {
                pre.promise_number
            },
            highest_numbered_proposal: pre.highest_numbered_proposal,
        },
        AcceptorEvent::Accept { proposal } => if proposal.number == pre.promise_number {
            Acceptor { promise_number: pre.promise_number, highest_numbered_proposal: Some(proposal) }
        } else {
            pre
        },
    }
}

/// The state an acceptor reaches after serving a sequence of events in order.
pub open spec fn run_events(a: Acceptor, evs: Seq<AcceptorEvent>) -> Acceptor
    decreases evs.len(),
{
    if evs.len() == 0 {
        a
    } else {
        step(run_events(a, evs.drop_last()), evs.last())
    }
}

/// No single event lowers the promised number.
pub proof fn lemma_step_promise_monotonic(pre: Acceptor, ev: AcceptorEvent)
    ensures
        step(pre, ev).promise_number >= pre.promise_number,
{
}

/// No event breaks the acceptor's invariant.
pub proof fn lemma_step_preserves_wf(pre: Acceptor, ev: AcceptorEvent)
    requires
        pre.wf(),
    ensures
        step(pre, ev).wf(),
{
}

/// Well-formedness holds along any run from a well-formed state.
pub proof fn lemma_run_events_preserves_wf(a: Acceptor, evs: Seq<AcceptorEvent>)
    requires
        a.wf(),
    ensures
        run_events(a, evs).wf(),
    decreases evs.len(),
{
    if evs.len() > 0 {
        lemma_run_events_preserves_wf(a, evs.drop_last());
        lemma_step_preserves_wf(run_events(a, evs.drop_last()), evs.last());
    }
}

/// No single event moves the accepted proposal down: a replacement is only
/// ever recorded at the current promise, which (by well-formedness) is at
/// least the number already accepted.
pub proof fn lemma_step_accepted_monotonic(pre: Acceptor, ev: AcceptorEvent)
    requires
        pre.wf(),
    ensures
        pre.highest_numbered_proposal matches Some(p) ==> (step(
            pre,
            ev,
        ).highest_numbered_proposal matches Some(q) && q.number >= p.number),
{
}

/// Promise monotonicity: for one acceptor, the promised number after serving
/// any prefix of a request sequence never exceeds the promised number after
/// serving any longer prefix — over time, across both `Prepare` and `Accept`
/// calls, the promised number an acceptor reports is non-decreasing.
pub proof fn lemma_promise_monotonic(a: Acceptor, evs: Seq<AcceptorEvent>, i: int, j: int)
    requires
        0 <= i <= j <= evs.len(),
    ensures
        run_events(a, evs.take(i)).promise_number <= run_events(a, evs.take(j)).promise_number,
    decreases j - i,
{
    if i < j {
        lemma_promise_monotonic(a, evs, i, j - 1);
        assert(evs.take(j).drop_last() =~= evs.take(j - 1));
        lemma_step_promise_monotonic(run_events(a, evs.take(j - 1)), evs.take(j).last());
    }
}

/// Accepted monotonicity: once an acceptor has accepted a proposal, it
/// always has one, and the number of the accepted proposal never decreases
/// over any later requests. So an acceptor belonging to the quorum that
/// accepted a chosen proposal reports, to any later `Prepare`, an accepted
/// proposal at least that high — the first hypothesis of the adoption
/// lemma of the proposer module.
pub proof fn lemma_accepted_monotonic(a: Acceptor, evs: Seq<AcceptorEvent>, i: int, j: int)
    requires
        a.wf(),
        0 <= i <= j <= evs.len(),
    ensures
        run_events(a, evs.take(i)).highest_numbered_proposal matches Some(p) ==> (run_events(
            a,
            evs.take(j),
        ).highest_numbered_proposal matches Some(q) && q.number >= p.number),
    decreases j - i,
{
    if i < j {
        lemma_accepted_monotonic(a, evs, i, j - 1);
        assert(evs.take(j).drop_last() =~= evs.take(j - 1));
        lemma_run_events_preserves_wf(a, evs.take(j - 1));
        lemma_step_accepted_monotonic(run_events(a, evs.take(j - 1)), evs.take(j).last());
    }
}

} // verus!
