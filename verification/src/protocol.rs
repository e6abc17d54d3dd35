//! Wire-level value types of the protocol: proposals and the responses the
//! two acceptor operations return.

use vstd::prelude::*;

verus! {

/// A numbered value. Proposals are ordered by `number` alone; the protocol
/// guarantees (rather than the type) that two accepted proposals with equal
/// numbers carry the same value.
#[derive(Debug, PartialEq, Eq)]
pub struct Proposal {
    pub number: i64,
    pub value: String,
}

impl Clone for Proposal {
    fn clone(&self) -> (r: Self)
        ensures
            r == *self,
    {
        Proposal { number: self.number, value: self.value.clone() }
    }
}

/// What an acceptor answers to `Prepare`: its promised number after the
/// update, and the highest-numbered proposal it has accepted so far, if any.
#[derive(Debug, PartialEq, Eq)]
pub struct PrepareResponse {
    pub promise_number: i64,
    pub highest_numbered_proposal: Option<Proposal>,
}

impl Clone for PrepareResponse {
    fn clone(&self) -> (r: Self)
        ensures
            r == *self,
    {
        PrepareResponse {
            promise_number: self.promise_number,
            highest_numbered_proposal: match &self.highest_numbered_proposal {
                Some(p) => Some(p.clone()),
                None => None,
            },
        }
    }
}

/// What an acceptor answers to `Accept`: its current promised number, which
/// lets the caller detect that it was outrun.
#[derive(Debug, PartialEq, Eq)]
pub struct AcceptResponse {
    pub promise_number: i64,
}

impl Clone for AcceptResponse {
    fn clone(&self) -> (r: Self)
        ensures
            r == *self,
    {
        AcceptResponse { promise_number: self.promise_number }
    }
}

} // verus!
