//! The proposer's round logic: proposal numbering, evaluation of the
//! responses gathered in each of the two phases, quorum arithmetic, and the
//! protocol lemmas (quorum overlap, first-attempt liveness, majority
//! tolerance).
//!
//! A driver owns the transport: per attempt it draws a fresh number, sends
//! `Prepare` to every acceptor, hands the collected responses (a failed or
//! timed-out call becomes `None`) to `evaluate_phase1`, and acts on the
//! outcome — back off and retry, or send `Accept` to exactly the acceptors
//! that promised and hand those responses to `evaluate_phase2`.

use vstd::prelude::*;
use vstd::set_lib::set_int_range;

use crate::acceptor::{step, Acceptor, AcceptorEvent};
use crate::protocol::{AcceptResponse, PrepareResponse, Proposal};

verus! {

/// The quorum threshold for `acceptor_num` acceptors: a majority,
/// `floor(acceptor_num / 2) + 1`, so that any two quorums overlap in at
/// least one acceptor.
pub fn quorum(acceptor_num: u32) -> (q: u32)
    ensures
        q == acceptor_num / 2 + 1,
{
    acceptor_num / 2 + 1
}

/// Draws the next proposal number from a proposer's counter: an
/// increment-and-read, so no two attempts of one proposer reuse a number.
/// The driver must hold the counter under exclusive access across the call.
///
/// Numbers are unique only per proposer: two proposer instances each start
/// their own counter and can draw the same number — a latent gap, since
/// each may then believe it won a promise. Deployments wanting globally
/// unique numbers should pack a proposer identifier into the low bits; this
/// crate keeps the plain counter and relies on the promise comparisons to
/// force one collider into a retry.
pub fn next_number(counter: &mut i64) -> (n: i64)
    requires
        *old(counter) < i64::MAX,
    ensures
        *final(counter) == *old(counter) + 1,
        n == *final(counter),
{
    *counter = *counter + 1;
    *counter
}

/// This phase-1 response counts as a promise for `number`: the acceptor
/// answered, at exactly the number that was sent.
pub open spec fn is_promise(r: Option<PrepareResponse>, number: int) -> bool {
    match r {
        Some(resp) => resp.promise_number == number,
        None => false,
    }
}

/// This phase-1 response shows a competing proposer ahead of `number`.
pub open spec fn is_higher_promise(r: Option<PrepareResponse>, number: int) -> bool {
    match r {
        Some(resp) => resp.promise_number > number,
        None => false,
    }
}

/// Some phase-1 response shows a competitor ahead: the attempt is outdated.
pub open spec fn any_higher_promise(rs: Seq<Option<PrepareResponse>>, number: int) -> bool {
    exists|i: int| 0 <= i < rs.len() && is_higher_promise(#[trigger] rs[i], number)
}

/// `Prepare` raises the acceptor's promise to at least the number sent
/// before answering, so no reply carries a lower number. A reply that did
/// would betray a broken acceptor; the evaluation functions require their
/// callers to check for it.
pub open spec fn no_reply_below(rs: Seq<Option<PrepareResponse>>, number: int) -> bool {
    forall|i: int|
        0 <= i < rs.len() ==> (match #[trigger] rs[i] {
            Some(resp) => resp.promise_number >= number,
            None => true,
        })
}

/// The indexes of the acceptors whose response is a promise for `number`,
/// in increasing order.
pub open spec fn promiser_indexes(rs: Seq<Option<PrepareResponse>>, number: int) -> Seq<int>
    decreases rs.len(),
{
    if rs.len() == 0 {
        Seq::empty()
    } else {
        let prefix = promiser_indexes(rs.drop_last(), number);
        if is_promise(rs.last(), number) {
            prefix.push(rs.len() - 1)
        } else {
            prefix
        }
    }
}

/// The number of `p`, or 0 for none. The scan for an accepted proposal to
/// carry forward starts from 0, so a proposal numbered 0 or below is never
/// adopted.
pub open spec fn number_or_zero(p: Option<Proposal>) -> int {
    match p {
        Some(q) => q.number as int,
        None => 0,
    }
}

/// The highest-numbered accepted proposal reported by the promises for
/// `number`, scanning left to right. Only a strictly greater number
/// displaces the current holder, so on a tie the first seen is kept.
pub open spec fn highest_accepted(rs: Seq<Option<PrepareResponse>>, number: int) -> Option<
    Proposal,
>
    decreases rs.len(),
{
    if rs.len() == 0 {
        None
    } else {
        let prefix = highest_accepted(rs.drop_last(), number);
        if is_promise(rs.last(), number) {
            match rs.last() {
                Some(resp) => match resp.highest_numbered_proposal {
                    Some(p) => if p.number > number_or_zero(prefix) {
                        Some(p)
                    } else {
                        prefix
                    },
                    None => prefix,
                },
                None => prefix,
            }
        } else {
            prefix
        }
    }
}

/// This phase-2 response shows a competing proposer ahead of `number`.
pub open spec fn is_higher_accept(r: Option<AcceptResponse>, number: int) -> bool {
    match r {
        Some(resp) => resp.promise_number > number,
        None => false,
    }
}

/// Some phase-2 response shows a competitor ahead: the attempt is outdated.
pub open spec fn any_higher_accept(rs: Seq<Option<AcceptResponse>>, number: int) -> bool {
    exists|i: int| 0 <= i < rs.len() && is_higher_accept(#[trigger] rs[i], number)
}

/// `Accept` is only sent to acceptors that promised at `number`, and an
/// acceptor's promise never decreases, so no phase-2 reply carries a lower
/// number. A reply that did would betray a broken acceptor; the caller must
/// check for it.
pub open spec fn no_accept_reply_below(rs: Seq<Option<AcceptResponse>>, number: int) -> bool {
    forall|i: int|
        0 <= i < rs.len() ==> (match #[trigger] rs[i] {
            Some(resp) => resp.promise_number >= number,
            None => true,
        })
}

/// What one attempt does after phase 1, as decided by `evaluate_phase1`.
#[derive(Debug, PartialEq, Eq)]
pub enum Phase1Outcome {
    /// A competing proposer holds a higher number: back off with jitter and
    /// retry with a fresh number.
    Outdated,
    /// Fewer than a quorum of acceptors promised: back off for the fixed
    /// pause and retry.
    QuorumShortfall,
    /// A quorum promised: send `Accept(proposal)` to exactly the acceptors
    /// at `promisers`.
    Proceed { promisers: Vec<usize>, proposal: Proposal },
}

proof fn lemma_any_higher_promise_extend(rs: Seq<Option<PrepareResponse>>, number: int, k: int)
    requires
        0 <= k < rs.len(),
    ensures
        any_higher_promise(rs.take(k + 1), number) <==> (any_higher_promise(rs.take(k), number)
            || is_higher_promise(rs[k], number)),
{
    let pre = rs.take(k);
    let ext = rs.take(k + 1);
    assert(forall|i: int| 0 <= i < k ==> ext[i] == #[trigger] pre[i]);
    if any_higher_promise(pre, number) {
        let i = choose|i: int| 0 <= i < pre.len() && is_higher_promise(#[trigger] pre[i], number);
        assert(is_higher_promise(ext[i], number));
    }
    if is_higher_promise(rs[k], number) {
        assert(is_higher_promise(ext[k], number));
    }
    if any_higher_promise(ext, number) {
        let i = choose|i: int| 0 <= i < ext.len() && is_higher_promise(#[trigger] ext[i], number);
        if i < k {
            assert(is_higher_promise(pre[i], number));
        }
    }
}

proof fn lemma_any_higher_accept_extend(rs: Seq<Option<AcceptResponse>>, number: int, k: int)
    requires
        0 <= k < rs.len(),
    ensures
        any_higher_accept(rs.take(k + 1), number) <==> (any_higher_accept(rs.take(k), number)
            || is_higher_accept(rs[k], number)),
{
    let pre = rs.take(k);
    let ext = rs.take(k + 1);
    assert(forall|i: int| 0 <= i < k ==> ext[i] == #[trigger] pre[i]);
    if any_higher_accept(pre, number) {
        let i = choose|i: int| 0 <= i < pre.len() && is_higher_accept(#[trigger] pre[i], number);
        assert(is_higher_accept(ext[i], number));
    }
    if is_higher_accept(rs[k], number) {
        assert(is_higher_accept(ext[k], number));
    }
    if any_higher_accept(ext, number) {
        let i = choose|i: int| 0 <= i < ext.len() && is_higher_accept(#[trigger] ext[i], number);
        if i < k {
            assert(is_higher_accept(pre[i], number));
        }
    }
}

/// Evaluates the responses a phase-1 broadcast of `Prepare(number)`
/// gathered. `responses` has one entry per acceptor, in acceptor order; a
/// failed or timed-out call is `None` and counts for nothing. The attempt is
/// outdated if any answer shows a number above `number`; otherwise it
/// proceeds exactly when at least `quorum` acceptors promised, proposing the
/// caller's `candidate` value unless some promiser already reported an
/// accepted proposal, in which case the value of the highest-numbered one is
/// carried forward.
pub fn evaluate_phase1(
    number: i64,
    quorum: u32,
    candidate: &String,
    responses: &Vec<Option<PrepareResponse>>,
) -> (r: Phase1Outcome)
    requires
        no_reply_below(responses@, number as int),
    ensures
        (r is Outdated <==> any_higher_promise(responses@, number as int)),
        (r is QuorumShortfall <==> !any_higher_promise(responses@, number as int)
            && promiser_indexes(responses@, number as int).len() < quorum),
        (r is Proceed <==> !any_higher_promise(responses@, number as int) && promiser_indexes(
            responses@,
            number as int,
        ).len() >= quorum),
        r matches Phase1Outcome::Proceed { promisers, proposal } ==> ({
            &&& promisers@.map_values(|u: usize| u as int) == promiser_indexes(
                responses@,
                number as int,
            )
            &&& proposal.number == number
            &&& proposal.value@ == (match highest_accepted(responses@, number as int) {
                Some(p) => p.value@,
                None => candidate@,
            })
        }),
{
    let ghost rs = responses@;
    let ghost num = number as int;
    let mut outdated = false;
    let mut promisers: Vec<usize> = Vec::new();
    let mut highest_number: i64 = 0;
    let mut highest_proposal: Option<Proposal> = None;
    let n = responses.len();
    let mut idx: usize = 0;
    while idx < n
        invariant
            rs == responses@,
            num == number as int,
            n == rs.len(),
            idx <= n,
            no_reply_below(rs, num),
            outdated == any_higher_promise(rs.take(idx as int), num),
            promisers@.map_values(|u: usize| u as int) == promiser_indexes(
                rs.take(idx as int),
                num,
            ),
            highest_proposal == highest_accepted(rs.take(idx as int), num),
            highest_number as int == number_or_zero(highest_proposal),
        decreases n - idx,
    {
        proof {
            assert(rs.take(idx as int + 1).drop_last() =~= rs.take(idx as int));
            assert(rs.take(idx as int + 1).last() == rs[idx as int]);
            lemma_any_higher_promise_extend(rs, num, idx as int);
        }
        match &responses[idx] {
            Some(resp) => {
                if resp.promise_number > number {
                    outdated = true;
                } else {
                    promisers.push(idx);
                    proof {
                        assert(promisers@.map_values(|u: usize| u as int) =~= promiser_indexes(
                            rs.take(idx as int + 1),
                            num,
                        ));
                    }
                    match &resp.highest_numbered_proposal {
                        Some(p) => {
                            if p.number > highest_number {
                                highest_number = p.number;
                                highest_proposal = Some(p.clone());
                            }
                        },
                        None => {},
                    }
                }
            },
            None => {},
        }
        idx += 1;
    }
    proof {
        assert(rs.take(n as int) =~= rs);
    }
    if outdated {
        return Phase1Outcome::Outdated;
    }
    if promisers.len() < quorum as usize {
        return Phase1Outcome::QuorumShortfall;
    }
    let value = match highest_proposal {
        Some(p) => p.value,
        None => candidate.clone(),
    };
    Phase1Outcome::Proceed { promisers, proposal: Proposal { number, value } }
}

/// Evaluates the responses a phase-2 broadcast of `Accept` gathered, one
/// entry per promiser contacted, `None` for a failed call. The attempt is
/// outdated — back off with jitter and retry — exactly when some answer
/// shows a number above `number`; otherwise the proposal is declared
/// chosen.
///
/// Note that success is declared without re-checking that a majority
/// actually answered phase 2: a silent acceptor is merely absent from the
/// answers and cannot veto. That is the round algorithm's deliberate
/// shape; see `lemma_phase2_confirms_acceptance` for what the answers that
/// did arrive confirm.
pub fn evaluate_phase2(number: i64, responses: &Vec<Option<AcceptResponse>>) -> (outdated: bool)
    requires
        no_accept_reply_below(responses@, number as int),
    ensures
        outdated == any_higher_accept(responses@, number as int),
{
    let ghost rs = responses@;
    let ghost num = number as int;
    let mut outdated = false;
    let n = responses.len();
    let mut idx: usize = 0;
    while idx < n
        invariant
            rs == responses@,
            num == number as int,
            n == rs.len(),
            idx <= n,
            outdated == any_higher_accept(rs.take(idx as int), num),
        decreases n - idx,
    {
        proof {
            lemma_any_higher_accept_extend(rs, num, idx as int);
        }
        match &responses[idx] {
            Some(resp) => {
                if resp.promise_number > number {
                    outdated = true;
                }
            },
            None => {},
        }
        idx += 1;
    }
    proof {
        assert(rs.take(n as int) =~= rs);
    }
    outdated
}

/// How many acceptors answered phase 1 at all (promise or not).
pub open spec fn responsive_count(rs: Seq<Option<PrepareResponse>>) -> int
    decreases rs.len(),
{
    if rs.len() == 0 {
        0
    } else {
        responsive_count(rs.drop_last()) + (if rs.last() is Some {
            1int
        } else {
            0int
        })
    }
}

/// An index is a promiser index exactly when the response there is a promise.
pub proof fn lemma_promiser_indexes_contains(
    rs: Seq<Option<PrepareResponse>>,
    number: int,
    i: int,
)
    ensures
        promiser_indexes(rs, number).contains(i) <==> (0 <= i < rs.len() && is_promise(
            rs[i],
            number,
        )),
    decreases rs.len(),
{
    if rs.len() > 0 {
        lemma_promiser_indexes_contains(rs.drop_last(), number, i);
        let prefix = promiser_indexes(rs.drop_last(), number);
        if is_promise(rs.last(), number) {
            let ext = prefix.push(rs.len() - 1);
            assert(promiser_indexes(rs, number) == ext);
            if 0 <= i < rs.len() && is_promise(rs[i], number) {
                if i == rs.len() - 1 {
                    assert(ext[ext.len() - 1] == i);
                    assert(ext.contains(i));
                } else {
                    assert(rs.drop_last()[i] == rs[i]);
                    let j = choose|j: int| 0 <= j < prefix.len() && prefix[j] == i;
                    assert(ext[j] == i);
                    assert(ext.contains(i));
                }
            }
            if ext.contains(i) {
                let j = choose|j: int| 0 <= j < ext.len() && ext[j] == i;
                if j < prefix.len() {
                    assert(prefix[j] == i);
                    assert(prefix.contains(i));
                    assert(rs.drop_last()[i] == rs[i]);
                } else {
                    assert(i == rs.len() - 1);
                }
            }
        } else {
            if 0 <= i < rs.len() && is_promise(rs[i], number) {
                assert(i != rs.len() - 1);
                assert(rs.drop_last()[i] == rs[i]);
                let j = choose|j: int| 0 <= j < prefix.len() && prefix[j] == i;
                assert(promiser_indexes(rs, number)[j] == i);
            }
            if promiser_indexes(rs, number).contains(i) {
                assert(prefix.contains(i));
                assert(rs.drop_last()[i] == rs[i]);
            }
        }
    }
}

/// Majority tolerance: when every acceptor that answered phase 1 answered at
/// exactly the number sent — no competitor ahead, however many acceptors
/// were unreachable — the attempt is not outdated and every responsive
/// acceptor counts toward the quorum. So with at least `quorum` acceptors
/// reachable the attempt proceeds, whatever the others do.
pub proof fn lemma_majority_tolerance(rs: Seq<Option<PrepareResponse>>, number: int)
    requires
        forall|i: int|
            0 <= i < rs.len() ==> ((#[trigger] rs[i]) matches Some(resp) ==> resp.promise_number
                == number),
    ensures
        !any_higher_promise(rs, number),
        promiser_indexes(rs, number).len() == responsive_count(rs),
    decreases rs.len(),
{
    if rs.len() > 0 {
        assert(forall|i: int|
            0 <= i < rs.drop_last().len() ==> rs.drop_last()[i] == #[trigger] rs[i]);
        lemma_majority_tolerance(rs.drop_last(), number);
    }
    if any_higher_promise(rs, number) {
        let i = choose|i: int| 0 <= i < rs.len() && is_higher_promise(#[trigger] rs[i], number);
        assert(false);
    }
}

proof fn lemma_highest_accepted_none(rs: Seq<Option<PrepareResponse>>, number: int)
    requires
        forall|i: int|
            0 <= i < rs.len() ==> ((#[trigger] rs[i]) matches Some(resp)
                ==> resp.highest_numbered_proposal is None),
    ensures
        highest_accepted(rs, number) is None,
    decreases rs.len(),
{
    if rs.len() > 0 {
        assert(forall|i: int|
            0 <= i < rs.drop_last().len() ==> rs.drop_last()[i] == #[trigger] rs[i]);
        lemma_highest_accepted_none(rs.drop_last(), number);
    }
}

/// Single-proposer liveness: with every acceptor fresh and reachable and no
/// competing proposer, the first attempt succeeds outright. A fresh acceptor
/// serving `Prepare(1)` moves to promise 1 with nothing accepted; every
/// phase-1 answer is then a promise at 1 reporting no accepted proposal, so
/// the attempt proceeds with the caller's own value; and every phase-2
/// answer reports promise 1, so the attempt is not outdated and
/// `{number: 1, value: candidate}` is chosen.
pub proof fn lemma_single_proposer_first_attempt(
    n: u32,
    prepares: Seq<Option<PrepareResponse>>,
    accepts: Seq<Option<AcceptResponse>>,
)
    requires
        n >= 1,
        prepares.len() == n,
        forall|i: int|
            0 <= i < prepares.len() ==> prepares[i] == Some(
                PrepareResponse { promise_number: 1, highest_numbered_proposal: None },
            ),
        forall|i: int|
            0 <= i < accepts.len() ==> accepts[i] == Some(AcceptResponse { promise_number: 1 }),
    ensures
        step(Acceptor::init(), AcceptorEvent::Prepare { number: 1 }) == (Acceptor {
            promise_number: 1,
            highest_numbered_proposal: None,
        }),
        !any_higher_promise(prepares, 1),
        promiser_indexes(prepares, 1).len() == n,
        promiser_indexes(prepares, 1).len() >= n / 2 + 1,
        highest_accepted(prepares, 1) is None,
        !any_higher_accept(accepts, 1),
{
    lemma_majority_tolerance(prepares, 1);
    lemma_responsive_count_all(prepares);
    lemma_highest_accepted_none(prepares, 1);
    if any_higher_accept(accepts, 1) {
        let i = choose|i: int| 0 <= i < accepts.len() && is_higher_accept(#[trigger] accepts[i], 1);
        assert(false);
    }
}

proof fn lemma_responsive_count_all(rs: Seq<Option<PrepareResponse>>)
    requires
        forall|i: int| 0 <= i < rs.len() ==> (#[trigger] rs[i]) is Some,
    ensures
        responsive_count(rs) == rs.len(),
    decreases rs.len(),
{
    if rs.len() > 0 {
        assert(forall|i: int|
            0 <= i < rs.drop_last().len() ==> rs.drop_last()[i] == #[trigger] rs[i]);
        lemma_responsive_count_all(rs.drop_last());
    }
}

/// The accepted proposal a phase-1 response reports, if the acceptor
/// answered and had accepted one.
pub open spec fn reported_accepted(r: Option<PrepareResponse>) -> Option<Proposal> {
    match r {
        Some(resp) => resp.highest_numbered_proposal,
        None => None,
    }
}

/// What the value-choice rule adopts. The scan over the promises never
/// yields an invented proposal: when it yields one, some promiser reported
/// exactly it, and no promiser reported one with a higher number. Together
/// with `lemma_promise_quorums_overlap` this is the adoption half of
/// safety: a proposer whose promise quorum touches the accept quorum of a
/// chosen proposal hears a reported proposal at least that high, so it
/// carries an accepted value forward rather than proposing its own
/// candidate over a chosen value.
pub proof fn lemma_highest_accepted_adopts_max(rs: Seq<Option<PrepareResponse>>, number: int)
    ensures
        number_or_zero(highest_accepted(rs, number)) >= 0,
        highest_accepted(rs, number) matches Some(p) ==> (exists|i: int|
            0 <= i < rs.len() && is_promise(#[trigger] rs[i], number) && reported_accepted(rs[i])
                == Some(p)),
        forall|i: int|
            0 <= i < rs.len() && is_promise(#[trigger] rs[i], number) ==> (reported_accepted(
                rs[i],
            ) matches Some(q) ==> q.number <= number_or_zero(highest_accepted(rs, number))),
    decreases rs.len(),
{
    if rs.len() > 0 {
        let prefix = rs.drop_last();
        lemma_highest_accepted_adopts_max(prefix, number);
        let hp = highest_accepted(prefix, number);
        let h = highest_accepted(rs, number);
        assert(forall|i: int| 0 <= i < prefix.len() ==> prefix[i] == #[trigger] rs[i]);
        assert(number_or_zero(h) >= number_or_zero(hp));
        match h {
            Some(p) => {
                if h == hp {
                    let i = choose|i: int|
                        0 <= i < prefix.len() && is_promise(#[trigger] prefix[i], number)
                            && reported_accepted(prefix[i]) == Some(p);
                    assert(is_promise(rs[i], number) && reported_accepted(rs[i]) == Some(p));
                } else {
                    assert(is_promise(rs[rs.len() - 1], number) && reported_accepted(
                        rs[rs.len() - 1],
                    ) == Some(p));
                }
            },
            None => {},
        }
        assert forall|i: int| 0 <= i < rs.len() && is_promise(#[trigger] rs[i], number) implies (
        reported_accepted(rs[i]) matches Some(q) ==> q.number <= number_or_zero(h)) by {
            if i < rs.len() - 1 {
                assert(prefix[i] == rs[i]);
            }
        };
    }
}

/// A phase-2 answer that does not outdate the attempt confirms acceptance:
/// when no reply is below the number sent (see `no_accept_reply_below`) and
/// none is above it, every acceptor that answered reported exactly that
/// number — and by the accept contract an acceptor whose promise equals the
/// proposal's number records the proposal. So when a quorum answers such a
/// phase 2, the proposal is chosen.
pub proof fn lemma_phase2_confirms_acceptance(rs: Seq<Option<AcceptResponse>>, number: int, i: int)
    requires
        no_accept_reply_below(rs, number),
        !any_higher_accept(rs, number),
        0 <= i < rs.len(),
    ensures
        rs[i] matches Some(resp) ==> resp.promise_number == number,
{
    match rs[i] {
        Some(resp) => {
            if resp.promise_number > number {
                assert(is_higher_accept(rs[i], number));
            }
        },
        None => {},
    }
}

pub(crate) proof fn lemma_promiser_indexes_bounds(rs: Seq<Option<PrepareResponse>>, number: int)
    ensures
        promiser_indexes(rs, number).no_duplicates(),
        forall|j: int|
            0 <= j < promiser_indexes(rs, number).len() ==> 0 <= #[trigger] promiser_indexes(
                rs,
                number,
            )[j] < rs.len(),
    decreases rs.len(),
{
    if rs.len() > 0 {
        lemma_promiser_indexes_bounds(rs.drop_last(), number);
    }
}

proof fn lemma_promiser_set_majority_overlap(
    n: u32,
    rs: Seq<Option<PrepareResponse>>,
    number: int,
    a: Set<int>,
)
    requires
        rs.len() == n,
        a.finite(),
        a.subset_of(set_int_range(0, n as int)),
        a.len() >= n / 2 + 1,
        promiser_indexes(rs, number).len() >= n / 2 + 1,
    ensures
        exists|i: int| 0 <= i < n && a.contains(i) && is_promise(rs[i], number),
{
    broadcast use vstd::seq_lib::seq_to_set_is_finite;

    let s = promiser_indexes(rs, number);
    lemma_promiser_indexes_bounds(rs, number);
    s.unique_seq_to_set();
    let b = s.to_set();
    assert(b.subset_of(set_int_range(0, n as int))) by {
        assert forall|x: int| b.contains(x) implies set_int_range(0, n as int).contains(x) by {
            let j = choose|j: int| 0 <= j < s.len() && s[j] == x;
        };
    };
    lemma_quorum_overlap(n, a, b);
    let i = choose|i: int| a.contains(i) && b.contains(i);
    lemma_promiser_indexes_contains(rs, number, i);
}

/// Safety, on the quorums the protocol actually forms: two attempts against
/// the same `n` acceptors that each gathered a majority of promises share at
/// least one acceptor. Through that shared acceptor, a proposal accepted
/// under the earlier attempt is reported to the later one, whose
/// value-choice rule then carries the accepted value forward instead of its
/// own candidate.
pub proof fn lemma_promise_quorums_overlap(
    n: u32,
    rs1: Seq<Option<PrepareResponse>>,
    number1: int,
    rs2: Seq<Option<PrepareResponse>>,
    number2: int,
)
    requires
        rs1.len() == n,
        rs2.len() == n,
        promiser_indexes(rs1, number1).len() >= n / 2 + 1,
        promiser_indexes(rs2, number2).len() >= n / 2 + 1,
    ensures
        exists|i: int| 0 <= i < n && is_promise(rs1[i], number1) && is_promise(rs2[i], number2),
{
    broadcast use vstd::seq_lib::seq_to_set_is_finite;

    let s1 = promiser_indexes(rs1, number1);
    lemma_promiser_indexes_bounds(rs1, number1);
    s1.unique_seq_to_set();
    let a = s1.to_set();
    assert(a.subset_of(set_int_range(0, n as int))) by {
        assert forall|x: int| a.contains(x) implies set_int_range(0, n as int).contains(x) by {
            let j = choose|j: int| 0 <= j < s1.len() && s1[j] == x;
        };
    };
    lemma_promiser_set_majority_overlap(n, rs2, number2, a);
    let i = choose|i: int| 0 <= i < n && a.contains(i) && is_promise(rs2[i], number2);
    lemma_promiser_indexes_contains(rs1, number1, i);
    assert(0 <= i < n && is_promise(rs1[i], number1) && is_promise(rs2[i], number2));
}

/// The invariant-preservation core of safety. Suppose a proposal `chosen`
/// was accepted by a majority `a` of the `n` acceptors. Consider a later
/// attempt whose phase 1 formed a promise quorum over `rs`, where
/// — every acceptor of `a` that promised reports an accepted proposal at
///   least as high as `chosen` (an acceptor's accepted proposal only ever
///   moves to higher numbers once `chosen` is in place), and
/// — every proposal reported at or above `chosen.number` carries `chosen`'s
///   value (no attempt in between got a different value accepted that high).
/// Then the attempt's value-choice rule adopts `chosen`'s value: whatever
/// this attempt gets accepted, it cannot carry any other value.
pub proof fn lemma_chosen_value_is_adopted(
    n: u32,
    rs: Seq<Option<PrepareResponse>>,
    number: int,
    a: Set<int>,
    chosen: Proposal,
)
    requires
        rs.len() == n,
        promiser_indexes(rs, number).len() >= n / 2 + 1,
        a.finite(),
        a.subset_of(set_int_range(0, n as int)),
        a.len() >= n / 2 + 1,
        chosen.number >= 1,
        forall|i: int|
            a.contains(i) && is_promise(#[trigger] rs[i], number) ==> (reported_accepted(
                rs[i],
            ) matches Some(q) && q.number >= chosen.number),
        forall|i: int|
            0 <= i < rs.len() ==> (reported_accepted(#[trigger] rs[i]) matches Some(q) ==> (
            q.number >= chosen.number ==> q.value == chosen.value)),
    ensures
        highest_accepted(rs, number) matches Some(h) && h.value == chosen.value && h.number
            >= chosen.number,
{
    lemma_promiser_set_majority_overlap(n, rs, number, a);
    let i = choose|i: int| 0 <= i < n && a.contains(i) && is_promise(rs[i], number);
    lemma_highest_accepted_adopts_max(rs, number);
    let h = highest_accepted(rs, number);
    assert(number_or_zero(h) >= chosen.number);
    match h {
        Some(hp) => {
            let j = choose|j: int|
                0 <= j < rs.len() && is_promise(#[trigger] rs[j], number) && reported_accepted(
                    rs[j],
                ) == Some(hp);
            assert(hp.value == chosen.value);
        },
        None => {
            assert(false);
        },
    }
}

/// Quorum overlap: two sets of acceptor indexes over the same `n` acceptors,
/// each holding at least `floor(n / 2) + 1` of the indexes `0 .. n`, share
/// at least one index. This is the pigeonhole fact behind the safety of the
/// protocol: the promise quorum of any later attempt overlaps the accept
/// quorum of a chosen value, so the later proposer hears of that value and
/// carries it forward instead of its own.
pub proof fn lemma_quorum_overlap(n: u32, a: Set<int>, b: Set<int>)
    requires
        a.finite(),
        b.finite(),
        a.subset_of(set_int_range(0, n as int)),
        b.subset_of(set_int_range(0, n as int)),
        a.len() >= n / 2 + 1,
        b.len() >= n / 2 + 1,
    ensures
        exists|i: int| a.contains(i) && b.contains(i),
{
    if !(exists|i: int| a.contains(i) && b.contains(i)) {
        assert(a.disjoint(b));
        vstd::set_lib::lemma_set_disjoint_lens(a, b);
        vstd::set_lib::lemma_int_range(0, n as int);
        assert((a + b).subset_of(set_int_range(0, n as int)));
        vstd::set_lib::lemma_len_subset(a + b, set_int_range(0, n as int));
        assert((a + b).len() == a.len() + b.len());
        assert(a.len() + b.len() >= 2 * (n / 2 + 1));
        assert(2 * (n / 2) >= n - 1);
        assert(false);
    }
}

} // verus!
