//! Agreement, proved over a model of whole executions.
//!
//! The model runs any number of proposer attempts ("rounds") against one set
//! of acceptors. Message loss in phase 1 is arbitrary: each round reaches an
//! arbitrary subset of the acceptors. A round proceeds to phase 2 exactly
//! under the evaluation rules of the proposer module, and then its proposal
//! reaches every acceptor that promised.
//!
//! Two protocol-level assumptions bound the model, both matching documented
//! gaps of the design:
//! — round numbers are globally distinct (one proposer never reuses a
//!   number; two proposer instances could collide, which the number
//!   generator does not prevent);
//! — a proceeding round's phase-2 message reaches all its promisers (the
//!   round algorithm declares success without re-checking a phase-2
//!   majority, so a partially delivered phase 2 weakens the guarantee).
//!
//! Under these, `theorem_agreement` shows full agreement: any two rounds
//! that proceed carry the same value, so every `DecideValue` call that
//! returns, returns the same value as every other.

use vstd::prelude::*;
use vstd::set_lib::set_int_range;

use crate::acceptor::{step, Acceptor, AcceptorEvent};
use crate::proposer::{
    any_higher_promise, highest_accepted, is_promise, lemma_chosen_value_is_adopted,
    lemma_promise_quorums_overlap, lemma_promiser_indexes_bounds, lemma_promiser_indexes_contains,
    promiser_indexes, reported_accepted,
};
use crate::protocol::{AcceptResponse, PrepareResponse, Proposal};

verus! {

/// One proposer attempt, as the model sees it: the number it drew, the
/// value its caller wants decided, and which acceptors its phase-1 messages
/// reached.
pub struct Round {
    pub number: i64,
    pub candidate: String,
    pub reached: Seq<bool>,
}

/// The phase-1 responses a round gathers from `state`: an unreached
/// acceptor is a lost call, a reached one answers as `prepare` does — its
/// promise raised to at least the round's number, its accepted proposal
/// alongside.
pub open spec fn phase1_responses(state: Seq<Acceptor>, r: Round) -> Seq<Option<PrepareResponse>> {
    Seq::new(
        state.len(),
        |i: int|
            if 0 <= i < r.reached.len() && r.reached[i] {
                Some(
                    PrepareResponse {
                        promise_number: step(
                            state[i],
                            AcceptorEvent::Prepare { number: r.number },
                        ).promise_number,
                        highest_numbered_proposal: state[i].highest_numbered_proposal,
                    },
                )
            } else {
                None
            },
    )
}

/// Acceptor states after phase 1 of `r`: each reached acceptor served the
/// `Prepare`, the others are untouched.
pub open spec fn after_phase1(state: Seq<Acceptor>, r: Round) -> Seq<Acceptor> {
    Seq::new(
        state.len(),
        |i: int|
            if 0 <= i < r.reached.len() && r.reached[i] {
                step(state[i], AcceptorEvent::Prepare { number: r.number })
            } else {
                state[i]
            },
    )
}

/// Whether the round proceeds to phase 2, per the evaluation rules: no
/// answer above its number, and a majority of promises.
pub open spec fn proceeds(state: Seq<Acceptor>, r: Round) -> bool {
    let rs = phase1_responses(state, r);
    &&& !any_higher_promise(rs, r.number as int)
    &&& promiser_indexes(rs, r.number as int).len() >= state.len() / 2 + 1
}

/// The proposal a proceeding round sends in phase 2: its own number, and
/// the value-choice rule's value — the candidate unless some promiser
/// reported an accepted proposal.
pub open spec fn round_proposal(state: Seq<Acceptor>, r: Round) -> Proposal {
    Proposal {
        number: r.number,
        value: match highest_accepted(phase1_responses(state, r), r.number as int) {
            Some(p) => p.value,
            None => r.candidate,
        },
    }
}

/// The acceptor states after the whole round: in this model the phase-2
/// message of a proceeding round reaches every acceptor that promised.
pub open spec fn after_round(state: Seq<Acceptor>, r: Round) -> Seq<Acceptor> {
    let mid = after_phase1(state, r);
    if proceeds(state, r) {
        let promisers = promiser_indexes(phase1_responses(state, r), r.number as int);
        let proposal = round_proposal(state, r);
        Seq::new(
            mid.len(),
            |i: int|
                if promisers.contains(i) {
                    step(mid[i], AcceptorEvent::Accept { proposal })
                } else {
                    mid[i]
                },
        )
    } else {
        mid
    }
}

/// The state `n` fresh acceptors reach after the rounds run in order.
pub open spec fn run_rounds(n: u32, rounds: Seq<Round>) -> Seq<Acceptor>
    decreases rounds.len(),
{
    if rounds.len() == 0 {
        Seq::new(n as nat, |i: int| Acceptor::init())
    } else {
        after_round(run_rounds(n, rounds.drop_last()), rounds.last())
    }
}

/// The acceptor states just before round `k` runs.
pub open spec fn state_before(n: u32, rounds: Seq<Round>, k: int) -> Seq<Acceptor> {
    run_rounds(n, rounds.take(k))
}

/// Whether round `k` of the execution proceeds.
pub open spec fn round_proceeds(n: u32, rounds: Seq<Round>, k: int) -> bool {
    proceeds(state_before(n, rounds, k), rounds[k])
}

/// The proposal round `k` of the execution sends when it proceeds.
pub open spec fn chosen_at(n: u32, rounds: Seq<Round>, k: int) -> Proposal {
    round_proposal(state_before(n, rounds, k), rounds[k])
}

/// The promiser indexes round `k` of the execution gathered.
pub open spec fn promisers_at(n: u32, rounds: Seq<Round>, k: int) -> Seq<int> {
    promiser_indexes(
        phase1_responses(state_before(n, rounds, k), rounds[k]),
        rounds[k].number as int,
    )
}

/// The model's assumptions on an execution: every round's number is at
/// least 1, its reach mask covers the acceptors, and no number is reused
/// across rounds.
pub open spec fn well_formed_rounds(n: u32, rounds: Seq<Round>) -> bool {
    &&& forall|j: int| 0 <= j < rounds.len() ==> (#[trigger] rounds[j]).number >= 1
    &&& forall|j: int| 0 <= j < rounds.len() ==> (#[trigger] rounds[j]).reached.len() == n
    &&& forall|j1: int, j2: int|
        0 <= j1 < rounds.len() && 0 <= j2 < rounds.len() && j1 != j2 ==> (#[trigger] rounds[j1]).number != (#[trigger] rounds[j2]).number
}

/// This acceptor does not contradict `chosen`: whatever it has accepted at
/// or above `chosen`'s number carries `chosen`'s value.
pub open spec fn respects_choice(a: Acceptor, chosen: Proposal) -> bool {
    match a.highest_numbered_proposal {
        Some(q) => q.number >= chosen.number ==> q.value == chosen.value,
        None => true,
    }
}

/// Every acceptor of `state` respects `chosen`.
pub open spec fn choice_respected(state: Seq<Acceptor>, chosen: Proposal) -> bool {
    forall|i: int| 0 <= i < state.len() ==> respects_choice(#[trigger] state[i], chosen)
}

/// Every acceptor of the quorum `promisers` still holds an accepted
/// proposal numbered at least `m`.
pub open spec fn quorum_holds(state: Seq<Acceptor>, promisers: Seq<int>, m: int) -> bool {
    forall|i: int|
        #[trigger] promisers.contains(i) ==> (0 <= i < state.len()
            && (state[i].highest_numbered_proposal matches Some(q) && q.number >= m))
}

/// Every accepted proposal in `state` is the proposal of some proceeded
/// round among the first `k`.
pub open spec fn accepted_from_rounds(
    n: u32,
    rounds: Seq<Round>,
    k: int,
    state: Seq<Acceptor>,
) -> bool {
    forall|i: int|
        0 <= i < state.len() ==> ((#[trigger] state[i]).highest_numbered_proposal matches Some(q)
            ==> (exists|j: int|
            0 <= j < k && #[trigger] round_proceeds(n, rounds, j) && rounds[j].number == q.number))
}

/// The inductive invariant of an execution: after any prefix of the rounds,
/// the acceptors are well-formed; for every round that proceeded, its
/// promise quorum still holds accepted proposals at least as high as its
/// number, and no acceptor holds an accepted proposal at or above that
/// number with a different value; and every accepted proposal is the
/// proposal of some proceeded round.
pub proof fn lemma_inv(n: u32, rounds: Seq<Round>, k: int)
    requires
        well_formed_rounds(n, rounds),
        0 <= k <= rounds.len(),
    ensures
        state_before(n, rounds, k).len() == n,
        forall|i: int| 0 <= i < n ==> (#[trigger] state_before(n, rounds, k)[i]).wf(),
        forall|j: int|
            0 <= j < k && #[trigger] round_proceeds(n, rounds, j) ==> quorum_holds(
                state_before(n, rounds, k),
                promisers_at(n, rounds, j),
                rounds[j].number as int,
            ),
        forall|j: int|
            0 <= j < k && #[trigger] round_proceeds(n, rounds, j) ==> choice_respected(
                state_before(n, rounds, k),
                chosen_at(n, rounds, j),
            ),
        accepted_from_rounds(n, rounds, k, state_before(n, rounds, k)),
    decreases k, 1int,
{
    if k == 0 {
        assert(rounds.take(0).len() == 0);
    } else {
        let kk = k - 1;
        lemma_inv(n, rounds, kk);
        let prev = state_before(n, rounds, kk);
        let r = rounds[kk];
        let st = state_before(n, rounds, k);
        assert(rounds.take(k).drop_last() =~= rounds.take(kk));
        assert(rounds.take(k).last() == r);
        assert(st == after_round(prev, r));
        let mid = after_phase1(prev, r);
        let t = r.number as int;
        let rs = phase1_responses(prev, r);

        // Phase 1 never touches what is accepted, and keeps well-formedness.
        assert forall|i: int| 0 <= i < n implies (#[trigger] mid[i]).wf()
            && mid[i].highest_numbered_proposal == prev[i].highest_numbered_proposal by {
            crate::acceptor::lemma_step_preserves_wf(
                prev[i],
                AcceptorEvent::Prepare { number: r.number },
            );
        };

        if !proceeds(prev, r) {
            assert(st =~= mid);
            assert forall|j: int|
                0 <= j < k && #[trigger] round_proceeds(n, rounds, j) implies quorum_holds(
                st,
                promisers_at(n, rounds, j),
                rounds[j].number as int,
            ) && choice_respected(st, chosen_at(n, rounds, j)) by {
                assert(j < kk);
                assert(quorum_holds(prev, promisers_at(n, rounds, j), rounds[j].number as int));
                assert(choice_respected(prev, chosen_at(n, rounds, j)));
                assert forall|i: int| #[trigger]
                    promisers_at(n, rounds, j).contains(i) implies (0 <= i < st.len() && (
                st[i].highest_numbered_proposal matches Some(q) && q.number
                    >= rounds[j].number as int)) by {
                    assert(st[i].highest_numbered_proposal == prev[i].highest_numbered_proposal);
                };
            };
            assert forall|i: int|
                0 <= i < st.len() implies ((#[trigger] st[i]).highest_numbered_proposal matches Some(
                q,
            ) ==> (exists|j: int|
                0 <= j < k && #[trigger] round_proceeds(n, rounds, j) && rounds[j].number
                    == q.number)) by {
                assert(st[i].highest_numbered_proposal == prev[i].highest_numbered_proposal);
            };
        } else {
            let promisers = promiser_indexes(rs, t);
            let prop = round_proposal(prev, r);
            assert(prop.number == r.number);

            // Promisers are in range; a promiser's acceptor had promised at
            // most the round's number, and after phase 1 holds exactly it.
            assert forall|i: int| #[trigger]
                promisers.contains(i) implies 0 <= i < n && is_promise(rs[i], t) by {
                lemma_promiser_indexes_contains(rs, t, i);
            };
            assert forall|i: int|
                0 <= i < n && is_promise(#[trigger] rs[i], t) implies prev[i].promise_number
                <= r.number && mid[i].promise_number == r.number && reported_accepted(rs[i])
                == prev[i].highest_numbered_proposal by {};

            // Every acceptor after the round: promisers accepted the round's
            // proposal, the rest are as after phase 1.
            assert forall|i: int| 0 <= i < n && promisers.contains(i) implies st[i]
                == (Acceptor {
                promise_number: r.number,
                highest_numbered_proposal: Some(prop),
            }) by {
                assert(mid[i].promise_number == r.number);
                assert(st[i] == step(mid[i], AcceptorEvent::Accept { proposal: prop }));
            };
            assert(forall|i: int|
                0 <= i < n && !promisers.contains(i) ==> #[trigger] st[i] == mid[i]);

            // Any earlier proceeded round used a smaller number: its quorum
            // and this round's promisers overlap, and the shared acceptor
            // both promised at most this number and still holds an accepted
            // proposal at least the earlier one.
            assert forall|j: int|
                0 <= j <= kk - 1 && #[trigger] round_proceeds(n, rounds, j) implies rounds[j].number
                < r.number by {
                lemma_inv(n, rounds, j);
                let prej = state_before(n, rounds, j);
                let rsj = phase1_responses(prej, rounds[j]);
                let mj = rounds[j].number as int;
                assert(rsj.len() == n);
                assert(promiser_indexes(rsj, mj).len() >= n / 2 + 1);
                assert(promiser_indexes(rs, t).len() >= n / 2 + 1);
                lemma_promise_quorums_overlap(n, rsj, mj, rs, t);
                let i = choose|i: int|
                    0 <= i < n && is_promise(rsj[i], mj) && is_promise(rs[i], t);
                lemma_promiser_indexes_contains(rsj, mj, i);
                assert(promisers_at(n, rounds, j).contains(i));
                assert(quorum_holds(prev, promisers_at(n, rounds, j), mj));
                assert(prev[i].highest_numbered_proposal matches Some(q) && q.number >= mj);
                assert(prev[i].wf());
                assert(prev[i].promise_number >= mj);
                assert(prev[i].promise_number <= r.number);
                assert(rounds[j].number != r.number);
            };

            // So every accepted proposal before this round sits below it.
            assert forall|i: int|
                0 <= i < n implies ((#[trigger] prev[i]).highest_numbered_proposal matches Some(q)
                ==> q.number < r.number) by {
                match prev[i].highest_numbered_proposal {
                    Some(q) => {
                        let j = choose|j: int|
                            0 <= j < kk && #[trigger] round_proceeds(n, rounds, j)
                                && rounds[j].number == q.number;
                        assert(rounds[j].number < r.number);
                    },
                    None => {},
                }
            };

            // The adoption lemma, round by round: this round's value equals
            // the value of every earlier proceeded round.
            assert forall|j: int|
                0 <= j <= kk - 1 && #[trigger] round_proceeds(n, rounds, j) implies chosen_at(
                n,
                rounds,
                j,
            ).value == prop.value by {
                lemma_value_carried(n, rounds, j, kk);
                assert(chosen_at(n, rounds, kk) == prop);
            };

            // Well-formedness after the round.
            assert forall|i: int| 0 <= i < n implies (#[trigger] st[i]).wf() by {
                if promisers.contains(i) {
                } else {
                    assert(st[i] == mid[i]);
                }
            };

            // Each proceeded round's quorum still holds its number.
            assert forall|j: int|
                0 <= j < k && #[trigger] round_proceeds(n, rounds, j) implies quorum_holds(
                st,
                promisers_at(n, rounds, j),
                rounds[j].number as int,
            ) by {
                let mj = rounds[j].number as int;
                assert forall|i: int| #[trigger]
                    promisers_at(n, rounds, j).contains(i) implies (0 <= i < st.len() && (
                st[i].highest_numbered_proposal matches Some(q) && q.number >= mj)) by {
                    if j == kk {
                        assert(promisers.contains(i));
                        assert(st[i].highest_numbered_proposal == Some(prop));
                    } else {
                        assert(quorum_holds(prev, promisers_at(n, rounds, j), mj));
                        assert(prev[i].highest_numbered_proposal matches Some(q) && q.number
                            >= mj);
                        if promisers.contains(i) {
                            assert(st[i].highest_numbered_proposal == Some(prop));
                            assert(rounds[j].number < r.number);
                        } else {
                            assert(st[i].highest_numbered_proposal
                                == prev[i].highest_numbered_proposal);
                        }
                    }
                };
            };

            // No acceptor contradicts any proceeded round's choice.
            assert forall|j: int|
                0 <= j < k && #[trigger] round_proceeds(n, rounds, j) implies choice_respected(
                st,
                chosen_at(n, rounds, j),
            ) by {
                let ch = chosen_at(n, rounds, j);
                assert forall|i: int| 0 <= i < st.len() implies respects_choice(
                    #[trigger] st[i],
                    ch,
                ) by {
                    if j == kk {
                        assert(ch == prop);
                        if promisers.contains(i) {
                            assert(st[i].highest_numbered_proposal == Some(prop));
                        } else {
                            assert(st[i].highest_numbered_proposal
                                == prev[i].highest_numbered_proposal);
                        }
                    } else {
                        assert(choice_respected(prev, ch));
                        assert(respects_choice(prev[i], ch));
                        if promisers.contains(i) {
                            assert(st[i].highest_numbered_proposal == Some(prop));
                            assert(ch.value == prop.value);
                        } else {
                            assert(st[i].highest_numbered_proposal
                                == prev[i].highest_numbered_proposal);
                        }
                    }
                };
            };

            // Every accepted proposal still comes from a proceeded round.
            assert forall|i: int|
                0 <= i < st.len() implies ((#[trigger] st[i]).highest_numbered_proposal matches Some(
                q,
            ) ==> (exists|j: int|
                0 <= j < k && #[trigger] round_proceeds(n, rounds, j) && rounds[j].number
                    == q.number)) by {
                if promisers.contains(i) {
                    assert(st[i].highest_numbered_proposal == Some(prop));
                    assert(round_proceeds(n, rounds, kk) && rounds[kk].number == prop.number);
                } else {
                    assert(st[i].highest_numbered_proposal == prev[i].highest_numbered_proposal);
                    match prev[i].highest_numbered_proposal {
                        Some(q) => {
                            let j = choose|j: int|
                                0 <= j < kk && #[trigger] round_proceeds(n, rounds, j)
                                    && rounds[j].number == q.number;
                            assert(0 <= j < k && round_proceeds(n, rounds, j) && rounds[j].number
                                == q.number);
                        },
                        None => {},
                    }
                }
            };
        }
    }
}

/// A proceeding round adopts the value of any earlier proceeding round:
/// their quorums overlap, the shared acceptor reports an accepted proposal
/// at least as high as the earlier round's, and by the invariant every
/// reported proposal that high carries the earlier round's value, so the
/// value-choice rule yields exactly it.
pub proof fn lemma_value_carried(n: u32, rounds: Seq<Round>, j: int, k: int)
    requires
        well_formed_rounds(n, rounds),
        0 <= j < k < rounds.len(),
        round_proceeds(n, rounds, j),
        round_proceeds(n, rounds, k),
    ensures
        chosen_at(n, rounds, k).value == chosen_at(n, rounds, j).value,
    decreases k, 2int,
{
    lemma_inv(n, rounds, k);
    lemma_inv(n, rounds, j);
    let prev = state_before(n, rounds, k);
    let r = rounds[k];
    let rs = phase1_responses(prev, r);
    let t = r.number as int;
    let ch = chosen_at(n, rounds, j);
    let mj = rounds[j].number as int;
    assert(ch.number == rounds[j].number);

    let pj = promisers_at(n, rounds, j);
    let rsj = phase1_responses(state_before(n, rounds, j), rounds[j]);
    assert(rsj.len() == n);
    lemma_promiser_indexes_bounds(rsj, mj);
    pj.unique_seq_to_set();
    let a = pj.to_set();
    assert(a.subset_of(set_int_range(0, n as int))) by {
        assert forall|x: int| a.contains(x) implies set_int_range(0, n as int).contains(x) by {
            let idx = choose|idx: int| 0 <= idx < pj.len() && pj[idx] == x;
        };
    };
    assert(a.finite()) by {
        broadcast use vstd::seq_lib::seq_to_set_is_finite;

    };
    assert(a.len() >= n / 2 + 1);
    assert(promiser_indexes(rs, t).len() >= n / 2 + 1);

    assert(quorum_holds(prev, pj, mj));
    assert(choice_respected(prev, ch));

    assert forall|i: int|
        a.contains(i) && is_promise(#[trigger] rs[i], t) implies (reported_accepted(
        rs[i],
    ) matches Some(q) && q.number >= ch.number) by {
        assert(pj.contains(i));
        assert(0 <= i < prev.len() && (prev[i].highest_numbered_proposal matches Some(q)
            && q.number >= mj));
        assert(reported_accepted(rs[i]) == prev[i].highest_numbered_proposal);
    };
    assert forall|i: int|
        0 <= i < rs.len() implies (reported_accepted(#[trigger] rs[i]) matches Some(q) ==> (
    q.number >= ch.number ==> q.value == ch.value)) by {
        match reported_accepted(rs[i]) {
            Some(q) => {
                assert(rs[i] is Some);
                assert(prev[i].highest_numbered_proposal == Some(q));
                assert(respects_choice(prev[i], ch));
            },
            None => {},
        }
    };
    lemma_chosen_value_is_adopted(n, rs, t, a, ch);
}

/// Single-proposer liveness over the model: when nothing ran before it and
/// every acceptor is reachable, the first round — number 1, as a lone
/// proposer draws it — proceeds at once and chooses its caller's own value:
/// no contention, no retry.
pub proof fn theorem_first_round_decides(n: u32, rounds: Seq<Round>)
    requires
        n >= 1,
        rounds.len() >= 1,
        rounds[0].number == 1,
        rounds[0].reached.len() == n,
        forall|i: int| 0 <= i < n ==> rounds[0].reached[i],
    ensures
        round_proceeds(n, rounds, 0),
        chosen_at(n, rounds, 0) == (Proposal { number: 1, value: rounds[0].candidate }),
{
    let st0 = state_before(n, rounds, 0);
    assert(rounds.take(0).len() == 0);
    assert(st0 =~= Seq::new(n as nat, |i: int| Acceptor::init()));
    let rs = phase1_responses(st0, rounds[0]);
    assert forall|i: int| 0 <= i < rs.len() implies rs[i] == Some(
        PrepareResponse { promise_number: 1, highest_numbered_proposal: None::<Proposal> },
    ) by {
        assert(st0[i] == Acceptor::init());
    };
    crate::proposer::lemma_single_proposer_first_attempt(
        n,
        rs,
        Seq::<Option<AcceptResponse>>::empty(),
    );
    assert(proceeds(st0, rounds[0]));
    assert(chosen_at(n, rounds, 0).value == rounds[0].candidate);
}

/// Agreement — the safety property of the protocol, over the model: in any
/// execution, every round that proceeds to a decision carries the same
/// value as every other. A `DecideValue` call returns exactly the proposal
/// of such a round, so every call that returns reports the same value,
/// whatever the interleaving of rounds and whatever phase-1 messages were
/// lost.
pub proof fn theorem_agreement(n: u32, rounds: Seq<Round>, k1: int, k2: int)
    requires
        well_formed_rounds(n, rounds),
        0 <= k1 < rounds.len(),
        0 <= k2 < rounds.len(),
        round_proceeds(n, rounds, k1),
        round_proceeds(n, rounds, k2),
    ensures
        chosen_at(n, rounds, k1).value == chosen_at(n, rounds, k2).value,
{
    if k1 < k2 {
        lemma_value_carried(n, rounds, k1, k2);
    } else if k2 < k1 {
        lemma_value_carried(n, rounds, k2, k1);
    }
}

} // verus!

