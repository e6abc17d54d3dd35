use paxos::acceptor::{Acceptor, ProtocolViolation};
use paxos::backoff::{contention_backoff_ms, shortfall_backoff_ms};
use paxos::proposer::{evaluate_phase1, evaluate_phase2, next_number, quorum, Phase1Outcome};
use paxos::protocol::{AcceptResponse, PrepareResponse, Proposal};

// A synchronous driver over the core: direct calls stand in for the RPC
// transport, `None` for an acceptor that is unreachable.

fn broadcast_prepare(
    acceptors: &mut [Acceptor],
    reachable: &[bool],
    number: i64,
) -> Vec<Option<PrepareResponse>> {
    let mut out: Vec<Option<PrepareResponse>> = Vec::new();
    for idx in 0..acceptors.len() {
        if reachable[idx] {
            let resp = acceptors[idx].prepare(number);
            assert!(resp.promise_number >= number);
            out.push(Some(resp));
        } else {
            out.push(None);
        }
    }
    out
}

fn broadcast_accept(
    acceptors: &mut [Acceptor],
    promisers: &[usize],
    proposal: &Proposal,
) -> Vec<Option<AcceptResponse>> {
    let mut out: Vec<Option<AcceptResponse>> = Vec::new();
    for idx in promisers.iter() {
        match acceptors[*idx].accept(proposal.clone()) {
            Ok(resp) => {
                assert!(resp.promise_number >= proposal.number);
                out.push(Some(resp));
            }
            Err(_) => panic!("a correct proposer never sends a number above the promise"),
        }
    }
    out
}

fn decide_value(
    acceptors: &mut [Acceptor],
    reachable: &[bool],
    counter: &mut i64,
    candidate: &str,
) -> Proposal {
    loop {
        let number: i64 = next_number(counter);
        let prepares = broadcast_prepare(acceptors, reachable, number);
        let q: u32 = quorum(acceptors.len() as u32);
        match evaluate_phase1(number, q, &candidate.to_string(), &prepares) {
            Phase1Outcome::Outdated => continue,
            Phase1Outcome::QuorumShortfall => continue,
            Phase1Outcome::Proceed { promisers, proposal } => {
                let accepts = broadcast_accept(acceptors, &promisers, &proposal);
                if evaluate_phase2(number, &accepts) {
                    continue;
                }
                return proposal;
            }
        }
    }
}

fn fresh_acceptors(n: usize) -> Vec<Acceptor> {
    let mut v: Vec<Acceptor> = Vec::new();
    for _ in 0..n {
        v.push(Acceptor::new());
    }
    v
}

#[test]
fn it_works() {
    let result: i32 = 2 + 2;
    assert_eq!(result, 4);
}

#[test]
fn simple() {
    let mut acceptors = fresh_acceptors(3);
    let mut counter: i64 = 0;

    let result = decide_value(&mut acceptors, &[true, true, true], &mut counter, "hello");
    assert_eq!(
        result,
        Proposal {
            number: 1,
            value: "hello".into()
        }
    );
}

#[test]
fn concurrent_run() {
    let mut acceptors = fresh_acceptors(3);
    let mut counter: i64 = 0;

    let proposer_num: usize = 10;

    let mut result: Vec<Proposal> = Vec::new();
    for i in 0..proposer_num {
        let value = format!("hello {}", i);
        result.push(decide_value(
            &mut acceptors,
            &[true, true, true],
            &mut counter,
            &value,
        ));
    }

    assert!(result.windows(2).all(|w| w[0].value == w[1].value));
}

#[test]
fn interleaved_proposers_agree() {
    // Proposer A finishes phase 1 at number 1, then proposer B runs a whole
    // round at number 2. A's phase 2 is outdated, so A retries and must
    // adopt B's value.
    let mut acceptors = fresh_acceptors(3);
    let mut counter: i64 = 0;

    let number_a: i64 = next_number(&mut counter);
    let prepares_a = broadcast_prepare(&mut acceptors, &[true, true, true], number_a);
    let outcome_a = evaluate_phase1(number_a, quorum(3), &"alpha".to_string(), &prepares_a);
    let (promisers_a, proposal_a) = match outcome_a {
        Phase1Outcome::Proceed {
            promisers,
            proposal,
        } => (promisers, proposal),
        _ => panic!("phase 1 with fresh acceptors must proceed"),
    };

    let decided_b = decide_value(&mut acceptors, &[true, true, true], &mut counter, "bravo");
    assert_eq!(decided_b.value, "bravo".to_string());

    let accepts_a = broadcast_accept(&mut acceptors, &promisers_a, &proposal_a);
    assert!(evaluate_phase2(number_a, &accepts_a));

    let decided_a = decide_value(&mut acceptors, &[true, true, true], &mut counter, "alpha");
    assert_eq!(decided_a.value, "bravo".to_string());
}

#[test]
fn majority_tolerance() {
    // 3 acceptors, quorum 2: one acceptor may be unreachable for the whole
    // call and the value is still decided on the first attempt.
    let mut acceptors = fresh_acceptors(3);
    let mut counter: i64 = 0;

    let result = decide_value(&mut acceptors, &[true, false, true], &mut counter, "hello");
    assert_eq!(result.number, 1);
    assert_eq!(result.value, "hello".to_string());
}

#[test]
fn five_acceptors_two_down() {
    // Quorum of 5 is 3: two unreachable acceptors do not block the call.
    let mut acceptors = fresh_acceptors(5);
    let mut counter: i64 = 0;

    let result = decide_value(
        &mut acceptors,
        &[true, false, true, false, true],
        &mut counter,
        "hello",
    );
    assert_eq!(result.number, 1);
    assert_eq!(result.value, "hello".to_string());
}

#[test]
fn recovers_after_quorum_shortfall() {
    // First attempt reaches a single acceptor: below quorum, so the attempt
    // asks for the fixed backoff. Once connectivity returns, the next
    // attempt (with a fresh number) decides.
    let mut acceptors = fresh_acceptors(3);
    let mut counter: i64 = 0;

    let number: i64 = next_number(&mut counter);
    let prepares = broadcast_prepare(&mut acceptors, &[true, false, false], number);
    let outcome = evaluate_phase1(number, quorum(3), &"hello".to_string(), &prepares);
    assert_eq!(outcome, Phase1Outcome::QuorumShortfall);

    let result = decide_value(&mut acceptors, &[true, true, true], &mut counter, "hello");
    assert_eq!(result.number, 2);
    assert_eq!(result.value, "hello".to_string());
}

#[test]
fn quorum_shortfall_outcome() {
    // Only one of three acceptors answers: below quorum, the attempt asks
    // for the fixed backoff instead of proceeding.
    let mut acceptors = fresh_acceptors(3);
    let prepares = broadcast_prepare(&mut acceptors, &[true, false, false], 1);
    let outcome = evaluate_phase1(1, quorum(3), &"hello".to_string(), &prepares);
    assert_eq!(outcome, Phase1Outcome::QuorumShortfall);
}

#[test]
fn phase1_outdated_on_higher_promise() {
    let mut acceptors = fresh_acceptors(3);
    // A competitor prepared at 7 on one acceptor first.
    acceptors[1].prepare(7);
    let prepares = broadcast_prepare(&mut acceptors, &[true, true, true], 1);
    let outcome = evaluate_phase1(1, quorum(3), &"hello".to_string(), &prepares);
    assert_eq!(outcome, Phase1Outcome::Outdated);
}

#[test]
fn phase1_adopts_highest_accepted() {
    let responses = vec![
        Some(PrepareResponse {
            promise_number: 5,
            highest_numbered_proposal: Some(Proposal {
                number: 2,
                value: "older".into(),
            }),
        }),
        Some(PrepareResponse {
            promise_number: 5,
            highest_numbered_proposal: Some(Proposal {
                number: 4,
                value: "newer".into(),
            }),
        }),
        None,
    ];
    let outcome = evaluate_phase1(5, 2, &"mine".to_string(), &responses);
    match outcome {
        Phase1Outcome::Proceed {
            promisers,
            proposal,
        } => {
            assert_eq!(promisers, vec![0, 1]);
            assert_eq!(proposal.number, 5);
            assert_eq!(proposal.value, "newer".to_string());
        }
        _ => panic!("a quorum promised, the attempt must proceed"),
    }
}

#[test]
fn phase1_tie_keeps_first_seen() {
    let responses = vec![
        Some(PrepareResponse {
            promise_number: 9,
            highest_numbered_proposal: Some(Proposal {
                number: 3,
                value: "first".into(),
            }),
        }),
        Some(PrepareResponse {
            promise_number: 9,
            highest_numbered_proposal: Some(Proposal {
                number: 3,
                value: "second".into(),
            }),
        }),
    ];
    let outcome = evaluate_phase1(9, 2, &"mine".to_string(), &responses);
    match outcome {
        Phase1Outcome::Proceed { proposal, .. } => {
            assert_eq!(proposal.value, "first".to_string());
        }
        _ => panic!("a quorum promised, the attempt must proceed"),
    }
}

#[test]
fn phase2_outdated_on_higher_promise() {
    let accepts = vec![
        Some(AcceptResponse { promise_number: 1 }),
        Some(AcceptResponse { promise_number: 2 }),
    ];
    assert!(evaluate_phase2(1, &accepts));

    let quiet = vec![Some(AcceptResponse { promise_number: 1 }), None];
    assert!(!evaluate_phase2(1, &quiet));
}

#[test]
fn accept_below_promise_is_not_recorded() {
    // The accept-rejection rule: a number below the promise leaves the
    // accepted proposal unchanged and reports the true, higher promise.
    let mut acceptor = Acceptor::new();
    acceptor.prepare(5);
    let reply = acceptor.accept(Proposal {
        number: 3,
        value: "stale".into(),
    });
    assert_eq!(reply, Ok(AcceptResponse { promise_number: 5 }));

    // Nothing was recorded: a later prepare reports no accepted proposal.
    let resp = acceptor.prepare(6);
    assert_eq!(resp.highest_numbered_proposal, None);

    // At the promise the proposal is recorded; below it, the record stays.
    let reply = acceptor.accept(Proposal {
        number: 6,
        value: "current".into(),
    });
    assert_eq!(reply, Ok(AcceptResponse { promise_number: 6 }));
    let reply = acceptor.accept(Proposal {
        number: 4,
        value: "late".into(),
    });
    assert_eq!(reply, Ok(AcceptResponse { promise_number: 6 }));
    let resp = acceptor.prepare(7);
    assert_eq!(
        resp.highest_numbered_proposal,
        Some(Proposal {
            number: 6,
            value: "current".into()
        })
    );
}

#[test]
fn accept_above_promise_is_a_violation() {
    let mut acceptor = Acceptor::new();
    acceptor.prepare(2);
    let reply = acceptor.accept(Proposal {
        number: 3,
        value: "early".into(),
    });
    assert_eq!(reply, Err(ProtocolViolation { promise_number: 2 }));

    // The rejected request changed nothing.
    let resp = acceptor.prepare(2);
    assert_eq!(resp.promise_number, 2);
    assert_eq!(resp.highest_numbered_proposal, None);
}

#[test]
fn promise_numbers_are_monotonic() {
    let mut acceptor = Acceptor::new();
    let mut reported: Vec<i64> = Vec::new();
    reported.push(acceptor.prepare(3).promise_number);
    reported.push(acceptor.prepare(1).promise_number);
    match acceptor.accept(Proposal {
        number: 3,
        value: "v".into(),
    }) {
        Ok(resp) => reported.push(resp.promise_number),
        Err(_) => panic!("3 is exactly the promise"),
    }
    reported.push(acceptor.prepare(10).promise_number);
    match acceptor.accept(Proposal {
        number: 2,
        value: "w".into(),
    }) {
        Ok(resp) => reported.push(resp.promise_number),
        Err(_) => panic!("2 is below the promise"),
    }
    assert_eq!(reported, vec![3, 3, 3, 10, 10]);
    assert!(reported.windows(2).all(|w| w[0] <= w[1]));
}

#[test]
fn quorum_is_a_majority() {
    assert_eq!(quorum(1), 1);
    assert_eq!(quorum(2), 2);
    assert_eq!(quorum(3), 2);
    assert_eq!(quorum(4), 3);
    assert_eq!(quorum(5), 3);
}

#[test]
fn next_number_counts_up() {
    let mut counter: i64 = 0;
    assert_eq!(next_number(&mut counter), 1);
    assert_eq!(next_number(&mut counter), 2);
    assert_eq!(next_number(&mut counter), 3);
    assert_eq!(counter, 3);
}

#[test]
fn contention_backoff_is_jittered_in_range() {
    for _ in 0..100 {
        let ms: u64 = contention_backoff_ms();
        assert!((3000..5000).contains(&ms));
    }
}

#[test]
fn shortfall_backoff_is_fixed() {
    assert_eq!(shortfall_backoff_ms(), 5000);
}
