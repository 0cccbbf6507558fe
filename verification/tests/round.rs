use paxos::acceptor::Acceptor;
use paxos::command::Command;
use paxos::round::{cluster_size, count_flags, Phase, Round, RoundOutcome};

fn round(number: u8, acceptors: usize) -> Round {
    Round::new(number, acceptors, Command::parse("put x 5").unwrap())
}

#[test]
fn count_flags_counts_set_flags() {
    assert_eq!(count_flags(&vec![]), 0);
    assert_eq!(count_flags(&vec![false, false]), 0);
    assert_eq!(count_flags(&vec![true, false, true, true]), 3);
}

#[test]
fn cluster_size_is_twice_the_faults_and_one() {
    assert_eq!(cluster_size(0), Some(1));
    assert_eq!(cluster_size(1), Some(3));
    assert_eq!(cluster_size(2), Some(5));
    assert_eq!(cluster_size(32767), Some(65535));
    assert_eq!(cluster_size(32768), None);
    assert_eq!(cluster_size(u16::MAX), None);
}

#[test]
fn quorum_is_a_strict_majority() {
    let expected = [(0, 1), (1, 1), (2, 2), (3, 2), (4, 3), (5, 3), (6, 4), (7, 4), (101, 51)];
    for (acceptors, quorum) in expected {
        assert_eq!(round(1, acceptors).quorum(), quorum);
    }
    for f in 0..20 {
        assert_eq!(round(1, 2 * f + 1).quorum(), f + 1);
    }
}

#[test]
fn a_new_round_collects_promises() {
    let r = round(4, 3);
    assert_eq!(r.number(), 4);
    assert_eq!(r.command(), &Command::parse("put x 5").unwrap());
    assert_eq!(r.phase(), Phase::Preparing);
    assert_eq!(r.outcome(), None);
    assert_eq!(r.promises(), 0);
    assert_eq!(r.acceptances(), 0);
    assert_eq!(r.prepare_request(), "prepare 4");
}

#[test]
fn a_round_with_a_quorum_in_both_phases_commits() {
    let mut r = round(4, 3);
    r.record_reply(0, "promise 4");
    r.record_reply(2, "promise 4");
    assert_eq!(r.promises(), 2);
    assert_eq!(r.begin_accept(), Some("accept-request 4 put x 5".to_string()));
    assert_eq!(r.phase(), Phase::Accepting);
    r.record_reply(0, "accepted 4");
    assert_eq!(r.acceptances(), 1);
    r.record_reply(2, "accepted 4");
    assert_eq!(r.acceptances(), 2);
    assert_eq!(r.finish(), RoundOutcome::Committed);
    assert_eq!(r.phase(), Phase::Finished(RoundOutcome::Committed));
    assert_eq!(r.outcome(), Some(RoundOutcome::Committed));
}

#[test]
fn a_round_without_a_quorum_of_promises_sends_no_accept_request() {
    let mut r = round(4, 3);
    r.record_reply(1, "promise 4");
    assert_eq!(r.begin_accept(), None);
    assert_eq!(r.outcome(), Some(RoundOutcome::NoQuorum));
    r.record_reply(0, "accepted 4");
    r.record_reply(1, "accepted 4");
    assert_eq!(r.acceptances(), 0);
    assert_eq!(r.finish(), RoundOutcome::NoQuorum);
}

#[test]
fn a_round_without_a_quorum_of_acceptances_does_not_commit() {
    let mut r = round(4, 5);
    for i in 0..3 {
        r.record_reply(i, "promise 4");
    }
    assert!(r.begin_accept().is_some());
    r.record_reply(0, "accepted 4");
    r.record_reply(1, "accepted 4");
    assert_eq!(r.finish(), RoundOutcome::NoQuorum);
    assert_eq!(r.outcome(), Some(RoundOutcome::NoQuorum));
}

#[test]
fn an_acceptor_that_answers_twice_counts_once() {
    let mut r = round(4, 3);
    r.record_reply(1, "promise 4");
    r.record_reply(1, "promise 4");
    r.record_reply(1, "promise 4 2 put y 1");
    assert_eq!(r.promises(), 1);
    assert_eq!(r.begin_accept(), None);
}

#[test]
fn rejections_and_other_replies_do_not_count() {
    let mut r = round(4, 3);
    r.record_reply(0, "promise 5");
    r.record_reply(0, "promise 3");
    r.record_reply(0, "accepted 4");
    r.record_reply(0, "prepare 4");
    r.record_reply(0, "ERROR Invalid operation");
    r.record_reply(0, "");
    r.record_reply(3, "promise 4");
    r.record_reply(usize::MAX, "promise 4");
    assert_eq!(r.promises(), 0);
    r.record_reply(0, "promise 4");
    r.record_reply(1, "promise 4 1 get k");
    assert_eq!(r.promises(), 2);
    assert!(r.begin_accept().is_some());
    r.record_reply(0, "accepted 5");
    r.record_reply(0, "promise 4");
    r.record_reply(0, "promise 9");
    r.record_reply(3, "accepted 4");
    assert_eq!(r.acceptances(), 0);
    assert_eq!(r.promises(), 2);
}

#[test]
fn promises_that_come_late_do_not_count() {
    let mut r = round(4, 3);
    r.record_reply(0, "promise 4");
    r.record_reply(1, "promise 4");
    assert!(r.begin_accept().is_some());
    r.record_reply(2, "promise 4");
    assert_eq!(r.promises(), 2);
}

#[test]
fn begin_accept_outside_the_first_phase_changes_nothing() {
    let mut r = round(4, 1);
    r.record_reply(0, "promise 4");
    assert!(r.begin_accept().is_some());
    assert_eq!(r.begin_accept(), None);
    assert_eq!(r.phase(), Phase::Accepting);
    r.record_reply(0, "accepted 4");
    assert_eq!(r.finish(), RoundOutcome::Committed);
    assert_eq!(r.begin_accept(), None);
    assert_eq!(r.finish(), RoundOutcome::Committed);
    assert_eq!(r.outcome(), Some(RoundOutcome::Committed));
}

#[test]
fn a_round_given_up_in_the_first_phase_has_no_quorum() {
    let mut r = round(4, 3);
    r.record_reply(0, "promise 4");
    r.record_reply(1, "promise 4");
    r.record_reply(2, "promise 4");
    assert_eq!(r.finish(), RoundOutcome::NoQuorum);
    assert_eq!(r.phase(), Phase::Finished(RoundOutcome::NoQuorum));
}

#[test]
fn a_round_among_no_acceptors_never_commits() {
    let mut r = round(1, 0);
    assert_eq!(r.quorum(), 1);
    assert_eq!(r.begin_accept(), None);
    assert_eq!(r.finish(), RoundOutcome::NoQuorum);
}

#[test]
fn a_committed_round_has_a_majority_of_distinct_acceptances() {
    for f in 0..4usize {
        let n = 2 * f + 1;
        for reachable in 0..=n {
            let mut r = round(9, n);
            for i in 0..reachable {
                r.record_reply(i, "promise 9");
                r.record_reply(i, "promise 9");
            }
            if r.begin_accept().is_some() {
                for i in 0..reachable {
                    r.record_reply(i, "accepted 9");
                    r.record_reply(i, "accepted 9");
                }
            }
            let outcome = r.finish();
            assert_eq!(outcome == RoundOutcome::Committed, reachable >= f + 1);
            if outcome == RoundOutcome::Committed {
                assert!(r.acceptances() >= f + 1);
                assert_eq!(r.acceptances(), reachable);
            } else {
                assert_eq!(outcome, RoundOutcome::NoQuorum);
            }
        }
    }
}

#[test]
fn rounds_of_two_proposers_that_interleave() {
    let first = Command::parse("put x 1").unwrap();
    let second = Command::parse("put x 2").unwrap();
    let mut acceptors = [Acceptor::new(), Acceptor::new(), Acceptor::new()];
    let mut a = Round::new(1, 3, first.clone());
    let mut b = Round::new(2, 3, second.clone());

    for i in [0, 1] {
        let reply = acceptors[i].handle_message(&a.prepare_request());
        a.record_reply(i, &reply);
    }
    for i in [1, 2] {
        let reply = acceptors[i].handle_message(&b.prepare_request());
        b.record_reply(i, &reply);
    }
    let accept_a = a.begin_accept().unwrap();
    let accept_b = b.begin_accept().unwrap();

    let reply = acceptors[0].handle_message(&accept_a);
    assert_eq!(reply, "accepted 1");
    a.record_reply(0, &reply);
    let reply = acceptors[1].handle_message(&accept_a);
    assert_eq!(reply, "promise 2");
    a.record_reply(1, &reply);
    for i in [1, 2] {
        let reply = acceptors[i].handle_message(&accept_b);
        assert_eq!(reply, "accepted 2");
        b.record_reply(i, &reply);
    }

    assert_eq!(a.finish(), RoundOutcome::NoQuorum);
    assert_eq!(b.finish(), RoundOutcome::Committed);
    let holders = acceptors.iter().filter(|x| x.highest_accepted() == Some((2, &second))).count();
    assert_eq!(holders, 2);
    assert_eq!(acceptors[0].highest_accepted(), Some((1, &first)));

    let reply = acceptors[0].handle_message("prepare 3");
    assert_eq!(reply, "promise 3 1 put x 1");
}
