//! The round coordinator: it hands out proposal numbers, each one once and in
//! increasing order, and runs a round of the protocol against a cluster.

use crate::acceptor::Ledger;
use crate::cluster::{Cluster, NodeView};
use crate::command::{Command, CommandView};
use crate::number::{ProposalNumber, MAX_PROPOSAL_NUMBER};
use crate::round::{count_true, lemma_count_monotone, quorum, Phase, Round, RoundOutcome, RoundView};
use vstd::prelude::*;

verus! {

/// The owner of the proposal counter.
pub struct Coordinator {
    issued: ProposalNumber,
}

impl View for Coordinator {
    type V = ProposalNumber;

    /// The highest proposal number handed out so far; 0 before the first.
    closed spec fn view(&self) -> ProposalNumber {
        self.issued
    }
}

/// The number that a coordinator hands out next, where `issued` is the highest one it
/// has handed out: the one above it, as long as there is one.
pub open spec fn next_number(issued: ProposalNumber) -> Option<ProposalNumber> {
    if issued < MAX_PROPOSAL_NUMBER {
        Some((issued + 1) as ProposalNumber)
    } else {
        None
    }
}

/// The highest number handed out after one more request for a number.
pub open spec fn issued_after_one(issued: ProposalNumber) -> ProposalNumber {
    match next_number(issued) {
        Some(number) => number,
        None => issued,
    }
}

/// The highest number handed out after `k` more requests.
pub open spec fn issued_after(issued: ProposalNumber, k: nat) -> ProposalNumber
    decreases k,
{
    if k == 0 {
        issued
    } else {
        issued_after_one(issued_after(issued, (k - 1) as nat))
    }
}

/// What request number `k` (counted from 0) of a coordinator that stands at `issued`
/// is answered with.
pub open spec fn nth_number(issued: ProposalNumber, k: nat) -> Option<ProposalNumber> {
    next_number(issued_after(issued, k))
}

/// Each request is answered with a number above everything handed out before it.
pub proof fn lemma_nth_number_above(issued: ProposalNumber, k: nat)
    ensures
        issued_after(issued, k) >= issued,
        nth_number(issued, k) matches Some(number) ==> number > issued_after(issued, k),
    decreases k,
{
    if k > 0 {
        lemma_nth_number_above(issued, (k - 1) as nat);
    }
}

/// The numbers that one coordinator hands out are strictly increasing: of two
/// requests the later one gets the higher number. No number is handed out twice.
pub proof fn lemma_numbers_increase(issued: ProposalNumber, i: nat, j: nat)
    requires
        i < j,
        nth_number(issued, i) is Some,
        nth_number(issued, j) is Some,
    ensures
        nth_number(issued, i)->0 < nth_number(issued, j)->0,
    decreases j - i,
{
    lemma_nth_number_above(issued, j);
    if j > i + 1 {
        let k = (j - 1) as nat;
        lemma_nth_number_above(issued, k);
        lemma_numbers_increase(issued, i, k);
    }
}

/// Whether an acceptor votes for a proposal under `number`: it can be reached and has
/// promised no higher number.
pub open spec fn grants(node: NodeView, number: ProposalNumber) -> bool {
    node.reachable && node.ledger.promised <= number
}

/// For each acceptor, whether it votes for a proposal under `number`.
pub open spec fn votes(cluster: Seq<NodeView>, number: ProposalNumber) -> Seq<bool> {
    Seq::new(cluster.len(), |i: int| grants(cluster[i], number))
}

/// For each acceptor, whether it can be reached.
pub open spec fn reachable_flags(cluster: Seq<NodeView>) -> Seq<bool> {
    Seq::new(cluster.len(), |i: int| cluster[i].reachable)
}

/// For each acceptor, whether its ledger records `command` as accepted under `number`.
pub open spec fn holders(
    cluster: Seq<NodeView>,
    number: ProposalNumber,
    command: CommandView,
) -> Seq<bool> {
    Seq::new(cluster.len(), |i: int| cluster[i].ledger.accepted == Some((number, command)))
}

/// Whether a round under `number` commits: a majority of the acceptors votes for it.
pub open spec fn commits(cluster: Seq<NodeView>, number: ProposalNumber) -> bool {
    count_true(votes(cluster, number)) >= quorum(cluster.len())
}

/// An acceptor after the first phase of a round under `number`.
pub open spec fn node_prepared(node: NodeView, number: ProposalNumber) -> NodeView {
    if grants(node, number) {
        NodeView {
            ledger: Ledger { promised: number, accepted: node.ledger.accepted },
            reachable: true,
        }
    } else {
        node
    }
}

/// An acceptor after both phases of a round under `number` for `command`.
pub open spec fn node_accepted(
    node: NodeView,
    number: ProposalNumber,
    command: CommandView,
) -> NodeView {
    if grants(node, number) {
        NodeView {
            ledger: Ledger { promised: number, accepted: Some((number, command)) },
            reachable: true,
        }
    } else {
        node
    }
}

/// The cluster after a round under `number` for `command`. Every acceptor that votes
/// is bound to `number` from then on; if the round commits, each of them has recorded
/// `command` under `number`. The other acceptors are as they were.
pub open spec fn cluster_after_round(
    cluster: Seq<NodeView>,
    number: ProposalNumber,
    command: CommandView,
) -> Seq<NodeView> {
    if commits(cluster, number) {
        Seq::new(cluster.len(), |i: int| node_accepted(cluster[i], number, command))
    } else {
        Seq::new(cluster.len(), |i: int| node_prepared(cluster[i], number))
    }
}

/// The outcome of a round under `number`.
pub open spec fn round_outcome(cluster: Seq<NodeView>, number: ProposalNumber) -> RoundOutcome {
    if commits(cluster, number) {
        RoundOutcome::Committed
    } else {
        RoundOutcome::NoQuorum
    }
}

/// After a round that commits, a majority of the acceptors holds the round's command
/// under the round's number.
pub proof fn lemma_commit_is_recorded(
    cluster: Seq<NodeView>,
    number: ProposalNumber,
    command: CommandView,
)
    requires
        commits(cluster, number),
    ensures
        count_true(holders(cluster_after_round(cluster, number, command), number, command))
            >= quorum(cluster.len()),
{
    lemma_count_monotone(
        votes(cluster, number),
        holders(cluster_after_round(cluster, number, command), number, command),
    );
}

/// With `2f + 1` acceptors, a round that commits leaves the round's command recorded
/// under the round's number with at least `f + 1` of them.
pub proof fn lemma_commit_majority(
    cluster: Seq<NodeView>,
    number: ProposalNumber,
    command: CommandView,
    f: nat,
)
    requires
        cluster.len() == 2 * f + 1,
        round_outcome(cluster, number) == RoundOutcome::Committed,
    ensures
        count_true(holders(cluster_after_round(cluster, number, command), number, command)) >= f
            + 1,
{
    lemma_commit_is_recorded(cluster, number, command);
}

/// Where fewer acceptors can be reached than a quorum needs, no round commits, and no
/// ledger records anything new.
pub proof fn lemma_unreachable_no_quorum(
    cluster: Seq<NodeView>,
    number: ProposalNumber,
    command: CommandView,
)
    requires
        count_true(reachable_flags(cluster)) < quorum(cluster.len()),
    ensures
        !commits(cluster, number),
        round_outcome(cluster, number) == RoundOutcome::NoQuorum,
        forall|i: int|
            0 <= i < cluster.len() ==> (#[trigger] cluster_after_round(
                cluster,
                number,
                command,
            )[i]).ledger.accepted == cluster[i].ledger.accepted,
{
    lemma_count_monotone(votes(cluster, number), reachable_flags(cluster));
}

/// What the first phase does to one acceptor, and how the round counts its reply.
proof fn lemma_prepare_step(node: NodeView, round: RoundView, index: int)
    requires
        round.phase == Phase::Preparing,
        0 <= index < round.promised.len(),
    ensures
        node.exchange(round.prepare_request()).0 == node_prepared(node, round.number),
        match node.exchange(round.prepare_request()).1 {
            Some(reply) => round.record(index, reply) == RoundView {
                number: round.number,
                command: round.command,
                promised: if grants(node, round.number) {
                    round.promised.update(index, true)
                } else {
                    round.promised
                },
                accepted: round.accepted,
                phase: round.phase,
            },
            None => !grants(node, round.number),
        },
{
    node.ledger.lemma_prepare_request(round.number);
}

/// What the second phase does to one acceptor that went through the first, and how
/// the round counts its reply.
proof fn lemma_accept_step(before: NodeView, round: RoundView, index: int)
    requires
        round.phase == Phase::Accepting,
        round.command.wf(),
        0 <= index < round.accepted.len(),
    ensures
        node_prepared(before, round.number).exchange(round.accept_request()).0 == node_accepted(
            before,
            round.number,
            round.command,
        ),
        match node_prepared(before, round.number).exchange(round.accept_request()).1 {
            Some(reply) => round.record(index, reply) == RoundView {
                number: round.number,
                command: round.command,
                promised: round.promised,
                accepted: if grants(before, round.number) {
                    round.accepted.update(index, true)
                } else {
                    round.accepted
                },
                phase: round.phase,
            },
            None => !grants(before, round.number),
        },
{
    node_prepared(before, round.number).ledger.lemma_accept_request(round.number, round.command);
}

impl Coordinator {
    /// A coordinator that has handed out no number yet.
    pub fn new() -> (coordinator: Coordinator)
        ensures
            coordinator@ == 0,
    {
        Coordinator { issued: 0 }
    }

    /// The highest proposal number handed out so far; 0 before the first.
    pub fn highest_issued(&self) -> (number: ProposalNumber)
        ensures
            number == self@,
    {
        self.issued
    }

    /// Hands out the next proposal number: the one above the last, first 1. Once the
    /// largest number has been handed out there is no further one.
    pub fn allocate(&mut self) -> (number: Option<ProposalNumber>)
        ensures
            number == next_number(old(self)@),
            final(self)@ == issued_after_one(old(self)@),
    {
        if self.issued < MAX_PROPOSAL_NUMBER {
            self.issued = self.issued + 1;
            Some(self.issued)
        } else {
            None
        }
    }

    /// Begins a round for `command` among `num_acceptors` acceptors under the next
    /// proposal number, if there is one. The number is used up whatever becomes of the
    /// round.
    pub fn begin_round(&mut self, num_acceptors: usize, command: Command) -> (round: Option<Round>)
        ensures
            final(self)@ == issued_after_one(old(self)@),
            match round {
                Some(r) => next_number(old(self)@) == Some(r@.number) && r@ == RoundView::start(
                    r@.number,
                    num_acceptors as nat,
                    command@,
                ),
                None => next_number(old(self)@) is None,
            },
    {
        match self.allocate() {
            Some(number) => Some(Round::new(number, num_acceptors, command)),
            None => None,
        }
    }

    /// Runs one round for `command` against `cluster`: asks every acceptor for its
    /// promise and, if a majority promised, asks every acceptor to accept the command.
    ///
    /// The round takes the next proposal number, which is used up whether the round
    /// commits or not. A coordinator that has no number left runs no round: nothing is
    /// sent and the outcome is `NoQuorum`.
    pub fn run_round(&mut self, cluster: &mut Cluster, command: &Command) -> (outcome:
        RoundOutcome)
        ensures
            final(self)@ == issued_after_one(old(self)@),
            match next_number(old(self)@) {
                Some(number) => {
                    &&& outcome == round_outcome(old(cluster)@, number)
                    &&& final(cluster)@ == cluster_after_round(old(cluster)@, number, command@)
                    &&& outcome == RoundOutcome::Committed ==> count_true(
                        holders(final(cluster)@, number, command@),
                    ) >= quorum(old(cluster)@.len())
                },
                None => outcome == RoundOutcome::NoQuorum && final(cluster)@ == old(cluster)@,
            },
            count_true(reachable_flags(old(cluster)@)) < quorum(old(cluster)@.len()) ==> outcome
                == RoundOutcome::NoQuorum,
    {
        let ghost before = cluster@;
        let size = cluster.len();
        let proposal = command.clone();
        let mut round = match self.begin_round(size, proposal) {
            Some(round) => round,
            None => {
                return RoundOutcome::NoQuorum;
            },
        };
        let ghost number = round@.number;
        proof {
            if count_true(reachable_flags(before)) < quorum(before.len()) {
                lemma_unreachable_no_quorum(before, number, command@);
            }
            if commits(before, number) {
                lemma_commit_is_recorded(before, number, command@);
            }
        }
        let prepare = round.prepare_request();
        let mut i: usize = 0;
        while i < size
            invariant
                i <= size,
                size == before.len(),
                cluster@.len() == size,
                prepare@ == round@.prepare_request(),
                round@.number == number,
                round@.command == command@,
                round@.phase == Phase::Preparing,
                round@.promised == Seq::new(
                    size as nat,
                    |j: int| j < i && grants(before[j], number),
                ),
                round@.accepted == Seq::new(size as nat, |j: int| false),
                forall|j: int| 0 <= j < i ==> cluster@[j] == node_prepared(before[j], number),
                forall|j: int| i <= j < size ==> cluster@[j] == before[j],
            decreases size - i,
        {
            proof {
                lemma_prepare_step(before[i as int], round@, i as int);
            }
            match cluster.exchange(i, prepare.as_str()) {
                Some(reply) => {
                    round.record_reply(i, reply.as_str());
                },
                None => {},
            }
            i += 1;
        }
        assert(round@.promised =~= votes(before, number));
        let accept = match round.begin_accept() {
            Some(accept) => accept,
            None => {
                return round.finish();
            },
        };
        let mut i: usize = 0;
        while i < size
            invariant
                i <= size,
                size == before.len(),
                cluster@.len() == size,
                accept@ == round@.accept_request(),
                round@.number == number,
                round@.command == command@,
                command@.wf(),
                round@.phase == Phase::Accepting,
                round@.promised == votes(before, number),
                round@.accepted == Seq::new(
                    size as nat,
                    |j: int| j < i && grants(before[j], number),
                ),
                forall|j: int|
                    0 <= j < i ==> cluster@[j] == node_accepted(before[j], number, command@),
                forall|j: int| i <= j < size ==> cluster@[j] == node_prepared(before[j], number),
            decreases size - i,
        {
            proof {
                lemma_accept_step(before[i as int], round@, i as int);
            }
            match cluster.exchange(i, accept.as_str()) {
                Some(reply) => {
                    round.record_reply(i, reply.as_str());
                },
                None => {},
            }
            i += 1;
        }
        round.finish()
    }
}

} // verus!
