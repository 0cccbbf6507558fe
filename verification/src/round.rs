//! One round of the protocol as the proposer sees it: which acceptors have promised,
//! which have accepted, and when a majority is reached.

use crate::command::{Command, CommandView};
use crate::message::{decode, decode_spec, encode, encode_spec};
use crate::number::ProposalNumber;
use crate::operations::Operations;
use vstd::prelude::*;

verus! {

/// How a round ended.
#[derive(Clone, Copy, Debug, PartialEq, Eq, Structural)]
pub enum RoundOutcome {
    /// A majority of the acceptors accepted the proposal.
    Committed,
    /// One of the two phases did not reach a majority.
    NoQuorum,
    /// The round was cut short by a fault other than a missing majority. No round of
    /// this library ends so; the variant is there for callers that report such faults.
    PartialFailure,
}

/// Where a round stands.
#[derive(Clone, Copy, Debug, PartialEq, Eq, Structural)]
pub enum Phase {
    /// Promises are being collected.
    Preparing,
    /// A majority has promised; acceptances are being collected.
    Accepting,
    /// The round is over.
    Finished(RoundOutcome),
}

/// The number of flags that are set.
pub open spec fn count_true(flags: Seq<bool>) -> nat
    decreases flags.len(),
{
    if flags.len() == 0 {
        0
    } else {
        count_true(flags.drop_last()) + if flags.last() {
            1nat
        } else {
            0nat
        }
    }
}

/// The least number of votes that is more than half of `size`.
pub open spec fn quorum(size: nat) -> nat {
    size / 2 + 1
}

/// Among flags that are all clear none is set.
pub proof fn lemma_count_clear(flags: Seq<bool>)
    requires
        forall|i: int| 0 <= i < flags.len() ==> !flags[i],
    ensures
        count_true(flags) == 0,
    decreases flags.len(),
{
    if flags.len() > 0 {
        lemma_count_clear(flags.drop_last());
    }
}

/// Setting a flag that was clear adds one to the count; setting one that was set
/// leaves the count as it is.
pub proof fn lemma_count_set(flags: Seq<bool>, i: int)
    requires
        0 <= i < flags.len(),
    ensures
        count_true(flags.update(i, true)) == count_true(flags) + if flags[i] {
            0nat
        } else {
            1nat
        },
    decreases flags.len(),
{
    let changed = flags.update(i, true);
    if i == flags.len() - 1 {
        assert(changed.drop_last() =~= flags.drop_last());
    } else {
        assert(changed.drop_last() =~= flags.drop_last().update(i, true));
        lemma_count_set(flags.drop_last(), i);
    }
}

/// Where every flag set in `a` is set in `b` too, `b` has at least as many set.
pub proof fn lemma_count_monotone(a: Seq<bool>, b: Seq<bool>)
    requires
        a.len() == b.len(),
        forall|i: int| 0 <= i < a.len() ==> (a[i] ==> b[i]),
    ensures
        count_true(a) <= count_true(b),
    decreases a.len(),
{
    if a.len() > 0 {
        lemma_count_monotone(a.drop_last(), b.drop_last());
    }
}

/// With `2f + 1` acceptors a quorum is `f + 1` votes.
pub proof fn lemma_quorum_of_odd(f: nat)
    ensures
        quorum(2 * f + 1) == f + 1,
{
}

/// Two sets of votes over the same acceptors have at least as many acceptors in common
/// as their sizes together exceed the number of acceptors.
pub proof fn lemma_count_overlap(a: Seq<bool>, b: Seq<bool>)
    requires
        a.len() == b.len(),
    ensures
        count_true(a) + count_true(b) <= a.len() + count_true(
            Seq::new(a.len(), |i: int| a[i] && b[i]),
        ),
    decreases a.len(),
{
    let both = Seq::new(a.len(), |i: int| a[i] && b[i]);
    if a.len() > 0 {
        let a0 = a.drop_last();
        let b0 = b.drop_last();
        lemma_count_overlap(a0, b0);
        assert(both.drop_last() =~= Seq::new(a0.len(), |i: int| a0[i] && b0[i]));
    }
}

/// Any two quorums have an acceptor in common.
pub proof fn lemma_quorums_intersect(a: Seq<bool>, b: Seq<bool>)
    requires
        a.len() == b.len(),
        count_true(a) >= quorum(a.len()),
        count_true(b) >= quorum(b.len()),
    ensures
        exists|i: int| 0 <= i < a.len() && a[i] && b[i],
{
    let both = Seq::new(a.len(), |i: int| a[i] && b[i]);
    lemma_count_overlap(a, b);
    if forall|i: int| 0 <= i < both.len() ==> !both[i] {
        lemma_count_clear(both);
    } else {
        let i = choose|i: int| 0 <= i < both.len() && both[i];
        assert(a[i] && b[i]);
    }
}

/// The number of acceptors of a cluster in which `faults` of them may fail: `2 * faults
/// + 1`, so that those that are left are a quorum. There is no such number where it is
/// too large for its type.
pub fn cluster_size(faults: u16) -> (size: Option<u16>)
    ensures
        match size {
            Some(n) => n == 2 * faults + 1 && n - faults == quorum(n as nat),
            None => 2 * faults + 1 > u16::MAX,
        },
{
    if faults <= (u16::MAX - 1) / 2 {
        Some(2 * faults + 1)
    } else {
        None
    }
}

/// Counts the flags that are set.
pub fn count_flags(flags: &Vec<bool>) -> (n: usize)
    ensures
        n == count_true(flags@),
{
    let mut n: usize = 0;
    let mut i: usize = 0;
    while i < flags.len()
        invariant
            i <= flags.len(),
            n == count_true(flags@.take(i as int)),
            n <= i,
        decreases flags.len() - i,
    {
        assert(flags@.take(i + 1).drop_last() =~= flags@.take(i as int));
        if flags[i] {
            n += 1;
        }
        i += 1;
    }
    assert(flags@.take(i as int) =~= flags@);
    n
}

/// The proposer's record of one round.
pub struct Round {
    number: ProposalNumber,
    command: Command,
    promised: Vec<bool>,
    accepted: Vec<bool>,
    phase: Phase,
}

/// A round as mathematical values. `promised` and `accepted` hold one flag for each
/// acceptor, set once that acceptor's vote has been counted.
pub struct RoundView {
    pub number: ProposalNumber,
    pub command: CommandView,
    pub promised: Seq<bool>,
    pub accepted: Seq<bool>,
    pub phase: Phase,
}

impl RoundView {
    /// A round that has counted no vote yet.
    pub open spec fn start(number: ProposalNumber, size: nat, command: CommandView) -> RoundView {
        RoundView {
            number,
            command,
            promised: Seq::new(size, |i: int| false),
            accepted: Seq::new(size, |i: int| false),
            phase: Phase::Preparing,
        }
    }

    /// The number of acceptors.
    pub open spec fn size(self) -> nat {
        self.promised.len()
    }

    /// The number of votes that a phase needs.
    pub open spec fn quorum(self) -> nat {
        quorum(self.size())
    }

    /// The number of acceptors whose promise has been counted.
    pub open spec fn promises(self) -> nat {
        count_true(self.promised)
    }

    /// The number of acceptors whose acceptance has been counted.
    pub open spec fn acceptances(self) -> nat {
        count_true(self.accepted)
    }

    /// The outcome, once the round is over.
    pub open spec fn outcome(self) -> Option<RoundOutcome> {
        match self.phase {
            Phase::Finished(outcome) => Some(outcome),
            _ => None,
        }
    }

    /// The line sent to every acceptor in the first phase.
    pub open spec fn prepare_request(self) -> Seq<char> {
        encode_spec(Operations::Prepare, self.number, None)
    }

    /// The line sent to every acceptor in the second phase.
    pub open spec fn accept_request(self) -> Seq<char> {
        encode_spec(Operations::AcceptRequest, self.number, Some(self.command.text()))
    }

    /// The round after a reply from an acceptor. While promises are collected a
    /// `promise` that bears the round's number counts as that acceptor's promise; while
    /// acceptances are collected an `accepted` that bears the round's number counts as
    /// its acceptance. Any other reply, a reply under another number (a rejection), a
    /// reply in the wrong phase and a reply of an acceptor that does not exist change
    /// nothing. An acceptor that answers twice is counted once.
    pub open spec fn record(self, acceptor: int, reply: Seq<char>) -> RoundView {
        match decode_spec(reply) {
            Some(m) => if m.number != self.number {
                self
            } else if self.phase == Phase::Preparing && m.operation == Operations::Promise && 0
                <= acceptor < self.promised.len() {
                RoundView {
                    number: self.number,
                    command: self.command,
                    promised: self.promised.update(acceptor, true),
                    accepted: self.accepted,
                    phase: self.phase,
                }
            } else if self.phase == Phase::Accepting && m.operation == Operations::Accepted && 0
                <= acceptor < self.accepted.len() {
                RoundView {
                    number: self.number,
                    command: self.command,
                    promised: self.promised,
                    accepted: self.accepted.update(acceptor, true),
                    phase: self.phase,
                }
            } else {
                self
            },
            None => self,
        }
    }

    /// The same round in another phase.
    pub open spec fn in_phase(self, phase: Phase) -> RoundView {
        RoundView {
            number: self.number,
            command: self.command,
            promised: self.promised,
            accepted: self.accepted,
            phase,
        }
    }

    /// The end of the first phase. With a quorum of promises the round goes on to
    /// collect acceptances, and the line to send is the accept request. Without one the
    /// round is over with `NoQuorum` and nothing is sent. A round that is not in its
    /// first phase stays as it is and nothing is sent.
    pub open spec fn begin_accept(self) -> (RoundView, Option<Seq<char>>) {
        if self.phase == Phase::Preparing {
            if self.promises() >= self.quorum() {
                (self.in_phase(Phase::Accepting), Some(self.accept_request()))
            } else {
                (self.in_phase(Phase::Finished(RoundOutcome::NoQuorum)), None)
            }
        } else {
            (self, None)
        }
    }

    /// The end of the round. A round that collects acceptances is `Committed` with a
    /// quorum of them and ends with `NoQuorum` without. A round still in its first
    /// phase is given up with `NoQuorum`. A round that is over stays as it is.
    pub open spec fn finish(self) -> RoundView {
        match self.phase {
            Phase::Preparing => self.in_phase(Phase::Finished(RoundOutcome::NoQuorum)),
            Phase::Accepting => self.in_phase(
                Phase::Finished(
                    if self.acceptances() >= self.quorum() {
                        RoundOutcome::Committed
                    } else {
                        RoundOutcome::NoQuorum
                    },
                ),
            ),
            Phase::Finished(_) => self,
        }
    }

    /// What holds of every round that began with `start`: acceptances are counted only
    /// after a quorum of promises, and a round is committed only with a quorum of
    /// acceptances.
    pub open spec fn sound(self) -> bool {
        &&& self.promised.len() == self.accepted.len()
        &&& self.phase == Phase::Preparing ==> self.acceptances() == 0
        &&& self.phase == Phase::Accepting ==> self.promises() >= self.quorum()
        &&& self.phase == Phase::Finished(RoundOutcome::Committed) ==> self.promises()
            >= self.quorum() && self.acceptances() >= self.quorum()
        &&& self.phase != Phase::Finished(RoundOutcome::PartialFailure)
    }

    /// A fresh round is sound.
    pub proof fn lemma_start_sound(number: ProposalNumber, size: nat, command: CommandView)
        ensures
            RoundView::start(number, size, command).sound(),
    {
        lemma_count_clear(RoundView::start(number, size, command).accepted);
    }

    /// Every step keeps a round sound, and no step takes a counted vote away.
    pub proof fn lemma_steps_sound(self, acceptor: int, reply: Seq<char>)
        requires
            self.sound(),
        ensures
            self.record(acceptor, reply).sound(),
            self.begin_accept().0.sound(),
            self.finish().sound(),
            self.record(acceptor, reply).promises() >= self.promises(),
            self.record(acceptor, reply).acceptances() >= self.acceptances(),
    {
        if 0 <= acceptor < self.promised.len() {
            lemma_count_set(self.promised, acceptor);
            lemma_count_set(self.accepted, acceptor);
        }
    }

    /// With `2f + 1` acceptors a sound round that is committed has counted the
    /// acceptance of at least `f + 1` of them, each acceptor once.
    pub proof fn lemma_committed_majority(self, f: nat)
        requires
            self.sound(),
            self.size() == 2 * f + 1,
            self.outcome() == Some(RoundOutcome::Committed),
        ensures
            self.acceptances() >= f + 1,
            self.promises() >= f + 1,
    {
    }
}

impl View for Round {
    type V = RoundView;

    closed spec fn view(&self) -> RoundView {
        RoundView {
            number: self.number,
            command: self.command@,
            promised: self.promised@,
            accepted: self.accepted@,
            phase: self.phase,
        }
    }
}

/// As many clear flags as asked for.
fn clear_flags(size: usize) -> (flags: Vec<bool>)
    ensures
        flags@ == Seq::new(size as nat, |i: int| false),
{
    let mut flags: Vec<bool> = Vec::new();
    while flags.len() < size
        invariant
            flags.len() <= size,
            forall|i: int| 0 <= i < flags.len() ==> !flags[i],
        decreases size - flags.len(),
    {
        flags.push(false);
    }
    flags
}

impl Round {
    /// Begins a round under `number` for `command` among `num_acceptors` acceptors.
    pub fn new(number: ProposalNumber, num_acceptors: usize, command: Command) -> (round: Round)
        ensures
            round@ == RoundView::start(number, num_acceptors as nat, command@),
    {
        Round {
            number,
            command,
            promised: clear_flags(num_acceptors),
            accepted: clear_flags(num_acceptors),
            phase: Phase::Preparing,
        }
    }

    /// The proposal number of the round.
    pub fn number(&self) -> (number: ProposalNumber)
        ensures
            number == self@.number,
    {
        self.number
    }

    /// The command that the round proposes.
    pub fn command(&self) -> (command: &Command)
        ensures
            command@ == self@.command,
    {
        &self.command
    }

    /// Where the round stands.
    pub fn phase(&self) -> (phase: Phase)
        ensures
            phase == self@.phase,
    {
        self.phase
    }

    /// The outcome, once the round is over.
    pub fn outcome(&self) -> (outcome: Option<RoundOutcome>)
        ensures
            outcome == self@.outcome(),
    {
        match self.phase {
            Phase::Finished(outcome) => Some(outcome),
            _ => None,
        }
    }

    /// The number of votes that a phase needs.
    pub fn quorum(&self) -> (q: usize)
        ensures
            q == self@.quorum(),
    {
        self.promised.len() / 2 + 1
    }

    /// The number of acceptors whose promise has been counted.
    pub fn promises(&self) -> (n: usize)
        ensures
            n == self@.promises(),
    {
        count_flags(&self.promised)
    }

    /// The number of acceptors whose acceptance has been counted.
    pub fn acceptances(&self) -> (n: usize)
        ensures
            n == self@.acceptances(),
    {
        count_flags(&self.accepted)
    }

    /// The line to send to every acceptor in the first phase.
    pub fn prepare_request(&self) -> (line: String)
        ensures
            line@ == self@.prepare_request(),
    {
        encode(Operations::Prepare, self.number, None)
    }

    /// Takes note of the reply that acceptor number `acceptor` sent.
    pub fn record_reply(&mut self, acceptor: usize, reply: &str)
        ensures
            final(self)@ == old(self)@.record(acceptor as int, reply@),
    {
        let message = match decode(reply) {
            Ok(message) => message,
            Err(_) => {
                return ;
            },
        };
        if message.number != self.number {
            return ;
        }
        match (self.phase, message.operation) {
            (Phase::Preparing, Operations::Promise) => {
                if acceptor < self.promised.len() {
                    self.promised.set(acceptor, true);
                }
            },
            (Phase::Accepting, Operations::Accepted) => {
                if acceptor < self.accepted.len() {
                    self.accepted.set(acceptor, true);
                }
            },
            _ => {},
        }
    }

    /// Ends the first phase. Returns the line to send to every acceptor in the second
    /// phase, if there is a second phase.
    pub fn begin_accept(&mut self) -> (line: Option<String>)
        ensures
            final(self)@ == old(self)@.begin_accept().0,
            match line {
                Some(l) => old(self)@.begin_accept().1 == Some(l@),
                None => old(self)@.begin_accept().1 is None,
            },
    {
        match self.phase {
            Phase::Preparing => {
                if self.promises() >= self.quorum() {
                    self.phase = Phase::Accepting;
                    Some(
                        encode(
                            Operations::AcceptRequest,
                            self.number,
                            Some(self.command.to_text().as_str()),
                        ),
                    )
                } else {
                    self.phase = Phase::Finished(RoundOutcome::NoQuorum);
                    None
                }
            },
            _ => None,
        }
    }

    /// Ends the round and tells how it ended.
    pub fn finish(&mut self) -> (outcome: RoundOutcome)
        ensures
            final(self)@ == old(self)@.finish(),
            final(self)@.outcome() == Some(outcome),
    {
        let outcome = match self.phase {
            Phase::Preparing => RoundOutcome::NoQuorum,
            Phase::Accepting => if self.acceptances() >= self.quorum() {
                RoundOutcome::Committed
            } else {
                RoundOutcome::NoQuorum
            },
            Phase::Finished(outcome) => outcome,
        };
        self.phase = Phase::Finished(outcome);
        outcome
    }
}

} // verus!
