//! The protocol as a whole: one round among acceptors that other proposers talk to at
//! the same time, with lines arriving in any order.

use crate::acceptor::Ledger;
use crate::command::CommandView;
use crate::number::ProposalNumber;
use crate::round::{count_true, lemma_count_monotone, Phase, RoundOutcome, RoundView};
use vstd::prelude::*;

verus! {

/// The acceptors' ledgers and one round in progress among them.
pub struct World {
    pub ledgers: Seq<Ledger>,
    pub round: RoundView,
    /// For each acceptor, whether its ledger has at some time held the round's command
    /// under the round's number.
    pub recorded: Seq<bool>,
}

/// What can happen next.
pub enum Event {
    /// A line reaches an acceptor and the reply does not reach the round: a line of
    /// another proposer, or a line of the round whose reply is lost or late.
    Line { acceptor: int, line: Seq<char> },
    /// The round's prepare request reaches an acceptor and the reply reaches the round.
    Prepare { acceptor: int },
    /// The round's accept request reaches an acceptor and the reply reaches the round.
    /// There is no accept request before the round collects acceptances.
    Accept { acceptor: int },
    /// The round ends its first phase.
    BeginAccept,
    /// The round ends.
    Finish,
}

impl World {
    /// A fresh round under `number` for `command` among acceptors in any state.
    pub open spec fn start(
        ledgers: Seq<Ledger>,
        number: ProposalNumber,
        command: CommandView,
    ) -> World {
        World {
            ledgers,
            round: RoundView::start(number, ledgers.len(), command),
            recorded: Seq::new(ledgers.len(), |i: int| false),
        }
    }

    /// Whether a ledger holds the round's command under the round's number.
    pub open spec fn holds(self, ledger: Ledger) -> bool {
        ledger.accepted == Some((self.round.number, self.round.command))
    }

    /// The world after acceptor number `acceptor` has taken `line`, and the round has
    /// recorded the reply if `heard` says so.
    pub open spec fn deliver(self, acceptor: int, line: Seq<char>, heard: bool) -> World {
        if 0 <= acceptor < self.ledgers.len() {
            let (ledger, reply) = self.ledgers[acceptor].receive(line);
            World {
                ledgers: self.ledgers.update(acceptor, ledger),
                round: if heard {
                    self.round.record(acceptor, reply)
                } else {
                    self.round
                },
                recorded: self.recorded.update(
                    acceptor,
                    self.recorded[acceptor] || self.holds(ledger),
                ),
            }
        } else {
            self
        }
    }

    /// The world after an event.
    pub open spec fn step(self, event: Event) -> World {
        match event {
            Event::Line { acceptor, line } => self.deliver(acceptor, line, false),
            Event::Prepare { acceptor } => self.deliver(
                acceptor,
                self.round.prepare_request(),
                true,
            ),
            Event::Accept { acceptor } => if self.round.phase == Phase::Accepting {
                self.deliver(acceptor, self.round.accept_request(), true)
            } else {
                self
            },
            Event::BeginAccept => World {
                ledgers: self.ledgers,
                round: self.round.begin_accept().0,
                recorded: self.recorded,
            },
            Event::Finish => World {
                ledgers: self.ledgers,
                round: self.round.finish(),
                recorded: self.recorded,
            },
        }
    }

    /// The world after a sequence of events, in order.
    pub open spec fn run(self, events: Seq<Event>) -> World
        decreases events.len(),
    {
        if events.len() == 0 {
            self
        } else {
            self.run(events.drop_last()).step(events.last())
        }
    }

    /// What holds at every moment: the round is sound, and every acceptor whose
    /// acceptance the round has counted has recorded the round's proposal.
    pub open spec fn safe(self) -> bool {
        &&& self.round.sound()
        &&& self.round.command.wf()
        &&& self.round.accepted.len() == self.ledgers.len()
        &&& self.recorded.len() == self.ledgers.len()
        &&& forall|i: int|
            0 <= i < self.ledgers.len() ==> (self.round.accepted[i] ==> self.recorded[i])
    }

    /// A fresh round among any acceptors is safe.
    pub proof fn lemma_start_safe(
        ledgers: Seq<Ledger>,
        number: ProposalNumber,
        command: CommandView,
    )
        requires
            command.wf(),
        ensures
            World::start(ledgers, number, command).safe(),
    {
        RoundView::lemma_start_sound(number, ledgers.len(), command);
    }

    /// Every event leaves a safe world safe, lowers no acceptor's highest promise and
    /// keeps the round's number and command.
    pub proof fn lemma_step_safe(self, event: Event)
        requires
            self.safe(),
        ensures
            self.step(event).safe(),
            self.step(event).ledgers.len() == self.ledgers.len(),
            self.step(event).round.number == self.round.number,
            self.step(event).round.command == self.round.command,
            forall|i: int|
                0 <= i < self.ledgers.len() ==> (#[trigger] self.step(event).ledgers[i]).promised
                    >= self.ledgers[i].promised,
    {
        let after = self.step(event);
        match event {
            Event::Line { acceptor, line } => {
                if 0 <= acceptor < self.ledgers.len() {
                    self.ledgers[acceptor].lemma_receive_monotone(line);
                }
            },
            Event::Prepare { acceptor } => {
                if 0 <= acceptor < self.ledgers.len() {
                    let line = self.round.prepare_request();
                    self.ledgers[acceptor].lemma_receive_monotone(line);
                    self.ledgers[acceptor].lemma_prepare_request(self.round.number);
                    self.round.lemma_steps_sound(acceptor, self.ledgers[acceptor].receive(line).1);
                }
            },
            Event::Accept { acceptor } => {
                if self.round.phase == Phase::Accepting && 0 <= acceptor < self.ledgers.len() {
                    let line = self.round.accept_request();
                    self.ledgers[acceptor].lemma_receive_monotone(line);
                    self.ledgers[acceptor].lemma_accept_request(
                        self.round.number,
                        self.round.command,
                    );
                    self.round.lemma_steps_sound(acceptor, self.ledgers[acceptor].receive(line).1);
                }
            },
            Event::BeginAccept => {
                self.round.lemma_steps_sound(0, Seq::empty());
            },
            Event::Finish => {
                self.round.lemma_steps_sound(0, Seq::empty());
            },
        }
    }

    /// Whatever happens and in whatever order, the world stays safe and no acceptor's
    /// highest promise decreases.
    pub proof fn lemma_run_safe(self, events: Seq<Event>)
        requires
            self.safe(),
        ensures
            self.run(events).safe(),
            self.run(events).ledgers.len() == self.ledgers.len(),
            self.run(events).round.number == self.round.number,
            self.run(events).round.command == self.round.command,
            forall|i: int|
                0 <= i < self.ledgers.len() ==> (#[trigger] self.run(events).ledgers[i]).promised
                    >= self.ledgers[i].promised,
        decreases events.len(),
    {
        if events.len() > 0 {
            let before = self.run(events.drop_last());
            self.lemma_run_safe(events.drop_last());
            before.lemma_step_safe(events.last());
        }
    }

    /// Among `2f + 1` acceptors, in whatever order lines arrive and whatever other
    /// proposers send: once the round is committed, at least `f + 1` different
    /// acceptors have recorded the round's command under the round's number.
    pub proof fn lemma_committed_is_recorded(
        ledgers: Seq<Ledger>,
        number: ProposalNumber,
        command: CommandView,
        events: Seq<Event>,
        f: nat,
    )
        requires
            command.wf(),
            ledgers.len() == 2 * f + 1,
            World::start(ledgers, number, command).run(events).round.outcome() == Some(
                RoundOutcome::Committed,
            ),
        ensures
            count_true(World::start(ledgers, number, command).run(events).recorded) >= f + 1,
    {
        let start = World::start(ledgers, number, command);
        World::lemma_start_safe(ledgers, number, command);
        start.lemma_run_safe(events);
        let end = start.run(events);
        lemma_count_monotone(end.round.accepted, end.recorded);
    }
}

} // verus!
