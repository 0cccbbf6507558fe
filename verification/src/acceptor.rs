//! The acceptor: the ledger of what it has promised and accepted, and the rules by
//! which it answers `prepare` and `accept-request`.

use crate::command::{lemma_parse_command_text, parse_command, Command, CommandView};
use crate::message::{
    decode, decode_spec, encode_spec, lemma_decode_encode, lemma_decode_encode_header, Message,
    MessageView,
};
use crate::number::{
    digits, lemma_digits_word, lemma_number_of_digits, number_of, number_to_string, parse_number,
    ProposalNumber,
};
use crate::operations::Operations;
use crate::text::{join, join_from, lemma_tokens_cons, split_whitespace, tokens};
use vstd::prelude::*;
use vstd::string::*;

verus! {

/// An acceptor with its ledger.
pub struct Acceptor {
    highest_promised: ProposalNumber,
    highest_accepted: Option<(ProposalNumber, Command)>,
}

/// The ledger of an acceptor, as mathematical values.
pub struct Ledger {
    /// The highest proposal number promised so far; 0 before the first promise.
    pub promised: ProposalNumber,
    /// The proposal accepted last, with its number.
    pub accepted: Option<(ProposalNumber, CommandView)>,
}

/// The answer to a line that is no message an acceptor handles.
pub open spec fn invalid_operation() -> Seq<char> {
    "ERROR Invalid operation"@
}

/// The proposal that the payload of a promise reports: its number and, after it, the
/// text of its command. A payload of another form reports nothing.
pub open spec fn prior_report(payload: Seq<char>) -> Option<(ProposalNumber, CommandView)> {
    let t = tokens(payload);
    if t.len() == 0 {
        None
    } else {
        match (number_of(t[0]), parse_command(join(t.skip(1)))) {
            (Some(number), Ok(command)) => Some((number, command)),
            _ => None,
        }
    }
}

impl Ledger {
    /// The ledger of an acceptor that has seen no message.
    pub open spec fn initial() -> Ledger {
        Ledger { promised: 0, accepted: None }
    }

    /// No proposal was accepted under a number above the highest promise.
    pub open spec fn consistent(self) -> bool {
        self.accepted matches Some((number, _)) ==> number <= self.promised
    }

    /// What a promise reports of the past: the number and the text of the proposal
    /// accepted last.
    pub open spec fn prior(self) -> Option<Seq<char>> {
        match self.accepted {
            Some((number, command)) => Some(digits(number as nat) + seq![' '] + command.text()),
            None => None,
        }
    }

    /// The answer that turns a stale proposal down: a promise that bears the number
    /// the acceptor is bound to, which is above the one asked for.
    pub open spec fn rejection(self) -> MessageView {
        MessageView { operation: Operations::Promise, number: self.promised, payload: None }
    }

    /// `prepare` with `number`: granted if the number is not below the highest
    /// promise, which it then becomes; turned down otherwise.
    pub open spec fn prepare(self, number: ProposalNumber) -> (Ledger, MessageView) {
        if number >= self.promised {
            (
                Ledger { promised: number, accepted: self.accepted },
                MessageView { operation: Operations::Promise, number, payload: self.prior() },
            )
        } else {
            (self, self.rejection())
        }
    }

    /// `accept-request` with `number` and `command`: taken if the number is not below
    /// the highest promise; number and command are then recorded and the number
    /// becomes the highest promise. Turned down otherwise.
    pub open spec fn accept(self, number: ProposalNumber, command: CommandView) -> (
        Ledger,
        MessageView,
    ) {
        if number >= self.promised {
            (
                Ledger { promised: number, accepted: Some((number, command)) },
                MessageView { operation: Operations::Accepted, number, payload: None },
            )
        } else {
            (self, self.rejection())
        }
    }

    /// The ledger after a line from a proposer, and the line sent back. `prepare` and
    /// `accept-request` with a command as payload are handled by their rules; every
    /// other line leaves the ledger as it is and is answered with an error.
    pub open spec fn receive(self, line: Seq<char>) -> (Ledger, Seq<char>) {
        match decode_spec(line) {
            Some(m) => match (m.operation, m.payload) {
                (Operations::Prepare, _) => {
                    let (ledger, reply) = self.prepare(m.number);
                    (ledger, encode_spec(reply.operation, reply.number, reply.payload))
                },
                (Operations::AcceptRequest, Some(p)) => match parse_command(p) {
                    Ok(command) => {
                        let (ledger, reply) = self.accept(m.number, command);
                        (ledger, encode_spec(reply.operation, reply.number, reply.payload))
                    },
                    Err(_) => (self, invalid_operation()),
                },
                _ => (self, invalid_operation()),
            },
            None => (self, invalid_operation()),
        }
    }

    /// The ledger after a sequence of lines, received in order.
    pub open spec fn receive_all(self, lines: Seq<Seq<char>>) -> Ledger
        decreases lines.len(),
    {
        if lines.len() == 0 {
            self
        } else {
            self.receive_all(lines.drop_last()).receive(lines.last()).0
        }
    }

    /// No line lowers the highest promise or the number of the accepted proposal, and
    /// a consistent ledger stays consistent.
    pub proof fn lemma_receive_monotone(self, line: Seq<char>)
        ensures
            self.receive(line).0.promised >= self.promised,
            self.consistent() ==> self.receive(line).0.consistent(),
            self.consistent() ==> (self.accepted matches Some((before, _)) ==> (self.receive(
                line,
            ).0.accepted matches Some((after, _)) && after >= before)),
    {
    }

    /// The highest promise never decreases, whatever lines arrive and in whatever
    /// order.
    pub proof fn lemma_promised_never_decreases(self, lines: Seq<Seq<char>>)
        ensures
            self.receive_all(lines).promised >= self.promised,
        decreases lines.len(),
    {
        if lines.len() > 0 {
            self.lemma_promised_never_decreases(lines.drop_last());
            self.receive_all(lines.drop_last()).lemma_receive_monotone(lines.last());
        }
    }

    /// How an acceptor takes the prepare request of a round under `number`: the ledger
    /// changes by the rule for `prepare`, and the reply reads as a promise under
    /// `number` if the request was granted and under a higher number if it was not.
    pub proof fn lemma_prepare_request(self, number: ProposalNumber)
        ensures
            self.receive(encode_spec(Operations::Prepare, number, None)).0 == self.prepare(
                number,
            ).0,
            decode_spec(
                self.receive(encode_spec(Operations::Prepare, number, None)).1,
            ) matches Some(m) && m.operation == Operations::Promise && (m.number == number
                <==> number >= self.promised),
    {
        lemma_decode_encode(Operations::Prepare, number, None);
        let answer = self.prepare(number).1;
        lemma_decode_encode_header(answer.operation, answer.number, answer.payload);
    }

    /// How an acceptor takes the accept request of a round under `number` for
    /// `command`: the ledger changes by the rule for `accept-request`, and the reply
    /// reads as `accepted` under `number` if and only if the acceptor has recorded
    /// `command` under `number`.
    pub proof fn lemma_accept_request(self, number: ProposalNumber, command: CommandView)
        requires
            command.wf(),
        ensures
            self.receive(
                encode_spec(Operations::AcceptRequest, number, Some(command.text())),
            ).0 == self.accept(number, command).0,
            decode_spec(
                self.receive(
                    encode_spec(Operations::AcceptRequest, number, Some(command.text())),
                ).1,
            ) matches Some(m) && (m.operation == Operations::Accepted && m.number == number
                <==> number >= self.promised) && (m.operation != Operations::Accepted
                ==> m.number != number),
            number >= self.promised ==> self.accept(number, command).0.accepted == Some(
                (number, command),
            ),
            number < self.promised ==> self.accept(number, command).0 == self,
    {
        lemma_parse_command_text(command);
        lemma_decode_encode(Operations::AcceptRequest, number, Some(command.text()));
        let answer = self.accept(number, command).1;
        lemma_decode_encode_header(answer.operation, answer.number, answer.payload);
    }

    /// What a promise reports of the past reads back as the accepted proposal.
    pub proof fn lemma_prior_reads_back(self)
        requires
            self.accepted matches Some((_, command)) && command.wf(),
        ensures
            self.prior() matches Some(payload) && prior_report(payload) == self.accepted,
    {
        let (number, command) = self.accepted->0;
        let notation = digits(number as nat);
        lemma_digits_word(number as nat);
        lemma_number_of_digits(number);
        lemma_parse_command_text(command);
        lemma_tokens_cons(notation, command.text());
        let t = tokens(self.prior()->0);
        assert(t.skip(1) =~= tokens(command.text()));
    }

    /// A ledger that starts consistent is consistent after any sequence of lines.
    pub proof fn lemma_stays_consistent(self, lines: Seq<Seq<char>>)
        requires
            self.consistent(),
        ensures
            self.receive_all(lines).consistent(),
        decreases lines.len(),
    {
        if lines.len() > 0 {
            self.lemma_stays_consistent(lines.drop_last());
            self.receive_all(lines.drop_last()).lemma_receive_monotone(lines.last());
        }
    }
}

impl View for Acceptor {
    type V = Ledger;

    closed spec fn view(&self) -> Ledger {
        Ledger {
            promised: self.highest_promised,
            accepted: match self.highest_accepted {
                Some((number, command)) => Some((number, command@)),
                None => None,
            },
        }
    }
}

impl Acceptor {
    /// An acceptor that has seen no message.
    pub fn new() -> (acceptor: Acceptor)
        ensures
            acceptor@ == Ledger::initial(),
    {
        Acceptor { highest_promised: 0, highest_accepted: None }
    }

    /// The highest proposal number promised so far.
    pub fn highest_promised(&self) -> (number: ProposalNumber)
        ensures
            number == self@.promised,
    {
        self.highest_promised
    }

    /// The proposal accepted last, with its number.
    pub fn highest_accepted(&self) -> (accepted: Option<(ProposalNumber, &Command)>)
        ensures
            match accepted {
                Some((number, command)) => self@.accepted == Some((number, command@)),
                None => self@.accepted is None,
            },
    {
        match &self.highest_accepted {
            Some((number, command)) => Some((*number, command)),
            None => None,
        }
    }

    /// The answer that turns a stale proposal down.
    fn reject(&self) -> (reply: Message)
        ensures
            reply@ == self@.rejection(),
    {
        Message { operation: Operations::Promise, number: self.highest_promised, payload: None }
    }

    /// Answers `prepare` with `number`.
    pub fn on_prepare(&mut self, number: ProposalNumber) -> (reply: Message)
        ensures
            final(self)@ == old(self)@.prepare(number).0,
            reply@ == old(self)@.prepare(number).1,
            final(self)@.promised >= old(self)@.promised,
    {
        if number >= self.highest_promised {
            let payload = match &self.highest_accepted {
                Some((accepted, command)) => {
                    let mut prior = number_to_string(*accepted);
                    proof {
                        reveal_strlit(" ");
                        assert(" "@ =~= seq![' ']);
                    }
                    prior.append(" ");
                    prior.append(command.to_text().as_str());
                    Some(prior)
                },
                None => None,
            };
            self.highest_promised = number;
            Message { operation: Operations::Promise, number, payload }
        } else {
            self.reject()
        }
    }

    /// Answers `accept-request` with `number` and `command`.
    pub fn on_accept_request(&mut self, number: ProposalNumber, command: Command) -> (reply:
        Message)
        ensures
            final(self)@ == old(self)@.accept(number, command@).0,
            reply@ == old(self)@.accept(number, command@).1,
            final(self)@.promised >= old(self)@.promised,
    {
        if number >= self.highest_promised {
            self.highest_promised = number;
            self.highest_accepted = Some((number, command));
            Message { operation: Operations::Accepted, number, payload: None }
        } else {
            self.reject()
        }
    }

    /// Answers one line from a proposer.
    pub fn handle_message(&mut self, line: &str) -> (reply: String)
        ensures
            final(self)@ == old(self)@.receive(line@).0,
            reply@ == old(self)@.receive(line@).1,
            final(self)@.promised >= old(self)@.promised,
    {
        let message = match decode(line) {
            Ok(message) => message,
            Err(_) => {
                return String::from_str("ERROR Invalid operation");
            },
        };
        match message.operation {
            Operations::Prepare => self.on_prepare(message.number).encode(),
            Operations::AcceptRequest => {
                let payload = match &message.payload {
                    Some(payload) => payload,
                    None => {
                        return String::from_str("ERROR Invalid operation");
                    },
                };
                match Command::parse(payload.as_str()) {
                    Ok(command) => self.on_accept_request(message.number, command).encode(),
                    Err(_) => String::from_str("ERROR Invalid operation"),
                }
            },
            _ => String::from_str("ERROR Invalid operation"),
        }
    }
}

/// Reads what the payload of a promise reports of the past.
pub fn read_prior(payload: &str) -> (prior: Option<(ProposalNumber, Command)>)
    ensures
        match prior {
            Some((number, command)) => prior_report(payload@) == Some((number, command@)),
            None => prior_report(payload@) is None,
        },
{
    let words = split_whitespace(payload);
    if words.len() == 0 {
        return None;
    }
    let number = match parse_number(words[0].as_str()) {
        Some(number) => number,
        None => {
            return None;
        },
    };
    match Command::parse(join_from(&words, 1).as_str()) {
        Ok(command) => Some((number, command)),
        Err(_) => None,
    }
}

} // verus!
