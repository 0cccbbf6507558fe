//! The wire protocol between proposer and acceptors: one message per line, written as
//! the operation name, the proposal number and, where there is one, a payload.

use crate::number::{
    digits, lemma_digits_word, lemma_number_of_digits, number_of, number_to_string, parse_number,
    ProposalNumber,
};
use crate::operations::Operations;
use crate::text::{
    is_phrase, join, join_from, lemma_tokens_cons, lemma_tokens_single, split_whitespace, tokens,
};
use vstd::prelude::*;
use vstd::string::*;

verus! {

/// A protocol message.
#[derive(Debug, PartialEq, Eq)]
pub struct Message {
    pub operation: Operations,
    pub number: ProposalNumber,
    pub payload: Option<String>,
}

/// What a `Message` holds, as mathematical values.
pub struct MessageView {
    pub operation: Operations,
    pub number: ProposalNumber,
    pub payload: Option<Seq<char>>,
}

impl View for Message {
    type V = MessageView;

    open spec fn view(&self) -> MessageView {
        MessageView {
            operation: self.operation,
            number: self.number,
            payload: match self.payload {
                Some(p) => Some(p@),
                None => None,
            },
        }
    }
}

/// The error of `decode`: the text is no protocol message.
#[derive(Clone, Copy, Debug, PartialEq, Eq)]
pub struct MalformedMessage;

/// The line that carries a message: `<operation> <number>`, and ` <payload>` after it
/// where there is a payload.
pub open spec fn encode_spec(
    operation: Operations,
    number: ProposalNumber,
    payload: Option<Seq<char>>,
) -> Seq<char> {
    let head = operation.name() + seq![' '] + digits(number as nat);
    match payload {
        Some(p) => head + seq![' '] + p,
        None => head,
    }
}

/// The message that a line carries. The line is split at white space; the first token
/// names the operation, the second is the proposal number, and the tokens after them,
/// joined by single spaces, are the payload. A line with fewer than two tokens, an
/// unknown operation name or an unreadable number carries no message.
pub open spec fn decode_spec(s: Seq<char>) -> Option<MessageView> {
    let t = tokens(s);
    if t.len() < 2 {
        None
    } else {
        match (Operations::named(t[0]), number_of(t[1])) {
            (Some(operation), Some(number)) => Some(
                MessageView {
                    operation,
                    number,
                    payload: if t.len() > 2 {
                        Some(join(t.skip(2)))
                    } else {
                        None
                    },
                },
            ),
            _ => None,
        }
    }
}

/// The tokens of an encoded message: the operation name, the number, and then the
/// tokens of the payload.
pub proof fn lemma_tokens_encode(
    operation: Operations,
    number: ProposalNumber,
    payload: Option<Seq<char>>,
)
    ensures
        tokens(encode_spec(operation, number, payload)) == seq![
            operation.name(),
            digits(number as nat),
        ] + match payload {
            Some(p) => tokens(p),
            None => Seq::empty(),
        },
{
    let name = operation.name();
    let num = digits(number as nat);
    operation.lemma_names();
    lemma_digits_word(number as nat);
    match payload {
        Some(p) => {
            lemma_tokens_cons(name, num + seq![' '] + p);
            lemma_tokens_cons(num, p);
            assert(encode_spec(operation, number, payload) =~= name + seq![' '] + (num + seq![' ']
                + p));
        },
        None => {
            lemma_tokens_cons(name, num);
            lemma_tokens_single(num);
        },
    }
}

/// Whatever the payload, decoding an encoded message gives back its operation and its
/// number.
pub proof fn lemma_decode_encode_header(
    operation: Operations,
    number: ProposalNumber,
    payload: Option<Seq<char>>,
)
    ensures
        decode_spec(encode_spec(operation, number, payload)) matches Some(m) && m.operation
            == operation && m.number == number,
{
    lemma_tokens_encode(operation, number, payload);
    operation.lemma_names();
    lemma_number_of_digits(number);
}

/// Decoding an encoded message gives back the operation, the number and the payload,
/// if the payload, where there is one, is a phrase; and only then.
pub proof fn lemma_decode_encode(
    operation: Operations,
    number: ProposalNumber,
    payload: Option<Seq<char>>,
)
    ensures
        (payload matches Some(p) ==> is_phrase(p)) <==> decode_spec(
            encode_spec(operation, number, payload),
        ) == Some(MessageView { operation, number, payload }),
{
    lemma_tokens_encode(operation, number, payload);
    operation.lemma_names();
    lemma_number_of_digits(number);
    if let Some(p) = payload {
        assert(tokens(encode_spec(operation, number, payload)).skip(2) =~= tokens(p));
    }
}

/// Puts a space between an operation name and a proposal number.
pub fn build_response(proposal_type: &str, proposal_number: &str) -> (proposal: String)
    ensures
        proposal@ == proposal_type@ + seq![' '] + proposal_number@,
{
    let mut proposal = String::new();
    proposal.append(proposal_type);
    proof {
        reveal_strlit(" ");
    }
    proposal.append(" ");
    proposal.append(proposal_number);
    proposal
}

/// Writes a message as a line of the wire protocol.
pub fn encode(operation: Operations, number: ProposalNumber, value: Option<&str>) -> (line: String)
    ensures
        line@ == encode_spec(
            operation,
            number,
            match value {
                Some(v) => Some(v@),
                None => None,
            },
        ),
{
    let mut line = build_response(operation.as_str(), number_to_string(number).as_str());
    match value {
        Some(v) => {
            proof {
                reveal_strlit(" ");
            }
            line.append(" ");
            line.append(v);
        },
        None => {},
    }
    line
}

/// Reads a line of the wire protocol.
pub fn decode(text: &str) -> (r: Result<Message, MalformedMessage>)
    ensures
        match r {
            Ok(m) => decode_spec(text@) == Some(m@),
            Err(_) => decode_spec(text@) is None,
        },
{
    let words = split_whitespace(text);
    if words.len() < 2 {
        return Err(MalformedMessage);
    }
    let operation = match Operations::from_name(words[0].as_str()) {
        Some(operation) => operation,
        None => {
            return Err(MalformedMessage);
        },
    };
    let number = match parse_number(words[1].as_str()) {
        Some(number) => number,
        None => {
            return Err(MalformedMessage);
        },
    };
    let payload = if words.len() > 2 {
        Some(join_from(&words, 2))
    } else {
        None
    };
    Ok(Message { operation, number, payload })
}

impl Clone for Message {
    fn clone(&self) -> (m: Self)
        ensures
            m@ == self@,
    {
        Message {
            operation: self.operation,
            number: self.number,
            payload: match &self.payload {
                Some(p) => Some(p.clone()),
                None => None,
            },
        }
    }
}

impl Message {
    /// Writes the message as a line of the wire protocol.
    pub fn encode(&self) -> (line: String)
        ensures
            line@ == encode_spec(self@.operation, self@.number, self@.payload),
    {
        match &self.payload {
            Some(p) => encode(self.operation, self.number, Some(p.as_str())),
            None => encode(self.operation, self.number, None),
        }
    }
}

} // verus!
