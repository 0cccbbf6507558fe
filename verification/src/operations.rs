//! The four kinds of protocol message and the names they bear on the wire.

use crate::text::{is_word, same_text};
use vstd::prelude::*;
use vstd::string::*;

verus! {

/// The kind of a protocol message.
#[derive(Clone, Copy, Debug, PartialEq, Eq, Structural)]
pub enum Operations {
    /// A proposer asks an acceptor to promise a proposal number.
    Prepare,
    /// An acceptor's answer to `Prepare`.
    Promise,
    /// A proposer asks an acceptor to accept a value under a proposal number.
    AcceptRequest,
    /// An acceptor's answer to an `AcceptRequest` that it took.
    Accepted,
}

impl Operations {
    /// The name of the operation on the wire.
    pub open spec fn name(self) -> Seq<char> {
        match self {
            Operations::Prepare => "prepare"@,
            Operations::Promise => "promise"@,
            Operations::AcceptRequest => "accept-request"@,
            Operations::Accepted => "accepted"@,
        }
    }

    /// The operation that a name stands for, if it is one of the four names.
    pub open spec fn named(s: Seq<char>) -> Option<Operations> {
        if s == "prepare"@ {
            Some(Operations::Prepare)
        } else if s == "promise"@ {
            Some(Operations::Promise)
        } else if s == "accept-request"@ {
            Some(Operations::AcceptRequest)
        } else if s == "accepted"@ {
            Some(Operations::Accepted)
        } else {
            None
        }
    }

    /// The four names are words, and each stands for its own operation only.
    pub proof fn lemma_names(self)
        ensures
            is_word(self.name()),
            Operations::named(self.name()) == Some(self),
    {
        reveal_strlit("prepare");
        reveal_strlit("promise");
        reveal_strlit("accept-request");
        reveal_strlit("accepted");
        assert("promise"@[2] != "prepare"@[2]);
        assert("accepted"@.len() != "prepare"@.len());
    }

    /// The name of the operation on the wire.
    pub fn as_str(&self) -> (r: &'static str)
        ensures
            r@ == self.name(),
    {
        match self {
            Operations::Prepare => "prepare",
            Operations::Promise => "promise",
            Operations::AcceptRequest => "accept-request",
            Operations::Accepted => "accepted",
        }
    }

    /// The name of the operation on the wire, as an owned string.
    pub fn to_string(&self) -> (r: String)
        ensures
            r@ == self.name(),
    {
        String::from_str(self.as_str())
    }

    /// Reads an operation name.
    pub fn from_name(token: &str) -> (r: Option<Operations>)
        ensures
            r == Operations::named(token@),
    {
        if same_text(token, "prepare") {
            Some(Operations::Prepare)
        } else if same_text(token, "promise") {
            Some(Operations::Promise)
        } else if same_text(token, "accept-request") {
            Some(Operations::AcceptRequest)
        } else if same_text(token, "accepted") {
            Some(Operations::Accepted)
        } else {
            None
        }
    }
}

} // verus!
