//! Client commands: what a request line asks for, and how a command is written when
//! it travels as the payload of a protocol message.

use crate::text::{
    is_phrase, is_space, is_whitespace, is_word, lemma_phrase_cons, lemma_tokens_are_words,
    lemma_tokens_cons, lemma_tokens_single, lemma_word_is_phrase, same_text, split_whitespace,
    tokens,
};
use vstd::prelude::*;
use vstd::string::*;

verus! {

/// A non-empty text without white space: a key or a value of the store.
#[derive(Debug, PartialEq, Eq)]
pub struct Word {
    text: String,
}

impl View for Word {
    type V = Seq<char>;

    closed spec fn view(&self) -> Seq<char> {
        self.text@
    }
}

impl Word {
    #[verifier::type_invariant]
    spec fn well_formed(&self) -> bool {
        is_word(self.text@)
    }

    /// Takes `text` as a word, if it is one.
    pub fn new(text: &str) -> (r: Option<Word>)
        ensures
            match r {
                Some(w) => w@ == text@ && is_word(text@),
                None => !is_word(text@),
            },
    {
        let mut empty = true;
        for c in it: text.chars()
            invariant
                it.seq() == text@,
                empty == (it.index() == 0),
                forall|k: int| 0 <= k < it.index() ==> !is_space(#[trigger] text@[k]),
        {
            if is_whitespace(c) {
                return None;
            }
            empty = false;
        }
        if empty {
            return None;
        }
        Some(Word { text: String::from_str(text) })
    }

    /// Takes a string that is known to be a word.
    pub(crate) fn from_string(text: String) -> (w: Word)
        requires
            is_word(text@),
        ensures
            w@ == text@,
    {
        Word { text }
    }

    /// The text of the word.
    pub fn as_str(&self) -> (r: &str)
        ensures
            r@ == self@,
            is_word(self@),
    {
        proof {
            use_type_invariant(self);
        }
        self.text.as_str()
    }
}

impl Clone for Word {
    fn clone(&self) -> (w: Self)
        ensures
            w@ == self@,
            is_word(w@),
    {
        proof {
            use_type_invariant(self);
        }
        Word { text: self.text.clone() }
    }
}

/// A client instruction, the unit of agreement of a round.
#[derive(Debug, PartialEq, Eq)]
pub enum Command {
    /// Read the value stored under a key.
    Get(Word),
    /// Store a value under a key.
    Put(Word, Word),
}

/// What a `Command` holds, as mathematical values.
pub enum CommandView {
    Get(Seq<char>),
    Put(Seq<char>, Seq<char>),
}

/// Why a request line is no command.
#[derive(Clone, Copy, Debug, PartialEq, Eq, Structural)]
pub enum CommandError {
    /// The verb is neither `get` nor `put`.
    InvalidCommand,
    /// The line is empty, or the key is missing.
    MalformedRequest,
}

impl View for Command {
    type V = CommandView;

    open spec fn view(&self) -> CommandView {
        match self {
            Command::Get(key) => CommandView::Get(key@),
            Command::Put(key, value) => CommandView::Put(key@, value@),
        }
    }
}

impl CommandView {
    /// Key and value are words.
    pub open spec fn wf(self) -> bool {
        match self {
            CommandView::Get(key) => is_word(key),
            CommandView::Put(key, value) => is_word(key) && is_word(value),
        }
    }

    /// The key that the command is about.
    pub open spec fn key(self) -> Seq<char> {
        match self {
            CommandView::Get(key) => key,
            CommandView::Put(key, _) => key,
        }
    }

    /// The command written as text: the verb, the key and, for `put`, the value, with
    /// single spaces between them.
    pub open spec fn text(self) -> Seq<char> {
        match self {
            CommandView::Get(key) => "get"@ + seq![' '] + key,
            CommandView::Put(key, value) => "put"@ + seq![' '] + key + seq![' '] + value,
        }
    }
}

/// The command that a request line asks for. The line is split at white space. The
/// first token is the verb, `get` or `put`, the second the key, the third the value of
/// a `put`; a `put` without a value stores `0`. Further tokens are ignored.
pub open spec fn parse_command(s: Seq<char>) -> Result<CommandView, CommandError> {
    let t = tokens(s);
    if t.len() == 0 {
        Err(CommandError::MalformedRequest)
    } else if t[0] != "get"@ && t[0] != "put"@ {
        Err(CommandError::InvalidCommand)
    } else if t.len() < 2 {
        Err(CommandError::MalformedRequest)
    } else if t[0] == "get"@ {
        Ok(CommandView::Get(t[1]))
    } else {
        Ok(
            CommandView::Put(
                t[1],
                if t.len() > 2 {
                    t[2]
                } else {
                    "0"@
                },
            ),
        )
    }
}

/// Every command that a line asks for has words as key and value.
pub proof fn lemma_parse_command_wf(s: Seq<char>)
    ensures
        parse_command(s) matches Ok(c) ==> c.wf(),
{
    lemma_tokens_are_words(s);
    reveal_strlit("0");
}

/// The text of a command is a phrase, and reading it gives the command back.
pub proof fn lemma_parse_command_text(c: CommandView)
    requires
        c.wf(),
    ensures
        is_phrase(c.text()),
        parse_command(c.text()) == Ok::<CommandView, CommandError>(c),
{
    reveal_strlit("get");
    reveal_strlit("put");
    match c {
        CommandView::Get(key) => {
            let verb = "get"@;
            lemma_tokens_cons(verb, key);
            lemma_tokens_single(key);
            lemma_word_is_phrase(key);
            lemma_phrase_cons(verb, key);
        },
        CommandView::Put(key, value) => {
            let verb = "put"@;
            lemma_tokens_single(value);
            lemma_word_is_phrase(value);
            lemma_tokens_cons(key, value);
            lemma_phrase_cons(key, value);
            lemma_tokens_cons(verb, key + seq![' '] + value);
            lemma_phrase_cons(verb, key + seq![' '] + value);
            assert(c.text() =~= verb + seq![' '] + (key + seq![' '] + value));
        },
    }
}

impl Command {
    /// Reads a request line.
    pub fn parse(text: &str) -> (r: Result<Command, CommandError>)
        ensures
            match r {
                Ok(c) => parse_command(text@) == Ok::<CommandView, CommandError>(c@),
                Err(e) => parse_command(text@) == Err::<CommandView, CommandError>(e),
            },
    {
        let words = split_whitespace(text);
        proof {
            lemma_tokens_are_words(text@);
        }
        if words.len() == 0 {
            return Err(CommandError::MalformedRequest);
        }
        let get = same_text(words[0].as_str(), "get");
        let put = same_text(words[0].as_str(), "put");
        if !get && !put {
            return Err(CommandError::InvalidCommand);
        }
        if words.len() < 2 {
            return Err(CommandError::MalformedRequest);
        }
        let key = Word::from_string(words[1].clone());
        if get {
            Ok(Command::Get(key))
        } else if words.len() > 2 {
            Ok(Command::Put(key, Word::from_string(words[2].clone())))
        } else {
            proof {
                reveal_strlit("0");
            }
            Ok(Command::Put(key, Word::from_string(String::from_str("0"))))
        }
    }

    /// The key that the command is about.
    pub fn key(&self) -> (r: &str)
        ensures
            r@ == self@.key(),
    {
        match self {
            Command::Get(key) => key.as_str(),
            Command::Put(key, _) => key.as_str(),
        }
    }

    /// The command written as text, as it travels in a protocol message.
    pub fn to_text(&self) -> (r: String)
        ensures
            r@ == self@.text(),
            self@.wf(),
    {
        proof {
            reveal_strlit(" ");
        }
        match self {
            Command::Get(key) => {
                let mut r = String::from_str("get");
                r.append(" ");
                r.append(key.as_str());
                r
            },
            Command::Put(key, value) => {
                let mut r = String::from_str("put");
                r.append(" ");
                r.append(key.as_str());
                r.append(" ");
                r.append(value.as_str());
                r
            },
        }
    }
}

impl Clone for Command {
    fn clone(&self) -> (c: Self)
        ensures
            c@ == self@,
            c@.wf(),
    {
        match self {
            Command::Get(key) => Command::Get(key.clone()),
            Command::Put(key, value) => Command::Put(key.clone(), value.clone()),
        }
    }
}

impl CommandError {
    /// The answer that a client gets for a request line that is no command.
    pub open spec fn response_spec(self) -> Seq<char> {
        match self {
            CommandError::InvalidCommand => "ERROR Invalid command"@,
            CommandError::MalformedRequest => "ERROR Malformed request"@,
        }
    }

    /// The answer that a client gets for a request line that is no command.
    pub fn response(&self) -> (r: String)
        ensures
            r@ == self.response_spec(),
    {
        match self {
            CommandError::InvalidCommand => String::from_str("ERROR Invalid command"),
            CommandError::MalformedRequest => String::from_str("ERROR Malformed request"),
        }
    }
}

} // verus!
