use paxos::command::{Command, CommandError, Word};

fn word(text: &str) -> Word {
    Word::new(text).unwrap()
}

#[test]
fn words_hold_no_white_space() {
    assert_eq!(Word::new("x").unwrap().as_str(), "x");
    assert_eq!(Word::new("key-1").unwrap().as_str(), "key-1");
    assert!(Word::new("").is_none());
    assert!(Word::new(" ").is_none());
    assert!(Word::new("a b").is_none());
    assert!(Word::new("a\t").is_none());
    assert!(Word::new("\u{a0}a").is_none());
}

#[test]
fn word_clone_is_the_same_word() {
    let w = word("value");
    assert_eq!(w.clone(), w);
}

#[test]
fn parse_get() {
    assert_eq!(Command::parse("get x"), Ok(Command::Get(word("x"))));
    assert_eq!(Command::parse("  get \t x  "), Ok(Command::Get(word("x"))));
    assert_eq!(Command::parse("get x ignored"), Ok(Command::Get(word("x"))));
}

#[test]
fn parse_put() {
    assert_eq!(Command::parse("put x 5"), Ok(Command::Put(word("x"), word("5"))));
    assert_eq!(Command::parse("put x 5 6 7"), Ok(Command::Put(word("x"), word("5"))));
    assert_eq!(Command::parse("put put put"), Ok(Command::Put(word("put"), word("put"))));
}

#[test]
fn put_without_value_stores_zero() {
    assert_eq!(Command::parse("put x"), Ok(Command::Put(word("x"), word("0"))));
}

#[test]
fn unknown_verbs_are_invalid_commands() {
    assert_eq!(Command::parse("delete x"), Err(CommandError::InvalidCommand));
    assert_eq!(Command::parse("GET x"), Err(CommandError::InvalidCommand));
    assert_eq!(Command::parse("gets x"), Err(CommandError::InvalidCommand));
    assert_eq!(Command::parse("delete"), Err(CommandError::InvalidCommand));
    assert_eq!(Command::parse("prepare 1"), Err(CommandError::InvalidCommand));
}

#[test]
fn missing_key_is_a_malformed_request() {
    assert_eq!(Command::parse("get"), Err(CommandError::MalformedRequest));
    assert_eq!(Command::parse("put"), Err(CommandError::MalformedRequest));
    assert_eq!(Command::parse(" put  "), Err(CommandError::MalformedRequest));
}

#[test]
fn empty_line_is_a_malformed_request() {
    assert_eq!(Command::parse(""), Err(CommandError::MalformedRequest));
    assert_eq!(Command::parse(" \t\n"), Err(CommandError::MalformedRequest));
}

#[test]
fn error_responses() {
    assert_eq!(CommandError::InvalidCommand.response(), "ERROR Invalid command");
    assert_eq!(CommandError::MalformedRequest.response(), "ERROR Malformed request");
}

#[test]
fn command_text() {
    assert_eq!(Command::Get(word("x")).to_text(), "get x");
    assert_eq!(Command::Put(word("x"), word("5")).to_text(), "put x 5");
    assert_eq!(Command::parse("put x").unwrap().to_text(), "put x 0");
}

#[test]
fn command_key() {
    assert_eq!(Command::Get(word("k1")).key(), "k1");
    assert_eq!(Command::Put(word("k2"), word("v")).key(), "k2");
}

#[test]
fn command_text_reads_back_as_the_command() {
    let commands = [
        Command::Get(word("x")),
        Command::Get(word("get")),
        Command::Put(word("x"), word("5")),
        Command::Put(word("caf\u{e9}"), word("\u{2713}")),
        Command::Put(word("0"), word("0")),
    ];
    for command in commands {
        assert_eq!(Command::parse(&command.to_text()), Ok(command.clone()));
        assert_eq!(command.clone(), command);
    }
}
