use paxos::acceptor::{read_prior, Acceptor};
use paxos::command::Command;
use paxos::message::Message;
use paxos::operations::Operations;

fn command(text: &str) -> Command {
    Command::parse(text).unwrap()
}

fn plain(operation: Operations, number: u8) -> Message {
    Message { operation, number, payload: None }
}

#[test]
fn new_acceptor_has_an_empty_ledger() {
    let acceptor = Acceptor::new();
    assert_eq!(acceptor.highest_promised(), 0);
    assert_eq!(acceptor.highest_accepted(), None);
}

#[test]
fn prepare_is_granted_at_or_above_the_promise() {
    let mut acceptor = Acceptor::new();
    assert_eq!(acceptor.on_prepare(3), plain(Operations::Promise, 3));
    assert_eq!(acceptor.highest_promised(), 3);
    assert_eq!(acceptor.on_prepare(3), plain(Operations::Promise, 3));
    assert_eq!(acceptor.highest_promised(), 3);
    assert_eq!(acceptor.on_prepare(9), plain(Operations::Promise, 9));
    assert_eq!(acceptor.highest_promised(), 9);
}

#[test]
fn prepare_below_the_promise_is_turned_down_with_the_promise() {
    let mut acceptor = Acceptor::new();
    acceptor.on_prepare(9);
    assert_eq!(acceptor.on_prepare(8), plain(Operations::Promise, 9));
    assert_eq!(acceptor.on_prepare(0), plain(Operations::Promise, 9));
    assert_eq!(acceptor.highest_promised(), 9);
}

#[test]
fn prepare_zero_is_granted_by_a_fresh_acceptor() {
    let mut acceptor = Acceptor::new();
    assert_eq!(acceptor.on_prepare(0), plain(Operations::Promise, 0));
    assert_eq!(acceptor.highest_promised(), 0);
}

#[test]
fn accept_request_is_taken_at_or_above_the_promise() {
    let mut acceptor = Acceptor::new();
    acceptor.on_prepare(3);
    assert_eq!(acceptor.on_accept_request(3, command("put x 5")), plain(Operations::Accepted, 3));
    assert_eq!(acceptor.highest_promised(), 3);
    assert_eq!(acceptor.highest_accepted(), Some((3, &command("put x 5"))));
    assert_eq!(acceptor.on_accept_request(7, command("get x")), plain(Operations::Accepted, 7));
    assert_eq!(acceptor.highest_promised(), 7);
    assert_eq!(acceptor.highest_accepted(), Some((7, &command("get x"))));
}

#[test]
fn accept_request_below_the_promise_is_turned_down() {
    let mut acceptor = Acceptor::new();
    acceptor.on_prepare(3);
    acceptor.on_accept_request(3, command("put x 5"));
    acceptor.on_prepare(5);
    assert_eq!(acceptor.on_accept_request(4, command("put x 6")), plain(Operations::Promise, 5));
    assert_eq!(acceptor.highest_promised(), 5);
    assert_eq!(acceptor.highest_accepted(), Some((3, &command("put x 5"))));
}

#[test]
fn a_promise_reports_what_was_accepted_before() {
    let mut acceptor = Acceptor::new();
    acceptor.on_accept_request(2, command("put x 5"));
    let promise = acceptor.on_prepare(4);
    assert_eq!(
        promise,
        Message {
            operation: Operations::Promise,
            number: 4,
            payload: Some("2 put x 5".to_string()),
        }
    );
    assert_eq!(read_prior(promise.payload.as_deref().unwrap()), Some((2, command("put x 5"))));
}

#[test]
fn read_prior_reads_number_and_command() {
    assert_eq!(read_prior("7 get k"), Some((7, command("get k"))));
    assert_eq!(read_prior(" 7   put k  v "), Some((7, command("put k v"))));
    assert_eq!(read_prior("7 put k"), Some((7, command("put k 0"))));
    assert_eq!(read_prior(""), None);
    assert_eq!(read_prior("7"), None);
    assert_eq!(read_prior("x get k"), None);
    assert_eq!(read_prior("256 get k"), None);
    assert_eq!(read_prior("7 drop k"), None);
    assert_eq!(read_prior("7 get"), None);
}

#[test]
fn lines_are_answered_by_the_rules() {
    let mut acceptor = Acceptor::new();
    assert_eq!(acceptor.handle_message("prepare 1"), "promise 1");
    assert_eq!(acceptor.handle_message("accept-request 1 put x 5"), "accepted 1");
    assert_eq!(acceptor.highest_promised(), 1);
    assert_eq!(acceptor.highest_accepted(), Some((1, &command("put x 5"))));
    assert_eq!(acceptor.handle_message("prepare 2"), "promise 2 1 put x 5");
    assert_eq!(acceptor.handle_message("prepare 1"), "promise 2");
    assert_eq!(acceptor.handle_message("accept-request 1 put x 6"), "promise 2");
    assert_eq!(acceptor.highest_promised(), 2);
    assert_eq!(acceptor.highest_accepted(), Some((1, &command("put x 5"))));
    assert_eq!(acceptor.handle_message("  accept-request   4  get   x "), "accepted 4");
    assert_eq!(acceptor.highest_promised(), 4);
    assert_eq!(acceptor.highest_accepted(), Some((4, &command("get x"))));
}

#[test]
fn lines_that_are_no_request_get_an_error_and_change_nothing() {
    let mut acceptor = Acceptor::new();
    acceptor.handle_message("prepare 3");
    acceptor.handle_message("accept-request 3 put x 5");
    let lines = [
        "",
        " ",
        "x",
        "prepare",
        "prepare x",
        "prepare 256",
        "propose 9",
        "promise 9",
        "accepted 9",
        "accept-request 9",
        "accept-request 9 drop x",
        "accept-request 9 put",
        "ERROR Invalid operation",
    ];
    for line in lines {
        assert_eq!(acceptor.handle_message(line), "ERROR Invalid operation", "{:?}", line);
        assert_eq!(acceptor.highest_promised(), 3);
        assert_eq!(acceptor.highest_accepted(), Some((3, &command("put x 5"))));
    }
}

#[test]
fn the_promise_never_decreases() {
    let mut acceptor = Acceptor::new();
    let lines = [
        "prepare 5",
        "prepare 2",
        "accept-request 3 put a 1",
        "accept-request 5 put a 2",
        "garbage",
        "prepare 4",
        "accept-request 9 get a",
        "prepare 0",
        "prepare 9",
        "accept-request 8 put b 1",
        "prepare 255",
        "accept-request 255 put c 1",
        "prepare 254",
    ];
    let mut promised = acceptor.highest_promised();
    let mut accepted = 0;
    for line in lines {
        acceptor.handle_message(line);
        assert!(acceptor.highest_promised() >= promised, "{:?}", line);
        promised = acceptor.highest_promised();
        if let Some((number, _)) = acceptor.highest_accepted() {
            assert!(number >= accepted);
            assert!(number <= promised);
            accepted = number;
        }
    }
    assert_eq!(promised, 255);
    assert_eq!(acceptor.highest_accepted(), Some((255, &command("put c 1"))));
}
