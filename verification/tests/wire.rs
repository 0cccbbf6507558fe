use paxos::message::{build_response, decode, encode, MalformedMessage, Message};
use paxos::operations::Operations;

const ALL: [Operations; 4] = [
    Operations::Prepare,
    Operations::Promise,
    Operations::AcceptRequest,
    Operations::Accepted,
];

#[test]
fn operation_names() {
    assert_eq!(Operations::Prepare.to_string(), "prepare");
    assert_eq!(Operations::Promise.to_string(), "promise");
    assert_eq!(Operations::AcceptRequest.to_string(), "accept-request");
    assert_eq!(Operations::Accepted.to_string(), "accepted");
    for operation in ALL {
        assert_eq!(operation.as_str(), operation.to_string());
    }
}

#[test]
fn operation_names_are_read_back() {
    for operation in ALL {
        assert_eq!(Operations::from_name(operation.as_str()), Some(operation));
    }
    assert_eq!(Operations::from_name("Prepare"), None);
    assert_eq!(Operations::from_name("prepar"), None);
    assert_eq!(Operations::from_name("prepare "), None);
    assert_eq!(Operations::from_name("accept_request"), None);
    assert_eq!(Operations::from_name(""), None);
    assert_eq!(Operations::from_name("ERROR"), None);
}

#[test]
fn build_response_puts_one_space_between() {
    assert_eq!(build_response("prepare", "1"), "prepare 1");
    assert_eq!(build_response("accepted", "255"), "accepted 255");
    assert_eq!(build_response("", ""), " ");
    assert_eq!(build_response("a b", " c"), "a b  c");
}

#[test]
fn encode_with_and_without_payload() {
    assert_eq!(encode(Operations::Prepare, 7, None), "prepare 7");
    assert_eq!(encode(Operations::Promise, 0, None), "promise 0");
    assert_eq!(encode(Operations::Accepted, 19, None), "accepted 19");
    assert_eq!(
        encode(Operations::AcceptRequest, 255, Some("put x 5")),
        "accept-request 255 put x 5"
    );
    assert_eq!(encode(Operations::Promise, 3, Some("2 get k")), "promise 3 2 get k");
}

#[test]
fn encoding_starts_with_name_and_number() {
    for operation in ALL {
        for number in [0u8, 1, 9, 10, 128, 255] {
            for payload in [None, Some("get k"), Some("  odd   payload ")] {
                let line = encode(operation, number, payload);
                let head = format!("{} {}", operation.to_string(), number);
                assert!(line.starts_with(&head), "{:?}", line);
            }
        }
    }
}

#[test]
fn message_encodes_itself() {
    let message = Message {
        operation: Operations::AcceptRequest,
        number: 4,
        payload: Some("get k".to_string()),
    };
    assert_eq!(message.encode(), "accept-request 4 get k");
    let message = Message { operation: Operations::Prepare, number: 4, payload: None };
    assert_eq!(message.encode(), "prepare 4");
}

#[test]
fn decode_gives_back_what_encode_took() {
    for operation in ALL {
        for number in [0u8, 1, 9, 10, 99, 100, 255] {
            for payload in [None, Some("x"), Some("get k"), Some("put x 5"), Some("7 put k v")] {
                let line = encode(operation, number, payload);
                let message = decode(&line).unwrap();
                assert_eq!(message.operation, operation);
                assert_eq!(message.number, number);
                assert_eq!(message.payload.as_deref(), payload);
                assert_eq!(message.encode(), line);
            }
        }
    }
}

#[test]
fn decode_joins_the_payload_with_single_spaces() {
    let message = decode("  accept-request \t 3   put  x\n5 ").unwrap();
    assert_eq!(
        message,
        Message {
            operation: Operations::AcceptRequest,
            number: 3,
            payload: Some("put x 5".to_string()),
        }
    );
}

#[test]
fn payload_that_is_no_phrase_does_not_come_back_unchanged() {
    let message = decode(&encode(Operations::AcceptRequest, 3, Some("a  b"))).unwrap();
    assert_eq!(message.payload.as_deref(), Some("a b"));
    let message = decode(&encode(Operations::AcceptRequest, 3, Some(""))).unwrap();
    assert_eq!(message.payload, None);
    let message = decode(&encode(Operations::AcceptRequest, 3, Some(" x"))).unwrap();
    assert_eq!(message.payload.as_deref(), Some("x"));
    assert_eq!(message.operation, Operations::AcceptRequest);
    assert_eq!(message.number, 3);
}

#[test]
fn decode_rejects_fewer_than_two_tokens() {
    assert_eq!(decode(""), Err(MalformedMessage));
    assert_eq!(decode("   "), Err(MalformedMessage));
    assert_eq!(decode("prepare"), Err(MalformedMessage));
    assert_eq!(decode(" 7 "), Err(MalformedMessage));
}

#[test]
fn decode_rejects_unknown_operations() {
    assert_eq!(decode("propose 1"), Err(MalformedMessage));
    assert_eq!(decode("PREPARE 1"), Err(MalformedMessage));
    assert_eq!(decode("ERROR Invalid operation"), Err(MalformedMessage));
    assert_eq!(decode("1 prepare"), Err(MalformedMessage));
}

#[test]
fn decode_rejects_unreadable_numbers() {
    assert_eq!(decode("prepare x"), Err(MalformedMessage));
    assert_eq!(decode("prepare -1"), Err(MalformedMessage));
    assert_eq!(decode("prepare 256"), Err(MalformedMessage));
    assert_eq!(decode("prepare 1.0"), Err(MalformedMessage));
    assert_eq!(decode("prepare 0x1"), Err(MalformedMessage));
}

#[test]
fn decode_reads_numbers_as_the_number_type_does() {
    assert_eq!(decode("prepare +1").unwrap().number, 1);
    assert_eq!(decode("prepare 001").unwrap().number, 1);
    assert_eq!(decode("prepare 255").unwrap().number, 255);
}

#[test]
fn message_clone_is_the_same_message() {
    let message = Message {
        operation: Operations::Promise,
        number: 9,
        payload: Some("8 put k v".to_string()),
    };
    assert_eq!(message.clone(), message);
    let message = Message { operation: Operations::Accepted, number: 9, payload: None };
    assert_eq!(message.clone(), message);
}
