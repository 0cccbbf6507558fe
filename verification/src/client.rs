//! The client request handler: from a request line to a round of the protocol and,
//! once the round has committed, to the replicated state and the answer.

use crate::cluster::Cluster;
use crate::command::{parse_command, Command, CommandView};
use crate::coordinator::{
    cluster_after_round, issued_after_one, next_number, reachable_flags, round_outcome,
    Coordinator,
};
use crate::round::{count_true, quorum, RoundOutcome};
use crate::store::ReplicatedState;
use vstd::prelude::*;
use vstd::string::*;

verus! {

/// The answer to a request whose round did not commit.
pub open spec fn not_reached() -> Seq<char> {
    "Consensus not reached by the network"@
}

/// The state after a command, and the answer to the client. `get` leaves the state as
/// it is and reports the value under the key, or that there is none; `put` stores the
/// value under the key and answers `OK`.
pub open spec fn apply_spec(command: CommandView, state: Map<Seq<char>, Seq<char>>) -> (
    Map<Seq<char>, Seq<char>>,
    Seq<char>,
) {
    match command {
        CommandView::Get(key) => (
            state,
            if state.contains_key(key) {
                "Key "@ + key + " has Value "@ + state[key]
            } else {
                "ERROR Key not found"@
            },
        ),
        CommandView::Put(key, value) => (state.insert(key, value), "OK"@),
    }
}

/// The state and the answer after a round for `command`: the command takes effect if
/// the round committed, and only then.
pub open spec fn respond_spec(
    command: CommandView,
    outcome: RoundOutcome,
    state: Map<Seq<char>, Seq<char>>,
) -> (Map<Seq<char>, Seq<char>>, Seq<char>) {
    if outcome == RoundOutcome::Committed {
        apply_spec(command, state)
    } else {
        (state, not_reached())
    }
}

/// Carries out a command on the state and returns the answer to the client.
pub fn apply(command: &Command, state: &mut ReplicatedState) -> (response: String)
    ensures
        final(state)@ == apply_spec(command@, old(state)@).0,
        response@ == apply_spec(command@, old(state)@).1,
{
    match command {
        Command::Get(key) => match state.get(key.as_str()) {
            Some(value) => {
                let mut response = String::from_str("Key ");
                response.append(key.as_str());
                response.append(" has Value ");
                response.append(value.as_str());
                response
            },
            None => String::from_str("ERROR Key not found"),
        },
        Command::Put(key, value) => {
            state.put(key.as_str(), value.as_str());
            String::from_str("OK")
        },
    }
}

/// Answers a client after the round for its command: carries the command out if the
/// round committed, and reports that consensus was not reached if it did not.
pub fn respond_to_client(
    command: &Command,
    outcome: RoundOutcome,
    state: &mut ReplicatedState,
) -> (response: String)
    ensures
        final(state)@ == respond_spec(command@, outcome, old(state)@).0,
        response@ == respond_spec(command@, outcome, old(state)@).1,
{
    match outcome {
        RoundOutcome::Committed => apply(command, state),
        _ => String::from_str("Consensus not reached by the network"),
    }
}

/// Handles one client request against a cluster: reads the command, runs a round for
/// it and answers.
///
/// A line that is no command is answered with its error; no round is run for it and
/// no proposal number is used.
pub fn handle_client(
    request: &str,
    coordinator: &mut Coordinator,
    cluster: &mut Cluster,
    state: &mut ReplicatedState,
) -> (response: String)
    ensures
        match parse_command(request@) {
            Err(e) => {
                &&& response@ == e.response_spec()
                &&& final(coordinator)@ == old(coordinator)@
                &&& final(cluster)@ == old(cluster)@
                &&& final(state)@ == old(state)@
            },
            Ok(command) => {
                &&& final(coordinator)@ == issued_after_one(old(coordinator)@)
                &&& match next_number(old(coordinator)@) {
                    Some(number) => {
                        let outcome = round_outcome(old(cluster)@, number);
                        &&& final(cluster)@ == cluster_after_round(old(cluster)@, number, command)
                        &&& final(state)@ == respond_spec(command, outcome, old(state)@).0
                        &&& response@ == respond_spec(command, outcome, old(state)@).1
                    },
                    None => {
                        &&& final(cluster)@ == old(cluster)@
                        &&& final(state)@ == old(state)@
                        &&& response@ == not_reached()
                    },
                }
                &&& count_true(reachable_flags(old(cluster)@)) < quorum(old(cluster)@.len()) ==> {
                    &&& final(state)@ == old(state)@
                    &&& response@ == not_reached()
                }
            },
        },
{
    let command = match Command::parse(request) {
        Ok(command) => command,
        Err(e) => {
            return e.response();
        },
    };
    let outcome = coordinator.run_round(cluster, &command);
    respond_to_client(&command, outcome, state)
}

} // verus!
