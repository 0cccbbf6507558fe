//! Single-decree Paxos for a replicated key/value store.
//!
//! A proposer takes `get` and `put` requests from clients. For each request it runs
//! one round of a two-phase agreement among a fixed set of acceptors, and carries the
//! command out on its copy of the store only once a majority of the acceptors has
//! accepted it.
//!
//! - [`text`], [`number`]: tokens and decimal numbers, the grammar of both protocols
//! - [`operations`], [`message`]: the messages between proposer and acceptors
//! - [`command`]: the commands of clients
//! - [`acceptor`]: the acceptor's ledger and its rules
//! - [`round`]: the proposer's bookkeeping for one round
//! - [`coordinator`]: proposal numbers, and a round run against a [`cluster`]
//! - [`store`], [`client`]: the replicated state and the request handler
//! - [`safety`]: what holds of a round whatever the order in which lines arrive

pub mod acceptor;
pub mod client;
pub mod cluster;
pub mod command;
pub mod coordinator;
pub mod message;
pub mod number;
pub mod operations;
pub mod round;
pub mod safety;
pub mod store;
pub mod text;
