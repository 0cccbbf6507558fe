//! A set of acceptors held in one process, each of which can be reached or not: the
//! network as a round sees it.

use crate::acceptor::{Acceptor, Ledger};
use vstd::prelude::*;

verus! {

/// An acceptor and whether lines get through to it.
struct Node {
    acceptor: Acceptor,
    reachable: bool,
}

/// The acceptors of a cluster.
pub struct Cluster {
    nodes: Vec<Node>,
}

/// An acceptor of a cluster, as mathematical values.
pub struct NodeView {
    pub ledger: Ledger,
    pub reachable: bool,
}

impl NodeView {
    /// The node after a line was sent to it, and the reply, if the line got through.
    pub open spec fn exchange(self, line: Seq<char>) -> (NodeView, Option<Seq<char>>) {
        if self.reachable {
            (
                NodeView { ledger: self.ledger.receive(line).0, reachable: true },
                Some(self.ledger.receive(line).1),
            )
        } else {
            (self, None)
        }
    }
}

impl View for Cluster {
    type V = Seq<NodeView>;

    closed spec fn view(&self) -> Seq<NodeView> {
        self.nodes@.map_values(|n: Node| NodeView { ledger: n.acceptor@, reachable: n.reachable })
    }
}

impl Cluster {
    /// A cluster of `num_acceptors` acceptors that have seen no message and can all be
    /// reached.
    pub fn new(num_acceptors: usize) -> (cluster: Cluster)
        ensures
            cluster@ == Seq::new(
                num_acceptors as nat,
                |i: int| NodeView { ledger: Ledger::initial(), reachable: true },
            ),
    {
        let mut nodes: Vec<Node> = Vec::new();
        while nodes.len() < num_acceptors
            invariant
                nodes.len() <= num_acceptors,
                forall|i: int|
                    0 <= i < nodes.len() ==> (#[trigger] nodes[i]).acceptor@ == Ledger::initial()
                        && nodes[i].reachable,
            decreases num_acceptors - nodes.len(),
        {
            nodes.push(Node { acceptor: Acceptor::new(), reachable: true });
        }
        let cluster = Cluster { nodes };
        cluster
    }

    /// The number of acceptors.
    pub fn len(&self) -> (n: usize)
        ensures
            n == self@.len(),
    {
        self.nodes.len()
    }

    /// Whether lines get through to acceptor number `index`.
    pub fn is_reachable(&self, index: usize) -> (r: bool)
        ensures
            r == (index < self@.len() && self@[index as int].reachable),
    {
        index < self.nodes.len() && self.nodes[index].reachable
    }

    /// Connects or disconnects acceptor number `index`. Its ledger stays as it is.
    pub fn set_reachable(&mut self, index: usize, reachable: bool)
        ensures
            final(self)@ == if index < old(self)@.len() {
                old(self)@.update(
                    index as int,
                    NodeView { ledger: old(self)@[index as int].ledger, reachable },
                )
            } else {
                old(self)@
            },
    {
        if index < self.nodes.len() {
            self.nodes[index].reachable = reachable;
        }
    }

    /// Acceptor number `index`.
    pub fn acceptor(&self, index: usize) -> (acceptor: Option<&Acceptor>)
        ensures
            match acceptor {
                Some(a) => index < self@.len() && a@ == self@[index as int].ledger,
                None => index >= self@.len(),
            },
    {
        if index < self.nodes.len() {
            Some(&self.nodes[index].acceptor)
        } else {
            None
        }
    }

    /// Sends a line to acceptor number `index` and returns its reply. Nothing comes
    /// back from an acceptor that cannot be reached or does not exist.
    pub fn exchange(&mut self, index: usize, line: &str) -> (reply: Option<String>)
        ensures
            final(self)@ == if index < old(self)@.len() {
                old(self)@.update(index as int, old(self)@[index as int].exchange(line@).0)
            } else {
                old(self)@
            },
            match reply {
                Some(r) => index < old(self)@.len() && old(self)@[index as int].exchange(line@).1
                    == Some(r@),
                None => index < old(self)@.len() ==> old(self)@[index as int].exchange(line@).1
                    is None,
            },
    {
        if index < self.nodes.len() && self.nodes[index].reachable {
            let reply = self.nodes[index].acceptor.handle_message(line);
            Some(reply)
        } else {
            None
        }
    }
}

} // verus!
