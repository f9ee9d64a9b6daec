//! The model of a cluster, and what an election does to it.
//!
//! A cluster is a sequence of peers and, for each of them, the sequence of
//! positions it is linked to. A peer may be linked to another more than
//! once, and then hears from it as often.

use crate::node::NodeView;
use crate::records::new_leader_text;
use crate::types::{Error, MessageView, Role};
use vstd::prelude::*;

verus! {

/// The least number of votes that is more than half of a cluster made of
/// one peer and the `links` peers it is linked to.
pub open spec fn majority(links: nat) -> nat {
    (links + 1) / 2 + 1
}

/// The peers after `msg` has been handed to the first `count` of `links`,
/// one after the other.
pub open spec fn delivered(
    nodes: Seq<NodeView>,
    links: Seq<usize>,
    msg: MessageView,
    count: nat,
) -> Seq<NodeView>
    decreases count,
{
    if count == 0 {
        nodes
    } else {
        let earlier = delivered(nodes, links, msg, (count - 1) as nat);
        let to = links[count - 1] as int;
        earlier.update(to, earlier[to].after(msg))
    }
}

/// How many of the first `count` of `links` accepted `msg` when it was
/// handed to them one after the other.
pub open spec fn accepted(
    nodes: Seq<NodeView>,
    links: Seq<usize>,
    msg: MessageView,
    count: nat,
) -> nat
    decreases count,
{
    if count == 0 {
        0
    } else {
        let earlier = delivered(nodes, links, msg, (count - 1) as nat);
        let to = links[count - 1] as int;
        let vote: nat = if earlier[to].reply(msg) is Ok {
            1
        } else {
            0
        };
        accepted(nodes, links, msg, (count - 1) as nat) + vote
    }
}

/// A cluster as the model sees it.
pub struct ClusterView {
    /// The peers, each at its position.
    pub nodes: Seq<NodeView>,
    /// For each peer, the positions of the peers it is linked to.
    pub edges: Seq<Seq<usize>>,
}

impl ClusterView {
    /// The cluster without peers.
    pub open spec fn empty() -> ClusterView {
        ClusterView { nodes: Seq::empty(), edges: Seq::empty() }
    }

    /// Whether `node` is the position of a peer.
    pub open spec fn has_peer(self, node: int) -> bool {
        0 <= node < self.nodes.len()
    }

    /// Whether the peer at `node` may be linked to each of `links`: all of
    /// them are peers of the cluster, and none is the peer itself.
    pub open spec fn may_link(self, node: int, links: Seq<usize>) -> bool {
        forall|k: int| 0 <= k < links.len() ==> self.has_peer(#[trigger] links[k] as int) && links[k] != node
    }

    /// Every peer has its links, and each link leads to another peer of the
    /// cluster.
    pub open spec fn well_formed(self) -> bool {
        &&& self.edges.len() == self.nodes.len()
        &&& forall|node: int|
            0 <= node < self.edges.len() ==> self.may_link(node, #[trigger] self.edges[node])
    }

    /// Whether the peer at `node` can act on a timeout: a follower moves to
    /// the next term, which the machine must be able to hold.
    pub open spec fn may_time_out(self, node: int) -> bool {
        self.nodes[node].role == Role::Follower ==> self.nodes[node].term < u64::MAX
    }

    /// The cluster with one more peer, which is linked to nobody.
    pub open spec fn with_peer(self, peer: NodeView) -> ClusterView {
        ClusterView { nodes: self.nodes.push(peer), edges: self.edges.push(Seq::empty()) }
    }

    /// The cluster in which the peer at `node` is `peer`.
    pub open spec fn with_peer_at(self, node: int, peer: NodeView) -> ClusterView {
        ClusterView { nodes: self.nodes.update(node, peer), ..self }
    }

    /// The cluster in which the peer at `node` has `links` after the links
    /// it had.
    pub open spec fn with_links(self, node: int, links: Seq<usize>) -> ClusterView {
        ClusterView { edges: self.edges.update(node, self.edges[node] + links), ..self }
    }

    /// The cluster after the peer at `node` has handled `msg`.
    pub open spec fn after_message(self, node: int, msg: MessageView) -> ClusterView {
        self.with_peer_at(node, self.nodes[node].after(msg))
    }

    /// The peer at `node` as a candidate: in the next term, with all else
    /// as it was.
    pub open spec fn candidate(self, node: int) -> NodeView {
        NodeView { role: Role::Candidate, term: self.nodes[node].term + 1, ..self.nodes[node] }
    }

    /// The vote request that the peer at `node` sends when it stands for
    /// election: it carries the peer's identity and the next term.
    pub open spec fn vote_request(self, node: int) -> MessageView {
        MessageView::RequestVotes(self.nodes[node].id, self.nodes[node].term + 1)
    }

    /// The peers after the peer at `node` has become a candidate and has
    /// asked each peer it is linked to for its vote.
    pub open spec fn polled(self, node: int) -> Seq<NodeView> {
        delivered(
            self.nodes.update(node, self.candidate(node)),
            self.edges[node],
            self.vote_request(node),
            self.edges[node].len(),
        )
    }

    /// The votes that the peer at `node` gets when it stands for election:
    /// its own, and one for each request that was accepted.
    pub open spec fn votes_received(self, node: int) -> nat {
        1 + accepted(
            self.nodes.update(node, self.candidate(node)),
            self.edges[node],
            self.vote_request(node),
            self.edges[node].len(),
        )
    }

    /// Whether the peer at `node` becomes leader when it stands for
    /// election: it knows of no leader once it has asked for the votes, and
    /// the votes it got are a majority.
    pub open spec fn wins(self, node: int) -> bool {
        &&& self.polled(node)[node].current_leader is None
        &&& self.votes_received(node) >= majority(self.edges[node].len())
    }

    /// The announcement that the peer at `node` sends when it has won.
    pub open spec fn announcement(self, node: int) -> MessageView {
        let winner = self.polled(node)[node];
        MessageView::ReplicateOrHeartbeat(winner.id, new_leader_text(winner.id, winner.term))
    }

    /// The cluster after the peer at `node` has timed out.
    ///
    /// Only a follower acts on a timeout. It becomes a candidate in the next
    /// term and asks each peer it is linked to for its vote. If it wins, it
    /// becomes leader, takes itself for leader and announces itself to each
    /// of those peers.
    pub open spec fn after_timeout(self, node: int) -> ClusterView {
        if self.nodes[node].role != Role::Follower {
            self
        } else if !self.wins(node) {
            ClusterView { nodes: self.polled(node), ..self }
        } else {
            let polled = self.polled(node);
            let leader = NodeView {
                role: Role::Leader,
                current_leader: Some(polled[node].id),
                ..polled[node]
            };
            ClusterView {
                nodes: delivered(
                    polled.update(node, leader),
                    self.edges[node],
                    self.announcement(node),
                    self.edges[node].len(),
                ),
                ..self
            }
        }
    }

    /// What the peer at `node` answers to a timeout.
    ///
    /// A leader refuses, naming itself. A candidate does nothing. A follower
    /// that knows of a leader once it has asked for the votes refuses,
    /// naming that leader. Otherwise the answer is `Ok`, whether the peer
    /// has won or not.
    pub open spec fn timeout_result(self, node: int) -> Result<(), Error> {
        match self.nodes[node].role {
            Role::Leader => Err(Error::AlreadyElected(self.nodes[node].id)),
            Role::Candidate => Ok(()),
            Role::Follower => match self.polled(node)[node].current_leader {
                Some(leader) => Err(Error::AlreadyElected(leader)),
                None => Ok(()),
            },
        }
    }
}

} // verus!
