//! The peers of a cluster side by side, and the protocol that runs on them.

use crate::election::{accepted, delivered, ClusterView};
use crate::helpers::send_msg;
use crate::laws::{law_majority_decides, law_timeout_keeps_terms};
use crate::node::{Node, NodeView};
use crate::records::{new_leader, new_leader_text};
use crate::types::{Error, Message, MessageView, Role};
use vstd::prelude::*;

verus! {

/// The protocol, on anything that holds the peers of a cluster and addresses
/// each by its position.
pub trait RaftNode: View<V = ClusterView> {
    /// Called when the peer at `node` has not heard from a leader: a
    /// follower then stands for election.
    ///
    /// A leader refuses, naming itself, and a candidate does nothing. A
    /// follower becomes a candidate in the next term and asks each peer it
    /// is linked to for its vote, in the order of its links. If it then
    /// knows of a leader, it refuses, naming that leader. If not, and if
    /// its own vote and the requests that were accepted are a majority, it
    /// becomes leader and announces itself to each of those peers.
    ///
    /// The term of a follower must leave room for the next one.
    fn on_timeout(&mut self, node: usize) -> (res: Result<(), Error>)
        requires
            old(self)@.well_formed(),
            old(self)@.has_peer(node as int),
            old(self)@.may_time_out(node as int),
        ensures
            final(self)@ == old(self)@.after_timeout(node as int),
            res == old(self)@.timeout_result(node as int),
            final(self)@.well_formed(),
            final(self)@.edges == old(self)@.edges,
            final(self)@.nodes.len() == old(self)@.nodes.len(),
            forall|peer: int|
                old(self)@.has_peer(peer)
                    ==> (#[trigger] final(self)@.nodes[peer]).term >= old(self)@.nodes[peer].term,
            old(self)@.nodes[node as int].role == Role::Leader
                ==> final(self)@ == old(self)@
                    && res == Err::<(), Error>(Error::AlreadyElected(old(self)@.nodes[node as int].id)),
            old(self)@.nodes[node as int].role == Role::Follower
                && old(self)@.nodes[node as int].current_leader is None
                ==> (final(self)@.nodes[node as int].role == Role::Leader
                    <==> old(self)@.votes_received(node as int)
                        >= (old(self)@.edges[node as int].len() + 1) / 2 + 1),
    ;

    /// Hands `msg` to the peer at `node` and returns its answer. No other
    /// peer is touched.
    fn on_rcv_message(&mut self, node: usize, msg: Message) -> (res: Result<(), Error>)
        requires
            old(self)@.has_peer(node as int),
        ensures
            final(self)@ == old(self)@.after_message(node as int, msg@),
            res == old(self)@.nodes[node as int].reply(msg@),
            old(self)@.well_formed() ==> final(self)@.well_formed(),
            final(self)@.nodes[node as int].term >= old(self)@.nodes[node as int].term,
            msg@ is ReplicateOrHeartbeat
                ==> res is Ok
                    && final(self)@.nodes[node as int].role == Role::Follower
                    && final(self)@.nodes[node as int].current_leader
                        == Some(msg@->ReplicateOrHeartbeat_0),
            old(self)@.nodes[node as int].is_stale(msg@)
                ==> res == Err::<(), Error>(Error::InvalidTerm)
                    && final(self)@.nodes[node as int].role == old(self)@.nodes[node as int].role
                    && final(self)@.nodes[node as int].term == old(self)@.nodes[node as int].term
                    && final(self)@.nodes[node as int].current_leader
                        == old(self)@.nodes[node as int].current_leader,
    ;

    /// Links the peer at `node` to each of `nodes`, after the links it has.
    /// No peer is changed.
    ///
    /// Each of `nodes` must be the position of another peer of the cluster.
    fn connect_nodes(&mut self, node: usize, nodes: &[usize])
        requires
            old(self)@.well_formed(),
            old(self)@.has_peer(node as int),
            old(self)@.may_link(node as int, nodes@),
        ensures
            final(self)@ == old(self)@.with_links(node as int, nodes@),
            final(self)@.well_formed(),
    ;
}

/// The peers of a cluster and the links between them.
#[derive(Debug)]
pub struct Cluster {
    nodes: Vec<Node>,
    edges: Vec<Vec<usize>>,
}

impl View for Cluster {
    type V = ClusterView;

    closed spec fn view(&self) -> ClusterView {
        ClusterView {
            nodes: self.nodes@.map_values(|node: Node| node@),
            edges: self.edges@.map_values(|links: Vec<usize>| links@),
        }
    }
}

impl Cluster {
    /// A cluster without peers.
    pub fn new() -> (cluster: Cluster)
        ensures
            cluster@ == ClusterView::empty(),
            cluster@.well_formed(),
    {
        let cluster = Cluster { nodes: Vec::new(), edges: Vec::new() };
        assert(cluster@.nodes =~= Seq::empty());
        assert(cluster@.edges =~= Seq::empty());
        cluster
    }

    /// The number of peers.
    pub fn len(&self) -> (count: usize)
        ensures
            count == self@.nodes.len(),
    {
        self.nodes.len()
    }

    /// Adds `node` to the cluster, linked to nobody, and returns its
    /// position.
    pub fn add(&mut self, node: Node) -> (position: usize)
        requires
            old(self)@.well_formed(),
        ensures
            position == old(self)@.nodes.len(),
            final(self)@ == old(self)@.with_peer(node@),
            final(self)@.well_formed(),
    {
        let position = self.nodes.len();
        self.nodes.push(node);
        self.edges.push(Vec::new());
        assert(self@.nodes =~= old(self)@.nodes.push(node@));
        assert(self@.edges =~= old(self)@.edges.push(Seq::empty()));
        position
    }

    /// The peer at `node`.
    pub fn node(&self, node: usize) -> (peer: &Node)
        requires
            self@.has_peer(node as int),
        ensures
            peer@ == self@.nodes[node as int],
    {
        &self.nodes[node]
    }

    /// The peer at `node`, to be changed in place. This is for setting a
    /// cluster up: a change made this way is no step of the protocol, and
    /// may be any change at all.
    pub fn node_mut(&mut self, node: usize) -> (peer: &mut Node)
        requires
            old(self)@.has_peer(node as int),
        ensures
            peer@ == old(self)@.nodes[node as int],
            final(self)@ == old(self)@.with_peer_at(node as int, final(peer)@),
    {
        let peer = &mut self.nodes[node];
        proof {
            assert(after_borrow(self.nodes)@.map_values(|node: Node| node@)
                =~= old(self)@.nodes.update(node as int, final(peer)@));
        }
        peer
    }

    /// The positions that the peer at `node` is linked to.
    pub fn edges(&self, node: usize) -> (links: &Vec<usize>)
        requires
            self@.well_formed(),
            self@.has_peer(node as int),
        ensures
            links@ == self@.edges[node as int],
    {
        &self.edges[node]
    }
}

impl RaftNode for Cluster {
    fn on_timeout(&mut self, node: usize) -> (res: Result<(), Error>) {
        let res = match self.nodes[node].role {
            Role::Leader => Err(Error::AlreadyElected(self.nodes[node].id)),
            Role::Candidate => Ok(()),
            Role::Follower => {
                self.nodes[node].role = Role::Candidate;
                self.nodes[node].term = self.nodes[node].term + 1;
                let id = self.nodes[node].id;
                let term = self.nodes[node].term;
                let links = self.edges[node].len();
                let ghost start = old(self)@.nodes.update(
                    node as int,
                    old(self)@.candidate(node as int),
                );
                let ghost request = old(self)@.vote_request(node as int);
                assert(self@.nodes =~= start);
                assert(self@.edges =~= old(self)@.edges);

                // Ask each linked peer for its vote. The peer's own vote is
                // counted when the votes are held against the majority.
                let mut granted: usize = 0;
                let mut asked: usize = 0;
                while asked < links
                    invariant
                        old(self)@.well_formed(),
                        old(self)@.has_peer(node as int),
                        asked <= links == old(self)@.edges[node as int].len(),
                        granted <= asked,
                        self@.edges == old(self)@.edges,
                        self@.nodes == delivered(
                            start,
                            old(self)@.edges[node as int],
                            request,
                            asked as nat,
                        ),
                        granted == accepted(
                            start,
                            old(self)@.edges[node as int],
                            request,
                            asked as nat,
                        ),
                        self.nodes@.len() == old(self)@.nodes.len(),
                        self.edges@.len() == old(self)@.nodes.len(),
                        request == MessageView::RequestVotes(id, term as nat),
                    decreases links - asked,
                {
                    let ghost earlier = self@.nodes;
                    assert(self@.edges[node as int] == self.edges@[node as int]@);
                    let to = self.edges[node][asked];
                    assert(old(self)@.has_peer(to as int));
                    if send_msg(&mut self.nodes[to], Message::RequestVotes(id, term)).is_ok() {
                        granted = granted + 1;
                    }
                    asked = asked + 1;
                    assert(self@.nodes =~= earlier.update(
                        to as int,
                        earlier[to as int].after(request),
                    ));
                }
                assert(self@.nodes == old(self)@.polled(node as int));

                match self.nodes[node].current_leader {
                    Some(leader) => Err(Error::AlreadyElected(leader)),
                    None => {
                        if granted >= links / 2 + links % 2 {
                            self.nodes[node].role = Role::Leader;
                            self.nodes[node].current_leader = Some(self.nodes[node].id);
                            let id = self.nodes[node].id;
                            let term = self.nodes[node].term;
                            let ghost polled = old(self)@.polled(node as int);
                            let ghost leader = NodeView {
                                role: Role::Leader,
                                current_leader: Some(polled[node as int].id),
                                ..polled[node as int]
                            };
                            let ghost start = polled.update(node as int, leader);
                            let ghost news = old(self)@.announcement(node as int);
                            assert(self@.nodes =~= start);

                            // Tell each linked peer. What it answers does
                            // not matter.
                            let mut told: usize = 0;
                            while told < links
                                invariant
                                    old(self)@.well_formed(),
                                    old(self)@.has_peer(node as int),
                                    told <= links == old(self)@.edges[node as int].len(),
                                    self@.edges == old(self)@.edges,
                                    self@.nodes == delivered(
                                        start,
                                        old(self)@.edges[node as int],
                                        news,
                                        told as nat,
                                    ),
                                    self.nodes@.len() == old(self)@.nodes.len(),
                                    self.edges@.len() == old(self)@.nodes.len(),
                                    news == MessageView::ReplicateOrHeartbeat(
                                        id,
                                        new_leader_text(id, term as nat),
                                    ),
                                decreases links - told,
                            {
                                let ghost earlier = self@.nodes;
                                assert(self@.edges[node as int] == self.edges@[node as int]@);
                                let to = self.edges[node][told];
                                assert(old(self)@.has_peer(to as int));
                                let entry = new_leader(id, term);
                                let _ = send_msg(
                                    &mut self.nodes[to],
                                    Message::ReplicateOrHeartbeat(id, entry),
                                );
                                told = told + 1;
                                assert(self@.nodes =~= earlier.update(
                                    to as int,
                                    earlier[to as int].after(news),
                                ));
                            }
                        }
                        Ok(())
                    },
                }
            },
        };
        proof {
            assert forall|peer: int| old(self)@.has_peer(peer) implies (#[trigger] self@.nodes[peer]).term
                >= old(self)@.nodes[peer].term by {
                law_timeout_keeps_terms(old(self)@, node as int, peer);
            }
            if old(self)@.nodes[node as int].role == Role::Follower
                && old(self)@.nodes[node as int].current_leader is None {
                law_majority_decides(old(self)@, node as int);
            }
        }
        res
    }

    fn on_rcv_message(&mut self, node: usize, msg: Message) -> (res: Result<(), Error>) {
        let res = send_msg(&mut self.nodes[node], msg);
        assert(self@.nodes =~= old(self)@.nodes.update(
            node as int,
            old(self)@.nodes[node as int].after(msg@),
        ));
        res
    }

    fn connect_nodes(&mut self, node: usize, nodes: &[usize]) {
        let mut done: usize = 0;
        while done < nodes.len()
            invariant
                done <= nodes.len(),
                node < self.edges@.len() == old(self).edges@.len(),
                self.nodes == old(self).nodes,
                self@.edges == old(self)@.edges.update(
                    node as int,
                    old(self)@.edges[node as int] + nodes@.take(done as int),
                ),
            decreases nodes.len() - done,
        {
            let ghost earlier = self@.edges;
            self.edges[node].push(nodes[done]);
            done = done + 1;
            assert(nodes@.take(done as int) =~= nodes@.take(done - 1).push(nodes@[done - 1]));
            assert(self@.edges =~= earlier.update(
                node as int,
                earlier[node as int].push(nodes@[done - 1]),
            ));
        }
        assert(nodes@.take(done as int) =~= nodes@);
    }
}

} // verus!
