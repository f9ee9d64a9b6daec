//! What holds of the protocol whatever the cluster and whatever is sent.
//!
//! Each law is stated over the model of the cluster, so it holds of every
//! implementation of [`RaftNode`](crate::cluster::RaftNode).

use crate::election::{accepted, delivered, ClusterView};
use crate::node::NodeView;
use crate::types::{Error, Id, MessageView, Role};
use vstd::prelude::*;

verus! {

/// Handing a message to some peers keeps the number of peers, never lowers
/// a term, changes no identity, and leaves alone every peer that the
/// message was not handed to.
pub proof fn lemma_delivered(
    nodes: Seq<NodeView>,
    links: Seq<usize>,
    msg: MessageView,
    count: nat,
)
    requires
        count <= links.len(),
        forall|k: int| 0 <= k < links.len() ==> #[trigger] links[k] < nodes.len(),
    ensures
        delivered(nodes, links, msg, count).len() == nodes.len(),
        accepted(nodes, links, msg, count) <= count,
        forall|peer: int|
            0 <= peer < nodes.len() ==> (#[trigger] delivered(nodes, links, msg, count)[peer]).term
                >= nodes[peer].term,
        forall|peer: int|
            0 <= peer < nodes.len() ==> (#[trigger] delivered(nodes, links, msg, count)[peer]).id
                == nodes[peer].id,
        forall|peer: int|
            0 <= peer < nodes.len() && (forall|k: int| 0 <= k < count ==> links[k] != peer)
                ==> #[trigger] delivered(nodes, links, msg, count)[peer] == nodes[peer],
    decreases count,
{
    if count > 0 {
        lemma_delivered(nodes, links, msg, (count - 1) as nat);
        let earlier = delivered(nodes, links, msg, (count - 1) as nat);
        let to = links[count - 1] as int;
        assert(delivered(nodes, links, msg, count) == earlier.update(to, earlier[to].after(msg)));
    }
}

/// A peer that stands for election is not changed by the votes it asks for:
/// once it has asked, it is the candidate it became.
pub proof fn lemma_candidate_after_poll(cluster: ClusterView, node: int)
    requires
        cluster.well_formed(),
        cluster.has_peer(node),
    ensures
        cluster.polled(node).len() == cluster.nodes.len(),
        cluster.polled(node)[node] == cluster.candidate(node),
{
    let start = cluster.nodes.update(node, cluster.candidate(node));
    let links = cluster.edges[node];
    assert(cluster.may_link(node, links));
    lemma_delivered(start, links, cluster.vote_request(node), links.len());
}

/// The announcement of a winner changes neither the winner nor the number
/// of peers, lowers no term and changes no identity.
pub proof fn lemma_winner_after_announcement(cluster: ClusterView, node: int)
    requires
        cluster.well_formed(),
        cluster.has_peer(node),
        cluster.nodes[node].role == Role::Follower,
        cluster.wins(node),
    ensures
        cluster.after_timeout(node).nodes.len() == cluster.nodes.len(),
        cluster.after_timeout(node).nodes[node] == (NodeView {
            role: Role::Leader,
            current_leader: Some(cluster.nodes[node].id),
            ..cluster.candidate(node)
        }),
        forall|peer: int|
            cluster.has_peer(peer) ==> (#[trigger] cluster.after_timeout(node).nodes[peer]).term
                >= cluster.polled(node)[peer].term,
        forall|peer: int|
            cluster.has_peer(peer) ==> (#[trigger] cluster.after_timeout(node).nodes[peer]).id
                == cluster.polled(node)[peer].id,
{
    let links = cluster.edges[node];
    assert(cluster.may_link(node, links));
    lemma_candidate_after_poll(cluster, node);
    let polled = cluster.polled(node);
    let leader = NodeView {
        role: Role::Leader,
        current_leader: Some(polled[node].id),
        ..polled[node]
    };
    lemma_delivered(polled.update(node, leader), links, cluster.announcement(node), links.len());
}

/// An election leaves the links as they are and the cluster well formed.
pub proof fn lemma_timeout_keeps_shape(cluster: ClusterView, node: int)
    requires
        cluster.well_formed(),
        cluster.has_peer(node),
    ensures
        cluster.after_timeout(node).edges == cluster.edges,
        cluster.after_timeout(node).nodes.len() == cluster.nodes.len(),
        cluster.after_timeout(node).well_formed(),
{
    let links = cluster.edges[node];
    assert(cluster.may_link(node, links));
    lemma_candidate_after_poll(cluster, node);
    if cluster.nodes[node].role == Role::Follower && cluster.wins(node) {
        lemma_winner_after_announcement(cluster, node);
    }
    let after = cluster.after_timeout(node);
    assert forall|peer: int| 0 <= peer < after.edges.len() implies after.may_link(
        peer,
        #[trigger] after.edges[peer],
    ) by {
        assert(cluster.may_link(peer, cluster.edges[peer]));
    }
}

/// A follower that knows of no leader and stands for election becomes
/// leader if and only if the votes it receives, its own and one for each
/// request that was accepted, are more than half of the cluster that it
/// forms with the peers it is linked to.
pub proof fn law_majority_decides(cluster: ClusterView, node: int)
    requires
        cluster.well_formed(),
        cluster.has_peer(node),
        cluster.nodes[node].role == Role::Follower,
        cluster.nodes[node].current_leader is None,
    ensures
        cluster.after_timeout(node).nodes[node].role == Role::Leader
            <==> cluster.votes_received(node) >= (cluster.edges[node].len() + 1) / 2 + 1,
        cluster.votes_received(node) <= cluster.edges[node].len() + 1,
{
    let links = cluster.edges[node];
    assert(cluster.may_link(node, links));
    lemma_candidate_after_poll(cluster, node);
    let start = cluster.nodes.update(node, cluster.candidate(node));
    lemma_delivered(start, links, cluster.vote_request(node), links.len());
    if cluster.nodes[node].role == Role::Follower && cluster.wins(node) {
        lemma_winner_after_announcement(cluster, node);
    }
}

/// A peer that becomes leader by a timeout does so in the term after the
/// one it had, and takes itself for leader: no peer is elected twice in one
/// term.
pub proof fn law_elected_in_a_new_term(cluster: ClusterView, node: int)
    requires
        cluster.well_formed(),
        cluster.has_peer(node),
        cluster.nodes[node].role != Role::Leader,
        cluster.after_timeout(node).nodes[node].role == Role::Leader,
    ensures
        cluster.nodes[node].role == Role::Follower,
        cluster.after_timeout(node).nodes[node].term == cluster.nodes[node].term + 1,
        cluster.after_timeout(node).nodes[node].current_leader == Some(cluster.nodes[node].id),
        cluster.timeout_result(node) is Ok,
{
    let links = cluster.edges[node];
    assert(cluster.may_link(node, links));
    lemma_candidate_after_poll(cluster, node);
    if cluster.nodes[node].role == Role::Follower && cluster.wins(node) {
        lemma_winner_after_announcement(cluster, node);
    }
}

/// A follower that knows of a leader when it times out does not become
/// leader, however many votes it receives: it refuses, naming that leader.
pub proof fn law_known_leader_stands(cluster: ClusterView, node: int, leader: Id)
    requires
        cluster.well_formed(),
        cluster.has_peer(node),
        cluster.nodes[node].role == Role::Follower,
        cluster.nodes[node].current_leader == Some(leader),
    ensures
        cluster.timeout_result(node) == Err::<(), Error>(Error::AlreadyElected(leader)),
        cluster.after_timeout(node).nodes[node] == cluster.candidate(node),
{
    lemma_candidate_after_poll(cluster, node);
}

/// No message lowers the term of the peer that handles it.
pub proof fn law_message_keeps_term(peer: NodeView, msg: MessageView)
    ensures
        peer.after(msg).term >= peer.term,
        peer.after(msg).id == peer.id,
{
}

/// No timeout lowers the term of any peer of the cluster.
pub proof fn law_timeout_keeps_terms(cluster: ClusterView, node: int, peer: int)
    requires
        cluster.well_formed(),
        cluster.has_peer(node),
        cluster.has_peer(peer),
    ensures
        cluster.after_timeout(node).nodes[peer].term >= cluster.nodes[peer].term,
        cluster.after_timeout(node).nodes[peer].id == cluster.nodes[peer].id,
{
    let links = cluster.edges[node];
    assert(cluster.may_link(node, links));
    lemma_candidate_after_poll(cluster, node);
    let start = cluster.nodes.update(node, cluster.candidate(node));
    lemma_delivered(start, links, cluster.vote_request(node), links.len());
    if cluster.nodes[node].role == Role::Follower && cluster.wins(node) {
        lemma_winner_after_announcement(cluster, node);
    }
    assert(start[peer].term >= cluster.nodes[peer].term);
    assert(cluster.polled(node)[peer].term >= start[peer].term);
}

/// A vote request from a term below the receiver's is refused with
/// `InvalidTerm`, and leaves the receiver's role, term and leader as they
/// were.
pub proof fn law_stale_request_refused(peer: NodeView, sender: Id, term: nat)
    requires
        term < peer.term,
    ensures
        peer.reply(MessageView::RequestVotes(sender, term)) == Err::<(), Error>(Error::InvalidTerm),
        peer.after(MessageView::RequestVotes(sender, term)).role == peer.role,
        peer.after(MessageView::RequestVotes(sender, term)).term == peer.term,
        peer.after(MessageView::RequestVotes(sender, term)).current_leader == peer.current_leader,
{
}

/// Whatever its role, a peer that receives a heartbeat accepts it, becomes
/// a follower and takes the sender for leader.
pub proof fn law_heartbeat_steps_down(peer: NodeView, sender: Id, entry: Seq<char>)
    ensures
        peer.reply(MessageView::ReplicateOrHeartbeat(sender, entry)) is Ok,
        peer.after(MessageView::ReplicateOrHeartbeat(sender, entry)).role == Role::Follower,
        peer.after(MessageView::ReplicateOrHeartbeat(sender, entry)).current_leader == Some(sender),
        peer.after(MessageView::ReplicateOrHeartbeat(sender, entry)).logs == peer.logs.push(entry),
{
}

/// A leader that times out refuses, naming itself, and nothing changes.
pub proof fn law_leader_is_not_elected_again(cluster: ClusterView, node: int)
    requires
        cluster.has_peer(node),
        cluster.nodes[node].role == Role::Leader,
    ensures
        cluster.timeout_result(node) == Err::<(), Error>(
            Error::AlreadyElected(cluster.nodes[node].id),
        ),
        cluster.after_timeout(node) == cluster,
{
}

/// No message removes or changes an entry of the log of the peer that
/// handles it.
pub proof fn law_log_only_grows(peer: NodeView, msg: MessageView)
    ensures
        peer.logs.is_prefix_of(peer.after(msg).logs),
{
}

/// One operation of the protocol on a cluster.
pub enum Operation {
    /// The peer at this position times out.
    Timeout(int),
    /// The peer at this position is handed this message.
    Deliver(int, MessageView),
    /// The peer at this position is linked to these positions.
    Connect(int, Seq<usize>),
}

impl ClusterView {
    /// Whether `op` may be applied: it names a peer of the cluster, and
    /// links only to other peers of the cluster.
    pub open spec fn permits(self, op: Operation) -> bool {
        match op {
            Operation::Timeout(node) => self.has_peer(node),
            Operation::Deliver(node, _) => self.has_peer(node),
            Operation::Connect(node, links) => self.has_peer(node) && self.may_link(node, links),
        }
    }

    /// The cluster after `op`.
    pub open spec fn apply(self, op: Operation) -> ClusterView {
        match op {
            Operation::Timeout(node) => self.after_timeout(node),
            Operation::Deliver(node, msg) => self.after_message(node, msg),
            Operation::Connect(node, links) => self.with_links(node, links),
        }
    }

    /// The cluster after each of `ops` in turn.
    pub open spec fn run(self, ops: Seq<Operation>) -> ClusterView
        decreases ops.len(),
    {
        if ops.len() == 0 {
            self
        } else {
            self.run(ops.drop_last()).apply(ops.last())
        }
    }

    /// Whether each of `ops` may be applied when its turn comes.
    pub open spec fn permits_all(self, ops: Seq<Operation>) -> bool
        decreases ops.len(),
    {
        ops.len() == 0 || (self.permits_all(ops.drop_last()) && self.run(ops.drop_last()).permits(
            ops.last(),
        ))
    }
}

/// Whatever operations are applied to a cluster, in whatever order, the
/// cluster stays well formed, no peer joins or leaves, no peer changes its
/// identity, and no peer's term is ever lower than it was.
pub proof fn law_terms_never_decrease(cluster: ClusterView, ops: Seq<Operation>, peer: int)
    requires
        cluster.well_formed(),
        cluster.permits_all(ops),
        cluster.has_peer(peer),
    ensures
        cluster.run(ops).well_formed(),
        cluster.run(ops).nodes.len() == cluster.nodes.len(),
        cluster.run(ops).nodes[peer].id == cluster.nodes[peer].id,
        cluster.run(ops).nodes[peer].term >= cluster.nodes[peer].term,
    decreases ops.len(),
{
    if ops.len() > 0 {
        law_terms_never_decrease(cluster, ops.drop_last(), peer);
        let earlier = cluster.run(ops.drop_last());
        match ops.last() {
            Operation::Timeout(node) => {
                lemma_timeout_keeps_shape(earlier, node);
                law_timeout_keeps_terms(earlier, node, peer);
            },
            Operation::Deliver(node, msg) => {
                let after = earlier.after_message(node, msg);
                assert forall|other: int| 0 <= other < after.edges.len() implies after.may_link(
                    other,
                    #[trigger] after.edges[other],
                ) by {
                    assert(earlier.may_link(other, earlier.edges[other]));
                }
            },
            Operation::Connect(node, links) => {
                lemma_links_keep_shape(earlier, node, links);
            },
        }
    }
}

/// Linking a peer to other peers of the cluster leaves the cluster well
/// formed.
pub proof fn lemma_links_keep_shape(cluster: ClusterView, node: int, links: Seq<usize>)
    requires
        cluster.well_formed(),
        cluster.has_peer(node),
        cluster.may_link(node, links),
    ensures
        cluster.with_links(node, links).well_formed(),
{
    let after = cluster.with_links(node, links);
    assert forall|other: int| 0 <= other < after.edges.len() implies after.may_link(
        other,
        #[trigger] after.edges[other],
    ) by {
        assert(cluster.may_link(other, cluster.edges[other]));
        if other == node {
            let joined = cluster.edges[node] + links;
            assert forall|k: int| 0 <= k < joined.len() implies after.has_peer(
                #[trigger] joined[k] as int,
            ) && joined[k] != node by {
                if k < cluster.edges[node].len() {
                    assert(joined[k] == cluster.edges[node][k]);
                } else {
                    assert(joined[k] == links[k - cluster.edges[node].len()]);
                }
            }
        }
    }
}

} // verus!
