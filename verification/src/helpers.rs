//! Helpers for moving messages between peers and for linking peers.

use crate::cluster::RaftNode;
use crate::election::ClusterView;
use crate::node::Node;
use crate::types::{Error, Message};
use vstd::prelude::*;

verus! {

/// Hands `msg` to `node` and returns the node's answer.
pub fn send_msg(node: &mut Node, msg: Message) -> (res: Result<(), Error>)
    ensures
        final(node)@ == old(node)@.after(msg@),
        res == old(node)@.reply(msg@),
{
    node.on_rcv_message(msg)
}

/// The positions among `nodes` that are not `node`, in the order in which
/// `nodes` has them.
pub open spec fn others(nodes: Seq<usize>, node: usize) -> Seq<usize> {
    nodes.filter(|other: usize| other != node)
}

/// The cluster after each of the first `count` of `nodes`, in turn, has been
/// linked to the others among `nodes`.
pub open spec fn linked_up(cluster: ClusterView, nodes: Seq<usize>, count: nat) -> ClusterView
    decreases count,
{
    if count == 0 {
        cluster
    } else {
        let node = nodes[count - 1];
        linked_up(cluster, nodes, (count - 1) as nat).with_links(node as int, others(nodes, node))
    }
}

/// Linking some peers to one another changes no peer and no links but
/// theirs. Where no position is given twice, each of the peers gets the
/// others, in the order given, after the links it had.
pub proof fn lemma_linked_up(cluster: ClusterView, nodes: Seq<usize>, count: nat)
    requires
        cluster.edges.len() == cluster.nodes.len(),
        count <= nodes.len(),
        forall|k: int| 0 <= k < nodes.len() ==> cluster.has_peer(#[trigger] nodes[k] as int),
    ensures
        linked_up(cluster, nodes, count).nodes == cluster.nodes,
        linked_up(cluster, nodes, count).edges.len() == cluster.edges.len(),
        forall|peer: int|
            cluster.has_peer(peer) && (forall|k: int| 0 <= k < count ==> nodes[k] != peer)
                ==> #[trigger] linked_up(cluster, nodes, count).edges[peer] == cluster.edges[peer],
        nodes.no_duplicates() ==> forall|k: int|
            0 <= k < count ==> #[trigger] linked_up(cluster, nodes, count).edges[nodes[k] as int]
                == cluster.edges[nodes[k] as int] + others(nodes, nodes[k]),
    decreases count,
{
    if count > 0 {
        lemma_linked_up(cluster, nodes, (count - 1) as nat);
        let earlier = linked_up(cluster, nodes, (count - 1) as nat);
        let node = nodes[count - 1];
        assert(cluster.has_peer(node as int));
        assert(linked_up(cluster, nodes, count) == earlier.with_links(
            node as int,
            others(nodes, node),
        ));
        if nodes.no_duplicates() {
            assert forall|k: int| 0 <= k < count implies #[trigger] linked_up(
                cluster,
                nodes,
                count,
            ).edges[nodes[k] as int] == cluster.edges[nodes[k] as int] + others(
                nodes,
                nodes[k],
            ) by {
                if k < count - 1 {
                    assert(nodes[k] != node);
                } else {
                    assert(forall|j: int| 0 <= j < count - 1 ==> nodes[j] != node);
                    assert(earlier.edges[node as int] == cluster.edges[node as int]);
                }
            }
        }
    }
}

/// Links each of `nodes` to all the others among them, so that each can
/// reach each. The links that were there stay, and no peer is changed.
///
/// Each of `nodes` must be the position of a peer of the cluster.
pub fn easy_connect<T: RaftNode>(cluster: &mut T, nodes: &[usize])
    requires
        old(cluster)@.well_formed(),
        forall|k: int| 0 <= k < nodes@.len() ==> old(cluster)@.has_peer(#[trigger] nodes@[k] as int),
    ensures
        final(cluster)@ == linked_up(old(cluster)@, nodes@, nodes@.len()),
        final(cluster)@.nodes == old(cluster)@.nodes,
        final(cluster)@.well_formed(),
        forall|peer: int|
            old(cluster)@.has_peer(peer) && (forall|k: int|
                0 <= k < nodes@.len() ==> nodes@[k] != peer)
                ==> #[trigger] final(cluster)@.edges[peer] == old(cluster)@.edges[peer],
        nodes@.no_duplicates() ==> forall|k: int|
            0 <= k < nodes@.len() ==> #[trigger] final(cluster)@.edges[nodes@[k] as int]
                == old(cluster)@.edges[nodes@[k] as int] + others(nodes@, nodes@[k]),
{
    proof {
        lemma_linked_up(old(cluster)@, nodes@, nodes@.len());
    }
    let mut turn: usize = 0;
    while turn < nodes.len()
        invariant
            turn <= nodes.len(),
            cluster@ == linked_up(old(cluster)@, nodes@, turn as nat),
            cluster@.nodes == old(cluster)@.nodes,
            cluster@.well_formed(),
            forall|k: int|
                0 <= k < nodes@.len() ==> old(cluster)@.has_peer(#[trigger] nodes@[k] as int),
        decreases nodes.len() - turn,
    {
        let node = nodes[turn];
        let mut rest: Vec<usize> = Vec::new();
        let mut seen: usize = 0;
        assert(nodes@.take(0) =~= Seq::empty());
        assert(rest@ == others(nodes@.take(0), node)) by {
            reveal(Seq::filter);
        }
        while seen < nodes.len()
            invariant
                seen <= nodes.len(),
                rest@ == others(nodes@.take(seen as int), node),
                forall|k: int|
                    0 <= k < rest@.len() ==> old(cluster)@.has_peer(#[trigger] rest@[k] as int)
                        && rest@[k] != node,
                forall|k: int|
                    0 <= k < nodes@.len() ==> old(cluster)@.has_peer(#[trigger] nodes@[k] as int),
            decreases nodes.len() - seen,
        {
            let other = nodes[seen];
            if other != node {
                rest.push(other);
            }
            seen = seen + 1;
            assert(rest@ == others(nodes@.take(seen as int), node)) by {
                reveal(Seq::filter);
                assert(nodes@.take(seen as int).drop_last() =~= nodes@.take(seen - 1));
            }
        }
        assert(nodes@.take(seen as int) =~= nodes@);
        cluster.connect_nodes(node, rest.as_slice());
        turn = turn + 1;
    }
}

} // verus!
