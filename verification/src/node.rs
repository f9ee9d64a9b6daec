//! One peer: what it knows, and how it answers a message.

use crate::records::{
    stale_request, stale_request_text, vote_granted, vote_granted_text, vote_rejected,
    vote_rejected_text,
};
use crate::types::{Error, Id, LogEntry, Message, MessageView, Role, INVALID_ID};
use vstd::prelude::*;

verus! {

/// The state of one peer.
///
/// The fields are open, so that a peer can be set up in any state. The
/// protocol changes them only through [`Node::on_rcv_message`] and through
/// a timeout of the cluster that holds the peer.
#[derive(Debug)]
pub struct Node {
    /// The peer's identity.
    pub id: Id,
    /// The peer's role.
    pub role: Role,
    /// The latest term the peer has seen.
    pub term: u64,
    /// The peer that this one believes to be leader, if any.
    pub current_leader: Option<Id>,
    /// Flips each time the peer hears from a leader.
    pub timeout_state: bool,
    /// The peer's log: entries are only ever appended.
    pub logs: Vec<LogEntry>,
}

/// A peer as the model sees it.
pub struct NodeView {
    pub id: Id,
    pub role: Role,
    pub term: nat,
    pub current_leader: Option<Id>,
    pub timeout_state: bool,
    pub logs: Seq<Seq<char>>,
}

impl View for Node {
    type V = NodeView;

    open spec fn view(&self) -> NodeView {
        NodeView {
            id: self.id,
            role: self.role,
            term: self.term as nat,
            current_leader: self.current_leader,
            timeout_state: self.timeout_state,
            logs: self.logs@.map_values(|entry: LogEntry| entry@),
        }
    }
}

impl NodeView {
    /// A peer that has just been created: a follower in term zero that knows
    /// no leader and has logged nothing.
    pub open spec fn fresh(id: Id) -> NodeView {
        NodeView {
            id,
            role: Role::Follower,
            term: 0,
            current_leader: None,
            timeout_state: false,
            logs: Seq::empty(),
        }
    }

    /// Whether the peer may vote at all.
    pub open spec fn can_vote(self) -> bool {
        self.id.0 != INVALID_ID
    }

    /// Whether `msg` asks for a vote in a term below the peer's own.
    pub open spec fn is_stale(self, msg: MessageView) -> bool {
        msg is RequestVotes && msg->RequestVotes_1 < self.term
    }

    /// The peer with one more entry at the end of its log.
    pub open spec fn logging(self, entry: Seq<char>) -> NodeView {
        NodeView { logs: self.logs.push(entry), ..self }
    }

    /// The peer after it has handled `msg`.
    ///
    /// A heartbeat is taken whatever its sender's term: the peer flips its
    /// timeout flag, appends the entry, takes the sender for leader and
    /// becomes a follower. A vote request from a higher term moves the peer
    /// to that term, and the peer notes whether it voted. One from a lower
    /// term is noted and changes nothing else. One from the peer's own term
    /// changes nothing.
    pub open spec fn after(self, msg: MessageView) -> NodeView {
        match msg {
            MessageView::ReplicateOrHeartbeat(sender, entry) => NodeView {
                timeout_state: !self.timeout_state,
                logs: self.logs.push(entry),
                current_leader: Some(sender),
                role: Role::Follower,
                ..self
            },
            MessageView::RequestVotes(sender, term) => if term > self.term {
                if self.can_vote() {
                    NodeView { term, ..self }.logging(vote_granted_text(sender, term))
                } else {
                    NodeView { term, ..self }.logging(vote_rejected_text(sender, term))
                }
            } else if term < self.term {
                self.logging(stale_request_text(sender, self.term, term))
            } else {
                self
            },
        }
    }

    /// The peer's answer to `msg`.
    ///
    /// A heartbeat is always accepted. A vote request from a higher term is
    /// accepted if the peer may vote and refused with `NoQuorum` if not; one
    /// from a lower term is refused with `InvalidTerm`; one from the peer's
    /// own term is refused with `Offline` in term zero and accepted in any
    /// other.
    pub open spec fn reply(self, msg: MessageView) -> Result<(), Error> {
        match msg {
            MessageView::ReplicateOrHeartbeat(_, _) => Ok(()),
            MessageView::RequestVotes(_, term) => if term > self.term {
                if self.can_vote() {
                    Ok(())
                } else {
                    Err(Error::NoQuorum)
                }
            } else if term < self.term {
                Err(Error::InvalidTerm)
            } else if term == 0 {
                Err(Error::Offline)
            } else {
                Ok(())
            },
        }
    }
}

impl Node {
    /// A new peer with the given identity.
    pub fn new(id: Id) -> (node: Node)
        ensures
            node@ == NodeView::fresh(id),
    {
        let node = Node {
            id,
            role: Role::Follower,
            current_leader: None,
            term: 0,
            timeout_state: false,
            logs: Vec::new(),
        };
        assert(node@.logs =~= Seq::empty());
        node
    }

    /// Handles one message and says whether it was accepted.
    pub fn on_rcv_message(&mut self, msg: Message) -> (res: Result<(), Error>)
        ensures
            final(self)@ == old(self)@.after(msg@),
            res == old(self)@.reply(msg@),
            final(self)@.id == old(self)@.id,
            final(self)@.term >= old(self)@.term,
            old(self)@.logs.is_prefix_of(final(self)@.logs),
            msg@ is ReplicateOrHeartbeat ==> res is Ok,
            msg@ is ReplicateOrHeartbeat ==> final(self)@.role == Role::Follower,
            msg@ is ReplicateOrHeartbeat ==> final(self)@.current_leader == Some(
                msg@->ReplicateOrHeartbeat_0,
            ),
            old(self)@.is_stale(msg@) ==> res == Err::<(), Error>(Error::InvalidTerm),
            old(self)@.is_stale(msg@) ==> final(self)@.role == old(self)@.role,
            old(self)@.is_stale(msg@) ==> final(self)@.term == old(self)@.term,
            old(self)@.is_stale(msg@) ==> final(self)@.current_leader == old(self)@.current_leader,
    {
        match msg {
            Message::ReplicateOrHeartbeat(sender_id, log_entry) => {
                self.timeout_state = !self.timeout_state;
                self.logs.push(log_entry);
                self.current_leader = Some(sender_id);
                self.role = Role::Follower;
                assert(self@.logs =~= old(self)@.logs.push(log_entry@));
                Ok(())
            },
            Message::RequestVotes(sender_id, sender_term) => {
                if sender_term > self.term {
                    self.term = sender_term;
                    let can_vote = self.id.0 != INVALID_ID;
                    if can_vote {
                        self.logs.push(vote_granted(sender_id, sender_term));
                        assert(self@.logs =~= old(self)@.logs.push(
                            vote_granted_text(sender_id, sender_term as nat),
                        ));
                        Ok(())
                    } else {
                        self.logs.push(vote_rejected(sender_id, sender_term));
                        assert(self@.logs =~= old(self)@.logs.push(
                            vote_rejected_text(sender_id, sender_term as nat),
                        ));
                        Err(Error::NoQuorum)
                    }
                } else if sender_term < self.term {
                    self.logs.push(stale_request(sender_id, self.term, sender_term));
                    assert(self@.logs =~= old(self)@.logs.push(
                        stale_request_text(sender_id, old(self).term as nat, sender_term as nat),
                    ));
                    Err(Error::InvalidTerm)
                } else if sender_term == 0 {
                    Err(Error::Offline)
                } else {
                    Ok(())
                }
            },
        }
    }
}

} // verus!
