//! The vocabulary of the protocol: identities, roles, log entries, messages
//! and errors.

use vstd::prelude::*;

verus! {

/// The identity that stands for "no valid voter": a peer that carries it
/// never grants a vote.
pub const INVALID_ID: u64 = 0;

/// The identity of a peer.
#[derive(Debug, Copy, Clone, PartialEq, Eq, Structural)]
pub struct Id(pub u64);

/// The role of a peer. A peer has exactly one role at a time.
#[derive(Debug, Copy, Clone, PartialEq, Eq, Structural)]
pub enum Role {
    Follower,
    Leader,
    Candidate,
}

/// One record of a peer's log: a piece of text.
#[derive(Debug, Clone, PartialEq)]
pub struct LogEntry(pub String);

impl View for LogEntry {
    type V = Seq<char>;

    open spec fn view(&self) -> Seq<char> {
        self.0@
    }
}

/// A message from one peer to another.
pub enum Message {
    /// Sent by a leader: keeps the receiver from timing out and hands it a
    /// log entry.
    ReplicateOrHeartbeat(Id, LogEntry),
    /// Sent by a candidate: asks for a vote in the given term.
    RequestVotes(Id, u64),
}

/// A message as the model sees it: the entry by its text, the term as a
/// natural number.
pub enum MessageView {
    ReplicateOrHeartbeat(Id, Seq<char>),
    RequestVotes(Id, nat),
}

impl View for Message {
    type V = MessageView;

    open spec fn view(&self) -> MessageView {
        match *self {
            Message::ReplicateOrHeartbeat(sender, entry) => MessageView::ReplicateOrHeartbeat(
                sender,
                entry@,
            ),
            Message::RequestVotes(sender, term) => MessageView::RequestVotes(sender, term as nat),
        }
    }
}

/// Why an operation of the protocol was refused.
#[derive(Debug, Copy, Clone, PartialEq, Eq, Structural)]
pub enum Error {
    /// The vote request carries term zero, which is no election round.
    Offline,
    /// The vote request carries a term below the receiver's.
    InvalidTerm,
    /// The peer with this identity is leader already.
    AlreadyElected(Id),
    /// The receiver cannot grant its vote.
    NoQuorum,
}

} // verus!
