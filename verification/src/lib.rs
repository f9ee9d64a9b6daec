//! Leader election among a fixed set of linked peers, in the style of Raft.
//!
//! A [`Node`] holds what one peer knows: its role, its term, the leader it
//! believes in and its log. A [`Cluster`] holds the peers side by side, each
//! addressed by its position, together with the links between them. The
//! protocol itself is the trait [`RaftNode`]: a timeout makes a follower stand
//! for election, and a message is either a vote request or a leader's
//! heartbeat carrying a log entry.
//!
//! Every operation is stated over a mathematical model of the cluster
//! ([`ClusterView`]) and proved to follow it.

pub mod cluster;
pub mod election;
pub mod helpers;
pub mod laws;
pub mod node;
pub mod records;
pub mod types;

pub use cluster::{Cluster, RaftNode};
pub use election::ClusterView;
pub use helpers::{easy_connect, send_msg};
pub use node::{Node, NodeView};
pub use types::{Error, Id, LogEntry, Message, MessageView, Role, INVALID_ID};
