//! The roles of a node and the reply types of vote requests.
use vstd::prelude::*;
use crate::eraft_demo::MessageType;

verus! {

/// The role a node plays.
#[derive(Debug, Clone, Copy, PartialEq, Eq, Structural)]
pub enum StateRole {
    /// Follows a leader; becomes a candidate when it hears from none.
    FOLLOWER,
    /// Asks for votes; becomes leader with a majority of them.
    Candidate,
    /// Makes every change to the cluster.
    Leader,
    /// Asks whether it could win before starting an election.
    PreCandidate,
}

impl Default for StateRole {
    fn default() -> (r: StateRole)
        ensures
            r == StateRole::FOLLOWER,
    {
        StateRole::FOLLOWER
    }
}

/// The state of a node that is not kept on stable storage.
#[derive(Debug, Clone, Copy, PartialEq, Eq, Structural)]
pub struct SoftState {
    pub leader_id: u64,
    pub raft_state: StateRole,
}

/// The type of the reply to a vote request of type `msg_type`.
pub fn vote_resp_msg_type(msg_type: MessageType) -> (r: MessageType)
    requires
        msg_type == MessageType::MsgRequestVote || msg_type == MessageType::MsgRequestPreVote,
    ensures
        r == if msg_type == MessageType::MsgRequestVote {
            MessageType::MsgRequestVoteResponse
        } else {
            MessageType::MsgRequestPreVoteResponse
        },
{
    match msg_type {
        MessageType::MsgRequestVote => MessageType::MsgRequestVoteResponse,
        _ => MessageType::MsgRequestPreVoteResponse,
    }
}

} // verus!
