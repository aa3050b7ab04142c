//! A Raft consensus library: the replicated log (stable storage plus the
//! unstable tail), per-follower replication progress, configuration
//! checking and read-only request bookkeeping, each with a verified
//! contract.
use vstd::prelude::*;

pub mod errors;
pub mod eraft_demo;
pub mod progress;
pub mod fx;
pub mod log_unstable;
pub mod util;
pub mod storage;
pub mod raft_log;
pub mod read_only;
pub mod config;
pub mod prelude;
pub mod raft;

pub use eraft_demo as eraftpb;
pub use config::Config;
pub use errors::{Error, Result, StorageError};
pub use log_unstable::Unstable;
pub use progress::{CandidacyStatus, Inflights, Progress, ProgressSet, ProgressState};
pub use raft_log::{RaftLog, NO_LIMIT};
pub use read_only::{ReadOnlyOption, ReadState};
pub use storage::{RaftState, Storage};
pub use raft::{vote_resp_msg_type, SoftState, StateRole};

verus! {

/// The id that no node can have.
pub const INVALID_ID: u64 = 0;

/// The index that no log entry can have.
pub const INVALID_INDEX: u64 = 0;

} // verus!
