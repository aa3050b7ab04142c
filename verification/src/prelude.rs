//! The items that most users of the library need.
pub use crate::eraft_demo::{ConfChangeType, ConfState, Entry, EntryType, HardState, Message, MessageType, Snapshot, SnapshotMetadata};
pub use crate::config::Config;
pub use crate::storage::{MemStorage, RaftState, Storage};
pub use crate::progress::Progress;
pub use crate::read_only::{ReadOnlyOption, ReadState};
