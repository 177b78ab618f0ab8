//! A node: what it is configured with, what it holds, and how it answers.

pub mod announce;
pub mod config;
pub mod event_laws;
pub mod laws;
pub mod reader;
pub mod schedule;
pub mod setup_laws;
pub mod state;

pub use self::announce::Announcements;
pub use self::config::{
    MinerConfig, NetworkConfig, NodeConfig, PeerAddr, StorageConfig, SyncConfig,
};
pub use self::reader::{read_limited_line_from, IncomingReadError, LineReader, ReadStep};
pub use self::schedule::{entropy_from, startup_command, LoopAction, NodeCommand, Schedule};
pub use self::state::{
    block_id, BlockFate, BlockSource, IncomingAction, NodeCounters, NodeSnapshot, NodeState,
    StartError, SyncStep,
};
