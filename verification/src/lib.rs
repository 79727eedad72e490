//! Configuration and engine output of a Raft node.
//!
//! [`Config`] is what a node is configured with: it is checked by [`Config::validate`], and two of
//! its values are read from text, by [`parse_snapshot_policy`] and [`parse_bytes_with_unit`].
//!
//! [`EngineOutput`] is the queue of commands that the engine hands to the runtime. Commits of
//! contiguous log ranges are merged in it.

pub mod byte_size;
pub mod byte_size_laws;
pub mod command;
pub mod config;
pub mod engine_output;
pub mod engine_output_laws;
pub mod error;
pub mod log_id;
pub mod sm;
pub mod snapshot_policy;
pub mod text;
pub mod type_config;

pub use crate::byte_size::can_read_unit;
pub use crate::byte_size::parse_bytes_with_unit;
pub use crate::command::Command;
pub use crate::config::Config;
pub use crate::config::RuntimeConfig;
pub use crate::engine_output::EngineOutput;
pub use crate::error::ConfigError;
pub use crate::log_id::CommittedLeaderId;
pub use crate::log_id::LogId;
pub use crate::log_id::NodeId;
pub use crate::snapshot_policy::parse_snapshot_policy;
pub use crate::snapshot_policy::SnapshotPolicy;
pub use crate::type_config::AsyncRuntime;
pub use crate::type_config::RaftTypeConfig;
pub use crate::type_config::ThreadRngRuntime;
