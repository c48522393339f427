//! A Raft-style replicated log with ternary entry status.
//!
//! Every entry of the log has one of three states:
//! - `+1` = committed
//! - `0`  = appended
//! - `-1` = conflicting
//!
//! The log resolves conflicts by term, advances its commit index by majority
//! quorum, can be compacted, and tracks the election state of its node.
//!
//! [`entry`] holds the entries, [`model`] the mathematical state of a log and
//! what each operation does to it, [`log`] the executable log, [`effects`] what
//! every operation changes and leaves alone, and [`laws`] the properties that
//! hold across operations.

pub mod effects;
pub mod entry;
pub mod laws;
pub mod log;
pub mod model;
mod quorum;

pub use entry::{EntryStatus, LogEntry};
pub use log::ReplicatedLog;
pub use model::NodeState;
