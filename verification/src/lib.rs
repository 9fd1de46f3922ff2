//! Selective, git-aware synchronization of a directory tree between two
//! machines: path resolution across the two filesystem namespaces,
//! exclusion sets computed from version-control state, depth-first
//! traversal, concurrency-bounded transfer scheduling, write-before-chmod
//! file transfer plans, and the git-status-driven incremental update.
//! Everything here is decision logic over plain values; the surrounding
//! program performs the I/O these decisions call for.

pub mod connection;
pub mod exclusion;
pub mod gitsync;
pub mod path;
pub mod plan;
pub mod sched;
pub mod transfer;
pub mod tree;
