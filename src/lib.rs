//! Decision logic of a process-level shim that routes file-path operations
//! under a fixed mount prefix to a remote, capability-based filesystem.
//!
//! The modules here hold what can be decided from plain values: where a path
//! goes, which remote calls a path walk issues, which descriptors are virtual,
//! how outcomes become a return value and an error code, and when the
//! event-loop bridge may be entered.

pub mod capnp_file;
pub mod inject;
pub mod path_router;
pub mod result;
pub mod vfs;
pub mod walk;
