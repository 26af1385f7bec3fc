//! Manager core for a privileged eBPF-loading daemon.
//!
//! The crate owns the in-memory state of the daemon: the table of loaded
//! programs, the per-interface multi-attach dispatchers, and the registry of
//! shared map directories.  Every state transition (loading, attaching,
//! removing, rebuilding after a restart) is decided here and verified; the
//! surrounding process performs the kernel, store and filesystem effects the
//! decisions call for and feeds the outcomes back in.

pub mod dispatcher;
pub mod errors;
pub mod image;
pub mod manager;
pub mod program;
pub mod progmap;
pub mod store;
pub mod strutil;
pub mod types;
pub mod utils;
