//! A local-first file synchronization engine.
//!
//! A client holds a replica of a hierarchical file tree (documents and
//! folders) that can be edited offline and later reconciled with a server
//! replica. The heart of the crate is the reconciliation engine: it detects
//! divergence between the local working state, the last-synced base, and the
//! current server state, orders and executes the work needed to converge,
//! resolves concurrent renames, moves, edits and deletes deterministically,
//! and advances a sync watermark only once a pass has fully succeeded.

pub mod client;
pub mod convert;
pub mod diffmerge;
pub mod errors;
pub mod exec;
pub mod idmap;
pub mod merge;
pub mod names;
pub mod orchestrator;
pub mod server;
pub mod types;
pub mod work;

pub use types::FileMetadata;
pub use types::FileType;
pub use types::LocalChange;
