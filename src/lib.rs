//! Multi-process locking and copy-on-write commits over a directory tree.
//!
//! Paths are handled as byte strings split into components. Every decision is
//! made here: which locks a read, a write or a transaction takes and in what
//! order, the names of the lock, staging and backup entries, the steps of each
//! commit, and what the garbage sweep removes. Performing the file system
//! operations is left to the caller.

pub mod client;
pub mod cow;
pub mod gc;
pub mod lock;
pub mod order;
pub mod path;
pub mod plan;
pub mod protocol;
pub mod sidecar;
pub mod tx;

pub use client::Client;
pub use cow::{
    dir_cow, dir_cow_atomic, file_cow, AtomicCommit, CommitAction, CowAtomicDirGaurd, CowDirGaurd,
    CowFileGaurd, DirCommit, TargetState,
};
pub use path::{strip_trailing_slash, FsPath, PathError};
pub use plan::{TxEntry, TxEntryKind};
pub use sidecar::{create_backup_ext, puuid};
pub use tx::{Tx, TxBuilder};
