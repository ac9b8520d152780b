//! Error taxonomy of the tool.
//!
//! Every failure is fatal to the operation that raised it: no retry and no
//! partial success anywhere. The store and repository layers around this
//! crate construct the I/O-related variants; the lookup logic here raises
//! `NotFoundError` itself.

use vstd::prelude::*;

verus! {

/// One error kind per failure class of the tool.
#[derive(Clone, Copy, Debug, PartialEq, Eq, Structural)]
pub enum ToolError {
    /// A filesystem read, write or create failed (store file, directories).
    IoError,
    /// The persisted store file exists but cannot be parsed.
    StoreCorruptError,
    /// A lookup key is absent from the store.
    NotFoundError,
    /// The version-control collaborator failed (no repository, identity
    /// resolution, commit write).
    RepositoryError,
}

} // verus!
