//! Error taxonomy of the access layer.
//!
//! Every surfaced failure keeps the originating path or file id, so a
//! caller can correlate it with store-side logs.  Cache population is
//! best-effort and never reports through this type.

use vstd::prelude::*;
use crate::location::FileId;

verus! {

/// A failure surfaced by the storage access layer.
#[derive(Debug)]
pub enum Error {
    /// The store rejected an operation on `path` (here: the object was not
    /// found; a remote backend adds connectivity and permission failures).
    Store { path: Vec<u8> },
    /// Deleting the SST file of `file_id` failed; the index file, if any,
    /// was not touched.
    DeleteSst { file_id: FileId },
    /// Deleting the index file of `file_id` failed after its SST file was
    /// already deleted.
    DeleteIndex { file_id: FileId },
}

impl Error {
    /// True when `self` is a store failure on `path`.
    pub open spec fn is_store_on(&self, path: Seq<u8>) -> bool {
        match *self {
            Error::Store { path: p } => p@ == path,
            _ => false,
        }
    }

    /// True when `self` reports a failed SST delete for `file_id`.
    pub open spec fn is_delete_sst_of(&self, file_id: FileId) -> bool {
        match *self {
            Error::DeleteSst { file_id: f } => f == file_id,
            _ => false,
        }
    }

    /// True when `self` reports a failed index delete for `file_id`.
    pub open spec fn is_delete_index_of(&self, file_id: FileId) -> bool {
        match *self {
            Error::DeleteIndex { file_id: f } => f == file_id,
            _ => false,
        }
    }
}

} // verus!
