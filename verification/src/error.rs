//! Error kinds raised by the storage core.

use vstd::prelude::*;

verus! {

/// Every failure the storage core can surface to its caller.
#[derive(Clone, Copy, Debug, PartialEq, Eq, Structural)]
pub enum BustubxError {
    /// Disk read/write failure or short read (here: access to an
    /// unallocated page of the page store).
    Io,
    /// Every buffer-pool frame is pinned; the caller must retry or abort.
    BufferPoolExhausted,
    /// A tuple exceeds a fresh page's capacity; never recoverable by retry.
    TupleTooLarge,
    /// Decoded a page of the wrong kind (leaf vs internal).
    PageTypeMismatch,
    /// Slot out of range on a decoded page.
    InvalidRid,
    /// An insert found the key already present in the index.
    DuplicateKey,
    /// Invariant violation: indicates corruption or a logic bug.
    Internal,
}

pub type BustubxResult<T> = Result<T, BustubxError>;

} // verus!
