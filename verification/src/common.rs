//! Shared identifiers and sizes: page ids, record ids, tuple metadata.

use vstd::prelude::*;

verus! {

/// Unsigned 32-bit page identifier; pages are the unit of disk I/O.
pub type PageId = u32;

/// Sentinel page id meaning "no next/child page".
pub const INVALID_PAGE_ID: PageId = 0xFFFF_FFFF;

/// Fixed page size in bytes: the unit of I/O and of buffer-pool residence.
pub const BUSTUBX_PAGE_SIZE: usize = 4096;

/// Record id: locates a tuple version as (page, slot) inside a table heap.
#[derive(Clone, Copy, Debug, PartialEq, Eq, Hash, Structural)]
pub struct Rid {
    pub page_id: PageId,
    pub slot_num: u32,
}

impl Rid {
    pub fn new(page_id: PageId, slot_num: u32) -> (r: Rid)
        ensures
            r.page_id == page_id,
            r.slot_num == slot_num,
    {
        Rid { page_id, slot_num }
    }
}

/// Per-tuple metadata kept in the slot directory: transaction ids of the
/// inserting and deleting transactions, and the deletion mark.
#[derive(Clone, Copy, Debug, PartialEq, Eq, Structural)]
pub struct TupleMeta {
    pub insert_txn_id: u32,
    pub delete_txn_id: u32,
    pub is_deleted: bool,
}

} // verus!
