//! The page store backing the buffer pool: fixed-size pages addressed by
//! page id, allocated sequentially and never reclaimed. It is the
//! in-process stand-in for the single backing file; loading it from and
//! saving it to real storage is the caller's concern.

use vstd::prelude::*;
use vstd::pervasive::VecAdditionalExecFns;

use crate::common::{PageId, BUSTUBX_PAGE_SIZE};
use crate::error::{BustubxError, BustubxResult};

verus! {

/// A growable array of pages; page `pid` lives at index `pid`.
#[derive(Debug)]
pub struct DiskManager {
    pub pages: Vec<Vec<u8>>,
}

impl DiskManager {
    /// Every page is exactly one page-size buffer, and ids stay below the
    /// sentinel.
    pub open spec fn wf(&self) -> bool {
        &&& self.pages@.len() < crate::common::INVALID_PAGE_ID
        &&& forall|i: int|
            0 <= i < self.pages@.len() ==> (#[trigger] self.pages@[i])@.len()
                == BUSTUBX_PAGE_SIZE
    }

    pub fn new() -> (r: DiskManager)
        ensures
            r.wf(),
            r.pages@.len() == 0,
    {
        DiskManager { pages: Vec::new() }
    }

    /// Number of pages allocated so far; also the next id to hand out.
    pub fn page_count(&self) -> (r: usize)
        ensures
            r == self.pages@.len(),
    {
        self.pages.len()
    }

    /// Hand out the next unused page id, extending the store by one page
    /// of zeros.
    pub fn allocate_page(&mut self) -> (r: BustubxResult<PageId>)
        requires
            old(self).wf(),
        ensures
            final(self).wf(),
            match r {
                Ok(pid) => {
                    &&& pid as int == old(self).pages@.len()
                    &&& final(self).pages@.len() == old(self).pages@.len() + 1
                    &&& (forall|i: int|
                        0 <= i < old(self).pages@.len() ==> (#[trigger] final(self).pages@[i])@
                            == old(self).pages@[i]@)
                    &&& (forall|k: int|
                        0 <= k < BUSTUBX_PAGE_SIZE
                            ==> (#[trigger] final(self).pages@[pid as int]@[k]) == 0u8)
                },
                Err(e) => e == BustubxError::Io && *final(self) == *old(self) && old(
                    self,
                ).pages@.len() + 1 == crate::common::INVALID_PAGE_ID,
            },
    {
        if self.pages.len() + 1 >= crate::common::INVALID_PAGE_ID as usize {
            return Err(BustubxError::Io);
        }
        let pid = self.pages.len() as u32;
        self.pages.push(vec![0u8; BUSTUBX_PAGE_SIZE]);
        Ok(pid)
    }

    /// Read one page; `Io` when the id was never allocated.
    pub fn read_page(&self, pid: PageId) -> (r: BustubxResult<Vec<u8>>)
        requires
            self.wf(),
        ensures
            match r {
                Ok(d) => pid < self.pages@.len() && d@ == self.pages@[pid as int]@,
                Err(e) => e == BustubxError::Io && pid >= self.pages@.len(),
            },
    {
        if pid as usize >= self.pages.len() {
            return Err(BustubxError::Io);
        }
        let page = &self.pages[pid as usize];
        let mut out: Vec<u8> = Vec::new();
        let mut k: usize = 0;
        while k < page.len()
            invariant
                k <= page@.len(),
                out@ == page@.take(k as int),
            decreases page@.len() - k,
        {
            out.push(page[k]);
            proof {
                assert(out@ =~= page@.take(k as int + 1));
            }
            k = k + 1;
        }
        proof {
            assert(page@.take(page@.len() as int) =~= page@);
        }
        Ok(out)
    }

    /// Write one page; `Io` when the id was never allocated.
    pub fn write_page(&mut self, pid: PageId, data: Vec<u8>) -> (r: BustubxResult<()>)
        requires
            old(self).wf(),
            data@.len() == BUSTUBX_PAGE_SIZE,
        ensures
            final(self).wf(),
            final(self).pages@.len() == old(self).pages@.len(),
            match r {
                Ok(()) => {
                    &&& pid < old(self).pages@.len()
                    &&& final(self).pages@[pid as int]@ == data@
                    &&& (forall|i: int|
                        0 <= i < old(self).pages@.len() && i != pid
                            ==> (#[trigger] final(self).pages@[i])@ == old(self).pages@[i]@)
                },
                Err(e) => e == BustubxError::Io && pid >= old(self).pages@.len() && *final(self)
                    == *old(self),
            },
    {
        if pid as usize >= self.pages.len() {
            return Err(BustubxError::Io);
        }
        self.pages.set(pid as usize, data);
        Ok(())
    }
}

} // verus!
