//! The buffer pool: a fixed array of page frames caching the page store,
//! with pin counts guarding residence and an LRU-K replacer choosing
//! which unpinned frame to evict. A dirty frame is written back before
//! its slot is reused, so a re-fetch always sees the last cached state.

use vstd::prelude::*;
use vstd::pervasive::VecAdditionalExecFns;

use crate::common::{PageId, BUSTUBX_PAGE_SIZE, INVALID_PAGE_ID};
use crate::disk::DiskManager;
use crate::error::{BustubxError, BustubxResult};
use crate::replacer::{node_index, LRUKReplacer};

verus! {

/// One in-memory page slot: the cached page, its pin count and dirty flag.
#[derive(Debug)]
pub struct Frame {
    /// Owning page, or `INVALID_PAGE_ID` when the slot is free.
    pub page_id: PageId,
    pub data: Vec<u8>,
    pub pin_count: u32,
    pub is_dirty: bool,
}

/// Position of the frame holding `pid`; `len` when the page is absent.
pub open spec fn frame_index_of(frames: Seq<Frame>, pid: PageId, lo: int) -> int
    decreases frames.len() - lo,
{
    if lo < 0 || lo >= frames.len() {
        frames.len() as int
    } else if frames[lo].page_id == pid {
        lo
    } else {
        frame_index_of(frames, pid, lo + 1)
    }
}

proof fn lemma_frame_index_of(frames: Seq<Frame>, pid: PageId, lo: int)
    requires
        0 <= lo <= frames.len(),
    ensures
        lo <= frame_index_of(frames, pid, lo) <= frames.len(),
        forall|i: int|
            lo <= i < frame_index_of(frames, pid, lo) ==> (#[trigger] frames[i].page_id) != pid,
        frame_index_of(frames, pid, lo) < frames.len() ==> frames[frame_index_of(
            frames,
            pid,
            lo,
        )].page_id == pid,
    decreases frames.len() - lo,
{
    if lo < frames.len() && frames[lo].page_id != pid {
        lemma_frame_index_of(frames, pid, lo + 1);
    }
}

/// Frame scans agree on two frame arrays whose page ids agree pointwise.
proof fn lemma_frame_index_same_ids(a: Seq<Frame>, b: Seq<Frame>, pid: PageId, lo: int)
    requires
        a.len() == b.len(),
        forall|i: int| 0 <= i < a.len() ==> (#[trigger] a[i].page_id) == b[i].page_id,
        0 <= lo <= a.len(),
    ensures
        frame_index_of(a, pid, lo) == frame_index_of(b, pid, lo),
    decreases a.len() - lo,
{
    if lo < a.len() && a[lo].page_id != pid {
        lemma_frame_index_same_ids(a, b, pid, lo + 1);
    }
}

/// Frame scans agree on two frame arrays that differ only in one slot,
/// for any page held by neither version of that slot.
proof fn lemma_frame_index_diff_one(a: Seq<Frame>, b: Seq<Frame>, v: int, pid: PageId, lo: int)
    requires
        a.len() == b.len(),
        0 <= v < a.len(),
        forall|i: int| 0 <= i < a.len() && i != v ==> (#[trigger] a[i].page_id) == b[i].page_id,
        a[v].page_id != pid,
        b[v].page_id != pid,
        0 <= lo <= a.len(),
    ensures
        frame_index_of(a, pid, lo) == frame_index_of(b, pid, lo),
    decreases a.len() - lo,
{
    if lo < a.len() && a[lo].page_id != pid {
        lemma_frame_index_diff_one(a, b, v, pid, lo + 1);
    }
}

/// A frame holding a real page is the one the scan finds for its id, when
/// no two frames hold the same page.
proof fn lemma_frame_index_of_self(frames: Seq<Frame>, v: int)
    requires
        0 <= v < frames.len(),
        frames[v].page_id != INVALID_PAGE_ID,
        forall|i: int, j: int|
            0 <= i < j < frames.len() && (#[trigger] frames[i]).page_id != INVALID_PAGE_ID
                ==> frames[i].page_id != (#[trigger] frames[j]).page_id,
    ensures
        frame_index_of(frames, frames[v].page_id, 0) == v,
{
    lemma_frame_index_of(frames, frames[v].page_id, 0);
    let f = frame_index_of(frames, frames[v].page_id, 0);
    if f == frames.len() {
        assert(frames[v].page_id != frames[v].page_id);
    }
}

/// A page held by no frame scans to the end of the frame array.
pub proof fn lemma_frame_index_of_pub(frames: Seq<Frame>, pid: PageId)
    requires
        forall|i: int| 0 <= i < frames.len() ==> (#[trigger] frames[i]).page_id != pid,
    ensures
        frame_index_of(frames, pid, 0) == frames.len(),
{
    lemma_frame_index_of(frames, pid, 0);
    if frame_index_of(frames, pid, 0) < frames.len() {
        assert(frames[frame_index_of(frames, pid, 0)].page_id == pid);
    }
}

/// A byte-for-byte copy of a page buffer.
fn clone_bytes(v: &Vec<u8>) -> (r: Vec<u8>)
    ensures
        r@ == v@,
{
    let mut out: Vec<u8> = Vec::new();
    let mut k: usize = 0;
    while k < v.len()
        invariant
            k <= v@.len(),
            out@ == v@.take(k as int),
        decreases v@.len() - k,
    {
        out.push(v[k]);
        proof {
            assert(out@ =~= v@.take(k as int + 1));
        }
        k = k + 1;
    }
    proof {
        assert(v@.take(v@.len() as int) =~= v@);
    }
    out
}

/// The fixed-frame cache between the page store and the table and index
/// layers.
#[derive(Debug)]
pub struct BufferPoolManager {
    pub frames: Vec<Frame>,
    /// Never-used or freed frame slots, reused before any eviction.
    pub free_list: Vec<usize>,
    pub replacer: LRUKReplacer,
    pub disk: DiskManager,
}

impl BufferPoolManager {
    /// The page is cached in some frame.
    pub open spec fn resident(&self, pid: PageId) -> bool {
        pid != INVALID_PAGE_ID && frame_index_of(self.frames@, pid, 0) < self.frames@.len()
    }

    /// The cached bytes of a resident page.
    pub open spec fn frame_data(&self, pid: PageId) -> Seq<u8> {
        self.frames@[frame_index_of(self.frames@, pid, 0)].data@
    }

    /// The pin count of a resident page.
    pub open spec fn pin_of(&self, pid: PageId) -> int {
        self.frames@[frame_index_of(self.frames@, pid, 0)].pin_count as int
    }

    /// The dirty flag of a resident page.
    pub open spec fn dirty_of(&self, pid: PageId) -> bool {
        self.frames@[frame_index_of(self.frames@, pid, 0)].is_dirty
    }

    /// The current bytes of an allocated page as the next reader would see
    /// them: the cached frame when resident, else the page store's copy.
    pub open spec fn content_of(&self, pid: PageId) -> Seq<u8> {
        if self.resident(pid) {
            self.frame_data(pid)
        } else {
            self.disk.pages@[pid as int]@
        }
    }

    /// A resident page's frame is marked evictable by the replacer.
    pub open spec fn evictable(&self, pid: PageId) -> bool {
        let f = frame_index_of(self.frames@, pid, 0);
        let n = node_index(self.replacer.nodes@, f as usize, 0);
        n < self.replacer.nodes@.len() && self.replacer.nodes@[n].is_evictable
    }

    /// Some frame can take a new page: a free slot or an evictable one.
    pub open spec fn has_available_frame(&self) -> bool {
        self.free_list@.len() > 0 || exists|i: int|
            0 <= i < self.replacer.nodes@.len() && (#[trigger] self.replacer.nodes@[i]).is_evictable
    }

    /// Well-formedness tying the frames, free list, replacer and page
    /// store together; every operation preserves it.
    pub open spec fn wf(&self) -> bool {
        &&& self.disk.wf()
        &&& self.replacer.wf()
        &&& self.frames@.len() >= 1
        &&& (forall|i: int|
            0 <= i < self.frames@.len() ==> (#[trigger] self.frames@[i]).data@.len()
                == BUSTUBX_PAGE_SIZE)
        &&& (forall|i: int, j: int|
            0 <= i < j < self.frames@.len() && (#[trigger] self.frames@[i]).page_id
                != INVALID_PAGE_ID ==> self.frames@[i].page_id != (
            #[trigger] self.frames@[j]).page_id)
        &&& (forall|i: int|
            0 <= i < self.frames@.len() && (#[trigger] self.frames@[i]).page_id
                != INVALID_PAGE_ID ==> self.frames@[i].page_id < self.disk.pages@.len())
        &&& (forall|e: int|
            0 <= e < self.free_list@.len() ==> (#[trigger] self.free_list@[e]) < self.frames@.len()
                && self.frames@[self.free_list@[e] as int].page_id == INVALID_PAGE_ID
                && node_index(self.replacer.nodes@, self.free_list@[e], 0)
                == self.replacer.nodes@.len())
        &&& (forall|e: int, f: int|
            0 <= e < f < self.free_list@.len() ==> (#[trigger] self.free_list@[e]) != (
            #[trigger] self.free_list@[f]))
        &&& (forall|n: int|
            0 <= n < self.replacer.nodes@.len() ==> (#[trigger] self.replacer.nodes@[n]).frame_id
                < self.frames@.len())
        &&& (forall|n: int|
            0 <= n < self.replacer.nodes@.len() && (
            #[trigger] self.replacer.nodes@[n]).is_evictable ==> self.frames@[self.replacer.nodes@[
                n
            ].frame_id as int].pin_count == 0 && self.frames@[self.replacer.nodes@[
                n
            ].frame_id as int].page_id != INVALID_PAGE_ID)
        &&& (forall|i: int|
            0 <= i < self.frames@.len() && (#[trigger] self.frames@[i]).page_id != INVALID_PAGE_ID
                && !self.frames@[i].is_dirty ==> self.frames@[i].data@ == self.disk.pages@[
                self.frames@[i].page_id as int
            ]@)
    }

    /// Re-establish well-formedness after an operation that rewrote one
    /// frame and touched the replacer so that any node of that frame is
    /// non-evictable, every other node survives from before, and the free
    /// list kept only entries that were free before and are not the frame.
    #[verifier::rlimit(100)]
    #[verifier::spinoff_prover]
    proof fn lemma_wf_after_touch(prev: &BufferPoolManager, cur: &BufferPoolManager, idx: usize)
        requires
            prev.wf(),
            cur.disk.wf(),
            cur.replacer.wf(),
            cur.frames@.len() == prev.frames@.len(),
            cur.disk.pages@.len() >= prev.disk.pages@.len(),
            idx < cur.frames@.len(),
            forall|i: int|
                0 <= i < cur.frames@.len() && i != idx ==> (#[trigger] cur.frames@[i]).page_id
                    == prev.frames@[i].page_id && cur.frames@[i].data@ == prev.frames@[i].data@
                    && cur.frames@[i].pin_count == prev.frames@[i].pin_count
                    && cur.frames@[i].is_dirty == prev.frames@[i].is_dirty,
            forall|q: int|
                0 <= q < prev.disk.pages@.len() && q != prev.frames@[idx as int].page_id ==> (
                #[trigger] cur.disk.pages@[q])@ == prev.disk.pages@[q]@,
            cur.frames@[idx as int].page_id != INVALID_PAGE_ID && !cur.frames@[
                idx as int
            ].is_dirty ==> cur.frames@[idx as int].data@ == cur.disk.pages@[cur.frames@[
                idx as int
            ].page_id as int]@,
            cur.frames@[idx as int].data@.len() == BUSTUBX_PAGE_SIZE,
            cur.frames@[idx as int].page_id != INVALID_PAGE_ID ==> cur.frames@[idx as int].page_id
                < cur.disk.pages@.len(),
            forall|i: int, j: int|
                0 <= i < j < cur.frames@.len() && (#[trigger] cur.frames@[i]).page_id
                    != INVALID_PAGE_ID ==> cur.frames@[i].page_id != (
                #[trigger] cur.frames@[j]).page_id,
            forall|i: int|
                0 <= i < cur.replacer.nodes@.len() ==> (#[trigger] cur.replacer.nodes@[i]).frame_id
                    == idx || (exists|j: int|
                    0 <= j < prev.replacer.nodes@.len() && cur.replacer.nodes@[i] == (
                    #[trigger] prev.replacer.nodes@[j])),
            forall|i: int|
                0 <= i < cur.replacer.nodes@.len() && (
                #[trigger] cur.replacer.nodes@[i]).frame_id == idx && cur.replacer.nodes@[
                    i
                ].is_evictable ==> cur.frames@[idx as int].pin_count == 0
                && cur.frames@[idx as int].page_id != INVALID_PAGE_ID,

            forall|e: int|
                0 <= e < cur.free_list@.len() ==> (#[trigger] cur.free_list@[e]) != idx && (
                exists|e2: int|
                    0 <= e2 < prev.free_list@.len() && cur.free_list@[e] == (
                    #[trigger] prev.free_list@[e2])),
            forall|e: int, f: int|
                0 <= e < f < cur.free_list@.len() ==> (#[trigger] cur.free_list@[e]) != (
                #[trigger] cur.free_list@[f]),
        ensures
            cur.wf(),
    {
        assert forall|e: int| 0 <= e < cur.free_list@.len() implies (#[trigger] cur.free_list@[e])
            < cur.frames@.len() && cur.frames@[cur.free_list@[e] as int].page_id
            == INVALID_PAGE_ID && node_index(cur.replacer.nodes@, cur.free_list@[e], 0)
            == cur.replacer.nodes@.len() by {
            let fe = cur.free_list@[e];
            let e2 = choose|e2: int|
                0 <= e2 < prev.free_list@.len() && fe == prev.free_list@[e2];
            assert(prev.free_list@[e2] < prev.frames@.len());
            assert(prev.frames@[fe as int].page_id == INVALID_PAGE_ID);
            crate::replacer::lemma_node_index(prev.replacer.nodes@, fe, 0);
            assert forall|i: int| 0 <= i < cur.replacer.nodes@.len() implies (
            #[trigger] cur.replacer.nodes@[i]).frame_id != fe by {
                if cur.replacer.nodes@[i].frame_id != idx {
                    let j = choose|j: int|
                        0 <= j < prev.replacer.nodes@.len() && cur.replacer.nodes@[i]
                            == prev.replacer.nodes@[j];
                    assert(prev.replacer.nodes@[j].frame_id != fe);
                }
            }
            crate::replacer::lemma_node_index_absent(cur.replacer.nodes@, fe);
        }
        assert forall|n: int| 0 <= n < cur.replacer.nodes@.len() implies (
        #[trigger] cur.replacer.nodes@[n]).frame_id < cur.frames@.len() by {
            if cur.replacer.nodes@[n].frame_id != idx {
                let j = choose|j: int|
                    0 <= j < prev.replacer.nodes@.len() && cur.replacer.nodes@[n]
                        == prev.replacer.nodes@[j];
                assert(prev.replacer.nodes@[j].frame_id < prev.frames@.len());
            }
        }
        assert forall|n: int|
            0 <= n < cur.replacer.nodes@.len() && (
            #[trigger] cur.replacer.nodes@[n]).is_evictable implies cur.frames@[cur.replacer.nodes@[
            n
        ].frame_id as int].pin_count == 0 && cur.frames@[cur.replacer.nodes@[
            n
        ].frame_id as int].page_id != INVALID_PAGE_ID by {
            let fid = cur.replacer.nodes@[n].frame_id;
            if fid != idx {
                let j = choose|j: int|
                    0 <= j < prev.replacer.nodes@.len() && cur.replacer.nodes@[n]
                        == prev.replacer.nodes@[j];
                assert(prev.replacer.nodes@[j].is_evictable);
                assert(prev.frames@[fid as int].pin_count == 0);
                assert(prev.frames@[fid as int].page_id != INVALID_PAGE_ID);
            }
        }
        assert forall|i: int|
            0 <= i < cur.frames@.len() && (#[trigger] cur.frames@[i]).page_id != INVALID_PAGE_ID
                && !cur.frames@[i].is_dirty implies cur.frames@[i].data@ == cur.disk.pages@[
            cur.frames@[i].page_id as int
        ]@ by {
            if i != idx {
                let p = prev.frames@[i].page_id;
                assert(prev.frames@[i].data@ == prev.disk.pages@[p as int]@);
                if prev.frames@[idx as int].page_id != INVALID_PAGE_ID {
                    assert(p != prev.frames@[idx as int].page_id);
                }
                assert(cur.disk.pages@[p as int]@ == prev.disk.pages@[p as int]@);
            }
        }
    }

    /// A pool of `num_frames` free frames over the given page store; the
    /// replacer runs LRU-2.
    pub fn new(num_frames: usize, disk: DiskManager) -> (r: BufferPoolManager)
        requires
            num_frames >= 1,
            disk.wf(),
        ensures
            r.wf(),
            r.frames@.len() == num_frames,
            r.disk.pages@ == disk.pages@,
            forall|pid: PageId| !r.resident(pid),
    {
        let mut frames: Vec<Frame> = Vec::new();
        let mut free_list: Vec<usize> = Vec::new();
        let mut i: usize = 0;
        while i < num_frames
            invariant
                i <= num_frames,
                frames@.len() == i,
                free_list@.len() == i,
                forall|j: int| 0 <= j < i ==> (#[trigger] frames@[j]).page_id == INVALID_PAGE_ID,
                forall|j: int|
                    0 <= j < i ==> (#[trigger] frames@[j]).data@.len() == BUSTUBX_PAGE_SIZE,
                forall|j: int| 0 <= j < i ==> (#[trigger] frames@[j]).pin_count == 0,
                forall|j: int| 0 <= j < i ==> (#[trigger] free_list@[j]) == j,
            decreases num_frames - i,
        {
            frames.push(
                Frame {
                    page_id: INVALID_PAGE_ID,
                    data: vec![0u8; BUSTUBX_PAGE_SIZE],
                    pin_count: 0,
                    is_dirty: false,
                },
            );
            free_list.push(i);
            i = i + 1;
        }
        let r = BufferPoolManager { frames, free_list, replacer: LRUKReplacer::new(2), disk };
        proof {
            assert forall|pid: PageId| !r.resident(pid) by {
                lemma_frame_index_of(r.frames@, pid, 0);
                if pid != INVALID_PAGE_ID && frame_index_of(r.frames@, pid, 0) < r.frames@.len() {
                    assert(r.frames@[frame_index_of(r.frames@, pid, 0)].page_id == pid);
                }
            }
        }
        r
    }

    /// Pin a page and hand out its cached bytes. A page not resident is
    /// read from the page store into a free frame, or into the replacer's
    /// victim frame after writing that frame back if dirty.
    #[verifier::rlimit(100)]
    #[verifier::spinoff_prover]
    pub fn fetch_page(&mut self, pid: PageId) -> (r: BustubxResult<Vec<u8>>)
        requires
            old(self).wf(),
        ensures
            final(self).wf(),
            final(self).frames@.len() == old(self).frames@.len(),
            final(self).disk.pages@.len() == old(self).disk.pages@.len(),
            r == Err::<Vec<u8>, BustubxError>(BustubxError::Io) <==> (pid == INVALID_PAGE_ID || pid
                >= old(self).disk.pages@.len()),
            r == Err::<Vec<u8>, BustubxError>(BustubxError::BufferPoolExhausted) <==> (pid
                != INVALID_PAGE_ID && pid < old(self).disk.pages@.len() && !old(self).resident(pid)
                && !old(self).has_available_frame()),
            r == Err::<Vec<u8>, BustubxError>(BustubxError::Internal) <==> (old(self).resident(pid)
                && old(self).pin_of(pid) == u32::MAX),
            r is Err ==> final(self).frames@ == old(self).frames@ && final(self).disk.pages@ == old(self).disk.pages@,
            r is Err ==> r == Err::<Vec<u8>, BustubxError>(BustubxError::Io) || r == Err::<
                Vec<u8>,
                BustubxError,
            >(BustubxError::BufferPoolExhausted) || r == Err::<Vec<u8>, BustubxError>(
                BustubxError::Internal,
            ),
            r matches Ok(d) ==> {
                &&& final(self).resident(pid)
                &&& d@ == final(self).frame_data(pid)
                &&& d@.len() == BUSTUBX_PAGE_SIZE
                &&& final(self).pin_of(pid) == (if old(self).resident(pid) {
                    old(self).pin_of(pid) + 1
                } else {
                    1int
                })
                &&& (old(self).resident(pid) ==> d@ == old(self).frame_data(pid) && final(self).disk.pages@ == old(self).disk.pages@)
                &&& (!old(self).resident(pid) ==> d@ == old(self).disk.pages@[pid as int]@)
                &&& (forall|q: PageId|
                    q != pid && final(self).resident(q) ==> old(self).resident(q) && (
                    #[trigger] final(self).frame_data(q)) == old(self).frame_data(q) && final(self).pin_of(q) == old(self).pin_of(q))
                &&& (forall|q: int|
                    0 <= q < old(self).disk.pages@.len() && (#[trigger] final(self).disk.pages@[q])@
                        != old(self).disk.pages@[q]@ ==> old(self).resident(q as PageId) && !final(self).resident(q as PageId) && final(self).disk.pages@[q]@ == old(self).frame_data(
                        q as PageId,
                    ))
                &&& (forall|q: PageId|
                    old(self).resident(q) && (#[trigger] old(self).pin_of(q)) > 0 ==> final(self).resident(q))
                &&& final(self).tracked_by_replacer(pid)
                &&& (forall|q: PageId|
                    (q as int) < old(self).disk.pages@.len() ==> (#[trigger] final(self).content_of(q)) == old(self).content_of(q))
            },
    {
        if pid == INVALID_PAGE_ID || pid as usize >= self.disk.page_count() {
            proof {
                lemma_frame_index_of(self.frames@, pid, 0);
            }
            return Err(BustubxError::Io);
        }
        let found = self.find_frame(pid);
        if let Some(idx) = found {
            proof {
                lemma_frame_index_of(self.frames@, pid, 0);
            }
            if self.frames[idx].pin_count == u32::MAX {
                return Err(BustubxError::Internal);
            }
            let data = clone_bytes(&self.frames[idx].data);
            let returned = clone_bytes(&self.frames[idx].data);
            let page_id = self.frames[idx].page_id;
            let pin_count = self.frames[idx].pin_count;
            let is_dirty = self.frames[idx].is_dirty;
            self.frames.set(
                idx,
                Frame { page_id, data, pin_count: pin_count + 1, is_dirty },
            );
            let ghost nodes0 = self.replacer.nodes@;
            self.replacer.record_access(idx);
            let ghost nodes1 = self.replacer.nodes@;
            self.replacer.set_evictable(idx, false);
            proof {
                let nodes2 = self.replacer.nodes@;
                assert forall|q: PageId| frame_index_of(self.frames@, q, 0) == frame_index_of(
                    old(self).frames@,
                    q,
                    0,
                ) by {
                    lemma_frame_index_same_ids(self.frames@, old(self).frames@, q, 0);
                }
                crate::replacer::lemma_node_index(nodes0, idx, 0);
                crate::replacer::lemma_node_index(nodes1, idx, 0);
                let f0 = node_index(nodes0, idx, 0);
                let f1 = node_index(nodes1, idx, 0);
                assert(nodes1[f0].frame_id == idx);
                assert(f1 < nodes1.len());
                assert forall|i: int|
                    0 <= i < nodes2.len() implies (#[trigger] nodes2[i]).frame_id == idx || (
                exists|j: int|
                    0 <= j < nodes0.len() && nodes2[i] == (#[trigger] nodes0[j])) by {
                    if nodes2[i].frame_id != idx {
                        assert(i != f1);
                        assert(nodes2[i] == nodes1[i]);
                        if f0 < nodes0.len() {
                            assert(i != f0);
                            assert(nodes1[i] == nodes0[i]);
                        } else {
                            assert(i != nodes0.len());
                            assert(nodes1[i] == nodes0[i]);
                        }
                    }
                }
                assert forall|i: int|
                    0 <= i < nodes2.len() && (#[trigger] nodes2[i]).frame_id == idx
                    implies !nodes2[i].is_evictable by {
                    if i != f1 {
                        assert(nodes2[i] == nodes1[i]);
                        assert(nodes2[f1].frame_id == idx);
                    }
                }
                assert(nodes2[f1].frame_id == idx);
                crate::replacer::lemma_node_index(nodes2, idx, 0);
                if node_index(nodes2, idx, 0) == nodes2.len() {
                    assert(nodes2[f1].frame_id != idx);
                }
                Self::lemma_wf_after_touch(old(self), self, idx);
                assert forall|q: PageId|
                    q != pid && #[trigger] self.resident(q) implies old(self).resident(q)
                    && self.frame_data(q) == old(self).frame_data(q) && self.pin_of(q) == old(self).pin_of(q) by {
                    lemma_frame_index_of(self.frames@, q, 0);
                    lemma_frame_index_of(old(self).frames@, q, 0);
                    let fq = frame_index_of(self.frames@, q, 0);
                    assert(self.frames@[fq].page_id == q);
                }
                assert forall|q: PageId|
                    (q as int) < old(self).disk.pages@.len() implies (#[trigger] self.content_of(
                    q,
                )) == old(self).content_of(q) by {
                    lemma_frame_index_of(self.frames@, q, 0);
                    lemma_frame_index_of(old(self).frames@, q, 0);
                    let fq = frame_index_of(self.frames@, q, 0);
                    if fq < self.frames@.len() {
                        assert(self.frames@[fq].page_id == q);
                    }
                }
            }
            return Ok(returned);
        }
        proof {
            lemma_frame_index_of(self.frames@, pid, 0);
        }
        // pick a victim slot: a never-used frame first, else evict
        let victim: usize;
        if self.free_list.len() > 0 {
            victim = self.free_list.remove(0);
        } else {
            let evicted = self.replacer.evict();
            match evicted {
                Some(v) => {
                    victim = v;
                },
                None => {
                    proof {
                        assert(self.frames@ == old(self).frames@);
                    }
                    return Err(BustubxError::BufferPoolExhausted);
                },
            }
        }
        // write back a dirty victim before the slot is reused
        let victim_pid = self.frames[victim].page_id;
        if victim_pid != INVALID_PAGE_ID && self.frames[victim].is_dirty {
            let back = clone_bytes(&self.frames[victim].data);
            let wrote = self.disk.write_page(victim_pid, back);
            proof {
                lemma_frame_index_of(old(self).frames@, victim_pid, 0);
                lemma_frame_index_of_self(old(self).frames@, victim as int);
            }
            if wrote.is_err() {
                proof {
                    assert(false);
                }
                return Err(BustubxError::Internal);
            }
        }
        let read = self.disk.read_page(pid);
        let data = match read {
            Ok(d) => d,
            Err(_) => {
                proof {
                    assert(false);
                }
                return Err(BustubxError::Io);
            },
        };
        let returned = clone_bytes(&data);
        let ghost pre_frames = self.frames@;
        self.frames.set(victim, Frame { page_id: pid, data, pin_count: 1, is_dirty: false });
        let ghost nodes0 = self.replacer.nodes@;
        self.replacer.record_access(victim);
        let ghost nodes1 = self.replacer.nodes@;
        self.replacer.set_evictable(victim, false);
        proof {
            let base = old(self).replacer.nodes@;
            let nodes2 = self.replacer.nodes@;
            // the new frame array is still free of duplicates
            assert forall|i: int, j: int|
                0 <= i < j < self.frames@.len() && (#[trigger] self.frames@[i]).page_id
                    != INVALID_PAGE_ID implies self.frames@[i].page_id != (
            #[trigger] self.frames@[j]).page_id by {
                if i != victim as int && j != victim as int {
                    assert(old(self).frames@[i].page_id == self.frames@[i].page_id);
                    assert(old(self).frames@[j].page_id == self.frames@[j].page_id);
                } else {
                    let other: int = if i == victim as int {
                        j
                    } else {
                        i
                    };
                    assert(old(self).frames@[other].page_id != pid);
                }
            }
            lemma_frame_index_of_self(self.frames@, victim as int);
            // every replacer node is the new frame's or one carried over
            assert forall|i: int|
                0 <= i < nodes2.len() implies (#[trigger] nodes2[i]).frame_id == victim || (
            exists|j: int|
                0 <= j < base.len() && nodes2[i] == (#[trigger] base[j])) by {
                crate::replacer::lemma_node_index(nodes0, victim, 0);
                crate::replacer::lemma_node_index(nodes1, victim, 0);
                let f0 = node_index(nodes0, victim, 0);
                let f1 = node_index(nodes1, victim, 0);
                if nodes2[i].frame_id != victim {
                    assert(i != f1);
                    assert(nodes2[i] == nodes1[i]);
                    if f0 < nodes0.len() {
                        assert(i != f0);
                        assert(nodes1[i] == nodes0[i]);
                    } else {
                        assert(i != nodes0.len());
                        assert(nodes1[i] == nodes0[i]);
                    }
                    if nodes0 == base {
                        assert(nodes2[i] == base[i]);
                    } else {
                        let v = choose|v: int|
                            0 <= v < base.len() && base[v].frame_id == victim && base[
                                v
                            ].is_evictable && nodes0 == base.remove(v);
                        if i < v {
                            assert(nodes0[i] == base[i]);
                        } else {
                            assert(nodes0[i] == base[i + 1]);
                        }
                    }
                }
            }
            crate::replacer::lemma_node_index(nodes0, victim, 0);
            crate::replacer::lemma_node_index(nodes1, victim, 0);
            let f0 = node_index(nodes0, victim, 0);
            let f1 = node_index(nodes1, victim, 0);
            assert(nodes1[f0].frame_id == victim);
            assert(f1 < nodes1.len());
            assert forall|i: int|
                0 <= i < nodes2.len() && (#[trigger] nodes2[i]).frame_id == victim
                implies !nodes2[i].is_evictable by {
                if i != f1 {
                    assert(nodes2[i] == nodes1[i]);
                    assert(nodes2[f1].frame_id == victim);
                }
            }
            assert(nodes2[f1].frame_id == victim);
            crate::replacer::lemma_node_index(nodes2, victim, 0);
            if node_index(nodes2, victim, 0) == nodes2.len() {
                assert(nodes2[f1].frame_id != victim);
            }
            // remaining free slots were free before and are not the victim
            assert forall|e: int|
                0 <= e < self.free_list@.len() implies (#[trigger] self.free_list@[e]) != victim
                && (exists|e2: int|
                0 <= e2 < old(self).free_list@.len() && self.free_list@[e] == (
                #[trigger] old(self).free_list@[e2])) by {
                if old(self).free_list@.len() > 0 && self.free_list@.len() == old(self).free_list@.len() - 1 {
                    assert(self.free_list@[e] == old(self).free_list@[e + 1]);
                    assert(old(self).free_list@[0] == victim || node_index(base, victim, 0)
                        < base.len());
                } else {
                    assert(self.free_list@[e] == old(self).free_list@[e]);
                }
            }
            Self::lemma_wf_after_touch(old(self), self, victim);
            // pages other than the new one keep their identity and cache
            assert forall|q: PageId|
                q != pid && #[trigger] self.resident(q) implies old(self).resident(q)
                && self.frame_data(q) == old(self).frame_data(q) && self.pin_of(q)
                == old(self).pin_of(q) by {
                lemma_frame_index_of(self.frames@, q, 0);
                lemma_frame_index_of(old(self).frames@, q, 0);
                let fq = frame_index_of(self.frames@, q, 0);
                assert(self.frames@[fq].page_id == q);
                assert(fq != victim as int);
                if q == old(self).frames@[victim as int].page_id {
                    assert(old(self).frames@[fq].page_id == q);
                }
                lemma_frame_index_diff_one(self.frames@, old(self).frames@, victim as int, q, 0);
            }
            // a disk change can only be the victim's write-back
            assert forall|q: int|
                0 <= q < old(self).disk.pages@.len() && (#[trigger] self.disk.pages@[q])@ != old(self).disk.pages@[q]@ implies old(self).resident(q as PageId) && !self.resident(
                q as PageId,
            ) && self.disk.pages@[q]@ == old(self).frame_data(q as PageId) by {
                if victim_pid != INVALID_PAGE_ID && old(self).frames@[victim as int].is_dirty {
                    assert(q == victim_pid as int);
                    assert forall|i: int|
                        0 <= i < self.frames@.len() implies (#[trigger] self.frames@[i]).page_id
                        != victim_pid by {
                        if i != victim as int {
                            assert(old(self).frames@[i].page_id == self.frames@[i].page_id);
                            assert(old(self).frames@[victim as int].page_id == victim_pid);
                        }
                    }
                    lemma_frame_index_of(self.frames@, victim_pid, 0);
                    if frame_index_of(self.frames@, victim_pid, 0) < self.frames@.len() {
                        assert(false);
                    }
                } else {
                    assert(self.disk.pages@[q]@ == old(self).disk.pages@[q]@);
                }
            }
            assert forall|q: PageId|
                old(self).resident(q) && (#[trigger] old(self).pin_of(q)) > 0 implies self.resident(
                q,
            ) by {
                lemma_frame_index_of(old(self).frames@, q, 0);
                let fq = frame_index_of(old(self).frames@, q, 0);
                assert(old(self).frames@[fq].page_id == q);
                if fq == victim as int {
                    assert(old(self).frames@[victim as int].pin_count > 0);
                }
                assert(self.frames@[fq].page_id == q);
                lemma_frame_index_of(self.frames@, q, 0);
                if frame_index_of(self.frames@, q, 0) == self.frames@.len() {
                    assert(self.frames@[fq].page_id != q);
                }
            }
            assert forall|q: PageId|
                (q as int) < old(self).disk.pages@.len() implies (#[trigger] self.content_of(q))
                == old(self).content_of(q) by {
                lemma_frame_index_of(self.frames@, q, 0);
                lemma_frame_index_of(old(self).frames@, q, 0);
                let fq_new = frame_index_of(self.frames@, q, 0);
                let fq_old = frame_index_of(old(self).frames@, q, 0);
                if fq_new < self.frames@.len() {
                    assert(self.frames@[fq_new].page_id == q);
                }
                if fq_old < old(self).frames@.len() {
                    assert(old(self).frames@[fq_old].page_id == q);
                }
                if q == pid {
                    // was read from the store into the frame
                } else if fq_old < old(self).frames@.len() && fq_new == self.frames@.len() {
                    // q lost its frame: it was the victim's page
                    if fq_old != victim as int {
                        assert(self.frames@[fq_old].page_id == q);
                    }
                    assert(fq_old == victim as int);
                    assert(q == victim_pid);
                    if old(self).frames@[victim as int].is_dirty {
                        assert(self.disk.pages@[q as int]@ == old(self).frames@[
                            victim as int
                        ].data@);
                    } else {
                        assert(old(self).frames@[victim as int].data@ == old(self).disk.pages@[
                            q as int
                        ]@);
                        assert(self.disk.pages@[q as int]@ == old(self).disk.pages@[q as int]@);
                    }
                } else if fq_old == old(self).frames@.len() && fq_new == self.frames@.len() {
                    // untouched on the store
                    assert(q != victim_pid || old(self).frames@[victim as int].page_id
                        != INVALID_PAGE_ID);
                    assert(self.disk.pages@[q as int]@ == old(self).disk.pages@[q as int]@);
                }
            }
        }
        Ok(returned)
    }

    /// The replacer tracks the frame caching `pid`, as it does after any
    /// fetch of that page.
    pub open spec fn tracked_by_replacer(&self, pid: PageId) -> bool {
        node_index(
            self.replacer.nodes@,
            frame_index_of(self.frames@, pid, 0) as usize,
            0,
        ) < self.replacer.nodes@.len()
    }

    /// Drop one pin of a page; a pin count reaching zero offers the frame
    /// to the replacer, and the dirty flag is merged in.
    #[verifier::rlimit(100)]
    #[verifier::spinoff_prover]
    pub fn unpin_page(&mut self, pid: PageId, is_dirty: bool) -> (r: BustubxResult<()>)
        requires
            old(self).wf(),
        ensures
            final(self).wf(),
            final(self).frames@.len() == old(self).frames@.len(),
            final(self).disk.pages@ == old(self).disk.pages@,
            r is Ok <==> old(self).resident(pid) && old(self).pin_of(pid) > 0,
            r is Err ==> r == Err::<(), BustubxError>(BustubxError::Internal) && final(self).frames@ == old(self).frames@ && final(self).replacer.nodes@
                == old(self).replacer.nodes@,
            r is Ok ==> {
                &&& (forall|q: PageId| final(self).resident(q) == old(self).resident(q))
                &&& (forall|q: PageId|
                    old(self).resident(q) ==> (#[trigger] final(self).frame_data(q)) == old(self).frame_data(q))
                &&& final(self).pin_of(pid) == old(self).pin_of(pid) - 1
                &&& (forall|q: PageId|
                    q != pid && old(self).resident(q) ==> (#[trigger] final(self).pin_of(q))
                        == old(self).pin_of(q))
                &&& final(self).dirty_of(pid) == (old(self).dirty_of(pid) || is_dirty)
                &&& (final(self).pin_of(pid) == 0 && old(self).tracked_by_replacer(pid) ==> final(self).evictable(pid))
                &&& (forall|q: PageId|
                    (q as int) < old(self).disk.pages@.len() ==> (#[trigger] final(self).content_of(q)) == old(self).content_of(q))
            },
    {
        if pid == INVALID_PAGE_ID {
            return Err(BustubxError::Internal);
        }
        let found = self.find_frame(pid);
        let idx = match found {
            Some(i) => i,
            None => {
                return Err(BustubxError::Internal);
            },
        };
        proof {
            lemma_frame_index_of(self.frames@, pid, 0);
        }
        if self.frames[idx].pin_count == 0 {
            return Err(BustubxError::Internal);
        }
        let data = clone_bytes(&self.frames[idx].data);
        let page_id = self.frames[idx].page_id;
        let pin_count = self.frames[idx].pin_count - 1;
        let dirty = self.frames[idx].is_dirty || is_dirty;
        self.frames.set(idx, Frame { page_id, data, pin_count, is_dirty: dirty });
        let ghost nodes0 = self.replacer.nodes@;
        if pin_count == 0 {
            self.replacer.set_evictable(idx, true);
        }
        proof {
            let nodes2 = self.replacer.nodes@;
            assert forall|q: PageId| frame_index_of(self.frames@, q, 0) == frame_index_of(
                old(self).frames@,
                q,
                0,
            ) by {
                lemma_frame_index_same_ids(self.frames@, old(self).frames@, q, 0);
            }
            crate::replacer::lemma_node_index(nodes0, idx, 0);
            let f0 = node_index(nodes0, idx, 0);
            assert forall|i: int|
                0 <= i < nodes2.len() implies (#[trigger] nodes2[i]).frame_id == idx || (
            exists|j: int|
                0 <= j < nodes0.len() && nodes2[i] == (#[trigger] nodes0[j])) by {
                if nodes2[i].frame_id != idx {
                    if pin_count == 0 && f0 < nodes0.len() {
                        assert(i != f0 ==> nodes2[i] == nodes0[i]);
                        assert(i == f0 ==> nodes2[i].frame_id == idx);
                    } else {
                        assert(nodes2[i] == nodes0[i]);
                    }
                }
            }
            assert forall|i: int|
                0 <= i < nodes2.len() && (#[trigger] nodes2[i]).frame_id == idx
                    && nodes2[i].is_evictable implies self.frames@[idx as int].pin_count == 0
                && self.frames@[idx as int].page_id != INVALID_PAGE_ID by {
                if pin_count == 0 {
                } else {
                    assert(nodes2[i] == nodes0[i]);
                    assert(old(self).frames@[nodes0[i].frame_id as int].pin_count == 0);
                }
            }
            assert forall|e: int|
                0 <= e < self.free_list@.len() implies (#[trigger] self.free_list@[e]) != idx && (
            exists|e2: int|
                0 <= e2 < old(self).free_list@.len() && self.free_list@[e] == (
                #[trigger] old(self).free_list@[e2])) by {
                assert(self.free_list@[e] == old(self).free_list@[e]);
                assert(old(self).frames@[old(self).free_list@[e] as int].page_id
                    == INVALID_PAGE_ID);
            }
            assert forall|i: int, j: int|
                0 <= i < j < self.frames@.len() && (#[trigger] self.frames@[i]).page_id
                    != INVALID_PAGE_ID implies self.frames@[i].page_id != (
            #[trigger] self.frames@[j]).page_id by {
                assert(self.frames@[i].page_id == old(self).frames@[i].page_id);
                assert(self.frames@[j].page_id == old(self).frames@[j].page_id);
            }
            Self::lemma_wf_after_touch(old(self), self, idx);
            assert forall|q: PageId|
                old(self).resident(q) implies (#[trigger] self.frame_data(q)) == old(self).frame_data(q) by {
                lemma_frame_index_of(old(self).frames@, q, 0);
            }
            assert forall|q: PageId|
                q != pid && old(self).resident(q) implies (#[trigger] self.pin_of(q)) == old(self).pin_of(q) by {
                lemma_frame_index_of(old(self).frames@, q, 0);
            }
            assert forall|q: PageId|
                (q as int) < old(self).disk.pages@.len() implies (#[trigger] self.content_of(q))
                == old(self).content_of(q) by {
                lemma_frame_index_of(self.frames@, q, 0);
                lemma_frame_index_of(old(self).frames@, q, 0);
                let fq = frame_index_of(self.frames@, q, 0);
                if fq < self.frames@.len() {
                    assert(self.frames@[fq].page_id == q);
                }
            }
            if pin_count == 0 && old(self).tracked_by_replacer(pid) {
                crate::replacer::lemma_node_index(nodes0, idx, 0);
                crate::replacer::lemma_node_index(nodes2, idx, 0);
                let f2 = node_index(nodes2, idx, 0);
                assert(nodes2[f0].frame_id == idx);
                assert(f2 <= f0);
                if f2 < f0 {
                    assert(nodes2[f2] == nodes0[f2]);
                    assert(nodes0[f2].frame_id != idx);
                }
                assert(f2 == f0);
                assert(nodes2[f0].is_evictable);
            }
        }
        Ok(())
    }

    /// Overwrite the cached bytes of a resident page and mark it dirty;
    /// pins are not touched.
    #[verifier::rlimit(50)]
    pub fn write_page(&mut self, pid: PageId, data: Vec<u8>) -> (r: BustubxResult<()>)
        requires
            old(self).wf(),
            data@.len() == BUSTUBX_PAGE_SIZE,
        ensures
            final(self).wf(),
            final(self).frames@.len() == old(self).frames@.len(),
            final(self).disk.pages@ == old(self).disk.pages@,
            final(self).replacer.nodes@ == old(self).replacer.nodes@,
            r is Ok <==> old(self).resident(pid),
            r is Err ==> r == Err::<(), BustubxError>(BustubxError::Internal) && final(self).frames@ == old(self).frames@,
            r is Ok ==> {
                &&& (forall|q: PageId| final(self).resident(q) == old(self).resident(q))
                &&& final(self).frame_data(pid) == data@
                &&& final(self).dirty_of(pid)
                &&& (forall|q: PageId|
                    q != pid && old(self).resident(q) ==> (#[trigger] final(self).frame_data(q))
                        == old(self).frame_data(q))
                &&& (forall|q: PageId|
                    old(self).resident(q) ==> (#[trigger] final(self).pin_of(q)) == old(self).pin_of(q))
                &&& final(self).content_of(pid) == data@
                &&& (forall|q: PageId|
                    q != pid && (q as int) < old(self).disk.pages@.len() ==> (#[trigger] final(self).content_of(q)) == old(self).content_of(q))
            },
    {
        if pid == INVALID_PAGE_ID {
            return Err(BustubxError::Internal);
        }
        let found = self.find_frame(pid);
        let idx = match found {
            Some(i) => i,
            None => {
                return Err(BustubxError::Internal);
            },
        };
        proof {
            lemma_frame_index_of(self.frames@, pid, 0);
        }
        let page_id = self.frames[idx].page_id;
        let pin_count = self.frames[idx].pin_count;
        self.frames.set(idx, Frame { page_id, data, pin_count, is_dirty: true });
        proof {
            let nodes0 = old(self).replacer.nodes@;
            assert forall|q: PageId| frame_index_of(self.frames@, q, 0) == frame_index_of(
                old(self).frames@,
                q,
                0,
            ) by {
                lemma_frame_index_same_ids(self.frames@, old(self).frames@, q, 0);
            }
            assert forall|i: int|
                0 <= i < nodes0.len() implies (#[trigger] nodes0[i]).frame_id == idx || (
            exists|j: int|
                0 <= j < nodes0.len() && nodes0[i] == (#[trigger] nodes0[j])) by {
                assert(nodes0[i] == nodes0[i]);
            }
            assert forall|i: int|
                0 <= i < nodes0.len() && (#[trigger] nodes0[i]).frame_id == idx
                    && nodes0[i].is_evictable implies self.frames@[idx as int].pin_count == 0
                && self.frames@[idx as int].page_id != INVALID_PAGE_ID by {
                assert(old(self).frames@[idx as int].pin_count == 0);
            }
            assert forall|e: int|
                0 <= e < self.free_list@.len() implies (#[trigger] self.free_list@[e]) != idx && (
            exists|e2: int|
                0 <= e2 < old(self).free_list@.len() && self.free_list@[e] == (
                #[trigger] old(self).free_list@[e2])) by {
                assert(self.free_list@[e] == old(self).free_list@[e]);
                assert(old(self).frames@[old(self).free_list@[e] as int].page_id
                    == INVALID_PAGE_ID);
            }
            assert forall|i: int, j: int|
                0 <= i < j < self.frames@.len() && (#[trigger] self.frames@[i]).page_id
                    != INVALID_PAGE_ID implies self.frames@[i].page_id != (
            #[trigger] self.frames@[j]).page_id by {
                assert(self.frames@[i].page_id == old(self).frames@[i].page_id);
                assert(self.frames@[j].page_id == old(self).frames@[j].page_id);
            }
            Self::lemma_wf_after_touch(old(self), self, idx);
            assert forall|q: PageId|
                q != pid && old(self).resident(q) implies (#[trigger] self.frame_data(q))
                == old(self).frame_data(q) by {
                lemma_frame_index_of(old(self).frames@, q, 0);
            }
            assert forall|q: PageId|
                old(self).resident(q) implies (#[trigger] self.pin_of(q)) == old(self).pin_of(q) by {
                lemma_frame_index_of(old(self).frames@, q, 0);
            }
            assert forall|q: PageId|
                q != pid && (q as int) < old(self).disk.pages@.len() implies (
            #[trigger] self.content_of(q)) == old(self).content_of(q) by {
                lemma_frame_index_of(self.frames@, q, 0);
                lemma_frame_index_of(old(self).frames@, q, 0);
                let fq = frame_index_of(self.frames@, q, 0);
                if fq < self.frames@.len() {
                    assert(self.frames@[fq].page_id == q);
                }
            }
        }
        Ok(())
    }

    /// Write a resident page's cached bytes back to the page store and
    /// clear its dirty flag.
    #[verifier::rlimit(60)]
    #[verifier::spinoff_prover]
    pub fn flush_page(&mut self, pid: PageId) -> (r: BustubxResult<()>)
        requires
            old(self).wf(),
        ensures
            final(self).wf(),
            final(self).frames@.len() == old(self).frames@.len(),
            final(self).disk.pages@.len() == old(self).disk.pages@.len(),
            r is Ok <==> old(self).resident(pid),
            r is Err ==> r == Err::<(), BustubxError>(BustubxError::Internal) && final(self).frames@ == old(self).frames@ && final(self).disk.pages@
                == old(self).disk.pages@,
            r is Ok ==> {
                &&& (forall|q: PageId| final(self).resident(q) == old(self).resident(q))
                &&& (forall|q: PageId|
                    old(self).resident(q) ==> (#[trigger] final(self).frame_data(q)) == old(self).frame_data(q) && final(self).pin_of(q) == old(self).pin_of(q))
                &&& final(self).disk.pages@[pid as int]@ == old(self).frame_data(pid)
                &&& !final(self).dirty_of(pid)
                &&& (forall|q: int|
                    0 <= q < old(self).disk.pages@.len() && q != pid ==> (#[trigger] final(self).disk.pages@[q])@ == old(self).disk.pages@[q]@)
                &&& (forall|q: PageId|
                    (q as int) < old(self).disk.pages@.len() ==> (#[trigger] final(self).content_of(q)) == old(self).content_of(q))
            },
    {
        if pid == INVALID_PAGE_ID {
            return Err(BustubxError::Internal);
        }
        let found = self.find_frame(pid);
        let idx = match found {
            Some(i) => i,
            None => {
                return Err(BustubxError::Internal);
            },
        };
        proof {
            lemma_frame_index_of(self.frames@, pid, 0);
        }
        let back = clone_bytes(&self.frames[idx].data);
        let wrote = self.disk.write_page(pid, back);
        if wrote.is_err() {
            proof {
                assert(false);
            }
            return Err(BustubxError::Internal);
        }
        let data = clone_bytes(&self.frames[idx].data);
        let page_id = self.frames[idx].page_id;
        let pin_count = self.frames[idx].pin_count;
        self.frames.set(idx, Frame { page_id, data, pin_count, is_dirty: false });
        proof {
            let nodes0 = old(self).replacer.nodes@;
            assert forall|q: PageId| frame_index_of(self.frames@, q, 0) == frame_index_of(
                old(self).frames@,
                q,
                0,
            ) by {
                lemma_frame_index_same_ids(self.frames@, old(self).frames@, q, 0);
            }
            assert forall|i: int|
                0 <= i < nodes0.len() implies (#[trigger] nodes0[i]).frame_id == idx || (
            exists|j: int|
                0 <= j < nodes0.len() && nodes0[i] == (#[trigger] nodes0[j])) by {
                assert(nodes0[i] == nodes0[i]);
            }
            assert forall|e: int|
                0 <= e < self.free_list@.len() implies (#[trigger] self.free_list@[e]) != idx && (
            exists|e2: int|
                0 <= e2 < old(self).free_list@.len() && self.free_list@[e] == (
                #[trigger] old(self).free_list@[e2])) by {
                assert(self.free_list@[e] == old(self).free_list@[e]);
                assert(old(self).frames@[old(self).free_list@[e] as int].page_id
                    == INVALID_PAGE_ID);
            }
            assert forall|i: int, j: int|
                0 <= i < j < self.frames@.len() && (#[trigger] self.frames@[i]).page_id
                    != INVALID_PAGE_ID implies self.frames@[i].page_id != (
            #[trigger] self.frames@[j]).page_id by {
                assert(self.frames@[i].page_id == old(self).frames@[i].page_id);
                assert(self.frames@[j].page_id == old(self).frames@[j].page_id);
            }
            Self::lemma_wf_after_touch(old(self), self, idx);
            assert forall|q: PageId|
                old(self).resident(q) implies (#[trigger] self.frame_data(q)) == old(self).frame_data(q) && self.pin_of(q) == old(self).pin_of(q) by {
                lemma_frame_index_of(old(self).frames@, q, 0);
            }
            assert forall|q: PageId|
                (q as int) < old(self).disk.pages@.len() implies (#[trigger] self.content_of(q))
                == old(self).content_of(q) by {
                lemma_frame_index_of(self.frames@, q, 0);
                lemma_frame_index_of(old(self).frames@, q, 0);
                let fq = frame_index_of(self.frames@, q, 0);
                if fq < self.frames@.len() {
                    assert(self.frames@[fq].page_id == q);
                }
            }
        }
        Ok(())
    }

    /// Allocate a fresh page on the page store and pin it into a frame,
    /// zero-filled; fails when no frame is free or evictable.
    pub fn new_page(&mut self) -> (r: BustubxResult<PageId>)
        requires
            old(self).wf(),
        ensures
            final(self).wf(),
            final(self).frames@.len() == old(self).frames@.len(),
            r is Err ==> final(self).frames@ == old(self).frames@ && final(self).disk.pages@
                == old(self).disk.pages@,
            r is Err ==> r == Err::<PageId, BustubxError>(BustubxError::Io) || r == Err::<
                PageId,
                BustubxError,
            >(BustubxError::BufferPoolExhausted),
            r == Err::<PageId, BustubxError>(BustubxError::Io) <==> old(self).disk.pages@.len() + 1
                >= INVALID_PAGE_ID,
            r == Err::<PageId, BustubxError>(BustubxError::BufferPoolExhausted) <==> (old(self).disk.pages@.len() + 1 < INVALID_PAGE_ID && !old(self).has_available_frame()),
            r matches Ok(pid) ==> {
                &&& pid as int == old(self).disk.pages@.len()
                &&& final(self).disk.pages@.len() == old(self).disk.pages@.len() + 1
                &&& final(self).resident(pid)
                &&& final(self).pin_of(pid) == 1
                &&& final(self).frame_data(pid) == Seq::new(
                    BUSTUBX_PAGE_SIZE as nat,
                    |k: int| 0u8,
                )
                &&& (forall|q: PageId|
                    q != pid && final(self).resident(q) ==> old(self).resident(q) && (
                    #[trigger] final(self).frame_data(q)) == old(self).frame_data(q) && final(self).pin_of(q) == old(self).pin_of(q))
                &&& (forall|q: int|
                    0 <= q < old(self).disk.pages@.len() && (#[trigger] final(self).disk.pages@[q])@
                        != old(self).disk.pages@[q]@ ==> old(self).resident(q as PageId) && !final(self).resident(q as PageId) && final(self).disk.pages@[q]@ == old(self).frame_data(
                        q as PageId,
                    ))
                &&& (forall|q: PageId|
                    old(self).resident(q) && (#[trigger] old(self).pin_of(q)) > 0 ==> final(self).resident(q))
                &&& (forall|q: PageId|
                    (q as int) < old(self).disk.pages@.len() ==> (#[trigger] final(self).content_of(q)) == old(self).content_of(q))
                &&& final(self).tracked_by_replacer(pid)
            },
    {
        if self.disk.page_count() + 1 >= INVALID_PAGE_ID as usize {
            return Err(BustubxError::Io);
        }
        // secure a frame before the page id is allocated
        let victim: usize;
        if self.free_list.len() > 0 {
            victim = self.free_list.remove(0);
        } else {
            let evicted = self.replacer.evict();
            match evicted {
                Some(v) => {
                    victim = v;
                },
                None => {
                    return Err(BustubxError::BufferPoolExhausted);
                },
            }
        }
        // write back a dirty victim before the slot is reused
        let victim_pid = self.frames[victim].page_id;
        if victim_pid != INVALID_PAGE_ID && self.frames[victim].is_dirty {
            let back = clone_bytes(&self.frames[victim].data);
            let wrote = self.disk.write_page(victim_pid, back);
            proof {
                lemma_frame_index_of(old(self).frames@, victim_pid, 0);
                lemma_frame_index_of_self(old(self).frames@, victim as int);
            }
            if wrote.is_err() {
                proof {
                    assert(false);
                }
                return Err(BustubxError::Internal);
            }
        }
        let allocated = self.disk.allocate_page();
        let pid = match allocated {
            Ok(p) => p,
            Err(_) => {
                proof {
                    assert(false);
                }
                return Err(BustubxError::Io);
            },
        };
        self.frames.set(
            victim,
            Frame {
                page_id: pid,
                data: vec![0u8; BUSTUBX_PAGE_SIZE],
                pin_count: 1,
                is_dirty: false,
            },
        );
        let ghost nodes0 = self.replacer.nodes@;
        self.replacer.record_access(victim);
        let ghost nodes1 = self.replacer.nodes@;
        self.replacer.set_evictable(victim, false);
        proof {
            let base = old(self).replacer.nodes@;
            let nodes2 = self.replacer.nodes@;
            assert forall|i: int|
                0 <= i < old(self).frames@.len() implies (#[trigger] old(self).frames@[i]).page_id
                != pid by {
                if old(self).frames@[i].page_id != INVALID_PAGE_ID {
                    assert(old(self).frames@[i].page_id < old(self).disk.pages@.len());
                }
            }
            assert forall|i: int, j: int|
                0 <= i < j < self.frames@.len() && (#[trigger] self.frames@[i]).page_id
                    != INVALID_PAGE_ID implies self.frames@[i].page_id != (
            #[trigger] self.frames@[j]).page_id by {
                if i != victim as int && j != victim as int {
                    assert(old(self).frames@[i].page_id == self.frames@[i].page_id);
                    assert(old(self).frames@[j].page_id == self.frames@[j].page_id);
                } else {
                    let other: int = if i == victim as int {
                        j
                    } else {
                        i
                    };
                    assert(old(self).frames@[other].page_id != pid);
                }
            }
            lemma_frame_index_of_self(self.frames@, victim as int);
            assert forall|i: int|
                0 <= i < nodes2.len() implies (#[trigger] nodes2[i]).frame_id == victim || (
            exists|j: int|
                0 <= j < base.len() && nodes2[i] == (#[trigger] base[j])) by {
                crate::replacer::lemma_node_index(nodes0, victim, 0);
                crate::replacer::lemma_node_index(nodes1, victim, 0);
                let f0 = node_index(nodes0, victim, 0);
                let f1 = node_index(nodes1, victim, 0);
                if nodes2[i].frame_id != victim {
                    assert(i != f1);
                    assert(nodes2[i] == nodes1[i]);
                    if f0 < nodes0.len() {
                        assert(i != f0);
                        assert(nodes1[i] == nodes0[i]);
                    } else {
                        assert(i != nodes0.len());
                        assert(nodes1[i] == nodes0[i]);
                    }
                    if nodes0 == base {
                        assert(nodes2[i] == base[i]);
                    } else {
                        let v = choose|v: int|
                            0 <= v < base.len() && base[v].frame_id == victim && base[
                                v
                            ].is_evictable && nodes0 == base.remove(v);
                        if i < v {
                            assert(nodes0[i] == base[i]);
                        } else {
                            assert(nodes0[i] == base[i + 1]);
                        }
                    }
                }
            }
            crate::replacer::lemma_node_index(nodes0, victim, 0);
            crate::replacer::lemma_node_index(nodes1, victim, 0);
            let f0 = node_index(nodes0, victim, 0);
            let f1 = node_index(nodes1, victim, 0);
            assert(nodes1[f0].frame_id == victim);
            assert(f1 < nodes1.len());
            assert forall|i: int|
                0 <= i < nodes2.len() && (#[trigger] nodes2[i]).frame_id == victim
                implies !nodes2[i].is_evictable by {
                if i != f1 {
                    assert(nodes2[i] == nodes1[i]);
                    assert(nodes2[f1].frame_id == victim);
                }
            }
            assert(nodes2[f1].frame_id == victim);
            crate::replacer::lemma_node_index(nodes2, victim, 0);
            if node_index(nodes2, victim, 0) == nodes2.len() {
                assert(nodes2[f1].frame_id != victim);
            }
            assert forall|e: int|
                0 <= e < self.free_list@.len() implies (#[trigger] self.free_list@[e]) != victim
                && (exists|e2: int|
                0 <= e2 < old(self).free_list@.len() && self.free_list@[e] == (
                #[trigger] old(self).free_list@[e2])) by {
                if old(self).free_list@.len() > 0 && self.free_list@.len() == old(self).free_list@.len() - 1 {
                    assert(self.free_list@[e] == old(self).free_list@[e + 1]);
                    assert(old(self).free_list@[0] == victim || node_index(base, victim, 0)
                        < base.len());
                } else {
                    assert(self.free_list@[e] == old(self).free_list@[e]);
                }
            }
            assert(self.frames@[victim as int].data@ =~= self.disk.pages@[pid as int]@);
            Self::lemma_wf_after_touch(old(self), self, victim);
            assert(self.frame_data(pid) =~= Seq::new(BUSTUBX_PAGE_SIZE as nat, |k: int| 0u8));
            assert forall|q: PageId|
                q != pid && #[trigger] self.resident(q) implies old(self).resident(q)
                && self.frame_data(q) == old(self).frame_data(q) && self.pin_of(q)
                == old(self).pin_of(q) by {
                lemma_frame_index_of(self.frames@, q, 0);
                lemma_frame_index_of(old(self).frames@, q, 0);
                let fq = frame_index_of(self.frames@, q, 0);
                assert(self.frames@[fq].page_id == q);
                assert(fq != victim as int);
                if q == old(self).frames@[victim as int].page_id {
                    assert(old(self).frames@[fq].page_id == q);
                }
                lemma_frame_index_diff_one(self.frames@, old(self).frames@, victim as int, q, 0);
            }
            assert forall|q: int|
                0 <= q < old(self).disk.pages@.len() && (#[trigger] self.disk.pages@[q])@ != old(self).disk.pages@[q]@ implies old(self).resident(q as PageId) && !self.resident(
                q as PageId,
            ) && self.disk.pages@[q]@ == old(self).frame_data(q as PageId) by {
                if victim_pid != INVALID_PAGE_ID && old(self).frames@[victim as int].is_dirty {
                    assert(q == victim_pid as int);
                    assert forall|i: int|
                        0 <= i < self.frames@.len() implies (#[trigger] self.frames@[i]).page_id
                        != victim_pid by {
                        if i != victim as int {
                            assert(old(self).frames@[i].page_id == self.frames@[i].page_id);
                            assert(old(self).frames@[victim as int].page_id == victim_pid);
                        } else {
                            assert(old(self).frames@[victim as int].page_id < old(self).disk.pages@.len());
                        }
                    }
                    lemma_frame_index_of(self.frames@, victim_pid, 0);
                    if frame_index_of(self.frames@, victim_pid, 0) < self.frames@.len() {
                        assert(false);
                    }
                } else {
                    assert(self.disk.pages@[q]@ == old(self).disk.pages@[q]@);
                }
            }
            assert forall|q: PageId|
                old(self).resident(q) && (#[trigger] old(self).pin_of(q)) > 0 implies self.resident(
                q,
            ) by {
                lemma_frame_index_of(old(self).frames@, q, 0);
                let fq = frame_index_of(old(self).frames@, q, 0);
                assert(old(self).frames@[fq].page_id == q);
                if fq == victim as int {
                    assert(old(self).frames@[victim as int].pin_count > 0);
                }
                assert(self.frames@[fq].page_id == q);
                lemma_frame_index_of(self.frames@, q, 0);
                if frame_index_of(self.frames@, q, 0) == self.frames@.len() {
                    assert(self.frames@[fq].page_id != q);
                }
            }
            assert forall|q: PageId|
                (q as int) < old(self).disk.pages@.len() implies (#[trigger] self.content_of(q))
                == old(self).content_of(q) by {
                lemma_frame_index_of(self.frames@, q, 0);
                lemma_frame_index_of(old(self).frames@, q, 0);
                let fq_new = frame_index_of(self.frames@, q, 0);
                let fq_old = frame_index_of(old(self).frames@, q, 0);
                if fq_new < self.frames@.len() {
                    assert(self.frames@[fq_new].page_id == q);
                }
                if fq_old < old(self).frames@.len() {
                    assert(old(self).frames@[fq_old].page_id == q);
                }
                if fq_old < old(self).frames@.len() && fq_new == self.frames@.len() {
                    // q lost its frame: it was the victim's page
                    if fq_old != victim as int {
                        assert(self.frames@[fq_old].page_id == q);
                    }
                    assert(fq_old == victim as int);
                    assert(q == victim_pid);
                    if old(self).frames@[victim as int].is_dirty {
                        assert(self.disk.pages@[q as int]@ == old(self).frames@[
                            victim as int
                        ].data@);
                    } else {
                        assert(old(self).frames@[victim as int].data@ == old(self).disk.pages@[
                            q as int
                        ]@);
                        assert(self.disk.pages@[q as int]@ == old(self).disk.pages@[q as int]@);
                    }
                } else if fq_old == old(self).frames@.len() && fq_new == self.frames@.len() {
                    assert(self.disk.pages@[q as int]@ == old(self).disk.pages@[q as int]@);
                }
            }
        }
        Ok(pid)
    }

    /// Forget an unpinned resident page: the frame returns to the free
    /// list and stops being tracked. Backing-store space is not reclaimed.
    #[verifier::rlimit(100)]
    #[verifier::spinoff_prover]
    pub fn delete_page(&mut self, pid: PageId) -> (r: BustubxResult<()>)
        requires
            old(self).wf(),
        ensures
            final(self).wf(),
            final(self).frames@.len() == old(self).frames@.len(),
            final(self).disk.pages@ == old(self).disk.pages@,
            r is Err <==> old(self).resident(pid) && old(self).pin_of(pid) > 0,
            r is Err ==> final(self).frames@ == old(self).frames@,
            r is Ok ==> !final(self).resident(pid) && (forall|q: PageId|
                q != pid ==> (#[trigger] final(self).resident(q)) == old(self).resident(q)
                    && (old(self).resident(q) ==> final(self).frame_data(q) == old(self).frame_data(q) && final(self).pin_of(q) == old(self).pin_of(q))),
    {
        if pid == INVALID_PAGE_ID {
            return Ok(());
        }
        let found = self.find_frame(pid);
        let idx = match found {
            Some(i) => i,
            None => {
                proof {
                    lemma_frame_index_of(self.frames@, pid, 0);
                }
                return Ok(());
            },
        };
        proof {
            lemma_frame_index_of(self.frames@, pid, 0);
        }
        if self.frames[idx].pin_count > 0 {
            return Err(BustubxError::Internal);
        }
        self.frames.set(
            idx,
            Frame {
                page_id: INVALID_PAGE_ID,
                data: vec![0u8; BUSTUBX_PAGE_SIZE],
                pin_count: 0,
                is_dirty: false,
            },
        );
        let ghost base = self.replacer.nodes@;
        self.replacer.remove(idx);
        self.free_list.push(idx);
        proof {
            let nodes2 = self.replacer.nodes@;
            crate::replacer::lemma_node_index(base, idx, 0);
            let f = node_index(base, idx, 0);
            assert forall|i: int|
                0 <= i < nodes2.len() implies (#[trigger] nodes2[i]).frame_id != idx && (
            exists|j: int|
                0 <= j < base.len() && nodes2[i] == (#[trigger] base[j])) by {
                if f == base.len() {
                    assert(nodes2[i] == base[i]);
                } else {
                    if i < f {
                        assert(nodes2[i] == base[i]);
                    } else {
                        assert(nodes2[i] == base[i + 1]);
                    }
                    if nodes2[i].frame_id == idx {
                        assert(base[f].frame_id == idx);
                    }
                }
            }
            assert forall|i: int, j: int|
                0 <= i < j < self.frames@.len() && (#[trigger] self.frames@[i]).page_id
                    != INVALID_PAGE_ID implies self.frames@[i].page_id != (
            #[trigger] self.frames@[j]).page_id by {
                assert(i != idx);
                assert(old(self).frames@[i].page_id == self.frames@[i].page_id);
                if j != idx {
                    assert(old(self).frames@[j].page_id == self.frames@[j].page_id);
                }
            }
            self.delete_page_wf(old(self), idx, base);
            assert forall|q: PageId|
                q != pid implies (#[trigger] self.resident(q)) == old(self).resident(q) && (
            old(self).resident(q) ==> self.frame_data(q) == old(self).frame_data(q)
                && self.pin_of(q) == old(self).pin_of(q)) by {
                if q != INVALID_PAGE_ID {
                    lemma_frame_index_of(self.frames@, q, 0);
                    lemma_frame_index_of(old(self).frames@, q, 0);
                    lemma_frame_index_diff_one(self.frames@, old(self).frames@, idx as int, q, 0);
                }
            }
            assert forall|i: int|
                0 <= i < self.frames@.len() implies (#[trigger] self.frames@[i]).page_id
                != pid by {
                if i != idx {
                    assert(old(self).frames@[i].page_id == self.frames@[i].page_id);
                    assert(old(self).frames@[idx as int].page_id == pid);
                }
            }
            lemma_frame_index_of(self.frames@, pid, 0);
            if frame_index_of(self.frames@, pid, 0) < self.frames@.len() {
                assert(false);
            }
        }
        Ok(())
    }

    /// Well-formedness after a frame is freed: its node is gone and it
    /// joined the free list.
    proof fn delete_page_wf(&self, prev: &BufferPoolManager, idx: usize, base: Seq<crate::replacer::ReplacerNode>)
        requires
            prev.wf(),
            self.disk == prev.disk,
            self.replacer.wf(),
            self.replacer.k == prev.replacer.k,
            base == prev.replacer.nodes@,
            self.frames@.len() == prev.frames@.len(),
            idx < self.frames@.len(),
            forall|i: int|
                0 <= i < self.frames@.len() && i != idx ==> (#[trigger] self.frames@[i])
                    == prev.frames@[i],
            self.frames@[idx as int].page_id == INVALID_PAGE_ID,
            self.frames@[idx as int].pin_count == 0,
            self.frames@[idx as int].data@.len() == BUSTUBX_PAGE_SIZE,
            forall|i: int|
                0 <= i < self.replacer.nodes@.len() ==> (#[trigger] self.replacer.nodes@[
                    i
                ]).frame_id != idx && (exists|j: int|
                    0 <= j < base.len() && self.replacer.nodes@[i] == (#[trigger] base[j])),
            self.free_list@ == prev.free_list@.push(idx),
            forall|e: int|
                0 <= e < prev.free_list@.len() ==> (#[trigger] prev.free_list@[e]) != idx,
        ensures
            self.wf(),
    {
        assert forall|e: int|
            0 <= e < self.free_list@.len() implies (#[trigger] self.free_list@[e])
            < self.frames@.len() && self.frames@[self.free_list@[e] as int].page_id
            == INVALID_PAGE_ID && node_index(self.replacer.nodes@, self.free_list@[e], 0)
            == self.replacer.nodes@.len() by {
            let fe = self.free_list@[e];
            if e < prev.free_list@.len() {
                assert(fe == prev.free_list@[e]);
                assert(fe != idx);
                assert(prev.frames@[fe as int].page_id == INVALID_PAGE_ID);
                crate::replacer::lemma_node_index(base, fe, 0);
            }
            assert forall|i: int|
                0 <= i < self.replacer.nodes@.len() implies (#[trigger] self.replacer.nodes@[
                i
            ]).frame_id != fe by {
                if self.replacer.nodes@[i].frame_id != idx {
                    let j = choose|j: int|
                        0 <= j < base.len() && self.replacer.nodes@[i] == base[j];
                    if e < prev.free_list@.len() {
                        assert(base[j].frame_id != fe);
                    }
                }
            }
            crate::replacer::lemma_node_index_absent(self.replacer.nodes@, fe);
        }
        assert forall|e: int, f: int|
            0 <= e < f < self.free_list@.len() implies (#[trigger] self.free_list@[e]) != (
        #[trigger] self.free_list@[f]) by {
            if f == self.free_list@.len() - 1 {
                assert(self.free_list@[e] == prev.free_list@[e]);
            } else {
                assert(self.free_list@[e] == prev.free_list@[e]);
                assert(self.free_list@[f] == prev.free_list@[f]);
            }
        }
        assert forall|n: int| 0 <= n < self.replacer.nodes@.len() implies (
        #[trigger] self.replacer.nodes@[n]).frame_id < self.frames@.len() by {
            let j = choose|j: int|
                0 <= j < base.len() && self.replacer.nodes@[n] == base[j];
            assert(base[j].frame_id < prev.frames@.len());
        }
        assert forall|n: int|
            0 <= n < self.replacer.nodes@.len() && (
            #[trigger] self.replacer.nodes@[n]).is_evictable implies self.frames@[
            self.replacer.nodes@[n].frame_id as int
        ].pin_count == 0 && self.frames@[self.replacer.nodes@[n].frame_id as int].page_id
            != INVALID_PAGE_ID by {
            let fid = self.replacer.nodes@[n].frame_id;
            assert(fid != idx);
            let j = choose|j: int|
                0 <= j < base.len() && self.replacer.nodes@[n] == base[j];
            assert(base[j].is_evictable);
            assert(prev.frames@[fid as int].pin_count == 0);
            assert(prev.frames@[fid as int].page_id != INVALID_PAGE_ID);
        }
    }

    /// Position of the frame caching `pid`, by scan.
    fn find_frame(&self, pid: PageId) -> (r: Option<usize>)
        ensures
            match r {
                Some(i) => i as int == frame_index_of(self.frames@, pid, 0) && i
                    < self.frames@.len(),
                None => frame_index_of(self.frames@, pid, 0) == self.frames@.len(),
            },
    {
        let mut i: usize = 0;
        let n = self.frames.len();
        while i < n
            invariant
                i <= n,
                n == self.frames@.len(),
                frame_index_of(self.frames@, pid, 0) == frame_index_of(self.frames@, pid, i as int),
            decreases n - i,
        {
            if self.frames[i].page_id == pid {
                return Some(i);
            }
            i = i + 1;
        }
        None
    }
}

} // verus!
