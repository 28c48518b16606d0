//! The table heap: an append-only linked list of slotted pages reached
//! through the buffer pool. Tuples are encoded to bytes on insert and
//! decoded against the heap's schema on read; every page taken from the
//! pool is validated before it is trusted. Every operation releases the
//! pins it takes, on every path.

use vstd::prelude::*;

use crate::buffer_pool::BufferPoolManager;
use crate::codec::{
    decode_tuple, encode_tuple, spec_schema_width, spec_tuple_bytes, spec_tuple_decoded,
};
use crate::common::{PageId, Rid, TupleMeta, BUSTUBX_PAGE_SIZE, INVALID_PAGE_ID};
use crate::error::{BustubxError, BustubxResult};
use crate::scalar::Schema;
use crate::table_page::{
    lemma_insert_preserves_payloads, lemma_parsed_wf, lemma_payloads_above_directory,
    lemma_slot_in_page, parsed_prev_offset, spec_parsed_fits, spec_parsed_next_page_id,
    spec_parsed_num_deleted, spec_parsed_num_tuples, spec_parsed_wf, spec_slot_parsed, TablePage,
    Tuple as PageTuple,
};
use crate::tuple::Tuple;

verus! {

/// Largest encoded tuple a fresh page can hold: the page minus its header
/// and one slot-directory entry.
pub const MAX_TUPLE_BYTES: usize = 4096 - 8 - 16;

/// A heap over the buffer pool: tuples live on pages linked forward from
/// the first page; inserts go to the last page.
#[derive(Debug)]
pub struct TableHeap {
    pub schema: Schema,
    pub buffer_pool: BufferPoolManager,
    pub first_page_id: PageId,
    pub last_page_id: PageId,
}

impl TableHeap {
    /// Well-formedness: the pool is sound and both ends of the page chain
    /// are allocated pages.
    pub open spec fn wf(&self) -> bool {
        &&& self.buffer_pool.wf()
        &&& self.first_page_id != INVALID_PAGE_ID
        &&& self.last_page_id != INVALID_PAGE_ID
        &&& (self.first_page_id as int) < self.buffer_pool.disk.pages@.len()
        &&& (self.last_page_id as int) < self.buffer_pool.disk.pages@.len()
    }

    /// The page bytes the heap would see for `pid`: the cached frame when
    /// resident, else the page store's copy.
    pub open spec fn page_bytes_of(&self, pid: PageId) -> Seq<u8> {
        self.buffer_pool.content_of(pid)
    }

    /// The pool can serve a fetch of `pid` right now: the page is
    /// allocated, and either already cached (with room to pin) or some
    /// frame is free or evictable.
    pub open spec fn can_fetch(&self, pid: PageId) -> bool {
        &&& pid != INVALID_PAGE_ID
        &&& (pid as int) < self.buffer_pool.disk.pages@.len()
        &&& (self.buffer_pool.resident(pid) ==> self.buffer_pool.pin_of(pid) < u32::MAX)
        &&& (!self.buffer_pool.resident(pid) ==> self.buffer_pool.has_available_frame())
    }

    /// No allocated page's visible bytes changed between two heap states.
    pub open spec fn pages_preserved(pre: &TableHeap, post: &TableHeap) -> bool {
        forall|q: PageId|
            (q as int) < pre.buffer_pool.disk.pages@.len() ==> (#[trigger] post.page_bytes_of(q))
                == pre.page_bytes_of(q)
    }

    /// As `pages_preserved`, but the pages `a` and `b` may have changed.
    pub open spec fn pages_preserved_except(
        pre: &TableHeap,
        post: &TableHeap,
        a: PageId,
        b: PageId,
    ) -> bool {
        forall|q: PageId|
            q != a && q != b && (q as int) < pre.buffer_pool.disk.pages@.len() ==> (
            #[trigger] post.page_bytes_of(q)) == pre.page_bytes_of(q)
    }

    /// The operation held on to no pins: pages cached before and after
    /// keep their pin counts, and pages it faulted in are left unpinned.
    pub open spec fn pins_released(pre: &TableHeap, post: &TableHeap) -> bool {
        &&& (forall|q: PageId|
            pre.buffer_pool.resident(q) && post.buffer_pool.resident(q) ==> (
            #[trigger] post.buffer_pool.pin_of(q)) == pre.buffer_pool.pin_of(q))
        &&& (forall|q: PageId|
            post.buffer_pool.resident(q) && !pre.buffer_pool.resident(q) ==> (
            #[trigger] post.buffer_pool.pin_of(q)) == 0)
        &&& (forall|q: PageId|
            pre.buffer_pool.resident(q) && !post.buffer_pool.resident(q) ==> (
            #[trigger] pre.buffer_pool.pin_of(q)) == 0)
    }

    /// Create a heap with one empty page; the page is written through the
    /// pool and unpinned dirty.
    pub fn try_new(schema: Schema, buffer_pool: BufferPoolManager) -> (r: BustubxResult<TableHeap>)
        requires
            buffer_pool.wf(),
        ensures
            r matches Ok(h) ==> {
                &&& h.wf()
                &&& h.schema.types() == schema.types()
                &&& h.first_page_id == h.last_page_id
                &&& h.first_page_id as int == buffer_pool.disk.pages@.len()
                &&& h.buffer_pool.disk.pages@.len() == buffer_pool.disk.pages@.len() + 1
                &&& spec_parsed_wf(h.page_bytes_of(h.first_page_id))
                &&& spec_parsed_num_tuples(h.page_bytes_of(h.first_page_id)) == 0
                &&& spec_parsed_next_page_id(h.page_bytes_of(h.first_page_id))
                    == INVALID_PAGE_ID
                &&& (forall|q: PageId|
                    (q as int) < buffer_pool.disk.pages@.len() ==> (#[trigger] h.page_bytes_of(
                        q,
                    )) == buffer_pool.content_of(q))
                &&& (h.buffer_pool.resident(h.first_page_id) ==> h.buffer_pool.pin_of(
                    h.first_page_id,
                ) == 0)
            },
            buffer_pool.disk.pages@.len() + 1 < INVALID_PAGE_ID && buffer_pool.has_available_frame()
                ==> r is Ok,
            r is Err ==> r == Err::<TableHeap, BustubxError>(BustubxError::Io) || r == Err::<
                TableHeap,
                BustubxError,
            >(BustubxError::BufferPoolExhausted),
    {
        let mut pool = buffer_pool;
        let first_page_id = match pool.new_page() {
            Ok(pid) => pid,
            Err(e) => {
                return Err(e);
            },
        };
        let table_page = TablePage::new(INVALID_PAGE_ID);
        let bytes = table_page.to_bytes();
        proof {
            crate::table_page::lemma_page_codec_round_trip(&table_page, bytes@);
        }
        match pool.write_page(first_page_id, bytes) {
            Ok(()) => (),
            Err(_) => {
                proof {
                    assert(false);
                }
                return Err(BustubxError::Internal);
            },
        }
        match pool.unpin_page(first_page_id, true) {
            Ok(()) => (),
            Err(_) => {
                proof {
                    assert(false);
                }
                return Err(BustubxError::Internal);
            },
        }
        Ok(TableHeap { schema, buffer_pool: pool, first_page_id, last_page_id: first_page_id })
    }

    /// Read the tuple at `rid`, decoded against the heap's schema from the
    /// page image the pool holds for that page.
    pub fn tuple(&mut self, rid: Rid) -> (r: BustubxResult<(TupleMeta, Tuple)>)
        requires
            old(self).wf(),
        ensures
            final(self).wf(),
            final(self).schema.types() == old(self).schema.types(),
            final(self).first_page_id == old(self).first_page_id,
            final(self).last_page_id == old(self).last_page_id,
            TableHeap::pages_preserved(old(self), final(self)),
            TableHeap::pins_released(old(self), final(self)),
            final(self).buffer_pool.disk.pages@.len() == old(self).buffer_pool.disk.pages@.len(),
            r is Ok ==> rid.page_id != INVALID_PAGE_ID && (rid.page_id as int) < old(self).buffer_pool.disk.pages@.len(),
            ({
                let b = old(self).page_bytes_of(rid.page_id);
                let slot = spec_slot_parsed(b, rid.slot_num as int);
                &&& (r matches Ok((m, t)) ==> m == slot.2 && t.schema.types() == old(self).schema.types() && t.data@ == spec_tuple_decoded(
                    old(self).schema.types(),
                    b.subrange(slot.0 as int, slot.0 + slot.1),
                ))
                &&& (old(self).can_fetch(rid.page_id) ==> {
                    &&& (r is Ok <==> spec_parsed_wf(b) && (rid.slot_num as int)
                        < spec_parsed_num_tuples(b) && spec_schema_width(old(self).schema.types())
                        <= slot.1 as int)
                    &&& (r == Err::<(TupleMeta, Tuple), BustubxError>(BustubxError::InvalidRid)
                        <==> !(spec_parsed_wf(b) && (rid.slot_num as int)
                        < spec_parsed_num_tuples(b)))
                    &&& final(self).buffer_pool.resident(rid.page_id)
                    &&& final(self).buffer_pool.pin_of(rid.page_id) < u32::MAX
                })
            }),
    {
        let page_data = match self.buffer_pool.fetch_page(rid.page_id) {
            Ok(d) => d,
            Err(e) => {
                return Err(e);
            },
        };
        let ghost m1 = *self;
        let ghost b = old(self).page_bytes_of(rid.page_id);
        proof {
            assert(page_data@ == b);
        }
        let table_page = TablePage::from_bytes(page_data.as_slice());
        proof {
            lemma_parsed_wf(&table_page, b);
        }
        let result: BustubxResult<(TupleMeta, Tuple)>;
        if !table_page.is_well_formed() || rid.slot_num >= table_page.num_tuples as u32 {
            proof {
                assert(!(spec_parsed_wf(b) && (rid.slot_num as int) < spec_parsed_num_tuples(b)));
            }
            result = Err(BustubxError::InvalidRid);
        } else {
            proof {
                assert(spec_parsed_wf(b));
                assert((rid.slot_num as int) < spec_parsed_num_tuples(b));
                assert(table_page.tuple_info@[rid.slot_num as int] == spec_slot_parsed(
                    b,
                    rid.slot_num as int,
                ));
            }
            let (meta, page_tuple) = table_page.get_tuple(&rid);
            proof {
                assert(meta == spec_slot_parsed(b, rid.slot_num as int).2);
                assert(page_tuple.data@ == b.subrange(
                    spec_slot_parsed(b, rid.slot_num as int).0 as int,
                    spec_slot_parsed(b, rid.slot_num as int).0 + spec_slot_parsed(
                        b,
                        rid.slot_num as int,
                    ).1,
                ));
            }
            proof {
                lemma_slot_in_page(table_page.tuple_info@, rid.slot_num as int);
                assert(page_tuple.data@.len() == spec_slot_parsed(b, rid.slot_num as int).1 as int);
            }
            let decoded = decode_tuple(page_tuple.data.as_slice(), &self.schema);
            result = match decoded {
                Some((t, _n)) => Ok((meta, t)),
                None => Err(BustubxError::Internal),
            };
        }
        match self.buffer_pool.unpin_page(rid.page_id, false) {
            Ok(()) => (),
            Err(_) => {
                proof {
                    assert(false);
                }
                return Err(BustubxError::Internal);
            },
        }
        proof {
            assert forall|q: PageId|
                q != rid.page_id && (#[trigger] m1.buffer_pool.resident(q)) implies old(self).buffer_pool.resident(q) && m1.buffer_pool.pin_of(q) == old(self).buffer_pool.pin_of(q) by {
                assert(m1.buffer_pool.frame_data(q) == old(self).buffer_pool.frame_data(q));
            }
            Self::lemma_read_composition(old(self), &m1, self, rid.page_id);
        }
        result
    }

    /// Read only the metadata of the tuple at `rid`.
    pub fn tuple_meta(&mut self, rid: Rid) -> (r: BustubxResult<TupleMeta>)
        requires
            old(self).wf(),
        ensures
            final(self).wf(),
            final(self).schema.types() == old(self).schema.types(),
            final(self).first_page_id == old(self).first_page_id,
            final(self).last_page_id == old(self).last_page_id,
            TableHeap::pages_preserved(old(self), final(self)),
            TableHeap::pins_released(old(self), final(self)),
            ({
                let b = old(self).page_bytes_of(rid.page_id);
                &&& (r matches Ok(m) ==> m == spec_slot_parsed(b, rid.slot_num as int).2)
                &&& (old(self).can_fetch(rid.page_id) ==> {
                    &&& (r is Ok <==> spec_parsed_wf(b) && (rid.slot_num as int)
                        < spec_parsed_num_tuples(b))
                    &&& (r is Err ==> r == Err::<TupleMeta, BustubxError>(BustubxError::InvalidRid))
                })
            }),
    {
        let page_data = match self.buffer_pool.fetch_page(rid.page_id) {
            Ok(d) => d,
            Err(e) => {
                return Err(e);
            },
        };
        let ghost m1 = *self;
        let ghost b = old(self).page_bytes_of(rid.page_id);
        proof {
            assert(page_data@ == b);
        }
        let table_page = TablePage::from_bytes(page_data.as_slice());
        proof {
            lemma_parsed_wf(&table_page, b);
        }
        let result: BustubxResult<TupleMeta>;
        if !table_page.is_well_formed() || rid.slot_num >= table_page.num_tuples as u32 {
            result = Err(BustubxError::InvalidRid);
        } else {
            result = Ok(table_page.get_tuple_meta(&rid));
        }
        match self.buffer_pool.unpin_page(rid.page_id, false) {
            Ok(()) => (),
            Err(_) => {
                proof {
                    assert(false);
                }
                return Err(BustubxError::Internal);
            },
        }
        proof {
            assert forall|q: PageId|
                q != rid.page_id && (#[trigger] m1.buffer_pool.resident(q)) implies old(self).buffer_pool.resident(q) && m1.buffer_pool.pin_of(q) == old(self).buffer_pool.pin_of(q) by {
                assert(m1.buffer_pool.frame_data(q) == old(self).buffer_pool.frame_data(q));
            }
            Self::lemma_read_composition(old(self), &m1, self, rid.page_id);
        }
        result
    }

    /// Read the tuple at `rid`, under the name the heap's callers first
    /// used for it.
    pub fn get_tuple(&mut self, rid: Rid) -> (r: BustubxResult<(TupleMeta, Tuple)>)
        requires
            old(self).wf(),
        ensures
            final(self).wf(),
            final(self).schema.types() == old(self).schema.types(),
            final(self).first_page_id == old(self).first_page_id,
            final(self).last_page_id == old(self).last_page_id,
            TableHeap::pages_preserved(old(self), final(self)),
            TableHeap::pins_released(old(self), final(self)),
            ({
                let b = old(self).page_bytes_of(rid.page_id);
                let slot = spec_slot_parsed(b, rid.slot_num as int);
                &&& (r matches Ok((m, t)) ==> m == slot.2 && t.schema.types() == old(self).schema.types() && t.data@ == spec_tuple_decoded(
                    old(self).schema.types(),
                    b.subrange(slot.0 as int, slot.0 + slot.1),
                ))
                &&& (old(self).can_fetch(rid.page_id) ==> (r is Ok <==> spec_parsed_wf(b) && (
                rid.slot_num as int) < spec_parsed_num_tuples(b) && spec_schema_width(
                    old(self).schema.types(),
                ) <= slot.1 as int))
            }),
    {
        self.tuple(rid)
    }

    /// Read only the metadata of the tuple at `rid`, under the name the
    /// heap's callers first used for it.
    pub fn get_tuple_meta(&mut self, rid: Rid) -> (r: BustubxResult<TupleMeta>)
        requires
            old(self).wf(),
        ensures
            final(self).wf(),
            final(self).schema.types() == old(self).schema.types(),
            final(self).first_page_id == old(self).first_page_id,
            final(self).last_page_id == old(self).last_page_id,
            TableHeap::pages_preserved(old(self), final(self)),
            TableHeap::pins_released(old(self), final(self)),
            ({
                let b = old(self).page_bytes_of(rid.page_id);
                &&& (r matches Ok(m) ==> m == spec_slot_parsed(b, rid.slot_num as int).2)
                &&& (old(self).can_fetch(rid.page_id) ==> (r is Ok <==> spec_parsed_wf(b) && (
                rid.slot_num as int) < spec_parsed_num_tuples(b)))
            }),
    {
        self.tuple_meta(rid)
    }

    /// The first record of the heap: slot 0 of the first page, or `None`
    /// on an empty heap (or when the first page cannot be fetched).
    pub fn get_first_rid(&mut self) -> (r: Option<Rid>)
        requires
            old(self).wf(),
        ensures
            final(self).wf(),
            final(self).schema.types() == old(self).schema.types(),
            final(self).first_page_id == old(self).first_page_id,
            final(self).last_page_id == old(self).last_page_id,
            TableHeap::pages_preserved(old(self), final(self)),
            TableHeap::pins_released(old(self), final(self)),
            old(self).can_fetch(old(self).first_page_id) ==> (r is Some <==> spec_parsed_num_tuples(
                old(self).page_bytes_of(old(self).first_page_id),
            ) > 0),
            r matches Some(rid) ==> rid.page_id == old(self).first_page_id && rid.slot_num == 0,
    {
        let first_page_id = self.first_page_id;
        let page_data = match self.buffer_pool.fetch_page(first_page_id) {
            Ok(d) => d,
            Err(_) => {
                return None;
            },
        };
        let ghost m1 = *self;
        proof {
            assert(page_data@ == old(self).page_bytes_of(first_page_id));
        }
        let table_page = TablePage::from_bytes(page_data.as_slice());
        let result: Option<Rid> = if table_page.num_tuples == 0 {
            None
        } else {
            Some(Rid::new(first_page_id, 0))
        };
        match self.buffer_pool.unpin_page(first_page_id, false) {
            Ok(()) => (),
            Err(_) => {
                proof {
                    assert(false);
                }
                return None;
            },
        }
        proof {
            assert forall|q: PageId|
                q != first_page_id && (#[trigger] m1.buffer_pool.resident(q)) implies old(self).buffer_pool.resident(q) && m1.buffer_pool.pin_of(q) == old(self).buffer_pool.pin_of(q) by {
                assert(m1.buffer_pool.frame_data(q) == old(self).buffer_pool.frame_data(q));
            }
            Self::lemma_read_composition(old(self), &m1, self, first_page_id);
        }
        result
    }

    /// The record after `rid` in heap order: the next slot of its page,
    /// else slot 0 of the first non-empty page further down the chain;
    /// `None` past the end of the chain (or when a page cannot be
    /// fetched).
    pub fn get_next_rid(&mut self, rid: Rid) -> (r: Option<Rid>)
        requires
            old(self).wf(),
        ensures
            final(self).wf(),
            final(self).schema.types() == old(self).schema.types(),
            final(self).first_page_id == old(self).first_page_id,
            final(self).last_page_id == old(self).last_page_id,
            TableHeap::pages_preserved(old(self), final(self)),
            TableHeap::pins_released(old(self), final(self)),
            final(self).buffer_pool.disk.pages@.len() == old(self).buffer_pool.disk.pages@.len(),
            ({
                let b = old(self).page_bytes_of(rid.page_id);
                &&& (old(self).can_fetch(rid.page_id) && rid.slot_num as int + 1
                    < spec_parsed_num_tuples(b) ==> r == Some(
                    Rid { page_id: rid.page_id, slot_num: (rid.slot_num + 1) as u32 },
                ))
                &&& (old(self).can_fetch(rid.page_id) && rid.slot_num as int + 1
                    >= spec_parsed_num_tuples(b) && spec_parsed_next_page_id(b)
                    == INVALID_PAGE_ID ==> r is None)
                &&& (r matches Some(n) ==> (n.page_id != rid.page_id ==> n.slot_num == 0
                    && spec_parsed_num_tuples(final(self).page_bytes_of(n.page_id)) > 0))
            }),
    {
        let page_data = match self.buffer_pool.fetch_page(rid.page_id) {
            Ok(d) => d,
            Err(_) => {
                return None;
            },
        };
        let ghost m1 = *self;
        proof {
            assert(page_data@ == old(self).page_bytes_of(rid.page_id));
        }
        let table_page = TablePage::from_bytes(page_data.as_slice());
        let next_rid = table_page.get_next_rid(&rid);
        match self.buffer_pool.unpin_page(rid.page_id, false) {
            Ok(()) => (),
            Err(_) => {
                proof {
                    assert(false);
                }
                return None;
            },
        }
        proof {
            assert forall|q: PageId|
                q != rid.page_id && (#[trigger] m1.buffer_pool.resident(q)) implies old(self).buffer_pool.resident(q) && m1.buffer_pool.pin_of(q) == old(self).buffer_pool.pin_of(q) by {
                assert(m1.buffer_pool.frame_data(q) == old(self).buffer_pool.frame_data(q));
            }
            Self::lemma_read_composition(old(self), &m1, self, rid.page_id);
        }
        if next_rid.is_some() {
            return next_rid;
        }
        // walk the chain, skipping any run of empty pages
        let mut next_page_id = table_page.next_page_id;
        let mut fuel = self.buffer_pool.disk.page_count();
        while next_page_id != INVALID_PAGE_ID && fuel > 0
            invariant
                self.wf(),
                self.schema.types() == old(self).schema.types(),
                self.first_page_id == old(self).first_page_id,
                self.last_page_id == old(self).last_page_id,
                TableHeap::pages_preserved(old(self), self),
                TableHeap::pins_released(old(self), self),
                self.buffer_pool.disk.pages@.len() == old(self).buffer_pool.disk.pages@.len(),
                rid.slot_num as int + 1 >= spec_parsed_num_tuples(
                    old(self).page_bytes_of(rid.page_id),
                ),
                next_page_id == INVALID_PAGE_ID || spec_parsed_next_page_id(
                    old(self).page_bytes_of(rid.page_id),
                ) != INVALID_PAGE_ID,
            decreases fuel,
        {
            if next_page_id == rid.page_id || (next_page_id as usize)
                >= self.buffer_pool.disk.page_count() {
                return None;
            }
            let ghost h_loop = *self;
            let next_page_data = match self.buffer_pool.fetch_page(next_page_id) {
                Ok(d) => d,
                Err(_) => {
                    proof {
                        assert forall|q: PageId|
                            (q as int) < h_loop.buffer_pool.disk.pages@.len() implies (
                        #[trigger] self.page_bytes_of(q)) == h_loop.page_bytes_of(q) by {}
                        assert forall|q: PageId|
                            h_loop.buffer_pool.resident(q) && self.buffer_pool.resident(q) implies (
                        #[trigger] self.buffer_pool.pin_of(q)) == h_loop.buffer_pool.pin_of(
                            q,
                        ) by {}
                        assert forall|q: PageId|
                            self.buffer_pool.resident(q) && !h_loop.buffer_pool.resident(q) implies (
                        #[trigger] self.buffer_pool.pin_of(q)) == 0 by {}
                        assert forall|q: PageId|
                            h_loop.buffer_pool.resident(q) && !self.buffer_pool.resident(q) implies (
                        #[trigger] h_loop.buffer_pool.pin_of(q)) == 0 by {}
                        Self::lemma_preservation_chain(old(self), &h_loop, self);
                    }
                    return None;
                },
            };
            let ghost m2 = *self;
            proof {
                assert(next_page_data@ == h_loop.page_bytes_of(next_page_id));
            }
            let next_table_page = TablePage::from_bytes(next_page_data.as_slice());
            match self.buffer_pool.unpin_page(next_page_id, false) {
                Ok(()) => (),
                Err(_) => {
                    proof {
                        assert(false);
                    }
                    return None;
                },
            }
            proof {
                assert forall|q: PageId|
                    q != next_page_id && (#[trigger] m2.buffer_pool.resident(q)) implies
                    h_loop.buffer_pool.resident(q) && m2.buffer_pool.pin_of(q)
                    == h_loop.buffer_pool.pin_of(q) by {
                    assert(m2.buffer_pool.frame_data(q) == h_loop.buffer_pool.frame_data(q));
                }
                Self::lemma_read_composition(&h_loop, &m2, self, next_page_id);
                Self::lemma_preservation_chain(old(self), &h_loop, self);
            }
            if next_table_page.num_tuples > 0 {
                proof {
                    assert(self.page_bytes_of(next_page_id) == h_loop.page_bytes_of(next_page_id));
                }
                return Some(Rid::new(next_page_id, 0));
            }
            next_page_id = next_table_page.next_page_id;
            fuel = fuel - 1;
        }
        None
    }

    /// Page contents and pin discipline compose across two steps.
    proof fn lemma_preservation_chain(h0: &TableHeap, h1: &TableHeap, h2: &TableHeap)
        requires
            TableHeap::pages_preserved(h0, h1),
            TableHeap::pins_released(h0, h1),
            TableHeap::pages_preserved(h1, h2),
            TableHeap::pins_released(h1, h2),
            h1.buffer_pool.disk.pages@.len() >= h0.buffer_pool.disk.pages@.len(),
        ensures
            TableHeap::pages_preserved(h0, h2),
            TableHeap::pins_released(h0, h2),
    {
        assert forall|q: PageId|
            (q as int) < h0.buffer_pool.disk.pages@.len() implies (#[trigger] h2.page_bytes_of(q))
            == h0.page_bytes_of(q) by {
            assert(h1.page_bytes_of(q) == h0.page_bytes_of(q));
        }
        assert forall|q: PageId|
            h0.buffer_pool.resident(q) && h2.buffer_pool.resident(q) implies (
        #[trigger] h2.buffer_pool.pin_of(q)) == h0.buffer_pool.pin_of(q) by {
            if h1.buffer_pool.resident(q) {
                assert(h1.buffer_pool.pin_of(q) == h0.buffer_pool.pin_of(q));
            } else {
                // the page was dropped unpinned and faulted back in
                assert(h0.buffer_pool.pin_of(q) == 0);
                assert(h2.buffer_pool.pin_of(q) == 0);
            }
        }
        assert forall|q: PageId|
            h2.buffer_pool.resident(q) && !h0.buffer_pool.resident(q) implies (
        #[trigger] h2.buffer_pool.pin_of(q)) == 0 by {
            if h1.buffer_pool.resident(q) {
                assert(h1.buffer_pool.pin_of(q) == 0);
            }
        }
        assert forall|q: PageId|
            h0.buffer_pool.resident(q) && !h2.buffer_pool.resident(q) implies (
        #[trigger] h0.buffer_pool.pin_of(q)) == 0 by {
            if h1.buffer_pool.resident(q) {
                assert(h1.buffer_pool.pin_of(q) == 0);
            }
        }
    }

    /// Rewrite the metadata of the tuple at `rid`: the slot keeps its
    /// offset and size, every other byte of the page keeps its meaning,
    /// and a tuple turning deleted is counted.
    #[verifier::rlimit(100)]
    #[verifier::spinoff_prover]
    pub fn update_tuple_meta(&mut self, meta: &TupleMeta, rid: Rid) -> (r: BustubxResult<()>)
        requires
            old(self).wf(),
        ensures
            final(self).wf(),
            final(self).schema.types() == old(self).schema.types(),
            final(self).first_page_id == old(self).first_page_id,
            final(self).last_page_id == old(self).last_page_id,
            TableHeap::pages_preserved_except(old(self), final(self), rid.page_id, rid.page_id),
            TableHeap::pins_released(old(self), final(self)),
            r is Err ==> TableHeap::pages_preserved(old(self), final(self)),
            ({
                let b = old(self).page_bytes_of(rid.page_id);
                &&& (old(self).can_fetch(rid.page_id) ==> (r is Ok <==> spec_parsed_wf(b) && (
                rid.slot_num as int) < spec_parsed_num_tuples(b) && spec_parsed_num_deleted(b)
                    < u16::MAX))
                &&& (r is Ok ==> {
                    let b2 = final(self).page_bytes_of(rid.page_id);
                    let n = spec_parsed_num_tuples(b);
                    &&& spec_parsed_wf(b2)
                    &&& spec_parsed_num_tuples(b2) == n
                    &&& spec_parsed_next_page_id(b2) == spec_parsed_next_page_id(b)
                    &&& spec_slot_parsed(b2, rid.slot_num as int).0 == spec_slot_parsed(
                        b,
                        rid.slot_num as int,
                    ).0
                    &&& spec_slot_parsed(b2, rid.slot_num as int).1 == spec_slot_parsed(
                        b,
                        rid.slot_num as int,
                    ).1
                    &&& spec_slot_parsed(b2, rid.slot_num as int).2 == *meta
                    &&& (forall|i: int|
                        0 <= i < n && i != rid.slot_num ==> (#[trigger] spec_slot_parsed(b2, i))
                            == spec_slot_parsed(b, i))
                    &&& (forall|i: int|
                        0 <= i < n ==> (#[trigger] b2.subrange(
                            spec_slot_parsed(b, i).0 as int,
                            spec_slot_parsed(b, i).0 + spec_slot_parsed(b, i).1,
                        )) == b.subrange(
                            spec_slot_parsed(b, i).0 as int,
                            spec_slot_parsed(b, i).0 + spec_slot_parsed(b, i).1,
                        ))
                    &&& spec_parsed_num_deleted(b2) == spec_parsed_num_deleted(b) + (
                    if meta.is_deleted && !spec_slot_parsed(b, rid.slot_num as int).2.is_deleted {
                        1int
                    } else {
                        0int
                    })
                })
            }),
    {
        let page_data = match self.buffer_pool.fetch_page(rid.page_id) {
            Ok(d) => d,
            Err(e) => {
                return Err(e);
            },
        };
        let ghost m1 = *self;
        let ghost b = old(self).page_bytes_of(rid.page_id);
        proof {
            assert(page_data@ == b);
        }
        let mut table_page = TablePage::from_bytes(page_data.as_slice());
        proof {
            lemma_parsed_wf(&table_page, b);
        }
        if !table_page.is_well_formed() || rid.slot_num >= table_page.num_tuples as u32
            || table_page.num_deleted_tuples == u16::MAX {
            let result = Err(BustubxError::InvalidRid);
            match self.buffer_pool.unpin_page(rid.page_id, false) {
                Ok(()) => (),
                Err(_) => {
                    proof {
                        assert(false);
                    }
                    return Err(BustubxError::Internal);
                },
            }
            proof {
                assert forall|q: PageId|
                    q != rid.page_id && (#[trigger] m1.buffer_pool.resident(q)) implies old(self).buffer_pool.resident(q) && m1.buffer_pool.pin_of(q) == old(self).buffer_pool.pin_of(q) by {
                    assert(m1.buffer_pool.frame_data(q) == old(self).buffer_pool.frame_data(q));
                }
                Self::lemma_read_composition(old(self), &m1, self, rid.page_id);
            }
            return result;
        }
        let ghost p0 = table_page;
        table_page.update_tuple_meta(meta, &rid);
        let bytes = table_page.to_bytes();
        proof {
            Self::lemma_update_image(&p0, &table_page, b, bytes@, rid.slot_num as int);
        }
        match self.buffer_pool.write_page(rid.page_id, bytes) {
            Ok(()) => (),
            Err(_) => {
                proof {
                    assert(false);
                }
                return Err(BustubxError::Internal);
            },
        }
        let ghost m2 = *self;
        match self.buffer_pool.unpin_page(rid.page_id, true) {
            Ok(()) => (),
            Err(_) => {
                proof {
                    assert(false);
                }
                return Err(BustubxError::Internal);
            },
        }
        proof {
            assert forall|q: PageId|
                q != rid.page_id && (#[trigger] m1.buffer_pool.resident(q)) implies old(self).buffer_pool.resident(q) && m1.buffer_pool.pin_of(q) == old(self).buffer_pool.pin_of(q) by {
                assert(m1.buffer_pool.frame_data(q) == old(self).buffer_pool.frame_data(q));
            }
            Self::lemma_update_composition(old(self), &m1, &m2, self, rid.page_id);
        }
        Ok(())
    }

    /// Rewriting one slot's metadata changes the page image only there:
    /// the header counts, the other slots, and every payload read back
    /// unchanged from the re-encoded image.
    #[verifier::rlimit(100)]
    #[verifier::spinoff_prover]
    proof fn lemma_update_image(p0: &TablePage, p1: &TablePage, b: Seq<u8>, b2: Seq<u8>, slot: int)
        requires
            b.len() == BUSTUBX_PAGE_SIZE,
            p0.data@ == b,
            p0.num_tuples as int == spec_parsed_num_tuples(b),
            p0.num_deleted_tuples as int == spec_parsed_num_deleted(b),
            p0.next_page_id as int == spec_parsed_next_page_id(b),
            p0.wf(),
            0 <= slot < p0.num_tuples,
            forall|i: int|
                0 <= i < p0.tuple_info@.len() ==> (#[trigger] p0.tuple_info@[i])
                    == spec_slot_parsed(b, i),
            p1.wf(),
            p1.data@ == p0.data@,
            p1.next_page_id == p0.next_page_id,
            p1.num_tuples == p0.num_tuples,
            p1.tuple_info@.len() == p0.tuple_info@.len(),
            forall|i: int|
                0 <= i < p0.tuple_info@.len() && i != slot ==> (#[trigger] p1.tuple_info@[i])
                    == p0.tuple_info@[i],
            p1.tuple_info@[slot].0 == p0.tuple_info@[slot].0,
            p1.tuple_info@[slot].1 == p0.tuple_info@[slot].1,
            b2.len() == BUSTUBX_PAGE_SIZE,
            forall|k: int|
                0 <= k < BUSTUBX_PAGE_SIZE ==> (#[trigger] b2[k])
                    == crate::table_page::spec_page_byte(p1, k),
        ensures
            spec_parsed_wf(b2),
            spec_parsed_num_tuples(b2) == spec_parsed_num_tuples(b),
            spec_parsed_num_deleted(b2) == p1.num_deleted_tuples,
            spec_parsed_next_page_id(b2) == spec_parsed_next_page_id(b),
            spec_slot_parsed(b2, slot).0 == spec_slot_parsed(b, slot).0,
            spec_slot_parsed(b2, slot).1 == spec_slot_parsed(b, slot).1,
            spec_slot_parsed(b2, slot).2 == p1.tuple_info@[slot].2,
            forall|i: int|
                0 <= i < spec_parsed_num_tuples(b) && i != slot ==> (#[trigger] spec_slot_parsed(
                    b2,
                    i,
                )) == spec_slot_parsed(b, i),
            forall|i: int|
                0 <= i < spec_parsed_num_tuples(b) ==> (#[trigger] b2.subrange(
                    spec_slot_parsed(b, i).0 as int,
                    spec_slot_parsed(b, i).0 + spec_slot_parsed(b, i).1,
                )) == b.subrange(
                    spec_slot_parsed(b, i).0 as int,
                    spec_slot_parsed(b, i).0 + spec_slot_parsed(b, i).1,
                ),
    {
        crate::table_page::lemma_encoding_parses_wf(p1, b2);
        assert forall|i: int|
            0 <= i < spec_parsed_num_tuples(b) implies (#[trigger] b2.subrange(
            spec_slot_parsed(b, i).0 as int,
            spec_slot_parsed(b, i).0 + spec_slot_parsed(b, i).1,
        )) == b.subrange(
            spec_slot_parsed(b, i).0 as int,
            spec_slot_parsed(b, i).0 + spec_slot_parsed(b, i).1,
        ) by {
            lemma_payloads_above_directory(p1, i);
            lemma_slot_in_page(p1.tuple_info@, i);
            assert(p1.tuple_info@[i].0 == spec_slot_parsed(b, i).0);
            assert(p1.tuple_info@[i].1 == spec_slot_parsed(b, i).1);
            let off = spec_slot_parsed(b, i).0 as int;
            let size = spec_slot_parsed(b, i).1 as int;
            assert forall|k: int| off <= k < off + size implies b2[k] == b[k] by {
                assert(b2[k] == p1.data@[k]);
            }
            assert(b2.subrange(off, off + size) =~= b.subrange(off, off + size));
        }
    }

    /// Insert a tuple at the end of the heap: into the last page when it
    /// fits, else into a freshly allocated page linked after it. A tuple
    /// whose encoding exceeds an empty page's capacity is rejected.
    #[verifier::rlimit(100)]
    #[verifier::spinoff_prover]
    pub fn insert_tuple(&mut self, meta: &TupleMeta, tuple: &Tuple) -> (r: BustubxResult<Rid>)
        requires
            old(self).wf(),
        ensures
            final(self).wf(),
            final(self).schema.types() == old(self).schema.types(),
            final(self).first_page_id == old(self).first_page_id,
            TableHeap::pins_released(old(self), final(self)),
            r is Err ==> final(self).last_page_id == old(self).last_page_id
                && TableHeap::pages_preserved(old(self), final(self)),
            r == Err::<Rid, BustubxError>(BustubxError::TupleTooLarge) ==> spec_tuple_bytes(
                tuple.data@,
            ).len() > MAX_TUPLE_BYTES,
            ({
                let b = old(self).page_bytes_of(old(self).last_page_id);
                let enc = spec_tuple_bytes(tuple.data@);
                let ready = old(self).can_fetch(old(self).last_page_id) && spec_parsed_wf(b) && !(
                meta.is_deleted && spec_parsed_num_deleted(b) == u16::MAX);
                &&& (ready && spec_parsed_fits(b, enc.len() as int) ==> r is Ok && final(self).last_page_id == old(self).last_page_id)
                &&& (ready && !spec_parsed_fits(b, enc.len() as int) && enc.len()
                    > MAX_TUPLE_BYTES ==> r == Err::<Rid, BustubxError>(BustubxError::TupleTooLarge))
                &&& (r matches Ok(rid) ==> {
                    let b2 = final(self).page_bytes_of(rid.page_id);
                    &&& rid.page_id == final(self).last_page_id
                    &&& enc.len() <= MAX_TUPLE_BYTES
                    &&& spec_parsed_wf(b2)
                    &&& rid.slot_num as int == spec_parsed_num_tuples(b2) - 1
                    &&& spec_slot_parsed(b2, rid.slot_num as int).2 == *meta
                    &&& spec_slot_parsed(b2, rid.slot_num as int).1 as int == enc.len()
                    &&& b2.subrange(
                        spec_slot_parsed(b2, rid.slot_num as int).0 as int,
                        spec_slot_parsed(b2, rid.slot_num as int).0 + enc.len(),
                    ) == enc
                    &&& (rid.page_id == old(self).last_page_id ==> {
                        &&& spec_parsed_num_tuples(b2) == spec_parsed_num_tuples(b) + 1
                        &&& spec_parsed_next_page_id(b2) == spec_parsed_next_page_id(b)
                        &&& (forall|i: int|
                            0 <= i < spec_parsed_num_tuples(b) ==> (#[trigger] spec_slot_parsed(
                                b2,
                                i,
                            )) == spec_slot_parsed(b, i))
                        &&& (forall|i: int|
                            0 <= i < spec_parsed_num_tuples(b) ==> (#[trigger] b2.subrange(
                                spec_slot_parsed(b, i).0 as int,
                                spec_slot_parsed(b, i).0 + spec_slot_parsed(b, i).1,
                            )) == b.subrange(
                                spec_slot_parsed(b, i).0 as int,
                                spec_slot_parsed(b, i).0 + spec_slot_parsed(b, i).1,
                            ))
                        &&& TableHeap::pages_preserved_except(
                            old(self),
                            final(self),
                            rid.page_id,
                            rid.page_id,
                        )
                    })
                    &&& (rid.page_id != old(self).last_page_id ==> {
                        let bl = final(self).page_bytes_of(old(self).last_page_id);
                        &&& rid.page_id as int == old(self).buffer_pool.disk.pages@.len()
                        &&& rid.slot_num == 0
                        &&& spec_parsed_num_tuples(b2) == 1
                        &&& spec_parsed_next_page_id(b2) == INVALID_PAGE_ID
                        &&& spec_parsed_wf(bl)
                        &&& spec_parsed_num_tuples(bl) == spec_parsed_num_tuples(b)
                        &&& spec_parsed_next_page_id(bl) == rid.page_id
                        &&& (forall|i: int|
                            0 <= i < spec_parsed_num_tuples(b) ==> (#[trigger] spec_slot_parsed(
                                bl,
                                i,
                            )) == spec_slot_parsed(b, i))
                        &&& (forall|i: int|
                            0 <= i < spec_parsed_num_tuples(b) ==> (#[trigger] bl.subrange(
                                spec_slot_parsed(b, i).0 as int,
                                spec_slot_parsed(b, i).0 + spec_slot_parsed(b, i).1,
                            )) == b.subrange(
                                spec_slot_parsed(b, i).0 as int,
                                spec_slot_parsed(b, i).0 + spec_slot_parsed(b, i).1,
                            ))
                        &&& TableHeap::pages_preserved_except(
                            old(self),
                            final(self),
                            old(self).last_page_id,
                            rid.page_id,
                        )
                    })
                })
            }),
    {
        let bytes = encode_tuple(tuple);
        let page_tuple = PageTuple::new(bytes);
        let last_page_id = self.last_page_id;
        let page_data = match self.buffer_pool.fetch_page(last_page_id) {
            Ok(d) => d,
            Err(e) => {
                return Err(e);
            },
        };
        let ghost m1 = *self;
        let ghost b = old(self).page_bytes_of(last_page_id);
        proof {
            assert(page_data@ == b);
        }
        let mut last_page = TablePage::from_bytes(page_data.as_slice());
        proof {
            lemma_parsed_wf(&last_page, b);
        }
        if !last_page.is_well_formed() || (meta.is_deleted && last_page.num_deleted_tuples
            == u16::MAX) {
            let result = Err(BustubxError::Internal);
            match self.buffer_pool.unpin_page(last_page_id, false) {
                Ok(()) => (),
                Err(_) => {
                    proof {
                        assert(false);
                    }
                    return Err(BustubxError::Internal);
                },
            }
            proof {
                assert forall|q: PageId|
                    q != last_page_id && (#[trigger] m1.buffer_pool.resident(q)) implies old(self).buffer_pool.resident(q) && m1.buffer_pool.pin_of(q) == old(self).buffer_pool.pin_of(q) by {
                    assert(m1.buffer_pool.frame_data(q) == old(self).buffer_pool.frame_data(q));
                }
                Self::lemma_read_composition(old(self), &m1, self, last_page_id);
            }
            return result;
        }
        let fits = last_page.get_next_tuple_offset(meta, &page_tuple);
        proof {
            assert(crate::table_page::TABLE_PAGE_HEADER_SIZE == 8);
            assert(spec_parsed_fits(b, page_tuple.data@.len() as int)
                <==> crate::table_page::spec_next_tuple_offset(
                &last_page,
                page_tuple.data@.len() as int,
            ) is Some);
        }
        if fits.is_some() {
            let ghost p0 = last_page;
            proof {
                // a tuple accepted by a page fits an empty page
                if p0.num_tuples > 0 {
                    lemma_slot_in_page(p0.tuple_info@, p0.num_tuples as int - 1);
                }
            }
            let slot = match last_page.insert_tuple(meta, &page_tuple) {
                Some(slot) => slot,
                None => {
                    proof {
                        assert(false);
                    }
                    return Err(BustubxError::Internal);
                },
            };
            let out = last_page.to_bytes();
            proof {
                Self::lemma_insert_image(&p0, &last_page, b, out@, page_tuple.data@, *meta);
            }
            match self.buffer_pool.write_page(last_page_id, out) {
                Ok(()) => (),
                Err(_) => {
                    proof {
                        assert(false);
                    }
                    return Err(BustubxError::Internal);
                },
            }
            let ghost m2 = *self;
            match self.buffer_pool.unpin_page(last_page_id, true) {
                Ok(()) => (),
                Err(_) => {
                    proof {
                        assert(false);
                    }
                    return Err(BustubxError::Internal);
                },
            }
            proof {
                assert forall|q: PageId|
                    q != last_page_id && (#[trigger] m1.buffer_pool.resident(q)) implies old(self).buffer_pool.resident(q) && m1.buffer_pool.pin_of(q) == old(self).buffer_pool.pin_of(q) by {
                    assert(m1.buffer_pool.frame_data(q) == old(self).buffer_pool.frame_data(q));
                }
                Self::lemma_update_composition(old(self), &m1, &m2, self, last_page_id);
            }
            return Ok(Rid::new(last_page_id, slot as u32));
        }
        // the tuple does not fit on the last page: release it first
        let result_pre: BustubxResult<Rid> = if page_tuple.data.len() > MAX_TUPLE_BYTES {
            Err(BustubxError::TupleTooLarge)
        } else {
            Ok(Rid::new(0, 0))
        };
        match self.buffer_pool.unpin_page(last_page_id, false) {
            Ok(()) => (),
            Err(_) => {
                proof {
                    assert(false);
                }
                return Err(BustubxError::Internal);
            },
        }
        proof {
            assert forall|q: PageId|
                q != last_page_id && (#[trigger] m1.buffer_pool.resident(q)) implies old(self).buffer_pool.resident(q) && m1.buffer_pool.pin_of(q) == old(self).buffer_pool.pin_of(q) by {
                assert(m1.buffer_pool.frame_data(q) == old(self).buffer_pool.frame_data(q));
            }
            Self::lemma_read_composition(old(self), &m1, self, last_page_id);
        }
        if result_pre.is_err() {
            return Err(BustubxError::TupleTooLarge);
        }
        let ghost m2 = *self;
        let r = self.spill_insert(meta, &page_tuple, last_page_id);
        proof {
            Self::lemma_preservation_chain_pins(old(self), &m2, self);
            assert(m2.page_bytes_of(last_page_id) == old(self).page_bytes_of(last_page_id));
            if r is Err {
                assert forall|q: PageId|
                    (q as int) < old(self).buffer_pool.disk.pages@.len() implies (
                #[trigger] self.page_bytes_of(q)) == old(self).page_bytes_of(q) by {
                    assert(m2.page_bytes_of(q) == old(self).page_bytes_of(q));
                }
            } else {
                let rid = r->Ok_0;
                assert forall|q: PageId|
                    q != last_page_id && q != rid.page_id && (q as int) < old(self).buffer_pool.disk.pages@.len() implies (#[trigger] self.page_bytes_of(q)) == old(self).page_bytes_of(q) by {
                    assert(m2.page_bytes_of(q) == old(self).page_bytes_of(q));
                }
            }
        }
        r
    }

    /// Pin discipline composes across two steps (contents handled at the
    /// call sites, where the changed pages are known).
    proof fn lemma_preservation_chain_pins(h0: &TableHeap, h1: &TableHeap, h2: &TableHeap)
        requires
            TableHeap::pins_released(h0, h1),
            TableHeap::pins_released(h1, h2),
        ensures
            TableHeap::pins_released(h0, h2),
    {
        assert forall|q: PageId|
            h0.buffer_pool.resident(q) && h2.buffer_pool.resident(q) implies (
        #[trigger] h2.buffer_pool.pin_of(q)) == h0.buffer_pool.pin_of(q) by {
            if h1.buffer_pool.resident(q) {
                assert(h1.buffer_pool.pin_of(q) == h0.buffer_pool.pin_of(q));
            } else {
                assert(h0.buffer_pool.pin_of(q) == 0);
                assert(h2.buffer_pool.pin_of(q) == 0);
            }
        }
        assert forall|q: PageId|
            h2.buffer_pool.resident(q) && !h0.buffer_pool.resident(q) implies (
        #[trigger] h2.buffer_pool.pin_of(q)) == 0 by {
            if h1.buffer_pool.resident(q) {
                assert(h1.buffer_pool.pin_of(q) == 0);
            }
        }
        assert forall|q: PageId|
            h0.buffer_pool.resident(q) && !h2.buffer_pool.resident(q) implies (
        #[trigger] h0.buffer_pool.pin_of(q)) == 0 by {
            if h1.buffer_pool.resident(q) {
                assert(h1.buffer_pool.pin_of(q) == 0);
            }
        }
    }


    /// Spill one tuple onto a freshly allocated page linked after the
    /// current last page, which the caller has already released.
    #[verifier::rlimit(100)]
    #[verifier::spinoff_prover]
    fn spill_insert(&mut self, meta: &TupleMeta, page_tuple: &PageTuple, last_page_id: PageId) -> (r: BustubxResult<Rid>)
        requires
            old(self).wf(),
            page_tuple.data@.len() <= MAX_TUPLE_BYTES,
            last_page_id == old(self).last_page_id,
            spec_parsed_wf(old(self).page_bytes_of(last_page_id)),
        ensures
            final(self).wf(),
            final(self).schema.types() == old(self).schema.types(),
            final(self).first_page_id == old(self).first_page_id,
            TableHeap::pins_released(old(self), final(self)),
            r is Err ==> final(self).last_page_id == old(self).last_page_id
                && TableHeap::pages_preserved(old(self), final(self)),
            r is Err ==> r == Err::<Rid, BustubxError>(BustubxError::Io) || r == Err::<
                Rid,
                BustubxError,
            >(BustubxError::BufferPoolExhausted) || r == Err::<Rid, BustubxError>(
                BustubxError::Internal,
            ),
            r matches Ok(rid) ==> ({
                let b = old(self).page_bytes_of(last_page_id);
                let b2 = final(self).page_bytes_of(rid.page_id);
                let bl = final(self).page_bytes_of(last_page_id);
                let enc = page_tuple.data@;
                &&& rid.page_id == final(self).last_page_id
                &&& rid.page_id != last_page_id
                &&& rid.page_id as int == old(self).buffer_pool.disk.pages@.len()
                &&& rid.slot_num == 0
                &&& spec_parsed_wf(b2)
                &&& spec_parsed_num_tuples(b2) == 1
                &&& spec_parsed_next_page_id(b2) == INVALID_PAGE_ID
                &&& spec_slot_parsed(b2, 0).2 == *meta
                &&& spec_slot_parsed(b2, 0).1 as int == enc.len()
                &&& b2.subrange(
                    spec_slot_parsed(b2, 0).0 as int,
                    spec_slot_parsed(b2, 0).0 + enc.len(),
                ) == enc
                &&& spec_parsed_wf(bl)
                &&& spec_parsed_num_tuples(bl) == spec_parsed_num_tuples(b)
                &&& spec_parsed_next_page_id(bl) == rid.page_id
                &&& (forall|i: int|
                    0 <= i < spec_parsed_num_tuples(b) ==> (#[trigger] spec_slot_parsed(bl, i))
                        == spec_slot_parsed(b, i))
                &&& (forall|i: int|
                    0 <= i < spec_parsed_num_tuples(b) ==> (#[trigger] bl.subrange(
                        spec_slot_parsed(b, i).0 as int,
                        spec_slot_parsed(b, i).0 + spec_slot_parsed(b, i).1,
                    )) == b.subrange(
                        spec_slot_parsed(b, i).0 as int,
                        spec_slot_parsed(b, i).0 + spec_slot_parsed(b, i).1,
                    ))
                &&& TableHeap::pages_preserved_except(
                    old(self),
                    final(self),
                    last_page_id,
                    rid.page_id,
                )
            }),
    {
        let ghost b = old(self).page_bytes_of(last_page_id);
        // build the spill page holding the tuple
        let next_page_id = match self.alloc_page_with_tuple(meta, page_tuple) {
            Ok(pid) => pid,
            Err(e) => {
                return Err(e);
            },
        };
        let ghost m3 = *self;
        // link the old last page forward
        let page_data2 = match self.buffer_pool.fetch_page(last_page_id) {
            Ok(d) => d,
            Err(_) => {
                proof {
                    assert forall|q: PageId|
                        (q as int) < m3.buffer_pool.disk.pages@.len() implies (
                    #[trigger] self.page_bytes_of(q)) == m3.page_bytes_of(q) by {}
                    assert forall|q: PageId|
                        m3.buffer_pool.resident(q) && self.buffer_pool.resident(q) implies (
                    #[trigger] self.buffer_pool.pin_of(q)) == m3.buffer_pool.pin_of(q) by {}
                    assert forall|q: PageId|
                        self.buffer_pool.resident(q) && !m3.buffer_pool.resident(q) implies (
                    #[trigger] self.buffer_pool.pin_of(q)) == 0 by {}
                    assert forall|q: PageId|
                        m3.buffer_pool.resident(q) && !self.buffer_pool.resident(q) implies (
                    #[trigger] m3.buffer_pool.pin_of(q)) == 0 by {}
                    Self::lemma_preservation_chain(old(self), &m3, self);
                }
                return Err(BustubxError::Internal);
            },
        };
        let ghost m4 = *self;
        proof {
            assert(page_data2@ == m3.page_bytes_of(last_page_id));
            assert(page_data2@ == b);
        }
        let mut link_page = TablePage::from_bytes(page_data2.as_slice());
        let ghost p0b = link_page;
        proof {
            lemma_parsed_wf(&link_page, b);
        }
        link_page.next_page_id = next_page_id;
        let out2 = link_page.to_bytes();
        proof {
            Self::lemma_relink_image(&p0b, &link_page, b, out2@);
        }
        match self.buffer_pool.write_page(last_page_id, out2) {
            Ok(()) => (),
            Err(_) => {
                proof {
                    assert(false);
                }
                return Err(BustubxError::Internal);
            },
        }
        let ghost m5 = *self;
        match self.buffer_pool.unpin_page(last_page_id, true) {
            Ok(()) => (),
            Err(_) => {
                proof {
                    assert(false);
                }
                return Err(BustubxError::Internal);
            },
        }
        self.last_page_id = next_page_id;
        proof {
            assert forall|q: PageId|
                q != last_page_id && (#[trigger] m4.buffer_pool.resident(q)) implies
                m3.buffer_pool.resident(q) && m4.buffer_pool.pin_of(q) == m3.buffer_pool.pin_of(
                q,
            ) by {
                assert(m4.buffer_pool.frame_data(q) == m3.buffer_pool.frame_data(q));
            }
            Self::lemma_update_composition(&m3, &m4, &m5, self, last_page_id);
            Self::lemma_insert_spill_composition(
                old(self),
                &m3,
                self,
                last_page_id,
                next_page_id,
            );
        }
        Ok(Rid::new(next_page_id, 0))
    }

    /// Compose the release-allocate-relink phases of a spilling insert:
    /// only the old last page and the fresh page changed, and no pins
    /// linger.
    proof fn lemma_insert_spill_composition(
        h0: &TableHeap,
        m3: &TableHeap,
        h6: &TableHeap,
        last: PageId,
        npid: PageId,
    )
        requires
            TableHeap::pages_preserved(h0, m3),
            TableHeap::pins_released(h0, m3),
            TableHeap::pages_preserved_except(m3, h6, last, last),
            TableHeap::pins_released(m3, h6),
            m3.buffer_pool.disk.pages@.len() >= h0.buffer_pool.disk.pages@.len(),
        ensures
            TableHeap::pages_preserved_except(h0, h6, last, npid),
            TableHeap::pins_released(h0, h6),
    {
        assert forall|q: PageId|
            q != last && q != npid && (q as int) < h0.buffer_pool.disk.pages@.len() implies (
        #[trigger] h6.page_bytes_of(q)) == h0.page_bytes_of(q) by {
            assert(m3.page_bytes_of(q) == h0.page_bytes_of(q));
        }
        assert forall|q: PageId|
            h0.buffer_pool.resident(q) && h6.buffer_pool.resident(q) implies (
        #[trigger] h6.buffer_pool.pin_of(q)) == h0.buffer_pool.pin_of(q) by {
            if m3.buffer_pool.resident(q) {
                assert(m3.buffer_pool.pin_of(q) == h0.buffer_pool.pin_of(q));
            } else {
                assert(h0.buffer_pool.pin_of(q) == 0);
                assert(h6.buffer_pool.pin_of(q) == 0);
            }
        }
        assert forall|q: PageId|
            h6.buffer_pool.resident(q) && !h0.buffer_pool.resident(q) implies (
        #[trigger] h6.buffer_pool.pin_of(q)) == 0 by {
            if m3.buffer_pool.resident(q) {
                assert(m3.buffer_pool.pin_of(q) == 0);
            }
        }
        assert forall|q: PageId|
            h0.buffer_pool.resident(q) && !h6.buffer_pool.resident(q) implies (
        #[trigger] h0.buffer_pool.pin_of(q)) == 0 by {
            if m3.buffer_pool.resident(q) {
                assert(m3.buffer_pool.pin_of(q) == 0);
            }
        }
    }

    /// Allocate a fresh page already holding one tuple, written through
    /// the pool and unpinned dirty.
    fn alloc_page_with_tuple(&mut self, meta: &TupleMeta, page_tuple: &PageTuple) -> (r:
        BustubxResult<PageId>)
        requires
            old(self).wf(),
            page_tuple.data@.len() <= MAX_TUPLE_BYTES,
        ensures
            final(self).wf(),
            final(self).schema.types() == old(self).schema.types(),
            final(self).first_page_id == old(self).first_page_id,
            final(self).last_page_id == old(self).last_page_id,
            TableHeap::pages_preserved(old(self), final(self)),
            TableHeap::pins_released(old(self), final(self)),
            old(self).buffer_pool.disk.pages@.len() + 1 < INVALID_PAGE_ID && old(self).buffer_pool.has_available_frame() ==> r is Ok,
            r is Err ==> r == Err::<PageId, BustubxError>(BustubxError::Io) || r == Err::<
                PageId,
                BustubxError,
            >(BustubxError::BufferPoolExhausted),
            r matches Ok(pid) ==> {
                let b2 = final(self).page_bytes_of(pid);
                &&& pid as int == old(self).buffer_pool.disk.pages@.len()
                &&& final(self).buffer_pool.disk.pages@.len() == old(self).buffer_pool.disk.pages@.len() + 1
                &&& spec_parsed_wf(b2)
                &&& spec_parsed_num_tuples(b2) == 1
                &&& spec_parsed_next_page_id(b2) == INVALID_PAGE_ID
                &&& spec_slot_parsed(b2, 0).1 as int == page_tuple.data@.len()
                &&& spec_slot_parsed(b2, 0).2 == *meta
                &&& b2.subrange(
                    spec_slot_parsed(b2, 0).0 as int,
                    spec_slot_parsed(b2, 0).0 + page_tuple.data@.len(),
                ) == page_tuple.data@
            },
    {
        let next_page_id = match self.buffer_pool.new_page() {
            Ok(pid) => pid,
            Err(e) => {
                return Err(e);
            },
        };
        let ghost m1 = *self;
        let mut next_page = TablePage::new(INVALID_PAGE_ID);
        let ghost p0 = next_page;
        let slot = match next_page.insert_tuple(meta, &page_tuple) {
            Some(s) => s,
            None => {
                proof {
                    assert(false);
                }
                return Err(BustubxError::Internal);
            },
        };
        let out = next_page.to_bytes();
        proof {
            crate::table_page::lemma_encoding_parses_wf(&next_page, out@);
            // slot 0 of the fresh page holds exactly the tuple's bytes
            crate::table_page::lemma_payloads_above_directory(&next_page, 0);
            lemma_slot_in_page(next_page.tuple_info@, 0);
            let off = next_page.tuple_info@[0].0 as int;
            let len = page_tuple.data@.len() as int;
            assert forall|k: int| off <= k < off + len implies out@[k] == page_tuple.data@[k
                - off] by {
                assert(out@[k] == next_page.data@[k]);
            }
            assert(out@.subrange(off, off + len) =~= page_tuple.data@);
        }
        match self.buffer_pool.write_page(next_page_id, out) {
            Ok(()) => (),
            Err(_) => {
                proof {
                    assert(false);
                }
                return Err(BustubxError::Internal);
            },
        }
        let ghost m2 = *self;
        match self.buffer_pool.unpin_page(next_page_id, true) {
            Ok(()) => (),
            Err(_) => {
                proof {
                    assert(false);
                }
                return Err(BustubxError::Internal);
            },
        }
        proof {
            assert forall|q: PageId|
                q != next_page_id && (#[trigger] m1.buffer_pool.resident(q)) implies old(self).buffer_pool.resident(q) && m1.buffer_pool.pin_of(q) == old(self).buffer_pool.pin_of(q) by {
                assert(m1.buffer_pool.frame_data(q) == old(self).buffer_pool.frame_data(q));
            }
            // the fresh page id was cached in no frame beforehand
            assert forall|i: int|
                0 <= i < old(self).buffer_pool.frames@.len() implies (#[trigger] old(self).buffer_pool.frames@[i]).page_id != next_page_id by {
                if old(self).buffer_pool.frames@[i].page_id != INVALID_PAGE_ID {
                    assert(old(self).buffer_pool.frames@[i].page_id < old(self).buffer_pool.disk.pages@.len());
                }
            }
            crate::buffer_pool::lemma_frame_index_of_pub(
                old(self).buffer_pool.frames@,
                next_page_id,
            );
            Self::lemma_update_composition(old(self), &m1, &m2, self, next_page_id);
            assert forall|q: PageId|
                (q as int) < old(self).buffer_pool.disk.pages@.len() implies (
            #[trigger] self.page_bytes_of(q)) == old(self).page_bytes_of(q) by {
                assert(q != next_page_id);
            }
        }
        Ok(next_page_id)
    }

    /// Appending one tuple changes the page image by one slot and its
    /// payload: the header count grows by one, the link and the existing
    /// slots and payloads keep their bytes, and the new slot holds the
    /// tuple.
    #[verifier::rlimit(100)]
    #[verifier::spinoff_prover]
    proof fn lemma_insert_image(p0: &TablePage, p1: &TablePage, b: Seq<u8>, b2: Seq<u8>, enc: Seq<u8>, meta: TupleMeta)
        requires
            b.len() == BUSTUBX_PAGE_SIZE,
            p0.data@ == b,
            p0.num_tuples as int == spec_parsed_num_tuples(b),
            p0.next_page_id as int == spec_parsed_next_page_id(b),
            p0.wf(),
            forall|i: int|
                0 <= i < p0.tuple_info@.len() ==> (#[trigger] p0.tuple_info@[i])
                    == spec_slot_parsed(b, i),
            p1.wf(),
            p1.next_page_id == p0.next_page_id,
            p1.num_tuples == p0.num_tuples + 1,
            p1.tuple_info@.len() == p0.tuple_info@.len() + 1,
            forall|i: int|
                0 <= i < p0.tuple_info@.len() ==> (#[trigger] p1.tuple_info@[i])
                    == p0.tuple_info@[i],
            p1.tuple_info@[p0.num_tuples as int].1 as int == enc.len(),
            p1.tuple_info@[p0.num_tuples as int].2 == meta,
            p1.data@ == p0.data@.subrange(
                0,
                p1.tuple_info@[p0.num_tuples as int].0 as int,
            ) + enc + p0.data@.subrange(
                p1.tuple_info@[p0.num_tuples as int].0 as int + enc.len(),
                BUSTUBX_PAGE_SIZE as int,
            ),
            b2.len() == BUSTUBX_PAGE_SIZE,
            forall|k: int|
                0 <= k < BUSTUBX_PAGE_SIZE ==> (#[trigger] b2[k])
                    == crate::table_page::spec_page_byte(p1, k),
        ensures
            spec_parsed_wf(b2),
            spec_parsed_num_tuples(b2) == spec_parsed_num_tuples(b) + 1,
            spec_parsed_next_page_id(b2) == spec_parsed_next_page_id(b),
            spec_slot_parsed(b2, p0.num_tuples as int).1 as int == enc.len(),
            spec_slot_parsed(b2, p0.num_tuples as int).2 == meta,
            b2.subrange(
                spec_slot_parsed(b2, p0.num_tuples as int).0 as int,
                spec_slot_parsed(b2, p0.num_tuples as int).0 + enc.len(),
            ) == enc,
            forall|i: int|
                0 <= i < spec_parsed_num_tuples(b) ==> (#[trigger] spec_slot_parsed(b2, i))
                    == spec_slot_parsed(b, i),
            forall|i: int|
                0 <= i < spec_parsed_num_tuples(b) ==> (#[trigger] b2.subrange(
                    spec_slot_parsed(b, i).0 as int,
                    spec_slot_parsed(b, i).0 + spec_slot_parsed(b, i).1,
                )) == b.subrange(
                    spec_slot_parsed(b, i).0 as int,
                    spec_slot_parsed(b, i).0 + spec_slot_parsed(b, i).1,
                ),
    {
        crate::table_page::lemma_encoding_parses_wf(p1, b2);
        let n = p0.num_tuples as int;
        let off = p1.tuple_info@[n].0 as int;
        // the new slot's payload reads back as the encoded tuple
        crate::table_page::lemma_payloads_above_directory(p1, n);
        lemma_slot_in_page(p1.tuple_info@, n);
        assert forall|k: int| off <= k < off + enc.len() implies b2[k] == enc[k - off] by {
            assert(b2[k] == p1.data@[k]);
        }
        assert(b2.subrange(off, off + enc.len() as int) =~= enc);
        // the existing payloads read back unchanged
        lemma_insert_preserves_payloads(p0, p1, enc);
        assert forall|i: int|
            0 <= i < spec_parsed_num_tuples(b) implies (#[trigger] b2.subrange(
            spec_slot_parsed(b, i).0 as int,
            spec_slot_parsed(b, i).0 + spec_slot_parsed(b, i).1,
        )) == b.subrange(
            spec_slot_parsed(b, i).0 as int,
            spec_slot_parsed(b, i).0 + spec_slot_parsed(b, i).1,
        ) by {
            assert(p0.tuple_info@[i] == spec_slot_parsed(b, i));
            assert(p1.tuple_info@[i] == p0.tuple_info@[i]);
            crate::table_page::lemma_payloads_above_directory(p1, i);
            lemma_slot_in_page(p1.tuple_info@, i);
            let o = spec_slot_parsed(b, i).0 as int;
            let sz = spec_slot_parsed(b, i).1 as int;
            assert forall|k: int| o <= k < o + sz implies b2[k] == b[k] by {
                assert(b2[k] == p1.data@[k]);
                assert(p1.data@.subrange(o, o + sz) == p0.data@.subrange(o, o + sz));
                assert(p1.data@.subrange(o, o + sz)[k - o] == p1.data@[k]);
                assert(p0.data@.subrange(o, o + sz)[k - o] == p0.data@[k]);
            }
            assert(b2.subrange(o, o + sz) =~= b.subrange(o, o + sz));
        }
    }

    /// Relinking a page's next pointer changes the image's link word only:
    /// the counts, all slots and all payloads keep their meaning.
    #[verifier::rlimit(100)]
    #[verifier::spinoff_prover]
    proof fn lemma_relink_image(p0: &TablePage, p1: &TablePage, b: Seq<u8>, b2: Seq<u8>)
        requires
            b.len() == BUSTUBX_PAGE_SIZE,
            p0.data@ == b,
            p0.num_tuples as int == spec_parsed_num_tuples(b),
            p0.num_deleted_tuples as int == spec_parsed_num_deleted(b),
            p0.wf(),
            forall|i: int|
                0 <= i < p0.tuple_info@.len() ==> (#[trigger] p0.tuple_info@[i])
                    == spec_slot_parsed(b, i),
            p1.wf(),
            p1.num_tuples == p0.num_tuples,
            p1.num_deleted_tuples == p0.num_deleted_tuples,
            p1.data@ == p0.data@,
            p1.tuple_info@ == p0.tuple_info@,
            b2.len() == BUSTUBX_PAGE_SIZE,
            forall|k: int|
                0 <= k < BUSTUBX_PAGE_SIZE ==> (#[trigger] b2[k])
                    == crate::table_page::spec_page_byte(p1, k),
        ensures
            spec_parsed_wf(b2),
            spec_parsed_num_tuples(b2) == spec_parsed_num_tuples(b),
            spec_parsed_num_deleted(b2) == spec_parsed_num_deleted(b),
            spec_parsed_next_page_id(b2) == p1.next_page_id,
            forall|i: int|
                0 <= i < spec_parsed_num_tuples(b) ==> (#[trigger] spec_slot_parsed(b2, i))
                    == spec_slot_parsed(b, i),
            forall|i: int|
                0 <= i < spec_parsed_num_tuples(b) ==> (#[trigger] b2.subrange(
                    spec_slot_parsed(b, i).0 as int,
                    spec_slot_parsed(b, i).0 + spec_slot_parsed(b, i).1,
                )) == b.subrange(
                    spec_slot_parsed(b, i).0 as int,
                    spec_slot_parsed(b, i).0 + spec_slot_parsed(b, i).1,
                ),
    {
        crate::table_page::lemma_encoding_parses_wf(p1, b2);
        assert forall|i: int|
            0 <= i < spec_parsed_num_tuples(b) implies (#[trigger] b2.subrange(
            spec_slot_parsed(b, i).0 as int,
            spec_slot_parsed(b, i).0 + spec_slot_parsed(b, i).1,
        )) == b.subrange(
            spec_slot_parsed(b, i).0 as int,
            spec_slot_parsed(b, i).0 + spec_slot_parsed(b, i).1,
        ) by {
            assert(p0.tuple_info@[i] == spec_slot_parsed(b, i));
            crate::table_page::lemma_payloads_above_directory(p1, i);
            lemma_slot_in_page(p1.tuple_info@, i);
            let o = spec_slot_parsed(b, i).0 as int;
            let sz = spec_slot_parsed(b, i).1 as int;
            assert forall|k: int| o <= k < o + sz implies b2[k] == b[k] by {
                assert(b2[k] == p1.data@[k]);
            }
            assert(b2.subrange(o, o + sz) =~= b.subrange(o, o + sz));
        }
    }

    /// After a fetch of `pid`, a write back to it, and its unpin, all
    /// other pages' contents and all pin counts stand as before.
    proof fn lemma_update_composition(
        h0: &TableHeap,
        m1: &TableHeap,
        m2: &TableHeap,
        h3: &TableHeap,
        pid: PageId,
    )
        requires
            h0.buffer_pool.wf(),
            // the fetch step
            m1.buffer_pool.resident(pid),
            forall|q: PageId|
                (q as int) < h0.buffer_pool.disk.pages@.len() ==> (
                #[trigger] m1.buffer_pool.content_of(q)) == h0.buffer_pool.content_of(q),
            m1.buffer_pool.pin_of(pid) == (if h0.buffer_pool.resident(pid) {
                h0.buffer_pool.pin_of(pid) + 1
            } else {
                1int
            }),
            forall|q: PageId|
                q != pid && (#[trigger] m1.buffer_pool.resident(q)) ==> h0.buffer_pool.resident(q)
                    && m1.buffer_pool.pin_of(q) == h0.buffer_pool.pin_of(q),
            forall|q: PageId|
                h0.buffer_pool.resident(q) && (#[trigger] h0.buffer_pool.pin_of(q)) > 0
                    ==> m1.buffer_pool.resident(q),
            // the write step
            forall|q: PageId|
                m2.buffer_pool.resident(q) == m1.buffer_pool.resident(q),
            forall|q: PageId|
                m1.buffer_pool.resident(q) ==> (#[trigger] m2.buffer_pool.pin_of(q))
                    == m1.buffer_pool.pin_of(q),
            forall|q: PageId|
                q != pid && (q as int) < m1.buffer_pool.disk.pages@.len() ==> (
                #[trigger] m2.buffer_pool.content_of(q)) == m1.buffer_pool.content_of(q),
            // the unpin step
            forall|q: PageId|
                h3.buffer_pool.resident(q) == m2.buffer_pool.resident(q),
            h3.buffer_pool.pin_of(pid) == m2.buffer_pool.pin_of(pid) - 1,
            forall|q: PageId|
                q != pid && m2.buffer_pool.resident(q) ==> (#[trigger] h3.buffer_pool.pin_of(q))
                    == m2.buffer_pool.pin_of(q),
            forall|q: PageId|
                (q as int) < m2.buffer_pool.disk.pages@.len() ==> (
                #[trigger] h3.buffer_pool.content_of(q)) == m2.buffer_pool.content_of(q),
            m1.buffer_pool.disk.pages@.len() >= h0.buffer_pool.disk.pages@.len(),
            m2.buffer_pool.disk.pages@.len() == m1.buffer_pool.disk.pages@.len(),
        ensures
            TableHeap::pages_preserved_except(h0, h3, pid, pid),
            TableHeap::pins_released(h0, h3),
    {
        assert forall|q: PageId|
            q != pid && q != pid && (q as int) < h0.buffer_pool.disk.pages@.len() implies (
        #[trigger] h3.page_bytes_of(q)) == h0.page_bytes_of(q) by {
            assert(m1.buffer_pool.content_of(q) == h0.buffer_pool.content_of(q));
            assert(m2.buffer_pool.content_of(q) == m1.buffer_pool.content_of(q));
        }
        assert forall|q: PageId|
            h0.buffer_pool.resident(q) && h3.buffer_pool.resident(q) implies (
        #[trigger] h3.buffer_pool.pin_of(q)) == h0.buffer_pool.pin_of(q) by {
            if q != pid {
                assert(m1.buffer_pool.resident(q));
                assert(m1.buffer_pool.pin_of(q) == h0.buffer_pool.pin_of(q));
                assert(m2.buffer_pool.pin_of(q) == m1.buffer_pool.pin_of(q));
            } else {
                assert(m2.buffer_pool.pin_of(pid) == m1.buffer_pool.pin_of(pid));
            }
        }
        assert forall|q: PageId|
            h3.buffer_pool.resident(q) && !h0.buffer_pool.resident(q) implies (
        #[trigger] h3.buffer_pool.pin_of(q)) == 0 by {
            assert(m1.buffer_pool.resident(q));
            assert(m2.buffer_pool.pin_of(q) == m1.buffer_pool.pin_of(q));
        }
        assert forall|q: PageId|
            h0.buffer_pool.resident(q) && !h3.buffer_pool.resident(q) implies (
        #[trigger] h0.buffer_pool.pin_of(q)) == 0 by {
            assert(!m1.buffer_pool.resident(q));
        }
    }

    /// After a fetch of `pid` followed by its unpin, the heap's page
    /// contents and pin counts stand as before.
    proof fn lemma_read_composition(h0: &TableHeap, m1: &TableHeap, h2: &TableHeap, pid: PageId)
        requires
            h0.buffer_pool.wf(),
            // the fetch step
            m1.buffer_pool.resident(pid),
            forall|q: PageId|
                (q as int) < h0.buffer_pool.disk.pages@.len() ==> (
                #[trigger] m1.buffer_pool.content_of(q)) == h0.buffer_pool.content_of(q),
            m1.buffer_pool.pin_of(pid) == (if h0.buffer_pool.resident(pid) {
                h0.buffer_pool.pin_of(pid) + 1
            } else {
                1int
            }),
            forall|q: PageId|
                q != pid && (#[trigger] m1.buffer_pool.resident(q)) ==> h0.buffer_pool.resident(q)
                    && m1.buffer_pool.pin_of(q) == h0.buffer_pool.pin_of(q),
            forall|q: PageId|
                h0.buffer_pool.resident(q) && (#[trigger] h0.buffer_pool.pin_of(q)) > 0
                    ==> m1.buffer_pool.resident(q),
            // the unpin step
            forall|q: PageId|
                h2.buffer_pool.resident(q) == m1.buffer_pool.resident(q),
            h2.buffer_pool.pin_of(pid) == m1.buffer_pool.pin_of(pid) - 1,
            forall|q: PageId|
                q != pid && m1.buffer_pool.resident(q) ==> (#[trigger] h2.buffer_pool.pin_of(q))
                    == m1.buffer_pool.pin_of(q),
            forall|q: PageId|
                (q as int) < m1.buffer_pool.disk.pages@.len() ==> (
                #[trigger] h2.buffer_pool.content_of(q)) == m1.buffer_pool.content_of(q),
            m1.buffer_pool.disk.pages@.len() == h0.buffer_pool.disk.pages@.len(),
        ensures
            TableHeap::pages_preserved(h0, h2),
            TableHeap::pins_released(h0, h2),
    {
        assert forall|q: PageId|
            (q as int) < h0.buffer_pool.disk.pages@.len() implies (#[trigger] h2.page_bytes_of(q))
            == h0.page_bytes_of(q) by {
            assert(m1.buffer_pool.content_of(q) == h0.buffer_pool.content_of(q));
        }
        assert forall|q: PageId|
            h0.buffer_pool.resident(q) && h2.buffer_pool.resident(q) implies (
        #[trigger] h2.buffer_pool.pin_of(q)) == h0.buffer_pool.pin_of(q) by {
            if q != pid {
                assert(m1.buffer_pool.resident(q));
                assert(h0.buffer_pool.resident(q) && m1.buffer_pool.pin_of(q)
                    == h0.buffer_pool.pin_of(q));
            }
        }
        assert forall|q: PageId|
            h2.buffer_pool.resident(q) && !h0.buffer_pool.resident(q) implies (
        #[trigger] h2.buffer_pool.pin_of(q)) == 0 by {
            assert(m1.buffer_pool.resident(q));
        }
        assert forall|q: PageId|
            h0.buffer_pool.resident(q) && !h2.buffer_pool.resident(q) implies (
        #[trigger] h0.buffer_pool.pin_of(q)) == 0 by {
            assert(!m1.buffer_pool.resident(q));
        }
    }

    /// A cursor over the heap's records from `start_at` (default: the
    /// first record) up to but not including `stop_at`.
    pub fn iter(&mut self, start_at: Option<Rid>, stop_at: Option<Rid>) -> (r: TableIterator)
        requires
            old(self).wf(),
        ensures
            final(self).wf(),
            final(self).schema.types() == old(self).schema.types(),
            final(self).first_page_id == old(self).first_page_id,
            final(self).last_page_id == old(self).last_page_id,
            TableHeap::pages_preserved(old(self), final(self)),
            TableHeap::pins_released(old(self), final(self)),
            r.stop_at == stop_at,
            start_at is Some ==> r.rid == start_at,
            start_at is None && old(self).can_fetch(old(self).first_page_id) ==> (r.rid is Some
                <==> spec_parsed_num_tuples(old(self).page_bytes_of(old(self).first_page_id)) > 0),
            start_at is None ==> (r.rid matches Some(rid) ==> rid.page_id == old(self).first_page_id && rid.slot_num == 0),
    {
        let rid = match start_at {
            Some(r) => Some(r),
            None => self.get_first_rid(),
        };
        proof {
            if start_at is Some {
                assert(TableHeap::pages_preserved(old(self), self));
                assert(TableHeap::pins_released(old(self), self));
            }
        }
        TableIterator { rid, stop_at }
    }
}

/// A cursor over a heap: it holds no pins; each step pins and unpins the
/// pages it touches.
#[derive(Clone, Copy, Debug)]
pub struct TableIterator {
    pub rid: Option<Rid>,
    pub stop_at: Option<Rid>,
}

impl TableIterator {
    pub fn new(rid: Option<Rid>, stop_at: Option<Rid>) -> (r: TableIterator)
        ensures
            r.rid == rid,
            r.stop_at == stop_at,
    {
        TableIterator { rid, stop_at }
    }

    /// The current record's metadata and tuple, advancing the cursor to
    /// the next record; `None` at the end of the scan or at `stop_at`
    /// (exclusive), which reads nothing and moves nothing.
    pub fn next(&mut self, table_heap: &mut TableHeap) -> (r: Option<(TupleMeta, Tuple)>)
        requires
            old(table_heap).wf(),
        ensures
            final(table_heap).wf(),
            final(table_heap).schema.types() == old(table_heap).schema.types(),
            final(table_heap).first_page_id == old(table_heap).first_page_id,
            final(table_heap).last_page_id == old(table_heap).last_page_id,
            TableHeap::pages_preserved(old(table_heap), final(table_heap)),
            TableHeap::pins_released(old(table_heap), final(table_heap)),
            final(self).stop_at == old(self).stop_at,
            old(self).rid is None ==> r is None && *final(self) == *old(self) && *final(table_heap) == *old(table_heap),
            ({
                let cur = old(self).rid;
                &&& (cur matches Some(rid) ==> (old(self).stop_at == Some(rid) ==> r is None
                    && *final(self) == *old(self) && *final(table_heap) == *old(table_heap)))
                &&& (cur matches Some(rid) ==> ({
                    let b = old(table_heap).page_bytes_of(rid.page_id);
                    let slot = spec_slot_parsed(b, rid.slot_num as int);
                    &&& (r matches Some((m, t)) ==> m == slot.2 && t.schema.types() == old(table_heap).schema.types() && t.data@ == spec_tuple_decoded(
                        old(table_heap).schema.types(),
                        b.subrange(slot.0 as int, slot.0 + slot.1),
                    ))
                    &&& (old(self).stop_at != Some(rid) && old(table_heap).can_fetch(rid.page_id)
                        ==> (r is Some <==> spec_parsed_wf(b) && (rid.slot_num as int)
                        < spec_parsed_num_tuples(b) && spec_schema_width(
                        old(table_heap).schema.types(),
                    ) <= slot.1 as int))
                    &&& (r is Some && old(table_heap).can_fetch(rid.page_id) && rid.slot_num as int
                        + 1 < spec_parsed_num_tuples(b) ==> final(self).rid == Some(
                        Rid { page_id: rid.page_id, slot_num: (rid.slot_num + 1) as u32 },
                    ))
                    &&& (final(self).rid matches Some(n) ==> (n.page_id != rid.page_id
                        ==> n.slot_num == 0))
                }))
            }),
    {
        let rid = match self.rid {
            Some(r) => r,
            None => {
                return None;
            },
        };
        if let Some(stop) = self.stop_at {
            if rid == stop {
                return None;
            }
        }
        let ghost h0 = *table_heap;
        let result = match table_heap.tuple(rid) {
            Ok(p) => p,
            Err(_) => {
                return None;
            },
        };
        let ghost m1 = *table_heap;
        self.rid = table_heap.get_next_rid(rid);
        proof {
            assert((rid.page_id as int) < h0.buffer_pool.disk.pages@.len());
            assert(TableHeap::pages_preserved(&h0, &m1));
            assert(m1.page_bytes_of(rid.page_id) == h0.page_bytes_of(rid.page_id));
            TableHeap::lemma_preservation_chain(&h0, &m1, table_heap);
        }
        Some(result)
    }
}

} // verus!
