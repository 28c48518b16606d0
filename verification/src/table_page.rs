//! Slotted table pages: a fixed header, a slot directory growing forward,
//! and tuple payloads stacked backward from the end of the page. The page
//! serialises to exactly `BUSTUBX_PAGE_SIZE` big-endian bytes.

use vstd::prelude::*;
use vstd::pervasive::VecAdditionalExecFns;

use crate::codec::{be16, be32, read_u16_be, read_u32_be, u16_byte, u32_byte};
use crate::common::{PageId, Rid, TupleMeta, BUSTUBX_PAGE_SIZE};

verus! {

pub const TABLE_PAGE_HEADER_SIZE: usize = 4 + 2 + 2;

pub const TABLE_PAGE_TUPLE_INFO_SIZE: usize = 2 + 2 + (4 + 4 + 4);

/// A heap tuple as the slotted page stores it: raw payload bytes and the
/// record id it was read under.
#[derive(Clone, Debug)]
pub struct Tuple {
    pub rid: Rid,
    pub data: Vec<u8>,
}

impl Tuple {
    pub fn new(data: Vec<u8>) -> (r: Tuple)
        ensures
            r.data@ == data@,
    {
        Tuple { rid: Rid { page_id: crate::common::INVALID_PAGE_ID, slot_num: 0 }, data }
    }

    pub fn new_with_rid(rid: Rid, data: Vec<u8>) -> (r: Tuple)
        ensures
            r.rid == rid,
            r.data@ == data@,
    {
        Tuple { rid, data }
    }
}

/// End of the free region above slot `i`: the previous slot's offset, or
/// the page end for slot 0.
pub open spec fn prev_offset(info: Seq<(u16, u16, TupleMeta)>, i: int) -> int {
    if i == 0 {
        BUSTUBX_PAGE_SIZE as int
    } else {
        info[i - 1].0 as int
    }
}

/// Payloads are stacked exactly: each slot ends where the previous one
/// begins, and slot 0 ends at the page end.
pub open spec fn slots_stacked(info: Seq<(u16, u16, TupleMeta)>) -> bool {
    forall|i: int| #![trigger info[i], prev_offset(info, i)]
        0 <= i < info.len() ==> info[i].0 + info[i].1 == prev_offset(info, i)
}

/// A slot's payload lies within the page.
pub proof fn lemma_slot_in_page(info: Seq<(u16, u16, TupleMeta)>, i: int)
    requires
        slots_stacked(info),
        0 <= i < info.len(),
    ensures
        info[i].0 + info[i].1 <= BUSTUBX_PAGE_SIZE,
    decreases i,
{
    assert(info[i].0 + info[i].1 == prev_offset(info, i));
    if i > 0 {
        lemma_slot_in_page(info, i - 1);
    }
}

impl TablePage {
    /// Well-formedness: the raw buffer is page-sized, the directory length
    /// matches the header, the payloads stack exactly from the page end,
    /// and the last payload clears the slot directory.
    pub open spec fn wf(&self) -> bool {
        &&& self.data@.len() == BUSTUBX_PAGE_SIZE
        &&& self.tuple_info@.len() == self.num_tuples as int
        &&& slots_stacked(self.tuple_info@)
        &&& (self.num_tuples > 0 ==> self.tuple_info@[self.num_tuples as int - 1].0
            >= TABLE_PAGE_HEADER_SIZE + self.num_tuples as int * 16)
    }

    /// A well-formed directory fits at most 255 slots.
    pub proof fn lemma_wf_num_tuples_bound(&self)
        requires
            self.wf(),
        ensures
            self.num_tuples <= 255,
    {
        if self.num_tuples > 0 {
            lemma_slot_in_page(self.tuple_info@, self.num_tuples as int - 1);
        }
    }
}

/// A slotted heap page: header fields, the slot directory, and the raw
/// page image whose tail holds the tuple payloads.
#[derive(Debug)]
pub struct TablePage {
    pub next_page_id: PageId,
    pub num_tuples: u16,
    pub num_deleted_tuples: u16,
    /// One entry per tuple: payload offset, payload size, metadata.
    pub tuple_info: Vec<(u16, u16, TupleMeta)>,
    /// The raw page image; only the payload region is authoritative, the
    /// header region is materialised by `to_bytes`.
    pub data: Vec<u8>,
}

/// Where the next tuple of `len` bytes would be placed: just below the
/// previous payload, unless it would reach the grown slot directory.
pub open spec fn spec_next_tuple_offset(p: &TablePage, len: int) -> Option<int> {
    let slot_end = prev_offset(p.tuple_info@, p.num_tuples as int);
    if len > slot_end {
        None
    } else if slot_end - len < TABLE_PAGE_HEADER_SIZE + (p.num_tuples as int + 1) * 16 {
        None
    } else {
        Some(slot_end - len)
    }
}

impl TablePage {
    pub fn new(next_page_id: PageId) -> (r: TablePage)
        ensures
            r.wf(),
            r.next_page_id == next_page_id,
            r.num_tuples == 0,
            r.num_deleted_tuples == 0,
            r.tuple_info@.len() == 0,
            forall|k: int| 0 <= k < BUSTUBX_PAGE_SIZE ==> (#[trigger] r.data@[k]) == 0u8,
    {
        TablePage {
            next_page_id,
            num_tuples: 0,
            num_deleted_tuples: 0,
            tuple_info: Vec::with_capacity(BUSTUBX_PAGE_SIZE / TABLE_PAGE_TUPLE_INFO_SIZE),
            data: vec![0u8; BUSTUBX_PAGE_SIZE],
        }
    }

    /// Offset at which the next tuple would be stored, or `None` when the
    /// payload would collide with the slot directory: the page is full.
    pub fn get_next_tuple_offset(&self, _meta: &TupleMeta, tuple: &Tuple) -> (r: Option<u16>)
        requires
            self.wf(),
        ensures
            ({
                let s = spec_next_tuple_offset(self, tuple.data@.len() as int);
                match r {
                    Some(o) => s == Some(o as int),
                    None => s is None,
                }
            }),
    {
        proof {
            self.lemma_wf_num_tuples_bound();
            if self.num_tuples > 0 {
                lemma_slot_in_page(self.tuple_info@, self.num_tuples as int - 1);
            }
        }
        if tuple.data.len() > BUSTUBX_PAGE_SIZE {
            return None;
        }
        let len = tuple.data.len() as u16;
        let slot_end_offset: u16 = if self.num_tuples > 0 {
            self.tuple_info[self.num_tuples as usize - 1].0
        } else {
            BUSTUBX_PAGE_SIZE as u16
        };
        if slot_end_offset < len {
            return None;
        }
        let tuple_offset = slot_end_offset - len;
        let min_tuple_offset = TABLE_PAGE_HEADER_SIZE as u16 + (self.num_tuples + 1) * 16;
        if tuple_offset < min_tuple_offset {
            return None;
        }
        Some(tuple_offset)
    }

    /// Store a tuple in the next slot: append its directory entry, copy
    /// its payload below the previous one, and count it. `None` when the
    /// page cannot hold it.
    pub fn insert_tuple(&mut self, meta: &TupleMeta, tuple: &Tuple) -> (r: Option<u16>)
        requires
            old(self).wf(),
            meta.is_deleted ==> old(self).num_deleted_tuples < u16::MAX,
        ensures
            final(self).wf(),
            final(self).next_page_id == old(self).next_page_id,
            ({
                let s = spec_next_tuple_offset(old(self), tuple.data@.len() as int);
                match r {
                    None => s is None && *final(self) == *old(self),
                    Some(slot) => {
                        &&& s == Some(final(self).tuple_info@[slot as int].0 as int)
                        &&& slot == old(self).num_tuples
                        &&& final(self).num_tuples == old(self).num_tuples + 1
                        &&& final(self).num_deleted_tuples == old(self).num_deleted_tuples + (
                        if meta.is_deleted {
                            1int
                        } else {
                            0int
                        })
                        &&& final(self).tuple_info@ == old(self).tuple_info@.push(
                            (
                                ((BUSTUBX_PAGE_SIZE as int - tuple.data@.len()
                                    - spec_used_payload(old(self))) as u16),
                                tuple.data@.len() as u16,
                                *meta,
                            ),
                        )
                        &&& final(self).data@ == old(self).data@.subrange(
                            0,
                            final(self).tuple_info@[slot as int].0 as int,
                        ) + tuple.data@ + old(self).data@.subrange(
                            final(self).tuple_info@[slot as int].0 as int + tuple.data@.len(),
                            BUSTUBX_PAGE_SIZE as int,
                        )
                    },
                }
            }),
    {
        let tuple_offset = match self.get_next_tuple_offset(meta, tuple) {
            Some(o) => o,
            None => {
                return None;
            },
        };
        let tuple_id = self.num_tuples;
        proof {
            self.lemma_wf_num_tuples_bound();
            if self.num_tuples > 0 {
                lemma_slot_in_page(self.tuple_info@, self.num_tuples as int - 1);
            }
        }
        self.tuple_info.push((tuple_offset, tuple.data.len() as u16, *meta));
        self.num_tuples = self.num_tuples + 1;
        if meta.is_deleted {
            self.num_deleted_tuples = self.num_deleted_tuples + 1;
        }
        let ghost mid = self.data@;
        let ghost snap = *self;
        let len = tuple.data.len();
        let mut k: usize = 0;
        while k < len
            invariant
                k <= len,
                len == tuple.data@.len(),
                tuple_offset + len <= BUSTUBX_PAGE_SIZE,
                self.tuple_info@ == snap.tuple_info@,
                self.num_tuples == snap.num_tuples,
                self.num_deleted_tuples == snap.num_deleted_tuples,
                self.next_page_id == snap.next_page_id,
                self.data@.len() == BUSTUBX_PAGE_SIZE,
                mid.len() == BUSTUBX_PAGE_SIZE,
                forall|j: int|
                    0 <= j < BUSTUBX_PAGE_SIZE && !(tuple_offset <= j < tuple_offset + k) ==> (
                    #[trigger] self.data@[j]) == mid[j],
                forall|j: int|
                    tuple_offset <= j < tuple_offset + k ==> (#[trigger] self.data@[j])
                        == tuple.data@[j - tuple_offset],
            decreases len - k,
        {
            self.data.set(tuple_offset as usize + k, tuple.data[k]);
            k = k + 1;
        }
        proof {
            let o = tuple_offset as int;
            let n = tuple.data@.len() as int;
            assert(self.data@ =~= mid.subrange(0, o) + tuple.data@ + mid.subrange(
                o + n,
                BUSTUBX_PAGE_SIZE as int,
            ));
            assert(spec_used_payload(old(self)) == BUSTUBX_PAGE_SIZE - prev_offset(
                old(self).tuple_info@,
                old(self).num_tuples as int,
            ));
            // the new directory entry stacks exactly on the previous payload
            assert forall|i: int| 0 <= i < self.tuple_info@.len() implies (
            #[trigger] self.tuple_info@[i]).0 + self.tuple_info@[i].1 == prev_offset(
                self.tuple_info@,
                i,
            ) by {
                if i < old(self).tuple_info@.len() {
                    assert(self.tuple_info@[i] == old(self).tuple_info@[i]);
                    assert(old(self).tuple_info@[i].0 + old(self).tuple_info@[i].1 == prev_offset(
                        old(self).tuple_info@,
                        i,
                    ));
                    if i > 0 {
                        assert(self.tuple_info@[i - 1] == old(self).tuple_info@[i - 1]);
                    }
                } else {
                    assert(self.tuple_info@[i].0 == tuple_offset);
                    assert(self.tuple_info@[i].1 == tuple.data@.len() as u16);
                    if i > 0 {
                        assert(self.tuple_info@[i - 1] == old(self).tuple_info@[i - 1]);
                    }
                }
            }
        }
        Some(tuple_id)
    }

    /// Rewrite one slot's metadata; a tuple turning deleted is counted.
    pub fn update_tuple_meta(&mut self, meta: &TupleMeta, rid: &Rid)
        requires
            old(self).wf(),
            rid.slot_num < old(self).num_tuples,
            old(self).num_deleted_tuples < u16::MAX,
        ensures
            final(self).wf(),
            final(self).next_page_id == old(self).next_page_id,
            final(self).num_tuples == old(self).num_tuples,
            final(self).data@ == old(self).data@,
            final(self).tuple_info@ == old(self).tuple_info@.update(
                rid.slot_num as int,
                (
                    old(self).tuple_info@[rid.slot_num as int].0,
                    old(self).tuple_info@[rid.slot_num as int].1,
                    *meta,
                ),
            ),
            final(self).num_deleted_tuples == old(self).num_deleted_tuples + (if meta.is_deleted
                && !old(self).tuple_info@[rid.slot_num as int].2.is_deleted {
                1int
            } else {
                0int
            }),
    {
        let tuple_id = rid.slot_num as usize;
        let (offset, size, old_meta) = self.tuple_info[tuple_id];
        if meta.is_deleted && !old_meta.is_deleted {
            self.num_deleted_tuples = self.num_deleted_tuples + 1;
        }
        self.tuple_info.set(tuple_id, (offset, size, *meta));
        proof {
            assert forall|i: int| 0 <= i < self.tuple_info@.len() implies (
            #[trigger] self.tuple_info@[i]).0 + self.tuple_info@[i].1 == prev_offset(
                self.tuple_info@,
                i,
            ) by {
                assert(old(self).tuple_info@[i].0 + old(self).tuple_info@[i].1 == prev_offset(
                    old(self).tuple_info@,
                    i,
                ));
            }
        }
    }

    /// The metadata and payload stored in one slot.
    pub fn get_tuple(&self, rid: &Rid) -> (r: (TupleMeta, Tuple))
        requires
            self.wf(),
            rid.slot_num < self.num_tuples,
        ensures
            r.0 == self.tuple_info@[rid.slot_num as int].2,
            r.1.rid == *rid,
            r.1.data@ == self.data@.subrange(
                self.tuple_info@[rid.slot_num as int].0 as int,
                self.tuple_info@[rid.slot_num as int].0 as int
                    + self.tuple_info@[rid.slot_num as int].1 as int,
            ),
    {
        let tuple_id = rid.slot_num as usize;
        let (offset, size, meta) = self.tuple_info[tuple_id];
        proof {
            lemma_slot_in_page(self.tuple_info@, tuple_id as int);
        }
        let mut bytes: Vec<u8> = Vec::new();
        let mut k: usize = 0;
        while k < size as usize
            invariant
                k <= size,
                offset + size <= BUSTUBX_PAGE_SIZE,
                self.data@.len() == BUSTUBX_PAGE_SIZE,
                bytes@.len() == k,
                forall|j: int| 0 <= j < k ==> (#[trigger] bytes@[j]) == self.data@[offset + j],
            decreases size - k,
        {
            bytes.push(self.data[offset as usize + k]);
            k = k + 1;
        }
        proof {
            assert(bytes@ =~= self.data@.subrange(
                offset as int,
                offset as int + size as int,
            ));
        }
        (meta, Tuple::new_with_rid(*rid, bytes))
    }

    /// The metadata stored in one slot.
    pub fn get_tuple_meta(&self, rid: &Rid) -> (r: TupleMeta)
        requires
            self.wf(),
            rid.slot_num < self.num_tuples,
        ensures
            r == self.tuple_info@[rid.slot_num as int].2,
    {
        self.tuple_info[rid.slot_num as usize].2
    }

    /// The record id of the next slot on this page, if there is one.
    pub fn get_next_rid(&self, rid: &Rid) -> (r: Option<Rid>)
        ensures
            r == if rid.slot_num as int + 1 < self.num_tuples as int {
                Some(Rid { page_id: rid.page_id, slot_num: (rid.slot_num + 1) as u32 })
            } else {
                None::<Rid>
            },
    {
        if rid.slot_num as u64 + 1 >= self.num_tuples as u64 {
            return None;
        }
        Some(Rid::new(rid.page_id, rid.slot_num + 1))
    }
}

/// Bytes of the payload region already used by the stacked tuples.
pub open spec fn spec_used_payload(p: &TablePage) -> int {
    BUSTUBX_PAGE_SIZE - prev_offset(p.tuple_info@, p.num_tuples as int)
}

/// Byte `t` of the 16 on-disk bytes of one slot-directory entry.
pub open spec fn slot_byte(s: (u16, u16, TupleMeta), t: int) -> u8 {
    if t < 2 {
        u16_byte(s.0, t)
    } else if t < 4 {
        u16_byte(s.1, t - 2)
    } else if t < 8 {
        u32_byte(s.2.insert_txn_id, t - 4)
    } else if t < 12 {
        u32_byte(s.2.delete_txn_id, t - 8)
    } else {
        u32_byte(
            if s.2.is_deleted {
                1u32
            } else {
                0u32
            },
            t - 12,
        )
    }
}

/// Byte `k` of the page's serialised image: header, slot directory, then
/// the payload region copied from the raw page image.
pub open spec fn spec_page_byte(p: &TablePage, k: int) -> u8 {
    if k < 4 {
        u32_byte(p.next_page_id, k)
    } else if k < 6 {
        u16_byte(p.num_tuples, k - 4)
    } else if k < 8 {
        u16_byte(p.num_deleted_tuples, k - 6)
    } else if k < 8 + 16 * p.num_tuples as int {
        slot_byte(p.tuple_info@[(k - 8) / 16], (k - 8) % 16)
    } else {
        p.data@[k]
    }
}

/// The next-page link parsed from a page image.
pub open spec fn spec_parsed_next_page_id(b: Seq<u8>) -> int {
    be32(b.subrange(0, 4))
}

/// The tuple count parsed from a page image.
pub open spec fn spec_parsed_num_tuples(b: Seq<u8>) -> int {
    be16(b.subrange(4, 6))
}

/// The deleted-tuple count parsed from a page image.
pub open spec fn spec_parsed_num_deleted(b: Seq<u8>) -> int {
    be16(b.subrange(6, 8))
}

/// End of the free region above parsed slot `i`: the previous parsed
/// slot's offset, or the page end for slot 0.
pub open spec fn parsed_prev_offset(b: Seq<u8>, i: int) -> int {
    if i == 0 {
        BUSTUBX_PAGE_SIZE as int
    } else {
        spec_slot_parsed(b, i - 1).0 as int
    }
}

/// A page image parses to a well-formed slotted page: the directory fits
/// the page and the payloads stack exactly from the page end.
pub open spec fn spec_parsed_wf(b: Seq<u8>) -> bool {
    &&& b.len() == BUSTUBX_PAGE_SIZE
    &&& spec_parsed_num_tuples(b) <= 255
    &&& (forall|i: int|
        #![trigger spec_slot_parsed(b, i), parsed_prev_offset(b, i)]
        0 <= i < spec_parsed_num_tuples(b) ==> spec_slot_parsed(b, i).0 + spec_slot_parsed(
            b,
            i,
        ).1 == parsed_prev_offset(b, i))
    &&& (spec_parsed_num_tuples(b) > 0 ==> spec_slot_parsed(b, spec_parsed_num_tuples(b) - 1).0
        >= 8 + spec_parsed_num_tuples(b) * 16)
}

/// Whether a tuple of `len` bytes fits the parsed page: it must stay
/// below the previous payload and clear the grown slot directory.
pub open spec fn spec_parsed_fits(b: Seq<u8>, len: int) -> bool {
    let slot_end = parsed_prev_offset(b, spec_parsed_num_tuples(b));
    &&& len <= slot_end
    &&& slot_end - len >= 8 + (spec_parsed_num_tuples(b) + 1) * 16
}

/// Slot offsets never increase with slot number: payloads stack downward.
pub proof fn lemma_offsets_descending(info: Seq<(u16, u16, TupleMeta)>, i: int, j: int)
    requires
        slots_stacked(info),
        0 <= i <= j < info.len(),
    ensures
        info[j].0 <= info[i].0,
    decreases j - i,
{
    assert(info[j].0 + info[j].1 == prev_offset(info, j));
    if i < j {
        lemma_offsets_descending(info, i, j - 1);
    }
}

/// Inserting one more tuple leaves every earlier tuple's payload intact:
/// the new payload is stacked strictly below all existing ones, so a heap
/// scan still returns the earlier tuples unchanged, in slot order.
pub proof fn lemma_insert_preserves_payloads(p_old: &TablePage, p_new: &TablePage, t: Seq<u8>)
    requires
        p_old.wf(),
        p_new.wf(),
        p_new.num_tuples == p_old.num_tuples + 1,
        p_new.tuple_info@.len() == p_old.tuple_info@.len() + 1,
        forall|i: int|
            0 <= i < p_old.tuple_info@.len() ==> (#[trigger] p_new.tuple_info@[i])
                == p_old.tuple_info@[i],
        p_new.tuple_info@[p_old.num_tuples as int].1 as int == t.len(),
        p_new.data@ == p_old.data@.subrange(
            0,
            p_new.tuple_info@[p_old.num_tuples as int].0 as int,
        ) + t + p_old.data@.subrange(
            p_new.tuple_info@[p_old.num_tuples as int].0 as int + t.len(),
            BUSTUBX_PAGE_SIZE as int,
        ),
    ensures
        forall|i: int|
            0 <= i < p_old.num_tuples ==> p_new.data@.subrange(
                (#[trigger] p_old.tuple_info@[i]).0 as int,
                p_old.tuple_info@[i].0 + p_old.tuple_info@[i].1,
            ) == p_old.data@.subrange(
                p_old.tuple_info@[i].0 as int,
                p_old.tuple_info@[i].0 + p_old.tuple_info@[i].1,
            ),
{
    let n = p_old.num_tuples as int;
    let off_new = p_new.tuple_info@[n].0 as int;
    let len_new = t.len() as int;
    assert forall|i: int|
        0 <= i < p_old.num_tuples implies p_new.data@.subrange(
        (#[trigger] p_old.tuple_info@[i]).0 as int,
        p_old.tuple_info@[i].0 + p_old.tuple_info@[i].1,
    ) == p_old.data@.subrange(
        p_old.tuple_info@[i].0 as int,
        p_old.tuple_info@[i].0 + p_old.tuple_info@[i].1,
    ) by {
        // the new payload ends where the lowest old payload begins
        assert(p_new.tuple_info@[n].0 + p_new.tuple_info@[n].1 == prev_offset(
            p_new.tuple_info@,
            n,
        ));
        let off_i = p_old.tuple_info@[i].0 as int;
        let size_i = p_old.tuple_info@[i].1 as int;
        if n > 0 {
            lemma_offsets_descending(p_old.tuple_info@, i, n - 1);
            assert(prev_offset(p_new.tuple_info@, n) == p_old.tuple_info@[n - 1].0 as int);
        }
        lemma_slot_in_page(p_old.tuple_info@, i);
        assert(off_new + len_new <= off_i);
        assert forall|k: int| off_i <= k < off_i + size_i implies p_new.data@[k]
            == p_old.data@[k] by {
            assert(p_new.data@[k] == p_old.data@.subrange(
                off_new + len_new,
                BUSTUBX_PAGE_SIZE as int,
            )[k - off_new - len_new]);
        }
        assert(p_new.data@.subrange(off_i, off_i + size_i) =~= p_old.data@.subrange(
            off_i,
            off_i + size_i,
        ));
    }
}

/// A parsed page is well-formed exactly when its image is: the bridge
/// between `TablePage::wf` and the byte-level predicate, for pages whose
/// fields were parsed from the image.
pub proof fn lemma_parsed_wf(p: &TablePage, b: Seq<u8>)
    requires
        b.len() == BUSTUBX_PAGE_SIZE,
        p.data@ == b,
        p.num_tuples as int == spec_parsed_num_tuples(b),
        p.num_deleted_tuples as int == spec_parsed_num_deleted(b),
        p.next_page_id as int == spec_parsed_next_page_id(b),
        p.tuple_info@.len() == if p.num_tuples <= 255 {
            p.num_tuples as int
        } else {
            255int
        },
        forall|i: int|
            0 <= i < p.tuple_info@.len() ==> (#[trigger] p.tuple_info@[i]) == spec_slot_parsed(
                b,
                i,
            ),
    ensures
        p.wf() <==> spec_parsed_wf(b),
{
    let num = spec_parsed_num_tuples(b);
    if p.wf() {
        assert forall|i: int| 0 <= i < num implies spec_slot_parsed(b, i).0 + spec_slot_parsed(
            b,
            i,
        ).1 == parsed_prev_offset(b, i) by {
            assert(p.tuple_info@[i] == spec_slot_parsed(b, i));
            assert(p.tuple_info@[i].0 + p.tuple_info@[i].1 == prev_offset(p.tuple_info@, i));
            if i > 0 {
                assert(p.tuple_info@[i - 1] == spec_slot_parsed(b, i - 1));
            }
        }
        if num > 0 {
            assert(p.tuple_info@[num - 1] == spec_slot_parsed(b, num - 1));
        }
    }
    if spec_parsed_wf(b) {
        assert(p.tuple_info@.len() == p.num_tuples as int);
        assert forall|i: int|
            0 <= i < p.tuple_info@.len() implies (#[trigger] p.tuple_info@[i]).0
            + p.tuple_info@[i].1 == prev_offset(p.tuple_info@, i) by {
            assert(spec_slot_parsed(b, i).0 + spec_slot_parsed(b, i).1 == parsed_prev_offset(b, i));
            if i > 0 {
                assert(p.tuple_info@[i - 1] == spec_slot_parsed(b, i - 1));
            }
        }
        if num > 0 {
            assert(spec_slot_parsed(b, num - 1).0 + spec_slot_parsed(b, num - 1).1
                == parsed_prev_offset(b, num - 1));
        }
    }
}

/// In a well-formed page every payload sits above the grown slot
/// directory.
pub proof fn lemma_payloads_above_directory(p: &TablePage, i: int)
    requires
        p.wf(),
        0 <= i < p.num_tuples,
    ensures
        p.tuple_info@[i].0 >= TABLE_PAGE_HEADER_SIZE + p.num_tuples as int * 16,
{
    lemma_offsets_descending(p.tuple_info@, i, p.num_tuples as int - 1);
}

/// The slot-directory entry parsed from bytes `8 + 16i ..` of a page
/// image.
pub open spec fn spec_slot_parsed(b: Seq<u8>, i: int) -> (u16, u16, TupleMeta) {
    let o = 8 + 16 * i;
    (
        be16(b.subrange(o, o + 2)) as u16,
        be16(b.subrange(o + 2, o + 4)) as u16,
        TupleMeta {
            insert_txn_id: be32(b.subrange(o + 4, o + 8)) as u32,
            delete_txn_id: be32(b.subrange(o + 8, o + 12)) as u32,
            is_deleted: be32(b.subrange(o + 12, o + 16)) == 1,
        },
    )
}

/// Write the two big-endian bytes of `x` at `off`.
fn write_u16_at(bytes: &mut Vec<u8>, off: usize, x: u16)
    requires
        off + 2 <= old(bytes)@.len(),
    ensures
        final(bytes)@.len() == old(bytes)@.len(),
        forall|k: int|
            0 <= k < old(bytes)@.len() ==> (#[trigger] final(bytes)@[k]) == if off <= k < off + 2 {
                u16_byte(x, k - off)
            } else {
                old(bytes)@[k]
            },
{
    let n = bytes.len();
    bytes.set(off, (x / 256) as u8);
    bytes.set(off + 1, (x % 256) as u8);
}

/// Write the four big-endian bytes of `x` at `off`.
fn write_u32_at(bytes: &mut Vec<u8>, off: usize, x: u32)
    requires
        off + 4 <= old(bytes)@.len(),
    ensures
        final(bytes)@.len() == old(bytes)@.len(),
        forall|k: int|
            0 <= k < old(bytes)@.len() ==> (#[trigger] final(bytes)@[k]) == if off <= k < off + 4 {
                u32_byte(x, k - off)
            } else {
                old(bytes)@[k]
            },
{
    let n = bytes.len();
    bytes.set(off, (x / 0x100_0000) as u8);
    bytes.set(off + 1, ((x / 0x1_0000) % 256) as u8);
    bytes.set(off + 2, ((x / 256) % 256) as u8);
    bytes.set(off + 3, (x % 256) as u8);
}

impl TablePage {
    /// Parse a page image: header and slot directory from the front, and
    /// the whole image kept as the raw page data. The directory is read
    /// only as far as it can physically reach; a header count beyond that
    /// marks a corrupt page, which `is_well_formed` then rejects.
    pub fn from_bytes(data: &[u8]) -> (r: TablePage)
        requires
            data@.len() == BUSTUBX_PAGE_SIZE,
        ensures
            r.next_page_id as int == be32(data@.subrange(0, 4)),
            r.num_tuples as int == be16(data@.subrange(4, 6)),
            r.num_deleted_tuples as int == be16(data@.subrange(6, 8)),
            r.data@ == data@,
            r.tuple_info@.len() == if r.num_tuples <= 255 {
                r.num_tuples as int
            } else {
                255int
            },
            forall|i: int|
                0 <= i < r.tuple_info@.len() ==> (#[trigger] r.tuple_info@[i]) == spec_slot_parsed(
                    data@,
                    i,
                ),
    {
        let next_page_id = read_u32_be(data, 0);
        let num_tuples = read_u16_be(data, 4);
        let num_deleted_tuples = read_u16_be(data, 6);
        let slots: usize = if num_tuples <= 255 {
            num_tuples as usize
        } else {
            255
        };
        let mut tuple_info: Vec<(u16, u16, TupleMeta)> = Vec::new();
        let mut i: usize = 0;
        while i < slots
            invariant
                i <= slots,
                slots <= 255,
                data@.len() == BUSTUBX_PAGE_SIZE,
                tuple_info@.len() == i,
                forall|j: int|
                    0 <= j < i ==> (#[trigger] tuple_info@[j]) == spec_slot_parsed(data@, j),
            decreases slots - i,
        {
            let offset = 8 + i * 16;
            let tuple_offset = read_u16_be(data, offset);
            let tuple_size = read_u16_be(data, offset + 2);
            let insert_txn_id = read_u32_be(data, offset + 4);
            let delete_txn_id = read_u32_be(data, offset + 8);
            let is_deleted = read_u32_be(data, offset + 12) == 1;
            tuple_info.push(
                (tuple_offset, tuple_size, TupleMeta { insert_txn_id, delete_txn_id, is_deleted }),
            );
            i = i + 1;
        }
        let mut page_data: Vec<u8> = Vec::new();
        let mut k: usize = 0;
        while k < data.len()
            invariant
                k <= data@.len(),
                page_data@ == data@.take(k as int),
            decreases data@.len() - k,
        {
            page_data.push(data[k]);
            proof {
                assert(page_data@ =~= data@.take(k as int + 1));
            }
            k = k + 1;
        }
        proof {
            assert(data@.take(data@.len() as int) =~= data@);
        }
        TablePage {
            next_page_id,
            num_tuples,
            num_deleted_tuples,
            tuple_info,
            data: page_data,
        }
    }

    /// Whether the parsed page satisfies the slotted-page invariant; a
    /// page read from disk is used only after this check.
    pub fn is_well_formed(&self) -> (r: bool)
        ensures
            r == self.wf(),
    {
        if self.data.len() != BUSTUBX_PAGE_SIZE {
            return false;
        }
        if self.tuple_info.len() != self.num_tuples as usize {
            return false;
        }
        let n = self.tuple_info.len();
        let mut i: usize = 0;
        while i < n
            invariant
                i <= n,
                n == self.tuple_info@.len(),
                forall|j: int|
                    0 <= j < i ==> (#[trigger] self.tuple_info@[j]).0 + self.tuple_info@[j].1
                        == prev_offset(self.tuple_info@, j),
            decreases n - i,
        {
            let end: u32 = if i == 0 {
                BUSTUBX_PAGE_SIZE as u32
            } else {
                self.tuple_info[i - 1].0 as u32
            };
            if self.tuple_info[i].0 as u32 + self.tuple_info[i].1 as u32 != end {
                proof {
                    assert(self.tuple_info@[i as int].0 + self.tuple_info@[i as int].1
                        != prev_offset(self.tuple_info@, i as int));
                }
                return false;
            }
            i = i + 1;
        }
        if n > 0 {
            proof {
                lemma_slot_in_page(self.tuple_info@, n as int - 1);
            }
            if (self.tuple_info[n - 1].0 as usize) < TABLE_PAGE_HEADER_SIZE + n * 16 {
                return false;
            }
        }
        true
    }

    /// Serialise the page: big-endian header, the slot directory, and a
    /// byte-identical copy of the payload region.
    pub fn to_bytes(&self) -> (r: Vec<u8>)
        requires
            self.wf(),
        ensures
            r@.len() == BUSTUBX_PAGE_SIZE,
            forall|k: int|
                0 <= k < BUSTUBX_PAGE_SIZE ==> (#[trigger] r@[k]) == spec_page_byte(self, k),
    {
        proof {
            self.lemma_wf_num_tuples_bound();
        }
        let mut bytes: Vec<u8> = vec![0u8; BUSTUBX_PAGE_SIZE];
        write_u32_at(&mut bytes, 0, self.next_page_id);
        write_u16_at(&mut bytes, 4, self.num_tuples);
        write_u16_at(&mut bytes, 6, self.num_deleted_tuples);
        let n = self.num_tuples as usize;
        let mut i: usize = 0;
        while i < n
            invariant
                i <= n,
                n <= 255,
                n == self.tuple_info@.len(),
                n == self.num_tuples as int,
                bytes@.len() == BUSTUBX_PAGE_SIZE,
                forall|k: int| 0 <= k < 8 + 16 * i ==> (#[trigger] bytes@[k]) == spec_page_byte(self, k),
            decreases n - i,
        {
            let ghost entry = bytes@;
            let offset = 8 + i * 16;
            let (tuple_offset, tuple_size, m) = self.tuple_info[i];
            write_u16_at(&mut bytes, offset, tuple_offset);
            write_u16_at(&mut bytes, offset + 2, tuple_size);
            write_u32_at(&mut bytes, offset + 4, m.insert_txn_id);
            write_u32_at(&mut bytes, offset + 8, m.delete_txn_id);
            write_u32_at(
                &mut bytes,
                offset + 12,
                if m.is_deleted {
                    1
                } else {
                    0
                },
            );
            proof {
                assert forall|k: int| 0 <= k < 8 + 16 * (i + 1) implies (#[trigger] bytes@[k])
                    == spec_page_byte(self, k) by {
                    if k < 8 + 16 * i {
                        assert(bytes@[k] == entry[k]);
                        assert(bytes@[k] == spec_page_byte(self, k));
                    } else {
                        vstd::arithmetic::div_mod::lemma_fundamental_div_mod_converse(
                            k - 8,
                            16,
                            i as int,
                            k - 8 - 16 * i,
                        );
                        let s = self.tuple_info@[i as int];
                        let o = k - 8 - 16 * i;
                        assert(bytes@[k] == slot_byte(s, o));
                        assert((k - 8) / 16 == i as int && (k - 8) % 16 == o);
                        assert(8 <= k && k < 8 + 16 * self.num_tuples as int);
                        assert(bytes@[k] == spec_page_byte(self, k));
                    }
                }
            }
            i = i + 1;
        }
        let start = TABLE_PAGE_HEADER_SIZE + n * 16;
        let mut k: usize = start;
        while k < BUSTUBX_PAGE_SIZE
            invariant
                start <= k <= BUSTUBX_PAGE_SIZE,
                start == 8 + 16 * n,
                n == self.num_tuples as int,
                self.data@.len() == BUSTUBX_PAGE_SIZE,
                bytes@.len() == BUSTUBX_PAGE_SIZE,
                forall|j: int| 0 <= j < start ==> (#[trigger] bytes@[j]) == spec_page_byte(self, j),
                forall|j: int| start <= j < k ==> (#[trigger] bytes@[j]) == self.data@[j],
            decreases BUSTUBX_PAGE_SIZE - k,
        {
            bytes.set(k, self.data[k]);
            k = k + 1;
        }
        bytes
    }
}


/// Byte `t` of slot `i`'s directory entry in the page image.
proof fn lemma_slot_byte(p: &TablePage, b: Seq<u8>, i: int, t: int)
    requires
        p.wf(),
        0 <= i < p.num_tuples,
        0 <= t < 16,
        b.len() == BUSTUBX_PAGE_SIZE,
        forall|k: int| 0 <= k < BUSTUBX_PAGE_SIZE ==> (#[trigger] b[k]) == spec_page_byte(p, k),
    ensures
        b[8 + 16 * i + t] == slot_byte(p.tuple_info@[i], t),
{
    p.lemma_wf_num_tuples_bound();
    vstd::arithmetic::div_mod::lemma_fundamental_div_mod_converse(16 * i + t, 16, i, t);
}

/// One slot-directory entry survives the round trip through the page
/// image.
#[verifier::rlimit(100)]
#[verifier::spinoff_prover]
proof fn lemma_slot_round_trip(p: &TablePage, b: Seq<u8>, i: int)
    requires
        p.wf(),
        0 <= i < p.num_tuples,
        b.len() == BUSTUBX_PAGE_SIZE,
        forall|k: int| 0 <= k < BUSTUBX_PAGE_SIZE ==> (#[trigger] b[k]) == spec_page_byte(p, k),
    ensures
        spec_slot_parsed(b, i) == p.tuple_info@[i],
{
    p.lemma_wf_num_tuples_bound();
    let o = 8 + 16 * i;
    let s = p.tuple_info@[i];
    assert forall|t: int| 0 <= t < 16 implies b[o + t] == slot_byte(s, t) by {
        lemma_slot_byte(p, b, i, t);
    }
    let parsed = spec_slot_parsed(b, i);
    assert(b.subrange(o, o + 2)[0] == b[o + 0] && b.subrange(o, o + 2)[1] == b[o + 1]);
    assert(parsed.0 == s.0);
    assert(b.subrange(o + 2, o + 4)[0] == b[o + 2] && b.subrange(o + 2, o + 4)[1] == b[o + 3]);
    assert(parsed.1 == s.1);
    assert(b.subrange(o + 4, o + 8)[0] == b[o + 4] && b.subrange(o + 4, o + 8)[1] == b[o + 5]
        && b.subrange(o + 4, o + 8)[2] == b[o + 6] && b.subrange(o + 4, o + 8)[3] == b[o + 7]);
    assert(parsed.2.insert_txn_id == s.2.insert_txn_id);
    assert(b.subrange(o + 8, o + 12)[0] == b[o + 8] && b.subrange(o + 8, o + 12)[1] == b[o + 9]
        && b.subrange(o + 8, o + 12)[2] == b[o + 10] && b.subrange(o + 8, o + 12)[3] == b[o + 11]);
    assert(parsed.2.delete_txn_id == s.2.delete_txn_id);
    assert(b.subrange(o + 12, o + 16)[0] == b[o + 12] && b.subrange(o + 12, o + 16)[1] == b[o + 13]
        && b.subrange(o + 12, o + 16)[2] == b[o + 14] && b.subrange(o + 12, o + 16)[3] == b[o
        + 15]);
    assert(parsed.2.is_deleted == s.2.is_deleted);
}

/// A well-formed page's serialised image parses back well-formed, with
/// the same header fields and slots.
pub proof fn lemma_encoding_parses_wf(p: &TablePage, b: Seq<u8>)
    requires
        p.wf(),
        b.len() == BUSTUBX_PAGE_SIZE,
        forall|k: int| 0 <= k < BUSTUBX_PAGE_SIZE ==> (#[trigger] b[k]) == spec_page_byte(p, k),
    ensures
        spec_parsed_wf(b),
        spec_parsed_num_tuples(b) == p.num_tuples,
        spec_parsed_num_deleted(b) == p.num_deleted_tuples,
        spec_parsed_next_page_id(b) == p.next_page_id,
        forall|i: int|
            0 <= i < p.num_tuples ==> (#[trigger] spec_slot_parsed(b, i)) == p.tuple_info@[i],
        forall|k: int|
            TABLE_PAGE_HEADER_SIZE + 16 * p.num_tuples <= k < BUSTUBX_PAGE_SIZE ==> (
            #[trigger] b[k]) == p.data@[k],
{
    lemma_page_codec_round_trip(p, b);
    p.lemma_wf_num_tuples_bound();
    let num = p.num_tuples as int;
    assert forall|i: int| 0 <= i < num implies spec_slot_parsed(b, i).0 + spec_slot_parsed(
        b,
        i,
    ).1 == parsed_prev_offset(b, i) by {
        assert(spec_slot_parsed(b, i) == p.tuple_info@[i]);
        assert(p.tuple_info@[i].0 + p.tuple_info@[i].1 == prev_offset(p.tuple_info@, i));
        if i > 0 {
            assert(spec_slot_parsed(b, i - 1) == p.tuple_info@[i - 1]);
        }
    }
    if num > 0 {
        assert(spec_slot_parsed(b, num - 1) == p.tuple_info@[num - 1]);
    }
}

/// Page codec round trip: parsing a well-formed page's serialised image
/// recovers the header, every slot-directory entry, and, byte for byte,
/// the payload region holding the tuple data.
pub proof fn lemma_page_codec_round_trip(p: &TablePage, b: Seq<u8>)
    requires
        p.wf(),
        b.len() == BUSTUBX_PAGE_SIZE,
        forall|k: int| 0 <= k < BUSTUBX_PAGE_SIZE ==> (#[trigger] b[k]) == spec_page_byte(p, k),
    ensures
        be32(b.subrange(0, 4)) == p.next_page_id,
        be16(b.subrange(4, 6)) == p.num_tuples,
        be16(b.subrange(6, 8)) == p.num_deleted_tuples,
        forall|i: int|
            0 <= i < p.num_tuples ==> spec_slot_parsed(b, i) == (#[trigger] p.tuple_info@[i]),
        forall|k: int|
            TABLE_PAGE_HEADER_SIZE + 16 * p.num_tuples <= k < BUSTUBX_PAGE_SIZE ==> (
            #[trigger] b[k]) == p.data@[k],
{
    p.lemma_wf_num_tuples_bound();
    assert(b.subrange(0, 4)[0] == b[0] && b.subrange(0, 4)[1] == b[1] && b.subrange(0, 4)[2]
        == b[2] && b.subrange(0, 4)[3] == b[3]);
    assert(b.subrange(4, 6)[0] == b[4] && b.subrange(4, 6)[1] == b[5]);
    assert(b.subrange(6, 8)[0] == b[6] && b.subrange(6, 8)[1] == b[7]);
    assert forall|i: int| 0 <= i < p.num_tuples implies spec_slot_parsed(b, i) == (
    #[trigger] p.tuple_info@[i]) by {
        lemma_slot_round_trip(p, b, i);
    }
}

} // verus!
