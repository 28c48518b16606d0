//! B+tree page layouts: internal pages mapping separator keys to child page
//! ids, and leaf pages mapping keys to record ids. Keys on a page are kept
//! strictly increasing under the key order; slot 0 of an internal page is a
//! sentinel whose key is never examined, so an internal page with `n` slots
//! indexes `n` children.

use vstd::prelude::*;

use crate::common::{PageId, Rid, INVALID_PAGE_ID};
use crate::scalar::{ScalarValue, Schema};
use crate::tuple::{key_cmp, key_lt, lemma_key_cmp_eq, lemma_key_cmp_flip, lemma_key_cmp_trans, Tuple};

verus! {

pub const INTERNAL_PAGE_HEADER_SIZE: usize = 4 + 4 + 4;

pub const LEAF_PAGE_HEADER_SIZE: usize = 4 + 4 + 4 + 4;

/// Key and child page id of one internal-page slot.
pub type InternalKV = (Tuple, PageId);

/// Key and record id of one leaf-page slot.
pub type LeafKV = (Tuple, Rid);

/// Keys of the slots `[lo, len)` are strictly increasing.
pub open spec fn sorted_from<V>(a: Seq<(Tuple, V)>, lo: int) -> bool {
    forall|i: int, j: int|
        lo <= i < j < a.len() ==> key_lt(
            #[trigger] a[i].0.data@,
            #[trigger] a[j].0.data@,
        )
}

/// No slot in `[lo, len)` holds `key`.
pub open spec fn key_absent_from<V>(a: Seq<(Tuple, V)>, key: Seq<ScalarValue>, lo: int) -> bool {
    forall|i: int| lo <= i < a.len() ==> (#[trigger] a[i].0.data@) != key
}

/// Every column of the key is null, as in the sentinel key.
pub open spec fn all_null(k: Seq<ScalarValue>) -> bool {
    forall|i: int| 0 <= i < k.len() ==> (#[trigger] k[i]).spec_is_null()
}

/// Binary search for an exact key match among the strictly sorted slots
/// `[lo, len)`; shared by the internal and leaf pages.
fn find_key_index<V: Copy>(array: &Vec<(Tuple, V)>, key: &Tuple, lo: usize) -> (r: Option<usize>)
    requires
        sorted_from(array@, lo as int),
    ensures
        match r {
            Some(i) => lo <= i < array@.len() && array@[i as int].0.data@ == key.data@,
            None => key_absent_from(array@, key.data@, lo as int),
        },
{
    if array.len() <= lo {
        return None;
    }
    let mut start: usize = lo;
    let mut end: usize = array.len() - 1;
    while start < end
        invariant
            lo <= start,
            start <= end + 1,
            end < array@.len(),
            sorted_from(array@, lo as int),
            forall|i: int| lo <= i < start ==> key_lt((#[trigger] array@[i].0.data@), key.data@),
            forall|i: int|
                end < i < array@.len() ==> key_lt(key.data@, (#[trigger] array@[i].0.data@)),
        decreases end + 1 - start,
    {
        let mid = start + (end - start) / 2;
        let c = key.compare(&array[mid].0, &key.schema);
        match c {
            core::cmp::Ordering::Equal => {
                proof {
                    lemma_key_cmp_eq(key.data@, array@[mid as int].0.data@);
                }
                return Some(mid);
            },
            core::cmp::Ordering::Less => {
                proof {
                    assert forall|i: int| mid <= i < array@.len() implies key_lt(
                        key.data@,
                        (#[trigger] array@[i].0.data@),
                    ) by {
                        if i > mid {
                            lemma_key_cmp_trans(key.data@, array@[mid as int].0.data@, array@[i].0.data@);
                        }
                    }
                }
                if mid == lo {
                    proof {
                        assert forall|i: int| lo <= i < array@.len() implies (
                        #[trigger] array@[i].0.data@) != key.data@ by {
                            lemma_key_cmp_eq(key.data@, array@[i].0.data@);
                            lemma_key_cmp_flip(key.data@, array@[i].0.data@);
                        }
                    }
                    return None;
                }
                end = mid - 1;
            },
            core::cmp::Ordering::Greater => {
                proof {
                    lemma_key_cmp_flip(array@[mid as int].0.data@, key.data@);
                    assert forall|i: int| lo <= i <= mid implies key_lt(
                        (#[trigger] array@[i].0.data@),
                        key.data@,
                    ) by {
                        if i < mid {
                            lemma_key_cmp_trans(array@[i].0.data@, array@[mid as int].0.data@, key.data@);
                        }
                    }
                }
                start = mid + 1;
            },
        }
    }
    proof {
        assert forall|i: int|
            lo <= i < array@.len() && (key_lt(array@[i].0.data@, key.data@) || key_lt(
                key.data@,
                array@[i].0.data@,
            )) implies (#[trigger] array@[i].0.data@) != key.data@ by {
            lemma_key_cmp_eq(key.data@, array@[i].0.data@);
            lemma_key_cmp_eq(array@[i].0.data@, key.data@);
        }
    }
    if start > end {
        return None;
    }
    let c = key.compare(&array[start].0, &key.schema);
    proof {
        lemma_key_cmp_eq(key.data@, array@[start as int].0.data@);
    }
    if matches!(c, core::cmp::Ordering::Equal) {
        Some(start)
    } else {
        None
    }
}

/// First position in `[lo, len)` whose key is strictly greater than `key`;
/// `len` when there is none. A fresh key inserted here keeps the slots
/// sorted and lands after any equal run, as the original stable sort did.
pub open spec fn upper_bound_from<V>(a: Seq<(Tuple, V)>, key: Seq<ScalarValue>, lo: int) -> int
    decreases a.len() - lo,
{
    if lo < 0 || lo >= a.len() {
        a.len() as int
    } else if key_lt(key, a[lo].0.data@) {
        lo
    } else {
        upper_bound_from(a, key, lo + 1)
    }
}

proof fn lemma_upper_bound_from<V>(a: Seq<(Tuple, V)>, key: Seq<ScalarValue>, lo: int)
    requires
        0 <= lo <= a.len(),
    ensures
        lo <= upper_bound_from(a, key, lo) <= a.len(),
        forall|i: int|
            lo <= i < upper_bound_from(a, key, lo) ==> !key_lt(key, (#[trigger] a[i].0.data@)),
        upper_bound_from(a, key, lo) < a.len() ==> key_lt(
            key,
            a[upper_bound_from(a, key, lo)].0.data@,
        ),
    decreases a.len() - lo,
{
    if lo < a.len() && !key_lt(key, a[lo].0.data@) {
        lemma_upper_bound_from(a, key, lo + 1);
    }
}

/// Inserting at a position bounded below by strictly smaller keys and
/// above by strictly greater ones keeps the slots sorted.
proof fn lemma_sorted_insert<V>(a: Seq<(Tuple, V)>, kv: (Tuple, V), lo: int, p: int)
    requires
        0 <= lo,
        lo <= p <= a.len(),
        sorted_from(a, lo),
        forall|j: int| lo <= j < p ==> key_lt((#[trigger] a[j].0.data@), kv.0.data@),
        p < a.len() ==> key_lt(kv.0.data@, a[p].0.data@),
    ensures
        sorted_from(a.insert(p, kv), lo),
{
    let b = a.insert(p, kv);
    assert forall|i: int, j: int| lo <= i < j < b.len() implies key_lt(
        (#[trigger] b[i].0.data@),
        (#[trigger] b[j].0.data@),
    ) by {
        if i < p && j < p {
            assert(b[i].0.data@ == a[i].0.data@);
            assert(b[j].0.data@ == a[j].0.data@);
        } else if i < p && j == p {
            assert(b[i].0.data@ == a[i].0.data@);
        } else if i < p && j > p {
            assert(b[i].0.data@ == a[i].0.data@);
            assert(b[j].0.data@ == a[j - 1].0.data@);
            if i == j - 1 {
                lemma_key_cmp_trans(a[i].0.data@, kv.0.data@, a[j - 1].0.data@);
            }
        } else if i == p && j > p {
            assert(b[j].0.data@ == a[j - 1].0.data@);
            if j - 1 > p {
                lemma_key_cmp_trans(kv.0.data@, a[p].0.data@, a[j - 1].0.data@);
            }
        } else {
            assert(b[i].0.data@ == a[i - 1].0.data@);
            assert(b[j].0.data@ == a[j - 1].0.data@);
        }
    }
}

/// Removing a slot keeps the remaining slots sorted.
proof fn lemma_sorted_remove<V>(a: Seq<(Tuple, V)>, lo: int, p: int)
    requires
        0 <= lo,
        0 <= p < a.len(),
        sorted_from(a, lo),
    ensures
        sorted_from(a.remove(p), lo),
{
    let b = a.remove(p);
    assert forall|i: int, j: int| lo <= i < j < b.len() implies key_lt(
        (#[trigger] b[i].0.data@),
        (#[trigger] b[j].0.data@),
    ) by {
        let i0: int = if i < p {
            i
        } else {
            i + 1
        };
        let j0: int = if j < p {
            j
        } else {
            j + 1
        };
        assert(b[i].0.data@ == a[i0].0.data@);
        assert(b[j].0.data@ == a[j0].0.data@);
    }
}

/// In a page whose slots `[lo, len)` are strictly sorted, a key occurs in
/// at most one slot.
proof fn lemma_sorted_key_unique<V>(a: Seq<(Tuple, V)>, lo: int, key: Seq<ScalarValue>, i: int, j: int)
    requires
        0 <= lo,
        sorted_from(a, lo),
        lo <= i < a.len(),
        lo <= j < a.len(),
        a[i].0.data@ == key,
        a[j].0.data@ == key,
    ensures
        i == j,
{
    if i != j {
        lemma_key_cmp_eq(key, key);
    }
}

/// Where an internal-page insert lands: the first insert (the sentinel)
/// takes slot 0; every later key goes to its upper bound above the
/// sentinel.
pub open spec fn internal_insert_pos(a: Seq<InternalKV>, key: Seq<ScalarValue>) -> int {
    if a.len() == 0 {
        0
    } else {
        upper_bound_from(a, key, 1)
    }
}

/// Position of the first slot in `[0, len)` whose child page id is `pid`;
/// `len` when there is none.
pub open spec fn find_pid(a: Seq<InternalKV>, pid: PageId, lo: int) -> int
    decreases a.len() - lo,
{
    if lo < 0 || lo >= a.len() {
        a.len() as int
    } else if a[lo].1 == pid {
        lo
    } else {
        find_pid(a, pid, lo + 1)
    }
}

proof fn lemma_find_pid(a: Seq<InternalKV>, pid: PageId, lo: int)
    requires
        0 <= lo <= a.len(),
    ensures
        lo <= find_pid(a, pid, lo) <= a.len(),
        forall|i: int| lo <= i < find_pid(a, pid, lo) ==> (#[trigger] a[i].1) != pid,
        find_pid(a, pid, lo) < a.len() ==> a[find_pid(a, pid, lo)].1 == pid,
    decreases a.len() - lo,
{
    if lo < a.len() && a[lo].1 != pid {
        lemma_find_pid(a, pid, lo + 1);
    }
}

/// Index of the child subtree that covers `key` on an internal page: the
/// greatest slot whose key is not greater than `key`, never examining the
/// sentinel slot 0.
pub open spec fn child_pos(a: Seq<InternalKV>, key: Seq<ScalarValue>) -> int
    decreases a.len(),
{
    if a.len() <= 1 {
        0
    } else if !key_lt(key, a.last().0.data@) {
        a.len() - 1
    } else {
        child_pos(a.drop_last(), key)
    }
}

/// What `child_pos` selects: every slot above it has a key greater than
/// `key`, and the selected slot (unless it is the sentinel) does not.
pub proof fn lemma_child_pos(a: Seq<InternalKV>, key: Seq<ScalarValue>)
    requires
        a.len() >= 1,
    ensures
        0 <= child_pos(a, key) < a.len(),
        child_pos(a, key) > 0 ==> !key_lt(key, a[child_pos(a, key)].0.data@),
        forall|j: int| child_pos(a, key) < j < a.len() ==> key_lt(key, (#[trigger] a[j].0.data@)),
    decreases a.len(),
{
    if a.len() > 1 && key_lt(key, a.last().0.data@) {
        lemma_child_pos(a.drop_last(), key);
        let p = child_pos(a.drop_last(), key);
        assert forall|j: int| p < j < a.len() implies key_lt(key, (#[trigger] a[j].0.data@)) by {
            if j < a.len() - 1 {
                assert(a.drop_last()[j].0.data@ == a[j].0.data@);
            }
        }
        if p > 0 {
            assert(a.drop_last()[p].0.data@ == a[p].0.data@);
        }
    }
}

/// In a sorted page, a slot whose key is not above `key` bounds
/// `child_pos` from below, and one whose key is above bounds it strictly
/// from above.
pub proof fn lemma_child_pos_bounds(a: Seq<InternalKV>, key: Seq<ScalarValue>, j: int)
    requires
        sorted_from(a, 1),
        a.len() >= 1,
        1 <= j < a.len(),
    ensures
        !key_lt(key, a[j].0.data@) ==> child_pos(a, key) >= j,
        key_lt(key, a[j].0.data@) ==> child_pos(a, key) < j,
{
    lemma_child_pos(a, key);
    let p = child_pos(a, key);
    if !key_lt(key, a[j].0.data@) && p < j {
        // slot j would be above the chosen child yet not greater than key
        assert(key_lt(key, a[j].0.data@));
    }
    if key_lt(key, a[j].0.data@) && p >= j {
        if p > j {
            lemma_key_cmp_trans(key, a[j].0.data@, a[p].0.data@);
        }
    }
}

/// First position at or after `lo` whose key is strictly greater than the
/// probe key, found by a forward scan.
fn upper_bound_index<V: Copy>(array: &Vec<(Tuple, V)>, key: &Tuple, lo: usize) -> (r: usize)
    requires
        lo <= array@.len(),
    ensures
        r as int == upper_bound_from(array@, key.data@, lo as int),
        lo <= r <= array@.len(),
{
    proof {
        lemma_upper_bound_from(array@, key.data@, lo as int);
    }
    let mut i: usize = lo;
    while i < array.len()
        invariant
            lo <= i <= array@.len(),
            upper_bound_from(array@, key.data@, lo as int) == upper_bound_from(
                array@,
                key.data@,
                i as int,
            ),
        decreases array@.len() - i,
    {
        let c = key.compare(&array[i].0, &key.schema);
        if matches!(c, core::cmp::Ordering::Less) {
            return i;
        }
        i = i + 1;
    }
    array.len()
}

/// Kind tag of a B+tree page, also its first header word on disk.
#[derive(Clone, Copy, Debug, PartialEq, Eq, Structural)]
pub enum BPlusTreePageType {
    LeafPage,
    InternalPage,
}

/// Header of an internal page.
#[derive(Clone, Debug)]
pub struct BPlusTreeInternalPageHeader {
    pub page_type: BPlusTreePageType,
    pub current_size: u32,
    /// Greatest slot count before the page must split.
    pub max_size: u32,
}

/// An internal page: slot 0 carries the sentinel whose child covers every
/// key below slot 1's key; slots `[1, current_size)` carry strictly
/// increasing separator keys.
#[derive(Clone, Debug)]
pub struct BPlusTreeInternalPage {
    pub schema: Schema,
    pub header: BPlusTreeInternalPageHeader,
    pub array: Vec<InternalKV>,
}

impl BPlusTreeInternalPage {
    /// Well-formedness: the slot count matches the header and the keys
    /// above the sentinel are strictly increasing.
    pub open spec fn wf(&self) -> bool {
        &&& self.header.page_type == BPlusTreePageType::InternalPage
        &&& self.header.current_size as int == self.array@.len()
        &&& sorted_from(self.array@, 1)
    }

    pub fn new(schema: Schema, max_size: u32) -> (r: BPlusTreeInternalPage)
        ensures
            r.wf(),
            r.array@.len() == 0,
            r.header.max_size == max_size,
            r.schema.types() == schema.types(),
    {
        BPlusTreeInternalPage {
            schema,
            header: BPlusTreeInternalPageHeader {
                page_type: BPlusTreePageType::InternalPage,
                current_size: 0,
                max_size,
            },
            array: Vec::with_capacity(max_size as usize),
        }
    }

    /// Least slot count a non-root page may shrink to before rebalancing.
    pub fn min_size(&self) -> (r: u32)
        ensures
            r == self.header.max_size / 2,
    {
        self.header.max_size / 2
    }

    pub fn key_at(&self, index: usize) -> (r: &Tuple)
        requires
            index < self.array@.len(),
        ensures
            r.data@ == self.array@[index as int].0.data@,
    {
        &self.array[index].0
    }

    pub fn value_at(&self, index: usize) -> (r: PageId)
        requires
            index < self.array@.len(),
        ensures
            r == self.array@[index as int].1,
    {
        self.array[index].1
    }

    /// The child page ids of every slot, in slot order.
    pub fn values(&self) -> (r: Vec<PageId>)
        ensures
            r@.len() == self.array@.len(),
            forall|i: int| 0 <= i < r@.len() ==> r@[i] == (#[trigger] self.array@[i]).1,
    {
        let mut r: Vec<PageId> = Vec::new();
        let mut i: usize = 0;
        while i < self.array.len()
            invariant
                i <= self.array@.len(),
                r@.len() == i,
                forall|j: int| 0 <= j < i ==> r@[j] == (#[trigger] self.array@[j]).1,
            decreases self.array@.len() - i,
        {
            r.push(self.array[i].1);
            i = i + 1;
        }
        r
    }

    /// Page ids of the slots immediately left and right of the slot whose
    /// child is `page_id`; `None` past either end or when absent.
    pub fn sibling_page_ids(&self, page_id: PageId) -> (r: (Option<PageId>, Option<PageId>))
        requires
            self.wf(),
        ensures
            ({
                let f = find_pid(self.array@, page_id, 0);
                if f == self.array@.len() {
                    r == (None::<PageId>, None::<PageId>)
                } else {
                    &&& r.0 == if f == 0 {
                        None::<PageId>
                    } else {
                        Some(self.array@[f - 1].1)
                    }
                    &&& r.1 == if f == self.array@.len() - 1 {
                        None::<PageId>
                    } else {
                        Some(self.array@[f + 1].1)
                    }
                }
            }),
    {
        proof {
            lemma_find_pid(self.array@, page_id, 0);
        }
        let mut i: usize = 0;
        while i < self.array.len()
            invariant
                i <= self.array@.len(),
                find_pid(self.array@, page_id, 0) == find_pid(self.array@, page_id, i as int),
            decreases self.array@.len() - i,
        {
            if self.array[i].1 == page_id {
                let left = if i == 0 {
                    None
                } else {
                    Some(self.array[i - 1].1)
                };
                let right = if i == self.array.len() - 1 {
                    None
                } else {
                    Some(self.array[i + 1].1)
                };
                return (left, right);
            }
            i = i + 1;
        }
        (None, None)
    }

    /// Insert a key and child pid at the position that keeps the keys
    /// above the sentinel sorted. The first insertion must be the
    /// sentinel's all-null key; a later key lands after slot 0.
    pub fn insert(&mut self, key: Tuple, page_id: PageId, _key_schema: &Schema)
        requires
            old(self).wf(),
            old(self).array@.len() < u32::MAX,
            old(self).array@.len() == 0 ==> all_null(key.data@),
            key_absent_from(old(self).array@, key.data@, 1),
        ensures
            final(self).wf(),
            final(self).schema == old(self).schema,
            final(self).header.max_size == old(self).header.max_size,
            final(self).header.current_size == old(self).header.current_size + 1,
            final(self).array@ == old(self).array@.insert(
                internal_insert_pos(old(self).array@, key.data@),
                (key, page_id),
            ),
    {
        let pos: usize = if self.array.len() == 0 {
            0
        } else {
            upper_bound_index(&self.array, &key, 1)
        };
        proof {
            let a = self.array@;
            let k = key.data@;
            let p = internal_insert_pos(a, k);
            if a.len() > 0 {
                lemma_upper_bound_from(a, k, 1);
                assert forall|j: int| 1 <= j < p implies key_lt((#[trigger] a[j].0.data@), k) by {
                    lemma_key_cmp_eq(k, a[j].0.data@);
                    lemma_key_cmp_flip(a[j].0.data@, k);
                }
                lemma_sorted_insert(a, (key, page_id), 1, p);
            } else {
                assert(a.insert(0, (key, page_id)).len() == 1);
            }
        }
        self.array.insert(pos, (key, page_id));
        self.header.current_size = self.header.current_size + 1;
    }

    /// Append a run of key/pid pairs that all sort strictly above the
    /// page's existing keys, as a split or merge hands them over.
    pub fn batch_insert(&mut self, kvs: Vec<InternalKV>, _key_schema: &Schema)
        requires
            old(self).wf(),
            sorted_from(kvs@, 0),
            old(self).array@.len() + kvs@.len() < u32::MAX,
            forall|i: int, j: int|
                1 <= i < old(self).array@.len() && 0 <= j < kvs@.len() ==> key_lt(
                    (#[trigger] old(self).array@[i].0.data@),
                    (#[trigger] kvs@[j].0.data@),
                ),
        ensures
            final(self).wf(),
            final(self).schema == old(self).schema,
            final(self).header.max_size == old(self).header.max_size,
            final(self).header.current_size == old(self).header.current_size + kvs@.len(),
            final(self).array@ == old(self).array@ + kvs@,
    {
        let kvs_len = kvs.len();
        let mut kvs = kvs;
        proof {
            let b = self.array@ + kvs@;
            assert forall|i: int, j: int| 1 <= i < j < b.len() implies key_lt(
                (#[trigger] b[i].0.data@),
                (#[trigger] b[j].0.data@),
            ) by {
                let n = self.array@.len() as int;
                if i < n && j < n {
                    assert(b[i].0.data@ == self.array@[i].0.data@);
                    assert(b[j].0.data@ == self.array@[j].0.data@);
                } else if i < n {
                    assert(b[i].0.data@ == self.array@[i].0.data@);
                    assert(b[j].0.data@ == kvs@[j - n].0.data@);
                } else {
                    assert(b[i].0.data@ == kvs@[i - n].0.data@);
                    assert(b[j].0.data@ == kvs@[j - n].0.data@);
                }
            }
        }
        self.array.append(&mut kvs);
        self.header.current_size = self.header.current_size + kvs_len as u32;
    }

    /// True when the page is already over capacity: the insert path puts
    /// the new entry in first and splits afterwards.
    pub fn is_full(&self) -> (r: bool)
        ensures
            r == (self.header.current_size > self.header.max_size),
    {
        self.header.current_size > self.header.max_size
    }

    /// Move the slots `[at, len)` out, keeping the lower part.
    pub fn split_off(&mut self, at: usize) -> (r: Vec<InternalKV>)
        requires
            old(self).wf(),
            at <= old(self).array@.len(),
        ensures
            final(self).wf(),
            final(self).schema == old(self).schema,
            final(self).header.max_size == old(self).header.max_size,
            final(self).array@ == old(self).array@.take(at as int),
            r@ == old(self).array@.skip(at as int),
            final(self).header.current_size == at,
    {
        let new_array = self.array.split_off(at);
        self.header.current_size = self.header.current_size - new_array.len() as u32;
        new_array
    }

    /// Move the slots `[0, at]` out, keeping the upper part.
    pub fn reverse_split_off(&mut self, at: usize) -> (r: Vec<InternalKV>)
        requires
            old(self).wf(),
            at < old(self).array@.len(),
        ensures
            final(self).wf(),
            final(self).schema == old(self).schema,
            final(self).header.max_size == old(self).header.max_size,
            final(self).array@ == old(self).array@.skip(at as int + 1),
            r@ == old(self).array@.take(at as int + 1),
            final(self).header.current_size as int == old(self).array@.len() - (at + 1),
    {
        let mut head = self.array.split_off(at + 1);
        core::mem::swap(&mut self.array, &mut head);
        self.header.current_size = self.header.current_size - head.len() as u32;
        head
    }

    /// Replace a separator key found by exact match with a new key that
    /// fits the same slot's gap, as a borrow or merge reseats separators.
    pub fn replace_key(&mut self, old_key: &Tuple, new_key: Tuple, _key_schema: &Schema)
        requires
            old(self).wf(),
            forall|i: int|
                1 <= i < old(self).array@.len() && (#[trigger] old(self).array@[i].0.data@)
                    == old_key.data@ ==> (forall|j: int|
                    1 <= j < i ==> key_lt((#[trigger] old(self).array@[j].0.data@), new_key.data@))
                    && (forall|j: int|
                    i < j < old(self).array@.len() ==> key_lt(
                        new_key.data@,
                        (#[trigger] old(self).array@[j].0.data@),
                    )),
        ensures
            final(self).wf(),
            final(self).schema == old(self).schema,
            final(self).header == old(self).header,
            key_absent_from(old(self).array@, old_key.data@, 1) ==> final(self).array@ == old(
                self,
            ).array@,
            forall|i: int|
                1 <= i < old(self).array@.len() && (#[trigger] old(self).array@[i].0.data@)
                    == old_key.data@ ==> final(self).array@ == old(self).array@.update(
                    i,
                    (new_key, old(self).array@[i].1),
                ),
    {
        let key_index = find_key_index(&self.array, old_key, 1);
        if let Some(index) = key_index {
            let pid = self.array[index].1;
            let ghost a = self.array@;
            self.array.set(index, (new_key, pid));
            proof {
                assert forall|i2: int|
                    1 <= i2 < a.len() && (#[trigger] a[i2].0.data@) == old_key.data@ implies i2
                    == index by {
                    lemma_sorted_key_unique(a, 1, old_key.data@, i2, index as int);
                }
                let b = self.array@;
                assert forall|i: int, j: int| 1 <= i < j < b.len() implies key_lt(
                    (#[trigger] b[i].0.data@),
                    (#[trigger] b[j].0.data@),
                ) by {
                    if i != index && j != index {
                        assert(b[i].0.data@ == a[i].0.data@);
                        assert(b[j].0.data@ == a[j].0.data@);
                    }
                }
            }
        }
    }

    /// Exact-match position of a key among the separator slots.
    pub fn key_index(&self, key: &Tuple, _key_schema: &Schema) -> (r: Option<usize>)
        requires
            self.wf(),
        ensures
            match r {
                Some(i) => 1 <= i < self.array@.len() && self.array@[i as int].0.data@
                    == key.data@,
                None => key_absent_from(self.array@, key.data@, 1),
            },
    {
        find_key_index(&self.array, key, 1)
    }

    /// The child page id of the subtree that covers `key`: the greatest
    /// slot whose key is not greater than `key`, slot 0 when every
    /// separator is greater.
    pub fn look_up(&self, key: &Tuple, _key_schema: &Schema) -> (r: PageId)
        requires
            self.wf(),
            self.header.current_size >= 2,
        ensures
            r == self.array@[child_pos(self.array@, key.data@)].1,
    {
        let ghost p = child_pos(self.array@, key.data@);
        proof {
            lemma_child_pos(self.array@, key.data@);
        }
        let mut start: usize = 1;
        let mut end: usize = self.array.len() - 1;
        while start < end
            invariant
                self.wf(),
                2 <= self.array@.len(),
                1 <= start,
                start <= end + 1,
                end <= self.array@.len() - 1,
                start <= self.array@.len() - 1,
                p == child_pos(self.array@, key.data@),
                start - 1 <= p <= end,
            decreases end + 1 - start,
        {
            let mid = start + (end - start) / 2;
            let c = key.compare(&self.array[mid].0, &key.schema);
            match c {
                core::cmp::Ordering::Equal => {
                    proof {
                        lemma_key_cmp_eq(key.data@, self.array@[mid as int].0.data@);
                        lemma_child_pos_bounds(self.array@, key.data@, mid as int);
                        if mid as int + 1 < self.array@.len() {
                            assert(key_lt(
                                self.array@[mid as int].0.data@,
                                self.array@[mid as int + 1].0.data@,
                            ));
                            lemma_child_pos_bounds(self.array@, key.data@, mid as int + 1);
                        }
                    }
                    return self.array[mid].1;
                },
                core::cmp::Ordering::Less => {
                    proof {
                        lemma_child_pos_bounds(self.array@, key.data@, mid as int);
                    }
                    end = mid - 1;
                },
                core::cmp::Ordering::Greater => {
                    proof {
                        lemma_child_pos_bounds(self.array@, key.data@, mid as int);
                    }
                    start = mid + 1;
                },
            }
        }
        let c = key.compare(&self.array[start].0, &key.schema);
        proof {
            lemma_child_pos_bounds(self.array@, key.data@, start as int);
        }
        if matches!(c, core::cmp::Ordering::Less) {
            self.array[start - 1].1
        } else {
            self.array[start].1
        }
    }

    /// Remove the slot holding `key`, if any; a page left with only its
    /// sentinel is emptied entirely.
    pub fn delete(&mut self, key: &Tuple, _key_schema: &Schema)
        requires
            old(self).wf(),
            old(self).header.current_size != 1,
        ensures
            final(self).wf(),
            final(self).schema == old(self).schema,
            final(self).header.max_size == old(self).header.max_size,
            key_absent_from(old(self).array@, key.data@, 1) ==> final(self).array@ == old(
                self,
            ).array@ && final(self).header == old(self).header,
            forall|i: int|
                1 <= i < old(self).array@.len() && (#[trigger] old(self).array@[i].0.data@)
                    == key.data@ ==> (if old(self).array@.len() == 2 {
                    final(self).array@.len() == 0 && final(self).header.current_size == 0
                } else {
                    final(self).array@ == old(self).array@.remove(i)
                        && final(self).header.current_size == old(self).header.current_size - 1
                }),
    {
        if self.header.current_size == 0 {
            return ;
        }
        let found = find_key_index(&self.array, key, 1);
        if let Some(index) = found {
            let ghost a = self.array@;
            proof {
                assert forall|i2: int|
                    1 <= i2 < a.len() && (#[trigger] a[i2].0.data@) == key.data@ implies i2
                    == index by {
                    lemma_sorted_key_unique(a, 1, key.data@, i2, index as int);
                }
                lemma_sorted_remove(a, 1, index as int);
            }
            self.array.remove(index);
            self.header.current_size = self.header.current_size - 1;
            // a page left with only the sentinel is emptied
            if self.header.current_size == 1 {
                self.array.remove(0);
                self.header.current_size = self.header.current_size - 1;
            }
        }
    }

    /// Remove the slot whose child is `page_id`, if any; removing slot 0
    /// reseats the sentinel on the new first slot, and a page left with
    /// only its sentinel is emptied entirely.
    pub fn delete_page_id(&mut self, page_id: PageId)
        requires
            old(self).wf(),
            old(self).header.current_size != 1,
        ensures
            final(self).wf(),
            final(self).schema == old(self).schema,
            final(self).header.max_size == old(self).header.max_size,
            ({
                let a = old(self).array@;
                let f = find_pid(a, page_id, 0);
                if f == a.len() {
                    final(self).array@ == a && final(self).header == old(self).header
                } else if a.len() == 2 {
                    final(self).array@.len() == 0 && final(self).header.current_size == 0
                } else if f == 0 {
                    &&& final(self).array@.len() == a.len() - 1
                    &&& all_null(final(self).array@[0].0.data@)
                    &&& final(self).array@[0].1 == a[1].1
                    &&& (forall|j: int| 1 <= j < a.len() - 1 ==> final(self).array@[j] == a[j + 1])
                    &&& final(self).header.current_size == old(self).header.current_size - 1
                } else {
                    final(self).array@ == a.remove(f) && final(self).header.current_size == old(
                        self,
                    ).header.current_size - 1
                }
            }),
    {
        if self.header.current_size == 0 {
            return ;
        }
        let ghost a = self.array@;
        proof {
            lemma_find_pid(a, page_id, 0);
        }
        let mut i: usize = 0;
        while i < self.array.len()
            invariant
                i <= self.array@.len(),
                *self == *old(self),
                self.array@ == a,
                old(self).wf(),
                old(self).header.current_size != 1,
                find_pid(a, page_id, 0) == find_pid(a, page_id, i as int),
            decreases self.array@.len() - i,
        {
            if self.array[i].1 == page_id {
                if i == 0 {
                    self.array.remove(0);
                    self.header.current_size = self.header.current_size - 1;
                    // reseat the sentinel on the new first slot
                    let pid0 = self.array[0].1;
                    let empty_key = Tuple::empty(self.schema.duplicate());
                    self.array.set(0, (empty_key, pid0));
                    proof {
                        let b = self.array@;
                        assert forall|x: int, y: int| 1 <= x < y < b.len() implies key_lt(
                            (#[trigger] b[x].0.data@),
                            (#[trigger] b[y].0.data@),
                        ) by {
                            assert(b[x].0.data@ == a[x + 1].0.data@);
                            assert(b[y].0.data@ == a[y + 1].0.data@);
                        }
                    }
                } else {
                    proof {
                        lemma_sorted_remove(a, 1, i as int);
                    }
                    self.array.remove(i);
                    self.header.current_size = self.header.current_size - 1;
                }
                if self.header.current_size == 1 {
                    self.array.remove(0);
                    self.header.current_size = self.header.current_size - 1;
                }
                return ;
            }
            i = i + 1;
        }
    }
}

/// Header of a leaf page; leaves are singly linked for range scans.
#[derive(Clone, Debug)]
pub struct BPlusTreeLeafPageHeader {
    pub page_type: BPlusTreePageType,
    pub current_size: u32,
    /// Greatest slot count before the page must split.
    pub max_size: u32,
    pub next_page_id: PageId,
}

/// A leaf page: strictly increasing keys, each paired with the record id
/// of its heap tuple.
#[derive(Clone, Debug)]
pub struct BPlusTreeLeafPage {
    pub schema: Schema,
    pub header: BPlusTreeLeafPageHeader,
    pub array: Vec<LeafKV>,
}

impl BPlusTreeLeafPage {
    /// Well-formedness: the slot count matches the header and all keys are
    /// strictly increasing.
    pub open spec fn wf(&self) -> bool {
        &&& self.header.page_type == BPlusTreePageType::LeafPage
        &&& self.header.current_size as int == self.array@.len()
        &&& sorted_from(self.array@, 0)
    }

    pub fn new(schema: Schema, max_size: u32) -> (r: BPlusTreeLeafPage)
        ensures
            r.wf(),
            r.array@.len() == 0,
            r.header.max_size == max_size,
            r.header.next_page_id == INVALID_PAGE_ID,
            r.schema.types() == schema.types(),
    {
        BPlusTreeLeafPage {
            schema,
            header: BPlusTreeLeafPageHeader {
                page_type: BPlusTreePageType::LeafPage,
                current_size: 0,
                max_size,
                next_page_id: INVALID_PAGE_ID,
            },
            array: Vec::with_capacity(max_size as usize),
        }
    }

    /// Least slot count a non-root page may shrink to before rebalancing.
    pub fn min_size(&self) -> (r: u32)
        ensures
            r == self.header.max_size / 2,
    {
        self.header.max_size / 2
    }

    pub fn key_at(&self, index: usize) -> (r: &Tuple)
        requires
            index < self.array@.len(),
        ensures
            r.data@ == self.array@[index as int].0.data@,
    {
        &self.array[index].0
    }

    pub fn kv_at(&self, index: usize) -> (r: &LeafKV)
        requires
            index < self.array@.len(),
        ensures
            r == self.array@[index as int],
    {
        &self.array[index]
    }

    /// True when the page is already over capacity: the insert path puts
    /// the new entry in first and splits afterwards.
    pub fn is_full(&self) -> (r: bool)
        ensures
            r == (self.header.current_size > self.header.max_size),
    {
        self.header.current_size > self.header.max_size
    }

    /// Insert a key and record id at the position that keeps the keys
    /// sorted.
    pub fn insert(&mut self, key: Tuple, rid: Rid, _key_schema: &Schema)
        requires
            old(self).wf(),
            old(self).array@.len() < u32::MAX,
            key_absent_from(old(self).array@, key.data@, 0),
        ensures
            final(self).wf(),
            final(self).schema == old(self).schema,
            final(self).header.max_size == old(self).header.max_size,
            final(self).header.next_page_id == old(self).header.next_page_id,
            final(self).header.current_size == old(self).header.current_size + 1,
            final(self).array@ == old(self).array@.insert(
                upper_bound_from(old(self).array@, key.data@, 0),
                (key, rid),
            ),
    {
        let pos: usize = upper_bound_index(&self.array, &key, 0);
        proof {
            let a = self.array@;
            let k = key.data@;
            let p = upper_bound_from(a, k, 0);
            lemma_upper_bound_from(a, k, 0);
            assert forall|j: int| 0 <= j < p implies key_lt((#[trigger] a[j].0.data@), k) by {
                lemma_key_cmp_eq(k, a[j].0.data@);
                lemma_key_cmp_flip(a[j].0.data@, k);
            }
            lemma_sorted_insert(a, (key, rid), 0, p);
        }
        self.array.insert(pos, (key, rid));
        self.header.current_size = self.header.current_size + 1;
    }

    /// Append a run of key/rid pairs that all sort strictly above the
    /// page's existing keys, as a split or merge hands them over.
    pub fn batch_insert(&mut self, kvs: Vec<LeafKV>, _key_schema: &Schema)
        requires
            old(self).wf(),
            sorted_from(kvs@, 0),
            old(self).array@.len() + kvs@.len() < u32::MAX,
            forall|i: int, j: int|
                0 <= i < old(self).array@.len() && 0 <= j < kvs@.len() ==> key_lt(
                    (#[trigger] old(self).array@[i].0.data@),
                    (#[trigger] kvs@[j].0.data@),
                ),
        ensures
            final(self).wf(),
            final(self).schema == old(self).schema,
            final(self).header.max_size == old(self).header.max_size,
            final(self).header.next_page_id == old(self).header.next_page_id,
            final(self).header.current_size == old(self).header.current_size + kvs@.len(),
            final(self).array@ == old(self).array@ + kvs@,
    {
        let kvs_len = kvs.len();
        let mut kvs = kvs;
        proof {
            let b = self.array@ + kvs@;
            assert forall|i: int, j: int| 0 <= i < j < b.len() implies key_lt(
                (#[trigger] b[i].0.data@),
                (#[trigger] b[j].0.data@),
            ) by {
                let n = self.array@.len() as int;
                if i < n && j < n {
                    assert(b[i].0.data@ == self.array@[i].0.data@);
                    assert(b[j].0.data@ == self.array@[j].0.data@);
                } else if i < n {
                    assert(b[i].0.data@ == self.array@[i].0.data@);
                    assert(b[j].0.data@ == kvs@[j - n].0.data@);
                } else {
                    assert(b[i].0.data@ == kvs@[i - n].0.data@);
                    assert(b[j].0.data@ == kvs@[j - n].0.data@);
                }
            }
        }
        self.array.append(&mut kvs);
        self.header.current_size = self.header.current_size + kvs_len as u32;
    }

    /// Move the slots `[at, len)` out, keeping the lower part.
    pub fn split_off(&mut self, at: usize) -> (r: Vec<LeafKV>)
        requires
            old(self).wf(),
            at <= old(self).array@.len(),
        ensures
            final(self).wf(),
            final(self).schema == old(self).schema,
            final(self).header.max_size == old(self).header.max_size,
            final(self).header.next_page_id == old(self).header.next_page_id,
            final(self).array@ == old(self).array@.take(at as int),
            r@ == old(self).array@.skip(at as int),
            final(self).header.current_size == at,
    {
        let new_array = self.array.split_off(at);
        self.header.current_size = self.header.current_size - new_array.len() as u32;
        new_array
    }

    /// Move the slots `[0, at]` out, keeping the upper part.
    pub fn reverse_split_off(&mut self, at: usize) -> (r: Vec<LeafKV>)
        requires
            old(self).wf(),
            at < old(self).array@.len(),
        ensures
            final(self).wf(),
            final(self).schema == old(self).schema,
            final(self).header.max_size == old(self).header.max_size,
            final(self).header.next_page_id == old(self).header.next_page_id,
            final(self).array@ == old(self).array@.skip(at as int + 1),
            r@ == old(self).array@.take(at as int + 1),
            final(self).header.current_size as int == old(self).array@.len() - (at + 1),
    {
        let mut head = self.array.split_off(at + 1);
        core::mem::swap(&mut self.array, &mut head);
        self.header.current_size = self.header.current_size - head.len() as u32;
        head
    }

    /// Remove the slot holding `key`, if any.
    pub fn delete(&mut self, key: &Tuple, key_schema: &Schema)
        requires
            old(self).wf(),
        ensures
            final(self).wf(),
            final(self).schema == old(self).schema,
            final(self).header.max_size == old(self).header.max_size,
            final(self).header.next_page_id == old(self).header.next_page_id,
            key_absent_from(old(self).array@, key.data@, 0) ==> final(self).array@ == old(
                self,
            ).array@ && final(self).header == old(self).header,
            forall|i: int|
                0 <= i < old(self).array@.len() && (#[trigger] old(self).array@[i].0.data@)
                    == key.data@ ==> final(self).array@ == old(self).array@.remove(i)
                    && final(self).header.current_size == old(self).header.current_size - 1,
    {
        let key_index = self.key_index(key, key_schema);
        if let Some(index) = key_index {
            let ghost a = self.array@;
            proof {
                assert forall|i2: int|
                    0 <= i2 < a.len() && (#[trigger] a[i2].0.data@) == key.data@ implies i2
                    == index by {
                    lemma_sorted_key_unique(a, 0, key.data@, i2, index as int);
                }
                lemma_sorted_remove(a, 0, index as int);
            }
            self.array.remove(index);
            self.header.current_size = self.header.current_size - 1;
        }
    }

    /// The record id stored under `key`, if any.
    pub fn look_up(&self, key: &Tuple, key_schema: &Schema) -> (r: Option<Rid>)
        requires
            self.wf(),
        ensures
            key_absent_from(self.array@, key.data@, 0) ==> r is None,
            forall|i: int|
                0 <= i < self.array@.len() && (#[trigger] self.array@[i].0.data@) == key.data@
                    ==> r == Some(self.array@[i].1),
    {
        let key_index = self.key_index(key, key_schema);
        match key_index {
            Some(index) => {
                proof {
                    assert forall|i2: int|
                        0 <= i2 < self.array@.len() && (#[trigger] self.array@[i2].0.data@)
                            == key.data@ implies i2 == index by {
                        lemma_sorted_key_unique(self.array@, 0, key.data@, i2, index as int);
                    }
                }
                Some(self.array[index].1)
            },
            None => None,
        }
    }

    /// Exact-match position of a key among the slots.
    fn key_index(&self, key: &Tuple, _key_schema: &Schema) -> (r: Option<usize>)
        requires
            self.wf(),
        ensures
            match r {
                Some(i) => i < self.array@.len() && self.array@[i as int].0.data@ == key.data@,
                None => key_absent_from(self.array@, key.data@, 0),
            },
    {
        find_key_index(&self.array, key, 0)
    }
}

/// A B+tree page as decoded from disk: either an internal routing page or
/// a leaf.
#[derive(Clone, Debug)]
pub enum BPlusTreePage {
    Internal(BPlusTreeInternalPage),
    Leaf(BPlusTreeLeafPage),
}

impl BPlusTreePage {
    pub open spec fn wf(&self) -> bool {
        match self {
            BPlusTreePage::Internal(page) => page.wf(),
            BPlusTreePage::Leaf(page) => page.wf(),
        }
    }

    pub open spec fn spec_size(&self) -> int {
        match self {
            BPlusTreePage::Internal(page) => page.header.current_size as int,
            BPlusTreePage::Leaf(page) => page.header.current_size as int,
        }
    }

    pub open spec fn spec_max_size(&self) -> int {
        match self {
            BPlusTreePage::Internal(page) => page.header.max_size as int,
            BPlusTreePage::Leaf(page) => page.header.max_size as int,
        }
    }

    pub fn is_leaf(&self) -> (r: bool)
        ensures
            r == (self is Leaf),
    {
        match self {
            BPlusTreePage::Internal(_) => false,
            BPlusTreePage::Leaf(_) => true,
        }
    }

    /// True when the page is already over capacity and must split.
    pub fn is_full(&self) -> (r: bool)
        ensures
            r == (self.spec_size() > self.spec_max_size()),
    {
        match self {
            BPlusTreePage::Internal(page) => page.is_full(),
            BPlusTreePage::Leaf(page) => page.is_full(),
        }
    }

    /// True when a non-root page has shrunk below half capacity and must
    /// borrow or merge; the root is exempt.
    pub fn is_underflow(&self, is_root: bool) -> (r: bool)
        ensures
            r == (!is_root && self.spec_size() < self.spec_max_size() / 2),
    {
        if is_root {
            return false;
        }
        match self {
            BPlusTreePage::Internal(page) => page.header.current_size < page.min_size(),
            BPlusTreePage::Leaf(page) => page.header.current_size < page.min_size(),
        }
    }

    /// Insert a separator entry; only internal pages take one.
    pub fn insert_internalkv(&mut self, internalkv: InternalKV, key_schema: &Schema)
        requires
            *old(self) is Internal,
            (*old(self))->Internal_0.wf(),
            (*old(self))->Internal_0.array@.len() < u32::MAX,
            (*old(self))->Internal_0.array@.len() == 0 ==> all_null(internalkv.0.data@),
            key_absent_from((*old(self))->Internal_0.array@, internalkv.0.data@, 1),
        ensures
            *final(self) is Internal,
            (*final(self))->Internal_0.wf(),
            (*final(self))->Internal_0.schema == (*old(self))->Internal_0.schema,
            (*final(self))->Internal_0.header.max_size == (*old(self))->Internal_0.header.max_size,
            (*final(self))->Internal_0.array@ == (*old(self))->Internal_0.array@.insert(
                internal_insert_pos((*old(self))->Internal_0.array@, internalkv.0.data@),
                internalkv,
            ),
    {
        match self {
            BPlusTreePage::Internal(page) => page.insert(internalkv.0, internalkv.1, key_schema),
            BPlusTreePage::Leaf(_) => {
                proof {
                    assert(false);
                }
            },
        }
    }

    /// True when the page can lend a slot to a sibling without going
    /// under-full.
    pub fn can_borrow(&self) -> (r: bool)
        ensures
            r == (self.spec_size() > self.spec_max_size() / 2),
    {
        match self {
            BPlusTreePage::Internal(page) => page.header.current_size > page.min_size(),
            BPlusTreePage::Leaf(page) => page.header.current_size > page.min_size(),
        }
    }
}

} // verus!
