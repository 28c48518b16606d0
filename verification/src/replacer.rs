//! LRU-K replacement policy: each candidate frame keeps the timestamps of
//! its last K accesses; eviction picks the evictable frame with the
//! greatest backward K-distance, where frames with fewer than K accesses
//! count as infinitely distant and tie-break by their earliest access.

use vstd::prelude::*;
use vstd::pervasive::VecAdditionalExecFns;

verus! {

/// Bookkeeping for one candidate frame.
#[derive(Debug)]
pub struct ReplacerNode {
    pub frame_id: usize,
    /// Timestamps of the last K accesses, oldest first.
    pub history: Vec<u64>,
    pub is_evictable: bool,
}

/// A frame with fewer than K recorded accesses has infinite backward
/// K-distance.
pub open spec fn spec_inf(h: Seq<u64>, k: int) -> bool {
    h.len() < k
}

/// The frame with history `a` is a strictly better eviction victim than
/// one with history `b`: infinite distance beats finite, and within one
/// class the earlier oldest retained access wins.
pub open spec fn spec_beats(a: Seq<u64>, b: Seq<u64>, k: int) -> bool {
    if spec_inf(a, k) != spec_inf(b, k) {
        spec_inf(a, k)
    } else {
        a[0] < b[0]
    }
}

/// Position of the node tracking `frame_id`; `len` when there is none.
pub open spec fn node_index(nodes: Seq<ReplacerNode>, frame_id: usize, lo: int) -> int
    decreases nodes.len() - lo,
{
    if lo < 0 || lo >= nodes.len() {
        nodes.len() as int
    } else if nodes[lo].frame_id == frame_id {
        lo
    } else {
        node_index(nodes, frame_id, lo + 1)
    }
}

pub proof fn lemma_node_index(nodes: Seq<ReplacerNode>, frame_id: usize, lo: int)
    requires
        0 <= lo <= nodes.len(),
    ensures
        lo <= node_index(nodes, frame_id, lo) <= nodes.len(),
        forall|i: int|
            lo <= i < node_index(nodes, frame_id, lo) ==> (#[trigger] nodes[i].frame_id)
                != frame_id,
        node_index(nodes, frame_id, lo) < nodes.len() ==> nodes[node_index(
            nodes,
            frame_id,
            lo,
        )].frame_id == frame_id,
    decreases nodes.len() - lo,
{
    if lo < nodes.len() && nodes[lo].frame_id != frame_id {
        lemma_node_index(nodes, frame_id, lo + 1);
    }
}

/// A frame tracked by no node scans to the end.
pub proof fn lemma_node_index_absent(nodes: Seq<ReplacerNode>, frame_id: usize)
    requires
        forall|i: int| 0 <= i < nodes.len() ==> (#[trigger] nodes[i].frame_id) != frame_id,
    ensures
        node_index(nodes, frame_id, 0) == nodes.len(),
{
    lemma_node_index(nodes, frame_id, 0);
    if node_index(nodes, frame_id, 0) < nodes.len() {
        assert(nodes[node_index(nodes, frame_id, 0)].frame_id == frame_id);
    }
}

/// The LRU-K replacer over a fixed universe of frame slots.
#[derive(Debug)]
pub struct LRUKReplacer {
    pub k: usize,
    pub current_timestamp: u64,
    pub nodes: Vec<ReplacerNode>,
}

impl LRUKReplacer {
    /// Well-formedness: K is positive, every node keeps between 1 and K
    /// timestamps, and no frame is tracked twice.
    pub open spec fn wf(&self) -> bool {
        &&& self.k >= 1
        &&& (forall|i: int|
            0 <= i < self.nodes@.len() ==> 1 <= (#[trigger] self.nodes@[i]).history@.len()
                <= self.k)
        &&& (forall|i: int, j: int|
            0 <= i < j < self.nodes@.len() ==> (#[trigger] self.nodes@[i].frame_id) != (
            #[trigger] self.nodes@[j].frame_id))
    }

    pub fn new(k: usize) -> (r: LRUKReplacer)
        requires
            k >= 1,
        ensures
            r.wf(),
            r.k == k,
            r.nodes@.len() == 0,
    {
        LRUKReplacer { k, current_timestamp: 0, nodes: Vec::new() }
    }

    /// Record one access of a frame at the next timestamp, keeping at most
    /// the last K timestamps; an unseen frame enters as non-evictable.
    pub fn record_access(&mut self, frame_id: usize)
        requires
            old(self).wf(),
        ensures
            final(self).wf(),
            final(self).k == old(self).k,
            final(self).current_timestamp as int == if old(self).current_timestamp < u64::MAX {
                old(self).current_timestamp + 1
            } else {
                old(self).current_timestamp as int
            },
            ({
                let f = node_index(old(self).nodes@, frame_id, 0);
                let nodes = old(self).nodes@;
                if f == nodes.len() {
                    &&& final(self).nodes@.len() == nodes.len() + 1
                    &&& (forall|i: int|
                        0 <= i < nodes.len() ==> (#[trigger] final(self).nodes@[i]) == nodes[i])
                    &&& final(self).nodes@[f].frame_id == frame_id
                    &&& final(self).nodes@[f].history@ == seq![old(self).current_timestamp]
                    &&& final(self).nodes@[f].is_evictable == false
                } else {
                    &&& final(self).nodes@.len() == nodes.len()
                    &&& (forall|i: int|
                        0 <= i < nodes.len() && i != f ==> (#[trigger] final(self).nodes@[i])
                            == nodes[i])
                    &&& final(self).nodes@[f].frame_id == frame_id
                    &&& final(self).nodes@[f].is_evictable == nodes[f].is_evictable
                    &&& final(self).nodes@[f].history@ == (if nodes[f].history@.len() < old(
                        self,
                    ).k {
                        nodes[f].history@
                    } else {
                        nodes[f].history@.skip(1)
                    }).push(old(self).current_timestamp)
                }
            }),
    {
        let ghost nodes0 = self.nodes@;
        proof {
            lemma_node_index(nodes0, frame_id, 0);
        }
        let ts = self.current_timestamp;
        if self.current_timestamp < u64::MAX {
            self.current_timestamp = self.current_timestamp + 1;
        }
        let n = self.nodes.len();
        let mut i: usize = 0;
        while i < n
            invariant
                i <= n,
                n == nodes0.len(),
                nodes0 == old(self).nodes@,
                self.nodes@ == nodes0,
                self.k == old(self).k,
                old(self).wf(),
                ts == old(self).current_timestamp,
                self.current_timestamp as int == if old(self).current_timestamp < u64::MAX {
                    old(self).current_timestamp + 1
                } else {
                    old(self).current_timestamp as int
                },
                node_index(nodes0, frame_id, 0) == node_index(nodes0, frame_id, i as int),
            decreases n - i,
        {
            if self.nodes[i].frame_id == frame_id {
                let hist_len = self.nodes[i].history.len();
                let fid = self.nodes[i].frame_id;
                let ev = self.nodes[i].is_evictable;
                let mut hist: Vec<u64> = Vec::new();
                let start: usize = if hist_len < self.k {
                    0
                } else {
                    1
                };
                let mut j: usize = start;
                proof {
                    assert(node_index(nodes0, frame_id, i as int) == i as int);
                }
                while j < hist_len
                    invariant
                        start <= j <= hist_len,
                        i < nodes0.len(),
                        nodes0 == old(self).nodes@,
                        self.nodes@ == nodes0,
                        self.k == old(self).k,
                        old(self).wf(),
                        ts == old(self).current_timestamp,
                        self.current_timestamp as int == if old(self).current_timestamp < u64::MAX {
                            old(self).current_timestamp + 1
                        } else {
                            old(self).current_timestamp as int
                        },
                        node_index(nodes0, frame_id, 0) == i as int,
                        nodes0[i as int].frame_id == frame_id,
                        fid == frame_id,
                        ev == nodes0[i as int].is_evictable,
                        hist_len == nodes0[i as int].history@.len(),
                        1 <= hist_len <= self.k,
                        start == (if hist_len < self.k { 0int } else { 1int }),
                        hist@ == nodes0[i as int].history@.subrange(start as int, j as int),
                    decreases hist_len - j,
                {
                    let b = self.nodes[i].history[j];
                    hist.push(b);
                    proof {
                        assert(hist@ =~= nodes0[i as int].history@.subrange(
                            start as int,
                            j as int + 1,
                        ));
                    }
                    j = j + 1;
                }
                hist.push(ts);
                proof {
                    if start == 0 {
                        assert(nodes0[i as int].history@.subrange(
                            0,
                            nodes0[i as int].history@.len() as int,
                        ) =~= nodes0[i as int].history@);
                    } else {
                        assert(nodes0[i as int].history@.subrange(
                            1,
                            nodes0[i as int].history@.len() as int,
                        ) =~= nodes0[i as int].history@.skip(1));
                    }
                }
                self.nodes.set(i, ReplacerNode { frame_id: fid, history: hist, is_evictable: ev });
                return ;
            }
            i = i + 1;
        }
        let mut hist: Vec<u64> = Vec::new();
        hist.push(ts);
        proof {
            assert(hist@ =~= seq![ts]);
        }
        self.nodes.push(ReplacerNode { frame_id, history: hist, is_evictable: false });
    }

    /// Mark or unmark a frame as a legal eviction victim; unknown frames
    /// are ignored.
    pub fn set_evictable(&mut self, frame_id: usize, evictable: bool)
        requires
            old(self).wf(),
        ensures
            final(self).wf(),
            final(self).k == old(self).k,
            final(self).current_timestamp == old(self).current_timestamp,
            ({
                let f = node_index(old(self).nodes@, frame_id, 0);
                let nodes = old(self).nodes@;
                if f == nodes.len() {
                    final(self).nodes@ == nodes
                } else {
                    &&& final(self).nodes@.len() == nodes.len()
                    &&& (forall|i: int|
                        0 <= i < nodes.len() && i != f ==> (#[trigger] final(self).nodes@[i])
                            == nodes[i])
                    &&& final(self).nodes@[f].frame_id == frame_id
                    &&& final(self).nodes@[f].history@ == nodes[f].history@
                    &&& final(self).nodes@[f].is_evictable == evictable
                }
            }),
    {
        let ghost nodes0 = self.nodes@;
        proof {
            lemma_node_index(nodes0, frame_id, 0);
        }
        let n = self.nodes.len();
        let mut i: usize = 0;
        while i < n
            invariant
                i <= n,
                n == nodes0.len(),
                nodes0 == old(self).nodes@,
                self.nodes@ == nodes0,
                self.k == old(self).k,
                old(self).wf(),
                self.current_timestamp == old(self).current_timestamp,
                node_index(nodes0, frame_id, 0) == node_index(nodes0, frame_id, i as int),
            decreases n - i,
        {
            if self.nodes[i].frame_id == frame_id {
                let fid = self.nodes[i].frame_id;
                let mut hist: Vec<u64> = Vec::new();
                let hist_len = self.nodes[i].history.len();
                let mut j: usize = 0;
                proof {
                    assert(node_index(nodes0, frame_id, i as int) == i as int);
                }
                while j < hist_len
                    invariant
                        j <= hist_len,
                        i < nodes0.len(),
                        nodes0 == old(self).nodes@,
                        self.nodes@ == nodes0,
                        self.k == old(self).k,
                        old(self).wf(),
                        self.current_timestamp == old(self).current_timestamp,
                        node_index(nodes0, frame_id, 0) == i as int,
                        nodes0[i as int].frame_id == frame_id,
                        fid == frame_id,
                        hist_len == nodes0[i as int].history@.len(),
                        hist@ == nodes0[i as int].history@.take(j as int),
                    decreases hist_len - j,
                {
                    let b = self.nodes[i].history[j];
                    hist.push(b);
                    proof {
                        assert(hist@ =~= nodes0[i as int].history@.take(j as int + 1));
                    }
                    j = j + 1;
                }
                proof {
                    assert(nodes0[i as int].history@.take(nodes0[i as int].history@.len() as int)
                        =~= nodes0[i as int].history@);
                }
                self.nodes.set(
                    i,
                    ReplacerNode { frame_id: fid, history: hist, is_evictable: evictable },
                );
                return ;
            }
            i = i + 1;
        }
    }

    /// Stop tracking a frame, if it is tracked.
    pub fn remove(&mut self, frame_id: usize)
        requires
            old(self).wf(),
        ensures
            final(self).wf(),
            final(self).k == old(self).k,
            final(self).current_timestamp == old(self).current_timestamp,
            ({
                let f = node_index(old(self).nodes@, frame_id, 0);
                if f == old(self).nodes@.len() {
                    final(self).nodes@ == old(self).nodes@
                } else {
                    final(self).nodes@ == old(self).nodes@.remove(f)
                }
            }),
    {
        let ghost nodes0 = self.nodes@;
        proof {
            lemma_node_index(nodes0, frame_id, 0);
        }
        let n = self.nodes.len();
        let mut i: usize = 0;
        while i < n
            invariant
                i <= n,
                n == nodes0.len(),
                nodes0 == old(self).nodes@,
                self.nodes@ == nodes0,
                self.k == old(self).k,
                old(self).wf(),
                self.current_timestamp == old(self).current_timestamp,
                node_index(nodes0, frame_id, 0) == node_index(nodes0, frame_id, i as int),
            decreases n - i,
        {
            if self.nodes[i].frame_id == frame_id {
                proof {
                    assert(node_index(nodes0, frame_id, i as int) == i as int);
                }
                self.nodes.remove(i);
                proof {
                    let b = self.nodes@;
                    assert forall|x: int, y: int| 0 <= x < y < b.len() implies (
                    #[trigger] b[x].frame_id) != (#[trigger] b[y].frame_id) by {
                        let x0: int = if x < i { x } else { x + 1 };
                        let y0: int = if y < i { y } else { y + 1 };
                        assert(b[x] == nodes0[x0]);
                        assert(b[y] == nodes0[y0]);
                    }
                }
                return ;
            }
            i = i + 1;
        }
    }

    /// Number of frames currently marked evictable.
    pub fn size(&self) -> (r: usize)
        ensures
            r == count_evictable(self.nodes@),
    {
        let ghost nodes0 = self.nodes@;
        let mut count: usize = 0;
        let mut i: usize = 0;
        let n = self.nodes.len();
        proof {
            assert(nodes0.take(0) =~= Seq::<ReplacerNode>::empty());
        }
        while i < n
            invariant
                i <= n,
                n == nodes0.len(),
                self.nodes@ == nodes0,
                count <= i,
                count == count_evictable(nodes0.take(i as int)),
            decreases n - i,
        {
            if self.nodes[i].is_evictable {
                count = count + 1;
            }
            proof {
                assert(nodes0.take(i as int + 1).drop_last() =~= nodes0.take(i as int));
                assert(nodes0.take(i as int + 1).last() == nodes0[i as int]);
            }
            i = i + 1;
        }
        proof {
            assert(nodes0.take(n as int) =~= nodes0);
        }
        count
    }

    /// Evict the evictable frame with the greatest backward K-distance:
    /// infinite distances first, ties among them broken by the earliest
    /// retained access; `None` when nothing is evictable. The chosen frame
    /// stops being tracked.
    pub fn evict(&mut self) -> (r: Option<usize>)
        requires
            old(self).wf(),
        ensures
            final(self).wf(),
            final(self).k == old(self).k,
            final(self).current_timestamp == old(self).current_timestamp,
            r is None ==> final(self).nodes@ == old(self).nodes@ && (forall|i: int|
                0 <= i < old(self).nodes@.len() ==> !(#[trigger] old(self).nodes@[i]).is_evictable),
            r matches Some(fid) ==> (exists|i: int|
                {
                    &&& 0 <= i < old(self).nodes@.len()
                    &&& (#[trigger] old(self).nodes@[i]).frame_id == fid
                    &&& old(self).nodes@[i].is_evictable
                    &&& final(self).nodes@ == old(self).nodes@.remove(i)
                    &&& (forall|j: int|
                        0 <= j < old(self).nodes@.len() && j != i && (#[trigger] old(
                            self,
                        ).nodes@[j]).is_evictable ==> !spec_beats(
                            old(self).nodes@[j].history@,
                            old(self).nodes@[i].history@,
                            old(self).k as int,
                        ))
                }),
    {
        let ghost nodes0 = self.nodes@;
        let n = self.nodes.len();
        let mut best: usize = n;
        let mut i: usize = 0;
        while i < n
            invariant
                i <= n,
                n == nodes0.len(),
                nodes0 == old(self).nodes@,
                self.nodes@ == nodes0,
                self.k == old(self).k,
                self.current_timestamp == old(self).current_timestamp,
                self.wf(),
                best <= n,
                best == n ==> forall|j: int|
                    0 <= j < i ==> !(#[trigger] nodes0[j]).is_evictable,
                best < n ==> best < i && nodes0[best as int].is_evictable && (forall|j: int|
                    0 <= j < i && j != best && (#[trigger] nodes0[j]).is_evictable ==> !spec_beats(
                        nodes0[j].history@,
                        nodes0[best as int].history@,
                        self.k as int,
                    )),
            decreases n - i,
        {
            if self.nodes[i].is_evictable {
                if best == n {
                    best = i;
                } else {
                    let cand_inf = self.nodes[i].history.len() < self.k;
                    let best_inf = self.nodes[best].history.len() < self.k;
                    let cand_first = self.nodes[i].history[0];
                    let best_first = self.nodes[best].history[0];
                    let better = if cand_inf != best_inf {
                        cand_inf
                    } else {
                        cand_first < best_first
                    };
                    if better {
                        best = i;
                    }
                }
            }
            i = i + 1;
        }
        if best == n {
            return None;
        }
        let fid = self.nodes[best].frame_id;
        self.nodes.remove(best);
        proof {
            let b = self.nodes@;
            assert forall|x: int, y: int| 0 <= x < y < b.len() implies (
            #[trigger] b[x].frame_id) != (#[trigger] b[y].frame_id) by {
                let x0: int = if x < best { x } else { x + 1 };
                let y0: int = if y < best { y } else { y + 1 };
                assert(b[x] == nodes0[x0]);
                assert(b[y] == nodes0[y0]);
            }
            assert forall|x: int| 0 <= x < b.len() implies 1 <= (
            #[trigger] b[x]).history@.len() <= self.k by {
                let x0: int = if x < best { x } else { x + 1 };
                assert(b[x] == nodes0[x0]);
            }
            assert(0 <= best < nodes0.len() && nodes0[best as int].frame_id == fid
                && nodes0[best as int].is_evictable && self.nodes@ == nodes0.remove(best as int)
                && (forall|j: int|
                0 <= j < nodes0.len() && j != best && (#[trigger] nodes0[j]).is_evictable
                    ==> !spec_beats(
                    nodes0[j].history@,
                    nodes0[best as int].history@,
                    old(self).k as int,
                )));
        }
        Some(fid)
    }
}

/// How many of the nodes are marked evictable.
pub open spec fn count_evictable(nodes: Seq<ReplacerNode>) -> int
    decreases nodes.len(),
{
    if nodes.len() == 0 {
        0
    } else {
        count_evictable(nodes.drop_last()) + if nodes.last().is_evictable {
            1int
        } else {
            0int
        }
    }
}

} // verus!
