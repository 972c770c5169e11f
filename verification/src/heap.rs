//! A binary min-heap of scheduled events, ordered by timestamp.
use vstd::prelude::*;

use crate::event::ScheduledEvent;
use vstd::multiset::Multiset;

verus! {

broadcast use vstd::seq_lib::group_to_multiset_ensures;

/// `b` is a child of `a` in the implicit tree of an array heap.
pub open spec fn is_child(a: int, b: int) -> bool {
    b == 2 * a + 1 || b == 2 * a + 2
}

/// The parent of position `i > 0` in the implicit tree.
pub open spec fn parent_of(i: int) -> int {
    (i - 1) / 2
}

pub open spec fn key(s: Seq<ScheduledEvent>, i: int) -> i64 {
    s[i].timestamp
}

/// Every node's timestamp is at most its children's.
pub open spec fn heap_ordered(s: Seq<ScheduledEvent>) -> bool {
    forall|a: int, b: int|
        #![trigger s[a], s[b]]
        0 <= a < s.len() && 0 <= b < s.len() && is_child(a, b) ==> s[a].timestamp
            <= s[b].timestamp
}

/// Ordered except on the edge into position `i`, whose children are bounded by `i`'s parent.
pub open spec fn ordered_above(s: Seq<ScheduledEvent>, i: int) -> bool {
    &&& forall|a: int, b: int|
        #![trigger s[a], s[b]]
        0 <= a < s.len() && 0 <= b < s.len() && is_child(a, b) && b != i ==> s[a].timestamp
            <= s[b].timestamp
    &&& i > 0 ==> forall|c: int|
        #![trigger s[c]]
        0 <= c < s.len() && is_child(i, c) ==> s[parent_of(i)].timestamp <= s[c].timestamp
}

/// Ordered except on the edges out of position `i`, whose children are bounded by `i`'s parent.
pub open spec fn ordered_below(s: Seq<ScheduledEvent>, i: int) -> bool {
    &&& forall|a: int, b: int|
        #![trigger s[a], s[b]]
        0 <= a < s.len() && 0 <= b < s.len() && is_child(a, b) && a != i ==> s[a].timestamp
            <= s[b].timestamp
    &&& i > 0 ==> forall|c: int|
        #![trigger s[c]]
        0 <= c < s.len() && is_child(i, c) ==> s[parent_of(i)].timestamp <= s[c].timestamp
}

/// Position `i` is no smaller than its parent (or is the root).
pub open spec fn settled(s: Seq<ScheduledEvent>, i: int) -> bool {
    i == 0 || s[parent_of(i)].timestamp <= s[i].timestamp
}

pub open spec fn swapped(s: Seq<ScheduledEvent>, a: int, b: int) -> Seq<ScheduledEvent> {
    s.update(a, s[b]).update(b, s[a])
}

/// The smallest timestamp of a sequence is at its front.
pub open spec fn is_min_of(s: Seq<ScheduledEvent>, e: ScheduledEvent) -> bool {
    forall|k: int| 0 <= k < s.len() ==> e.timestamp <= #[trigger] s[k].timestamp
}

proof fn lemma_parent_child(i: int)
    requires
        i > 0,
    ensures
        is_child(parent_of(i), i),
        0 <= parent_of(i) < i,
{
}

proof fn lemma_swap_multiset(s: Seq<ScheduledEvent>, a: int, b: int)
    requires
        0 <= a < s.len(),
        0 <= b < s.len(),
    ensures
        swapped(s, a, b).to_multiset() == s.to_multiset(),
{
    broadcast use vstd::seq_lib::to_multiset_update;
    broadcast use vstd::multiset::group_multiset_axioms;

    let s1 = s.update(a, s[b]);
    assert(s1.to_multiset() == s.to_multiset().insert(s[b]).remove(s[a]));
    assert(s1[b] == if a == b { s[b] } else { s[b] });
    let s2 = s1.update(b, s[a]);
    assert(s2.to_multiset() == s1.to_multiset().insert(s[a]).remove(s1[b]));
    assert(s2.to_multiset() =~= s.to_multiset());
}

proof fn lemma_root_min(s: Seq<ScheduledEvent>, k: int)
    requires
        heap_ordered(s),
        0 <= k < s.len(),
    ensures
        s[0].timestamp <= s[k].timestamp,
    decreases k,
{
    if k > 0 {
        let p = parent_of(k);
        lemma_parent_child(k);
        lemma_root_min(s, p);
        assert(s[p].timestamp <= s[k].timestamp);
    }
}

proof fn lemma_heap_front_is_min(s: Seq<ScheduledEvent>)
    requires
        heap_ordered(s),
        s.len() > 0,
    ensures
        is_min_of(s, s[0]),
{
    assert forall|k: int| 0 <= k < s.len() implies s[0].timestamp <= #[trigger] s[k].timestamp by {
        lemma_root_min(s, k);
    }
}

proof fn lemma_up_done(s: Seq<ScheduledEvent>, i: int)
    requires
        0 <= i < s.len(),
        ordered_above(s, i),
        settled(s, i),
    ensures
        heap_ordered(s),
{
    assert forall|a: int, b: int|
        #![trigger s[a], s[b]]
        0 <= a < s.len() && 0 <= b < s.len() && is_child(a, b) implies s[a].timestamp
        <= s[b].timestamp by {
        if b == i {
            assert(a == parent_of(i));
        }
    }
}

proof fn lemma_up_step(s: Seq<ScheduledEvent>, i: int)
    requires
        0 < i < s.len(),
        ordered_above(s, i),
        s[i].timestamp < s[parent_of(i)].timestamp,
    ensures
        ordered_above(swapped(s, parent_of(i), i), parent_of(i)),
{
    let p = parent_of(i);
    lemma_parent_child(i);
    let t = swapped(s, p, i);
    assert(t[p] == s[i]);
    assert(t[i] == s[p]);
    assert forall|a: int, b: int|
        #![trigger t[a], t[b]]
        0 <= a < t.len() && 0 <= b < t.len() && is_child(a, b) && b != p implies t[a].timestamp
        <= t[b].timestamp by {
        if a == p && b == i {
        } else if a == p {
            assert(s[a].timestamp <= s[b].timestamp);
        } else if a == i {
            assert(s[p].timestamp <= s[b].timestamp);
        } else if b == i {
            assert(a == p);
        } else {
            assert(s[a].timestamp <= s[b].timestamp);
        }
    }
    if p > 0 {
        let g = parent_of(p);
        lemma_parent_child(p);
        assert(s[g].timestamp <= s[p].timestamp);
        assert forall|c: int| #![trigger t[c]] 0 <= c < t.len() && is_child(p, c) implies t[g].timestamp
            <= t[c].timestamp by {
            if c == i {
            } else {
                assert(s[p].timestamp <= s[c].timestamp);
            }
        }
    }
}

proof fn lemma_down_done(s: Seq<ScheduledEvent>, i: int)
    requires
        0 <= i < s.len(),
        ordered_below(s, i),
        forall|c: int| 0 <= c < s.len() && is_child(i, c) ==> s[i].timestamp <= #[trigger] s[c].timestamp,
    ensures
        heap_ordered(s),
{
}

proof fn lemma_down_step(s: Seq<ScheduledEvent>, i: int, m: int)
    requires
        0 <= i < s.len(),
        0 <= m < s.len(),
        is_child(i, m),
        ordered_below(s, i),
        s[m].timestamp < s[i].timestamp,
        forall|c: int| 0 <= c < s.len() && is_child(i, c) ==> s[m].timestamp <= #[trigger] s[c].timestamp,
    ensures
        ordered_below(swapped(s, i, m), m),
{
    let t = swapped(s, i, m);
    assert(t[i] == s[m]);
    assert(t[m] == s[i]);
    assert(parent_of(m) == i);
    assert forall|a: int, b: int|
        #![trigger t[a], t[b]]
        0 <= a < t.len() && 0 <= b < t.len() && is_child(a, b) && a != m implies t[a].timestamp
        <= t[b].timestamp by {
        if a == i {
            if b == m {
            } else {
                assert(s[m].timestamp <= s[b].timestamp);
            }
        } else if b == i {
            assert(a == parent_of(i));
            assert(s[a].timestamp <= s[m].timestamp);
        } else if b == m {
            assert(a == i);
        } else {
            assert(s[a].timestamp <= s[b].timestamp);
        }
    }
    assert forall|c: int| #![trigger t[c]] 0 <= c < t.len() && is_child(m, c) implies t[parent_of(m)].timestamp
        <= t[c].timestamp by {
        assert(s[m].timestamp <= s[c].timestamp);
    }
}

/// Binary min-heap of events keyed by timestamp, stored in an array.
pub struct BinHeap {
    pub arr: Vec<ScheduledEvent>,
}

impl BinHeap {
    /// The heap order holds on the array.
    pub open spec fn wf(&self) -> bool {
        heap_ordered(self.arr@)
    }

    /// The events the heap holds, regardless of order.
    pub open spec fn items(&self) -> Multiset<ScheduledEvent> {
        self.arr@.to_multiset()
    }

    /// An empty heap.
    pub fn new() -> (h: BinHeap)
        ensures
            h.wf(),
            h.arr@ == Seq::<ScheduledEvent>::empty(),
            h.items() == Multiset::<ScheduledEvent>::empty(),
    {
        BinHeap { arr: Vec::new() }
    }

    /// Position of the left child.
    fn left(i: usize) -> (r: usize)
        requires
            2 * i + 1 <= usize::MAX,
        ensures
            r == 2 * i + 1,
    {
        2 * i + 1
    }

    /// Position of the right child.
    fn right(i: usize) -> (r: usize)
        requires
            2 * i + 2 <= usize::MAX,
        ensures
            r == 2 * i + 2,
    {
        2 * i + 2
    }

    /// Position of the parent.
    fn parent(i: usize) -> (r: usize)
        requires
            i > 0,
        ensures
            r == parent_of(i as int),
    {
        (i - 1) / 2
    }

    fn swap_positions(&mut self, a: usize, b: usize)
        requires
            a < b < old(self).arr@.len(),
        ensures
            final(self).arr@ == swapped(old(self).arr@, a as int, b as int),
    {
        let s = self.arr.as_mut_slice();
        let (lo, hi) = s.split_at_mut(b);
        std::mem::swap(&mut lo[a], &mut hi[0]);
        proof {
            assert(self.arr@ =~= swapped(old(self).arr@, a as int, b as int));
        }
    }

    /// Moves the event at `start` towards the root while it is earlier than its parent.
    /// Returns the position where it stops.
    fn sift_up(&mut self, start: usize) -> (r: usize)
        requires
            start < old(self).arr@.len(),
            ordered_above(old(self).arr@, start as int) || settled(old(self).arr@, start as int),
        ensures
            final(self).arr@.len() == old(self).arr@.len(),
            final(self).items() == old(self).items(),
            ordered_above(old(self).arr@, start as int) ==> heap_ordered(final(self).arr@),
            settled(old(self).arr@, start as int) ==> r == start && final(self).arr@ == old(self).arr@,
            !settled(old(self).arr@, start as int) ==> r != start,
    {
        let ghost s0 = self.arr@;
        let mut i = start;
        let mut done = false;
        while !done
            invariant
                i < self.arr@.len(),
                i <= start,
                self.arr@.len() == s0.len(),
                self.arr@.to_multiset() == s0.to_multiset(),
                i == start ==> self.arr@ == s0,
                i != start ==> ordered_above(self.arr@, i as int),
                i != start ==> !settled(s0, start as int),
                i != start || ordered_above(s0, start as int) || settled(s0, start as int),
                done ==> settled(self.arr@, i as int),
            decreases i + (if done { 0int } else { 1int }),
        {
            if i == 0 {
                done = true;
            } else {
                let p = Self::parent(i);
                if self.arr[i].timestamp < self.arr[p].timestamp {
                    proof {
                        lemma_parent_child(i as int);
                        if i == start {
                            assert(!settled(s0, start as int));
                        }
                        lemma_up_step(self.arr@, i as int);
                        lemma_swap_multiset(self.arr@, p as int, i as int);
                    }
                    self.swap_positions(p, i);
                    i = p;
                } else {
                    done = true;
                }
            }
        }
        proof {
            if ordered_above(s0, start as int) {
                lemma_up_done(self.arr@, i as int);
            }
        }
        i
    }

    /// Inserts an event.
    pub fn insert(&mut self, event: ScheduledEvent)
        requires
            old(self).wf(),
            old(self).arr@.len() < usize::MAX,
        ensures
            final(self).wf(),
            final(self).items() == old(self).items().insert(event),
            final(self).arr@.len() == old(self).arr@.len() + 1,
    {
        self.arr.push(event);
        let last = self.arr.len() - 1;
        proof {
            let s = self.arr@;
            assert forall|a: int, b: int|
                #![trigger s[a], s[b]]
                0 <= a < s.len() && 0 <= b < s.len() && is_child(a, b) && b != last implies s[a].timestamp
                <= s[b].timestamp by {
                assert(old(self).arr@[a] == s[a]);
                assert(old(self).arr@[b] == s[b]);
            }
        }
        self.sift_up(last);
    }

    /// Removes and returns an event with the smallest timestamp.
    pub fn extract_min(&mut self) -> (r: Option<ScheduledEvent>)
        requires
            old(self).wf(),
        ensures
            final(self).wf(),
            old(self).arr@.len() == 0 ==> r is None && final(self).arr@ == old(self).arr@,
            old(self).arr@.len() > 0 ==> (r matches Some(e) && e == old(self).arr@[0]
                && is_min_of(old(self).arr@, e)
                && final(self).items() == old(self).items().remove(e)
                && final(self).arr@.len() == old(self).arr@.len() - 1),
    {
        if self.arr.len() == 0 {
            return None;
        }
        proof {
            lemma_heap_front_is_min(self.arr@);
        }
        if self.arr.len() == 1 {
            let r = self.arr.pop();
            proof {
                assert(old(self).arr@ =~= seq![old(self).arr@[0]]);
                assert(self.arr@.to_multiset() =~= Multiset::<ScheduledEvent>::empty());
                assert(old(self).arr@.to_multiset() =~= Multiset::<ScheduledEvent>::empty().insert(old(self).arr@[0]));
            }
            return r;
        }
        let n = self.arr.len();
        proof {
            lemma_swap_multiset(self.arr@, 0, (n - 1) as int);
        }
        self.swap_positions(0, n - 1);
        let root = self.arr.pop();
        proof {
            let s = old(self).arr@;
            let t = self.arr@;
            assert(t =~= swapped(s, 0, n - 1).drop_last());
            assert(swapped(s, 0, n - 1) =~= t.push(s[0]));
            assert(t.to_multiset() == s.to_multiset().remove(s[0]));
            assert forall|a: int, b: int|
                #![trigger t[a], t[b]]
                0 <= a < t.len() && 0 <= b < t.len() && is_child(a, b) && a != 0 implies t[a].timestamp
                <= t[b].timestamp by {
                assert(b != 0);
                assert(t[a] == s[a]);
                assert(t[b] == s[b]);
            }
        }
        self.min_heapify(0);
        root
    }

    /// An event with the smallest timestamp, if any.
    pub fn get_min(&self) -> (r: Option<&ScheduledEvent>)
        requires
            self.wf(),
        ensures
            self.arr@.len() == 0 ==> r is None,
            self.arr@.len() > 0 ==> (r matches Some(e) && *e == self.arr@[0] && is_min_of(self.arr@, *e)),
    {
        proof {
            if self.arr@.len() > 0 {
                lemma_heap_front_is_min(self.arr@);
            }
        }
        self.arr.as_slice().first()
    }

    /// Replaces the event at `index` by one that is not later, and restores the order.
    /// An index outside the heap leaves it unchanged.
    pub fn decrease_key(&mut self, index: usize, new_event: ScheduledEvent)
        requires
            old(self).wf(),
            index < old(self).arr@.len() ==> new_event.timestamp <= old(self).arr@[index as int].timestamp,
        ensures
            final(self).wf(),
            index >= old(self).arr@.len() ==> final(self).arr@ == old(self).arr@,
            index < old(self).arr@.len() ==> final(self).items() == old(self).items().remove(
                old(self).arr@[index as int],
            ).insert(new_event),
            final(self).arr@.len() == old(self).arr@.len(),
    {
        if index >= self.arr.len() {
            return;
        }
        let ghost s = self.arr@;
        self.arr.set(index, new_event);
        proof {
            let t = self.arr@;
            broadcast use vstd::seq_lib::to_multiset_update;
            broadcast use vstd::multiset::group_multiset_axioms;

            assert(t.to_multiset() =~= s.to_multiset().remove(s[index as int]).insert(new_event)) by {
                assert(t == s.update(index as int, new_event));
                assert(s.to_multiset().count(s[index as int]) > 0);
            }
            assert forall|a: int, b: int|
                #![trigger t[a], t[b]]
                0 <= a < t.len() && 0 <= b < t.len() && is_child(a, b) && b != index implies t[a].timestamp
                <= t[b].timestamp by {
                assert(s[a].timestamp <= s[b].timestamp);
            }
            if index > 0 {
                let p = parent_of(index as int);
                lemma_parent_child(index as int);
                assert(s[p].timestamp <= s[index as int].timestamp);
                assert forall|c: int| #![trigger t[c]] 0 <= c < t.len() && is_child(index as int, c) implies t[p].timestamp
                    <= t[c].timestamp by {
                    assert(s[index as int].timestamp <= s[c].timestamp);
                }
            }
            assert(ordered_above(t, index as int));
        }
        self.sift_up(index);
    }

    /// Removes the event at `index`. An index outside the heap leaves it unchanged.
    pub fn delete_key(&mut self, index: usize)
        requires
            old(self).wf(),
        ensures
            final(self).wf(),
            index >= old(self).arr@.len() ==> final(self).arr@ == old(self).arr@,
            index < old(self).arr@.len() ==> final(self).items() == old(self).items().remove(
                old(self).arr@[index as int],
            ) && final(self).arr@.len() == old(self).arr@.len() - 1,
    {
        if index >= self.arr.len() {
            return;
        }
        let ghost s = self.arr@;
        let n = self.arr.len();
        if index == n - 1 {
            let _ = self.arr.pop();
            proof {
                assert(s =~= self.arr@.push(s[index as int]));
                assert forall|a: int, b: int|
                    #![trigger self.arr@[a], self.arr@[b]]
                    0 <= a < self.arr@.len() && 0 <= b < self.arr@.len() && is_child(a, b) implies self.arr@[a].timestamp
                    <= self.arr@[b].timestamp by {
                    assert(s[a] == self.arr@[a]);
                    assert(s[b] == self.arr@[b]);
                }
            }
            return;
        }
        proof {
            lemma_swap_multiset(s, index as int, (n - 1) as int);
        }
        self.swap_positions(index, n - 1);
        let _ = self.arr.pop();
        let ghost t = self.arr@;
        proof {
            let w = swapped(s, index as int, (n - 1) as int);
            assert(w =~= t.push(s[index as int]));
            assert(t.to_multiset() == s.to_multiset().remove(s[index as int]));
            assert(t[index as int] == s[n - 1]);
            assert forall|a: int, b: int|
                #![trigger t[a], t[b]]
                0 <= a < t.len() && 0 <= b < t.len() && is_child(a, b) && a != index && b != index implies t[a].timestamp
                <= t[b].timestamp by {
                assert(t[a] == s[a]);
                assert(t[b] == s[b]);
            }
            if settled(t, index as int) {
                if index > 0 {
                    let p = parent_of(index as int);
                    lemma_parent_child(index as int);
                    assert(s[p].timestamp <= s[index as int].timestamp);
                    assert forall|c: int| #![trigger t[c]] 0 <= c < t.len() && is_child(index as int, c) implies t[p].timestamp
                        <= t[c].timestamp by {
                        assert(s[index as int].timestamp <= s[c].timestamp);
                        assert(t[c] == s[c]);
                    }
                }
                assert(ordered_below(t, index as int));
            } else {
                let p = parent_of(index as int);
                lemma_parent_child(index as int);
                assert(s[p].timestamp <= s[index as int].timestamp);
                assert forall|a: int, b: int|
                    #![trigger t[a], t[b]]
                    0 <= a < t.len() && 0 <= b < t.len() && is_child(a, b) && b != index implies t[a].timestamp
                    <= t[b].timestamp by {
                    if a == index {
                        assert(s[index as int].timestamp <= s[b].timestamp);
                        assert(t[b] == s[b]);
                    }
                }
                if p > 0 {
                    let g = parent_of(p);
                    lemma_parent_child(p);
                    assert(s[g].timestamp <= s[p].timestamp);
                    assert(t[g] == s[g]);
                }
                assert forall|c: int| #![trigger t[c]] 0 <= c < t.len() && is_child(index as int, c) implies t[p].timestamp
                    <= t[c].timestamp by {
                    assert(s[index as int].timestamp <= s[c].timestamp);
                    assert(t[c] == s[c]);
                }
                assert(ordered_above(t, index as int));
            }
        }
        let i = self.sift_up(index);
        if i == index {
            self.min_heapify(index);
        }
    }

    /// Moves the event at `i` away from the root until the heap order holds.
    fn min_heapify(&mut self, i: usize)
        requires
            i < old(self).arr@.len(),
            ordered_below(old(self).arr@, i as int),
        ensures
            heap_ordered(final(self).arr@),
            final(self).items() == old(self).items(),
            final(self).arr@.len() == old(self).arr@.len(),
        decreases old(self).arr@.len() - i,
    {
        let n = self.arr.len();
        let mut smallest = i;
        // Past this bound a position has no child inside any array.
        if i <= (usize::MAX - 2) / 2 {
            let l = Self::left(i);
            let r = Self::right(i);
            if l < n && self.arr[l].timestamp < self.arr[smallest].timestamp {
                smallest = l;
            }
            if r < n && self.arr[r].timestamp < self.arr[smallest].timestamp {
                smallest = r;
            }
        }
        if smallest != i {
            proof {
                lemma_down_step(self.arr@, i as int, smallest as int);
                lemma_swap_multiset(self.arr@, i as int, smallest as int);
            }
            self.swap_positions(i, smallest);
            self.min_heapify(smallest);
        } else {
            proof {
                lemma_down_done(self.arr@, i as int);
            }
        }
    }
}

/// One insertion as `insert` states it: `after` holds what `before` held and `event`.
pub open spec fn inserted(before: BinHeap, after: BinHeap, event: ScheduledEvent) -> bool {
    after.items() == before.items().insert(event)
}

/// One extraction as `extract_min` states it: `out` is the front of the non-empty heap
/// `before`, no later than any event in it, and `after` holds the rest.
pub open spec fn extracted(before: BinHeap, after: BinHeap, out: ScheduledEvent) -> bool {
    &&& before.arr@.len() > 0
    &&& out == before.arr@[0]
    &&& is_min_of(before.arr@, out)
    &&& after.items() == before.items().remove(out)
}

/// `hs[0]` is a new heap and `hs[i + 1]` is `hs[i]` after inserting `events[i]`.
pub open spec fn insertion_run(hs: Seq<BinHeap>, events: Seq<ScheduledEvent>) -> bool {
    &&& hs.len() == events.len() + 1
    &&& hs[0].arr@.len() == 0
    &&& forall|i: int| #![trigger events[i]] 0 <= i < events.len() ==> inserted(hs[i], hs[i + 1], events[i])
}

/// `hs[i + 1]` is `hs[i]` after extracting `out[i]`, and the last heap is empty, so that
/// one more extraction answers `None`.
pub open spec fn extraction_run(hs: Seq<BinHeap>, out: Seq<ScheduledEvent>) -> bool {
    &&& hs.len() == out.len() + 1
    &&& forall|i: int| #![trigger out[i]] 0 <= i < out.len() ==> extracted(hs[i], hs[i + 1], out[i])
    &&& hs.last().arr@.len() == 0
}

proof fn lemma_empty_items(h: BinHeap)
    requires
        h.arr@.len() == 0,
    ensures
        h.items() == Multiset::<ScheduledEvent>::empty(),
{
    vstd::multiset::lemma_multiset_empty_len(h.items());
}

proof fn lemma_insertions(hs: Seq<BinHeap>, events: Seq<ScheduledEvent>, k: int)
    requires
        insertion_run(hs, events),
        0 <= k <= events.len(),
    ensures
        hs[k].items() == events.take(k).to_multiset(),
    decreases k,
{
    if k == 0 {
        lemma_empty_items(hs[0]);
        vstd::multiset::lemma_multiset_empty_len(events.take(0).to_multiset());
    } else {
        lemma_insertions(hs, events, k - 1);
        assert(events.take(k) =~= events.take(k - 1).push(events[k - 1]));
        assert(inserted(hs[k - 1], hs[k], events[k - 1]));
    }
}

proof fn lemma_extractions(hs: Seq<BinHeap>, out: Seq<ScheduledEvent>, k: int)
    requires
        extraction_run(hs, out),
        0 <= k <= out.len(),
    ensures
        out.take(k).to_multiset().add(hs[k].items()) == hs[0].items(),
    decreases k,
{
    if k == 0 {
        vstd::multiset::lemma_multiset_empty_len(out.take(0).to_multiset());
        assert(out.take(0).to_multiset().add(hs[0].items()) =~= hs[0].items());
    } else {
        lemma_extractions(hs, out, k - 1);
        let x = out[k - 1];
        assert(extracted(hs[k - 1], hs[k], x));
        assert(hs[k - 1].arr@.contains(x)) by {
            assert(hs[k - 1].arr@[0] == x);
        }
        assert(out.take(k) =~= out.take(k - 1).push(x));
        let a = out.take(k - 1).to_multiset();
        let b = hs[k - 1].items();
        assert(b.count(x) > 0);
        assert(a.insert(x).add(b.remove(x)) =~= a.add(b));
    }
}

proof fn lemma_extractions_shrink(hs: Seq<BinHeap>, out: Seq<ScheduledEvent>, i: int, j: int, e: ScheduledEvent)
    requires
        extraction_run(hs, out),
        0 <= i <= j <= out.len(),
        hs[j].items().count(e) > 0,
    ensures
        hs[i].items().count(e) > 0,
    decreases j - i,
{
    if i < j {
        assert(extracted(hs[j - 1], hs[j], out[j - 1]));
        lemma_extractions_shrink(hs, out, i, j - 1, e);
    }
}

/// A heap filled by insertions from new and then emptied by extractions gives back each
/// inserted event exactly once, earliest first: what comes out is a permutation of what
/// went in, in time order.
pub proof fn law_heap_gives_events_in_time_order(
    filled: Seq<BinHeap>,
    events: Seq<ScheduledEvent>,
    emptied: Seq<BinHeap>,
    out: Seq<ScheduledEvent>,
)
    requires
        insertion_run(filled, events),
        emptied.len() > 0,
        emptied[0] == filled.last(),
        extraction_run(emptied, out),
    ensures
        out.to_multiset() == events.to_multiset(),
        forall|i: int, j: int| 0 <= i <= j < out.len() ==> #[trigger] out[i].timestamp <= #[trigger] out[j].timestamp,
{
    lemma_insertions(filled, events, events.len() as int);
    assert(events.take(events.len() as int) =~= events);
    lemma_extractions(emptied, out, out.len() as int);
    assert(out.take(out.len() as int) =~= out);
    lemma_empty_items(emptied.last());
    assert(out.to_multiset().add(Multiset::<ScheduledEvent>::empty()) =~= out.to_multiset());
    assert forall|i: int, j: int| 0 <= i <= j < out.len() implies #[trigger] out[i].timestamp
        <= #[trigger] out[j].timestamp by {
        let x = out[j];
        assert(extracted(emptied[j], emptied[j + 1], x));
        assert(emptied[j].arr@.contains(x)) by {
            assert(emptied[j].arr@[0] == x);
        }
        lemma_extractions_shrink(emptied, out, i, j, x);
        assert(extracted(emptied[i], emptied[i + 1], out[i]));
        assert(emptied[i].arr@.contains(x));
        let k = choose|k: int| 0 <= k < emptied[i].arr@.len() && emptied[i].arr@[k] == x;
        assert(out[i].timestamp <= emptied[i].arr@[k].timestamp);
    }
}

} // verus!
