//! What holds of every heap: the laws of allocation and deallocation,
//! stated over the model and proved from its definitions.

use crate::allocator::model::{
    is_free, lemma_align_down, lemma_allocate, lemma_allocation_index, lemma_bounded,
    lemma_carve_tiled, lemma_first_fit_from, lemma_free_at, lemma_index_unique,
    lemma_merge_tiled, lemma_ordered, lemma_release_tiled, Heap, Segment, HEADER_SIZE,
};
use vstd::prelude::*;

verus! {

impl Heap {
    /// The live allocations: payload address and payload size of every used
    /// segment.
    pub open spec fn allocations(self) -> Map<int, nat> {
        Map::new(|p: int| self.is_allocated(p), |p: int| self.segments[self.index_of(p)].size)
    }

    /// Whether the addresses from `lo` up to `hi` all lie in one free segment.
    pub open spec fn free_span(self, lo: int, hi: int) -> bool {
        exists|k: int|
            0 <= k < self.len() && (#[trigger] self.segments[k]).free && self.segments[k].addr
                <= lo && hi <= self.segments[k].end()
    }
}

/// The used segment at index `i` is a live allocation, with its size.
pub proof fn lemma_allocation_at(h: Heap, i: int)
    requires
        h.linked(),
        0 <= i < h.len(),
        !h.segments[i].free,
    ensures
        h.is_allocated(h.segments[i].start()),
        h.index_of(h.segments[i].start()) == i,
        h.allocations().contains_key(h.segments[i].start()),
        h.allocations()[h.segments[i].start()] == h.segments[i].size,
{
    let p = h.segments[i].start();
    assert(h.is_allocated(p));
    lemma_index_unique(h, i, h.index_of(p));
}

/// Exhaustion: a request larger than every free segment finds no segment.
pub proof fn lemma_exhaustion(h: Heap, size: nat, align: nat)
    requires
        align > 0,
        forall|k: int|
            0 <= k < h.len() && (#[trigger] h.segments[k]).free ==> h.segments[k].size < size,
    ensures
        h.first_fit(size, align) is None,
{
    lemma_first_fit_from(h, 0, size, align);
    if h.first_fit(size, align) is Some {
        let k = h.first_fit(size, align).unwrap();
        lemma_align_down(h.segments[k].end() - size, align);
    }
}

/// Alignment: the pointer that an allocation returns is a multiple of the
/// alignment asked for, and the bytes asked for lie inside the heap.
pub proof fn lemma_alignment(h: Heap, size: nat, align: nat)
    requires
        h.wf(),
        align > 0,
        h.first_fit(size, align) is Some,
    ensures
        h.alloc_ptr(size, align) % (align as int) == 0,
        h.base() + HEADER_SIZE + HEADER_SIZE <= h.alloc_ptr(size, align),
        h.alloc_ptr(size, align) + size <= h.end(),
{
    lemma_allocate(h, size, align);
    lemma_bounded(h, h.first_fit(size, align).unwrap());
}

/// No overlap: the payloads of two live allocations share no byte, and a
/// header lies between them.
pub proof fn lemma_allocations_apart(h: Heap, p: int, q: int)
    requires
        h.wf(),
        h.is_allocated(p),
        h.is_allocated(q),
        p < q,
    ensures
        p + h.allocations()[p] + HEADER_SIZE <= q,
{
    lemma_allocation_index(h, p);
    lemma_allocation_index(h, q);
    let i = h.index_of(p);
    let j = h.index_of(q);
    if j < i {
        lemma_ordered(h, j, i);
    }
    if i < j {
        lemma_ordered(h, i, j);
    }
}

/// No overlap: the payload of a live allocation shares no byte with the
/// header of a free segment.
pub proof fn lemma_allocation_clear_of_free_list(h: Heap, p: int, k: int)
    requires
        h.wf(),
        h.is_allocated(p),
        0 <= k < h.len(),
        h.segments[k].free,
    ensures
        h.segments[k].start() <= p - HEADER_SIZE || p + h.allocations()[p] <= h.segments[k].addr,
{
    lemma_allocation_index(h, p);
    let i = h.index_of(p);
    if k < i {
        lemma_ordered(h, k, i);
    }
    if i < k {
        lemma_ordered(h, i, k);
    }
}

/// An allocation adds one live allocation, at the pointer it returns, and
/// leaves the others as they were.
pub proof fn lemma_allocate_allocations(h: Heap, size: nat, align: nat)
    requires
        h.wf(),
        align > 0,
        h.first_fit(size, align) is Some,
    ensures
        h.allocate(size, align).wf(),
        h.allocate(size, align).len() > 0,
        h.allocate(size, align).base() == h.base(),
        h.allocate(size, align).end() == h.end(),
        !h.is_allocated(h.alloc_ptr(size, align)),
        h.allocate(size, align).is_allocated(h.alloc_ptr(size, align)),
        h.allocate(size, align).allocations().remove(h.alloc_ptr(size, align)) == h.allocations(),
{
    lemma_allocate(h, size, align);
    let k = h.first_fit(size, align).unwrap();
    let header = h.segments[k].header_for(size, align);
    let ptr = h.alloc_ptr(size, align);
    let c = h.allocate(size, align);
    lemma_carve_tiled(h, k, header);
    assert(c.segments[k + 1].start() == ptr);
    if h.is_allocated(ptr) {
        lemma_allocation_index(h, ptr);
        let j = h.index_of(ptr);
        if j < k {
            lemma_ordered(h, j, k);
        } else if j > k {
            lemma_ordered(h, k, j);
        }
    }
    assert forall|p: int| p != ptr implies (c.is_allocated(p) <==> h.is_allocated(p)) by {
        if c.is_allocated(p) {
            lemma_allocation_index(c, p);
            let j = c.index_of(p);
            if j < k {
                assert(c.segments[j] == h.segments[j]);
                assert(h.segments[j].start() == p && !h.segments[j].free);
            } else {
                assert(j > k + 1);
                assert(c.segments[j] == h.segments[j - 1]);
                assert(h.segments[j - 1].start() == p && !h.segments[j - 1].free);
            }
        }
        if h.is_allocated(p) {
            lemma_allocation_index(h, p);
            let j = h.index_of(p);
            if j < k {
                assert(c.segments[j] == h.segments[j]);
                assert(c.segments[j].start() == p && !c.segments[j].free);
            } else {
                assert(c.segments[j + 1] == h.segments[j]);
                assert(c.segments[j + 1].start() == p && !c.segments[j + 1].free);
            }
        }
    }
    assert forall|p: int| h.is_allocated(p) implies c.allocations()[p] == h.allocations()[p] by {
        lemma_allocation_index(h, p);
        let j = h.index_of(p);
        let j2 = if j < k {
            j
        } else {
            j + 1
        };
        assert(c.segments[j2] == h.segments[j]);
        lemma_allocation_at(c, j2);
    }
    assert(c.allocations().remove(ptr) =~= h.allocations());
}

/// Marking the used segment `i` free removes that one live allocation.
pub proof fn lemma_release_allocations(h: Heap, i: int)
    requires
        h.linked(),
        0 <= i < h.len(),
        !h.segments[i].free,
    ensures
        h.release(i).allocations() == h.allocations().remove(h.segments[i].start()),
{
    let r = h.release(i);
    let ptr = h.segments[i].start();
    lemma_release_tiled(h, i);
    if r.is_allocated(ptr) {
        lemma_allocation_index(r, ptr);
        lemma_index_unique(r, i, r.index_of(ptr));
    }
    assert forall|p: int| p != ptr implies (r.is_allocated(p) <==> h.is_allocated(p)) by {
        if r.is_allocated(p) {
            lemma_allocation_index(r, p);
            let j = r.index_of(p);
            assert(r.segments[j] == h.segments[j]);
            assert(h.segments[j].start() == p && !h.segments[j].free);
        }
        if h.is_allocated(p) {
            lemma_allocation_index(h, p);
            let j = h.index_of(p);
            assert(r.segments[j] == h.segments[j]);
            assert(r.segments[j].start() == p && !r.segments[j].free);
        }
    }
    assert forall|p: int| p != ptr && h.is_allocated(p) implies r.allocations()[p]
        == h.allocations()[p] by {
        lemma_allocation_index(h, p);
        let j = h.index_of(p);
        assert(r.segments[j] == h.segments[j]);
        lemma_allocation_at(r, j);
    }
    assert(r.allocations() =~= h.allocations().remove(ptr));
}

/// Merging two free segments changes no live allocation.
pub proof fn lemma_merge_allocations(h: Heap, j: int)
    requires
        h.linked(),
        0 <= j,
        j + 1 < h.len(),
        h.segments[j].free,
        h.segments[j + 1].free,
    ensures
        h.merge(j).allocations() == h.allocations(),
{
    let g = h.merge(j);
    lemma_merge_tiled(h, j);
    assert forall|p: int| g.is_allocated(p) <==> h.is_allocated(p) by {
        if g.is_allocated(p) {
            lemma_allocation_index(g, p);
            let x = g.index_of(p);
            if x < j {
                assert(g.segments[x] == h.segments[x]);
                assert(h.segments[x].start() == p && !h.segments[x].free);
            } else {
                assert(x > j);
                assert(g.segments[x] == h.segments[x + 1]);
                assert(h.segments[x + 1].start() == p && !h.segments[x + 1].free);
            }
        }
        if h.is_allocated(p) {
            lemma_allocation_index(h, p);
            let x = h.index_of(p);
            if x < j {
                assert(g.segments[x] == h.segments[x]);
                assert(g.segments[x].start() == p && !g.segments[x].free);
            } else {
                assert(g.segments[x - 1] == h.segments[x]);
                assert(g.segments[x - 1].start() == p && !g.segments[x - 1].free);
            }
        }
    }
    assert forall|p: int| h.is_allocated(p) implies g.allocations()[p] == h.allocations()[p] by {
        lemma_allocation_index(h, p);
        let x = h.index_of(p);
        let x2 = if x < j {
            x
        } else {
            x - 1
        };
        assert(g.segments[x2] == h.segments[x]);
        lemma_allocation_at(g, x2);
    }
    assert(g.allocations() =~= h.allocations());
}

/// A deallocation removes one live allocation, the one at the pointer given
/// back, and leaves the others as they were.
pub proof fn lemma_deallocate_allocations(h: Heap, ptr: int)
    requires
        h.wf(),
        h.is_allocated(ptr),
    ensures
        h.deallocate(ptr).wf(),
        h.deallocate(ptr).len() > 0,
        h.deallocate(ptr).base() == h.base(),
        h.deallocate(ptr).end() == h.end(),
        h.deallocate(ptr).allocations() == h.allocations().remove(ptr),
{
    lemma_allocation_index(h, ptr);
    let i = h.index_of(ptr);
    lemma_free_at(h, i);
    let r = h.release(i);
    lemma_release_tiled(h, i);
    lemma_release_allocations(h, i);
    let up = i + 1 < h.len() && h.segments[i + 1].free;
    let f = if up {
        r.merge(i)
    } else {
        r
    };
    if up {
        lemma_merge_tiled(r, i);
        lemma_merge_allocations(r, i);
    }
    if i > 0 && h.segments[i - 1].free {
        assert(f.segments[i - 1] == h.segments[i - 1]);
        assert(f.segments[i].free);
        lemma_merge_allocations(f, i - 1);
    }
}

/// Two well-formed heaps over the same addresses with the same live
/// allocations agree on their first `n` segments.
proof fn lemma_same_prefix(a: Heap, b: Heap, n: int)
    requires
        a.wf(),
        b.wf(),
        a.len() > 0,
        b.len() > 0,
        a.base() == b.base(),
        a.end() == b.end(),
        a.allocations() == b.allocations(),
        0 <= n <= a.len(),
    ensures
        n <= b.len(),
        forall|i: int| 0 <= i < n ==> a.segments[i] == b.segments[i],
    decreases n,
{
    if n > 0 {
        lemma_same_prefix(a, b, n - 1);
        let i = n - 1;
        lemma_bounded(a, i);
        if i > 0 {
            assert(a.segments[i - 1].end() == a.segments[i].addr);
            assert(a.segments[i - 1] == b.segments[i - 1]);
            if b.len() == i {
                assert(b.end() == b.segments[i - 1].end());
            } else {
                assert(b.segments[i - 1].end() == b.segments[i].addr);
            }
        }
        assert(i < b.len());
        assert(a.segments[i].addr == b.segments[i].addr);
        lemma_bounded(b, i);
        if !a.segments[i].free {
            lemma_allocation_at(a, i);
            let p = a.segments[i].start();
            assert(b.allocations().contains_key(p));
            lemma_allocation_index(b, p);
            lemma_index_unique(b, i, b.index_of(p));
            lemma_allocation_at(b, i);
        } else if !b.segments[i].free {
            lemma_allocation_at(b, i);
            let p = b.segments[i].start();
            assert(a.allocations().contains_key(p));
            lemma_allocation_index(a, p);
            lemma_index_unique(a, i, a.index_of(p));
            lemma_allocation_at(a, i);
        } else {
            lemma_inside_free(a, b, i);
            lemma_inside_free(b, a, i);
        }
    }
}

/// A free segment of one heap cannot end before the free segment that
/// starts at the same address in a heap with the same live allocations.
proof fn lemma_inside_free(a: Heap, b: Heap, i: int)
    requires
        a.wf(),
        b.wf(),
        a.end() == b.end(),
        a.allocations() == b.allocations(),
        0 <= i < a.len(),
        i < b.len(),
        a.segments[i].free,
        b.segments[i].free,
        a.segments[i].addr == b.segments[i].addr,
    ensures
        a.segments[i].size >= b.segments[i].size,
{
    if a.segments[i].size < b.segments[i].size {
        lemma_bounded(b, i);
        // `a` goes on behind its shorter segment, with a used one.
        assert(i + 1 < a.len()) by {
            if i + 1 == a.len() {
                assert(a.end() == a.segments[i].end());
            }
        }
        assert(a.segments[i].end() == a.segments[i + 1].addr);
        assert(!(a.segments[i].free && a.segments[i + 1].free));
        lemma_allocation_at(a, i + 1);
        let p = a.segments[i + 1].start();
        assert(b.allocations().contains_key(p));
        lemma_allocation_index(b, p);
        let j = b.index_of(p);
        if j < i {
            lemma_ordered(b, j, i);
        } else if j > i {
            lemma_ordered(b, i, j);
        }
    }
}

/// The live allocations determine the heap: two well-formed heaps over the
/// same addresses with the same live allocations are the same heap.
pub proof fn lemma_allocations_determine_heap(a: Heap, b: Heap)
    requires
        a.wf(),
        b.wf(),
        a.len() > 0,
        b.len() > 0,
        a.base() == b.base(),
        a.end() == b.end(),
        a.allocations() == b.allocations(),
    ensures
        a == b,
{
    lemma_same_prefix(a, b, a.len());
    lemma_same_prefix(b, a, b.len());
    assert(a.segments =~= b.segments);
}

/// One request for memory.
pub struct Request {
    pub size: nat,
    pub align: nat,
}

/// The heap after the requests were served one after the other.
pub open spec fn allocate_all(h: Heap, requests: Seq<Request>) -> Heap
    decreases requests.len(),
{
    if requests.len() == 0 {
        h
    } else {
        allocate_all(h, requests.drop_last()).allocate(requests.last().size, requests.last().align)
    }
}

/// The pointers that the requests were answered with, in their order.
pub open spec fn pointers_of(h: Heap, requests: Seq<Request>) -> Seq<int>
    decreases requests.len(),
{
    if requests.len() == 0 {
        Seq::empty()
    } else {
        pointers_of(h, requests.drop_last()).push(
            allocate_all(h, requests.drop_last()).alloc_ptr(
                requests.last().size,
                requests.last().align,
            ),
        )
    }
}

/// Whether every request finds a free segment when its turn comes.
pub open spec fn all_served(h: Heap, requests: Seq<Request>) -> bool
    decreases requests.len(),
{
    requests.len() == 0 || {
        &&& all_served(h, requests.drop_last())
        &&& requests.last().align > 0
        &&& allocate_all(h, requests.drop_last()).first_fit(
            requests.last().size,
            requests.last().align,
        ) is Some
    }
}

/// The heap after the pointers were given back one after the other.
pub open spec fn deallocate_all(h: Heap, ptrs: Seq<int>) -> Heap
    decreases ptrs.len(),
{
    if ptrs.len() == 0 {
        h
    } else {
        deallocate_all(h, ptrs.drop_last()).deallocate(ptrs.last())
    }
}

/// Serving requests adds their pointers, all different, to the live
/// allocations and changes nothing else.
pub proof fn lemma_allocate_all(h: Heap, requests: Seq<Request>)
    requires
        h.wf(),
        h.len() > 0,
        all_served(h, requests),
    ensures
        allocate_all(h, requests).wf(),
        allocate_all(h, requests).len() > 0,
        allocate_all(h, requests).base() == h.base(),
        allocate_all(h, requests).end() == h.end(),
        pointers_of(h, requests).len() == requests.len(),
        pointers_of(h, requests).no_duplicates(),
        forall|p: int| #[trigger]
            pointers_of(h, requests).contains(p) ==> allocate_all(h, requests).is_allocated(p)
                && !h.is_allocated(p),
        allocate_all(h, requests).allocations().remove_keys(pointers_of(h, requests).to_set())
            == h.allocations(),
    decreases requests.len(),
{
    let after = allocate_all(h, requests);
    let ps = pointers_of(h, requests);
    if requests.len() == 0 {
        assert(after.allocations().remove_keys(ps.to_set()) =~= h.allocations());
    } else {
        let earlier = requests.drop_last();
        let g = allocate_all(h, earlier);
        let qs = pointers_of(h, earlier);
        let p = g.alloc_ptr(requests.last().size, requests.last().align);
        lemma_allocate_all(h, earlier);
        lemma_allocate_allocations(g, requests.last().size, requests.last().align);
        assert(g.allocations().remove_keys(qs.to_set()).dom() == h.allocations().dom());
        assert(!qs.contains(p));
        assert(!h.is_allocated(p)) by {
            if h.is_allocated(p) {
                assert(h.allocations().dom().contains(p));
                assert(g.allocations().remove_keys(qs.to_set()).dom().contains(p));
            }
        }
        assert forall|q: int| #[trigger] ps.contains(q) implies after.is_allocated(q)
            && !h.is_allocated(q) by {
            let n = choose|n: int| 0 <= n < ps.len() && ps[n] == q;
            if n < qs.len() {
                assert(qs[n] == q);
                assert(qs.contains(q));
                assert(after.allocations().remove(p).dom().contains(q));
            }
        }
        assert forall|m: int, n: int| 0 <= m < ps.len() && 0 <= n < ps.len() && m != n implies ps[m]
            != ps[n] by {
            if m < qs.len() {
                assert(qs.contains(qs[m]));
            }
            if n < qs.len() {
                assert(qs.contains(qs[n]));
            }
        }
        assert forall|q: int| ps.to_set().contains(q) <==> (qs.to_set().contains(q) || q == p) by {
            if ps.contains(q) {
                let n = choose|n: int| 0 <= n < ps.len() && ps[n] == q;
                if n < qs.len() {
                    assert(qs[n] == q);
                }
            }
            if qs.contains(q) {
                let n = choose|n: int| 0 <= n < qs.len() && qs[n] == q;
                assert(ps[n] == q);
            }
            assert(ps[ps.len() - 1] == p);
        }
        assert(after.allocations().remove_keys(ps.to_set()) =~= after.allocations().remove(
            p,
        ).remove_keys(qs.to_set()));
    }
}

/// Giving back live allocations, all different, removes them from the live
/// allocations and changes nothing else.
pub proof fn lemma_deallocate_all(h: Heap, ptrs: Seq<int>)
    requires
        h.wf(),
        h.len() > 0,
        ptrs.no_duplicates(),
        forall|p: int| #[trigger] ptrs.contains(p) ==> h.is_allocated(p),
    ensures
        deallocate_all(h, ptrs).wf(),
        deallocate_all(h, ptrs).len() > 0,
        deallocate_all(h, ptrs).base() == h.base(),
        deallocate_all(h, ptrs).end() == h.end(),
        deallocate_all(h, ptrs).allocations() == h.allocations().remove_keys(ptrs.to_set()),
    decreases ptrs.len(),
{
    if ptrs.len() == 0 {
        assert(h.allocations().remove_keys(ptrs.to_set()) =~= h.allocations());
    } else {
        let earlier = ptrs.drop_last();
        let p = ptrs.last();
        let g = deallocate_all(h, earlier);
        assert forall|q: int| #[trigger] earlier.contains(q) implies h.is_allocated(q) by {
            let n = choose|n: int| 0 <= n < earlier.len() && earlier[n] == q;
            assert(ptrs[n] == q);
            assert(ptrs.contains(q));
        }
        lemma_deallocate_all(h, earlier);
        assert(ptrs[ptrs.len() - 1] == p);
        assert(ptrs.contains(p));
        assert(!earlier.contains(p)) by {
            if earlier.contains(p) {
                let n = choose|n: int| 0 <= n < earlier.len() && earlier[n] == p;
                assert(ptrs[n] == p);
            }
        }
        assert(h.allocations().dom().contains(p));
        assert(g.allocations().dom().contains(p));
        lemma_deallocate_allocations(g, p);
        assert forall|q: int| ptrs.to_set().contains(q) <==> (earlier.to_set().contains(q) || q
            == p) by {
            if ptrs.contains(q) {
                let n = choose|n: int| 0 <= n < ptrs.len() && ptrs[n] == q;
                if n < earlier.len() {
                    assert(earlier[n] == q);
                }
            }
            if earlier.contains(q) {
                let n = choose|n: int| 0 <= n < earlier.len() && earlier[n] == q;
                assert(ptrs[n] == q);
            }
        }
        assert(h.allocations().remove_keys(ptrs.to_set()) =~= h.allocations().remove_keys(
            earlier.to_set(),
        ).remove(p));
    }
}

/// Round trip: after any sequence of allocations, giving back the pointers
/// they returned, each once and in any order, leaves the heap as it was
/// before the first allocation, and so its free list.
pub proof fn lemma_round_trip(h: Heap, requests: Seq<Request>, order: Seq<int>)
    requires
        h.wf(),
        all_served(h, requests),
        order.no_duplicates(),
        forall|p: int| order.contains(p) <==> pointers_of(h, requests).contains(p),
    ensures
        deallocate_all(allocate_all(h, requests), order) == h,
        deallocate_all(allocate_all(h, requests), order).free_list() == h.free_list(),
{
    let g = allocate_all(h, requests);
    let ps = pointers_of(h, requests);
    if h.len() == 0 {
        lemma_nothing_served(h, requests);
        if order.len() > 0 {
            assert(order.contains(order[0]));
        }
    } else {
        lemma_allocate_all(h, requests);
        assert forall|p: int| #[trigger] order.contains(p) implies g.is_allocated(p) by {
            assert(ps.contains(p));
        }
        lemma_deallocate_all(g, order);
        assert(order.to_set() =~= ps.to_set());
        lemma_allocations_determine_heap(deallocate_all(g, order), h);
    }
}

/// A heap without segments serves no request.
pub proof fn lemma_nothing_served(h: Heap, requests: Seq<Request>)
    requires
        h.len() == 0,
        all_served(h, requests),
    ensures
        requests.len() == 0,
    decreases requests.len(),
{
    if requests.len() > 0 {
        lemma_nothing_served(h, requests.drop_last());
    }
}

/// What is free of a sequence of one segment.
proof fn lemma_free_of_one(s: Segment)
    ensures
        seq![s].filter(is_free()) == if s.free {
            seq![s]
        } else {
            Seq::<Segment>::empty()
        },
{
    reveal_with_fuel(Seq::filter, 2);
    assert(seq![s].drop_last() =~= Seq::<Segment>::empty());
    assert(Seq::<Segment>::empty().push(s) =~= seq![s]);
}

/// Single difference: an allocation leaves the free list as long as it was
/// and changes one node of it, the one it carved from, which stays where it
/// was and shrinks by the bytes asked for and one header at least.
pub proof fn lemma_single_diff(h: Heap, size: nat, align: nat)
    requires
        h.wf(),
        align > 0,
        h.first_fit(size, align) is Some,
    ensures
        h.allocate(size, align).free_list().len() == h.free_list().len(),
        exists|n: int|
            {
                &&& 0 <= n < h.free_list().len()
                &&& h.allocate(size, align).free_list()[n].0 == (#[trigger] h.free_list()[n]).0
                &&& h.allocate(size, align).free_list()[n].1 + HEADER_SIZE + size
                    <= h.free_list()[n].1
                &&& forall|m: int|
                    0 <= m < h.free_list().len() && m != n ==> h.allocate(
                        size,
                        align,
                    ).free_list()[m] == #[trigger] h.free_list()[m]
            },
{
    lemma_allocate(h, size, align);
    let k = h.first_fit(size, align).unwrap();
    let seg = h.segments[k];
    let header = seg.header_for(size, align);
    let c = h.allocate(size, align);
    lemma_carve_tiled(h, k, header);
    let below = h.segments.subrange(0, k);
    let above = h.segments.subrange(k + 1, h.len());
    let rest = c.segments[k];
    let used = c.segments[k + 1];
    assert(h.segments =~= below + seq![seg] + above);
    assert(c.segments =~= below + seq![rest] + seq![used] + above);
    Seq::filter_distributes_over_add(below, seq![seg], is_free());
    Seq::filter_distributes_over_add(below + seq![seg], above, is_free());
    Seq::filter_distributes_over_add(below, seq![rest], is_free());
    Seq::filter_distributes_over_add(below + seq![rest], seq![used], is_free());
    Seq::filter_distributes_over_add(below + seq![rest] + seq![used], above, is_free());
    lemma_free_of_one(seg);
    lemma_free_of_one(rest);
    lemma_free_of_one(used);
    let n = below.filter(is_free()).len() as int;
    let before = h.free_segments();
    let after = c.free_segments();
    assert(before =~= below.filter(is_free()) + seq![seg] + above.filter(is_free()));
    assert(after =~= below.filter(is_free()) + seq![rest] + above.filter(is_free()));
    assert(before[n] == seg);
    assert(after[n] == rest);
    assert(h.free_list()[n] == (seg.addr - h.base(), seg.size));
    assert forall|m: int| 0 <= m < h.free_list().len() && m != n implies c.free_list()[m]
        == #[trigger] h.free_list()[m] by {
        assert(before[m] == after[m]);
    }
}

/// Marking a segment free keeps every free span and makes the segment one.
pub proof fn lemma_release_span(h: Heap, i: int, lo: int, hi: int)
    requires
        0 <= i < h.len(),
    ensures
        h.free_span(lo, hi) ==> h.release(i).free_span(lo, hi),
        h.release(i).free_span(h.segments[i].addr, h.segments[i].end()),
{
    let r = h.release(i);
    if h.free_span(lo, hi) {
        let k = choose|k: int|
            0 <= k < h.len() && (#[trigger] h.segments[k]).free && h.segments[k].addr <= lo && hi
                <= h.segments[k].end();
        assert(r.segments[k].free && r.segments[k].addr <= lo && hi <= r.segments[k].end());
    }
    assert(r.segments[i].free && r.segments[i].addr == h.segments[i].addr && r.segments[i].end()
        == h.segments[i].end());
}

/// Merging two free segments keeps every free span.
pub proof fn lemma_merge_span(h: Heap, j: int, lo: int, hi: int)
    requires
        h.linked(),
        0 <= j,
        j + 1 < h.len(),
        h.segments[j].free,
        h.free_span(lo, hi),
    ensures
        h.merge(j).free_span(lo, hi),
{
    let g = h.merge(j);
    let k = choose|k: int|
        0 <= k < h.len() && (#[trigger] h.segments[k]).free && h.segments[k].addr <= lo && hi
            <= h.segments[k].end();
    assert(h.segments[j].end() == h.segments[j + 1].addr);
    let k2 = if k <= j {
        k
    } else {
        k - 1
    };
    if k < j {
        assert(g.segments[k2] == h.segments[k]);
    } else if k > j + 1 {
        assert(g.segments[k2] == h.segments[k]);
    }
    assert(g.segments[k2].free && g.segments[k2].addr <= lo && hi <= g.segments[k2].end());
}

/// A deallocation keeps every free span and makes the segment given back
/// part of one.
pub proof fn lemma_deallocate_span(h: Heap, ptr: int, lo: int, hi: int)
    requires
        h.wf(),
        h.is_allocated(ptr),
    ensures
        h.free_span(lo, hi) ==> h.deallocate(ptr).free_span(lo, hi),
        h.deallocate(ptr).free_span(
            ptr - HEADER_SIZE,
            ptr + h.segments[h.index_of(ptr)].size,
        ),
{
    lemma_allocation_index(h, ptr);
    let i = h.index_of(ptr);
    let seg = h.segments[i];
    let r = h.release(i);
    lemma_release_tiled(h, i);
    lemma_release_span(h, i, lo, hi);
    let up = i + 1 < h.len() && h.segments[i + 1].free;
    let f = if up {
        r.merge(i)
    } else {
        r
    };
    if up {
        lemma_merge_tiled(r, i);
        lemma_merge_span(r, i, seg.addr, seg.end());
        if h.free_span(lo, hi) {
            lemma_merge_span(r, i, lo, hi);
        }
    }
    if i > 0 && h.segments[i - 1].free {
        assert(f.segments[i - 1] == h.segments[i - 1]);
        lemma_merge_span(f, i - 1, seg.addr, seg.end());
        if h.free_span(lo, hi) {
            lemma_merge_span(f, i - 1, lo, hi);
        }
    }
}

/// Coalescing: after two allocations that lie one behind the other are both
/// given back, in either order, the heap is the same, it is well formed, so
/// that no two free nodes touch, and one free node spans both.
pub proof fn lemma_coalescing(h: Heap, first: int, second: int)
    requires
        h.wf(),
        h.is_allocated(first),
        h.is_allocated(second),
        first + h.allocations()[first] + HEADER_SIZE == second,
    ensures
        h.deallocate(first).is_allocated(second),
        h.deallocate(second).is_allocated(first),
        h.deallocate(first).deallocate(second) == h.deallocate(second).deallocate(first),
        h.deallocate(first).deallocate(second).wf(),
        h.deallocate(first).deallocate(second).free_span(
            first - HEADER_SIZE,
            second + h.allocations()[second],
        ),
{
    lemma_allocation_index(h, first);
    lemma_allocation_index(h, second);
    let i = h.index_of(first);
    let s1 = h.segments[i];
    assert(h.index_of(second) == i + 1) by {
        let j = h.index_of(second);
        if j < i {
            lemma_ordered(h, j, i);
        } else if j > i + 1 {
            lemma_ordered(h, i + 1, j);
            assert(s1.end() == h.segments[i + 1].addr);
        }
    }
    let s2 = h.segments[i + 1];
    assert(s1.end() == s2.addr);
    let a = h.deallocate(first);
    let b = h.deallocate(second);
    lemma_deallocate_allocations(h, first);
    lemma_deallocate_allocations(h, second);
    assert(a.allocations().dom().contains(second));
    assert(b.allocations().dom().contains(first));
    let ab = a.deallocate(second);
    let ba = b.deallocate(first);
    lemma_deallocate_allocations(a, second);
    lemma_deallocate_allocations(b, first);
    assert(ab.allocations() =~= ba.allocations());
    lemma_allocations_determine_heap(ab, ba);
    // One free node holds the first segment, one the second: they are the same.
    lemma_deallocate_span(h, first, 0, 0);
    lemma_deallocate_span(a, second, s1.addr, s1.end());
    lemma_allocation_index(a, second);
    assert(a.allocations()[second] == h.allocations()[second]);
    assert(a.segments[a.index_of(second)].size == s2.size);
    let k1 = choose|k: int|
        0 <= k < ab.len() && (#[trigger] ab.segments[k]).free && ab.segments[k].addr <= s1.addr
            && s1.end() <= ab.segments[k].end();
    let k2 = choose|k: int|
        0 <= k < ab.len() && (#[trigger] ab.segments[k]).free && ab.segments[k].addr <= s2.addr
            && s2.end() <= ab.segments[k].end();
    if k1 < k2 {
        lemma_ordered(ab, k1, k2);
        assert(ab.segments[k1].end() == ab.segments[k1 + 1].addr);
        lemma_index_unique(ab, k1 + 1, k2);
        assert(!(ab.segments[k1].free && ab.segments[k1 + 1].free));
    } else if k2 < k1 {
        lemma_ordered(ab, k2, k1);
    }
}

} // verus!
