//! The mathematical model of the heap: a sequence of segments, free or used,
//! that tile one contiguous range of addresses.

use vstd::arithmetic::div_mod::{
    lemma_fundamental_div_mod, lemma_mod_bound, lemma_mod_multiples_basic,
};
use vstd::prelude::*;

verus! {

/// Bytes taken by the header that precedes every segment's payload. A free
/// header and a used header have this same size, so a segment changes kind by
/// rewriting header fields only.
pub const HEADER_SIZE: usize = 16;

/// `addr` rounded down to a multiple of `align`.
pub open spec fn align_down(addr: int, align: nat) -> int {
    addr - addr % (align as int)
}

/// One segment of the heap: a header at `addr` followed by `size` payload bytes.
pub struct Segment {
    pub addr: int,
    pub size: nat,
    pub free: bool,
}

impl Segment {
    /// Address of the first payload byte.
    pub open spec fn start(self) -> int {
        self.addr + HEADER_SIZE
    }

    /// Address one past the last payload byte.
    pub open spec fn end(self) -> int {
        self.addr + HEADER_SIZE + self.size
    }

    /// Where the header of an allocation of `size` bytes aligned to `align`
    /// would stand if it were carved from the top of this segment.
    pub open spec fn header_for(self, size: nat, align: nat) -> int {
        align_down(self.end() - size, align) - HEADER_SIZE
    }

    /// Whether such an allocation leaves this segment's own header intact.
    pub open spec fn fits(self, size: nat, align: nat) -> bool {
        self.header_for(size, align) >= self.start()
    }

    /// This segment marked free.
    pub open spec fn released(self) -> Segment {
        Segment { addr: self.addr, size: self.size, free: true }
    }

    /// This segment after it has swallowed `next`, header and payload.
    pub open spec fn absorbed(self, next: Segment) -> Segment {
        Segment {
            addr: self.addr,
            size: (self.size + HEADER_SIZE + next.size) as nat,
            free: self.free,
        }
    }
}

/// The test for a free segment.
pub open spec fn is_free() -> spec_fn(Segment) -> bool {
    |s: Segment| s.free
}

/// The whole heap, lowest address first. The empty sequence is the heap
/// before initialization.
pub struct Heap {
    pub segments: Seq<Segment>,
}

impl Heap {
    /// The heap that holds nothing.
    pub open spec fn empty() -> Heap {
        Heap { segments: Seq::empty() }
    }

    /// The heap right after initialization: one free segment.
    pub open spec fn fresh(base: int, usable: nat) -> Heap {
        Heap { segments: seq![Segment { addr: base, size: usable, free: true }] }
    }

    pub open spec fn len(self) -> int {
        self.segments.len() as int
    }

    /// Address of the first header.
    pub open spec fn base(self) -> int {
        if self.len() > 0 {
            self.segments[0].addr
        } else {
            0
        }
    }

    /// Address one past the last payload byte.
    pub open spec fn end(self) -> int {
        if self.len() > 0 {
            self.segments.last().end()
        } else {
            0
        }
    }

    /// Every segment ends where the next one's header begins.
    pub open spec fn tiled(self) -> bool {
        forall|i: int, j: int|
            0 <= i && j == i + 1 && j < self.len() ==> (#[trigger] self.segments[i]).end() == (
            #[trigger] self.segments[j]).addr
    }

    /// No free segment is directly followed by another free segment.
    pub open spec fn coalesced(self) -> bool {
        forall|i: int, j: int|
            0 <= i && j == i + 1 && j < self.len() ==> !((#[trigger] self.segments[i]).free && (
            #[trigger] self.segments[j]).free)
    }

    /// The tiling alone: what holds even between the steps of a deallocation.
    pub open spec fn linked(self) -> bool {
        self.len() > 0 ==> self.segments[0].free && self.segments[0].addr >= 0 && self.tiled()
    }

    /// The invariant of the heap between operations.
    pub open spec fn wf(self) -> bool {
        self.linked() && self.coalesced()
    }

    /// Index of the first free segment at or after `from` that fits the request.
    pub open spec fn first_fit_from(self, from: int, size: nat, align: nat) -> Option<int>
        decreases self.len() - from,
    {
        if from < 0 || from >= self.len() {
            None
        } else if self.segments[from].free && self.segments[from].fits(size, align) {
            Some(from)
        } else {
            self.first_fit_from(from + 1, size, align)
        }
    }

    /// Index of the lowest free segment that fits the request.
    pub open spec fn first_fit(self, size: nat, align: nat) -> Option<int> {
        self.first_fit_from(0, size, align)
    }

    /// The heap after segment `k` gave up its top for a used segment whose
    /// header stands at `header`.
    pub open spec fn carve(self, k: int, header: int) -> Heap {
        let seg = self.segments[k];
        let rest = Segment { addr: seg.addr, size: (header - seg.start()) as nat, free: true };
        let used = Segment {
            addr: header,
            size: (seg.end() - (header + HEADER_SIZE)) as nat,
            free: false,
        };
        Heap {
            segments: self.segments.subrange(0, k) + seq![rest, used] + self.segments.subrange(
                k + 1,
                self.len(),
            ),
        }
    }

    /// The pointer that an allocation returns.
    pub open spec fn alloc_ptr(self, size: nat, align: nat) -> int {
        let k = self.first_fit(size, align).unwrap();
        self.segments[k].header_for(size, align) + HEADER_SIZE
    }

    /// The heap after an allocation.
    pub open spec fn allocate(self, size: nat, align: nat) -> Heap {
        let k = self.first_fit(size, align).unwrap();
        self.carve(k, self.segments[k].header_for(size, align))
    }

    /// Whether `ptr` is the payload address of a used segment.
    pub open spec fn is_allocated(self, ptr: int) -> bool {
        exists|i: int|
            0 <= i < self.len() && (#[trigger] self.segments[i]).start() == ptr
                && !self.segments[i].free
    }

    /// Index of the segment whose payload starts at `ptr`.
    pub open spec fn index_of(self, ptr: int) -> int {
        choose|i: int| 0 <= i < self.len() && (#[trigger] self.segments[i]).start() == ptr
    }

    /// The heap with segment `i` marked free.
    pub open spec fn release(self, i: int) -> Heap {
        Heap { segments: self.segments.update(i, self.segments[i].released()) }
    }

    /// The heap with segment `i + 1` merged into segment `i`.
    pub open spec fn merge(self, i: int) -> Heap {
        Heap {
            segments: self.segments.subrange(0, i) + seq![
                self.segments[i].absorbed(self.segments[i + 1]),
            ] + self.segments.subrange(i + 2, self.len()),
        }
    }

    /// The heap after segment `i` was freed: marked free, then merged with
    /// the segment above it if that one is free, then merged into the segment
    /// below it if that one is free.
    pub open spec fn free_at(self, i: int) -> Heap {
        let released = self.release(i);
        let forward = if i + 1 < self.len() && self.segments[i + 1].free {
            released.merge(i)
        } else {
            released
        };
        if i > 0 && self.segments[i - 1].free {
            forward.merge(i - 1)
        } else {
            forward
        }
    }

    /// The heap after the allocation at `ptr` was given back.
    pub open spec fn deallocate(self, ptr: int) -> Heap {
        self.free_at(self.index_of(ptr))
    }

    /// The free segments, lowest address first.
    pub open spec fn free_segments(self) -> Seq<Segment> {
        self.segments.filter(is_free())
    }

    /// The free list: offset from the heap's base and size of every free
    /// segment, lowest address first.
    pub open spec fn free_list(self) -> Seq<(int, nat)> {
        self.free_segments().map_values(|s: Segment| (s.addr - self.base(), s.size))
    }
}

/// Rounding down gives the nearest multiple of `align` at or below `addr`.
pub proof fn lemma_align_down(addr: int, align: nat)
    requires
        align > 0,
    ensures
        align_down(addr, align) % (align as int) == 0,
        addr - align < align_down(addr, align) <= addr,
{
    let a = align as int;
    lemma_fundamental_div_mod(addr, a);
    lemma_mod_bound(addr, a);
    assert(align_down(addr, align) == (addr / a) * a) by (nonlinear_arith)
        requires
            addr == a * (addr / a) + addr % a,
            align_down(addr, align) == addr - addr % a,
    ;
    lemma_mod_multiples_basic(addr / a, a);
}

/// In a tiled heap a segment ends at or before every later segment's header.
pub proof fn lemma_ordered(h: Heap, i: int, j: int)
    requires
        h.tiled(),
        0 <= i < j < h.len(),
    ensures
        h.segments[i].end() <= h.segments[j].addr,
    decreases j - i,
{
    if i + 1 < j {
        lemma_ordered(h, i, j - 1);
    }
    assert(h.segments[j - 1].end() == h.segments[j].addr);
}

/// In a tiled heap every segment lies between the base and the end.
pub proof fn lemma_bounded(h: Heap, i: int)
    requires
        h.tiled(),
        0 <= i < h.len(),
    ensures
        h.base() <= h.segments[i].addr,
        h.segments[i].end() <= h.end(),
{
    if 0 < i {
        lemma_ordered(h, 0, i);
    }
    if i < h.len() - 1 {
        lemma_ordered(h, i, h.len() - 1);
    }
}

/// In a tiled heap two segments with the same payload address are the same.
pub proof fn lemma_index_unique(h: Heap, i: int, j: int)
    requires
        h.tiled(),
        0 <= i < h.len(),
        0 <= j < h.len(),
        h.segments[i].addr == h.segments[j].addr,
    ensures
        i == j,
{
    if i < j {
        lemma_ordered(h, i, j);
    }
    if j < i {
        lemma_ordered(h, j, i);
    }
}

/// A live allocation is a used segment of the heap, the one that `index_of`
/// picks.
pub proof fn lemma_allocation_index(h: Heap, ptr: int)
    requires
        h.linked(),
        h.is_allocated(ptr),
    ensures
        0 <= h.index_of(ptr) < h.len(),
        h.segments[h.index_of(ptr)].start() == ptr,
        !h.segments[h.index_of(ptr)].free,
{
    let i = choose|i: int|
        0 <= i < h.len() && (#[trigger] h.segments[i]).start() == ptr && !h.segments[i].free;
    lemma_index_unique(h, i, h.index_of(ptr));
}

/// What `first_fit_from` returns: the lowest index at or after `from` of a
/// free segment that fits, or nothing where there is none.
pub proof fn lemma_first_fit_from(h: Heap, from: int, size: nat, align: nat)
    requires
        0 <= from,
    ensures
        match h.first_fit_from(from, size, align) {
            Some(k) => {
                &&& from <= k < h.len()
                &&& h.segments[k].free
                &&& h.segments[k].fits(size, align)
                &&& forall|j: int|
                    from <= j < k ==> !((#[trigger] h.segments[j]).free && h.segments[j].fits(
                        size,
                        align,
                    ))
            },
            None => forall|j: int|
                from <= j < h.len() ==> !((#[trigger] h.segments[j]).free && h.segments[j].fits(
                    size,
                    align,
                )),
        },
    decreases h.len() - from,
{
    if from < h.len() && !(h.segments[from].free && h.segments[from].fits(size, align)) {
        lemma_first_fit_from(h, from + 1, size, align);
    }
}

/// Carving a used segment from the top of a free one keeps the heap well
/// formed.
pub proof fn lemma_carve_tiled(h: Heap, k: int, header: int)
    requires
        h.linked(),
        0 <= k < h.len(),
        h.segments[k].free,
        h.segments[k].start() <= header,
        header + HEADER_SIZE <= h.segments[k].end(),
    ensures
        h.carve(k, header).linked(),
        h.coalesced() ==> h.carve(k, header).coalesced(),
        h.carve(k, header).base() == h.base(),
        h.carve(k, header).end() == h.end(),
{
    let c = h.carve(k, header);
    assert forall|i: int, j: int| 0 <= i && j == i + 1 && j < c.len() implies (
    #[trigger] c.segments[i]).end() == (#[trigger] c.segments[j]).addr by {
        if j < k {
            assert(h.segments[i].end() == h.segments[j].addr);
        } else if j == k {
            assert(h.segments[i].end() == h.segments[j].addr);
        } else if i > k + 1 {
            assert(h.segments[i - 1].end() == h.segments[j - 1].addr);
        } else if i == k + 1 {
            assert(h.segments[k].end() == h.segments[k + 1].addr);
        }
    }
    if h.coalesced() {
        assert forall|i: int, j: int| 0 <= i && j == i + 1 && j < c.len() implies !((
        #[trigger] c.segments[i]).free && (#[trigger] c.segments[j]).free) by {
            if j < k {
                assert(!(h.segments[i].free && h.segments[j].free));
            } else if j == k {
                assert(!(h.segments[i].free && h.segments[j].free));
            } else if i > k + 1 {
                assert(!(h.segments[i - 1].free && h.segments[j - 1].free));
            }
        }
    }
}

/// Marking a segment free keeps the tiling.
pub proof fn lemma_release_tiled(h: Heap, i: int)
    requires
        h.linked(),
        0 <= i < h.len(),
    ensures
        h.release(i).linked(),
        h.release(i).len() == h.len(),
        h.release(i).base() == h.base(),
        h.release(i).end() == h.end(),
{
    let r = h.release(i);
    assert forall|a: int, b: int| 0 <= a && b == a + 1 && b < r.len() implies (
    #[trigger] r.segments[a]).end() == (#[trigger] r.segments[b]).addr by {
        assert(h.segments[a].end() == h.segments[b].addr);
    }
}

/// Merging a segment into the one below it keeps the tiling.
pub proof fn lemma_merge_tiled(h: Heap, j: int)
    requires
        h.linked(),
        0 <= j,
        j + 1 < h.len(),
    ensures
        h.merge(j).linked(),
        h.merge(j).len() == h.len() - 1,
        h.merge(j).base() == h.base(),
        h.merge(j).end() == h.end(),
{
    let g = h.merge(j);
    assert(h.segments[j].end() == h.segments[j + 1].addr);
    assert forall|a: int, b: int| 0 <= a && b == a + 1 && b < g.len() implies (
    #[trigger] g.segments[a]).end() == (#[trigger] g.segments[b]).addr by {
        if b < j {
            assert(h.segments[a].end() == h.segments[b].addr);
        } else if b == j {
            assert(h.segments[a].end() == h.segments[b].addr);
        } else if a == j {
            assert(h.segments[j + 1].end() == h.segments[j + 2].addr);
        } else {
            assert(h.segments[a + 1].end() == h.segments[b + 1].addr);
        }
    }
}

/// Freeing a used segment of a well-formed heap gives a well-formed heap
/// over the same range of addresses.
pub proof fn lemma_free_at(h: Heap, i: int)
    requires
        h.wf(),
        0 <= i < h.len(),
        !h.segments[i].free,
    ensures
        h.free_at(i).wf(),
        h.free_at(i).len() > 0,
        h.free_at(i).base() == h.base(),
        h.free_at(i).end() == h.end(),
{
    let r = h.release(i);
    lemma_release_tiled(h, i);
    let up = i + 1 < h.len() && h.segments[i + 1].free;
    let down = i > 0 && h.segments[i - 1].free;
    let f = if up {
        r.merge(i)
    } else {
        r
    };
    if up {
        lemma_merge_tiled(r, i);
    }
    let g = h.free_at(i);
    if down {
        lemma_merge_tiled(f, i - 1);
    }
    assert forall|a: int, b: int| 0 <= a && b == a + 1 && b < g.len() implies !((
    #[trigger] g.segments[a]).free && (#[trigger] g.segments[b]).free) by {
        // Where `g` is the merged segment or next to it, look at what lay
        // around segment `i` of `h`.
        let lo = if down {
            i - 1
        } else {
            i
        };
        let cut = (if up {
            1int
        } else {
            0int
        }) + (if down {
            1int
        } else {
            0int
        });
        if b < lo {
            assert(!(h.segments[a].free && h.segments[b].free));
        } else if b == lo {
            assert(!(h.segments[a].free && h.segments[b].free));
            if !down && a >= 0 {
                assert(a == i - 1);
            }
        } else if a == lo {
            assert(g.segments[b] == h.segments[b + cut]);
            if b + cut < h.len() {
                assert(!(h.segments[b + cut - 1].free && h.segments[b + cut].free));
            }
        } else {
            assert(g.segments[a] == h.segments[a + cut]);
            assert(g.segments[b] == h.segments[b + cut]);
            assert(!(h.segments[a + cut].free && h.segments[b + cut].free));
        }
    }
}

/// What an allocation does, where a free segment fits: the segment found is
/// free and large enough, the pointer is aligned, the payload has room for
/// the request inside that segment, and the pointer names a used segment of
/// the new heap.
pub proof fn lemma_allocate(h: Heap, size: nat, align: nat)
    requires
        h.linked(),
        align > 0,
        h.first_fit(size, align) is Some,
    ensures
        ({
            let k = h.first_fit(size, align).unwrap();
            let ptr = h.alloc_ptr(size, align);
            &&& 0 <= k < h.len()
            &&& h.segments[k].free
            &&& h.segments[k].fits(size, align)
            &&& forall|j: int|
                0 <= j < k ==> !((#[trigger] h.segments[j]).free && h.segments[j].fits(
                    size,
                    align,
                ))
            &&& ptr % (align as int) == 0
            &&& h.segments[k].start() + HEADER_SIZE <= ptr
            &&& ptr + size <= h.segments[k].end()
            &&& h.allocate(size, align).segments[k + 1].start() == ptr
            &&& h.allocate(size, align).segments[k + 1].size >= size
            &&& !h.allocate(size, align).segments[k + 1].free
            &&& h.allocate(size, align).is_allocated(ptr)
        }),
{
    lemma_first_fit_from(h, 0, size, align);
    let k = h.first_fit(size, align).unwrap();
    lemma_align_down(h.segments[k].end() - size, align);
    let after = h.allocate(size, align);
    assert(after.segments[k + 1].start() == h.alloc_ptr(size, align));
    assert(!after.segments[k + 1].free);
}

} // verus!
