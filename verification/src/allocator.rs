//! The kernel heap: a first-fit allocator over one contiguous block of
//! memory, with an address-ordered list of free segments that are merged
//! whenever two of them touch.

pub mod laws;
pub mod list;
pub mod memory;
pub mod model;
pub mod region;

use crate::allocator::laws::{lemma_allocate_allocations, lemma_deallocate_allocations};
use crate::allocator::list::{
    decode_link, encode_link, lemma_carve_links, lemma_free_prefix, lemma_free_prefix_empty,
    lemma_link_round_trip, lemma_merge_links, lemma_next_free, lemma_next_free_is,
    lemma_release_links, link_after, link_int, link_to, next_free,
};
use crate::allocator::memory::{
    lemma_word_written, lemma_words_kept, load_word, store_word, with_word, word_at, WORD_SIZE,
};
use crate::allocator::model::{
    is_free, lemma_allocate, lemma_allocation_index, lemma_bounded, lemma_carve_tiled,
    lemma_first_fit_from, lemma_free_at, lemma_index_unique, lemma_merge_tiled, lemma_ordered,
    lemma_release_tiled, Heap, Segment, HEADER_SIZE,
};
use crate::allocator::region::{locate_heap, spec_locate_heap};
use crate::multiboot::MultibootMmapEntry;
use vstd::arithmetic::div_mod::lemma_mod_decreases;
use vstd::pervasive::unreached;
use vstd::prelude::*;

verus! {

/// Bytes of padding behind the size word of a used header.
pub const USED_PADDING: usize = 8;

/// Header of a free segment, as it is stored at the segment's first bytes:
/// the size word, then the link word.
#[derive(Debug, PartialEq, Eq, Clone, Copy)]
pub struct FreeSegment {
    /// Bytes of the free region that follows the header.
    pub size: usize,
    /// Address of the next free header above this one, if there is one.
    pub next_segment: Option<usize>,
}

impl FreeSegment {
    /// Bytes that a free header takes in memory.
    pub open spec fn stored_size() -> int {
        WORD_SIZE + WORD_SIZE
    }

    /// Address of the first byte after a header that stands at `at`.
    pub fn get_start(&self, at: usize) -> (start: usize)
        requires
            at + HEADER_SIZE <= usize::MAX,
        ensures
            start == at + HEADER_SIZE,
    {
        at + HEADER_SIZE
    }

    /// Address one past the region of this segment, whose header stands at `at`.
    pub fn get_end(&self, at: usize) -> (end: usize)
        requires
            at + HEADER_SIZE + self.size <= usize::MAX,
        ensures
            end == at + HEADER_SIZE + self.size,
    {
        at + HEADER_SIZE + self.size
    }

    /// Makes the region of this segment, whose header stands at `at`, end at `ptr`.
    pub fn update_size(&mut self, at: usize, ptr: usize)
        requires
            at + HEADER_SIZE <= ptr,
        ensures
            final(self).size == ptr - (at + HEADER_SIZE),
            final(self).next_segment == old(self).next_segment,
    {
        self.size = ptr - (at + HEADER_SIZE);
    }
}

/// Header of a used segment, as it is stored at the segment's first bytes:
/// the size word, then one word of padding that keeps it as large as a free
/// header.
#[derive(Debug, PartialEq, Eq, Clone, Copy)]
pub struct UsedSegment {
    /// Bytes of the payload that follows the header.
    pub size: usize,
}

impl UsedSegment {
    /// Bytes that a used header takes in memory.
    pub open spec fn stored_size() -> int {
        WORD_SIZE + USED_PADDING
    }

    /// Address of the payload of a used segment whose header stands at `at`.
    pub fn get_start(&self, at: usize) -> (start: usize)
        requires
            at + HEADER_SIZE <= usize::MAX,
        ensures
            start == at + HEADER_SIZE,
    {
        at + HEADER_SIZE
    }

    /// Makes the payload of this segment, whose header stands at `at`, end at `ptr`.
    pub fn update_size(&mut self, at: usize, ptr: usize)
        requires
            at + HEADER_SIZE <= ptr,
        ensures
            final(self).size == ptr - (at + HEADER_SIZE),
    {
        self.size = ptr - (at + HEADER_SIZE);
    }
}

/// A free header and a used header take the same room, so that a segment
/// changes kind in place.
pub proof fn lemma_headers_agree()
    ensures
        FreeSegment::stored_size() == HEADER_SIZE,
        UsedSegment::stored_size() == HEADER_SIZE,
{
}

/// The free segment described by a header that stands at `at`.
pub open spec fn segment_at(at: usize, header: FreeSegment) -> Segment {
    Segment { addr: at as int, size: header.size as nat, free: true }
}

/// Where to put the header of an allocation of `size` bytes aligned to
/// `align`, carved from the top of the free segment whose header `segment`
/// stands at `at`; nothing where the segment is too small.
pub fn get_header_ptr(
    segment: &FreeSegment,
    at: usize,
    size: usize,
    align: usize,
) -> (header: Option<usize>)
    requires
        align > 0,
        at + HEADER_SIZE + segment.size <= usize::MAX,
    ensures
        header is Some <==> segment_at(at, *segment).fits(size as nat, align as nat),
        header is Some ==> header.unwrap() == segment_at(at, *segment).header_for(
            size as nat,
            align as nat,
        ),
{
    let segment_start = segment.get_start(at);
    let segment_end = segment.get_end(at);
    if size > segment.size {
        return None;
    }
    let top = segment_end - size;
    proof {
        lemma_mod_decreases(top as nat, align as nat);
    }
    let aligned = top - top % align;
    if aligned < HEADER_SIZE {
        return None;
    }
    let ptr = aligned - HEADER_SIZE;
    if ptr < segment_start {
        return None;
    }
    Some(ptr)
}

/// Address of the header that precedes the payload at `ptr`.
pub fn get_header_ptr_from_allocated(ptr: usize) -> (header: usize)
    requires
        ptr >= HEADER_SIZE,
    ensures
        header == ptr - HEADER_SIZE,
{
    ptr - HEADER_SIZE
}

/// The heap: the block of memory it manages and the head of its free list.
pub struct Allocator {
    first_free: Option<usize>,
    base: usize,
    memory: Vec<u8>,
    heap: Ghost<Heap>,
}

impl View for Allocator {
    type V = Heap;

    closed spec fn view(&self) -> Heap {
        self.heap@
    }
}

impl Allocator {
    /// The size word of the header at `addr`.
    pub closed spec fn size_at(&self, addr: int) -> int {
        word_at(self.memory@, addr - self.base) as int
    }

    /// The link word of the header at `addr`.
    pub closed spec fn link_at(&self, addr: int) -> int {
        word_at(self.memory@, addr - self.base + WORD_SIZE) as int
    }

    /// Whether a whole header at `addr` lies inside the managed memory.
    pub closed spec fn holds_header(&self, addr: int) -> bool {
        self.base <= addr && addr + HEADER_SIZE <= self.base + self.memory.len()
    }

    /// The bytes of the memory say what the model says: every header holds
    /// its segment's size, and every free header the address of the next
    /// free segment.
    #[verifier::opaque]
    pub closed spec fn stored(&self) -> bool {
        let h = self@;
        &&& h.len() == 0 ==> self.memory.len() == 0 && self.first_free is None
        &&& h.len() > 0 ==> {
            &&& self.base == h.base()
            &&& self.base + self.memory.len() == h.end()
            &&& h.end() <= usize::MAX
            &&& self.first_free == Some(self.base)
            &&& forall|i: int|
                0 <= i < h.len() ==> self.size_at((#[trigger] h.segments[i]).addr)
                    == h.segments[i].size
            &&& forall|i: int|
                0 <= i < h.len() && (#[trigger] h.segments[i]).free ==> self.link_at(
                    h.segments[i].addr,
                ) == encode_link(link_after(h, i))
        }
    }

    /// What holds at every step: the segments tile the memory and the bytes
    /// agree with them.
    pub closed spec fn inv(&self) -> bool {
        self@.linked() && self.stored()
    }

    /// What holds between operations: moreover no two free segments touch.
    pub closed spec fn wf(&self) -> bool {
        self.inv() && self@.coalesced()
    }

    /// A well-formed allocator has a well-formed model, which ends inside
    /// the address space.
    pub proof fn lemma_wf(&self)
        requires
            self.wf(),
        ensures
            self@.wf(),
            self@.end() <= usize::MAX,
    {
        reveal(Allocator::stored);
    }

    /// Where the managed memory lies and where the free list starts.
    proof fn lemma_extent(&self)
        requires
            self.inv(),
        ensures
            self@.len() == 0 ==> self.memory.len() == 0 && self.first_free is None,
            self@.len() > 0 ==> {
                &&& self.base == self@.base()
                &&& self.base + self.memory.len() == self@.end()
                &&& self.first_free == Some(self.base)
                &&& self@.segments[0].free
            },
            link_int(self.first_free) == link_to(self@, 0),
            link_to(self@, 0) == link_to(self@, next_free(self@, 0)),
            self@.end() <= usize::MAX,
    {
        reveal(Allocator::stored);
    }

    /// What the memory holds at the header of segment `i`.
    proof fn lemma_header(&self, i: int)
        requires
            self.inv(),
            0 <= i < self@.len(),
        ensures
            self.holds_header(self@.segments[i].addr),
            0 <= self@.segments[i].addr,
            self@.segments[i].end() <= self.base + self.memory.len() <= usize::MAX,
            self.size_at(self@.segments[i].addr) == self@.segments[i].size,
            self@.segments[i].free ==> {
                &&& self.link_at(self@.segments[i].addr) == encode_link(link_after(self@, i))
                &&& link_int(decode_link(self.link_at(self@.segments[i].addr))) == link_after(
                    self@,
                    i,
                )
                &&& 0 <= self.link_at(self@.segments[i].addr) <= usize::MAX
            },
    {
        reveal(Allocator::stored);
        lemma_bounded(self@, i);
        lemma_link_round_trip(self@, i);
    }

    /// An allocator that manages no memory yet.
    pub fn new() -> (allocator: Allocator)
        ensures
            allocator.wf(),
            allocator@ == Heap::empty(),
    {
        reveal(Allocator::stored);
        Allocator { first_free: None, base: 0, memory: Vec::new(), heap: Ghost(Heap::empty()) }
    }

    /// Address of the lowest free header; nothing before initialization.
    pub fn first_free(&self) -> (head: Option<usize>)
        requires
            self.wf(),
        ensures
            match head {
                Some(addr) => link_to(self@, 0) == Some(addr as int),
                None => self@.len() == 0,
            },
    {
        proof {
            self.lemma_extent();
        }
        self.first_free
    }

    /// Reads the size word of the header at `at`.
    fn read_size(&self, at: usize) -> (size: usize)
        requires
            self.holds_header(at as int),
            self.size_at(at as int) <= usize::MAX,
        ensures
            size == self.size_at(at as int),
    {
        load_word(&self.memory, at - self.base) as usize
    }

    /// Reads the link word of the header at `at`.
    fn read_link(&self, at: usize) -> (link: Option<usize>)
        requires
            self.holds_header(at as int),
            self.link_at(at as int) <= usize::MAX,
        ensures
            link == decode_link(self.link_at(at as int)),
    {
        let word = load_word(&self.memory, at - self.base + WORD_SIZE);
        if word == 0 {
            None
        } else {
            Some(word as usize)
        }
    }

    /// Writes the size word of the header at `at`, and nothing else.
    fn write_size(&mut self, at: usize, size: usize)
        requires
            old(self).holds_header(at as int),
        ensures
            final(self).memory@ == with_word(
                old(self).memory@,
                at - old(self).base,
                size as u64,
            ),
            final(self).memory@.len() == old(self).memory@.len(),
            final(self).base == old(self).base,
            final(self).first_free == old(self).first_free,
            final(self)@ == old(self)@,
            final(self).size_at(at as int) == size,
    {
        proof {
            lemma_word_written(self.memory@, at - self.base, size as u64);
        }
        store_word(&mut self.memory, at - self.base, size as u64);
    }

    /// Writes the link word of the header at `at`, and nothing else.
    fn write_link(&mut self, at: usize, link: Option<usize>)
        requires
            old(self).holds_header(at as int),
        ensures
            final(self).memory@ == with_word(
                old(self).memory@,
                at - old(self).base + WORD_SIZE,
                encode_link(link_int(link)) as u64,
            ),
            final(self).memory@.len() == old(self).memory@.len(),
            final(self).base == old(self).base,
            final(self).first_free == old(self).first_free,
            final(self)@ == old(self)@,
            final(self).link_at(at as int) == encode_link(link_int(link)),
    {
        let word: u64 = match link {
            Some(addr) => addr as u64,
            None => 0,
        };
        proof {
            lemma_word_written(self.memory@, at - self.base + WORD_SIZE, word);
        }
        store_word(&mut self.memory, at - self.base + WORD_SIZE, word);
    }

    /// The lowest free segment that fits `size` bytes aligned to `align`:
    /// its header's address and the address for the new header. Nothing
    /// where no free segment fits.
    pub fn find_fit(&self, size: usize, align: usize) -> (found: Option<(usize, usize)>)
        requires
            self.wf(),
            align > 0,
        ensures
            match self@.first_fit(size as nat, align as nat) {
                Some(k) => found is Some && found.unwrap().0 == self@.segments[k].addr
                    && found.unwrap().1 == self@.segments[k].header_for(size as nat, align as nat),
                None => found is None,
            },
    {
        let ghost h = self@;
        let mut free_block_it = self.first_free;
        let ghost mut k: int = 0;
        proof {
            self.lemma_extent();
        }
        while free_block_it.is_some()
            invariant
                self.wf(),
                h == self@,
                align > 0,
                0 <= k <= h.len(),
                link_int(free_block_it) == link_to(h, k),
                k < h.len() ==> h.segments[k].free,
                forall|j: int|
                    0 <= j < k ==> !((#[trigger] h.segments[j]).free && h.segments[j].fits(
                        size as nat,
                        align as nat,
                    )),
            ensures
                k == h.len(),
            decreases h.len() - k,
        {
            let at = free_block_it.unwrap();
            proof {
                self.lemma_header(k);
            }
            let segment = FreeSegment {
                size: self.read_size(at),
                next_segment: self.read_link(at),
            };
            assert(segment_at(at, segment) == h.segments[k]);
            match get_header_ptr(&segment, at, size, align) {
                Some(header_ptr) => {
                    proof {
                        lemma_first_fit_from(h, 0, size as nat, align as nat);
                    }
                    return Some((at, header_ptr));
                },
                None => {
                    proof {
                        lemma_next_free(h, k + 1);
                        k = next_free(h, k + 1);
                    }
                    free_block_it = segment.next_segment;
                },
            }
        }
        proof {
            lemma_first_fit_from(h, 0, size as nat, align as nat);
        }
        None
    }

    /// Allocates where a free segment fits the request, and says so where
    /// none does: the heap is then left as it was.
    pub fn try_allocate(&mut self, size: usize, align: usize) -> (ptr: Option<usize>)
        requires
            old(self).wf(),
            align > 0,
        ensures
            final(self).wf(),
            match ptr {
                Some(payload) => {
                    &&& old(self)@.first_fit(size as nat, align as nat) is Some
                    &&& final(self)@ == old(self)@.allocate(size as nat, align as nat)
                    &&& payload == old(self)@.alloc_ptr(size as nat, align as nat)
                    &&& payload % align == 0
                },
                None => {
                    &&& old(self)@.first_fit(size as nat, align as nat) is None
                    &&& *final(self) == *old(self)
                },
            },
    {
        let ghost h = self@;
        match self.find_fit(size, align) {
            Some((at, header_ptr)) => {
                let ghost k = h.first_fit(size as nat, align as nat).unwrap();
                proof {
                    lemma_allocate(h, size as nat, align as nat);
                }
                Some(self.carve(at, header_ptr, Ghost(k)))
            },
            None => None,
        }
    }

    /// Whether `ptr` is the payload address of a live allocation. Walks the
    /// segments from the lowest address up, and the free list beside them.
    pub fn is_allocated(&self, ptr: usize) -> (live: bool)
        requires
            self.wf(),
        ensures
            live == self@.is_allocated(ptr as int),
    {
        let ghost h = self@;
        proof {
            self.lemma_extent();
        }
        let mut next = self.first_free;
        if next.is_none() {
            return false;
        }
        let end = self.base + self.memory.len();
        let mut at = self.base;
        let ghost mut i: int = 0;
        while at < end
            invariant
                self.wf(),
                h == self@,
                h.len() > 0,
                end == h.end(),
                0 <= i <= h.len(),
                i < h.len() ==> at == h.segments[i].addr,
                i == h.len() ==> at == end,
                link_int(next) == link_to(h, next_free(h, i)),
                forall|j: int|
                    0 <= j < i ==> !((#[trigger] h.segments[j]).start() == ptr
                        && !h.segments[j].free),
            decreases h.len() - i,
        {
            proof {
                self.lemma_header(i);
                lemma_walk(h, i);
            }
            let size = self.read_size(at);
            let free = match next {
                Some(free_at) => free_at == at,
                None => false,
            };
            if free {
                next = self.read_link(at);
            }
            if at + HEADER_SIZE == ptr {
                proof {
                    if h.is_allocated(ptr as int) {
                        lemma_allocation_index(h, ptr as int);
                        lemma_index_unique(h, i, h.index_of(ptr as int));
                    }
                }
                return !free;
            }
            at = at + HEADER_SIZE + size;
            proof {
                i = i + 1;
            }
        }
        proof {
            if i < h.len() {
                lemma_bounded(h, i);
            }
            if h.is_allocated(ptr as int) {
                lemma_allocation_index(h, ptr as int);
            }
        }
        false
    }

    /// Carves a used segment whose header stands at `header_ptr` from the top
    /// of the free segment whose header stands at `at`, and returns the
    /// address of its payload.
    fn carve(&mut self, at: usize, header_ptr: usize, Ghost(k): Ghost<int>) -> (ptr: usize)
        requires
            old(self).wf(),
            0 <= k < old(self)@.len(),
            old(self)@.segments[k].free,
            old(self)@.segments[k].addr == at,
            old(self)@.segments[k].start() <= header_ptr,
            header_ptr + HEADER_SIZE <= old(self)@.segments[k].end(),
        ensures
            final(self).wf(),
            final(self)@ == old(self)@.carve(k, header_ptr as int),
            ptr == header_ptr + HEADER_SIZE,
    {
        let ghost h = self@;
        proof {
            self.lemma_header(k);
        }
        let mut segment = FreeSegment {
            size: self.read_size(at),
            next_segment: self.read_link(at),
        };
        // The end of the segment, before its size changes.
        let segment_end = segment.get_end(at);
        segment.update_size(at, header_ptr);
        self.write_size(at, segment.size);
        let ghost mid = *self;
        let mut used = UsedSegment { size: 0 };
        used.update_size(header_ptr, segment_end);
        self.write_size(header_ptr, used.size);
        proof {
            self.heap = Ghost(h.carve(k, header_ptr as int));
            lemma_carved(*old(self), mid, *self, k, header_ptr as int);
        }
        used.get_start(header_ptr)
    }

    /// Takes `size` bytes aligned to `align` from the top of the lowest free
    /// segment that fits, and returns the address of the payload: a multiple
    /// of `align` that at least `size` bytes follow, all of them inside the
    /// segment that gave them up and behind its header.
    pub fn allocate(&mut self, size: usize, align: usize) -> (ptr: usize)
        requires
            old(self).wf(),
            align > 0,
            old(self)@.first_fit(size as nat, align as nat) is Some,
        ensures
            final(self).wf(),
            final(self)@ == old(self)@.allocate(size as nat, align as nat),
            ptr == old(self)@.alloc_ptr(size as nat, align as nat),
            ptr % align == 0,
            final(self)@.is_allocated(ptr as int),
            !old(self)@.is_allocated(ptr as int),
            ({
                let from = old(self)@.segments[old(self)@.first_fit(
                    size as nat,
                    align as nat,
                ).unwrap()];
                from.start() + HEADER_SIZE <= ptr && ptr + size <= from.end()
            }),
    {
        proof {
            lemma_allocate_allocations(self@, size as nat, align as nat);
        }
        let ghost h = self@;
        let ghost k = h.first_fit(size as nat, align as nat).unwrap();
        proof {
            lemma_allocate(h, size as nat, align as nat);
        }
        let (at, header_ptr) = match self.find_fit(size, align) {
            Some(found) => found,
            None => unreached(),
        };
        self.carve(at, header_ptr, Ghost(k))
    }

    /// Merges the free segment that `b` names into the free segment whose
    /// header stands at `a`, where the first ends at the header of the second.
    fn merge_if_adjacent(&mut self, a: usize, b: Option<usize>, Ghost(j): Ghost<int>)
        requires
            old(self).inv(),
            0 <= j < old(self)@.len(),
            old(self)@.segments[j].free,
            old(self)@.segments[j].addr == a,
            link_int(b) == link_after(old(self)@, j),
        ensures
            final(self).inv(),
            final(self)@ == if j + 1 < old(self)@.len() && old(self)@.segments[j + 1].free {
                old(self)@.merge(j)
            } else {
                old(self)@
            },
    {
        let ghost h = self@;
        proof {
            self.lemma_header(j);
            lemma_adjacent(h, j);
            if j + 1 < h.len() {
                self.lemma_header(j + 1);
            }
        }
        let size_a = self.read_size(a);
        let adjacent = match b {
            Some(b_addr) => a + size_a + HEADER_SIZE == b_addr,
            None => false,
        };
        if adjacent {
            let b_addr = b.unwrap();
            let size_b = self.read_size(b_addr);
            let next_b = self.read_link(b_addr);
            self.write_size(a, size_a + HEADER_SIZE + size_b);
            let ghost mid = *self;
            self.write_link(a, next_b);
            proof {
                self.heap = Ghost(h.merge(j));
                lemma_merged(*old(self), mid, *self, j);
            }
        }
    }

    /// Links the segment whose header stands at `new_segment` into the free
    /// list that starts at `list_head`, in address order, and merges it with
    /// the free segments that touch it.
    fn insert_segment_into_list(
        &mut self,
        list_head: Option<usize>,
        new_segment: usize,
        Ghost(i): Ghost<int>,
    )
        requires
            old(self).wf(),
            list_head == old(self).first_free,
            0 <= i < old(self)@.len(),
            !old(self)@.segments[i].free,
            old(self)@.segments[i].addr == new_segment,
        ensures
            final(self).wf(),
            final(self)@ == old(self)@.free_at(i),
    {
        let ghost h = self@;
        let ghost mut c: int = 0;
        proof {
            self.lemma_extent();
            self.lemma_header(0);
        }
        let mut iterator = match list_head {
            Some(head) => head,
            None => unreached(),
        };
        let mut next = self.read_link(iterator);
        let mut should_insert = match next {
            Some(next_addr) => next_addr > new_segment,
            None => true,
        };
        while !should_insert
            invariant
                *self == *old(self),
                self.wf(),
                h == self@,
                0 <= c < i < h.len(),
                !h.segments[i].free,
                h.segments[i].addr == new_segment,
                h.segments[c].free,
                iterator == h.segments[c].addr,
                link_int(next) == link_after(h, c),
                should_insert == match next {
                    Some(next_addr) => next_addr > new_segment,
                    None => true,
                },
            decreases h.len() - c,
        {
            proof {
                lemma_next_free(h, c + 1);
                let m = next_free(h, c + 1);
                if m > i {
                    lemma_ordered(h, i, m);
                }
                c = m;
                self.lemma_header(c);
            }
            iterator = next.unwrap();
            next = self.read_link(iterator);
            should_insert = match next {
                Some(next_addr) => next_addr > new_segment,
                None => true,
            };
        }
        let at = iterator;
        proof {
            self.lemma_header(c);
            self.lemma_header(i);
            lemma_next_free(h, c + 1);
            if next_free(h, c + 1) < i {
                lemma_ordered(h, next_free(h, c + 1), i);
            }
            assert forall|x: int| c < x <= i implies !(#[trigger] h.segments[x]).free by {}
        }
        self.write_link(at, Some(new_segment));
        let ghost mid = *self;
        self.write_link(new_segment, next);
        proof {
            self.heap = Ghost(h.release(i));
            lemma_released(*old(self), mid, *self, c, i);
            lemma_release_links(h, c, i);
        }
        self.merge_if_adjacent(new_segment, next, Ghost(i));
        proof {
            lemma_forward_link(h, c, i);
        }
        self.merge_if_adjacent(at, Some(new_segment), Ghost(c));
        proof {
            lemma_free_at(h, i);
            lemma_backward_step(h, c, i);
        }
    }

    /// Turns the used header at `used_segment` into a free header and links
    /// it into the free list that starts at `list_head`.
    fn convert_used_to_free_segment(
        &mut self,
        list_head: Option<usize>,
        used_segment: usize,
        Ghost(i): Ghost<int>,
    )
        requires
            old(self).wf(),
            list_head == old(self).first_free,
            0 <= i < old(self)@.len(),
            !old(self)@.segments[i].free,
            old(self)@.segments[i].addr == used_segment,
        ensures
            final(self).wf(),
            final(self)@ == old(self)@.free_at(i),
    {
        let ghost h = self@;
        proof {
            self.lemma_header(i);
        }
        let size = self.read_size(used_segment);
        let new_free_segment = used_segment;
        self.write_size(new_free_segment, size);
        let ghost mid = *self;
        self.write_link(new_free_segment, None);
        proof {
            lemma_converted(*old(self), mid, *self, i);
        }
        self.insert_segment_into_list(list_head, new_free_segment, Ghost(i))
    }

    /// Gives back the allocation whose payload starts at `ptr`.
    pub fn deallocate(&mut self, ptr: usize)
        requires
            old(self).wf(),
            old(self)@.is_allocated(ptr as int),
        ensures
            final(self).wf(),
            final(self)@ == old(self)@.deallocate(ptr as int),
            !final(self)@.is_allocated(ptr as int),
    {
        let ghost h = self@;
        let ghost i = h.index_of(ptr as int);
        proof {
            lemma_allocation_index(h, ptr as int);
            self.lemma_header(i);
            lemma_deallocate_allocations(h, ptr as int);
            assert(!h.deallocate(ptr as int).allocations().dom().contains(ptr as int));
        }
        let header_ptr = get_header_ptr_from_allocated(ptr);
        self.convert_used_to_free_segment(self.first_free, header_ptr, Ghost(i))
    }

    /// Sets the heap up behind the kernel image, in the region of the memory
    /// map that the kernel was loaded into: one free segment that takes all
    /// the room left. Whatever the allocator held before is forgotten.
    pub fn init(&mut self, regions: &[MultibootMmapEntry], kernel_start: u64, kernel_end: u64)
        requires
            spec_locate_heap(regions@, kernel_start, kernel_end) is Some,
        ensures
            final(self).wf(),
            ({
                let (base, usable) = spec_locate_heap(regions@, kernel_start, kernel_end).unwrap();
                final(self)@ == Heap::fresh(base as int, usable as nat)
            }),
    {
        let (base, usable) = match locate_heap(regions, kernel_start, kernel_end) {
            Some(extent) => extent,
            None => unreached(),
        };
        let segment = FreeSegment { size: usable, next_segment: None };
        self.base = base;
        self.memory = vec![0u8; usable + HEADER_SIZE];
        self.heap = Ghost(Heap::fresh(base as int, usable as nat));
        self.write_size(base, segment.size);
        let ghost mid = *self;
        self.write_link(base, segment.next_segment);
        self.first_free = Some(base);
        proof {
            let h = self@;
            reveal(Allocator::stored);
            lemma_next_free(h, 1);
            lemma_words_kept(mid.memory@, WORD_SIZE as int, 0u64);
            assert(h.linked());
            assert(h.coalesced());
        }
    }

    /// The free list as it stands in memory: the address and the header of
    /// every free segment, lowest address first.
    pub fn free_segments(&self) -> (list: Vec<(usize, FreeSegment)>)
        requires
            self.wf(),
        ensures
            list@.len() == self@.free_segments().len(),
            forall|n: int|
                0 <= n < list@.len() ==> {
                    &&& (#[trigger] list@[n]).0 == self@.free_segments()[n].addr
                    &&& list@[n].1.size == self@.free_segments()[n].size
                    &&& link_int(list@[n].1.next_segment) == if n + 1 < list@.len() {
                        Some(self@.free_segments()[n + 1].addr)
                    } else {
                        None
                    }
                },
    {
        let ghost h = self@;
        let mut list: Vec<(usize, FreeSegment)> = Vec::new();
        let mut iterator = self.first_free;
        let ghost mut k: int = 0;
        proof {
            self.lemma_extent();
            lemma_free_prefix_empty(h, 0);
        }
        while iterator.is_some()
            invariant
                self.wf(),
                h == self@,
                0 <= k <= h.len(),
                link_int(iterator) == link_to(h, k),
                k < h.len() ==> h.segments[k].free,
                list@.len() == h.segments.take(k).filter(is_free()).len(),
                forall|n: int|
                    0 <= n < list@.len() ==> {
                        &&& (#[trigger] list@[n]).0 == h.segments.take(k).filter(is_free())[n].addr
                        &&& list@[n].1.size == h.segments.take(k).filter(is_free())[n].size
                        &&& link_int(list@[n].1.next_segment) == if n + 1 < list@.len() {
                            Some(h.segments.take(k).filter(is_free())[n + 1].addr)
                        } else {
                            link_to(h, k)
                        }
                    },
            ensures
                k == h.len(),
            decreases h.len() - k,
        {
            let at = iterator.unwrap();
            proof {
                self.lemma_header(k);
                lemma_next_free(h, k + 1);
                lemma_free_prefix(h, k, next_free(h, k + 1));
            }
            let segment = FreeSegment {
                size: self.read_size(at),
                next_segment: self.read_link(at),
            };
            list.push((at, segment));
            iterator = segment.next_segment;
            proof {
                k = next_free(h, k + 1);
            }
        }
        proof {
            assert(h.segments.take(h.len()) =~= h.segments);
        }
        list
    }
}

/// After the two size words of a carved segment are written, the memory
/// holds the carved heap.
proof fn lemma_carved(pre: Allocator, mid: Allocator, post: Allocator, k: int, header: int)
    requires
        pre.wf(),
        0 <= k < pre@.len(),
        pre@.segments[k].free,
        pre@.segments[k].start() <= header,
        header + HEADER_SIZE <= pre@.segments[k].end(),
        mid.memory@ == with_word(
            pre.memory@,
            pre@.segments[k].addr - pre.base,
            (header - pre@.segments[k].start()) as u64,
        ),
        post.memory@ == with_word(
            mid.memory@,
            header - pre.base,
            (pre@.segments[k].end() - (header + HEADER_SIZE)) as u64,
        ),
        post.base == pre.base,
        post.first_free == pre.first_free,
        post@ == pre@.carve(k, header),
    ensures
        post.wf(),
{
    reveal(Allocator::stored);
    let h = pre@;
    let c = post@;
    let seg = h.segments[k];
    lemma_bounded(h, k);
    lemma_carve_links(h, k, header);
    lemma_word_written(pre.memory@, seg.addr - pre.base, (header - seg.start()) as u64);
    lemma_words_kept(pre.memory@, seg.addr - pre.base, (header - seg.start()) as u64);
    lemma_word_written(mid.memory@, header - pre.base, (seg.end() - (header + HEADER_SIZE)) as u64);
    lemma_words_kept(mid.memory@, header - pre.base, (seg.end() - (header + HEADER_SIZE)) as u64);
    lemma_carve_tiled(h, k, header);
    assert forall|i: int| 0 <= i < c.len() implies post.size_at((#[trigger] c.segments[i]).addr)
        == c.segments[i].size by {
        if i < k {
            lemma_ordered(h, i, k);
            lemma_bounded(h, i);
            assert(pre.size_at(h.segments[i].addr) == h.segments[i].size);
        } else if i > k + 1 {
            lemma_ordered(h, k, i - 1);
            lemma_bounded(h, i - 1);
            assert(pre.size_at(h.segments[i - 1].addr) == h.segments[i - 1].size);
        }
    }
    assert forall|i: int| 0 <= i < c.len() && (#[trigger] c.segments[i]).free implies post.link_at(
        c.segments[i].addr,
    ) == encode_link(link_after(c, i)) by {
        if i < k {
            lemma_ordered(h, i, k);
            lemma_bounded(h, i);
            assert(pre.link_at(h.segments[i].addr) == encode_link(link_after(h, i)));
            assert(link_after(c, i) == link_after(h, i));
        } else if i == k {
            assert(pre.link_at(h.segments[k].addr) == encode_link(link_after(h, k)));
            assert(link_after(c, k) == link_after(h, k));
        } else {
            lemma_ordered(h, k, i - 1);
            lemma_bounded(h, i - 1);
            assert(h.segments[i - 1].free);
            assert(pre.link_at(h.segments[i - 1].addr) == encode_link(link_after(h, i - 1)));
            assert(link_after(c, (i - 1) + 1) == link_after(h, i - 1));
        }
    }
}

/// Rewriting the header of a used segment with its own size and an empty
/// link changes nothing that the invariant reads.
proof fn lemma_converted(pre: Allocator, mid: Allocator, post: Allocator, i: int)
    requires
        pre.wf(),
        0 <= i < pre@.len(),
        !pre@.segments[i].free,
        mid.memory@ == with_word(
            pre.memory@,
            pre@.segments[i].addr - pre.base,
            pre@.segments[i].size as u64,
        ),
        post.memory@ == with_word(mid.memory@, pre@.segments[i].addr - pre.base + WORD_SIZE, 0u64),
        post.base == pre.base,
        post.first_free == pre.first_free,
        post@ == pre@,
    ensures
        post.wf(),
{
    reveal(Allocator::stored);
    let h = pre@;
    let seg = h.segments[i];
    lemma_bounded(h, i);
    lemma_word_written(pre.memory@, seg.addr - pre.base, seg.size as u64);
    lemma_words_kept(pre.memory@, seg.addr - pre.base, seg.size as u64);
    lemma_word_written(mid.memory@, seg.addr - pre.base + WORD_SIZE, 0u64);
    lemma_words_kept(mid.memory@, seg.addr - pre.base + WORD_SIZE, 0u64);
    assert forall|x: int| 0 <= x < h.len() implies post.size_at((#[trigger] h.segments[x]).addr)
        == h.segments[x].size by {
        lemma_bounded(h, x);
        if x < i {
            lemma_ordered(h, x, i);
        } else if x > i {
            lemma_ordered(h, i, x);
        }
        assert(pre.size_at(h.segments[x].addr) == h.segments[x].size);
    }
    assert forall|x: int| 0 <= x < h.len() && (#[trigger] h.segments[x]).free implies post.link_at(
        h.segments[x].addr,
    ) == encode_link(link_after(h, x)) by {
        lemma_bounded(h, x);
        if x < i {
            lemma_ordered(h, x, i);
        } else if x > i {
            lemma_ordered(h, i, x);
        }
        assert(pre.link_at(h.segments[x].addr) == encode_link(link_after(h, x)));
    }
}

/// After the link of `c` is pointed at segment `i` and the link of `i` where
/// `c` pointed, the memory holds the heap with segment `i` marked free.
proof fn lemma_released(pre: Allocator, mid: Allocator, post: Allocator, c: int, i: int)
    requires
        pre.wf(),
        0 <= c < i < pre@.len(),
        pre@.segments[c].free,
        forall|x: int| c < x <= i ==> !(#[trigger] pre@.segments[x]).free,
        mid.memory@ == with_word(
            pre.memory@,
            pre@.segments[c].addr - pre.base + WORD_SIZE,
            pre@.segments[i].addr as u64,
        ),
        post.memory@ == with_word(
            mid.memory@,
            pre@.segments[i].addr - pre.base + WORD_SIZE,
            encode_link(link_after(pre@, c)) as u64,
        ),
        post.base == pre.base,
        post.first_free == pre.first_free,
        post@ == pre@.release(i),
    ensures
        post.inv(),
{
    reveal(Allocator::stored);
    let h = pre@;
    let r = post@;
    lemma_bounded(h, c);
    lemma_bounded(h, i);
    lemma_ordered(h, c, i);
    lemma_release_tiled(h, i);
    lemma_release_links(h, c, i);
    lemma_link_round_trip(h, c);
    let w1 = h.segments[i].addr as u64;
    let w2 = encode_link(link_after(h, c)) as u64;
    lemma_word_written(pre.memory@, h.segments[c].addr - pre.base + WORD_SIZE, w1);
    lemma_words_kept(pre.memory@, h.segments[c].addr - pre.base + WORD_SIZE, w1);
    lemma_word_written(mid.memory@, h.segments[i].addr - pre.base + WORD_SIZE, w2);
    lemma_words_kept(mid.memory@, h.segments[i].addr - pre.base + WORD_SIZE, w2);
    assert forall|x: int| 0 <= x < r.len() implies post.size_at((#[trigger] r.segments[x]).addr)
        == r.segments[x].size by {
        lemma_bounded(h, x);
        if x < c {
            lemma_ordered(h, x, c);
        } else if x > c {
            lemma_ordered(h, c, x);
        }
        if x < i {
            lemma_ordered(h, x, i);
        } else if x > i {
            lemma_ordered(h, i, x);
        }
        assert(pre.size_at(h.segments[x].addr) == h.segments[x].size);
    }
    assert forall|x: int| 0 <= x < r.len() && (#[trigger] r.segments[x]).free implies post.link_at(
        r.segments[x].addr,
    ) == encode_link(link_after(r, x)) by {
        lemma_bounded(h, x);
        if x < c {
            lemma_ordered(h, x, c);
        } else if x > c {
            lemma_ordered(h, c, x);
        }
        if x < i {
            lemma_ordered(h, x, i);
        } else if x > i {
            lemma_ordered(h, i, x);
        }
        if x != c && x != i {
            assert(h.segments[x].free);
            assert(pre.link_at(h.segments[x].addr) == encode_link(link_after(h, x)));
            assert(link_after(r, x) == link_after(h, x));
        }
    }
}

/// After the size of `j` is grown over segment `j + 1` and its link is
/// pointed where `j + 1` pointed, the memory holds the merged heap.
proof fn lemma_merged(pre: Allocator, mid: Allocator, post: Allocator, j: int)
    requires
        pre.inv(),
        0 <= j,
        j + 1 < pre@.len(),
        pre@.segments[j].free,
        pre@.segments[j + 1].free,
        mid.memory@ == with_word(
            pre.memory@,
            pre@.segments[j].addr - pre.base,
            (pre@.segments[j].size + HEADER_SIZE + pre@.segments[j + 1].size) as u64,
        ),
        post.memory@ == with_word(
            mid.memory@,
            pre@.segments[j].addr - pre.base + WORD_SIZE,
            encode_link(link_after(pre@, j + 1)) as u64,
        ),
        post.base == pre.base,
        post.first_free == pre.first_free,
        post@ == pre@.merge(j),
    ensures
        post.inv(),
{
    reveal(Allocator::stored);
    let h = pre@;
    let g = post@;
    lemma_bounded(h, j);
    lemma_bounded(h, j + 1);
    lemma_merge_tiled(h, j);
    lemma_merge_links(h, j);
    lemma_link_round_trip(h, j + 1);
    assert(h.segments[j].end() == h.segments[j + 1].addr);
    let w1 = (h.segments[j].size + HEADER_SIZE + h.segments[j + 1].size) as u64;
    let w2 = encode_link(link_after(h, j + 1)) as u64;
    lemma_word_written(pre.memory@, h.segments[j].addr - pre.base, w1);
    lemma_words_kept(pre.memory@, h.segments[j].addr - pre.base, w1);
    lemma_word_written(mid.memory@, h.segments[j].addr - pre.base + WORD_SIZE, w2);
    lemma_words_kept(mid.memory@, h.segments[j].addr - pre.base + WORD_SIZE, w2);
    assert forall|x: int| 0 <= x < g.len() implies post.size_at((#[trigger] g.segments[x]).addr)
        == g.segments[x].size by {
        if x < j {
            lemma_bounded(h, x);
            lemma_ordered(h, x, j);
            assert(pre.size_at(h.segments[x].addr) == h.segments[x].size);
        } else if x > j {
            lemma_bounded(h, x + 1);
            lemma_ordered(h, j, x + 1);
            assert(g.segments[x] == h.segments[x + 1]);
            assert(pre.size_at(h.segments[x + 1].addr) == h.segments[x + 1].size);
        }
    }
    assert forall|x: int| 0 <= x < g.len() && (#[trigger] g.segments[x]).free implies post.link_at(
        g.segments[x].addr,
    ) == encode_link(link_after(g, x)) by {
        if x < j {
            lemma_bounded(h, x);
            lemma_ordered(h, x, j);
            assert(h.segments[x].free);
            assert(pre.link_at(h.segments[x].addr) == encode_link(link_after(h, x)));
            assert(link_after(g, x) == link_after(h, x));
        } else if x > j {
            lemma_bounded(h, x + 1);
            lemma_ordered(h, j, x + 1);
            assert(g.segments[x] == h.segments[x + 1]);
            assert(pre.link_at(h.segments[x + 1].addr) == encode_link(link_after(h, x + 1)));
            assert(link_after(g, (x + 1) - 1) == link_after(h, x + 1));
        }
    }
}

/// Two segments touch exactly where the upper one is the next free segment
/// and begins where the lower one ends.
proof fn lemma_adjacent(h: Heap, j: int)
    requires
        h.linked(),
        0 <= j < h.len(),
    ensures
        (j + 1 < h.len() && h.segments[j + 1].free) <==> link_after(h, j) == Some(
            h.segments[j].end(),
        ),
        j + 1 < h.len() && h.segments[j + 1].free ==> next_free(h, j + 1) == j + 1,
{
    lemma_next_free(h, j + 1);
    if j + 1 < h.len() {
        assert(h.segments[j].end() == h.segments[j + 1].addr);
        if h.segments[j + 1].free {
            lemma_next_free_is(h, j + 1, j + 1);
        } else if next_free(h, j + 1) < h.len() {
            lemma_ordered(h, j + 1, next_free(h, j + 1));
        }
    }
}

/// One step of a walk over all segments with the free list beside it: the
/// next free segment at or above `i` is `i` itself or lies above it, and the
/// segment after `i` begins where `i` ends.
proof fn lemma_walk(h: Heap, i: int)
    requires
        h.linked(),
        0 <= i < h.len(),
    ensures
        h.segments[i].free ==> link_to(h, next_free(h, i)) == Some(h.segments[i].addr),
        !h.segments[i].free ==> link_to(h, next_free(h, i)) != Some(h.segments[i].addr)
            && next_free(h, i) == next_free(h, i + 1),
        i + 1 < h.len() ==> h.segments[i].end() == h.segments[i + 1].addr,
        i + 1 == h.len() ==> h.segments[i].end() == h.end(),
{
    lemma_next_free(h, i);
    lemma_next_free(h, i + 1);
    if next_free(h, i) < h.len() && next_free(h, i) > i {
        lemma_ordered(h, i, next_free(h, i));
    }
    if !h.segments[i].free {
        lemma_next_free_is(h, i + 1, next_free(h, i));
    }
    if i + 1 < h.len() {
        assert(h.segments[i].end() == h.segments[i + 1].addr);
    }
}

/// After the first merge, `c` still points at segment `i`.
proof fn lemma_forward_link(h: Heap, c: int, i: int)
    requires
        0 <= c < i < h.len(),
        h.segments[c].free,
        forall|x: int| c < x <= i ==> !(#[trigger] h.segments[x]).free,
    ensures
        ({
            let r = h.release(i);
            let f = if i + 1 < h.len() && h.segments[i + 1].free {
                r.merge(i)
            } else {
                r
            };
            &&& c < f.len()
            &&& f.segments[c].free
            &&& f.segments[c].addr == h.segments[c].addr
            &&& link_after(f, c) == Some(h.segments[i].addr)
        }),
{
    let r = h.release(i);
    let f = if i + 1 < h.len() && h.segments[i + 1].free {
        r.merge(i)
    } else {
        r
    };
    assert forall|x: int| c + 1 <= x < i implies !(#[trigger] f.segments[x]).free by {
        assert(f.segments[x] == h.segments[x]);
    }
    lemma_next_free_is(f, c + 1, i);
}

/// The second merge happens exactly where the segment below `i` was free.
proof fn lemma_backward_step(h: Heap, c: int, i: int)
    requires
        0 <= c < i < h.len(),
        h.segments[c].free,
        forall|x: int| c < x <= i ==> !(#[trigger] h.segments[x]).free,
    ensures
        ({
            let r = h.release(i);
            let f = if i + 1 < h.len() && h.segments[i + 1].free {
                r.merge(i)
            } else {
                r
            };
            let g = if c + 1 < f.len() && f.segments[c + 1].free {
                f.merge(c)
            } else {
                f
            };
            g == h.free_at(i)
        }),
{
    let r = h.release(i);
    let f = if i + 1 < h.len() && h.segments[i + 1].free {
        r.merge(i)
    } else {
        r
    };
    if c + 1 < i {
        assert(f.segments[c + 1] == h.segments[c + 1]);
        assert(!h.segments[i - 1].free);
    } else {
        assert(f.segments[c + 1].free);
    }
}

} // verus!
