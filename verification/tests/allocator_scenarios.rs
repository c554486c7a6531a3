use kratos::allocator::model::HEADER_SIZE;
use kratos::allocator::region::{find_big_block, heap_extent, locate_heap};
use kratos::allocator::{
    get_header_ptr, get_header_ptr_from_allocated, Allocator, FreeSegment, UsedSegment,
};
use kratos::multiboot::MultibootMmapEntry;

const MIB: u64 = 0x10_0000;
const REGION: u64 = 4 * MIB;

fn region(addr: u64, len: u64) -> MultibootMmapEntry {
    MultibootMmapEntry { size: 20, addr, len, type_: 1 }
}

/// A heap of `usable` bytes whose first header stands at `base`.
fn heap_at(base: usize, usable: usize) -> Allocator {
    let regions = vec![
        region(0, 0x9_fc00),
        region(REGION, base as u64 - REGION + HEADER_SIZE as u64 + usable as u64),
    ];
    let mut allocator = Allocator::new();
    allocator.init(&regions, REGION + MIB, base as u64);
    allocator
}

/// The free list as offsets from `base` and sizes.
fn free_list(heap: &Allocator, base: usize) -> Vec<(usize, usize)> {
    heap.free_segments().iter().map(|(at, segment)| (at - base, segment.size)).collect()
}

const BASE: usize = 0x60_0000;

#[test]
fn new_allocator_manages_nothing() {
    let heap = Allocator::new();
    assert_eq!(heap.first_free(), None);
    assert_eq!(heap.free_segments(), vec![]);
    assert_eq!(heap.find_fit(0, 1), None);
    assert!(!heap.is_allocated(HEADER_SIZE));
}

#[test]
fn init_makes_one_free_segment() {
    let heap = heap_at(BASE, 1024);
    assert_eq!(heap.first_free(), Some(BASE));
    assert_eq!(
        heap.free_segments(),
        vec![(BASE, FreeSegment { size: 1024, next_segment: None })]
    );
}

#[test]
fn init_again_forgets_what_was_allocated() {
    let mut heap = heap_at(BASE, 1024);
    let p = heap.allocate(100, 8);
    assert!(heap.is_allocated(p));
    let regions = vec![region(REGION, 3 * MIB)];
    heap.init(&regions, REGION + MIB, REGION + 2 * MIB);
    assert_eq!(
        heap.free_segments(),
        vec![(
            (REGION + 2 * MIB) as usize,
            FreeSegment { size: MIB as usize - HEADER_SIZE, next_segment: None }
        )]
    );
    assert!(!heap.is_allocated(p));
}

#[test]
fn find_big_block_takes_the_first_region_one_mib_below_the_kernel() {
    let regions = vec![
        region(0, 0x9_fc00),
        region(MIB, 0x7ee_0000),
        region(REGION, 8 * MIB),
        region(REGION, 16 * MIB),
    ];
    assert_eq!(find_big_block(&regions, REGION + MIB), Some(2));
    assert_eq!(find_big_block(&regions, 2 * MIB), Some(1));
    assert_eq!(find_big_block(&regions, MIB), Some(0));
    assert_eq!(find_big_block(&regions, 3 * MIB), None);
    assert_eq!(find_big_block(&regions, MIB - 1), None);
    assert_eq!(find_big_block(&[], 2 * MIB), None);
}

#[test]
fn heap_extent_leaves_out_the_reserved_bytes_and_one_header() {
    let big = region(MIB, 0x7ee_0000);
    let kernel_end = 2 * MIB + 0x4_2000;
    let reserved = kernel_end - MIB;
    assert_eq!(
        heap_extent(&big, kernel_end),
        Some((kernel_end as usize, (0x7ee_0000 - reserved) as usize - HEADER_SIZE))
    );
    // the image ends below the region
    assert_eq!(heap_extent(&big, MIB - 1), None);
    // the image ends beyond the region
    assert_eq!(heap_extent(&big, MIB + 0x7ee_0001), None);
    // no room for a header
    assert_eq!(heap_extent(&big, MIB + 0x7ee_0000 - 15), None);
    // room for a header and nothing else
    assert_eq!(
        heap_extent(&big, MIB + 0x7ee_0000 - 16),
        Some(((MIB + 0x7ee_0000 - 16) as usize, 0))
    );
    // the region ends beyond the address space
    assert_eq!(heap_extent(&region(u64::MAX - 100, 200), u64::MAX - 50), None);
}

#[test]
fn locate_heap_fails_without_a_region_for_the_kernel() {
    let regions = vec![region(0, 0x9_fc00), region(MIB, 0x7ee_0000)];
    assert_eq!(locate_heap(&regions, 5 * MIB, 6 * MIB), None);
    assert_eq!(
        locate_heap(&regions, 2 * MIB, 3 * MIB),
        Some(((3 * MIB) as usize, (0x7ee_0000 - 2 * MIB) as usize - HEADER_SIZE))
    );
}

#[test]
fn header_arithmetic() {
    let free = FreeSegment { size: 100, next_segment: None };
    assert_eq!(free.get_start(1000), 1000 + HEADER_SIZE);
    assert_eq!(free.get_end(1000), 1000 + HEADER_SIZE + 100);
    let mut shrunk = FreeSegment { size: 100, next_segment: Some(5000) };
    shrunk.update_size(1000, 1000 + HEADER_SIZE + 40);
    assert_eq!(shrunk, FreeSegment { size: 40, next_segment: Some(5000) });
    let mut used = UsedSegment { size: 0 };
    assert_eq!(used.get_start(2000), 2000 + HEADER_SIZE);
    used.update_size(2000, 2000 + HEADER_SIZE + 24);
    assert_eq!(used, UsedSegment { size: 24 });
    assert_eq!(get_header_ptr_from_allocated(2000 + HEADER_SIZE), 2000);
}

#[test]
fn get_header_ptr_carves_from_the_top() {
    // segment at 1000: payload from 1016 up to 1116
    let segment = FreeSegment { size: 100, next_segment: None };
    // 1116 - 8 = 1108, aligned to 4 stays, header at 1092
    assert_eq!(get_header_ptr(&segment, 1000, 8, 4), Some(1092));
    // 1116 - 10 = 1106, aligned to 16 is 1104, header at 1088
    assert_eq!(get_header_ptr(&segment, 1000, 10, 16), Some(1088));
    // nothing asked for: the header alone, at the very top
    assert_eq!(get_header_ptr(&segment, 1000, 0, 1), Some(1100));
    // the largest request that fits: 84 bytes, header right behind the segment's own
    assert_eq!(get_header_ptr(&segment, 1000, 84, 1), Some(1016));
    assert_eq!(get_header_ptr(&segment, 1000, 85, 1), None);
    // alignment loss makes it too small: 1116 - 80 = 1036, aligned to 64 is 1024, header at 1008
    assert_eq!(get_header_ptr(&segment, 1000, 80, 64), None);
    // larger than the segment
    assert_eq!(get_header_ptr(&segment, 1000, 101, 1), None);
    assert_eq!(get_header_ptr(&segment, 1000, usize::MAX, 1), None);
    // an alignment beyond the address rounds down to zero
    assert_eq!(get_header_ptr(&segment, 1000, 8, 4096), None);
}

#[test]
fn allocate_then_deallocate_restores_the_single_node() {
    let mut heap = heap_at(BASE, 1024);
    let before = heap.free_segments();

    let end = BASE + HEADER_SIZE + 1024;
    let ptr = heap.allocate(8, 4);
    assert_eq!(ptr % 4, 0);
    assert!(ptr + 8 <= end);
    assert_eq!(ptr, end - 8);
    assert_eq!(
        heap.free_segments(),
        vec![(BASE, FreeSegment { size: 1024 - 8 - HEADER_SIZE, next_segment: None })]
    );
    assert!(heap.is_allocated(ptr));

    heap.deallocate(ptr);
    assert_eq!(heap.free_segments(), before);
    assert!(!heap.is_allocated(ptr));
}

#[test]
fn test_simple_alloc() {
    let mut heap = heap_at(BASE, 4096);
    let initial_state = heap.free_segments();
    let temp = heap.allocate(4, 4);

    // Different states due to heap allocation
    assert_ne!(initial_state, heap.free_segments());

    let alloc_state = heap.free_segments();
    let num_diff = initial_state.iter().zip(alloc_state.iter()).filter(|(a, b)| a != b).count();

    // Difference should be 1
    assert_eq!(num_diff, 1);
    assert_eq!(initial_state.len(), alloc_state.len());

    let (before, after) = initial_state
        .iter()
        .zip(alloc_state.iter())
        .find(|(a, b)| a != b)
        .expect("Could not find any");

    // before size > after size
    assert!(before.1.size > after.1.size);

    heap.deallocate(temp);

    // States should be the same after drop
    assert_eq!(initial_state, heap.free_segments());
}

/// A vector of `usize` that lives in the heap under test: it grows as
/// `Vec` does, by allocating anew and giving the old block back.
struct HeapVec {
    ptr: Option<usize>,
    cap: usize,
    items: Vec<usize>,
}

impl HeapVec {
    fn new() -> HeapVec {
        HeapVec { ptr: None, cap: 0, items: Vec::new() }
    }

    fn push(&mut self, heap: &mut Allocator, item: usize) {
        if self.items.len() == self.cap {
            let cap = if self.cap == 0 { 4 } else { 2 * self.cap };
            let ptr = heap.allocate(cap * 8, 8);
            if let Some(old) = self.ptr {
                heap.deallocate(old);
            }
            self.ptr = Some(ptr);
            self.cap = cap;
        }
        self.items.push(item);
    }

    fn drop(self, heap: &mut Allocator) {
        if let Some(ptr) = self.ptr {
            heap.deallocate(ptr);
        }
    }
}

#[test]
fn test_nested_vector_alloc() {
    let mut heap = heap_at(BASE, 1 << 16);
    let initial_state = heap.free_segments();
    {
        let mut v: Vec<HeapVec> = Vec::new();
        const NUM_ALLOCATIONS: usize = 10;

        for i in 0..NUM_ALLOCATIONS {
            let mut v2 = HeapVec::new();
            for j in 0..i {
                v2.push(&mut heap, j);
            }
            v.push(v2);
        }

        for i in (0..NUM_ALLOCATIONS - 1).filter(|x| (x % 2) == 0).rev() {
            let len = v.len() - 1;
            v.swap(len, i);
            v.pop().unwrap().drop(&mut heap);
        }

        for i in 0..NUM_ALLOCATIONS {
            let mut v2 = HeapVec::new();
            for j in 0..i {
                v2.push(&mut heap, j);
            }
            v.push(v2);
        }

        for elem in v {
            for (i, item) in elem.items.iter().enumerate() {
                assert_eq!(i, *item);
            }
            elem.drop(&mut heap);
        }
    }

    // State should be the same after block
    assert_eq!(initial_state, heap.free_segments());
}

#[test]
fn round_trip_in_every_order() {
    let orders: [[usize; 3]; 6] =
        [[0, 1, 2], [0, 2, 1], [1, 0, 2], [1, 2, 0], [2, 0, 1], [2, 1, 0]];
    for order in orders {
        let mut heap = heap_at(BASE, 4096);
        let initial = free_list(&heap, BASE);
        assert_eq!(initial, vec![(0, 4096)]);
        let ptrs = [heap.allocate(100, 8), heap.allocate(7, 1), heap.allocate(512, 64)];
        for i in order {
            heap.deallocate(ptrs[i]);
        }
        assert_eq!(free_list(&heap, BASE), initial);
    }
}

#[test]
fn round_trip_from_a_heap_in_use() {
    let mut heap = heap_at(BASE, 4096);
    let kept_low = heap.allocate(64, 16);
    let gap = heap.allocate(256, 16);
    let kept_high = heap.allocate(64, 16);
    heap.deallocate(gap);
    let initial = heap.free_segments();
    assert_eq!(initial.len(), 2);

    let a = heap.allocate(32, 4);
    let b = heap.allocate(300, 4);
    let c = heap.allocate(32, 4);
    heap.deallocate(b);
    heap.deallocate(a);
    heap.deallocate(c);
    assert_eq!(heap.free_segments(), initial);
    assert!(heap.is_allocated(kept_low));
    assert!(heap.is_allocated(kept_high));
}

#[test]
fn first_fit_takes_the_lowest_segment_that_fits() {
    let mut heap = heap_at(BASE, 4096);
    let end = BASE + HEADER_SIZE + 4096;
    let high = heap.allocate(1000, 8);
    let hole = heap.allocate(200, 8);
    let low = heap.allocate(1000, 8);
    assert_eq!(high, end - 1000);
    assert_eq!(hole, high - HEADER_SIZE - 200);
    assert_eq!(low, hole - HEADER_SIZE - 1000);
    heap.deallocate(hole);
    // two free nodes: the root below `low` and the hole
    let root_size = 4096 - 3 * HEADER_SIZE - 2200;
    assert_eq!(
        heap.free_segments(),
        vec![
            (BASE, FreeSegment { size: root_size, next_segment: Some(hole - HEADER_SIZE) }),
            (hole - HEADER_SIZE, FreeSegment { size: 200, next_segment: None }),
        ]
    );
    // the root is lower and fits: it is taken though the hole would fit too
    assert_eq!(heap.find_fit(100, 8), Some((BASE, low - 2 * HEADER_SIZE - 104)));
    let small = heap.allocate(100, 8);
    assert_eq!(small, low - HEADER_SIZE - 104);
    // only the hole can give 190 bytes once the root is too small
    let filler = heap.allocate(root_size - 104 - HEADER_SIZE - HEADER_SIZE, 1);
    assert_eq!(filler, BASE + 2 * HEADER_SIZE);
    assert_eq!(heap.find_fit(150, 8), Some((hole - HEADER_SIZE, hole + 200 - 152 - HEADER_SIZE)));
    let in_hole = heap.allocate(150, 8);
    assert_eq!(in_hole, hole + 200 - 152);
    assert_eq!(
        heap.free_segments(),
        vec![
            (BASE, FreeSegment { size: 0, next_segment: Some(hole - HEADER_SIZE) }),
            (hole - HEADER_SIZE, FreeSegment { size: 200 - 152 - HEADER_SIZE, next_segment: None }),
        ]
    );
}

#[test]
fn allocation_changes_one_node_and_adds_none() {
    let mut heap = heap_at(BASE, 4096);
    let a = heap.allocate(500, 8);
    let b = heap.allocate(500, 8);
    let _c = heap.allocate(500, 8);
    heap.deallocate(b);
    let _ = a;
    let before = heap.free_segments();
    assert_eq!(before.len(), 2);
    let requested = 40;
    let _p = heap.allocate(requested, 8);
    let after = heap.free_segments();
    assert_eq!(after.len(), before.len());
    let changed: Vec<usize> = (0..before.len()).filter(|&i| before[i] != after[i]).collect();
    assert_eq!(changed, vec![0]);
    assert_eq!(before[0].0, after[0].0);
    assert_eq!(before[0].1.next_segment, after[0].1.next_segment);
    assert!(before[0].1.size - after[0].1.size >= requested + HEADER_SIZE);
}

#[test]
fn adjacent_allocations_coalesce_in_either_order() {
    for first_low in [true, false] {
        let mut heap = heap_at(BASE, 4096);
        let _top = heap.allocate(64, 8);
        let high = heap.allocate(128, 8);
        let low = heap.allocate(256, 8);
        let _bottom = heap.allocate(64, 8);
        assert_eq!(low + 256, high - HEADER_SIZE);
        let root = heap.free_segments()[0];
        if first_low {
            heap.deallocate(low);
            heap.deallocate(high);
        } else {
            heap.deallocate(high);
            heap.deallocate(low);
        }
        assert_eq!(
            heap.free_segments(),
            vec![
                (
                    BASE,
                    FreeSegment { size: root.1.size, next_segment: Some(low - HEADER_SIZE) }
                ),
                (
                    low - HEADER_SIZE,
                    FreeSegment { size: 256 + HEADER_SIZE + 128, next_segment: None }
                ),
            ]
        );
    }
}

#[test]
fn deallocate_merges_forward_backward_and_both() {
    let mut heap = heap_at(BASE, 4096);
    let d = heap.allocate(100, 4);
    let c = heap.allocate(100, 4);
    let b = heap.allocate(100, 4);
    let a = heap.allocate(100, 4);
    let root = heap.free_segments()[0].1.size;
    // neither neighbour free: a node of its own
    heap.deallocate(c);
    assert_eq!(free_list(&heap, BASE), vec![(0, root), (c - HEADER_SIZE - BASE, 100)]);
    // the segment above is free: forward merge
    heap.deallocate(b);
    assert_eq!(
        free_list(&heap, BASE),
        vec![(0, root), (b - HEADER_SIZE - BASE, 200 + HEADER_SIZE)]
    );
    // the segments below and above are free: both merges
    heap.deallocate(a);
    assert_eq!(free_list(&heap, BASE), vec![(0, root + 3 * (100 + HEADER_SIZE))]);
    // the segment below is free: backward merge
    heap.deallocate(d);
    assert_eq!(free_list(&heap, BASE), vec![(0, 4096)]);
}

#[test]
fn pointers_are_aligned_for_every_power_of_two() {
    let usable = 1 << 14;
    let mut align = 1;
    while align <= usable {
        let mut heap = heap_at(BASE, usable);
        if let Some(ptr) = heap.try_allocate(24, align) {
            assert_eq!(ptr % align, 0, "alignment {}", align);
            assert!(ptr >= BASE + 2 * HEADER_SIZE);
            assert!(ptr + 24 <= BASE + HEADER_SIZE + usable);
            heap.deallocate(ptr);
            assert_eq!(free_list(&heap, BASE), vec![(0, usable)]);
        } else {
            // nothing aligned so lies far enough above the base
            let top = BASE + HEADER_SIZE + usable - 24;
            assert!(top - top % align < BASE + 2 * HEADER_SIZE);
        }
        align *= 2;
    }
}

#[test]
fn aligned_allocation_uses_the_padding_as_payload() {
    let mut heap = heap_at(BASE, 1000);
    // end = BASE + 1016; 1016 - 10 = 1006 above BASE, rounded down to 960
    let ptr = heap.allocate(10, 64);
    assert_eq!(ptr, BASE + 960);
    assert_eq!(free_list(&heap, BASE), vec![(0, 960 - 2 * HEADER_SIZE)]);
    heap.deallocate(ptr);
    assert_eq!(free_list(&heap, BASE), vec![(0, 1000)]);
}

#[test]
fn zero_sized_allocation_takes_a_header() {
    let mut heap = heap_at(BASE, 256);
    let ptr = heap.allocate(0, 1);
    assert_eq!(ptr, BASE + HEADER_SIZE + 256);
    assert_eq!(free_list(&heap, BASE), vec![(0, 256 - HEADER_SIZE)]);
    assert!(heap.is_allocated(ptr));
    heap.deallocate(ptr);
    assert_eq!(free_list(&heap, BASE), vec![(0, 256)]);
}

#[test]
fn exhaustion_leaves_the_heap_as_it_was() {
    let mut heap = heap_at(BASE, 1024);
    let kept = heap.allocate(300, 8);
    let before = heap.free_segments();
    let largest = before.iter().map(|(_, segment)| segment.size).max().unwrap();
    assert_eq!(heap.find_fit(largest + 1, 1), None);
    assert_eq!(heap.try_allocate(largest + 1, 1), None);
    assert_eq!(heap.free_segments(), before);
    // the capacity itself does not fit either: the new header needs room
    assert_eq!(heap.try_allocate(largest, 1), None);
    assert_eq!(heap.try_allocate(largest - HEADER_SIZE + 1, 1), None);
    assert_eq!(heap.free_segments(), before);
    assert!(heap.is_allocated(kept));
    // what fits exactly empties the root node and keeps it in the list
    let all = heap.try_allocate(largest - HEADER_SIZE, 1).unwrap();
    assert_eq!(all, BASE + 2 * HEADER_SIZE);
    assert_eq!(heap.free_segments(), vec![(BASE, FreeSegment { size: 0, next_segment: None })]);
    assert_eq!(heap.try_allocate(0, 1), None);
}

#[test]
fn is_allocated_knows_live_payloads_only() {
    let mut heap = heap_at(BASE, 1024);
    let a = heap.allocate(100, 4);
    let b = heap.allocate(50, 4);
    assert!(heap.is_allocated(a));
    assert!(heap.is_allocated(b));
    assert!(!heap.is_allocated(a + 4));
    assert!(!heap.is_allocated(BASE + HEADER_SIZE));
    assert!(!heap.is_allocated(BASE));
    assert!(!heap.is_allocated(0));
    assert!(!heap.is_allocated(usize::MAX));
    heap.deallocate(a);
    assert!(!heap.is_allocated(a));
    assert!(heap.is_allocated(b));
    heap.deallocate(b);
    assert!(!heap.is_allocated(b));
}
