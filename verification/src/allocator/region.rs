//! Where the heap goes: the room behind the kernel image, in the region of
//! the memory map that the kernel was loaded into.

use crate::allocator::model::HEADER_SIZE;
use crate::multiboot::MultibootMmapEntry;
use vstd::prelude::*;

verus! {

/// How far into its region the boot loader places the kernel image.
pub const KERNEL_OFFSET: u64 = 0x10_0000;

/// Whether `region` is the one that the kernel was loaded into.
pub open spec fn holds_kernel(region: MultibootMmapEntry, kernel_start: u64) -> bool {
    region.addr + KERNEL_OFFSET == kernel_start
}

/// Index of the first region of the memory map that holds the kernel.
pub fn find_big_block(regions: &[MultibootMmapEntry], kernel_start: u64) -> (found: Option<usize>)
    ensures
        match found {
            Some(i) => {
                &&& i < regions@.len()
                &&& holds_kernel(regions@[i as int], kernel_start)
                &&& forall|j: int|
                    0 <= j < i ==> !holds_kernel(#[trigger] regions@[j], kernel_start)
                &&& spec_find_big_block(regions@, kernel_start) == Some(i as int)
            },
            None => {
                &&& forall|j: int|
                    0 <= j < regions@.len() ==> !holds_kernel(#[trigger] regions@[j], kernel_start)
                &&& spec_find_big_block(regions@, kernel_start) is None
            },
        },
{
    if kernel_start < KERNEL_OFFSET {
        return None;
    }
    let wanted = kernel_start - KERNEL_OFFSET;
    let mut i: usize = 0;
    while i < regions.len()
        invariant
            i <= regions@.len(),
            wanted + KERNEL_OFFSET == kernel_start,
            forall|j: int| 0 <= j < i ==> !holds_kernel(#[trigger] regions@[j], kernel_start),
        decreases regions@.len() - i,
    {
        if regions[i].addr == wanted {
            proof {
                lemma_find_big_block(regions@, kernel_start, i as int);
            }
            return Some(i);
        }
        i += 1;
    }
    None
}

/// The heap that fits behind the kernel image in `region`: the address of
/// its first header and the bytes that follow that header. Nothing where the
/// image does not end inside the region, where no header fits behind it, or
/// where the region ends beyond the address space.
pub open spec fn spec_heap_extent(region: MultibootMmapEntry, kernel_end: u64) -> Option<
    (usize, usize),
> {
    let reserved = kernel_end - region.addr;
    let usable = region.len - reserved - HEADER_SIZE;
    if reserved >= 0 && usable >= 0 && region.addr + region.len <= usize::MAX {
        Some((kernel_end as usize, usable as usize))
    } else {
        None
    }
}

/// Computes the heap that fits behind the kernel image in `region`.
pub fn heap_extent(region: &MultibootMmapEntry, kernel_end: u64) -> (extent: Option<(usize, usize)>)
    ensures
        extent == spec_heap_extent(*region, kernel_end),
{
    if kernel_end < region.addr {
        return None;
    }
    let reserved_memory = kernel_end - region.addr;
    if region.len < reserved_memory {
        return None;
    }
    let left = region.len - reserved_memory;
    if kernel_end > usize::MAX as u64 {
        return None;
    }
    if left < HEADER_SIZE as u64 || left > usize::MAX as u64 - kernel_end {
        return None;
    }
    Some((kernel_end as usize, left as usize - HEADER_SIZE))
}

/// Index of the first region of `regions` that holds the kernel.
pub open spec fn spec_find_big_block(regions: Seq<MultibootMmapEntry>, kernel_start: u64) -> Option<
    int,
> {
    if exists|i: int| 0 <= i < regions.len() && holds_kernel(#[trigger] regions[i], kernel_start) {
        Some(
            choose|i: int|
                0 <= i < regions.len() && holds_kernel(#[trigger] regions[i], kernel_start)
                    && forall|j: int|
                    0 <= j < i ==> !holds_kernel(#[trigger] regions[j], kernel_start),
        )
    } else {
        None
    }
}

/// The first region that holds the kernel is the only index with nothing
/// of its kind below it.
pub proof fn lemma_find_big_block(regions: Seq<MultibootMmapEntry>, kernel_start: u64, i: int)
    requires
        0 <= i < regions.len(),
        holds_kernel(regions[i], kernel_start),
        forall|j: int| 0 <= j < i ==> !holds_kernel(#[trigger] regions[j], kernel_start),
    ensures
        spec_find_big_block(regions, kernel_start) == Some(i),
{
    let first = choose|i: int|
        0 <= i < regions.len() && holds_kernel(#[trigger] regions[i], kernel_start) && forall|
            j: int,
        | 0 <= j < i ==> !holds_kernel(#[trigger] regions[j], kernel_start);
    if first < i {
        assert(!holds_kernel(regions[first], kernel_start));
    }
    if i < first {
        assert(!holds_kernel(regions[i], kernel_start));
    }
}

/// The heap that `init` sets up from a memory map, where it can: the one
/// behind the kernel image in the first region that holds the kernel.
pub open spec fn spec_locate_heap(
    regions: Seq<MultibootMmapEntry>,
    kernel_start: u64,
    kernel_end: u64,
) -> Option<(usize, usize)> {
    match spec_find_big_block(regions, kernel_start) {
        Some(i) => spec_heap_extent(regions[i], kernel_end),
        None => None,
    }
}

/// Finds the region that holds the kernel and computes the heap behind the
/// kernel image: the address of its first header and the bytes that follow
/// that header.
pub fn locate_heap(regions: &[MultibootMmapEntry], kernel_start: u64, kernel_end: u64) -> (extent:
    Option<(usize, usize)>)
    ensures
        extent == spec_locate_heap(regions@, kernel_start, kernel_end),
{
    match find_big_block(regions, kernel_start) {
        Some(i) => heap_extent(&regions[i], kernel_end),
        None => None,
    }
}

} // verus!
