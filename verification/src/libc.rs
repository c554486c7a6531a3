//! The three memory routines that the compiler expects to find, on slices.

use vstd::prelude::*;

verus! {

/// Fills the first `size` bytes of `ptr` with `character`.
pub fn memset(ptr: &mut [u8], character: u8, size: usize)
    requires
        size <= old(ptr)@.len(),
    ensures
        final(ptr)@.len() == old(ptr)@.len(),
        forall|i: int| 0 <= i < size ==> final(ptr)@[i] == character,
        forall|i: int| size <= i < old(ptr)@.len() ==> final(ptr)@[i] == old(ptr)@[i],
{
    let mut index: usize = 0;
    while index < size
        invariant
            index <= size <= ptr@.len(),
            ptr@.len() == old(ptr)@.len(),
            forall|i: int| 0 <= i < index ==> ptr@[i] == character,
            forall|i: int| index <= i < ptr@.len() ==> ptr@[i] == old(ptr)@[i],
        decreases size - index,
    {
        ptr[index] = character;
        index += 1;
    }
}

/// Copies the first `size` bytes of `src` to `dest`.
pub fn memcpy(dest: &mut [u8], src: &[u8], size: usize)
    requires
        size <= old(dest)@.len(),
        size <= src@.len(),
    ensures
        final(dest)@.len() == old(dest)@.len(),
        forall|i: int| 0 <= i < size ==> final(dest)@[i] == src@[i],
        forall|i: int| size <= i < old(dest)@.len() ==> final(dest)@[i] == old(dest)@[i],
{
    let mut index: usize = 0;
    while index < size
        invariant
            index <= size <= dest@.len(),
            size <= src@.len(),
            dest@.len() == old(dest)@.len(),
            forall|i: int| 0 <= i < index ==> dest@[i] == src@[i],
            forall|i: int| index <= i < dest@.len() ==> dest@[i] == old(dest)@[i],
        decreases size - index,
    {
        dest[index] = src[index];
        index += 1;
    }
}

/// Index of the first byte, from index `from` up to `size`, in which `a`
/// and `b` differ; `size` where they agree.
pub open spec fn first_difference(a: Seq<u8>, b: Seq<u8>, size: usize, from: usize) -> int
    decreases size - from,
{
    if from >= size || from >= a.len() || from >= b.len() {
        size as int
    } else if a[from as int] != b[from as int] {
        from as int
    } else {
        first_difference(a, b, size, (from + 1) as usize)
    }
}

/// How the first `size` bytes of `a` stand to those of `b`: -1 where `a` has
/// the smaller byte at the first place where they differ, 1 where it has the
/// larger, 0 where they do not differ.
pub open spec fn byte_order(a: Seq<u8>, b: Seq<u8>, size: usize) -> i8 {
    let at = first_difference(a, b, size, 0);
    if at == size {
        0i8
    } else if a[at] < b[at] {
        -1i8
    } else {
        1i8
    }
}

/// Compares the first `size` bytes of two strings.
pub fn memcmp(string1: &[u8], string2: &[u8], size: usize) -> (order: i8)
    requires
        size <= string1@.len(),
        size <= string2@.len(),
    ensures
        order == byte_order(string1@, string2@, size),
{
    let mut index: usize = 0;
    while index < size
        invariant
            index <= size,
            size <= string1@.len(),
            size <= string2@.len(),
            first_difference(string1@, string2@, size, 0) == first_difference(
                string1@,
                string2@,
                size,
                index,
            ),
        decreases size - index,
    {
        if string1[index] < string2[index] {
            return -1;
        } else if string1[index] > string2[index] {
            return 1;
        }
        index += 1;
    }

    0
}

} // verus!
