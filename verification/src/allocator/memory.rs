//! The heap's bytes: headers are stored in place as little-endian words.

use vstd::bytes::{
    lemma_auto_spec_u64_to_from_le_bytes, spec_u64_from_le_bytes, spec_u64_to_le_bytes,
    u64_from_le_bytes, u64_to_le_bytes,
};
use vstd::prelude::*;
use vstd::slice::slice_subrange;

verus! {

/// Bytes in one stored word.
pub const WORD_SIZE: usize = 8;

/// The word stored in the eight bytes of `mem` that start at `off`.
pub open spec fn word_at(mem: Seq<u8>, off: int) -> u64 {
    spec_u64_from_le_bytes(mem.subrange(off, off + WORD_SIZE))
}

/// `mem` with the word `x` stored in the eight bytes that start at `off`.
pub open spec fn with_word(mem: Seq<u8>, off: int, x: u64) -> Seq<u8> {
    Seq::new(
        mem.len(),
        |i: int|
            if off <= i < off + WORD_SIZE {
                spec_u64_to_le_bytes(x)[i - off]
            } else {
                mem[i]
            },
    )
}

/// A stored word reads back as it was written.
pub proof fn lemma_word_written(mem: Seq<u8>, off: int, x: u64)
    requires
        0 <= off,
        off + WORD_SIZE <= mem.len(),
    ensures
        word_at(with_word(mem, off, x), off) == x,
        with_word(mem, off, x).len() == mem.len(),
{
    lemma_auto_spec_u64_to_from_le_bytes();
    assert(with_word(mem, off, x).subrange(off, off + WORD_SIZE) =~= spec_u64_to_le_bytes(x));
}

/// Storing a word leaves every word that does not overlap it as it was.
pub proof fn lemma_word_kept(mem: Seq<u8>, off: int, x: u64, other: int)
    requires
        0 <= other,
        other + WORD_SIZE <= mem.len(),
        other + WORD_SIZE <= off || off + WORD_SIZE <= other,
    ensures
        word_at(with_word(mem, off, x), other) == word_at(mem, other),
{
    assert(with_word(mem, off, x).subrange(other, other + WORD_SIZE) =~= mem.subrange(
        other,
        other + WORD_SIZE,
    ));
}

/// The same, for all words at once.
pub proof fn lemma_words_kept(mem: Seq<u8>, off: int, x: u64)
    ensures
        forall|other: int|
            0 <= other && other + WORD_SIZE <= mem.len() && (other + WORD_SIZE <= off || off
                + WORD_SIZE <= other) ==> #[trigger] word_at(with_word(mem, off, x), other)
                == word_at(mem, other),
{
    assert forall|other: int|
        0 <= other && other + WORD_SIZE <= mem.len() && (other + WORD_SIZE <= off || off
            + WORD_SIZE <= other) implies #[trigger] word_at(with_word(mem, off, x), other)
        == word_at(mem, other) by {
        lemma_word_kept(mem, off, x, other);
    }
}

/// Reads the word at `off`.
pub fn load_word(mem: &Vec<u8>, off: usize) -> (x: u64)
    requires
        off + WORD_SIZE <= mem.len(),
    ensures
        x == word_at(mem@, off as int),
{
    let bytes = slice_subrange(mem.as_slice(), off, off + WORD_SIZE);
    u64_from_le_bytes(bytes)
}

/// Writes the word `x` at `off`.
pub fn store_word(mem: &mut Vec<u8>, off: usize, x: u64)
    requires
        off + WORD_SIZE <= old(mem).len(),
    ensures
        final(mem)@ == with_word(old(mem)@, off as int, x),
{
    let bytes = u64_to_le_bytes(x);
    let mut i: usize = 0;
    while i < WORD_SIZE
        invariant
            i <= WORD_SIZE,
            bytes@ == spec_u64_to_le_bytes(x),
            bytes@.len() == WORD_SIZE,
            mem.len() == old(mem).len(),
            off + WORD_SIZE <= mem.len(),
            forall|j: int|
                0 <= j < mem.len() ==> #[trigger] mem@[j] == if off <= j < off + i {
                    spec_u64_to_le_bytes(x)[j - off]
                } else {
                    old(mem)@[j]
                },
        decreases WORD_SIZE - i,
    {
        mem[off + i] = bytes[i];
        i += 1;
    }
    assert(mem@ =~= with_word(old(mem)@, off as int, x));
}

} // verus!
