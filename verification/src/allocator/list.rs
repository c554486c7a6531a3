//! How the free list threads through the heap: every free segment's link
//! names the next free segment above it.

use crate::allocator::model::{is_free, lemma_bounded, lemma_ordered, Heap, Segment};
use vstd::prelude::*;

verus! {

/// Index of the first free segment at or after `from`; the number of
/// segments where there is none.
pub open spec fn next_free(h: Heap, from: int) -> int
    decreases h.len() - from,
{
    if from < 0 || from >= h.len() {
        h.len()
    } else if h.segments[from].free {
        from
    } else {
        next_free(h, from + 1)
    }
}

/// The link that points at segment `i`: its header's address, or nothing
/// where `i` is past the last segment.
pub open spec fn link_to(h: Heap, i: int) -> Option<int> {
    if 0 <= i < h.len() {
        Some(h.segments[i].addr)
    } else {
        None
    }
}

/// The link that a free segment at index `i` must hold.
pub open spec fn link_after(h: Heap, i: int) -> Option<int> {
    link_to(h, next_free(h, i + 1))
}

/// A link as it is stored: the null address stands for no link.
pub open spec fn encode_link(link: Option<int>) -> int {
    match link {
        Some(addr) => addr,
        None => 0,
    }
}

/// A link as it is read back from memory.
pub open spec fn decode_link(word: int) -> Option<usize> {
    if word == 0 {
        None
    } else {
        Some(word as usize)
    }
}

/// An exec link as a link of the model.
pub open spec fn link_int(link: Option<usize>) -> Option<int> {
    match link {
        Some(addr) => Some(addr as int),
        None => None,
    }
}

/// A stored link reads back as the link it stands for.
pub proof fn lemma_link_round_trip(h: Heap, i: int)
    requires
        h.linked(),
        h.end() <= usize::MAX,
        0 <= i < h.len(),
    ensures
        link_int(decode_link(encode_link(link_after(h, i)))) == link_after(h, i),
        0 <= encode_link(link_after(h, i)) <= usize::MAX,
{
    lemma_next_free(h, i + 1);
    let m = next_free(h, i + 1);
    if m < h.len() {
        lemma_ordered(h, 0, m);
        lemma_bounded(h, m);
    }
}

/// What `next_free` returns.
pub proof fn lemma_next_free(h: Heap, from: int)
    requires
        0 <= from <= h.len(),
    ensures
        from <= next_free(h, from) <= h.len(),
        next_free(h, from) < h.len() ==> h.segments[next_free(h, from)].free,
        forall|x: int| from <= x < next_free(h, from) ==> !(#[trigger] h.segments[x]).free,
    decreases h.len() - from,
{
    if from < h.len() && !h.segments[from].free {
        lemma_next_free(h, from + 1);
    }
}

/// Any index that has these properties is the one `next_free` returns.
pub proof fn lemma_next_free_is(h: Heap, from: int, m: int)
    requires
        0 <= from <= m <= h.len(),
        m < h.len() ==> h.segments[m].free,
        forall|x: int| from <= x < m ==> !(#[trigger] h.segments[x]).free,
    ensures
        next_free(h, from) == m,
    decreases h.len() - from,
{
    if from < m {
        assert(!h.segments[from].free);
        lemma_next_free_is(h, from + 1, m);
    }
}

/// Carving a used segment from the top of the free segment `k` changes no
/// link: every free segment still points at the same address.
pub proof fn lemma_carve_links(h: Heap, k: int, header: int)
    requires
        0 <= k < h.len(),
        h.segments[k].free,
    ensures
        h.carve(k, header).len() == h.len() + 1,
        forall|i: int|
            0 <= i <= k ==> #[trigger] link_after(h.carve(k, header), i) == link_after(h, i),
        forall|i: int|
            k < i < h.len() ==> #[trigger] link_after(h.carve(k, header), i + 1) == link_after(
                h,
                i,
            ),
{
    let c = h.carve(k, header);
    assert forall|i: int| 0 <= i <= k implies #[trigger] link_after(c, i) == link_after(h, i) by {
        lemma_next_free(h, i + 1);
        let m = next_free(h, i + 1);
        if i < k {
            assert(m <= k) by {
                if m > k {
                    assert(!h.segments[k].free);
                }
            }
            assert forall|x: int| i + 1 <= x < m implies !(#[trigger] c.segments[x]).free by {
                assert(c.segments[x] == h.segments[x]);
            }
            lemma_next_free_is(c, i + 1, m);
        } else {
            assert forall|x: int| i + 1 <= x < m + 1 implies !(#[trigger] c.segments[x]).free by {
                if x > k + 1 {
                    assert(c.segments[x] == h.segments[x - 1]);
                }
            }
            if m < h.len() {
                assert(c.segments[m + 1] == h.segments[m]);
            }
            lemma_next_free_is(c, i + 1, m + 1);
        }
    }
    assert forall|i: int| k < i < h.len() implies #[trigger] link_after(c, i + 1) == link_after(
        h,
        i,
    ) by {
        lemma_next_free(h, i + 1);
        let m = next_free(h, i + 1);
        assert forall|x: int| i + 2 <= x < m + 1 implies !(#[trigger] c.segments[x]).free by {
            assert(c.segments[x] == h.segments[x - 1]);
        }
        if m < h.len() {
            assert(c.segments[m + 1] == h.segments[m]);
        }
        lemma_next_free_is(c, i + 2, m + 1);
    }
}

/// Marking the used segment `i` free, where `c` is the nearest free segment
/// below it: `c` now points at `i`, `i` points where `c` pointed, and no other
/// link changes.
pub proof fn lemma_release_links(h: Heap, c: int, i: int)
    requires
        0 <= c < i < h.len(),
        h.segments[c].free,
        forall|x: int| c < x <= i ==> !(#[trigger] h.segments[x]).free,
    ensures
        h.release(i).len() == h.len(),
        link_after(h.release(i), c) == Some(h.segments[i].addr),
        link_after(h.release(i), i) == link_after(h, c),
        forall|x: int|
            0 <= x < h.len() && (x < c || x > i) ==> #[trigger] link_after(h.release(i), x)
                == link_after(h, x),
{
    let r = h.release(i);
    assert forall|x: int| c + 1 <= x < i implies !(#[trigger] r.segments[x]).free by {
        assert(r.segments[x] == h.segments[x]);
    }
    lemma_next_free_is(r, c + 1, i);
    lemma_next_free(h, c + 1);
    lemma_next_free(h, i + 1);
    let m = next_free(h, i + 1);
    assert forall|x: int| c + 1 <= x < m implies !(#[trigger] h.segments[x]).free by {}
    lemma_next_free_is(h, c + 1, m);
    assert forall|x: int| i + 1 <= x < m implies !(#[trigger] r.segments[x]).free by {
        assert(r.segments[x] == h.segments[x]);
    }
    lemma_next_free_is(r, i + 1, m);
    assert forall|x: int| 0 <= x < h.len() && (x < c || x > i) implies #[trigger] link_after(r, x)
        == link_after(h, x) by {
        lemma_next_free(h, x + 1);
        let n = next_free(h, x + 1);
        if x < c {
            assert(n <= c) by {
                if n > c {
                    assert(!h.segments[c].free);
                }
            }
        }
        assert forall|y: int| x + 1 <= y < n implies !(#[trigger] r.segments[y]).free by {
            assert(r.segments[y] == h.segments[y]);
        }
        lemma_next_free_is(r, x + 1, n);
    }
}

/// Merging the free segment `j + 1` into the free segment `j`: `j` now
/// points where `j + 1` pointed, and no other link changes.
pub proof fn lemma_merge_links(h: Heap, j: int)
    requires
        0 <= j,
        j + 1 < h.len(),
        h.segments[j].free,
    ensures
        h.merge(j).len() == h.len() - 1,
        link_after(h.merge(j), j) == link_after(h, j + 1),
        forall|x: int| 0 <= x < j ==> #[trigger] link_after(h.merge(j), x) == link_after(h, x),
        forall|x: int|
            j + 1 < x < h.len() ==> #[trigger] link_after(h.merge(j), x - 1) == link_after(h, x),
{
    let g = h.merge(j);
    assert forall|x: int| 0 <= x < j implies #[trigger] link_after(g, x) == link_after(h, x) by {
        lemma_next_free(h, x + 1);
        let n = next_free(h, x + 1);
        assert(n <= j) by {
            if n > j {
                assert(!h.segments[j].free);
            }
        }
        assert forall|y: int| x + 1 <= y < n implies !(#[trigger] g.segments[y]).free by {
            assert(g.segments[y] == h.segments[y]);
        }
        lemma_next_free_is(g, x + 1, n);
    }
    assert forall|x: int| j + 1 <= x < h.len() implies #[trigger] link_after(g, x - 1)
        == link_after(h, x) by {
        lemma_next_free(h, x + 1);
        let n = next_free(h, x + 1);
        assert forall|y: int| x <= y < n - 1 implies !(#[trigger] g.segments[y]).free by {
            assert(g.segments[y] == h.segments[y + 1]);
        }
        if n < h.len() {
            assert(g.segments[n - 1] == h.segments[n]);
        }
        lemma_next_free_is(g, x, n - 1);
    }
    assert(link_after(g, (j + 1) - 1) == link_after(h, j + 1));
}

/// Walking from the free segment `k` to the next free segment `m` adds
/// segment `k`, and nothing else, to the free segments seen so far.
pub proof fn lemma_free_prefix(h: Heap, k: int, m: int)
    requires
        0 <= k < m <= h.len(),
        h.segments[k].free,
        forall|x: int| k < x < m ==> !(#[trigger] h.segments[x]).free,
    ensures
        h.segments.take(m).filter(is_free()) == h.segments.take(k).filter(is_free()).push(
            h.segments[k],
        ),
    decreases m - k,
{
    reveal(Seq::filter);
    assert(h.segments.take(m).drop_last() =~= h.segments.take(m - 1));
    assert(h.segments.take(m).last() == h.segments[m - 1]);
    if m > k + 1 {
        assert(!h.segments[m - 1].free);
        lemma_free_prefix(h, k, m - 1);
    }
}

/// Before the first free segment there are no free segments.
pub proof fn lemma_free_prefix_empty(h: Heap, m: int)
    requires
        0 <= m <= h.len(),
        forall|x: int| 0 <= x < m ==> !(#[trigger] h.segments[x]).free,
    ensures
        h.segments.take(m).filter(is_free()) == Seq::<Segment>::empty(),
    decreases m,
{
    reveal(Seq::filter);
    if m > 0 {
        assert(h.segments.take(m).drop_last() =~= h.segments.take(m - 1));
        assert(h.segments.take(m).last() == h.segments[m - 1]);
        assert(!h.segments[m - 1].free);
        lemma_free_prefix_empty(h, m - 1);
    }
}

} // verus!
