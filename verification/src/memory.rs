//! Physical page allocator.
//!
//! Free physical memory is kept as a set of contiguous segments ordered by
//! base address; adjacent free segments are always coalesced, so the free
//! list never holds two segments `(a, b)` with `a.base + a.size == b.base`.
//! Two disjoint arenas exist, one for small (4 KiB) and one for large
//! (2 MiB) pages; a registered span is split so that the portion aligned to
//! large-page boundaries is donated to the large arena and the unaligned
//! tails to the small arena.

use vstd::prelude::*;
use vstd::pervasive::VecAdditionalExecFns;
use crate::{PAGE_SIZE_SMALL, PAGE_SIZE_LARGE, align_up, align_down};

verus! {

/// A contiguous span of free physical memory.
#[derive(Clone, Copy, Debug, PartialEq, Eq, Structural)]
pub struct MemorySegment {
    /// Base address of the memory segment.
    pub base: u64,
    /// Size of the memory segment in bytes.
    pub size: u64,
}

/// The free list is sorted by base address, every segment is non-empty and
/// ends within the address space, and no two segments touch or overlap.
pub open spec fn arena_wf(s: Seq<MemorySegment>) -> bool {
    &&& forall|i: int|
        0 <= i < s.len() ==> (#[trigger] s[i]).size > 0 && s[i].base + s[i].size <= u64::MAX
    &&& forall|i: int|
        0 <= i < s.len() - 1 ==> (#[trigger] s[i]).base + s[i].size < s[i + 1].base
}

/// Whether address `a` lies in some free segment of `s`.
pub open spec fn arena_covers(s: Seq<MemorySegment>, a: int) -> bool {
    exists|i: int| 0 <= i < s.len() && (#[trigger] s[i]).base <= a < s[i].base + s[i].size
}

/// Whether no address of `[lo, hi)` lies in a free segment of `s`.
pub open spec fn range_free(s: Seq<MemorySegment>, lo: int, hi: int) -> bool {
    forall|a: int| lo <= a < hi ==> !arena_covers(s, a)
}

/// Sum of the sizes of all free segments.
pub open spec fn arena_total(s: Seq<MemorySegment>) -> int
    decreases s.len(),
{
    if s.len() == 0 {
        0
    } else {
        arena_total(s.drop_last()) + s.last().size
    }
}

/// In a well-formed arena, segments further right start strictly after the
/// end of segments further left.
pub proof fn lemma_arena_sorted(s: Seq<MemorySegment>, i: int, j: int)
    requires
        arena_wf(s),
        0 <= i < j < s.len(),
    ensures
        s[i].base + s[i].size < s[j].base,
    decreases j - i,
{
    if j == i + 1 {
    } else {
        lemma_arena_sorted(s, i, j - 1);
    }
}

pub proof fn lemma_total_remove(s: Seq<MemorySegment>, i: int)
    requires
        0 <= i < s.len(),
    ensures
        arena_total(s.remove(i)) == arena_total(s) - s[i].size,
    decreases s.len(),
{
    if i == s.len() - 1 {
        assert(s.remove(i) =~= s.drop_last());
    } else {
        assert(s.remove(i).drop_last() =~= s.drop_last().remove(i));
        lemma_total_remove(s.drop_last(), i);
    }
}

pub proof fn lemma_total_insert(s: Seq<MemorySegment>, i: int, v: MemorySegment)
    requires
        0 <= i <= s.len(),
    ensures
        arena_total(s.insert(i, v)) == arena_total(s) + v.size,
{
    assert(s.insert(i, v).remove(i) =~= s);
    lemma_total_remove(s.insert(i, v), i);
}

/// Removing a segment from a well-formed arena leaves it well-formed.
pub proof fn lemma_wf_remove(s: Seq<MemorySegment>, k: int)
    requires
        arena_wf(s),
        0 <= k < s.len(),
    ensures
        arena_wf(s.remove(k)),
{
    let t = s.remove(k);
    assert forall|i: int|
        0 <= i < t.len() implies (#[trigger] t[i]).size > 0 && t[i].base + t[i].size
        <= u64::MAX by {
        if i < k {
            assert(t[i] == s[i]);
        } else {
            assert(t[i] == s[i + 1]);
        }
    }
    assert forall|i: int|
        0 <= i < t.len() - 1 implies (#[trigger] t[i]).base + t[i].size < t[i + 1].base by {
        if i < k - 1 {
            assert(t[i] == s[i] && t[i + 1] == s[i + 1]);
        } else if i == k - 1 {
            assert(t[i] == s[k - 1] && t[i + 1] == s[k + 1]);
            lemma_arena_sorted(s, k - 1, k + 1);
        } else {
            assert(t[i] == s[i + 1] && t[i + 1] == s[i + 2]);
        }
    }
}

/// Removing a segment from a well-formed arena removes exactly that
/// segment's addresses from the covered set.
pub proof fn lemma_covers_remove(s: Seq<MemorySegment>, k: int)
    requires
        arena_wf(s),
        0 <= k < s.len(),
    ensures
        forall|a: int|
            arena_covers(s.remove(k), a) <==> (arena_covers(s, a) && !(s[k].base <= a < s[k].base
                + s[k].size)),
{
    let t = s.remove(k);
    assert forall|a: int|
        arena_covers(t, a) implies (arena_covers(s, a) && !(s[k].base <= a < s[k].base
            + s[k].size)) by {
        let j = choose|j: int|
            0 <= j < t.len() && (#[trigger] t[j]).base <= a < t[j].base + t[j].size;
        let orig = if j < k { j } else { j + 1 };
        assert(t[j] == s[orig]);
        assert(arena_covers(s, a));
        if orig < k {
            lemma_arena_sorted(s, orig, k);
        } else {
            lemma_arena_sorted(s, k, orig);
        }
    }
    assert forall|a: int|
        arena_covers(s, a) && !(s[k].base <= a < s[k].base + s[k].size) implies arena_covers(
            t,
            a,
        ) by {
        let j = choose|j: int|
            0 <= j < s.len() && (#[trigger] s[j]).base <= a < s[j].base + s[j].size;
        assert(j != k);
        if j < k {
            assert(t[j] == s[j]);
            assert(t[j].base <= a < t[j].base + t[j].size);
        } else {
            assert(t[j - 1] == s[j]);
            assert(t[j - 1].base <= a < t[j - 1].base + t[j - 1].size);
        }
    }
}

/// A covered address lies strictly below the top of the address space.
pub proof fn lemma_covered_bounded(s: Seq<MemorySegment>, a: int)
    requires
        arena_wf(s),
        arena_covers(s, a),
    ensures
        0 <= a < u64::MAX,
{
    let i = choose|i: int|
        0 <= i < s.len() && (#[trigger] s[i]).base <= a < s[i].base + s[i].size;
    assert(a < s[i].base + s[i].size);
}

pub proof fn lemma_total_update(s: Seq<MemorySegment>, i: int, v: MemorySegment)
    requires
        0 <= i < s.len(),
    ensures
        arena_total(s.update(i, v)) == arena_total(s) - s[i].size + v.size,
{
    assert(s.update(i, v) =~= s.remove(i).insert(i, v));
    lemma_total_remove(s, i);
    lemma_total_insert(s.remove(i), i, v);
}

/// A memory arena: a collection of free memory segments ordered by base
/// address, with adjacent segments coalesced.
pub struct MemoryArena {
    segments: Vec<MemorySegment>,
}

impl View for MemoryArena {
    type V = Seq<MemorySegment>;

    closed spec fn view(&self) -> Seq<MemorySegment> {
        self.segments@
    }
}

impl MemoryArena {
    pub open spec fn wf(&self) -> bool {
        arena_wf(self@)
    }

    /// Sum of the sizes of all free segments in this arena.
    pub open spec fn total(&self) -> int {
        arena_total(self@)
    }

    /// Whether address `a` is free in this arena.
    pub open spec fn covers(&self, a: int) -> bool {
        arena_covers(self@, a)
    }

    /// Constructs a new, empty arena.
    pub fn new() -> (r: MemoryArena)
        ensures
            r@ =~= Seq::<MemorySegment>::empty(),
            r.wf(),
            r.total() == 0,
    {
        MemoryArena { segments: Vec::new() }
    }

    /// Number of free segments.
    pub fn num_segments(&self) -> (r: usize)
        ensures
            r == self@.len(),
    {
        self.segments.len()
    }

    /// The free segment at position `i`, in base-address order.
    pub fn segment_at(&self, i: usize) -> (r: MemorySegment)
        requires
            i < self@.len(),
        ensures
            r == self@[i as int],
    {
        self.segments[i]
    }

    /// Allocates `size` bytes from the head segment: returns its base and
    /// splits off the remainder, or fails when the arena is empty or the
    /// head segment is smaller than the request.
    pub fn allocate(&mut self, size: u64) -> (r: Option<u64>)
        requires
            old(self).wf(),
            size > 0,
        ensures
            final(self).wf(),
            r is None ==> final(self)@ == old(self)@ && (old(self)@.len() == 0
                || old(self)@[0].size < size),
            r matches Some(p) ==> {
                &&& old(self)@.len() > 0 && old(self)@[0].size >= size
                &&& p == old(self)@[0].base
                &&& (old(self)@[0].size > size ==> final(self)@ == old(self)@.update(
                    0,
                    MemorySegment {
                        base: (old(self)@[0].base + size) as u64,
                        size: (old(self)@[0].size - size) as u64,
                    },
                ))
                &&& (old(self)@[0].size == size ==> final(self)@ == old(self)@.remove(0))
                &&& final(self).total() == old(self).total() - size
                &&& forall|a: int|
                    final(self).covers(a) <==> (old(self).covers(a) && !(p <= a < p + size))
                &&& forall|a: int| p <= a < p + size ==> old(self).covers(a)
            },
    {
        if self.segments.len() == 0 {
            return None;
        }
        let head = self.segments[0];
        if head.size < size {
            return None;
        }
        let p = head.base;
        let ghost s = self.segments@;
        if head.size == size {
            self.segments.remove(0);
            proof {
                lemma_total_remove(s, 0);
                assert(self@ =~= s.remove(0));
                assert forall|a: int|
                    self.covers(a) implies (arena_covers(s, a) && !(p <= a < p + size)) by {
                    let i = choose|i: int|
                        0 <= i < self@.len() && (#[trigger] self@[i]).base <= a < self@[i].base
                            + self@[i].size;
                    assert(self@[i] == s[i + 1]);
                    assert(arena_covers(s, a));
                    lemma_arena_sorted(s, 0, i + 1);
                }
                assert forall|a: int|
                    arena_covers(s, a) && !(p <= a < p + size) implies self.covers(a) by {
                    let i = choose|i: int|
                        0 <= i < s.len() && (#[trigger] s[i]).base <= a < s[i].base + s[i].size;
                    assert(i != 0);
                    assert(self@[i - 1] == s[i]);
                }
            }
            Some(p)
        } else {
            let nseg = MemorySegment { base: head.base + size, size: head.size - size };
            self.segments.set(0, nseg);
            proof {
                lemma_total_update(s, 0, nseg);
                assert(self@ =~= s.update(0, nseg));
                assert forall|a: int|
                    self.covers(a) implies (arena_covers(s, a) && !(p <= a < p + size)) by {
                    let i = choose|i: int|
                        0 <= i < self@.len() && (#[trigger] self@[i]).base <= a < self@[i].base
                            + self@[i].size;
                    if i == 0 {
                        assert(s[0].base <= a < s[0].base + s[0].size);
                        assert(arena_covers(s, a));
                    } else {
                        assert(self@[i] == s[i]);
                        assert(arena_covers(s, a));
                        lemma_arena_sorted(s, 0, i);
                    }
                }
                assert forall|a: int|
                    arena_covers(s, a) && !(p <= a < p + size) implies self.covers(a) by {
                    let i = choose|i: int|
                        0 <= i < s.len() && (#[trigger] s[i]).base <= a < s[i].base + s[i].size;
                    if i == 0 {
                        assert(self@[0].base <= a < self@[0].base + self@[0].size);
                    } else {
                        assert(self@[i].base <= a < self@[i].base + self@[i].size);
                    }
                }
            }
            Some(p)
        }
    }

    /// Returns the span `[addr, addr + size)` to the arena, coalescing with
    /// the neighbouring segment that ends at `addr` and the one that starts
    /// at `addr + size`.
    #[verifier::rlimit(100)]
    #[verifier::spinoff_prover]
    pub fn free(&mut self, addr: u64, size: u64)
        requires
            old(self).wf(),
            size > 0,
            addr + size <= u64::MAX,
            range_free(old(self)@, addr as int, addr + size),
        ensures
            final(self).wf(),
            final(self).total() == old(self).total() + size,
            forall|a: int|
                final(self).covers(a) <==> (old(self).covers(a) || addr <= a < addr + size),
    {
        let ghost s = self.segments@;
        let mut i: usize = 0;
        while i < self.segments.len() && self.segments[i].base < addr
            invariant
                self@ == s,
                arena_wf(s),
                i <= s.len(),
                forall|k: int| 0 <= k < i ==> (#[trigger] s[k]).base < addr,
            decreases s.len() - i,
        {
            i += 1;
        }
        proof {
            // Segments left of `i` end at or before `addr`; segments at or
            // right of `i` begin at or after `addr + size`.
            assert forall|k: int| 0 <= k < i implies (#[trigger] s[k]).base + s[k].size <= addr by {
                if s[k].base + s[k].size > addr {
                    assert(arena_covers(s, addr as int));
                }
            }
            assert forall|k: int|
                i <= k < s.len() implies (#[trigger] s[k]).base >= addr + size by {
                if k > i {
                    lemma_arena_sorted(s, i as int, k);
                }
                if s[k].base < addr + size {
                    assert(s[k].base <= s[k].base < s[k].base + s[k].size);
                    assert(arena_covers(s, s[k].base as int));
                }
            }
        }
        let ghost i0 = i as int;
        let mut new_base = addr;
        let mut new_size = size;
        // Coalesce with the segment that starts exactly at `addr + size`.
        if i < self.segments.len() {
            let next = self.segments[i];
            if next.base == addr + size {
                new_size = new_size + next.size;
                self.segments.remove(i);
            }
        }
        // Coalesce with the segment that ends exactly at `addr`.
        if i > 0 {
            let prev = self.segments[i - 1];
            if prev.base + prev.size == addr {
                new_base = prev.base;
                new_size = new_size + prev.size;
                self.segments.remove(i - 1);
                i = i - 1;
            }
        }
        let seg = MemorySegment { base: new_base, size: new_size };
        let ghost mnext = i0 < s.len() && s[i0].base == addr + size;
        let ghost mprev = i0 > 0 && s[i0 - 1].base + s[i0 - 1].size == addr;
        let ghost mid1 = if mnext { s.remove(i0) } else { s };
        let ghost mid = if mprev { mid1.remove(i0 - 1) } else { mid1 };
        proof {
            if mnext {
                lemma_wf_remove(s, i0);
                lemma_covers_remove(s, i0);
                lemma_total_remove(s, i0);
            }
            if mprev {
                if mnext {
                    assert(mid1[i0 - 1] == s[i0 - 1]);
                }
                lemma_wf_remove(mid1, i0 - 1);
                lemma_covers_remove(mid1, i0 - 1);
                lemma_total_remove(mid1, i0 - 1);
            }
            assert(self@ == mid);
            assert(i as int == if mprev { i0 - 1 } else { i0 });
            assert(seg.base == if mprev { s[i0 - 1].base as int } else { addr as int });
            assert(seg.base + seg.size == if mnext {
                s[i0].base + s[i0].size
            } else {
                addr + size
            });
            // Addresses of the new segment are the freed range plus the
            // ranges of the merged neighbours.
            assert forall|a: int|
                seg.base <= a < seg.base + seg.size implies (arena_covers(s, a) || addr <= a
                    < addr + size) by {
                if a < addr {
                    assert(mprev && s[i0 - 1].base <= a < s[i0 - 1].base + s[i0 - 1].size);
                    assert(arena_covers(s, a));
                } else if a >= addr + size {
                    assert(mnext && s[i0].base <= a < s[i0].base + s[i0].size);
                    assert(arena_covers(s, a));
                }
            }
            // What mid covers: everything s covered outside the new segment.
            assert forall|a: int|
                arena_covers(mid, a) <==> (arena_covers(s, a) && !(seg.base <= a < seg.base
                    + seg.size)) by {
                if arena_covers(mid, a) {
                    assert(arena_covers(mid1, a));
                    assert(arena_covers(s, a));
                    assert(!(addr <= a < addr + size));
                    if mprev {
                        assert(!(s[i0 - 1].base <= a < s[i0 - 1].base + s[i0 - 1].size));
                    }
                    if mnext {
                        assert(!(s[i0].base <= a < s[i0].base + s[i0].size));
                    }
                    assert(!(seg.base <= a < seg.base + seg.size));
                }
                if arena_covers(s, a) && !(seg.base <= a < seg.base + seg.size) {
                    assert(arena_covers(mid1, a));
                    assert(arena_covers(mid, a));
                }
            }
            // mid's prefix ends before the new segment, its suffix starts
            // after it.
            assert forall|k: int|
                0 <= k < i as int implies (#[trigger] mid[k]).base + mid[k].size < seg.base by {
                assert(mid[k] == s[k]);
                if mprev {
                    lemma_arena_sorted(s, k, i0 - 1);
                } else {
                    if k < i0 - 1 {
                        lemma_arena_sorted(s, k, i0 - 1);
                    }
                }
            }
            assert forall|k: int|
                i as int <= k < mid.len() implies (#[trigger] mid[k]).base > seg.base
                    + seg.size by {
                let shift: int = (if mnext { 1int } else { 0int }) + (if mprev { 1int } else { 0int });
                assert(mid[k] == s[k + shift]);
                let j = k + shift;
                if mnext {
                    assert(j > i0);
                    lemma_arena_sorted(s, i0, j);
                } else {
                    if j > i0 {
                        lemma_arena_sorted(s, i0, j);
                    }
                }
            }
        }
        self.segments.insert(i, seg);
        proof {
            lemma_total_insert(mid, i as int, seg);
            lemma_free_shape(s, mid, self@, i as int, addr as int, size as int, seg);
        }
    }
}

/// Where the large-page-aligned portion of a span beginning at `start`
/// begins.
pub open spec fn span_large_start(start: int) -> int {
    if start % (PAGE_SIZE_LARGE as int) == 0 {
        start
    } else {
        start + PAGE_SIZE_LARGE - start % (PAGE_SIZE_LARGE as int)
    }
}

/// Where the large-page-aligned portion of a span ending at `endv` ends.
pub open spec fn span_large_end(endv: int) -> int {
    endv - endv % (PAGE_SIZE_LARGE as int)
}

/// The pair of page arenas the kernel allocates physical pages from: one for
/// small (4 KiB) and one for large (2 MiB) pages.
pub struct MemoryPool {
    pub small: MemoryArena,
    pub large: MemoryArena,
}

impl MemoryPool {
    /// Both arenas are well-formed and no address is free in both.
    pub open spec fn wf(&self) -> bool {
        &&& self.small.wf()
        &&& self.large.wf()
        &&& forall|a: int| !(#[trigger] self.small.covers(a) && self.large.covers(a))
    }

    /// Whether address `a` is free in either arena.
    pub open spec fn covers(&self, a: int) -> bool {
        self.small.covers(a) || self.large.covers(a)
    }

    /// Sum of all free bytes over both arenas.
    pub open spec fn total(&self) -> int {
        self.small.total() + self.large.total()
    }

    pub fn new() -> (r: MemoryPool)
        ensures
            r.wf(),
            r.total() == 0,
            forall|a: int| !r.covers(a),
    {
        MemoryPool { small: MemoryArena::new(), large: MemoryArena::new() }
    }

    /// Registers the span `[start, start + size)` as free memory: the
    /// portion aligned to large-page boundaries is donated to the large
    /// arena, the unaligned tails to the small arena.
    pub fn add_span(&mut self, start: u64, size: u64)
        requires
            old(self).wf(),
            size > 0,
            start + size <= u64::MAX,
            forall|a: int| start <= a < start + size ==> !old(self).covers(a),
        ensures
            final(self).wf(),
            final(self).total() == old(self).total() + size,
            forall|a: int|
                final(self).covers(a) <==> (old(self).covers(a) || start <= a < start + size),
            forall|a: int|
                #[trigger] final(self).large.covers(a) <==> (old(self).large.covers(a) || (
                span_large_start(start as int) <= a < span_large_end(start + size) && start <= a
                    < start + size)),
            forall|a: int|
                #[trigger] final(self).small.covers(a) <==> (old(self).small.covers(a) || (start
                    <= a < start + size && !(span_large_start(start as int) <= a
                    < span_large_end(start + size)))),
    {
        let end = start + size;
        if size < PAGE_SIZE_LARGE {
            proof {
                assert forall|a: int|
                    start <= a < start + size implies !arena_covers(self.small@, a) by {
                    assert(!old(self).covers(a));
                }
            }
            self.small.free(start, size);
            proof {
                assert forall|a: int|
                    !(#[trigger] self.small.covers(a) && self.large.covers(a)) by {
                    if self.small.covers(a) && self.large.covers(a) {
                        if start <= a < start + size {
                            assert(!old(self).covers(a));
                        } else {
                            assert(old(self).small.covers(a));
                        }
                    }
                }
            }
            return;
        }
        let large_start = align_up(start, PAGE_SIZE_LARGE);
        let large_end = align_down(end, PAGE_SIZE_LARGE);
        if large_start < large_end {
            if start != large_start {
                proof {
                    assert forall|a: int|
                        start <= a < large_start implies !arena_covers(self.small@, a) by {
                        assert(!old(self).covers(a));
                    }
                }
                self.small.free(start, large_start - start);
            }
            proof {
                assert forall|a: int|
                    large_start <= a < large_end implies !arena_covers(self.large@, a) by {
                    assert(!old(self).covers(a));
                }
            }
            self.large.free(large_start, large_end - large_start);
            if end != large_end {
                proof {
                    assert forall|a: int|
                        large_end <= a < end implies !arena_covers(self.small@, a) by {
                        assert(!old(self).covers(a));
                        assert(!(start <= a < large_start));
                    }
                }
                self.small.free(large_end, end - large_end);
            }
            proof {
                assert forall|a: int|
                    !(#[trigger] self.small.covers(a) && self.large.covers(a)) by {
                    if self.small.covers(a) && self.large.covers(a) {
                        if start <= a < start + size {
                            assert(!old(self).covers(a));
                            assert(!(old(self).small.covers(a) || old(self).large.covers(a)));
                        } else {
                            assert(old(self).small.covers(a));
                            assert(old(self).large.covers(a));
                        }
                    }
                }
            }
        } else {
            proof {
                assert forall|a: int|
                    start <= a < start + size implies !arena_covers(self.small@, a) by {
                    assert(!old(self).covers(a));
                }
            }
            self.small.free(start, size);
            proof {
                assert forall|a: int|
                    !(#[trigger] self.small.covers(a) && self.large.covers(a)) by {
                    if self.small.covers(a) && self.large.covers(a) {
                        if start <= a < start + size {
                            assert(!old(self).covers(a));
                        } else {
                            assert(old(self).small.covers(a));
                        }
                    }
                }
            }
        }
    }

    /// Allocates one small (4 KiB) page.
    #[verifier::rlimit(100)]
    #[verifier::spinoff_prover]
    pub fn page_alloc_small(&mut self) -> (r: Option<u64>)
        requires
            old(self).wf(),
        ensures
            final(self).wf(),
            final(self).large == old(self).large,
            r is None ==> final(self).small@ == old(self).small@ && (old(self).small@.len() == 0
                || old(self).small@[0].size < PAGE_SIZE_SMALL),
            r matches Some(p) ==> {
                &&& final(self).total() == old(self).total() - PAGE_SIZE_SMALL
                &&& old(self).small@.len() > 0 && old(self).small@[0].size >= PAGE_SIZE_SMALL
                &&& p == old(self).small@[0].base
                &&& (old(self).small@[0].size > PAGE_SIZE_SMALL ==> final(self).small@ == old(
                    self,
                ).small@.update(
                    0,
                    MemorySegment {
                        base: (old(self).small@[0].base + PAGE_SIZE_SMALL) as u64,
                        size: (old(self).small@[0].size - PAGE_SIZE_SMALL) as u64,
                    },
                ))
                &&& (old(self).small@[0].size == PAGE_SIZE_SMALL ==> final(self).small@ == old(
                    self,
                ).small@.remove(0))
                &&& forall|a: int|
                    final(self).small.covers(a) <==> (old(self).small.covers(a) && !(p <= a < p
                        + PAGE_SIZE_SMALL))
                &&& forall|a: int| p <= a < p + PAGE_SIZE_SMALL ==> old(self).small.covers(a)
            },
    {
        let r = self.small.allocate(PAGE_SIZE_SMALL);
        proof {
            assert forall|a: int|
                !(#[trigger] self.small.covers(a) && self.large.covers(a)) by {
                if self.small.covers(a) {
                    assert(old(self).small.covers(a));
                }
            }
        }
        r
    }

    /// Frees one small (4 KiB) page at `addr`.
    pub fn page_free_small(&mut self, addr: u64)
        requires
            old(self).wf(),
            addr + PAGE_SIZE_SMALL <= u64::MAX,
            forall|a: int| addr <= a < addr + PAGE_SIZE_SMALL ==> !old(self).covers(a),
        ensures
            final(self).wf(),
            final(self).large == old(self).large,
            final(self).total() == old(self).total() + PAGE_SIZE_SMALL,
            forall|a: int|
                final(self).small.covers(a) <==> (old(self).small.covers(a) || addr <= a < addr
                    + PAGE_SIZE_SMALL),
    {
        proof {
            assert forall|a: int|
                addr <= a < addr + PAGE_SIZE_SMALL implies !arena_covers(self.small@, a) by {
                assert(!old(self).covers(a));
            }
        }
        self.small.free(addr, PAGE_SIZE_SMALL);
        proof {
            assert forall|a: int|
                !(#[trigger] self.small.covers(a) && self.large.covers(a)) by {
                if self.small.covers(a) && self.large.covers(a) {
                    if addr <= a < addr + PAGE_SIZE_SMALL {
                        assert(!old(self).covers(a));
                    } else {
                        assert(old(self).small.covers(a));
                    }
                }
            }
        }
    }

    /// Allocates one large (2 MiB) page.
    #[verifier::rlimit(100)]
    #[verifier::spinoff_prover]
    pub fn page_alloc_large(&mut self) -> (r: Option<u64>)
        requires
            old(self).wf(),
        ensures
            final(self).wf(),
            final(self).small == old(self).small,
            r is None ==> final(self).large@ == old(self).large@ && (old(self).large@.len() == 0
                || old(self).large@[0].size < PAGE_SIZE_LARGE),
            r matches Some(p) ==> {
                &&& final(self).total() == old(self).total() - PAGE_SIZE_LARGE
                &&& old(self).large@.len() > 0 && old(self).large@[0].size >= PAGE_SIZE_LARGE
                &&& p == old(self).large@[0].base
                &&& forall|a: int|
                    final(self).large.covers(a) <==> (old(self).large.covers(a) && !(p <= a < p
                        + PAGE_SIZE_LARGE))
                &&& forall|a: int| p <= a < p + PAGE_SIZE_LARGE ==> old(self).large.covers(a)
            },
    {
        let r = self.large.allocate(PAGE_SIZE_LARGE);
        proof {
            assert forall|a: int|
                !(#[trigger] self.small.covers(a) && self.large.covers(a)) by {
                if self.large.covers(a) {
                    assert(old(self).large.covers(a));
                }
            }
        }
        r
    }

    /// Frees one large (2 MiB) page at `addr`.
    pub fn page_free_large(&mut self, addr: u64)
        requires
            old(self).wf(),
            addr + PAGE_SIZE_LARGE <= u64::MAX,
            forall|a: int| addr <= a < addr + PAGE_SIZE_LARGE ==> !old(self).covers(a),
        ensures
            final(self).wf(),
            final(self).small == old(self).small,
            final(self).total() == old(self).total() + PAGE_SIZE_LARGE,
            forall|a: int|
                final(self).large.covers(a) <==> (old(self).large.covers(a) || addr <= a < addr
                    + PAGE_SIZE_LARGE),
    {
        proof {
            assert forall|a: int|
                addr <= a < addr + PAGE_SIZE_LARGE implies !arena_covers(self.large@, a) by {
                assert(!old(self).covers(a));
            }
        }
        self.large.free(addr, PAGE_SIZE_LARGE);
        proof {
            assert forall|a: int|
                !(#[trigger] self.small.covers(a) && self.large.covers(a)) by {
                if self.small.covers(a) && self.large.covers(a) {
                    if addr <= a < addr + PAGE_SIZE_LARGE {
                        assert(!old(self).covers(a));
                    } else {
                        assert(old(self).large.covers(a));
                    }
                }
            }
        }
    }
}

/// An arena is determined by the addresses it covers: two well-formed free
/// lists that cover the same addresses are the same list. Together with the
/// coverage and total clauses of `add_span`, `allocate` and `free`, this is
/// the lossless round trip: memory taken out of the pool and freed back
/// restores not just the byte count but the exact coalesced free list the
/// pool had.
#[verifier::rlimit(100)]
#[verifier::spinoff_prover]
pub proof fn lemma_arena_determined_by_coverage(s1: Seq<MemorySegment>, s2: Seq<MemorySegment>)
    requires
        arena_wf(s1),
        arena_wf(s2),
        forall|a: int| arena_covers(s1, a) <==> arena_covers(s2, a),
    ensures
        s1 =~= s2,
    decreases s1.len(),
{
    if s1.len() == 0 {
        if s2.len() > 0 {
            assert(arena_covers(s2, s2[0].base as int));
        }
        assert(s1 =~= s2);
    } else {
        assert(arena_covers(s1, s1[0].base as int));
        assert(s2.len() > 0) by {
            if s2.len() == 0 {
                assert(!arena_covers(s2, s1[0].base as int));
            }
        }
        // Both head segments start at the least covered address.
        let b1 = s1[0].base as int;
        let b2 = s2[0].base as int;
        assert(b1 == b2) by {
            lemma_head_is_least(s1, b2);
            lemma_head_is_least(s2, b1);
            assert(arena_covers(s2, b1));
            assert(arena_covers(s1, b2));
        }
        // And they end at the same address: one address past either head is
        // uncovered on that side.
        let e1 = s1[0].base + s1[0].size;
        let e2 = s2[0].base + s2[0].size;
        assert(e1 == e2) by {
            if e1 < e2 {
                lemma_gap_after_head(s1, e1);
                assert(arena_covers(s2, e1));
            } else if e2 < e1 {
                lemma_gap_after_head(s2, e2);
                assert(arena_covers(s1, e2));
            }
        }
        assert(s1[0] == s2[0]);
        let t1 = s1.remove(0);
        let t2 = s2.remove(0);
        lemma_wf_remove(s1, 0);
        lemma_wf_remove(s2, 0);
        lemma_covers_remove(s1, 0);
        lemma_covers_remove(s2, 0);
        assert forall|a: int| arena_covers(t1, a) <==> arena_covers(t2, a) by {
            assert(arena_covers(t1, a) <==> (arena_covers(s1, a) && !(s1[0].base <= a < s1[0].base
                + s1[0].size)));
            assert(arena_covers(t2, a) <==> (arena_covers(s2, a) && !(s2[0].base <= a < s2[0].base
                + s2[0].size)));
        }
        lemma_arena_determined_by_coverage(t1, t2);
        assert forall|k: int| 0 <= k < s1.len() implies s1[k] == s2[k] by {
            if k > 0 {
                assert(t1[k - 1] == s1[k] && t2[k - 1] == s2[k]);
            }
        }
        assert(s1.len() == s2.len());
    }
}

/// Every covered address lies at or after the head segment's base.
proof fn lemma_head_is_least(s: Seq<MemorySegment>, a: int)
    requires
        arena_wf(s),
        s.len() > 0,
        arena_covers(s, a),
    ensures
        a >= s[0].base,
{
    let i = choose|i: int|
        0 <= i < s.len() && (#[trigger] s[i]).base <= a < s[i].base + s[i].size;
    if i > 0 {
        lemma_arena_sorted(s, 0, i);
    }
}

/// The address one past the head segment is uncovered: coalescing leaves a
/// real gap after every segment.
proof fn lemma_gap_after_head(s: Seq<MemorySegment>, e: int)
    requires
        arena_wf(s),
        s.len() > 0,
        e == s[0].base + s[0].size,
    ensures
        !arena_covers(s, e),
{
    if arena_covers(s, e) {
        let i = choose|i: int|
            0 <= i < s.len() && (#[trigger] s[i]).base <= e < s[i].base + s[i].size;
        if i > 0 {
            lemma_arena_sorted(s, 0, i);
        }
    }
}

/// The free list after one small page is taken from its head segment.
pub open spec fn arena_after_small_page(s: Seq<MemorySegment>) -> Seq<MemorySegment>
    recommends
        s.len() > 0,
        s[0].size >= PAGE_SIZE_SMALL,
{
    if s[0].size == PAGE_SIZE_SMALL {
        s.remove(0)
    } else {
        s.update(
            0,
            MemorySegment {
                base: (s[0].base + PAGE_SIZE_SMALL) as u64,
                size: (s[0].size - PAGE_SIZE_SMALL) as u64,
            },
        )
    }
}

/// Whether the arena can serve `count` small pages in a row, each from the
/// head segment of the moment.
pub open spec fn arena_can_serve(s: Seq<MemorySegment>, count: int) -> bool
    decreases count,
{
    count <= 0 || (s.len() > 0 && s[0].size >= PAGE_SIZE_SMALL && arena_can_serve(
        arena_after_small_page(s),
        count - 1,
    ))
}

/// The free list after `count` small pages have been taken from the head.
pub open spec fn arena_after_pages(s: Seq<MemorySegment>, count: int) -> Seq<MemorySegment>
    decreases count,
{
    if count <= 0 {
        s
    } else {
        arena_after_pages(arena_after_small_page(s), count - 1)
    }
}

/// Taking one more page from the back of a run of takes.
pub proof fn lemma_after_pages_step(s: Seq<MemorySegment>, count: int)
    requires
        count >= 0,
    ensures
        arena_after_pages(s, count + 1) == arena_after_small_page(arena_after_pages(s, count)),
    decreases count,
{
    assert(arena_after_pages(s, count + 1) == arena_after_pages(
        arena_after_small_page(s),
        count,
    ));
    if count == 0 {
        assert(arena_after_pages(arena_after_small_page(s), 0) == arena_after_small_page(s));
        assert(arena_after_pages(s, 0) == s);
    } else {
        lemma_after_pages_step(arena_after_small_page(s), count - 1);
        assert(arena_after_pages(s, count) == arena_after_pages(
            arena_after_small_page(s),
            count - 1,
        ));
    }
}

/// An arena that can serve `count + 1` pages can serve `count`.
pub proof fn lemma_can_serve_weaken(s: Seq<MemorySegment>, count: int)
    requires
        count >= 0,
        arena_can_serve(s, count + 1),
    ensures
        arena_can_serve(s, count),
    decreases count,
{
    if count > 0 {
        lemma_can_serve_weaken(arena_after_small_page(s), count - 1);
    }
}

/// An arena that can serve `a + b` pages still serves `b` after `a` were
/// taken.
pub proof fn lemma_can_serve_split(s: Seq<MemorySegment>, a: int, b: int)
    requires
        a >= 0,
        b >= 0,
        arena_can_serve(s, a + b),
    ensures
        arena_can_serve(arena_after_pages(s, a), b),
    decreases a,
{
    if a > 0 {
        lemma_can_serve_split(arena_after_small_page(s), a - 1, b);
    }
}

/// Whether address `a` lies in one of the small pages listed in `ps`.
pub open spec fn pages_cover(ps: Seq<u64>, a: int) -> bool {
    exists|k: int| 0 <= k < ps.len() && (#[trigger] ps[k]) <= a < ps[k] + PAGE_SIZE_SMALL
}

impl MemoryPool {
    /// Allocates `count` small pages, or frees back whatever it got and
    /// fails when the arena runs dry part-way.
    #[verifier::rlimit(100)]
    #[verifier::spinoff_prover]
    pub fn alloc_small_pages(&mut self, count: usize) -> (r: Option<Vec<u64>>)
        requires
            old(self).wf(),
            count > 0,
        ensures
            final(self).wf(),
            final(self).large == old(self).large,
            r is Some <==> arena_can_serve(old(self).small@, count as int),
            r is Some ==> final(self).small@ == arena_after_pages(old(self).small@, count as int),
            r is None ==> final(self).total() == old(self).total() && (forall|a: int|
                #[trigger] final(self).covers(a) <==> old(self).covers(a)),
            r matches Some(pages) ==> {
                &&& pages@.len() == count
                &&& (forall|k: int|
                    0 <= k < count ==> (#[trigger] pages@[k]) + PAGE_SIZE_SMALL <= u64::MAX)
                &&& (forall|k1: int, k2: int|
                    0 <= k1 < k2 < count ==> ((#[trigger] pages@[k1]) + PAGE_SIZE_SMALL
                        <= #[trigger] pages@[k2] || pages@[k2] + PAGE_SIZE_SMALL <= pages@[k1]))
                &&& (forall|a: int| pages_cover(pages@, a) ==> old(self).small.covers(a))
                &&& final(self).total() == old(self).total() - count * PAGE_SIZE_SMALL
                &&& (forall|a: int|
                    #[trigger] final(self).covers(a) <==> (old(self).covers(a) && !pages_cover(
                        pages@,
                        a,
                    )))
            },
    {
        let mut pages: Vec<u64> = Vec::new();
        let mut j: usize = 0;
        while j < count
            invariant
                self.wf(),
                self.large == old(self).large,
                arena_can_serve(old(self).small@, count as int) <==> arena_can_serve(
                    self.small@,
                    count - j,
                ),
                self.small@ == arena_after_pages(old(self).small@, j as int),
                j <= count,
                pages@.len() == j,
                forall|k: int|
                    0 <= k < j ==> (#[trigger] pages@[k]) + PAGE_SIZE_SMALL <= u64::MAX,
                forall|k1: int, k2: int|
                    0 <= k1 < k2 < j ==> ((#[trigger] pages@[k1]) + PAGE_SIZE_SMALL
                        <= #[trigger] pages@[k2] || pages@[k2] + PAGE_SIZE_SMALL <= pages@[k1]),
                forall|a: int| pages_cover(pages@, a) ==> old(self).small.covers(a),
                forall|a: int| #[trigger] self.small.covers(a) ==> old(self).small.covers(a),
                self.total() == old(self).total() - j * PAGE_SIZE_SMALL,
                forall|a: int|
                    #[trigger] self.covers(a) <==> (old(self).covers(a) && !pages_cover(
                        pages@,
                        a,
                    )),
            decreases count - j,
        {
            let ghost pages_pre = pages@;
            let ghost pool_pre = *self;
            let got = self.page_alloc_small();
            match got {
                Some(p) => {
                    proof {
                        assert(pool_pre.small.covers(p + PAGE_SIZE_SMALL - 1));
                        lemma_covered_bounded(pool_pre.small@, p + PAGE_SIZE_SMALL - 1);
                        assert(self.small@ == arena_after_small_page(pool_pre.small@));
                        lemma_after_pages_step(old(self).small@, j as int);
                    }
                    pages.push(p);
                    j += 1;
                    proof {
                        assert((j - 1) * PAGE_SIZE_SMALL + PAGE_SIZE_SMALL == j
                            * PAGE_SIZE_SMALL) by (nonlinear_arith);
                        assert forall|a: int|
                            pages_cover(pages@, a) implies (pages_cover(pages_pre, a) || p <= a
                            < p + PAGE_SIZE_SMALL) by {
                            let k = choose|k: int|
                                0 <= k < pages@.len() && (#[trigger] pages@[k]) <= a < pages@[k]
                                    + PAGE_SIZE_SMALL;
                            if k < j - 1 {
                                assert(pages_pre[k] <= a < pages_pre[k] + PAGE_SIZE_SMALL);
                            }
                        }
                        assert forall|a: int|
                            (pages_cover(pages_pre, a) || p <= a < p
                                + PAGE_SIZE_SMALL) implies pages_cover(pages@, a) by {
                            if pages_cover(pages_pre, a) {
                                let k = choose|k: int|
                                    0 <= k < pages_pre.len() && (#[trigger] pages_pre[k]) <= a
                                        < pages_pre[k] + PAGE_SIZE_SMALL;
                                assert(pages@[k] <= a < pages@[k] + PAGE_SIZE_SMALL);
                            } else {
                                assert(pages@[j - 1] <= a < pages@[j - 1] + PAGE_SIZE_SMALL);
                            }
                        }
                        assert forall|a: int|
                            #[trigger] self.covers(a) <==> (old(self).covers(a) && !pages_cover(
                                pages@,
                                a,
                            )) by {
                            if self.covers(a) {
                                if p <= a < p + PAGE_SIZE_SMALL {
                                    assert(pool_pre.small.covers(a));
                                    assert(!pool_pre.large.covers(a));
                                    assert(!self.small.covers(a));
                                    assert(!self.large.covers(a));
                                }
                                assert(pool_pre.covers(a));
                                assert(!pages_cover(pages_pre, a));
                            }
                            if old(self).covers(a) && !pages_cover(pages@, a) {
                                assert(!pages_cover(pages_pre, a));
                                assert(pool_pre.covers(a));
                                assert(!(p <= a < p + PAGE_SIZE_SMALL));
                                assert(self.covers(a));
                            }
                        }
                        assert forall|a: int|
                            pages_cover(pages@, a) implies old(self).small.covers(a) by {
                            if pages_cover(pages_pre, a) {
                            } else {
                                assert(p <= a < p + PAGE_SIZE_SMALL);
                                assert(pool_pre.small.covers(a));
                            }
                        }
                        // The fresh page is disjoint from every earlier one.
                        assert forall|k1: int, k2: int|
                            0 <= k1 < k2 < j implies ((#[trigger] pages@[k1]) + PAGE_SIZE_SMALL
                            <= #[trigger] pages@[k2] || pages@[k2] + PAGE_SIZE_SMALL
                            <= pages@[k1]) by {
                            if k2 == j - 1 {
                                if !(pages@[k1] + PAGE_SIZE_SMALL <= p || p + PAGE_SIZE_SMALL
                                    <= pages@[k1]) {
                                    let w = if pages@[k1] >= p {
                                        pages@[k1] as int
                                    } else {
                                        p as int
                                    };
                                    assert(pages@[k1] <= w < pages@[k1] + PAGE_SIZE_SMALL);
                                    assert(p <= w < p + PAGE_SIZE_SMALL);
                                    assert(pages_cover(pages_pre, w));
                                    assert(!pool_pre.covers(w));
                                    assert(pool_pre.small.covers(w));
                                }
                            }
                        }
                    }
                },
                None => {
                    // Out of memory: return the pages already taken.
                    proof {
                        assert(!arena_can_serve(self.small@, count - j));
                        assert(pages@.skip(0) =~= pages@);
                        assert forall|a: int|
                            #[trigger] self.covers(a) <==> (old(self).covers(a) && !pages_cover(
                                pages@.skip(0),
                                a,
                            )) by {
                            assert(self.small@ == pool_pre.small@);
                            assert(self.large == pool_pre.large);
                            assert(pool_pre.covers(a) <==> (old(self).covers(a) && !pages_cover(
                                pages@,
                                a,
                            )));
                            assert(self.covers(a) <==> pool_pre.covers(a));
                        }
                    }
                    let mut m: usize = 0;
                    while m < j
                        invariant
                            m <= j,
                            j == pages@.len(),
                            self.wf(),
                            self.large == old(self).large,
                            forall|k: int|
                                0 <= k < j ==> (#[trigger] pages@[k]) + PAGE_SIZE_SMALL
                                    <= u64::MAX,
                            forall|k1: int, k2: int|
                                0 <= k1 < k2 < j ==> ((#[trigger] pages@[k1]) + PAGE_SIZE_SMALL
                                    <= #[trigger] pages@[k2] || pages@[k2] + PAGE_SIZE_SMALL
                                    <= pages@[k1]),
                            forall|a: int| pages_cover(pages@, a) ==> old(self).small.covers(a),
                            self.total() == old(self).total() - (j - m) * PAGE_SIZE_SMALL,
                            forall|a: int|
                                #[trigger] self.covers(a) <==> (old(self).covers(a)
                                    && !pages_cover(pages@.skip(m as int), a)),
                        decreases j - m,
                    {
                        let page = pages[m];
                        let ghost rest = pages@.skip(m as int);
                        let ghost pool_mid = *self;
                        proof {
                            assert(rest[0] == pages@[m as int]);
                            assert forall|a: int|
                                page <= a < page + PAGE_SIZE_SMALL implies !self.covers(a) by {
                                assert(rest[0] <= a < rest[0] + PAGE_SIZE_SMALL);
                                assert(pages_cover(rest, a));
                            }
                        }
                        self.page_free_small(page);
                        m += 1;
                        proof {
                            let rest2 = pages@.skip(m as int);
                            assert((j - (m - 1)) * PAGE_SIZE_SMALL - PAGE_SIZE_SMALL == (j - m)
                                * PAGE_SIZE_SMALL) by (nonlinear_arith);
                            assert forall|a: int|
                                #[trigger] self.covers(a) <==> (old(self).covers(a)
                                    && !pages_cover(rest2, a)) by {
                                if self.covers(a) {
                                    if pool_mid.covers(a) {
                                        assert(old(self).covers(a));
                                        if pages_cover(rest2, a) {
                                            let k = choose|k: int|
                                                0 <= k < rest2.len() && (#[trigger] rest2[k])
                                                    <= a < rest2[k] + PAGE_SIZE_SMALL;
                                            assert(rest[k + 1] == rest2[k]);
                                            assert(pages_cover(rest, a));
                                        }
                                    } else {
                                        assert(page <= a < page + PAGE_SIZE_SMALL);
                                        assert(pages@[m - 1] == page);
                                        assert(pages_cover(pages@, a));
                                        assert(old(self).small.covers(a));
                                        assert(old(self).covers(a));
                                        if pages_cover(rest2, a) {
                                            let k = choose|k: int|
                                                0 <= k < rest2.len() && (#[trigger] rest2[k])
                                                    <= a < rest2[k] + PAGE_SIZE_SMALL;
                                            assert(rest2[k] == pages@[m + k]);
                                            assert(pages@[m - 1] == page);
                                        }
                                    }
                                }
                                if old(self).covers(a) && !pages_cover(rest2, a) {
                                    if page <= a < page + PAGE_SIZE_SMALL {
                                        assert(self.covers(a));
                                    } else {
                                        if pages_cover(rest, a) {
                                            let k = choose|k: int|
                                                0 <= k < rest.len() && (#[trigger] rest[k]) <= a
                                                    < rest[k] + PAGE_SIZE_SMALL;
                                            assert(k != 0);
                                            assert(rest2[k - 1] == rest[k]);
                                            assert(pages_cover(rest2, a));
                                        }
                                        assert(pool_mid.covers(a));
                                    }
                                }
                            }
                        }
                    }
                    proof {
                        assert(pages@.skip(j as int).len() == 0);
                        assert forall|a: int|
                            #[trigger] self.covers(a) <==> old(self).covers(a) by {
                            assert(!pages_cover(pages@.skip(j as int), a));
                        }
                    }
                    return None;
                },
            }
        }
        Some(pages)
    }
}

/// The three-way case analysis behind `MemoryArena::free`: whichever
/// neighbours were merged, the resulting list is well-formed, and it covers
/// exactly the old addresses plus the freed range.
proof fn lemma_free_shape(
    s: Seq<MemorySegment>,
    mid: Seq<MemorySegment>,
    out: Seq<MemorySegment>,
    i: int,
    addr: int,
    size: int,
    seg: MemorySegment,
)
    requires
        arena_wf(s),
        size > 0,
        addr + size <= u64::MAX,
        range_free(s, addr, addr + size),
        forall|k: int| 0 <= k < s.len() ==> (#[trigger] s[k]).base < addr || s[k].base >= addr
            + size,
        // the part of s strictly left of the freed range, then strictly right
        0 <= i <= mid.len(),
        forall|k: int| 0 <= k < i ==> (#[trigger] mid[k]).base + mid[k].size < seg.base,
        forall|k: int| i <= k < mid.len() ==> (#[trigger] mid[k]).base > seg.base + seg.size,
        out == mid.insert(i, seg),
        seg.size > 0,
        seg.base + seg.size <= u64::MAX,
        arena_wf(mid),
        forall|a: int|
            arena_covers(mid, a) <==> (arena_covers(s, a) && !(seg.base <= a < seg.base
                + seg.size)),
        forall|a: int|
            (arena_covers(s, a) || addr <= a < addr + size) ==> (arena_covers(mid, a) || (
            seg.base <= a < seg.base + seg.size)),
        seg.base <= addr,
        addr + size <= seg.base + seg.size,
        forall|a: int|
            seg.base <= a < seg.base + seg.size ==> (arena_covers(s, a) || addr <= a < addr
                + size),
    ensures
        arena_wf(out),
        forall|a: int| arena_covers(out, a) <==> (arena_covers(s, a) || addr <= a < addr + size),
{
    assert forall|k: int| 0 <= k < out.len() - 1 implies (#[trigger] out[k]).base + out[k].size
        < out[k + 1].base by {
        if k < i - 1 {
            assert(out[k] == mid[k] && out[k + 1] == mid[k + 1]);
        } else if k == i - 1 {
            assert(out[k] == mid[k] && out[k + 1] == seg);
        } else if k == i {
            assert(out[k] == seg && out[k + 1] == mid[k]);
        } else {
            assert(out[k] == mid[k - 1] && out[k + 1] == mid[k]);
        }
    }
    assert forall|k: int| 0 <= k < out.len() implies (#[trigger] out[k]).size > 0 && out[k].base
        + out[k].size <= u64::MAX by {
        if k < i {
            assert(out[k] == mid[k]);
        } else if k == i {
        } else {
            assert(out[k] == mid[k - 1]);
        }
    }
    assert forall|a: int|
        arena_covers(out, a) implies (arena_covers(s, a) || addr <= a < addr + size) by {
        let k = choose|k: int|
            0 <= k < out.len() && (#[trigger] out[k]).base <= a < out[k].base + out[k].size;
        if k < i {
            assert(out[k] == mid[k]);
            assert(arena_covers(mid, a));
        } else if k == i {
        } else {
            assert(out[k] == mid[k - 1]);
            assert(arena_covers(mid, a));
        }
    }
    assert forall|a: int|
        (arena_covers(s, a) || addr <= a < addr + size) implies arena_covers(out, a) by {
        if arena_covers(mid, a) {
            let k = choose|k: int|
                0 <= k < mid.len() && (#[trigger] mid[k]).base <= a < mid[k].base + mid[k].size;
            if k < i {
                assert(out[k] == mid[k]);
                assert(out[k].base <= a < out[k].base + out[k].size);
            } else {
                assert(out[k + 1] == mid[k]);
                assert(out[k + 1].base <= a < out[k + 1].base + out[k + 1].size);
            }
        } else {
            assert(seg.base <= a < seg.base + seg.size);
            assert(out[i] == seg);
            assert(out[i].base <= a < out[i].base + out[i].size);
        }
    }
}

} // verus!
