//! Virtual memory manager.
//!
//! An address space is an ordered set of protected regions together with a
//! model of the hardware translation table. Regions never overlap; a region
//! owns at most its backing pages, which return to the page arena when the
//! region is released; every backing page has a matching translation.

use vstd::prelude::*;
use crate::errno::{Error, EINVAL, ENOMEM};
use crate::memory::MemoryPool;
use crate::{PAGE_SIZE_SMALL, PAGE_SIZE_LARGE, align_up};

verus! {

/// Hardware page-table permission bit: readable.
pub const MMU_PROT_READ: usize = 1;
/// Hardware page-table permission bit: writable.
pub const MMU_PROT_WRITE: usize = 2;
/// Hardware page-table permission bit: executable.
pub const MMU_PROT_EXEC: usize = 4;

/// Hardware page-table flag: accessible from user mode.
pub const MMU_USER_PAGE: usize = 1;

/// Protection of a VM region.
#[derive(Clone, Copy, Debug, PartialEq, Eq, Structural)]
pub struct VMProt {
    pub read: bool,
    pub write: bool,
    pub execute: bool,
}

impl VMProt {
    /// No access.
    pub fn prot_none() -> (r: VMProt)
        ensures
            r == (VMProt { read: false, write: false, execute: false }),
    {
        VMProt { read: false, write: false, execute: false }
    }

    /// Read-only.
    pub fn prot_read() -> (r: VMProt)
        ensures
            r == (VMProt { read: true, write: false, execute: false }),
    {
        VMProt { read: true, write: false, execute: false }
    }

    /// Read and write.
    pub fn prot_rw() -> (r: VMProt)
        ensures
            r == (VMProt { read: true, write: true, execute: false }),
    {
        VMProt { read: true, write: true, execute: false }
    }

    /// Read and execute.
    pub fn prot_rx() -> (r: VMProt)
        ensures
            r == (VMProt { read: true, write: false, execute: true }),
    {
        VMProt { read: true, write: false, execute: true }
    }

    /// Read, write and execute.
    pub fn prot_rwx() -> (r: VMProt)
        ensures
            r == (VMProt { read: true, write: true, execute: true }),
    {
        VMProt { read: true, write: true, execute: true }
    }
}

/// The hardware permission word that `prot` translates to.
pub open spec fn mmu_prot_spec(prot: VMProt) -> usize {
    ((if prot.read {
        MMU_PROT_READ
    } else {
        0
    }) + (if prot.write {
        MMU_PROT_WRITE
    } else {
        0
    }) + (if prot.execute {
        MMU_PROT_EXEC
    } else {
        0
    })) as usize
}

/// One installed hardware translation.
#[derive(Clone, Copy, Debug, PartialEq, Eq, Structural)]
pub struct MMUMapping {
    /// Virtual address the translation starts at.
    pub vaddr: usize,
    /// Physical address it maps to.
    pub paddr: u64,
    /// Size of the translated range in bytes.
    pub size: usize,
    /// Hardware permission word.
    pub prot: usize,
    /// Hardware flags (user page).
    pub flags: usize,
}

/// A model of one hardware translation table: its identity (what gets loaded
/// into the MMU on a context switch) and the translations installed in it.
pub struct MMUMap {
    pub id: u64,
    pub mappings: Vec<MMUMapping>,
}

impl MMUMap {
    pub fn new(id: u64) -> (r: MMUMap)
        ensures
            r.id == id,
            r.mappings@ =~= Seq::<MMUMapping>::empty(),
    {
        MMUMap { id, mappings: Vec::new() }
    }
}

/// Whether the translation table holds an entry mapping `vaddr` to `paddr`.
pub open spec fn mapping_present(maps: Seq<MMUMapping>, vaddr: int, paddr: u64) -> bool {
    exists|j: int| 0 <= j < maps.len() && (#[trigger] maps[j]).vaddr == vaddr && maps[j].paddr
        == paddr
}

/// VM region: a contiguous span of a virtual address space with uniform
/// protection and the physical pages backing it, if any.
#[derive(Debug)]
pub struct VMRegion {
    /// First virtual address of the region.
    pub start: usize,
    /// Exclusive end address of the region.
    pub end: usize,
    /// Protection of the region.
    pub prot: VMProt,
    /// Backing physical pages in order, empty while unpopulated.
    pub pages: Vec<u64>,
    /// The backing is a single large page rather than small pages.
    pub large: bool,
    /// The backing pages came from the page arena and return to it when the
    /// region is released (false for pages aliased in by `map`).
    pub owned: bool,
    /// Model of the region's memory contents, filled by `populate` and
    /// `populate_from`.
    pub bytes: Vec<u8>,
}

impl VMRegion {
    /// Page size of this region's backing pages.
    pub open spec fn page_size_spec(&self) -> int {
        if self.large {
            PAGE_SIZE_LARGE as int
        } else {
            PAGE_SIZE_SMALL as int
        }
    }

    /// Whether address `a` lies in one of this region's backing pages.
    pub open spec fn backing_covers(&self, a: int) -> bool {
        self.owned && exists|k: int|
            0 <= k < self.pages@.len() && (#[trigger] self.pages@[k]) <= a < self.pages@[k]
                + self.page_size_spec()
    }

    /// Total bytes of arena memory backing this region.
    pub open spec fn backing_bytes(&self) -> int {
        if self.owned {
            self.pages@.len() * self.page_size_spec()
        } else {
            0
        }
    }

    /// A region is well-formed when its bounds are ordered, its contents
    /// model matches its extent, and its owned backing pages are disjoint
    /// and lie within the address space.
    pub open spec fn wf(&self) -> bool {
        &&& self.start < self.end
        &&& self.bytes@.len() == 0 || self.bytes@.len() == self.end - self.start
        &&& self.owned ==> forall|k: int|
            0 <= k < self.pages@.len() ==> (#[trigger] self.pages@[k]) + self.page_size_spec()
                <= u64::MAX
        &&& self.owned ==> forall|k1: int, k2: int|
            0 <= k1 < k2 < self.pages@.len() ==> ((#[trigger] self.pages@[k1])
                + self.page_size_spec() <= #[trigger] self.pages@[k2] || self.pages@[k2]
                + self.page_size_spec() <= self.pages@[k1])
    }

    /// Constructs a new region with no backing.
    pub fn new(start: usize, end: usize, prot: VMProt) -> (r: VMRegion)
        requires
            start < end,
        ensures
            r.start == start,
            r.end == end,
            r.prot == prot,
            r.pages@ =~= Seq::<u64>::empty(),
            r.bytes@ =~= Seq::<u8>::empty(),
            !r.owned,
            r.wf(),
    {
        VMRegion {
            start,
            end,
            prot,
            pages: Vec::new(),
            large: false,
            owned: false,
            bytes: Vec::new(),
        }
    }

    /// The hardware permission word for this region's protection.
    pub fn mmu_prot(&self) -> (r: usize)
        ensures
            r == mmu_prot_spec(self.prot),
    {
        let mut prot: usize = 0;
        if self.prot.read {
            prot = prot + MMU_PROT_READ;
        }
        if self.prot.write {
            prot = prot + MMU_PROT_WRITE;
        }
        if self.prot.execute {
            prot = prot + MMU_PROT_EXEC;
        }
        prot
    }

    /// Releases the region's owned backing pages back to the arena it was
    /// allocated from.
    pub fn release(&mut self, pool: &mut MemoryPool)
        requires
            old(self).wf(),
            old(pool).wf(),
            forall|a: int| old(self).backing_covers(a) ==> !old(pool).covers(a),
        ensures
            final(self).wf(),
            final(pool).wf(),
            final(self).pages@ =~= Seq::<u64>::empty(),
            final(self).start == old(self).start && final(self).end == old(self).end
                && final(self).prot == old(self).prot,
            final(pool).total() == old(pool).total() + old(self).backing_bytes(),
            forall|a: int|
                final(pool).covers(a) <==> (old(pool).covers(a) || old(self).backing_covers(a)),
    {
        let ghost pages0 = self.pages@;
        let ghost pool0 = *pool;
        let large = self.large;
        let owned = self.owned;
        if !owned {
            self.pages = Vec::new();
            proof {
                assert(old(self).backing_bytes() == 0);
                assert(forall|a: int| !old(self).backing_covers(a));
            }
            return;
        }
        let ghost ps = old(self).page_size_spec();
        let mut k: usize = 0;
        let n = self.pages.len();
        while k < n
            invariant
                owned,
                self.owned == owned,
                self.large == large,
                self.pages@ == pages0,
                n == pages0.len(),
                k <= n,
                old(self).pages@ == pages0,
                old(self).large == large,
                old(self).owned,
                old(self).wf(),
                pool.wf(),
                ps == old(self).page_size_spec(),
                pool.total() == pool0.total() + k * ps,
                forall|a: int|
                    #[trigger] pool.covers(a) <==> (pool0.covers(a) || exists|j: int|
                        0 <= j < k && (#[trigger] pages0[j]) <= a < pages0[j] + ps),
                forall|a: int| pool0.covers(a) ==> !old(self).backing_covers(a),
            decreases n - k,
        {
            let page = self.pages[k];
            let ghost pool_pre = *pool;
            proof {
                assert forall|a: int| page <= a < page + ps implies !pool.covers(a) by {
                    assert(old(self).backing_covers(a));
                    if pool0.covers(a) {
                    }
                    if exists|j: int|
                        0 <= j < k && (#[trigger] pages0[j]) <= a < pages0[j] + ps {
                        let j = choose|j: int|
                            0 <= j < k && (#[trigger] pages0[j]) <= a < pages0[j] + ps;
                        assert(pages0[j] + ps <= pages0[k as int] || pages0[k as int] + ps
                            <= pages0[j]);
                    }
                }
            }
            if large {
                proof {
                    assert forall|a: int|
                        page <= a < page + PAGE_SIZE_LARGE implies !pool.large.covers(a) by {
                        assert(!pool.covers(a));
                    }
                }
                pool.page_free_large(page);
            } else {
                proof {
                    assert forall|a: int|
                        page <= a < page + PAGE_SIZE_SMALL implies !pool.small.covers(a) by {
                        assert(!pool.covers(a));
                    }
                }
                pool.page_free_small(page);
            }
            k += 1;
            proof {
                assert((k - 1) * ps + ps == k * ps) by (nonlinear_arith);
                assert forall|a: int|
                    #[trigger] pool.covers(a) <==> (pool0.covers(a) || exists|j: int|
                        0 <= j < k && (#[trigger] pages0[j]) <= a < pages0[j] + ps) by {
                    if pool.covers(a) && !pool0.covers(a) {
                        if pool_pre.covers(a) {
                            let j = choose|j: int|
                                0 <= j < k - 1 && (#[trigger] pages0[j]) <= a < pages0[j] + ps;
                            assert(0 <= j < k && pages0[j] <= a < pages0[j] + ps);
                        } else {
                            assert(page <= a < page + ps);
                            assert(pages0[k - 1] <= a < pages0[k - 1] + ps);
                        }
                    }
                    if pool0.covers(a) {
                        assert(pool_pre.covers(a));
                        assert(pool.covers(a));
                    }
                    if exists|j: int| 0 <= j < k && (#[trigger] pages0[j]) <= a < pages0[j] + ps {
                        let j = choose|j: int|
                            0 <= j < k && (#[trigger] pages0[j]) <= a < pages0[j] + ps;
                        if j < k - 1 {
                            assert(pool_pre.covers(a));
                            assert(pool.covers(a));
                        } else {
                            assert(page <= a < page + ps);
                            assert(pool.covers(a));
                        }
                    }
                }
            }
        }
        self.pages = Vec::new();
        proof {
            assert(old(self).backing_bytes() == n * old(self).page_size_spec());
            assert forall|a: int|
                old(self).backing_covers(a) implies pool.covers(a) by {
            }
        }
    }
}

/// A vector of `n` zero bytes.
pub fn zero_bytes(n: usize) -> (v: Vec<u8>)
    ensures
        v@.len() == n,
        forall|i: int| 0 <= i < n ==> v@[i] == 0u8,
{
    let mut v: Vec<u8> = Vec::new();
    let mut i: usize = 0;
    while i < n
        invariant
            i <= n,
            v@.len() == i,
            forall|k: int| 0 <= k < i ==> v@[k] == 0u8,
        decreases n - i,
    {
        v.push(0);
        i += 1;
    }
    v
}

/// A vector of `size` bytes holding `src` followed by zeroes.
pub fn padded_bytes(size: usize, src: &Vec<u8>) -> (v: Vec<u8>)
    requires
        src@.len() <= size,
    ensures
        v@.len() == size,
        forall|i: int|
            0 <= i < size ==> v@[i] == (if i < src@.len() {
                src@[i]
            } else {
                0u8
            }),
{
    let mut v: Vec<u8> = Vec::new();
    let mut i: usize = 0;
    let src_len = src.len();
    while i < size
        invariant
            i <= size,
            src@.len() == src_len <= size,
            v@.len() == i,
            forall|k: int|
                0 <= k < i ==> v@[k] == (if k < src@.len() {
                    src@[k]
                } else {
                    0u8
                }),
        decreases size - i,
    {
        if i < src_len {
            v.push(src[i]);
        } else {
            v.push(0);
        }
        i += 1;
    }
    v
}

/// First virtual address the gap allocator hands out.
pub const VM_ALLOC_BASE: usize = 0x1000_0000;

/// Exclusive upper bound of the gap allocator's range.
pub const VM_ALLOC_CEILING: usize = 0x7000_0000;

/// Regions are sorted by start address, pairwise disjoint, and each is
/// well-formed.
pub open spec fn vm_regions_wf(s: Seq<VMRegion>) -> bool {
    &&& forall|i: int| 0 <= i < s.len() ==> (#[trigger] s[i]).wf()
    &&& forall|i: int| 0 <= i < s.len() - 1 ==> (#[trigger] s[i]).end <= s[i + 1].start
}

/// Whether some region of `s` intersects the interval `[start, end)`.
pub open spec fn vm_intersects(s: Seq<VMRegion>, start: int, end: int) -> bool {
    exists|i: int| 0 <= i < s.len() && (#[trigger] s[i]).start < end && start < s[i].end
}

/// Whether `s` holds a region with exactly the bounds `[start, end)`.
pub open spec fn vm_has_region(s: Seq<VMRegion>, start: int, end: int) -> bool {
    exists|i: int| 0 <= i < s.len() && (#[trigger] s[i]).start == start && s[i].end == end
}

/// Whether `s` holds a populated region with exactly the bounds
/// `[start, end)` and protection `prot`: present, and its contents model
/// filled to the region's extent.
pub open spec fn vm_region_present(
    s: Seq<VMRegion>,
    start: int,
    end: int,
    prot: VMProt,
) -> bool {
    exists|i: int|
        0 <= i < s.len() && (#[trigger] s[i]).start == start && s[i].end == end && s[i].prot
            == prot && s[i].bytes@.len() == end - start
}

/// Whether `s` holds a region with exactly these bounds, protection and
/// contents.
pub open spec fn vm_region_with(
    s: Seq<VMRegion>,
    start: int,
    end: int,
    prot: VMProt,
    bytes: Seq<u8>,
) -> bool {
    exists|i: int|
        0 <= i < s.len() && (#[trigger] s[i]).start == start && s[i].end == end && s[i].prot
            == prot && s[i].bytes@ == bytes
}

/// Inserting a region keeps every region-with-contents in place.
pub proof fn lemma_region_with_insert(
    s: Seq<VMRegion>,
    k: int,
    r: VMRegion,
    start: int,
    end: int,
    prot: VMProt,
    bytes: Seq<u8>,
)
    requires
        vm_region_with(s, start, end, prot, bytes),
        0 <= k <= s.len(),
    ensures
        vm_region_with(s.insert(k, r), start, end, prot, bytes),
{
    let i = choose|i: int|
        0 <= i < s.len() && (#[trigger] s[i]).start == start && s[i].end == end && s[i].prot
            == prot && s[i].bytes@ == bytes;
    let ns = s.insert(k, r);
    if i < k {
        assert(ns[i] == s[i]);
    } else {
        assert(ns[i + 1] == s[i]);
    }
}

/// Updating a region whose start differs keeps every other
/// region-with-contents in place.
pub proof fn lemma_region_with_update(
    s: Seq<VMRegion>,
    k: int,
    r: VMRegion,
    start: int,
    end: int,
    prot: VMProt,
    bytes: Seq<u8>,
)
    requires
        vm_region_with(s, start, end, prot, bytes),
        0 <= k < s.len(),
        s[k].start != start,
    ensures
        vm_region_with(s.update(k, r), start, end, prot, bytes),
{
    let i = choose|i: int|
        0 <= i < s.len() && (#[trigger] s[i]).start == start && s[i].end == end && s[i].prot
            == prot && s[i].bytes@ == bytes;
    assert(i != k);
    assert(s.update(k, r)[i] == s[i]);
}

/// Inserting a region elsewhere keeps a present region present.
pub proof fn lemma_region_present_insert(
    s: Seq<VMRegion>,
    k: int,
    r: VMRegion,
    start: int,
    end: int,
    prot: VMProt,
)
    requires
        vm_region_present(s, start, end, prot),
        0 <= k <= s.len(),
    ensures
        vm_region_present(s.insert(k, r), start, end, prot),
{
    let i = choose|i: int|
        0 <= i < s.len() && (#[trigger] s[i]).start == start && s[i].end == end && s[i].prot
            == prot && s[i].bytes@.len() == end - start;
    let ns = s.insert(k, r);
    if i < k {
        assert(ns[i] == s[i]);
    } else {
        assert(ns[i + 1] == s[i]);
    }
}

/// Updating a region in place — same bounds and protection, contents filled
/// to the region's extent — keeps every present region present.
pub proof fn lemma_region_present_update(
    s: Seq<VMRegion>,
    k: int,
    r: VMRegion,
    start: int,
    end: int,
    prot: VMProt,
)
    requires
        vm_region_present(s, start, end, prot),
        0 <= k < s.len(),
        r.start == s[k].start,
        r.end == s[k].end,
        r.prot == s[k].prot,
        r.bytes@.len() == r.end - r.start,
    ensures
        vm_region_present(s.update(k, r), start, end, prot),
{
    let i = choose|i: int|
        0 <= i < s.len() && (#[trigger] s[i]).start == start && s[i].end == end && s[i].prot
            == prot && s[i].bytes@.len() == end - start;
    if i == k {
        assert(s.update(k, r)[k] == r);
    } else {
        assert(s.update(k, r)[i] == s[i]);
    }
}

/// Whether a byte at `vaddr` can be read: some region contains it and has
/// populated contents.
pub open spec fn vm_readable(s: Seq<VMRegion>, vaddr: int) -> bool {
    exists|i: int|
        0 <= i < s.len() && (#[trigger] s[i]).start <= vaddr < s[i].end && s[i].bytes@.len() > 0
}

/// The byte a read at `vaddr` sees: the containing populated region's
/// contents at that offset.
pub open spec fn vm_byte_at(s: Seq<VMRegion>, vaddr: int) -> u8 {
    let i = choose|i: int|
        0 <= i < s.len() && (#[trigger] s[i]).start <= vaddr < s[i].end && s[i].bytes@.len() > 0;
    s[i].bytes@[vaddr - s[i].start]
}

/// Every backing page of `r` has a translation installed in `maps`.
pub open spec fn region_mapped(r: VMRegion, maps: Seq<MMUMapping>) -> bool {
    forall|k: int|
        0 <= k < r.pages@.len() ==> mapping_present(
            maps,
            r.start + k * PAGE_SIZE_SMALL,
            #[trigger] r.pages@[k],
        )
}

/// Pushing a new translation keeps every present translation present.
pub proof fn lemma_mapping_present_push(maps: Seq<MMUMapping>, m: MMUMapping)
    ensures
        forall|vaddr: int, paddr: u64|
            mapping_present(maps, vaddr, paddr) ==> #[trigger] mapping_present(
                maps.push(m),
                vaddr,
                paddr,
            ),
{
    assert forall|vaddr: int, paddr: u64|
        mapping_present(maps, vaddr, paddr) implies #[trigger] mapping_present(
        maps.push(m),
        vaddr,
        paddr,
    ) by {
        let j = choose|j: int|
            0 <= j < maps.len() && (#[trigger] maps[j]).vaddr == vaddr && maps[j].paddr == paddr;
        assert(maps.push(m)[j] == maps[j]);
    }
}

/// In a well-formed region list, regions further right start at or after the
/// end of regions further left.
pub proof fn lemma_vm_regions_sorted(s: Seq<VMRegion>, i: int, j: int)
    requires
        vm_regions_wf(s),
        0 <= i < j < s.len(),
    ensures
        s[i].end <= s[j].start,
    decreases j - i,
{
    if j == i + 1 {
    } else {
        lemma_vm_regions_sorted(s, i, j - 1);
        assert(s[j - 1].end <= s[j].start);
        assert(s[j - 1].start < s[j - 1].end);
    }
}

/// Whether the pool's matching arena can serve one page of `size` bytes
/// from its head segment.
pub open spec fn pool_can_serve_page(pool: MemoryPool, size: int) -> bool {
    if size == PAGE_SIZE_LARGE {
        pool.large@.len() > 0 && pool.large@[0].size >= PAGE_SIZE_LARGE
    } else {
        pool.small@.len() > 0 && pool.small@[0].size >= PAGE_SIZE_SMALL
    }
}

/// How many small pages back a region of `size` bytes.
pub open spec fn small_pages_for(size: int) -> int {
    size / (PAGE_SIZE_SMALL as int) + if size % (PAGE_SIZE_SMALL as int) != 0 {
        1int
    } else {
        0int
    }
}

/// What a successful `populate_from(start, end, src)` call did, witnessed by
/// the position `idx` of the region it filled: the region keeps its bounds
/// and protection, gains one small backing page per small-page-sized chunk,
/// its contents read as `src` followed by zeroes, the pages left the small
/// arena, and one translation per page was installed after the existing ones.
pub open spec fn populate_from_post(
    os: Seq<VMRegion>,
    ns: Seq<VMRegion>,
    maps0: Seq<MMUMapping>,
    maps: Seq<MMUMapping>,
    pool0: MemoryPool,
    pool: MemoryPool,
    idx: int,
    start: int,
    end: int,
    src: Seq<u8>,
) -> bool {
    let size = end - start;
    let count = ns[idx].pages@.len() as int;
    &&& 0 <= idx < os.len()
    &&& os[idx].start == start && os[idx].end == end
    &&& src.len() <= size
    &&& ns == os.update(idx, ns[idx])
    &&& ns[idx].start == start && ns[idx].end == end && ns[idx].prot == os[idx].prot
    &&& ns[idx].owned && !ns[idx].large
    &&& count == size / (PAGE_SIZE_SMALL as int) + (if size % (PAGE_SIZE_SMALL as int) != 0 {
        1int
    } else {
        0int
    })
    &&& ns[idx].bytes@.len() == size
    &&& (forall|i: int|
        0 <= i < size ==> ns[idx].bytes@[i] == (if i < src.len() {
            src[i]
        } else {
            0u8
        }))
    &&& (forall|a: int|
        crate::memory::pages_cover(ns[idx].pages@, a) ==> pool0.small.covers(a))
    &&& pool.total() == pool0.total() - count * PAGE_SIZE_SMALL
    &&& (forall|a: int|
        #[trigger] pool.covers(a) <==> (pool0.covers(a) && !crate::memory::pages_cover(
            ns[idx].pages@,
            a,
        )))
    &&& maps.len() == maps0.len() + count
    &&& maps.subrange(0, maps0.len() as int) == maps0
    &&& (forall|j: int|
        0 <= j < count ==> {
            let m = #[trigger] maps[maps0.len() + j];
            &&& m.vaddr == start + j * PAGE_SIZE_SMALL
            &&& m.paddr == ns[idx].pages@[j]
            &&& m.size == PAGE_SIZE_SMALL
            &&& m.prot == mmu_prot_spec(os[idx].prot)
            &&& m.flags == MMU_USER_PAGE
        })
}

/// What a populated region reads as: after `populate_from(start, end, src)`,
/// every address of `[start, end)` is readable, and a read there resolves to
/// that region alone — so it hands back the region's contents, the source
/// bytes followed by zeroes.
pub proof fn lemma_populated_region_reads(
    ns: Seq<VMRegion>,
    idx: int,
    start: int,
    end: int,
    src: Seq<u8>,
)
    requires
        vm_regions_wf(ns),
        0 <= idx < ns.len(),
        ns[idx].start == start,
        ns[idx].end == end,
        ns[idx].bytes@.len() == end - start,
        forall|i: int|
            0 <= i < end - start ==> ns[idx].bytes@[i] == (if i < src.len() {
                src[i]
            } else {
                0u8
            }),
    ensures
        forall|i: int| 0 <= i < end - start ==> #[trigger] vm_readable(ns, start + i),
        forall|i: int, j: int|
            0 <= i < end - start && 0 <= j < ns.len() && (#[trigger] ns[j]).start <= #[trigger] (
            start + i) < ns[j].end ==> j == idx,
{
    assert forall|i: int| 0 <= i < end - start implies #[trigger] vm_readable(ns, start + i) by {
        assert(ns[idx].start <= start + i < ns[idx].end && ns[idx].bytes@.len() > 0);
    }
    assert forall|i: int, j: int|
        0 <= i < end - start && 0 <= j < ns.len() && (#[trigger] ns[j]).start <= #[trigger] (
        start + i) < ns[j].end implies j == idx by {
        if j < idx {
            lemma_vm_regions_sorted(ns, j, idx);
        } else if j > idx {
            lemma_vm_regions_sorted(ns, idx, j);
        }
    }
}

/// The highest address the gap allocator might hand out from: the allocator
/// base, or the small-page-aligned end of the last-ending region, whichever
/// is larger.
pub open spec fn vm_watermark(s: Seq<VMRegion>) -> int
    decreases s.len(),
{
    if s.len() == 0 {
        VM_ALLOC_BASE as int
    } else {
        let rest = vm_watermark(s.drop_last());
        let aligned = align_up_spec(s.last().end as int, PAGE_SIZE_SMALL as int);
        if aligned > rest {
            aligned
        } else {
            rest
        }
    }
}

/// `value` rounded up to a multiple of `align`.
pub open spec fn align_up_spec(value: int, align: int) -> int {
    if value % align == 0 {
        value
    } else {
        value + align - value % align
    }
}

/// Rounding up lands on a multiple of `align`, at or above the value.
pub proof fn lemma_align_up_aligned(value: int, align: int)
    requires
        align > 0,
        value >= 0,
    ensures
        align_up_spec(value, align) % align == 0,
        align_up_spec(value, align) >= value,
{
    if value % align != 0 {
        assert((value + align - value % align) % align == 0 && value % align >= 0) by (nonlinear_arith)
            requires
                align > 0,
                value >= 0,
                value % align != 0,
        ;
    }
}

/// A bound on every region's aligned end bounds the watermark.
pub proof fn lemma_watermark_le(s: Seq<VMRegion>, bound: int)
    requires
        bound >= VM_ALLOC_BASE,
        forall|i: int|
            0 <= i < s.len() ==> align_up_spec((#[trigger] s[i]).end as int, PAGE_SIZE_SMALL as int)
                <= bound,
    ensures
        vm_watermark(s) <= bound,
    decreases s.len(),
{
    if s.len() > 0 {
        assert forall|i: int|
            0 <= i < s.drop_last().len() implies align_up_spec(
            (#[trigger] s.drop_last()[i]).end as int,
            PAGE_SIZE_SMALL as int,
        ) <= bound by {
            assert(s.drop_last()[i] == s[i]);
        }
        lemma_watermark_le(s.drop_last(), bound);
    }
}

/// Every region ends at or below the watermark.
pub proof fn lemma_watermark_bounds(s: Seq<VMRegion>)
    ensures
        vm_watermark(s) >= VM_ALLOC_BASE,
        forall|i: int|
            0 <= i < s.len() ==> align_up_spec((#[trigger] s[i]).end as int, PAGE_SIZE_SMALL as int)
                <= vm_watermark(s),
    decreases s.len(),
{
    if s.len() > 0 {
        lemma_watermark_bounds(s.drop_last());
        assert forall|i: int|
            0 <= i < s.len() implies align_up_spec(
            (#[trigger] s[i]).end as int,
            PAGE_SIZE_SMALL as int,
        ) <= vm_watermark(s) by {
            if i < s.len() - 1 {
                assert(s.drop_last()[i] == s[i]);
            }
        }
    }
}

/// VM address space: the ordered set of regions of one process, together
/// with its hardware translation table.
pub struct VMAddressSpace {
    pub regions: Vec<VMRegion>,
    pub mmu_map: MMUMap,
}

impl VMAddressSpace {
    /// The regions, ordered by start address.
    pub open spec fn regions_spec(&self) -> Seq<VMRegion> {
        self.regions@
    }

    /// Regions are disjoint and sorted, and every backing page has a
    /// translation installed.
    pub open spec fn wf(&self) -> bool {
        &&& vm_regions_wf(self.regions_spec())
        &&& forall|i: int|
            0 <= i < self.regions_spec().len() ==> region_mapped(
                #[trigger] self.regions_spec()[i],
                self.mmu_map.mappings@,
            )
    }

    /// Constructs an empty address space over the translation table with
    /// identity `map_id`.
    pub fn new(map_id: u64) -> (r: VMAddressSpace)
        ensures
            r.wf(),
            r.regions_spec() =~= Seq::<VMRegion>::empty(),
            r.mmu_map.id == map_id,
            r.mmu_map.mappings@ =~= Seq::<MMUMapping>::empty(),
    {
        VMAddressSpace { regions: Vec::new(), mmu_map: MMUMap::new(map_id) }
    }

    /// Number of regions.
    pub fn num_regions(&self) -> (r: usize)
        ensures
            r == self.regions_spec().len(),
    {
        self.regions.len()
    }

    /// The region at position `i`, in start-address order.
    pub fn region_at(&self, i: usize) -> (r: &VMRegion)
        requires
            i < self.regions_spec().len(),
        ensures
            *r == self.regions_spec()[i as int],
    {
        &self.regions[i]
    }

    /// Loads this address space's translation table into the MMU model.
    pub fn switch_to(&self, loaded_map: &mut u64)
        ensures
            *final(loaded_map) == self.mmu_map.id,
    {
        *loaded_map = self.mmu_map.id;
    }

    /// Position of the region starting exactly at `start`, if any.
    fn find_region(&self, start: usize) -> (r: Option<usize>)
        ensures
            r matches Some(i) ==> i < self.regions_spec().len()
                && self.regions_spec()[i as int].start == start,
            r is None ==> forall|i: int|
                0 <= i < self.regions_spec().len() ==> (#[trigger] self.regions_spec()[i]).start
                    != start,
    {
        let mut i: usize = 0;
        let n = self.regions.len();
        while i < n
            invariant
                n == self.regions_spec().len(),
                i <= n,
                forall|k: int|
                    0 <= k < i ==> (#[trigger] self.regions_spec()[k]).start != start,
            decreases n - i,
        {
            if self.regions[i].start == start {
                return Some(i);
            }
            i += 1;
        }
        None
    }

    /// Allocates virtual memory at a fixed location: inserts the region
    /// `[start, end)` with protection `prot`, rejecting a malformed or
    /// misaligned interval and any intersection with an existing region.
    #[verifier::rlimit(100)]
    #[verifier::spinoff_prover]
    pub fn allocate_fixed(&mut self, start: usize, end: usize, prot: VMProt) -> (r: Result<
        (),
        Error,
    >)
        requires
            old(self).wf(),
        ensures
            final(self).wf(),
            final(self).mmu_map == old(self).mmu_map,
            r is Ok <==> (start < end && (end - start) as int % (PAGE_SIZE_SMALL as int) == 0
                && !vm_intersects(old(self).regions_spec(), start as int, end as int)),
            r matches Err(e) ==> e.0 == EINVAL && final(self).regions_spec()
                == old(self).regions_spec(),
            r is Ok ==> exists|idx: int|
                #![trigger final(self).regions_spec()[idx]]
                {
                    let ns = final(self).regions_spec();
                    &&& 0 <= idx <= old(self).regions_spec().len()
                    &&& ns == old(self).regions_spec().insert(idx, ns[idx])
                    &&& ns[idx].start == start
                    &&& ns[idx].end == end
                    &&& ns[idx].prot == prot
                    &&& ns[idx].pages@.len() == 0
                    &&& ns[idx].bytes@.len() == 0
                    &&& !ns[idx].owned
                },
    {
        if start >= end {
            return Err(Error::new(EINVAL));
        }
        if (end - start) % (PAGE_SIZE_SMALL as usize) != 0 {
            return Err(Error::new(EINVAL));
        }
        let ghost s = self.regions@;
        // Reject if any existing region intersects [start, end).
        let n = self.regions.len();
        let mut i: usize = 0;
        while i < n
            invariant
                self.regions@ == s,
                self.mmu_map == old(self).mmu_map,
                self.wf(),
                n == s.len(),
                i <= n,
                forall|k: int| 0 <= k < i ==> !((#[trigger] s[k]).start < end && start < s[k].end),
            decreases n - i,
        {
            let reg_start = self.regions[i].start;
            let reg_end = self.regions[i].end;
            if reg_start < end && start < reg_end {
                proof {
                    assert(vm_intersects(s, start as int, end as int));
                }
                return Err(Error::new(EINVAL));
            }
            i += 1;
        }
        // Find the insertion position that keeps the list sorted.
        let mut idx: usize = 0;
        while idx < n && self.regions[idx].start < start
            invariant
                self.regions@ == s,
                self.mmu_map == old(self).mmu_map,
                self.wf(),
                n == s.len(),
                idx <= n,
                forall|k: int| 0 <= k < idx ==> (#[trigger] s[k]).start < start,
                forall|k: int| 0 <= k < n ==> !((#[trigger] s[k]).start < end && start < s[k].end),
            decreases n - idx,
        {
            idx += 1;
        }
        let region = VMRegion::new(start, end, prot);
        self.regions.insert(idx, region);
        proof {
            let ns = self.regions@;
            assert(ns == s.insert(idx as int, ns[idx as int]));
            assert forall|k: int| 0 <= k < ns.len() - 1 implies (#[trigger] ns[k]).end <= ns[k
                + 1].start by {
                if k < idx as int - 1 {
                    assert(ns[k] == s[k] && ns[k + 1] == s[k + 1]);
                } else if k == idx as int - 1 {
                    assert(ns[k] == s[k] && ns[k + 1] == region);
                    // s[k] starts before `start` and does not intersect.
                    assert(s[k].start < start);
                    assert(!(s[k].start < end && start < s[k].end));
                } else if k == idx as int {
                    assert(ns[k] == region && ns[k + 1] == s[k]);
                    assert(s[k].start >= start);
                    assert(!(s[k].start < end && start < s[k].end));
                } else {
                    assert(ns[k] == s[k - 1] && ns[k + 1] == s[k]);
                }
            }
            assert forall|k: int| 0 <= k < ns.len() implies (#[trigger] ns[k]).wf() by {
                if k < idx as int {
                    assert(ns[k] == s[k]);
                } else if k == idx as int {
                } else {
                    assert(ns[k] == s[k - 1]);
                }
            }
            assert forall|k: int|
                0 <= k < ns.len() implies region_mapped(
                #[trigger] ns[k],
                self.mmu_map.mappings@,
            ) by {
                if k < idx as int {
                    assert(ns[k] == s[k]);
                } else if k == idx as int {
                    assert(ns[k].pages@.len() == 0);
                } else {
                    assert(ns[k] == s[k - 1]);
                }
            }
            assert(ns[idx as int] == region);
            assert(0 <= idx as int <= s.len());
            assert(ns[idx as int].start == start && ns[idx as int].end == end && ns[idx
                as int].prot == prot);
            assert(ns[idx as int].pages@.len() == 0 && ns[idx as int].bytes@.len() == 0 && !ns[idx
                as int].owned);
            assert(exists|w: int|
                #![trigger self.regions_spec()[w]]
                {
                    let ns2 = self.regions_spec();
                    &&& 0 <= w <= s.len()
                    &&& ns2 == s.insert(w, ns2[w])
                    &&& ns2[w].start == start
                    &&& ns2[w].end == end
                    &&& ns2[w].prot == prot
                    &&& ns2[w].pages@.len() == 0
                    &&& ns2[w].bytes@.len() == 0
                    &&& !ns2[w].owned
                }) by {
                assert({
                    let ns2 = self.regions_spec();
                    &&& 0 <= idx as int <= s.len()
                    &&& ns2 == s.insert(idx as int, ns2[idx as int])
                    &&& ns2[idx as int].start == start
                    &&& ns2[idx as int].end == end
                    &&& ns2[idx as int].prot == prot
                    &&& ns2[idx as int].pages@.len() == 0
                    &&& ns2[idx as int].bytes@.len() == 0
                    &&& !ns2[idx as int].owned
                });
            }
        }
        Ok(())
    }

    /// Removes the region with exactly the bounds `[start, end)` and returns
    /// its backing pages to the arena; fails with `EINVAL` when no such
    /// region exists.
    pub fn deallocate(&mut self, start: usize, end: usize, pool: &mut MemoryPool) -> (r: Result<
        (),
        Error,
    >)
        requires
            old(self).wf(),
            old(pool).wf(),
            forall|i: int|
                0 <= i < old(self).regions_spec().len() && (#[trigger] old(
                    self,
                ).regions_spec()[i]).start == start ==> forall|a: int|
                    old(self).regions_spec()[i].backing_covers(a) ==> !old(pool).covers(a),
        ensures
            final(self).wf(),
            final(pool).wf(),
            final(self).mmu_map == old(self).mmu_map,
            r is Ok <==> vm_has_region(old(self).regions_spec(), start as int, end as int),
            r matches Err(e) ==> e.0 == EINVAL && final(self).regions_spec()
                == old(self).regions_spec() && *final(pool) == *old(pool),
            r is Ok ==> exists|idx: int|
                #![trigger old(self).regions_spec()[idx]]
                {
                    let os = old(self).regions_spec();
                    &&& 0 <= idx < os.len()
                    &&& os[idx].start == start
                    &&& os[idx].end == end
                    &&& final(self).regions_spec() == os.remove(idx)
                    &&& final(pool).total() == old(pool).total() + os[idx].backing_bytes()
                    &&& forall|a: int|
                        #[trigger] final(pool).covers(a) <==> (old(pool).covers(a)
                            || os[idx].backing_covers(a))
                },
            // no remaining region overlaps the freed range
            r is Ok ==> !vm_intersects(final(self).regions_spec(), start as int, end as int),
    {
        let found = self.find_region(start);
        match found {
            None => {
                proof {
                    assert forall|i: int|
                        0 <= i < self.regions_spec().len() implies !((#[trigger]
                    self.regions_spec()[i]).start == start as int && self.regions_spec()[i].end
                        == end as int) by {}
                }
                Err(Error::new(EINVAL))
            },
            Some(idx) => {
                if self.regions[idx].end != end {
                    proof {
                        let s = self.regions_spec();
                        assert forall|i: int|
                            0 <= i < s.len() implies !((#[trigger] s[i]).start == start as int
                            && s[i].end == end as int) by {
                            if i != idx as int && s[i].start == start as int {
                                if i < idx as int {
                                    lemma_vm_regions_sorted(s, i, idx as int);
                                } else {
                                    lemma_vm_regions_sorted(s, idx as int, i);
                                }
                            }
                        }
                    }
                    return Err(Error::new(EINVAL));
                }
                let ghost s = self.regions@;
                let mut region = self.regions.remove(idx);
                region.release(pool);
                proof {
                    let ns = self.regions@;
                    assert forall|k: int| 0 <= k < ns.len() - 1 implies (#[trigger] ns[k]).end
                        <= ns[k + 1].start by {
                        if k < idx as int - 1 {
                            assert(ns[k] == s[k] && ns[k + 1] == s[k + 1]);
                        } else if k == idx as int - 1 {
                            assert(ns[k] == s[k] && ns[k + 1] == s[k + 2]);
                            lemma_vm_regions_sorted(s, k, k + 2);
                        } else {
                            assert(ns[k] == s[k + 1] && ns[k + 1] == s[k + 2]);
                        }
                    }
                    assert forall|k: int| 0 <= k < ns.len() implies (#[trigger] ns[k]).wf()
                        && region_mapped(ns[k], self.mmu_map.mappings@) by {
                        if k < idx as int {
                            assert(ns[k] == s[k]);
                        } else {
                            assert(ns[k] == s[k + 1]);
                        }
                    }
                    assert(vm_has_region(s, start as int, end as int));
                    assert forall|k: int|
                        0 <= k < ns.len() implies !((#[trigger] ns[k]).start < (end as int)
                        && (start as int) < ns[k].end) by {
                        if k < idx as int {
                            assert(ns[k] == s[k]);
                            lemma_vm_regions_sorted(s, k, idx as int);
                        } else {
                            assert(ns[k] == s[k + 1]);
                            lemma_vm_regions_sorted(s, idx as int, k + 1);
                        }
                    }
                }
                Ok(())
            },
        }
    }

    /// Installs a translation for the region `[start, end)` using a page the
    /// caller already owns; the region does not take ownership, so the page
    /// is not returned to the arena when the region is released.
    #[verifier::rlimit(100)]
    #[verifier::spinoff_prover]
    pub fn map(&mut self, start: usize, end: usize, page: u64) -> (r: Result<(), Error>)
        requires
            old(self).wf(),
        ensures
            final(self).wf(),
            final(self).mmu_map.id == old(self).mmu_map.id,
            r is Ok <==> vm_has_region(old(self).regions_spec(), start as int, end as int),
            r matches Err(e) ==> e.0 == EINVAL && final(self).regions_spec()
                == old(self).regions_spec() && final(self).mmu_map == old(self).mmu_map,
            r is Ok ==> exists|idx: int|
                #![trigger old(self).regions_spec()[idx]]
                {
                    let os = old(self).regions_spec();
                    let ns = final(self).regions_spec();
                    &&& 0 <= idx < os.len()
                    &&& os[idx].start == start
                    &&& os[idx].end == end
                    &&& ns == os.update(idx, ns[idx])
                    &&& ns[idx].start == start && ns[idx].end == end && ns[idx].prot
                        == os[idx].prot
                    &&& ns[idx].pages@ =~= seq![page]
                    &&& !ns[idx].owned
                    &&& ns[idx].bytes@ == os[idx].bytes@
                    &&& final(self).mmu_map.mappings@ == old(self).mmu_map.mappings@.push(
                        MMUMapping {
                            vaddr: start,
                            paddr: page,
                            size: (end - start) as usize,
                            prot: mmu_prot_spec(os[idx].prot),
                            flags: MMU_USER_PAGE,
                        },
                    )
                },
    {
        let found = self.find_region(start);
        match found {
            None => {
                proof {
                    assert forall|i: int|
                        0 <= i < self.regions_spec().len() implies !((#[trigger]
                    self.regions_spec()[i]).start == start as int && self.regions_spec()[i].end
                        == end as int) by {}
                }
                Err(Error::new(EINVAL))
            },
            Some(idx) => {
                if self.regions[idx].end != end {
                    proof {
                        let s = self.regions_spec();
                        assert forall|i: int|
                            0 <= i < s.len() implies !((#[trigger] s[i]).start == start as int
                            && s[i].end == end as int) by {
                            if i != idx as int && s[i].start == start as int {
                                if i < idx as int {
                                    lemma_vm_regions_sorted(s, i, idx as int);
                                } else {
                                    lemma_vm_regions_sorted(s, idx as int, i);
                                }
                            }
                        }
                    }
                    return Err(Error::new(EINVAL));
                }
                let ghost s = self.regions@;
                let mut region = self.regions.remove(idx);
                let prot_bits = region.mmu_prot();
                let mut pages: Vec<u64> = Vec::new();
                pages.push(page);
                region.pages = pages;
                region.owned = false;
                region.large = false;
                let mapping = MMUMapping {
                    vaddr: start,
                    paddr: page,
                    size: end - start,
                    prot: prot_bits,
                    flags: MMU_USER_PAGE,
                };
                self.mmu_map.mappings.push(mapping);
                self.regions.insert(idx, region);
                proof {
                    let ns = self.regions@;
                    let maps = self.mmu_map.mappings@;
                    assert(ns =~= s.update(idx as int, ns[idx as int]));
                    lemma_mapping_present_push(old(self).mmu_map.mappings@, mapping);
                    assert(maps[maps.len() - 1] == mapping);
                    assert(mapping_present(maps, start as int, page));
                    assert forall|k: int| 0 <= k < ns.len() implies (#[trigger] ns[k]).wf()
                        && region_mapped(ns[k], maps) by {
                        if k != idx as int {
                            assert(ns[k] == s[k]);
                            assert(region_mapped(s[k], old(self).mmu_map.mappings@));
                        } else {
                            assert(ns[k].pages@ =~= seq![page]);
                            assert(ns[k].pages@[0] == page);
                            assert(ns[k].start + 0 * PAGE_SIZE_SMALL == start as int);
                        }
                    }
                    assert(vm_has_region(s, start as int, end as int));
                }
                Ok(())
            },
        }
    }

    /// Allocates a page of the matching size from the arena, records it in
    /// the region with exactly the bounds `[start, end)`, zero-fills the
    /// region's contents, and installs a hardware translation with the
    /// region's protection plus the user flag. Fails with `EINVAL` when no
    /// such region exists or its size is not exactly one small or one large
    /// page, and with `ENOMEM` when the arena cannot serve the request.
    #[verifier::rlimit(100)]
    #[verifier::spinoff_prover]
    pub fn populate(&mut self, start: usize, end: usize, pool: &mut MemoryPool) -> (r: Result<
        (),
        Error,
    >)
        requires
            old(self).wf(),
            old(pool).wf(),
        ensures
            final(self).wf(),
            final(pool).wf(),
            final(self).mmu_map.id == old(self).mmu_map.id,
            r is Ok <==> (vm_has_region(old(self).regions_spec(), start as int, end as int) && (end
                - start == PAGE_SIZE_SMALL || end - start == PAGE_SIZE_LARGE)
                && pool_can_serve_page(*old(pool), end - start)),
            r is Ok && end - start == PAGE_SIZE_SMALL ==> final(pool).small@
                == crate::memory::arena_after_small_page(old(pool).small@) && final(pool).large
                == old(pool).large,
            r is Ok && end - start == PAGE_SIZE_LARGE ==> final(pool).small == old(pool).small,
            r is Err ==> final(pool).small@ == old(pool).small@ && final(pool).large@ == old(
                pool,
            ).large@,
            r matches Err(e) ==> {
                &&& final(self).regions_spec() == old(self).regions_spec()
                &&& final(self).mmu_map == old(self).mmu_map
                &&& final(pool).total() == old(pool).total()
                &&& (e.0 == EINVAL <==> !(vm_has_region(
                    old(self).regions_spec(),
                    start as int,
                    end as int,
                ) && (end - start == PAGE_SIZE_SMALL || end - start == PAGE_SIZE_LARGE)))
                &&& (e.0 == ENOMEM <==> (vm_has_region(
                    old(self).regions_spec(),
                    start as int,
                    end as int,
                ) && (end - start == PAGE_SIZE_SMALL || end - start == PAGE_SIZE_LARGE)
                    && !pool_can_serve_page(*old(pool), end - start)))
            },
            r is Ok ==> exists|idx: int|
                #![trigger old(self).regions_spec()[idx]]
                {
                    let os = old(self).regions_spec();
                    let ns = final(self).regions_spec();
                    let size = end - start;
                    let p = ns[idx].pages@[0];
                    &&& 0 <= idx < os.len()
                    &&& os[idx].start == start && os[idx].end == end
                    &&& (size == PAGE_SIZE_SMALL || size == PAGE_SIZE_LARGE)
                    &&& ns == os.update(idx, ns[idx])
                    &&& ns[idx].start == start && ns[idx].end == end && ns[idx].prot
                        == os[idx].prot
                    &&& ns[idx].pages@.len() == 1
                    &&& ns[idx].owned
                    &&& ns[idx].large == (size == PAGE_SIZE_LARGE)
                    &&& ns[idx].bytes@.len() == size
                    &&& (forall|i: int| 0 <= i < size ==> ns[idx].bytes@[i] == 0u8)
                    &&& final(self).mmu_map.mappings@ == old(self).mmu_map.mappings@.push(
                        MMUMapping {
                            vaddr: start,
                            paddr: p,
                            size: (end - start) as usize,
                            prot: mmu_prot_spec(os[idx].prot),
                            flags: MMU_USER_PAGE,
                        },
                    )
                    &&& final(pool).total() == old(pool).total() - size
                    &&& (forall|a: int| p <= a < p + size ==> old(pool).covers(a))
                    &&& (forall|a: int|
                        #[trigger] final(pool).covers(a) <==> (old(pool).covers(a) && !(p <= a < p
                            + size)))
                },
    {
        let found = self.find_region(start);
        let idx = match found {
            None => {
                proof {
                    assert forall|i: int|
                        0 <= i < self.regions_spec().len() implies !((#[trigger]
                    self.regions_spec()[i]).start == start as int && self.regions_spec()[i].end
                        == end as int) by {}
                }
                return Err(Error::new(EINVAL));
            },
            Some(idx) => idx,
        };
        if self.regions[idx].end != end {
            proof {
                let s = self.regions_spec();
                assert forall|i: int|
                    0 <= i < s.len() implies !((#[trigger] s[i]).start == start as int && s[i].end
                    == end as int) by {
                    if i != idx as int && s[i].start == start as int {
                        if i < idx as int {
                            lemma_vm_regions_sorted(s, i, idx as int);
                        } else {
                            lemma_vm_regions_sorted(s, idx as int, i);
                        }
                    }
                }
            }
            return Err(Error::new(EINVAL));
        }
        let size = end - start;
        let large = if size == (PAGE_SIZE_LARGE as usize) {
            true
        } else if size == (PAGE_SIZE_SMALL as usize) {
            false
        } else {
            return Err(Error::new(EINVAL));
        };
        let page = if large {
            pool.page_alloc_large()
        } else {
            pool.page_alloc_small()
        };
        let p = match page {
            None => {
                proof {
                    assert(vm_has_region(self.regions_spec(), start as int, end as int));
                }
                return Err(Error::new(ENOMEM));
            },
            Some(p) => p,
        };
        proof {
            if large {
                assert(old(pool).large.covers(p + PAGE_SIZE_LARGE - 1));
                crate::memory::lemma_covered_bounded(old(pool).large@, p + PAGE_SIZE_LARGE - 1);
            } else {
                assert(old(pool).small.covers(p + PAGE_SIZE_SMALL - 1));
                crate::memory::lemma_covered_bounded(old(pool).small@, p + PAGE_SIZE_SMALL - 1);
            }
        }
        let ghost s = self.regions@;
        let mut region = self.regions.remove(idx);
        let prot_bits = region.mmu_prot();
        let mut pages: Vec<u64> = Vec::new();
        pages.push(p);
        region.pages = pages;
        region.owned = true;
        region.large = large;
        region.bytes = zero_bytes(size);
        let mapping = MMUMapping {
            vaddr: start,
            paddr: p,
            size,
            prot: prot_bits,
            flags: MMU_USER_PAGE,
        };
        self.mmu_map.mappings.push(mapping);
        self.regions.insert(idx, region);
        proof {
            let ns = self.regions@;
            let maps = self.mmu_map.mappings@;
            assert(ns =~= s.update(idx as int, ns[idx as int]));
            lemma_mapping_present_push(old(self).mmu_map.mappings@, mapping);
            assert(maps[maps.len() - 1] == mapping);
            assert(mapping_present(maps, start as int, p));
            assert forall|k: int| 0 <= k < ns.len() implies (#[trigger] ns[k]).wf()
                && region_mapped(ns[k], maps) by {
                if k != idx as int {
                    assert(ns[k] == s[k]);
                    assert(region_mapped(s[k], old(self).mmu_map.mappings@));
                } else {
                    assert(ns[k].pages@ =~= seq![p]);
                    assert(ns[k].pages@[0] == p);
                    assert(ns[k].start + 0 * PAGE_SIZE_SMALL == start as int);
                }
            }
            assert(vm_has_region(s, start as int, end as int));
            assert forall|a: int|
                #[trigger] pool.covers(a) <==> (old(pool).covers(a) && !(p <= a < p
                    + size)) by {
                if p <= a < p + size {
                    if large {
                        assert(old(pool).large.covers(a));
                        assert(!old(pool).small.covers(a));
                    } else {
                        assert(old(pool).small.covers(a));
                        assert(!old(pool).large.covers(a));
                    }
                }
            }
            assert(exists|w: int|
                #![trigger old(self).regions_spec()[w]]
                {
                    let ns2 = self.regions_spec();
                    let size2 = end - start;
                    let pw = ns2[w].pages@[0];
                    &&& 0 <= w < s.len()
                    &&& s[w].start == start && s[w].end == end
                    &&& (size2 == PAGE_SIZE_SMALL || size2 == PAGE_SIZE_LARGE)
                    &&& ns2 == s.update(w, ns2[w])
                    &&& ns2[w].start == start && ns2[w].end == end && ns2[w].prot == s[w].prot
                    &&& ns2[w].pages@.len() == 1
                    &&& ns2[w].owned
                    &&& ns2[w].large == (size2 == PAGE_SIZE_LARGE)
                    &&& ns2[w].bytes@.len() == size2
                    &&& (forall|i: int| 0 <= i < size2 ==> ns2[w].bytes@[i] == 0u8)
                    &&& self.mmu_map.mappings@ == old(self).mmu_map.mappings@.push(
                        MMUMapping {
                            vaddr: start,
                            paddr: pw,
                            size: (end - start) as usize,
                            prot: mmu_prot_spec(s[w].prot),
                            flags: MMU_USER_PAGE,
                        },
                    )
                    &&& pool.total() == old(pool).total() - size2
                    &&& (forall|a: int| pw <= a < pw + size2 ==> old(pool).covers(a))
                    &&& (forall|a: int|
                        #[trigger] pool.covers(a) <==> (old(pool).covers(a) && !(pw <= a < pw
                            + size2)))
                }) by {
                assert({
                    let ns2 = self.regions_spec();
                    let size2 = end - start;
                    let w = idx as int;
                    let pw = ns2[w].pages@[0];
                    &&& 0 <= w < s.len()
                    &&& s[w].start == start && s[w].end == end
                    &&& (size2 == PAGE_SIZE_SMALL || size2 == PAGE_SIZE_LARGE)
                    &&& ns2 == s.update(w, ns2[w])
                    &&& ns2[w].start == start && ns2[w].end == end && ns2[w].prot == s[w].prot
                    &&& ns2[w].pages@.len() == 1
                    &&& ns2[w].owned
                    &&& ns2[w].large == (size2 == PAGE_SIZE_LARGE)
                    &&& ns2[w].bytes@.len() == size2
                    &&& (forall|i: int| 0 <= i < size2 ==> ns2[w].bytes@[i] == 0u8)
                    &&& self.mmu_map.mappings@ == old(self).mmu_map.mappings@.push(
                        MMUMapping {
                            vaddr: start,
                            paddr: pw,
                            size: (end - start) as usize,
                            prot: mmu_prot_spec(s[w].prot),
                            flags: MMU_USER_PAGE,
                        },
                    )
                    &&& pool.total() == old(pool).total() - size2
                    &&& (forall|a: int| pw <= a < pw + size2 ==> old(pool).covers(a))
                    &&& (forall|a: int|
                        #[trigger] pool.covers(a) <==> (old(pool).covers(a) && !(pw <= a < pw
                            + size2)))
                });
            }
        }
        Ok(())
    }

    /// Like `populate`, but fills the region's contents from `src` before
    /// installing the translations: the region then reads as `src` followed
    /// by zeroes. One small page backs each small-page-sized chunk of the
    /// region. Fails with `EINVAL` when no region has exactly the bounds
    /// `[start, end)` or the source is larger than the region, and with
    /// `ENOMEM` when the arena runs dry (nothing is changed then).
    #[verifier::rlimit(100)]
    #[verifier::spinoff_prover]
    pub fn populate_from(
        &mut self,
        start: usize,
        end: usize,
        src: &Vec<u8>,
        pool: &mut MemoryPool,
    ) -> (r: Result<(), Error>)
        requires
            old(self).wf(),
            old(pool).wf(),
        ensures
            final(self).wf(),
            final(pool).wf(),
            final(self).mmu_map.id == old(self).mmu_map.id,
            r is Ok <==> (vm_has_region(old(self).regions_spec(), start as int, end as int)
                && src@.len() <= end - start && crate::memory::arena_can_serve(
                old(pool).small@,
                small_pages_for(end - start),
            )),
            final(pool).large == old(pool).large,
            r is Ok ==> final(pool).small@ == crate::memory::arena_after_pages(
                old(pool).small@,
                small_pages_for(end - start),
            ),
            r matches Err(e) ==> {
                &&& final(self).regions_spec() == old(self).regions_spec()
                &&& final(self).mmu_map == old(self).mmu_map
                &&& final(pool).total() == old(pool).total()
                &&& (forall|a: int| #[trigger] final(pool).covers(a) <==> old(pool).covers(a))
                &&& (e.0 == EINVAL <==> !(vm_has_region(
                    old(self).regions_spec(),
                    start as int,
                    end as int,
                ) && src@.len() <= end - start))
                &&& (e.0 == ENOMEM <==> (vm_has_region(
                    old(self).regions_spec(),
                    start as int,
                    end as int,
                ) && src@.len() <= end - start && !crate::memory::arena_can_serve(
                    old(pool).small@,
                    small_pages_for(end - start),
                )))
            },
            r is Ok ==> exists|idx: int|
                #![trigger old(self).regions_spec()[idx]]
                populate_from_post(
                    old(self).regions_spec(),
                    final(self).regions_spec(),
                    old(self).mmu_map.mappings@,
                    final(self).mmu_map.mappings@,
                    *old(pool),
                    *final(pool),
                    idx,
                    start as int,
                    end as int,
                    src@,
                ),
    {
        let found = self.find_region(start);
        let idx = match found {
            None => {
                proof {
                    assert forall|i: int|
                        0 <= i < self.regions_spec().len() implies !((#[trigger]
                    self.regions_spec()[i]).start == start as int && self.regions_spec()[i].end
                        == end as int) by {}
                }
                return Err(Error::new(EINVAL));
            },
            Some(idx) => idx,
        };
        if self.regions[idx].end != end {
            proof {
                let s = self.regions_spec();
                assert forall|i: int|
                    0 <= i < s.len() implies !((#[trigger] s[i]).start == start as int && s[i].end
                    == end as int) by {
                    if i != idx as int && s[i].start == start as int {
                        if i < idx as int {
                            lemma_vm_regions_sorted(s, i, idx as int);
                        } else {
                            lemma_vm_regions_sorted(s, idx as int, i);
                        }
                    }
                }
            }
            return Err(Error::new(EINVAL));
        }
        let size = end - start;
        if src.len() > size {
            return Err(Error::new(EINVAL));
        }
        let small = PAGE_SIZE_SMALL as usize;
        let count = size / small + (if size % small != 0 {
            1
        } else {
            0
        });
        proof {
            assert(self.regions_spec()[idx as int].wf());
            assert(size > 0);
            assert(count >= 1) by (nonlinear_arith)
                requires
                    size > 0,
                    small == PAGE_SIZE_SMALL,
                    count == size as int / small as int + (if size as int % small as int != 0 {
                        1int
                    } else {
                        0int
                    }),
            ;
            assert(vm_has_region(self.regions_spec(), start as int, end as int));
        }
        let pages = match pool.alloc_small_pages(count) {
            None => {
                return Err(Error::new(ENOMEM));
            },
            Some(p) => p,
        };
        let ghost s = self.regions@;
        let mut region = self.regions.remove(idx);
        let prot_bits = region.mmu_prot();
        region.owned = true;
        region.large = false;
        region.bytes = padded_bytes(size, src);
        let n_pages = pages.len();
        let ghost maps0 = self.mmu_map.mappings@;
        proof {
            // The last page's virtual address stays inside the region.
            vstd::arithmetic::div_mod::lemma_fundamental_div_mod(size as int, small as int);
            assert((count - 1) * small < size) by (nonlinear_arith)
                requires
                    size > 0,
                    small > 0,
                    count == size as int / small as int + (if size as int % small as int != 0 {
                        1int
                    } else {
                        0int
                    }),
                    size as int == small as int * (size as int / small as int) + size as int
                        % small as int,
                    0 <= (size as int) % (small as int),
                    ((size as int) % (small as int)) < (small as int),
            ;
        }
        let mut j: usize = 0;
        while j < n_pages
            invariant
                j <= n_pages,
                n_pages == pages@.len(),
                n_pages == count,
                count >= 1,
                small == PAGE_SIZE_SMALL,
                (count - 1) * small < size,
                size == end - start,
                start < end,
                idx < s.len(),
                self.regions@ == s.remove(idx as int),
                self.mmu_map.id == old(self).mmu_map.id,
                self.mmu_map.mappings@.len() == maps0.len() + j,
                self.mmu_map.mappings@.subrange(0, maps0.len() as int) == maps0,
                prot_bits == mmu_prot_spec(region.prot),
                forall|jj: int|
                    0 <= jj < j ==> {
                        let m = #[trigger] self.mmu_map.mappings@[maps0.len() + jj];
                        &&& m.vaddr == start + jj * PAGE_SIZE_SMALL
                        &&& m.paddr == pages@[jj]
                        &&& m.size == PAGE_SIZE_SMALL
                        &&& m.prot == prot_bits
                        &&& m.flags == MMU_USER_PAGE
                    },
                forall|va: int, pa: u64|
                    mapping_present(maps0, va, pa) ==> #[trigger] mapping_present(
                        self.mmu_map.mappings@,
                        va,
                        pa,
                    ),
            decreases n_pages - j,
        {
            let page = pages[j];
            proof {
                assert(j * small <= (count - 1) * small) by (nonlinear_arith)
                    requires
                        0 <= j as int <= count - 1,
                        small > 0,
                ;
            }
            let vaddr = start + j * small;
            let mapping = MMUMapping {
                vaddr,
                paddr: page,
                size: small,
                prot: prot_bits,
                flags: MMU_USER_PAGE,
            };
            let ghost maps_prev = self.mmu_map.mappings@;
            self.mmu_map.mappings.push(mapping);
            j += 1;
            proof {
                assert(self.mmu_map.mappings@.subrange(0, maps0.len() as int) =~= maps_prev.subrange(
                    0,
                    maps0.len() as int,
                ));
                assert forall|va: int, pa: u64|
                    mapping_present(maps0, va, pa) implies #[trigger] mapping_present(
                    self.mmu_map.mappings@,
                    va,
                    pa,
                ) by {
                    assert(mapping_present(maps_prev, va, pa));
                    let jj = choose|jj: int|
                        0 <= jj < maps_prev.len() && (#[trigger] maps_prev[jj]).vaddr == va
                            && maps_prev[jj].paddr == pa;
                    assert(self.mmu_map.mappings@[jj] == maps_prev[jj]);
                }
            }
        }
        region.pages = pages;
        self.regions.insert(idx, region);
        proof {
            let ns = self.regions@;
            let maps = self.mmu_map.mappings@;
            assert(ns =~= s.update(idx as int, ns[idx as int]));
            assert forall|k: int| 0 <= k < ns.len() implies (#[trigger] ns[k]).wf()
                && region_mapped(ns[k], maps) by {
                if k != idx as int {
                    assert(ns[k] == s[k]);
                    assert(region_mapped(s[k], maps0));
                    assert forall|p: int|
                        0 <= p < ns[k].pages@.len() implies mapping_present(
                        maps,
                        ns[k].start + p * PAGE_SIZE_SMALL,
                        #[trigger] ns[k].pages@[p],
                    ) by {
                        assert(mapping_present(maps0, ns[k].start + p * PAGE_SIZE_SMALL, ns[k].pages@[p]));
                    }
                } else {
                    assert forall|p: int|
                        0 <= p < ns[k].pages@.len() implies mapping_present(
                        maps,
                        ns[k].start + p * PAGE_SIZE_SMALL,
                        #[trigger] ns[k].pages@[p],
                    ) by {
                        let m = maps[maps0.len() + p];
                        assert(m.vaddr == start + p * PAGE_SIZE_SMALL && m.paddr
                            == ns[k].pages@[p]);
                    }
                }
            }
            assert(populate_from_post(
                s,
                ns,
                maps0,
                maps,
                *old(pool),
                *pool,
                idx as int,
                start as int,
                end as int,
                src@,
            ));
        }
        Ok(())
    }

    /// Finds a free gap of exactly `size` bytes at or above the allocator
    /// base, below the allocator ceiling, inserts an unbacked region over it
    /// with protection `prot`, and returns its bounds. Fails with `ENOMEM`
    /// when no such gap exists; success is guaranteed whenever the request
    /// fits the allocator range and every existing region ends comfortably
    /// below the ceiling.
    #[verifier::rlimit(100)]
    #[verifier::spinoff_prover]
    pub fn allocate(&mut self, size: usize, prot: VMProt) -> (r: Result<(usize, usize), Error>)
        requires
            old(self).wf(),
            0 < size,
            size as int % (PAGE_SIZE_SMALL as int) == 0,
        ensures
            final(self).wf(),
            final(self).mmu_map == old(self).mmu_map,
            r matches Err(e) ==> e.0 == ENOMEM && final(self).regions_spec()
                == old(self).regions_spec(),
            r matches Ok(se) ==> {
                &&& se.1 == se.0 + size
                &&& VM_ALLOC_BASE <= se.0
                &&& se.1 <= VM_ALLOC_CEILING
                &&& se.0 <= vm_watermark(old(self).regions_spec())
                &&& se.0 as int % (PAGE_SIZE_SMALL as int) == 0
                &&& !vm_intersects(old(self).regions_spec(), se.0 as int, se.1 as int)
                &&& exists|idx: int|
                    #![trigger final(self).regions_spec()[idx]]
                    {
                        let ns = final(self).regions_spec();
                        &&& 0 <= idx <= old(self).regions_spec().len()
                        &&& ns == old(self).regions_spec().insert(idx, ns[idx])
                        &&& ns[idx].start == se.0
                        &&& ns[idx].end == se.1
                        &&& ns[idx].prot == prot
                        &&& ns[idx].pages@.len() == 0
                        &&& ns[idx].bytes@.len() == 0
                        &&& !ns[idx].owned
                    }
            },
            (size + PAGE_SIZE_SMALL + VM_ALLOC_BASE <= VM_ALLOC_CEILING && (forall|i: int|
                0 <= i < old(self).regions_spec().len() ==> (#[trigger] old(
                    self,
                ).regions_spec()[i]).end + PAGE_SIZE_SMALL + size <= VM_ALLOC_CEILING)) ==> r
                is Ok,
    {
        let ghost s = self.regions@;
        let ghost owed = size + PAGE_SIZE_SMALL + VM_ALLOC_BASE <= VM_ALLOC_CEILING && (forall|
            i: int,
        |
            0 <= i < s.len() ==> (#[trigger] s[i]).end + PAGE_SIZE_SMALL + size
                <= VM_ALLOC_CEILING);
        if size > VM_ALLOC_CEILING - VM_ALLOC_BASE {
            return Err(Error::new(ENOMEM));
        }
        let n = self.regions.len();
        let mut candidate: usize = VM_ALLOC_BASE;
        let mut i: usize = 0;
        let mut found = false;
        proof {
            assert(VM_ALLOC_BASE as int % (PAGE_SIZE_SMALL as int) == 0);
            lemma_watermark_bounds(s);
        }
        while i < n && !found
            invariant
                self.regions@ == s,
                self.mmu_map == old(self).mmu_map,
                self.wf(),
                0 < size <= VM_ALLOC_CEILING - VM_ALLOC_BASE,
                size as int % (PAGE_SIZE_SMALL as int) == 0,
                n == s.len(),
                i <= n,
                candidate as int % (PAGE_SIZE_SMALL as int) == 0,
                VM_ALLOC_BASE <= candidate,
                candidate <= vm_watermark(s),
                candidate < VM_ALLOC_CEILING + PAGE_SIZE_SMALL,
                forall|k: int| 0 <= k < i ==> (#[trigger] s[k]).end <= candidate,
                found ==> i < n && candidate + size <= s[i as int].start,
                owed ==> candidate + size <= VM_ALLOC_CEILING,
                owed == (size + PAGE_SIZE_SMALL + VM_ALLOC_BASE <= VM_ALLOC_CEILING && (forall|
                    k: int,
                |
                    0 <= k < s.len() ==> (#[trigger] s[k]).end + PAGE_SIZE_SMALL + size
                        <= VM_ALLOC_CEILING)),
            decreases n - i + (if found {
                0int
            } else {
                1int
            }),
        {
            let rstart = self.regions[i].start;
            if candidate <= usize::MAX - size && candidate + size <= rstart {
                found = true;
            } else {
                let rend = self.regions[i].end;
                if rend >= VM_ALLOC_CEILING {
                    proof {
                        assert(!owed);
                    }
                    return Err(Error::new(ENOMEM));
                }
                let aligned = align_up(rend as u64, PAGE_SIZE_SMALL) as usize;
                proof {
                    lemma_watermark_bounds(s);
                    assert(aligned == align_up_spec(s[i as int].end as int, PAGE_SIZE_SMALL as int));
                }
                if aligned > candidate {
                    candidate = aligned;
                }
                i += 1;
            }
        }
        if candidate > VM_ALLOC_CEILING - size {
            proof {
                assert(!owed);
            }
            return Err(Error::new(ENOMEM));
        }
        let start = candidate;
        let end = candidate + size;
        proof {
            assert forall|k: int|
                0 <= k < s.len() implies !((#[trigger] s[k]).start < end && start < s[k].end) by {
                if found {
                    if k >= i as int {
                        if k > i as int {
                            lemma_vm_regions_sorted(s, i as int, k);
                        }
                    }
                }
            }
        }
        let res = self.allocate_fixed(start, end, prot);
        proof {
            assert(res is Ok);
        }
        match res {
            Ok(_) => Ok((start, end)),
            Err(e) => Err(e),
        }
    }

    /// Reads `len` bytes starting at virtual address `vaddr`; `None` when
    /// any byte of the range is unreadable.
    pub fn read_bytes(&self, vaddr: usize, len: usize) -> (r: Option<Vec<u8>>)
        requires
            self.wf(),
            vaddr + len <= usize::MAX,
        ensures
            r is Some <==> (forall|a: int|
                vaddr <= a < vaddr + len ==> vm_readable(self.regions_spec(), a)),
            r matches Some(v) ==> v@.len() == len && (forall|i: int|
                0 <= i < len ==> (#[trigger] v@[i]) == vm_byte_at(
                    self.regions_spec(),
                    vaddr + i,
                )),
    {
        let mut v: Vec<u8> = Vec::new();
        let mut i: usize = 0;
        while i < len
            invariant
                self.wf(),
                vaddr + len <= usize::MAX,
                i <= len,
                v@.len() == i,
                forall|a: int| vaddr <= a < vaddr + i ==> vm_readable(self.regions_spec(), a),
                forall|k: int|
                    0 <= k < i ==> (#[trigger] v@[k]) == vm_byte_at(
                        self.regions_spec(),
                        vaddr + k,
                    ),
            decreases len - i,
        {
            match self.read_byte(vaddr + i) {
                None => {
                    proof {
                        assert(!vm_readable(self.regions_spec(), vaddr + i));
                    }
                    return None;
                },
                Some(b) => {
                    v.push(b);
                },
            }
            i += 1;
        }
        Some(v)
    }

    /// Reads the byte at virtual address `vaddr` through the regions'
    /// contents model; `None` when no populated region contains the address.
    pub fn read_byte(&self, vaddr: usize) -> (r: Option<u8>)
        requires
            self.wf(),
        ensures
            r is Some <==> vm_readable(self.regions_spec(), vaddr as int),
            r matches Some(b) ==> b == vm_byte_at(self.regions_spec(), vaddr as int),
            r matches Some(b) ==> forall|i: int|
                0 <= i < self.regions_spec().len() && (#[trigger] self.regions_spec()[i]).start
                    <= vaddr < self.regions_spec()[i].end
                    && self.regions_spec()[i].bytes@.len() > 0 ==> b
                    == self.regions_spec()[i].bytes@[vaddr - self.regions_spec()[i].start],
    {
        let ghost s = self.regions@;
        let n = self.regions.len();
        let mut i: usize = 0;
        while i < n
            invariant
                self.regions@ == s,
                vm_regions_wf(s),
                n == s.len(),
                i <= n,
                forall|k: int|
                    0 <= k < i ==> !((#[trigger] s[k]).start <= vaddr < s[k].end && s[k].bytes@.len()
                        > 0),
            decreases n - i,
        {
            let reg = &self.regions[i];
            if reg.start <= vaddr && vaddr < reg.end && reg.bytes.len() > 0 {
                let b = reg.bytes[vaddr - reg.start];
                proof {
                    assert(vm_readable(s, vaddr as int));
                    assert forall|k: int|
                        0 <= k < s.len() && (#[trigger] s[k]).start <= vaddr < s[k].end
                            && s[k].bytes@.len() > 0 implies b == s[k].bytes@[vaddr
                        - s[k].start] by {
                        if k != i as int {
                            if k < i as int {
                                lemma_vm_regions_sorted(s, k, i as int);
                            } else {
                                lemma_vm_regions_sorted(s, i as int, k);
                            }
                        }
                    }
                }
                return Some(b);
            }
            i += 1;
        }
        None
    }
}

} // verus!
