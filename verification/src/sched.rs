//! Process scheduler and system-call surface.
//!
//! Everything process-wide — the process table, the run and wait queues,
//! the current process, the device namespace, the driver registry, the page
//! arenas and the loaded translation table — is one explicit kernel
//! structure, passed to every operation. Scheduling is
//! cooperative round-robin: `schedule` re-queues the current process (to
//! the wait queue when it is waiting), then runs the head of the run queue.

use vstd::prelude::*;
use crate::device::Namespace;
use crate::errno::Error;
use crate::memory::MemoryPool;
use crate::pci::PCIDriver;
use crate::process::{Process, ProcessState};
use crate::{PAGE_SIZE_SMALL, PAGE_SIZE_LARGE};

verus! {

/// The aligned exclusive end of the region a loadable segment asks for.
pub open spec fn segment_end(seg: crate::elf::ElfSegment) -> int {
    crate::vm::align_up_spec(seg.vaddr + seg.mem_size, PAGE_SIZE_SMALL as int)
}

/// What a loaded segment's region reads as: the segment's file bytes,
/// zero-padded to the region's aligned extent.
pub open spec fn segment_bytes(seg: crate::elf::ElfSegment, image: Seq<u8>) -> Seq<u8> {
    Seq::new(
        (segment_end(seg) - seg.vaddr) as nat,
        |i: int|
            if i < seg.file_size && seg.offset + i < image.len() {
                image[seg.offset + i]
            } else {
                0u8
            },
    )
}

/// The checks a loadable segment must pass to be mapped: page-aligned start,
/// extents within the address space, file bytes within the image and within
/// the region.
pub open spec fn segment_fits_len(seg: crate::elf::ElfSegment, image_len: int) -> bool {
    &&& seg.mem_size <= u64::MAX - PAGE_SIZE_SMALL
    &&& seg.vaddr <= u64::MAX - seg.mem_size - PAGE_SIZE_SMALL
    &&& segment_end(seg) <= usize::MAX
    &&& seg.vaddr as int % (PAGE_SIZE_SMALL as int) == 0
    &&& seg.offset <= usize::MAX
    &&& seg.file_size <= usize::MAX
    &&& seg.offset <= image_len
    &&& seg.file_size <= image_len - seg.offset
    &&& seg.file_size <= segment_end(seg) - seg.vaddr
}

pub open spec fn segment_fits(seg: crate::elf::ElfSegment, image: Seq<u8>) -> bool {
    segment_fits_len(seg, image.len() as int)
}

/// Whether the address space holds the populated region a loadable segment
/// asks for: its aligned extent, the protection from its flags, and its
/// file bytes followed by zeroes.
pub open spec fn spawn_segment_loaded(
    regions: Seq<crate::vm::VMRegion>,
    seg: crate::elf::ElfSegment,
    image: Seq<u8>,
) -> bool {
    crate::vm::vm_region_with(
        regions,
        seg.vaddr as int,
        segment_end(seg),
        crate::vm::VMProt { read: seg.read, write: seg.write, execute: seg.execute },
        segment_bytes(seg, image),
    )
}

/// Whether `s0` indexes the only loadable, non-empty segment.
pub open spec fn spawn_lone_segment(segs: Seq<crate::elf::ElfSegment>, s0: int) -> bool {
    &&& 0 <= s0 < segs.len()
    &&& segs[s0].load
    &&& segs[s0].mem_size > 0
    &&& (forall|sj: int|
        0 <= sj < segs.len() && sj != s0 ==> !((#[trigger] segs[sj]).load && segs[sj].mem_size
            > 0))
}

/// The position of the only loadable, non-empty segment, where one exists.
pub open spec fn spawn_lone_idx(image: Seq<u8>) -> int {
    choose|s0: int| spawn_lone_segment(crate::elf::elf_info_of(image)->Some_0.1, s0)
}

/// The inputs on which `process_spawn` owes success: a well-formed image
/// that parses to exactly one loadable, non-empty segment, which fits and
/// sits below the allocation base; the small arena holds the segment's pages
/// plus the event-queue page, the large arena a stack page at its head; and
/// fresh task and map handles remain.
pub open spec fn spawn_owed(k: Kernel, image: Seq<u8>) -> bool {
    let segs = crate::elf::elf_info_of(image)->Some_0.1;
    let s0 = spawn_lone_idx(image);
    &&& crate::elf::elf_image_wf(image)
    &&& crate::elf::elf_info_of(image) is Some
    &&& k.next_map_id < u64::MAX
    &&& k.next_task_id < usize::MAX
    &&& k.pool.large@.len() > 0
    &&& k.pool.large@[0].size >= PAGE_SIZE_LARGE
    &&& (exists|j: int| #[trigger] spawn_lone_segment(segs, j))
    &&& segment_fits(segs[s0], image)
    &&& segment_end(segs[s0]) <= crate::vm::VM_ALLOC_BASE
    &&& crate::memory::arena_can_serve(
        k.pool.small@,
        crate::vm::small_pages_for(segment_end(segs[s0]) - segs[s0].vaddr) + 1,
    )
}

/// A region list transformed by inserting a region keeps every present
/// region (bounds, protection and contents) in place; filling a region in
/// place keeps every present region whose start differs from the filled
/// one.
proof fn lemma_with_preserved_insert(os: Seq<crate::vm::VMRegion>, ns: Seq<crate::vm::VMRegion>)
    requires
        exists|k: int| 0 <= k <= os.len() && ns == os.insert(k, #[trigger] ns[k]),
    ensures
        forall|a: int, b: int, p: crate::vm::VMProt, bs: Seq<u8>|
            crate::vm::vm_region_with(os, a, b, p, bs) ==> #[trigger] crate::vm::vm_region_with(
                ns,
                a,
                b,
                p,
                bs,
            ),
{
    assert forall|a: int, b: int, p: crate::vm::VMProt, bs: Seq<u8>|
        crate::vm::vm_region_with(os, a, b, p, bs) implies #[trigger] crate::vm::vm_region_with(
        ns,
        a,
        b,
        p,
        bs,
    ) by {
        let k = choose|k: int| 0 <= k <= os.len() && ns == os.insert(k, #[trigger] ns[k]);
        crate::vm::lemma_region_with_insert(os, k, ns[k], a, b, p, bs);
    }
}

/// Inserting a fresh region over `[start, end)` that intersected nothing,
/// then filling it in place, keeps every previously present region (bounds,
/// protection, contents) in place.
proof fn lemma_load_preserves(
    regs0: Seq<crate::vm::VMRegion>,
    regs1: Seq<crate::vm::VMRegion>,
    regs2: Seq<crate::vm::VMRegion>,
    start: int,
    end: int,
)
    requires
        crate::vm::vm_regions_wf(regs0),
        exists|k: int| 0 <= k <= regs0.len() && regs1 == regs0.insert(k, #[trigger] regs1[k]),
        exists|k: int|
            0 <= k < regs1.len() && regs2 == regs1.update(k, #[trigger] regs2[k]) && regs1[
                k].start == start,
        !crate::vm::vm_intersects(regs0, start, end),
        start < end,
    ensures
        forall|a: int, b: int, p: crate::vm::VMProt, bs: Seq<u8>|
            crate::vm::vm_region_with(regs0, a, b, p, bs) ==> #[trigger] crate::vm::vm_region_with(
                regs2,
                a,
                b,
                p,
                bs,
            ),
{
    lemma_with_preserved_insert(regs0, regs1);
    lemma_with_preserved_update(regs1, regs2, start);
    assert forall|a: int, b: int, p: crate::vm::VMProt, bs: Seq<u8>|
        crate::vm::vm_region_with(regs0, a, b, p, bs) implies #[trigger]
    crate::vm::vm_region_with(regs2, a, b, p, bs) by {
        assert(crate::vm::vm_region_with(regs1, a, b, p, bs));
        if a == start {
            let i = choose|i: int|
                0 <= i < regs0.len() && (#[trigger] regs0[i]).start == a && regs0[i].end == b
                    && regs0[i].prot == p && regs0[i].bytes@ == bs;
            assert(regs0[i].wf());
            assert(regs0[i].start < end && start < regs0[i].end);
            assert(crate::vm::vm_intersects(regs0, start, end));
        }
    }
}

/// A region holding exactly a segment's extent, protection, and padded file
/// bytes witnesses that the segment is loaded.
proof fn lemma_filled_is_loaded(
    regs2: Seq<crate::vm::VMRegion>,
    k2: int,
    seg: crate::elf::ElfSegment,
    image: Seq<u8>,
    src: Seq<u8>,
)
    requires
        0 <= k2 < regs2.len(),
        regs2[k2].start == seg.vaddr,
        regs2[k2].end as int == segment_end(seg),
        regs2[k2].prot == (crate::vm::VMProt {
            read: seg.read,
            write: seg.write,
            execute: seg.execute,
        }),
        regs2[k2].bytes@.len() == segment_end(seg) - seg.vaddr,
        forall|i: int|
            0 <= i < regs2[k2].bytes@.len() ==> regs2[k2].bytes@[i] == (if i < src.len() {
                src[i]
            } else {
                0u8
            }),
        src.len() == seg.file_size,
        seg.offset + src.len() <= image.len(),
        forall|i: int| 0 <= i < src.len() ==> src[i] == image[seg.offset + i],
    ensures
        spawn_segment_loaded(regs2, seg, image),
{
    assert(regs2[k2].bytes@ =~= segment_bytes(seg, image));
}

/// The same transformation adds `end` as the only possibly new region end.
proof fn lemma_load_ends(
    regs0: Seq<crate::vm::VMRegion>,
    regs1: Seq<crate::vm::VMRegion>,
    regs2: Seq<crate::vm::VMRegion>,
    end: int,
)
    requires
        exists|k: int|
            0 <= k <= regs0.len() && regs1 == regs0.insert(k, #[trigger] regs1[k]) && regs1[k].end
                == end,
        exists|k: int|
            0 <= k < regs1.len() && regs2 == regs1.update(k, #[trigger] regs2[k]) && regs2[k].end
                == regs1[k].end,
    ensures
        forall|i: int|
            0 <= i < regs2.len() ==> ((#[trigger] regs2[i]).end == end || (exists|j: int|
                0 <= j < regs0.len() && (#[trigger] regs0[j]).end == regs2[i].end)),
{
    let ki = choose|k: int|
        0 <= k <= regs0.len() && regs1 == regs0.insert(k, #[trigger] regs1[k]) && regs1[k].end
            == end;
    let ku = choose|k: int|
        0 <= k < regs1.len() && regs2 == regs1.update(k, #[trigger] regs2[k]) && regs2[k].end
            == regs1[k].end;
    assert forall|i: int|
        0 <= i < regs2.len() implies ((#[trigger] regs2[i]).end == end || (exists|j: int|
        0 <= j < regs0.len() && (#[trigger] regs0[j]).end == regs2[i].end)) by {
        let e1 = if i == ku {
            regs1[i].end
        } else {
            regs2[i].end
        };
        assert(regs2[i].end == regs1[i].end);
        if i != ki {
            let j = if i < ki {
                i
            } else {
                i - 1
            };
            assert(regs1[i] == regs0[j]);
        }
    }
}

/// Filling one region in place keeps every present region that starts
/// elsewhere.
proof fn lemma_with_preserved_update(
    os: Seq<crate::vm::VMRegion>,
    ns: Seq<crate::vm::VMRegion>,
    u: int,
)
    requires
        exists|k: int|
            0 <= k < os.len() && ns == os.update(k, #[trigger] ns[k]) && os[k].start == u,
    ensures
        forall|a: int, b: int, p: crate::vm::VMProt, bs: Seq<u8>|
            crate::vm::vm_region_with(os, a, b, p, bs) && a != u
                ==> #[trigger] crate::vm::vm_region_with(ns, a, b, p, bs),
{
    assert forall|a: int, b: int, p: crate::vm::VMProt, bs: Seq<u8>|
        crate::vm::vm_region_with(os, a, b, p, bs) && a != u implies #[trigger]
    crate::vm::vm_region_with(ns, a, b, p, bs) by {
        let k = choose|k: int|
            0 <= k < os.len() && ns == os.update(k, #[trigger] ns[k]) && os[k].start == u;
        crate::vm::lemma_region_with_update(os, k, ns[k], a, b, p, bs);
    }
}

/// Reserves the fixed region a loadable segment asks for: its aligned
/// extent with the protection from its flags, unbacked. Every region
/// present beforehand stays present with its contents.
#[verifier::rlimit(100)]
#[verifier::spinoff_prover]
fn reserve_segment(
    vmspace: &mut crate::vm::VMAddressSpace,
    seg: crate::elf::ElfSegment,
    image_len: usize,
) -> (r: Result<(usize, usize), Error>)
    requires
        old(vmspace).wf(),
        seg.load,
        seg.mem_size > 0,
    ensures
        final(vmspace).wf(),
        final(vmspace).mmu_map == old(vmspace).mmu_map,
        r matches Err(e) ==> e.0 == crate::errno::EINVAL,
        r matches Ok(se) ==> ({
            &&& se.0 == seg.vaddr
            &&& se.1 as int == segment_end(seg)
            &&& seg.offset <= image_len && seg.file_size <= image_len - seg.offset
            &&& seg.file_size <= se.1 - se.0
            &&& !crate::vm::vm_intersects(
                old(vmspace).regions_spec(),
                se.0 as int,
                se.1 as int,
            )
            &&& (exists|k: int|
                0 <= k <= old(vmspace).regions_spec().len() && final(vmspace).regions_spec()
                    == old(vmspace).regions_spec().insert(
                    k,
                    #[trigger] final(vmspace).regions_spec()[k],
                ) && final(vmspace).regions_spec()[k].start == se.0
                    && final(vmspace).regions_spec()[k].end == se.1
                    && final(vmspace).regions_spec()[k].prot == (crate::vm::VMProt {
                    read: seg.read,
                    write: seg.write,
                    execute: seg.execute,
                }) && final(vmspace).regions_spec()[k].bytes@.len() == 0)
        }),
        forall|a: int, b: int, p: crate::vm::VMProt, bs: Seq<u8>|
            crate::vm::vm_region_with(old(vmspace).regions_spec(), a, b, p, bs)
                ==> #[trigger] crate::vm::vm_region_with(
                final(vmspace).regions_spec(),
                a,
                b,
                p,
                bs,
            ),
        (segment_fits_len(seg, image_len as int) && !crate::vm::vm_intersects(
            old(vmspace).regions_spec(),
            seg.vaddr as int,
            segment_end(seg),
        )) ==> r is Ok,
{
    if seg.mem_size > u64::MAX - crate::PAGE_SIZE_SMALL || seg.vaddr > u64::MAX - seg.mem_size
        - crate::PAGE_SIZE_SMALL {
        return Err(Error::new(crate::errno::EINVAL));
    }
    let seg_end = crate::align_up(seg.vaddr + seg.mem_size, crate::PAGE_SIZE_SMALL);
    if seg_end > usize::MAX as u64 {
        return Err(Error::new(crate::errno::EINVAL));
    }
    let start = seg.vaddr as usize;
    let end = seg_end as usize;
    if seg.offset > usize::MAX as u64 || seg.file_size > usize::MAX as u64 {
        return Err(Error::new(crate::errno::EINVAL));
    }
    if seg.offset as usize > image_len || seg.file_size as usize > image_len
        - seg.offset as usize {
        return Err(Error::new(crate::errno::EINVAL));
    }
    if seg.file_size as usize > end - start {
        return Err(Error::new(crate::errno::EINVAL));
    }
    let prot = crate::elf::elf_phdr_flags_to_prot(&seg);
    let ghost regs0 = vmspace.regions_spec();
    match vmspace.allocate_fixed(start, end, prot) {
        Err(e) => {
            return Err(e);
        },
        Ok(_) => {},
    }
    proof {
        lemma_with_preserved_insert(regs0, vmspace.regions_spec());
    }
    Ok((start, end))
}

/// Populates a freshly reserved segment region from the source bytes and
/// concludes that the segment is loaded and everything else kept.
#[verifier::rlimit(100)]
#[verifier::spinoff_prover]
fn fill_segment(
    vmspace: &mut crate::vm::VMAddressSpace,
    pool: &mut MemoryPool,
    seg: crate::elf::ElfSegment,
    start: usize,
    end: usize,
    src: &Vec<u8>,
    regs0: Ghost<Seq<crate::vm::VMRegion>>,
) -> (r: Result<(), Error>)
    requires
        old(vmspace).wf(),
        old(pool).wf(),
        start == seg.vaddr,
        end as int == segment_end(seg),
        src@.len() == seg.file_size,
        seg.file_size <= end - start,
        exists|k: int|
            0 <= k <= regs0@.len() && old(vmspace).regions_spec() == regs0@.insert(
                k,
                #[trigger] old(vmspace).regions_spec()[k],
            ) && old(vmspace).regions_spec()[k].start == start && old(vmspace).regions_spec()[
                k].end == end && old(vmspace).regions_spec()[k].prot == (crate::vm::VMProt {
                read: seg.read,
                write: seg.write,
                execute: seg.execute,
            }),
        !crate::vm::vm_intersects(regs0@, start as int, end as int),
        crate::vm::vm_regions_wf(regs0@),
    ensures
        final(vmspace).wf(),
        final(pool).wf(),
        final(pool).large == old(pool).large,
        r matches Err(e) ==> e.0 == crate::errno::EINVAL || e.0 == crate::errno::ENOMEM,
        forall|a: int, b: int, p: crate::vm::VMProt, bs: Seq<u8>|
            crate::vm::vm_region_with(regs0@, a, b, p, bs) ==> #[trigger] crate::vm::vm_region_with(
                final(vmspace).regions_spec(),
                a,
                b,
                p,
                bs,
            ),
        r is Ok ==> final(pool).small@ == crate::memory::arena_after_pages(
            old(pool).small@,
            crate::vm::small_pages_for(end - start),
        ),
        r is Ok ==> (exists|k: int|
            0 <= k < final(vmspace).regions_spec().len()
                && (#[trigger] final(vmspace).regions_spec()[k]).start == start
                && final(vmspace).regions_spec()[k].end == end
                && final(vmspace).regions_spec()[k].prot == (crate::vm::VMProt {
                read: seg.read,
                write: seg.write,
                execute: seg.execute,
            }) && final(vmspace).regions_spec()[k].bytes@.len() == end - start && (forall|i: int|
                0 <= i < end - start ==> final(vmspace).regions_spec()[k].bytes@[i] == (if i
                    < src@.len() {
                    src@[i]
                } else {
                    0u8
                }))),
        r is Ok ==> (forall|i: int|
            0 <= i < final(vmspace).regions_spec().len()
                ==> ((#[trigger] final(vmspace).regions_spec()[i]).end == end || (exists|j: int|
                0 <= j < regs0@.len()
                    && (#[trigger] regs0@[j]).end == final(vmspace).regions_spec()[i].end))),
        crate::memory::arena_can_serve(
            old(pool).small@,
            crate::vm::small_pages_for(end - start),
        ) ==> r is Ok,
{
    let ghost regs1 = vmspace.regions_spec();
    let ghost maps1 = vmspace.mmu_map.mappings@;
    let ghost pool1 = *pool;
    proof {
        lemma_with_preserved_insert(regs0@, regs1);
    }
    match vmspace.populate_from(start, end, src, pool) {
        Err(e) => {
            return Err(e);
        },
        Ok(_) => {},
    }
    proof {
        let regs2 = vmspace.regions_spec();
        let k2 = choose|idx: int|
            crate::vm::populate_from_post(
                regs1,
                regs2,
                maps1,
                vmspace.mmu_map.mappings@,
                pool1,
                *pool,
                idx,
                start as int,
                end as int,
                src@,
            );
        assert(crate::vm::populate_from_post(
            regs1,
            regs2,
            maps1,
            vmspace.mmu_map.mappings@,
            pool1,
            *pool,
            k2,
            start as int,
            end as int,
            src@,
        ));
        lemma_load_preserves(regs0@, regs1, regs2, start as int, end as int);
        lemma_load_ends(regs0@, regs1, regs2, end as int);
    }
    Ok(())
}

/// Maps one loadable ELF segment: reserves its region, then populates it
/// from its file bytes followed by zeroes. Every region present beforehand
/// — whose start, by the no-intersection check, the new region cannot share
/// — stays present with its contents.
#[verifier::rlimit(100)]
#[verifier::spinoff_prover]
fn load_segment(
    vmspace: &mut crate::vm::VMAddressSpace,
    pool: &mut MemoryPool,
    seg: crate::elf::ElfSegment,
    image: &Vec<u8>,
) -> (r: Result<(), Error>)
    requires
        old(vmspace).wf(),
        old(pool).wf(),
        seg.load,
        seg.mem_size > 0,
    ensures
        final(vmspace).wf(),
        final(pool).wf(),
        final(pool).large == old(pool).large,
        r matches Err(e) ==> e.0 == crate::errno::EINVAL || e.0 == crate::errno::ENOMEM,
        r is Ok ==> spawn_segment_loaded(final(vmspace).regions_spec(), seg, image@),
        r is Ok ==> final(pool).small@ == crate::memory::arena_after_pages(
            old(pool).small@,
            crate::vm::small_pages_for(segment_end(seg) - seg.vaddr),
        ),
        forall|a: int, b: int, p: crate::vm::VMProt, bs: Seq<u8>|
            crate::vm::vm_region_with(old(vmspace).regions_spec(), a, b, p, bs)
                ==> #[trigger] crate::vm::vm_region_with(
                final(vmspace).regions_spec(),
                a,
                b,
                p,
                bs,
            ),
        r is Ok ==> (forall|i: int|
            0 <= i < final(vmspace).regions_spec().len()
                ==> ((#[trigger] final(vmspace).regions_spec()[i]).end as int == segment_end(seg)
                || (exists|j: int|
                0 <= j < old(vmspace).regions_spec().len() && (#[trigger] old(
                    vmspace,
                ).regions_spec()[j]).end == final(vmspace).regions_spec()[i].end))),
        // success is owed when the segment fits, does not collide, and the
        // arena has its pages
        (segment_fits(seg, image@) && !crate::vm::vm_intersects(
            old(vmspace).regions_spec(),
            seg.vaddr as int,
            segment_end(seg),
        ) && crate::memory::arena_can_serve(
            old(pool).small@,
            crate::vm::small_pages_for(segment_end(seg) - seg.vaddr),
        )) ==> r is Ok,
{
    let (start, end) = match reserve_segment(vmspace, seg, image.len()) {
        Err(e) => {
            return Err(e);
        },
        Ok(se) => se,
    };
    let ghost regs0 = old(vmspace).regions_spec();
    let off = seg.offset as usize;
    let fsize = seg.file_size as usize;
    let mut src: Vec<u8> = Vec::new();
    let mut bi: usize = 0;
    while bi < fsize
        invariant
            bi <= fsize,
            off + fsize <= image@.len(),
            image@.len() <= usize::MAX,
            src@.len() == bi,
            forall|k: int| 0 <= k < bi ==> (#[trigger] src@[k]) == image@[off + k],
        decreases fsize - bi,
    {
        src.push(image[off + bi]);
        bi += 1;
    }
    match fill_segment(vmspace, pool, seg, start, end, &src, Ghost(regs0)) {
        Err(e) => {
            return Err(e);
        },
        Ok(_) => {},
    }
    proof {
        let regs2 = vmspace.regions_spec();
        let k = choose|k: int|
            0 <= k < regs2.len() && (#[trigger] regs2[k]).start == start && regs2[k].end == end
                && regs2[k].prot == (crate::vm::VMProt {
                read: seg.read,
                write: seg.write,
                execute: seg.execute,
            }) && regs2[k].bytes@.len() == end - start && (forall|i: int|
                0 <= i < end - start ==> regs2[k].bytes@[i] == (if i < src@.len() {
                    src@[i]
                } else {
                    0u8
                }));
        lemma_filled_is_loaded(regs2, k, seg, image@, src@);
    }
    Ok(())
}

/// Finds a fresh gap of `size` bytes, inserts a read-write region over it
/// and populates it with one page. Every region present beforehand stays
/// present with its contents.
#[verifier::rlimit(100)]
#[verifier::spinoff_prover]
fn alloc_populated(
    vmspace: &mut crate::vm::VMAddressSpace,
    pool: &mut MemoryPool,
    size: usize,
) -> (r: Result<(usize, usize), Error>)
    requires
        old(vmspace).wf(),
        old(pool).wf(),
        0 < size,
        size as int % (PAGE_SIZE_SMALL as int) == 0,
    ensures
        final(vmspace).wf(),
        final(pool).wf(),
        r matches Err(e) ==> e.0 == crate::errno::EINVAL || e.0 == crate::errno::ENOMEM,
        r matches Ok(se) ==> se.1 == se.0 + size,
        size as int == PAGE_SIZE_SMALL && r is Ok ==> final(pool).small@
            == crate::memory::arena_after_pages(old(pool).small@, 1) && final(pool).large == old(
            pool,
        ).large,
        size as int == PAGE_SIZE_LARGE && r is Ok ==> final(pool).small == old(pool).small,
        forall|a: int, b: int, p: crate::vm::VMProt, bs: Seq<u8>|
            crate::vm::vm_region_with(old(vmspace).regions_spec(), a, b, p, bs)
                ==> #[trigger] crate::vm::vm_region_with(
                final(vmspace).regions_spec(),
                a,
                b,
                p,
                bs,
            ),
        r matches Ok(se) ==> (forall|i: int|
            0 <= i < final(vmspace).regions_spec().len()
                ==> ((#[trigger] final(vmspace).regions_spec()[i]).end == se.1 || (exists|j: int|
                0 <= j < old(vmspace).regions_spec().len() && (#[trigger] old(
                    vmspace,
                ).regions_spec()[j]).end == final(vmspace).regions_spec()[i].end))),
        r matches Ok(se) ==> se.0 <= crate::vm::vm_watermark(old(vmspace).regions_spec()),
        // success is owed below the ceiling when the arena has the page
        ((size as int == PAGE_SIZE_SMALL || size as int == PAGE_SIZE_LARGE) && size
            + PAGE_SIZE_SMALL + crate::vm::VM_ALLOC_BASE <= crate::vm::VM_ALLOC_CEILING && (forall|
            i: int,
        |
            0 <= i < old(vmspace).regions_spec().len() ==> (#[trigger] old(
                vmspace,
            ).regions_spec()[i]).end + PAGE_SIZE_SMALL + size <= crate::vm::VM_ALLOC_CEILING)
            && crate::vm::pool_can_serve_page(*old(pool), size as int)) ==> r is Ok,
{
    let ghost regs0 = vmspace.regions_spec();
    let (s, e) = match vmspace.allocate(size, crate::vm::VMProt::prot_rw()) {
        Err(e) => {
            return Err(e);
        },
        Ok(se) => se,
    };
    let ghost regs1 = vmspace.regions_spec();
    proof {
        lemma_with_preserved_insert(regs0, regs1);
    }
    match vmspace.populate(s, e, pool) {
        Err(err) => {
            return Err(err);
        },
        Ok(_) => {},
    }
    proof {
        let regs2 = vmspace.regions_spec();
        lemma_with_preserved_update(regs1, regs2, s as int);
        assert forall|a: int, b: int, p: crate::vm::VMProt, bs: Seq<u8>|
            crate::vm::vm_region_with(regs0, a, b, p, bs) implies #[trigger]
        crate::vm::vm_region_with(regs2, a, b, p, bs) by {
            assert(crate::vm::vm_region_with(regs1, a, b, p, bs));
            if a == s as int {
                let i = choose|i: int|
                    0 <= i < regs0.len() && (#[trigger] regs0[i]).start == a && regs0[i].end == b
                        && regs0[i].prot == p && regs0[i].bytes@ == bs;
                assert(crate::vm::vm_intersects(regs0, s as int, e as int));
            }
        }
        if size == PAGE_SIZE_SMALL as usize {
            assert(crate::memory::arena_after_pages(old(pool).small@, 1)
                == crate::memory::arena_after_pages(
                crate::memory::arena_after_small_page(old(pool).small@),
                0,
            ));
            assert(crate::memory::arena_after_pages(
                crate::memory::arena_after_small_page(old(pool).small@),
                0,
            ) == crate::memory::arena_after_small_page(old(pool).small@));
        }
    }
    Ok((s, e))
}

/// Whether a raw submission-queue record is a transmit request the kernel
/// will perform against the given device and address space: a `Submit`
/// whose payload is in bounds, fully readable, fits the bounce page behind
/// the virtio header, and finds a free transmit descriptor.
/// The request half of `submit_performable`: a `Submit` whose payload is in
/// bounds, fully readable, and fits the bounce page behind the virtio
/// header — everything but the free transmit descriptor it also needs.
pub open spec fn submit_request_ok(
    dev: &crate::device::Device,
    regions: Seq<crate::vm::VMRegion>,
    raw: crate::ioqueue::RawIOCmd,
) -> bool {
    &&& raw.opcode == crate::ioqueue::RAW_IO_OPCODE_SUBMIT
    &&& raw.len <= usize::MAX - crate::net::VIRTIO_NET_HDR_SIZE
    &&& raw.addr <= usize::MAX - raw.len
    &&& raw.len + crate::net::VIRTIO_NET_HDR_SIZE <= dev.ops.tx_page_size
    &&& (forall|a: int| raw.addr <= a < raw.addr + raw.len ==> crate::vm::vm_readable(regions, a))
}

pub open spec fn submit_performable(
    dev: &crate::device::Device,
    regions: Seq<crate::vm::VMRegion>,
    raw: crate::ioqueue::RawIOCmd,
) -> bool {
    &&& submit_request_ok(dev, regions, raw)
    &&& dev.ops.vqs@.len() >= 2
    &&& dev.ops.vqs@[1].free_desc_spec().len() > 0
}

/// Whether one of the first `n` entries of `w` is the process handle `i`.
pub open spec fn queue_holds(w: Seq<usize>, n: int, i: int) -> bool {
    exists|j: int| 0 <= j < n && (#[trigger] w[j]) == i
}

/// Bumping a wrapped 16-bit counter advances its offset from the base.
proof fn lemma_wrap16_step(base: int, d: int)
    requires
        0 <= base < 0x10000,
        d >= 0,
    ensures
        crate::virtqueue::wrap16_inc((((base + d) % 0x10000) as u16)) as int == (base + d + 1)
            % 0x10000,
{
    let m = 0x10000int;
    let a = (base + d) % m;
    vstd::arithmetic::div_mod::lemma_add_mod_noop(base + d, 1, m);
    assert((a + 1) % m == (base + d + 1) % m);
}

/// The kernel: every process-wide structure.
pub struct Kernel {
    /// All processes; a process handle is an index here.
    pub processes: Vec<Process>,
    /// The running process.
    pub current: Option<usize>,
    /// Runnable processes, in scheduling order.
    pub run_queue: Vec<usize>,
    /// Waiting processes.
    pub wait_queue: Vec<usize>,
    /// The device namespace.
    pub namespace: Namespace,
    /// The driver registry, append-only after boot.
    pub drivers: Vec<PCIDriver>,
    /// The physical page arenas.
    pub pool: MemoryPool,
    /// Which translation table the MMU model has loaded.
    pub loaded_map: u64,
    /// Source of fresh task-state handles.
    pub next_task_id: usize,
    /// Source of fresh translation-table identities.
    pub next_map_id: u64,
}

impl Kernel {
    /// Process handles in the queues and `current` are valid, every process
    /// and device is well-formed, and every device listener is a valid
    /// process handle.
    pub open spec fn wf(&self) -> bool {
        &&& self.pool.wf()
        &&& forall|i: int| 0 <= i < self.processes@.len() ==> (#[trigger] self.processes@[i]).wf()
        &&& forall|k: int|
            0 <= k < self.run_queue@.len() ==> (#[trigger] self.run_queue@[k])
                < self.processes@.len()
        &&& forall|k: int|
            0 <= k < self.wait_queue@.len() ==> (#[trigger] self.wait_queue@[k])
                < self.processes@.len()
        &&& (self.current matches Some(p) ==> p < self.processes@.len())
        &&& forall|d: int|
            0 <= d < self.namespace.devices@.len() ==> (#[trigger] self.namespace.devices@[
            d]).ops.wf()
        &&& forall|d: int, k: int|
            0 <= d < self.namespace.devices@.len() && 0 <= k < self.namespace.devices@[
                d].ops.notifier.listeners_spec().len() ==> (#[trigger] self.namespace.devices@[
            d].ops.notifier.listeners_spec()[k]) < self.processes@.len()
    }

    /// A fresh kernel with nothing registered and nothing running.
    pub fn new() -> (r: Kernel)
        ensures
            r.wf(),
            r.processes@.len() == 0,
            r.run_queue@.len() == 0,
            r.wait_queue@.len() == 0,
            r.current is None,
            r.namespace.devices@.len() == 0,
            r.drivers@.len() == 0,
            r.pool.total() == 0,
    {
        Kernel {
            processes: Vec::new(),
            current: None,
            run_queue: Vec::new(),
            wait_queue: Vec::new(),
            namespace: Namespace::new(),
            drivers: Vec::new(),
            pool: MemoryPool::new(),
            loaded_map: 0,
            next_task_id: 1,
            next_map_id: 1,
        }
    }

    /// Marks the process runnable and appends it to the run queue.
    pub fn enqueue(&mut self, pid: usize)
        requires
            old(self).wf(),
            pid < old(self).processes@.len(),
        ensures
            final(self).wf(),
            final(self).run_queue@ == old(self).run_queue@.push(pid),
            final(self).wait_queue@ == old(self).wait_queue@,
            final(self).current == old(self).current,
            final(self).processes@ == old(self).processes@.update(
                pid as int,
                Process { state: ProcessState::RUNNABLE, ..old(self).processes@[pid as int] },
            ),
            final(self).namespace.devices@ == old(self).namespace.devices@,
            final(self).pool == old(self).pool,
            final(self).loaded_map == old(self).loaded_map,
    {
        let mut pr = self.processes.remove(pid);
        pr.state = ProcessState::RUNNABLE;
        self.processes.insert(pid, pr);
        self.run_queue.push(pid);
        proof {
            assert(self.processes@ =~= old(self).processes@.update(
                pid as int,
                self.processes@[pid as int],
            ));
        }
    }

    /// What the run queue holds once the previous process has been
    /// re-queued: waiting processes go to the wait queue instead.
    pub open spec fn requeued_run(&self) -> Seq<usize> {
        match self.current {
            None => self.run_queue@,
            Some(p) => if self.processes@[p as int].state is WAITING {
                self.run_queue@
            } else {
                self.run_queue@.push(p)
            },
        }
    }

    /// What the wait queue holds once the previous process has been
    /// re-queued.
    pub open spec fn requeued_wait(&self) -> Seq<usize> {
        match self.current {
            None => self.wait_queue@,
            Some(p) => if self.processes@[p as int].state is WAITING {
                self.wait_queue@.push(p)
            } else {
                self.wait_queue@
            },
        }
    }

    /// Schedules: the previous process joins the wait queue when waiting and
    /// the back of the run queue otherwise; the head of the run queue (if
    /// any) becomes current, running, with its translation table loaded.
    #[verifier::rlimit(100)]
    #[verifier::spinoff_prover]
    pub fn schedule(&mut self)
        requires
            old(self).wf(),
        ensures
            final(self).wf(),
            final(self).namespace.devices@ == old(self).namespace.devices@,
            final(self).pool == old(self).pool,
            final(self).wait_queue@ == old(self).requeued_wait(),
            ({
                let rq = old(self).requeued_run();
                if rq.len() > 0 {
                    let next = rq[0];
                    &&& final(self).current == Some(next)
                    &&& final(self).run_queue@ == rq.subrange(1, rq.len() as int)
                    &&& final(self).processes@.len() == old(self).processes@.len()
                    &&& final(self).processes@[next as int].state == ProcessState::RUNNING
                    &&& final(self).loaded_map == old(self).processes@[
                        next as int].vmspace.mmu_map.id
                    &&& (forall|i: int|
                        0 <= i < final(self).processes@.len()
                            ==> (#[trigger] final(self).processes@[i]) == (Process {
                            state: final(self).processes@[i].state,
                            ..old(self).processes@[i]
                        }))
                    &&& (forall|i: int|
                        0 <= i < final(self).processes@.len() && i != next
                            ==> (#[trigger] final(self).processes@[i]).state == (if (match old(
                            self,
                        ).current {
                            Some(cp) => cp == i && !(old(self).processes@[i].state is WAITING),
                            None => false,
                        }) {
                            ProcessState::RUNNABLE
                        } else {
                            old(self).processes@[i].state
                        }))
                } else {
                    &&& final(self).current is None
                    &&& final(self).run_queue@.len() == 0
                    &&& final(self).loaded_map == old(self).loaded_map
                    &&& final(self).processes@ == old(self).processes@
                }
            }),
    {
        let prev = self.current;
        self.current = None;
        match prev {
            Some(p) => {
                let waiting = match self.processes[p].state {
                    ProcessState::WAITING => true,
                    _ => false,
                };
                if waiting {
                    self.wait_queue.push(p);
                } else {
                    self.enqueue(p);
                }
            },
            None => {},
        }
        if self.run_queue.len() > 0 {
            let next = self.run_queue.remove(0);
            let ghost procs_mid = self.processes@;
            let mut pr = self.processes.remove(next);
            pr.state = ProcessState::RUNNING;
            pr.vmspace.switch_to(&mut self.loaded_map);
            self.processes.insert(next, pr);
            self.current = Some(next);
            proof {
                assert(self.processes@ =~= procs_mid.update(
                    next as int,
                    self.processes@[next as int],
                ));
                let rq = old(self).requeued_run();
                assert(self.run_queue@ =~= rq.subrange(1, rq.len() as int));
            }
        }
    }

    /// Moves every waiting process to the run queue, runnable. Called from
    /// the interrupt return path after events were delivered.
    #[verifier::rlimit(100)]
    #[verifier::spinoff_prover]
    pub fn wake_up_processes(&mut self)
        requires
            old(self).wf(),
        ensures
            final(self).wf(),
            final(self).wait_queue@.len() == 0,
            final(self).run_queue@ == old(self).run_queue@ + old(self).wait_queue@,
            final(self).current == old(self).current,
            final(self).namespace.devices@ == old(self).namespace.devices@,
            final(self).pool == old(self).pool,
            final(self).processes@.len() == old(self).processes@.len(),
            forall|i: int|
                0 <= i < final(self).processes@.len()
                    ==> (#[trigger] final(self).processes@[i]) == (if queue_holds(
                    old(self).wait_queue@,
                    old(self).wait_queue@.len() as int,
                    i,
                ) {
                    Process { state: ProcessState::RUNNABLE, ..old(self).processes@[i] }
                } else {
                    old(self).processes@[i]
                }),
    {
        let ghost w0 = self.wait_queue@;
        let mut m: usize = 0;
        let n = self.wait_queue.len();
        while m < n
            invariant
                self.wf(),
                n == w0.len(),
                m <= n,
                self.wait_queue@ == w0.skip(m as int),
                self.run_queue@ == old(self).run_queue@ + w0.take(m as int),
                self.current == old(self).current,
                self.namespace.devices@ == old(self).namespace.devices@,
                self.pool == old(self).pool,
                self.processes@.len() == old(self).processes@.len(),
                w0 == old(self).wait_queue@,
                forall|i: int|
                    0 <= i < self.processes@.len() ==> (#[trigger] self.processes@[i]) == (if
                    queue_holds(w0, m as int, i) {
                        Process { state: ProcessState::RUNNABLE, ..old(self).processes@[i] }
                    } else {
                        old(self).processes@[i]
                    }),
            decreases n - m,
        {
            let ghost procs_pre = self.processes@;
            let p = self.wait_queue.remove(0);
            proof {
                assert(w0.skip(m as int)[0] == w0[m as int]);
            }
            let mut pr = self.processes.remove(p);
            pr.state = ProcessState::RUNNABLE;
            self.processes.insert(p, pr);
            self.run_queue.push(p);
            m += 1;
            proof {
                assert(self.wait_queue@ =~= w0.skip(m as int));
                assert(self.run_queue@ =~= old(self).run_queue@ + w0.take(m as int));
                assert(self.processes@ =~= procs_pre.update(p as int, self.processes@[p as int]));
                assert(p == w0[m - 1]);
                assert forall|i: int|
                    0 <= i < self.processes@.len() implies (#[trigger] self.processes@[i]) == (if
                queue_holds(w0, m as int, i) {
                    Process { state: ProcessState::RUNNABLE, ..old(self).processes@[i] }
                } else {
                    old(self).processes@[i]
                }) by {
                    if i == p as int {
                        assert(w0[m - 1] == i);
                        assert(queue_holds(w0, m as int, i));
                        assert(procs_pre[i] == (if queue_holds(w0, m - 1, i) {
                            Process { state: ProcessState::RUNNABLE, ..old(self).processes@[i] }
                        } else {
                            old(self).processes@[i]
                        }));
                        assert(self.processes@[i] == (Process {
                            state: ProcessState::RUNNABLE,
                            ..procs_pre[i]
                        }));
                    } else {
                        assert(self.processes@[i] == procs_pre[i]);
                        if queue_holds(w0, m as int, i) {
                            let j = choose|j: int| 0 <= j < m && (#[trigger] w0[j]) == i;
                            assert(j != m - 1);
                            assert(queue_holds(w0, m - 1, i));
                        }
                        if queue_holds(w0, m - 1, i) {
                            let j = choose|j: int| 0 <= j < m - 1 && (#[trigger] w0[j]) == i;
                            assert(queue_holds(w0, m as int, i));
                        }
                    }
                }
            }
        }
        proof {
            assert(w0.take(n as int) =~= w0);
            assert(self.run_queue@ =~= old(self).run_queue@ + old(self).wait_queue@);
        }
    }
}

impl Kernel {
    /// Installs the current process's page-fault fixup address.
    pub fn page_fault_set_fixup(&mut self, fixup: u64)
        requires
            old(self).wf(),
        ensures
            final(self).wf(),
            old(self).current is None ==> *final(self) == *old(self),
            old(self).current matches Some(p) ==> final(self).processes@ == old(
                self,
            ).processes@.update(
                p as int,
                Process { page_fault_fixup: fixup, ..old(self).processes@[p as int] },
            ) && final(self).current == old(self).current && final(self).run_queue@ == old(
                self,
            ).run_queue@ && final(self).wait_queue@ == old(self).wait_queue@,
    {
        let p = match self.current {
            None => {
                return ;
            },
            Some(p) => p,
        };
        let mut pr = self.processes.remove(p);
        pr.page_fault_fixup = fixup;
        self.processes.insert(p, pr);
        proof {
            assert(self.processes@ =~= old(self).processes@.update(
                p as int,
                self.processes@[p as int],
            ));
        }
    }

    /// The current process's page-fault fixup address; zero without a
    /// current process.
    pub fn page_fault_get_fixup(&self) -> (r: u64)
        requires
            self.wf(),
        ensures
            r == (match self.current {
                Some(p) => self.processes@[p as int].page_fault_fixup,
                None => 0u64,
            }),
    {
        match self.current {
            Some(p) => self.processes[p].page_fault_fixup,
            None => 0,
        }
    }

    /// The `getevents` system call: the user-visible address of the current
    /// process's event queue.
    pub fn process_getevents(&self) -> (r: usize)
        requires
            self.wf(),
            self.current is Some,
        ensures
            r == self.processes@[self.current->Some_0 as int].event_queue.ring_buffer.base_addr_spec(),
    {
        let p = match self.current {
            Some(p) => p,
            None => {
                return 0;
            },
        };
        self.processes[p].event_queue.ring_buffer.ring_addr()
    }

    /// The `subscribe` system call: expresses the current process's
    /// interest in the event stream of the device behind `raw_desc`.
    /// Succeeds exactly when the descriptor resolves to an attached device;
    /// a bad descriptor reports `EINVAL`.
    pub fn process_subscribe(&self, raw_desc: i32, events: &String) -> (r: i32)
        requires
            self.wf(),
            self.current is Some,
        ensures
            ({
                let p = self.current->Some_0;
                let table = self.processes@[p as int].device_space.desc_table@;
                if 0 <= raw_desc < table.len() && table[raw_desc as int]
                    < self.namespace.devices@.len() {
                    r == 0
                } else {
                    r == -crate::errno::EINVAL
                }
            }),
    {
        let p = match self.current {
            Some(p) => p,
            None => {
                return -crate::errno::EINVAL;
            },
        };
        let desc = crate::device::DeviceDesc::from_user(raw_desc);
        match self.processes[p].device_space.lookup(desc) {
            Some(di) => {
                if di < self.namespace.devices.len() {
                    self.namespace.devices[di].subscribe(events);
                    return 0;
                }
            },
            None => {},
        }
        -crate::errno::EINVAL
    }

    /// The `get_config` system call: the configuration bytes of the device
    /// behind descriptor `raw_desc`, or `EINVAL` for a bad descriptor or an
    /// unknown option.
    pub fn process_get_config(&self, raw_desc: i32, opt: i32) -> (r: Result<Vec<u8>, Error>)
        requires
            self.wf(),
            self.current is Some,
        ensures
            r matches Err(e) ==> e.0 == crate::errno::EINVAL,
            ({
                let p = self.current->Some_0;
                let table = self.processes@[p as int].device_space.desc_table@;
                let valid = 0 <= raw_desc < table.len() && table[raw_desc as int]
                    < self.namespace.devices@.len();
                r is Ok <==> (valid && crate::net::get_config_defined(
                    &self.namespace.devices@[table[raw_desc as int] as int].ops,
                    opt,
                ))
            }),
            r matches Ok(v) ==> ({
                let p = self.current->Some_0;
                let table = self.processes@[p as int].device_space.desc_table@;
                let dev = &self.namespace.devices@[table[raw_desc as int] as int].ops;
                &&& (opt == crate::device::CONFIG_ETHERNET_MAC_ADDRESS ==> v@
                    == dev.mac_addr->Some_0@)
                &&& (opt == crate::device::CONFIG_IO_QUEUE ==> v@.len() == 8 && (forall|k: int|
                    0 <= k < 8 ==> (#[trigger] v@[k]) == crate::net::le_byte_of(
                        dev.io_queue->Some_0.ring_buffer.base_addr_spec(),
                        k,
                    )))
            }),
    {
        let p = match self.current {
            Some(p) => p,
            None => {
                return Err(Error::new(crate::errno::EINVAL));
            },
        };
        let desc = crate::device::DeviceDesc::from_user(raw_desc);
        let di = match self.processes[p].device_space.lookup(desc) {
            Some(di) => di,
            None => {
                return Err(Error::new(crate::errno::EINVAL));
            },
        };
        if di >= self.namespace.devices.len() {
            return Err(Error::new(crate::errno::EINVAL));
        }
        match self.namespace.devices[di].ops.get_config(opt) {
            Some(v) => Ok(v),
            None => Err(Error::new(crate::errno::EINVAL)),
        }
    }

    /// The `acquire` system call: attaches the device registered under
    /// `name` to the current process, maps its shared pages into the
    /// process's address space, registers the process as a listener, and
    /// returns the new descriptor; a negative errno reports failure.
    pub fn process_acquire(&mut self, name: &String) -> (r: i32)
        requires
            old(self).wf(),
            old(self).current is Some,
        ensures
            final(self).wf(),
            r >= 0 ==> {
                let p = old(self).current->Some_0;
                let di = final(self).processes@[p as int].device_space.desc_table@.last();
                &&& final(self).processes@[p as int].device_space.desc_table@ == old(
                    self,
                ).processes@[p as int].device_space.desc_table@.push(di)
                &&& r == old(self).processes@[p as int].device_space.desc_table@.len()
                // the named device gained the process as a listener and its
                // shared pages are set up
                &&& di < final(self).namespace.devices@.len()
                &&& final(self).namespace.devices@.len() == old(self).namespace.devices@.len()
                &&& final(self).namespace.devices@[di as int].name@ == name@
                &&& final(self).namespace.devices@[di as int].ops.notifier.listeners_spec()
                    == old(self).namespace.devices@[
                    di as int].ops.notifier.listeners_spec().push(p)
                &&& final(self).namespace.devices@[di as int].ops.rx_buffer_addr is Some
                &&& (final(self).namespace.devices@[di as int].ops.io_queue matches Some(q)
                    && q.view_spec().len() == 0)
            },
            r < 0 ==> r == -crate::errno::EINVAL || r == -crate::errno::ENOMEM,
            // success is owed when the name is registered, the descriptor
            // table has room, the address space sits below the allocator
            // ceiling, and the arena has a page for the submission queue
            ({
                let p = old(self).current->Some_0;
                ((exists|di: int|
                    0 <= di < old(self).namespace.devices@.len() && (#[trigger] old(
                        self,
                    ).namespace.devices@[di]).name@ == name@) && old(self).processes@[
                    p as int].device_space.desc_table@.len() < 0x7fff_ffff
                    && crate::vm::vm_watermark(
                    old(self).processes@[p as int].vmspace.regions_spec(),
                ) + 4 * PAGE_SIZE_SMALL <= crate::vm::VM_ALLOC_CEILING
                    && crate::vm::pool_can_serve_page(
                    old(self).pool,
                    PAGE_SIZE_SMALL as int,
                )) ==> r >= 0
            }),
    {
        let p = match self.current {
            Some(p) => p,
            None => {
                return -crate::errno::EINVAL;
            },
        };
        let di = match self.namespace.lookup(name) {
            Some(di) => di,
            None => {
                return -crate::errno::EINVAL;
            },
        };
        if self.processes[p].device_space.desc_table.len() >= 0x7fff_ffff {
            return -crate::errno::EINVAL;
        }
        let mut pr = self.processes.remove(p);
        let desc = pr.device_space.attach(di);
        let mut dev = self.namespace.devices.remove(di);
        let acquired = dev.ops.acquire(&mut pr.vmspace, &mut self.pool, p);
        self.namespace.devices.insert(di, dev);
        self.processes.insert(p, pr);
        proof {
            assert(self.processes@ =~= old(self).processes@.update(
                p as int,
                self.processes@[p as int],
            ));
            assert(self.namespace.devices@ =~= old(self).namespace.devices@.update(
                di as int,
                self.namespace.devices@[di as int],
            ));
        }
        match acquired {
            Ok(_) => desc.to_user(),
            Err(e) => {
                let errno = e.errno();
                if errno == crate::errno::ENOMEM {
                    -crate::errno::ENOMEM
                } else {
                    -crate::errno::EINVAL
                }
            },
        }
    }

    /// The `wait` system call: marks the current process waiting, drains
    /// every device's submission queue (performing the commands that are
    /// well-formed and fit, dropping the rest), and schedules: the waiter
    /// joins the wait queue and the head of the run queue (if any) runs.
    pub fn process_wait(&mut self, backend: &mut crate::net::VirtioBackend)
        requires
            old(self).wf(),
            old(self).current is Some,
        ensures
            final(self).wf(),
            final(self).wait_queue@ == old(self).wait_queue@.push(old(self).current->Some_0),
            final(self).processes@.len() == old(self).processes@.len(),
            ({
                let p = old(self).current->Some_0;
                final(self).processes@[p as int].state == (if old(self).run_queue@.len() > 0
                    && old(self).run_queue@[0] == p {
                    ProcessState::RUNNING
                } else {
                    ProcessState::WAITING
                })
            }),
            ({
                let rq = old(self).run_queue@;
                if rq.len() > 0 {
                    &&& final(self).current == Some(rq[0])
                    &&& final(self).run_queue@ == rq.subrange(1, rq.len() as int)
                    &&& final(self).processes@[rq[0] as int].state == ProcessState::RUNNING
                    &&& final(self).loaded_map == old(self).processes@[
                        rq[0] as int].vmspace.mmu_map.id
                } else {
                    &&& final(self).current is None
                    &&& final(self).run_queue@.len() == 0
                }
            }),
            forall|d: int|
                0 <= d < final(self).namespace.devices@.len()
                    ==> ((#[trigger] final(self).namespace.devices@[d]).ops.io_queue matches Some(
                    q,
                ) ==> q.view_spec().len() == 0),
            // with one device, a lone performable transmit request in its
            // submission queue is posted to its transmit queue and the
            // device is kicked before yielding
            ({
                let p = old(self).current->Some_0;
                let regions = old(self).processes@[p as int].vmspace.regions_spec();
                old(self).namespace.devices@.len() == 1 ==> ({
                    let dev0 = old(self).namespace.devices@[0];
                    let q0 = dev0.ops.io_queue->Some_0.view_spec();
                    (dev0.ops.io_queue is Some && q0.len() == 1 && submit_performable(
                        &dev0,
                        regions,
                        q0[0],
                    )) ==> ({
                        let tx0 = dev0.ops.vqs@[1];
                        &&& final(self).namespace.devices@[0].ops.vqs@[1].avail.idx
                            == crate::virtqueue::wrap16_inc(tx0.avail.idx)
                        &&& final(backend).notify_log@ == old(backend).notify_log@.push(
                            ((dev0.ops.notify_off_multiplier * tx0.notify_off) as u64,
                            tx0.queue_idx),
                        )
                        &&& final(self).namespace.devices@[0].ops.tx_buf@.len()
                            == crate::net::VIRTIO_NET_HDR_SIZE + q0[0].len
                        &&& (forall|k: int|
                            0 <= k < q0[0].len
                                ==> (#[trigger] final(self).namespace.devices@[0].ops.tx_buf@[
                            crate::net::VIRTIO_NET_HDR_SIZE + k]) == crate::vm::vm_byte_at(
                                regions,
                                q0[0].addr + k,
                            ))
                    })
                })
            }),
            // with one device, a queue of performable transmit requests
            // within the free descriptors is posted record by record: one
            // available-ring slot and one doorbell each
            ({
                let p = old(self).current->Some_0;
                let regions = old(self).processes@[p as int].vmspace.regions_spec();
                old(self).namespace.devices@.len() == 1 ==> ({
                    let dev0 = old(self).namespace.devices@[0];
                    let q0 = dev0.ops.io_queue->Some_0.view_spec();
                    let tx0 = dev0.ops.vqs@[1];
                    (dev0.ops.io_queue is Some && q0.len() <= tx0.free_desc_spec().len() && (
                    forall|j: int|
                        0 <= j < q0.len() ==> submit_request_ok(&dev0, regions, #[trigger] q0[j])))
                        ==> ({
                        &&& final(self).namespace.devices@[0].ops.vqs@[1].avail.idx as int == (
                        tx0.avail.idx + q0.len()) % 0x10000
                        &&& final(self).namespace.devices@[0].ops.vqs@[
                            1].free_desc_spec().len() == tx0.free_desc_spec().len() - q0.len()
                        &&& final(backend).notify_log@ == old(backend).notify_log@ + Seq::new(
                            q0.len(),
                            |j: int|
                                (((dev0.ops.notify_off_multiplier * tx0.notify_off) as u64),
                                tx0.queue_idx),
                        )
                    })
                })
            }),
    {
        let p = match self.current {
            Some(p) => p,
            None => {
                return ;
            },
        };
        let mut pr = self.processes.remove(p);
        pr.state = ProcessState::WAITING;
        self.processes.insert(p, pr);
        proof {
            assert(self.processes@ =~= old(self).processes@.update(
                p as int,
                self.processes@[p as int],
            ));
        }
        // Drain outstanding I/O commands into the devices' virtqueues.
        let nd = self.namespace.devices.len();
        let mut d: usize = 0;
        while d < nd
            invariant
                self.wf(),
                self.current == Some(p),
                old(self).current == Some(p),
                p < self.processes@.len(),
                nd == self.namespace.devices@.len(),
                d <= nd,
                self.processes@ == old(self).processes@.update(
                    p as int,
                    Process { state: ProcessState::WAITING, ..old(self).processes@[p as int] },
                ),
                self.processes@[p as int].vmspace == old(self).processes@[p as int].vmspace,
                self.run_queue@ == old(self).run_queue@,
                self.wait_queue@ == old(self).wait_queue@,
                self.loaded_map == old(self).loaded_map,
                forall|k: int|
                    0 <= k < d ==> ((#[trigger] self.namespace.devices@[k]).ops.io_queue matches
                    Some(q) ==> q.view_spec().len() == 0),
                nd == 1 && d == 0 ==> (self.namespace.devices@ == old(self).namespace.devices@
                    && *backend == *old(backend)),
                ({
                    let regions = old(self).processes@[p as int].vmspace.regions_spec();
                    (nd == 1 && d == 1) ==> ({
                        let dev0 = old(self).namespace.devices@[0];
                        let q0 = dev0.ops.io_queue->Some_0.view_spec();
                        (dev0.ops.io_queue is Some && q0.len() == 1 && submit_performable(
                            &dev0,
                            regions,
                            q0[0],
                        )) ==> ({
                            let tx0 = dev0.ops.vqs@[1];
                            &&& self.namespace.devices@[0].ops.vqs@[1].avail.idx
                                == crate::virtqueue::wrap16_inc(tx0.avail.idx)
                            &&& backend.notify_log@ == old(backend).notify_log@.push(
                                ((dev0.ops.notify_off_multiplier * tx0.notify_off) as u64,
                                tx0.queue_idx),
                            )
                            &&& self.namespace.devices@[0].ops.tx_buf@.len()
                                == crate::net::VIRTIO_NET_HDR_SIZE + q0[0].len
                            &&& (forall|k: int|
                                0 <= k < q0[0].len
                                    ==> (#[trigger] self.namespace.devices@[0].ops.tx_buf@[
                                crate::net::VIRTIO_NET_HDR_SIZE + k]) == crate::vm::vm_byte_at(
                                    regions,
                                    q0[0].addr + k,
                                ))
                        })
                    })
                }),
                ({
                    let regions = old(self).processes@[p as int].vmspace.regions_spec();
                    (nd == 1 && d == 1) ==> ({
                        let dev0 = old(self).namespace.devices@[0];
                        let q0 = dev0.ops.io_queue->Some_0.view_spec();
                        let tx0 = dev0.ops.vqs@[1];
                        (dev0.ops.io_queue is Some && q0.len() <= tx0.free_desc_spec().len() && (
                        forall|j: int|
                            0 <= j < q0.len() ==> submit_request_ok(
                                &dev0,
                                regions,
                                #[trigger] q0[j],
                            ))) ==> ({
                            &&& self.namespace.devices@[0].ops.vqs@[1].avail.idx as int == (
                            tx0.avail.idx + q0.len()) % 0x10000
                            &&& self.namespace.devices@[0].ops.vqs@[1].free_desc_spec().len()
                                == tx0.free_desc_spec().len() - q0.len()
                            &&& backend.notify_log@ == old(backend).notify_log@ + Seq::new(
                                q0.len(),
                                |j: int|
                                    (((dev0.ops.notify_off_multiplier * tx0.notify_off) as u64),
                                    tx0.queue_idx),
                            )
                        })
                    })
                }),
            decreases nd - d,
        {
            let ghost devs_pre = self.namespace.devices@;
            let ghost backend_pre = *backend;
            let mut dev = self.namespace.devices.remove(d);
            drain_device_io(&self.processes[p].vmspace, &mut dev, backend);
            self.namespace.devices.insert(d, dev);
            proof {
                assert(self.namespace.devices@ =~= devs_pre.update(
                    d as int,
                    self.namespace.devices@[d as int],
                ));
                if nd == 1 && d == 0 {
                    assert(devs_pre == old(self).namespace.devices@);
                    assert(backend_pre == *old(backend));
                    assert(self.namespace.devices@[0] == dev);
                    assert(self.processes@[p as int].vmspace == old(self).processes@[
                        p as int].vmspace);
                }
                assert forall|k: int|
                    0 <= k < d + 1 implies ((#[trigger] self.namespace.devices@[
                k]).ops.io_queue matches Some(q) ==> q.view_spec().len() == 0) by {
                    if k < d {
                        assert(self.namespace.devices@[k] == devs_pre[k]);
                    }
                }
                assert forall|dd: int, k: int|
                    0 <= dd < self.namespace.devices@.len() && 0 <= k < self.namespace.devices@[
                        dd].ops.notifier.listeners_spec().len() implies (#[trigger]
                self.namespace.devices@[dd].ops.notifier.listeners_spec()[k])
                    < self.processes@.len() by {
                    if dd != d {
                        assert(self.namespace.devices@[dd] == devs_pre[dd]);
                    }
                }
            }
            d += 1;
        }
        let ghost mid = *self;
        self.schedule();
        proof {
            assert(mid.requeued_wait() == old(self).wait_queue@.push(p));
            assert(mid.requeued_run() == old(self).run_queue@);
            if old(self).run_queue@.len() > 0 {
                let next = old(self).run_queue@[0];
                if next != p {
                    assert(self.processes@[p as int].state == mid.processes@[p as int].state);
                }
            }
        }
    }

    /// The `spawn` system call: parses an ELF image, builds an address space
    /// with one populated region per loadable segment (protection from the
    /// segment flags, contents from the file bytes followed by zeroes), a
    /// populated stack, and an event-queue page, then enqueues the new
    /// process as runnable. Returns zero, or a negative errno when the image
    /// does not parse, a segment is malformed or overlaps, or memory runs
    /// out.
    #[verifier::rlimit(100)]
    #[verifier::spinoff_prover]
    pub fn process_spawn(&mut self, image: &Vec<u8>) -> (r: i32)
        requires
            old(self).wf(),
        ensures
            final(self).wf(),
            r == 0 || r == -crate::errno::EINVAL || r == -crate::errno::ENOMEM,
            r != 0 ==> final(self).processes@.len() == old(self).processes@.len()
                && final(self).run_queue@ == old(self).run_queue@
                && final(self).wait_queue@ == old(self).wait_queue@
                && final(self).current == old(self).current,
            !crate::elf::elf_image_wf(image@) ==> r == -crate::errno::EINVAL,
            crate::elf::elf_image_wf(image@) && crate::elf::elf_info_of(image@) is None ==> r
                == -crate::errno::EINVAL,
            r == 0 ==> {
                &&& crate::elf::elf_image_wf(image@)
                &&& crate::elf::elf_info_of(image@) is Some
                &&& final(self).processes@.len() == old(self).processes@.len() + 1
                &&& final(self).run_queue@ == old(self).run_queue@.push(
                    old(self).processes@.len() as usize,
                )
                &&& final(self).wait_queue@ == old(self).wait_queue@
                &&& final(self).current == old(self).current
                &&& ({
                    let pr = final(self).processes@.last();
                    &&& pr.state is RUNNABLE
                    &&& pr.entry_point == crate::elf::elf_info_of(image@)->Some_0.0
                    &&& pr.event_queue.view_spec().len() == 0
                })
                // one populated region per loadable segment, with the
                // protection its flags ask for
                &&& (forall|sj: int|
                    0 <= sj < crate::elf::elf_info_of(image@)->Some_0.1.len() && (#[trigger]
                    crate::elf::elf_info_of(image@)->Some_0.1[sj]).load && crate::elf::elf_info_of(
                        image@,
                    )->Some_0.1[sj].mem_size > 0 ==> spawn_segment_loaded(
                        final(self).processes@.last().vmspace.regions_spec(),
                        crate::elf::elf_info_of(image@)->Some_0.1[sj],
                        image@,
                    ))
            },
            // success is owed on a lone-segment image with room for it
            spawn_owed(*old(self), image@) ==> r == 0,
    {
        // Refuse images the parser is not defined on before reaching it.
        if !crate::elf::elf_image_check(image) {
            return -crate::errno::EINVAL;
        }
        let info = match crate::elf::parse_elf(image) {
            None => {
                return -crate::errno::EINVAL;
            },
            Some(info) => info,
        };
        let (entry_point, segments) = info;
        if self.next_map_id == u64::MAX || self.next_task_id == usize::MAX {
            return -crate::errno::EINVAL;
        }
        let mut vmspace = crate::vm::VMAddressSpace::new(self.next_map_id);
        // Map every loadable segment.
        let nseg = segments.len();
        let mut si: usize = 0;
        while si < nseg
            invariant
                self.wf(),
                nseg == segments@.len(),
                si <= nseg,
                vmspace.wf(),
                crate::elf::elf_image_wf(image@),
                crate::elf::elf_info_of(image@) is Some,
                segments@ == crate::elf::elf_info_of(image@)->Some_0.1,
                forall|sj: int|
                    0 <= sj < si && (#[trigger] segments@[sj]).load && segments@[sj].mem_size > 0
                        ==> spawn_segment_loaded(vmspace.regions_spec(), segments@[sj], image@),
                self.processes@ == old(self).processes@,
                self.run_queue@ == old(self).run_queue@,
                self.wait_queue@ == old(self).wait_queue@,
                self.current == old(self).current,
                self.namespace.devices@ == old(self).namespace.devices@,
                self.next_task_id == old(self).next_task_id,
                self.next_map_id == old(self).next_map_id,
                self.next_task_id < usize::MAX,
                self.next_map_id < u64::MAX,
                spawn_owed(*old(self), image@) ==> ({
                    let segs = crate::elf::elf_info_of(image@)->Some_0.1;
                    let s0 = spawn_lone_idx(image@);
                    &&& (si <= s0 ==> vmspace.regions_spec().len() == 0 && self.pool == old(
                        self,
                    ).pool)
                    &&& (si > s0 ==> ({
                        &&& (forall|i: int|
                            0 <= i < vmspace.regions_spec().len()
                                ==> (#[trigger] vmspace.regions_spec()[i]).end as int
                                == segment_end(segs[s0]))
                        &&& self.pool.small@ == crate::memory::arena_after_pages(
                            old(self).pool.small@,
                            crate::vm::small_pages_for(segment_end(segs[s0]) - segs[s0].vaddr),
                        )
                        &&& self.pool.large == old(self).pool.large
                    }))
                }),
            decreases nseg - si,
        {
            let seg = segments[si];
            si += 1;
            proof {
                if spawn_owed(*old(self), image@) {
                    assert(spawn_lone_segment(
                        crate::elf::elf_info_of(image@)->Some_0.1,
                        spawn_lone_idx(image@),
                    ));
                }
            }
            if !seg.load {
                continue ;
            }
            if seg.mem_size == 0 {
                continue ;
            }
            let ghost regs_pre = vmspace.regions_spec();
            proof {
                if spawn_owed(*old(self), image@) {
                    let segs = crate::elf::elf_info_of(image@)->Some_0.1;
                    let s0 = spawn_lone_idx(image@);
                    assert(si - 1 == s0);
                    assert(regs_pre.len() == 0);
                    crate::memory::lemma_can_serve_weaken(
                        old(self).pool.small@,
                        crate::vm::small_pages_for(segment_end(seg) - seg.vaddr),
                    );
                }
            }
            match load_segment(&mut vmspace, &mut self.pool, seg, image) {
                Err(e) => {
                    return -e.errno();
                },
                Ok(_) => {},
            }
            proof {
                assert forall|sj: int|
                    0 <= sj < si && (#[trigger] segments@[sj]).load && segments@[sj].mem_size
                        > 0 implies spawn_segment_loaded(
                    vmspace.regions_spec(),
                    segments@[sj],
                    image@,
                ) by {
                    if sj < si - 1 {
                        assert(spawn_segment_loaded(regs_pre, segments@[sj], image@));
                    }
                }
                if spawn_owed(*old(self), image@) {
                    let segs = crate::elf::elf_info_of(image@)->Some_0.1;
                    let s0 = spawn_lone_idx(image@);
                    assert(seg == segs[s0]);
                    assert forall|i: int|
                        0 <= i < vmspace.regions_spec().len() implies (#[trigger]
                    vmspace.regions_spec()[i]).end as int == segment_end(segs[s0]) by {
                        assert(regs_pre.len() == 0);
                    }
                }
            }
        }
        // A populated stack of one large page.
        let stack_size = crate::PAGE_SIZE_LARGE as usize;
        let ghost regs_a = vmspace.regions_spec();
        proof {
            if spawn_owed(*old(self), image@) {
                let segs = crate::elf::elf_info_of(image@)->Some_0.1;
                let s0 = spawn_lone_idx(image@);
                assert(spawn_lone_segment(segs, s0));
                assert(si > s0);
                assert forall|i: int|
                    0 <= i < regs_a.len() implies (#[trigger] regs_a[i]).end + PAGE_SIZE_SMALL
                        + stack_size <= crate::vm::VM_ALLOC_CEILING by {
                    assert(regs_a[i].end as int == segment_end(segs[s0]));
                }
                assert(crate::vm::pool_can_serve_page(self.pool, stack_size as int));
            }
        }
        let (_stack_start, stack_top) = match alloc_populated(
            &mut vmspace,
            &mut self.pool,
            stack_size,
        ) {
            Err(e) => {
                return -e.errno();
            },
            Ok(se) => se,
        };
        proof {
            assert forall|sj: int|
                0 <= sj < nseg && (#[trigger] segments@[sj]).load && segments@[sj].mem_size
                    > 0 implies spawn_segment_loaded(
                vmspace.regions_spec(),
                segments@[sj],
                image@,
            ) by {
                assert(spawn_segment_loaded(regs_a, segments@[sj], image@));
            }
        }
        // The event-queue page, shared with user space.
        let event_buf_size = crate::PAGE_SIZE_SMALL as usize;
        let ghost regs_b = vmspace.regions_spec();
        proof {
            if spawn_owed(*old(self), image@) {
                let segs = crate::elf::elf_info_of(image@)->Some_0.1;
                let s0 = spawn_lone_idx(image@);
                assert forall|i: int|
                    0 <= i < regs_a.len() implies crate::vm::align_up_spec(
                    (#[trigger] regs_a[i]).end as int,
                    PAGE_SIZE_SMALL as int,
                ) <= crate::vm::VM_ALLOC_BASE as int by {
                    assert(regs_a[i].end as int == segment_end(segs[s0]));
                    crate::vm::lemma_align_up_aligned(
                        segs[s0].vaddr + segs[s0].mem_size,
                        PAGE_SIZE_SMALL as int,
                    );
                }
                crate::vm::lemma_watermark_le(regs_a, crate::vm::VM_ALLOC_BASE as int);
                assert(stack_top <= crate::vm::VM_ALLOC_BASE + crate::PAGE_SIZE_LARGE);
                assert forall|i: int|
                    0 <= i < regs_b.len() implies (#[trigger] regs_b[i]).end + PAGE_SIZE_SMALL
                        + event_buf_size <= crate::vm::VM_ALLOC_CEILING by {
                    if regs_b[i].end != stack_top {
                        let j = choose|j: int|
                            0 <= j < regs_a.len() && (#[trigger] regs_a[j]).end == regs_b[i].end;
                        assert(regs_a[j].end as int == segment_end(segs[s0]));
                    }
                }
                crate::memory::lemma_can_serve_split(
                    old(self).pool.small@,
                    crate::vm::small_pages_for(segment_end(segs[s0]) - segs[s0].vaddr),
                    1,
                );
                assert(crate::vm::pool_can_serve_page(self.pool, event_buf_size as int));
            }
        }
        let (event_buf_start, _event_buf_end) = match alloc_populated(
            &mut vmspace,
            &mut self.pool,
            event_buf_size,
        ) {
            Err(e) => {
                return -e.errno();
            },
            Ok(se) => se,
        };
        proof {
            assert forall|sj: int|
                0 <= sj < nseg && (#[trigger] segments@[sj]).load && segments@[sj].mem_size
                    > 0 implies spawn_segment_loaded(
                vmspace.regions_spec(),
                segments@[sj],
                image@,
            ) by {
                assert(spawn_segment_loaded(regs_b, segments@[sj], image@));
            }
        }
        let event_queue = crate::event::EventQueue::new(event_buf_start, event_buf_size);
        let task_state = self.next_task_id;
        self.next_task_id = self.next_task_id + 1;
        self.next_map_id = self.next_map_id + 1;
        let process = Process::new(
            task_state,
            entry_point,
            stack_top as u64,
            vmspace,
            event_queue,
        );
        let pid = self.processes.len();
        self.processes.push(process);
        self.enqueue(pid);
        proof {
            assert(self.processes@ =~= old(self).processes@.push(self.processes@.last()));
        }
        0
    }

    /// The `vmspace_alloc` system call: hands the current process a fresh
    /// read-write region of `size` bytes and returns its start address.
    #[verifier::rlimit(100)]
    #[verifier::spinoff_prover]
    pub fn process_vmspace_alloc(&mut self, size: u64) -> (r: Result<usize, Error>)
        requires
            old(self).wf(),
            old(self).current is Some,
        ensures
            final(self).wf(),
            r matches Err(e) ==> e.0 == crate::errno::EINVAL || e.0 == crate::errno::ENOMEM,
            final(self).current == old(self).current,
            final(self).processes@.len() == old(self).processes@.len(),
            // a fresh read-write region of `size` bytes now sits at the
            // returned address in the current process's space
            r matches Ok(a) ==> ({
                let p = old(self).current->Some_0;
                &&& crate::vm::VM_ALLOC_BASE <= a
                &&& a + size <= crate::vm::VM_ALLOC_CEILING
                &&& a as int % (PAGE_SIZE_SMALL as int) == 0
                &&& crate::vm::vm_has_region(
                    final(self).processes@[p as int].vmspace.regions_spec(),
                    a as int,
                    a + size,
                )
            }),
            // success is owed when the request is sane and the space is not
            // crowded against the allocator ceiling
            ({
                let p = old(self).current->Some_0;
                let regions = old(self).processes@[p as int].vmspace.regions_spec();
                (0 < size && size as int % (PAGE_SIZE_SMALL as int) == 0 && size
                    + PAGE_SIZE_SMALL + crate::vm::VM_ALLOC_BASE <= crate::vm::VM_ALLOC_CEILING
                    && (forall|i: int|
                    0 <= i < regions.len() ==> (#[trigger] regions[i]).end + PAGE_SIZE_SMALL
                        + size <= crate::vm::VM_ALLOC_CEILING)) ==> r is Ok
            }),
    {
        let p = match self.current {
            Some(p) => p,
            None => {
                return Err(Error::new(crate::errno::EINVAL));
            },
        };
        if size == 0 || size > usize::MAX as u64 || (size as usize) % (crate::PAGE_SIZE_SMALL
            as usize) != 0 {
            return Err(Error::new(crate::errno::EINVAL));
        }
        let mut pr = self.processes.remove(p);
        let res = pr.vmspace.allocate(size as usize, crate::vm::VMProt::prot_rw());
        self.processes.insert(p, pr);
        proof {
            assert(self.processes@ =~= old(self).processes@.update(
                p as int,
                self.processes@[p as int],
            ));
        }
        match res {
            Ok(se) => Ok(se.0),
            Err(e) => Err(e),
        }
    }
}

/// Pops and performs every command in one device's submission queue.
/// A transmit request whose payload is unreadable or too large, or that
/// arrives when no descriptor is free, is dropped.
fn drain_device_io(
    vmspace: &crate::vm::VMAddressSpace,
    dev: &mut crate::device::Device,
    backend: &mut crate::net::VirtioBackend,
)
        requires
            vmspace.wf(),
            old(dev).ops.wf(),
        ensures
            final(dev).ops.wf(),
            final(dev).ops.io_queue matches Some(q) ==> q.view_spec().len() == 0,
            final(dev).ops.io_queue is Some <==> old(dev).ops.io_queue is Some,
            final(dev).name@ == old(dev).name@,
            final(dev).ops.notifier.listeners_spec() == old(dev).ops.notifier.listeners_spec(),
            final(dev).ops.rx_buffer_addr == old(dev).ops.rx_buffer_addr,
            // a lone performable transmit request is posted and the device
            // kicked: the bounce page holds a zeroed header and the payload
            ({
                let q0 = old(dev).ops.io_queue->Some_0.view_spec();
                (old(dev).ops.io_queue is Some && q0.len() == 1 && submit_performable(
                    old(dev),
                    vmspace.regions_spec(),
                    q0[0],
                )) ==> ({
                    let tx0 = old(dev).ops.vqs@[1];
                    &&& final(dev).ops.vqs@[1].avail.idx == crate::virtqueue::wrap16_inc(
                        tx0.avail.idx,
                    )
                    &&& final(backend).notify_log@ == old(backend).notify_log@.push(
                        ((old(dev).ops.notify_off_multiplier * tx0.notify_off) as u64,
                        tx0.queue_idx),
                    )
                    &&& final(dev).ops.tx_buf@.len() == crate::net::VIRTIO_NET_HDR_SIZE + q0[
                        0].len
                    &&& (forall|k: int|
                        0 <= k < crate::net::VIRTIO_NET_HDR_SIZE
                            ==> (#[trigger] final(dev).ops.tx_buf@[k]) == 0u8)
                    &&& (forall|k: int|
                        0 <= k < q0[0].len ==> (#[trigger] final(dev).ops.tx_buf@[
                        crate::net::VIRTIO_NET_HDR_SIZE + k]) == crate::vm::vm_byte_at(
                            vmspace.regions_spec(),
                            q0[0].addr + k,
                        ))
                })
            }),
            // when every queued record is a performable transmit and the
            // descriptors suffice, each is posted in order: one
            // available-ring slot and one doorbell per record, the bounce
            // page left holding the last payload
            ({
                let q0 = old(dev).ops.io_queue->Some_0.view_spec();
                let tx0 = old(dev).ops.vqs@[1];
                (old(dev).ops.io_queue is Some && q0.len() <= tx0.free_desc_spec().len() && (
                forall|j: int|
                    0 <= j < q0.len() ==> submit_request_ok(
                        old(dev),
                        vmspace.regions_spec(),
                        #[trigger] q0[j],
                    ))) ==> ({
                    &&& final(dev).ops.vqs@[1].avail.idx as int == (tx0.avail.idx + q0.len())
                        % 0x10000
                    &&& final(dev).ops.vqs@[1].free_desc_spec().len()
                        == tx0.free_desc_spec().len() - q0.len()
                    &&& final(backend).notify_log@ == old(backend).notify_log@ + Seq::new(
                        q0.len(),
                        |j: int|
                            (((old(dev).ops.notify_off_multiplier * tx0.notify_off) as u64),
                            tx0.queue_idx),
                    )
                    &&& q0.len() > 0 ==> ({
                        let last = q0[q0.len() - 1];
                        &&& final(dev).ops.tx_buf@.len() == crate::net::VIRTIO_NET_HDR_SIZE
                            + last.len
                        &&& (forall|k: int|
                            0 <= k < crate::net::VIRTIO_NET_HDR_SIZE
                                ==> (#[trigger] final(dev).ops.tx_buf@[k]) == 0u8)
                        &&& (forall|k: int|
                            0 <= k < last.len ==> (#[trigger] final(dev).ops.tx_buf@[
                            crate::net::VIRTIO_NET_HDR_SIZE + k]) == crate::vm::vm_byte_at(
                                vmspace.regions_spec(),
                                last.addr + k,
                            ))
                    })
                })
            }),
    {
        let ghost q0 = old(dev).ops.io_queue->Some_0.view_spec();
        let ghost lone = old(dev).ops.io_queue is Some && q0.len() == 1 && submit_performable(
            old(dev),
            vmspace.regions_spec(),
            q0[0],
        );
        let ghost tx0 = old(dev).ops.vqs@[1];
        let ghost all_ok = old(dev).ops.io_queue is Some && q0.len()
            <= tx0.free_desc_spec().len() && (forall|j: int|
            0 <= j < q0.len() ==> submit_request_ok(
                old(dev),
                vmspace.regions_spec(),
                #[trigger] q0[j],
            ));
        let ghost notify_doorbell: u64 = ((old(dev).ops.notify_off_multiplier
            * tx0.notify_off) as u64);
        let ghost notify_entry: (u64, u16) = (notify_doorbell, tx0.queue_idx);
        loop
            invariant
                vmspace.wf(),
                dev.ops.wf(),
                dev.ops.io_queue is Some <==> old(dev).ops.io_queue is Some,
                dev.name@ == old(dev).name@,
                dev.ops.notifier.listeners_spec() == old(dev).ops.notifier.listeners_spec(),
                dev.ops.rx_buffer_addr == old(dev).ops.rx_buffer_addr,
                lone == (old(dev).ops.io_queue is Some && q0.len() == 1 && submit_performable(
                    old(dev),
                    vmspace.regions_spec(),
                    q0[0],
                )),
                lone ==> q0 == old(dev).ops.io_queue->Some_0.view_spec(),
                lone ==> dev.ops.tx_page_size == old(dev).ops.tx_page_size
                    && dev.ops.notify_off_multiplier == old(dev).ops.notify_off_multiplier,
                lone ==> (if dev.ops.io_queue->Some_0.view_spec().len() == 0 {
                    let tx0 = old(dev).ops.vqs@[1];
                    &&& dev.ops.vqs@[1].avail.idx == crate::virtqueue::wrap16_inc(tx0.avail.idx)
                    &&& backend.notify_log@ == old(backend).notify_log@.push(
                        ((old(dev).ops.notify_off_multiplier * tx0.notify_off) as u64,
                        tx0.queue_idx),
                    )
                    &&& dev.ops.tx_buf@.len() == crate::net::VIRTIO_NET_HDR_SIZE + q0[0].len
                    &&& (forall|k: int|
                        0 <= k < crate::net::VIRTIO_NET_HDR_SIZE ==> (#[trigger] dev.ops.tx_buf@[
                        k]) == 0u8)
                    &&& (forall|k: int|
                        0 <= k < q0[0].len ==> (#[trigger] dev.ops.tx_buf@[
                        crate::net::VIRTIO_NET_HDR_SIZE + k]) == crate::vm::vm_byte_at(
                            vmspace.regions_spec(),
                            q0[0].addr + k,
                        ))
                } else {
                    &&& dev.ops.io_queue->Some_0.view_spec() == q0
                    &&& dev.ops.vqs@ == old(dev).ops.vqs@
                    &&& backend.notify_log@ == old(backend).notify_log@
                }),
                all_ok == (old(dev).ops.io_queue is Some && q0.len()
                    <= tx0.free_desc_spec().len() && (forall|j: int|
                    0 <= j < q0.len() ==> submit_request_ok(
                        old(dev),
                        vmspace.regions_spec(),
                        #[trigger] q0[j],
                    ))),
                tx0 == old(dev).ops.vqs@[1],
                notify_doorbell == ((old(dev).ops.notify_off_multiplier
                    * tx0.notify_off) as u64),
                notify_entry == (notify_doorbell, tx0.queue_idx),
                all_ok ==> q0 == old(dev).ops.io_queue->Some_0.view_spec(),
                all_ok ==> ({
                    let cur = dev.ops.io_queue->Some_0.view_spec();
                    let done = q0.len() - cur.len();
                    &&& cur.len() <= q0.len()
                    &&& cur == q0.skip(done)
                    &&& dev.ops.vqs@[1].avail.idx as int == (tx0.avail.idx + done) % 0x10000
                    &&& dev.ops.vqs@[1].free_desc_spec().len() == tx0.free_desc_spec().len()
                        - done
                    &&& dev.ops.vqs@[1].queue_idx == tx0.queue_idx
                    &&& dev.ops.vqs@[1].notify_off == tx0.notify_off
                    &&& dev.ops.notify_off_multiplier == old(dev).ops.notify_off_multiplier
                    &&& dev.ops.tx_page_size == old(dev).ops.tx_page_size
                    &&& backend.notify_log@ == old(backend).notify_log@ + Seq::new(
                        done as nat,
                        |j: int| notify_entry,
                    )
                    &&& done > 0 ==> ({
                        let last = q0[done - 1];
                        &&& dev.ops.tx_buf@.len() == crate::net::VIRTIO_NET_HDR_SIZE + last.len
                        &&& (forall|k: int|
                            0 <= k < crate::net::VIRTIO_NET_HDR_SIZE
                                ==> (#[trigger] dev.ops.tx_buf@[k]) == 0u8)
                        &&& (forall|k: int|
                            0 <= k < last.len ==> (#[trigger] dev.ops.tx_buf@[
                            crate::net::VIRTIO_NET_HDR_SIZE + k]) == crate::vm::vm_byte_at(
                                vmspace.regions_spec(),
                                last.addr + k,
                            ))
                    })
                }),
            ensures
                dev.ops.io_queue matches Some(q) ==> q.view_spec().len() == 0,
            decreases (match dev.ops.io_queue {
                Some(q) => q.view_spec().len(),
                None => 0,
            }),
        {
            let ghost cur_pre = dev.ops.io_queue->Some_0.view_spec();
            let ghost done_pre = q0.len() - cur_pre.len();
            let cmd = match dev.ops.io_queue {
                None => {
                    return ;
                },
                Some(ref mut q) => {
                    if q.ring_buffer.front().is_none() {
                        break ;
                    }
                    q.pop()
                },
            };
            proof {
                if all_ok {
                    assert(cur_pre == q0.skip(done_pre));
                    assert(cur_pre[0] == q0[done_pre]);
                    assert(submit_request_ok(old(dev), vmspace.regions_spec(), q0[done_pre]));
                }
            }
            let cmd = match cmd {
                None => {
                    continue ;
                },
                Some(c) => c,
            };
            match cmd.opcode {
                crate::ioqueue::Opcode::Submit => {
                    if cmd.len <= usize::MAX - crate::net::VIRTIO_NET_HDR_SIZE && cmd.addr
                        <= usize::MAX - cmd.len && cmd.len + crate::net::VIRTIO_NET_HDR_SIZE
                        <= dev.ops.tx_page_size {
                        let payload = vmspace.read_bytes(cmd.addr, cmd.len);
                        match payload {
                            Some(payload) => {
                                let mut vq_free = false;
                                if dev.ops.vqs.len() >= 2 {
                                    vq_free = dev.ops.vqs[1].num_free_desc() > 0;
                                }
                                if vq_free {
                                    let ghost ops_pre = dev.ops;
                                    let ghost log_pre = backend.notify_log@;
                                    dev.ops.process_io_one(backend, cmd, &payload);
                                    proof {
                                        if all_ok {
                                            let cur = dev.ops.io_queue->Some_0.view_spec();
                                            assert(cur =~= q0.skip(done_pre + 1));
                                            lemma_wrap16_step(tx0.avail.idx as int, done_pre);
                                            assert(ops_pre.notify_off_multiplier * ops_pre.vqs@[
                                                1].notify_off == old(
                                                dev,
                                            ).ops.notify_off_multiplier * tx0.notify_off);
                                            assert(backend.notify_log@ == log_pre.push(
                                                notify_entry,
                                            ));
                                            assert(backend.notify_log@ =~= old(
                                                backend,
                                            ).notify_log@ + Seq::new(
                                                ((done_pre + 1) as nat),
                                                |j: int| notify_entry,
                                            ));
                                        }
                                    }
                                }
                            },
                            None => {},
                        }
                    }
                },
                crate::ioqueue::Opcode::Complete => {
                    let empty: Vec<u8> = Vec::new();
                    let mut vq_free = false;
                    if dev.ops.vqs.len() >= 1 {
                        vq_free = dev.ops.vqs[0].num_free_desc() > 0;
                    }
                    if vq_free {
                        dev.ops.process_io_one(backend, cmd, &empty);
                    }
                },
            }
        }
    }

impl Kernel {
    /// Delivers a receive interrupt from the device at namespace position
    /// `dev_idx`: consumes its used ring and pushes one packet event per
    /// consumed entry, in ring order, into every listener's event queue
    /// (events that find a queue full are dropped).
    #[verifier::rlimit(100)]
    #[verifier::spinoff_prover]
    pub fn device_interrupt(&mut self, dev_idx: usize)
        requires
            old(self).wf(),
            dev_idx < old(self).namespace.devices@.len(),
            old(self).namespace.devices@[dev_idx as int].ops.rx_buffer_addr matches Some(a) ==> a
                + crate::net::VIRTIO_NET_HDR_SIZE <= usize::MAX,
        ensures
            final(self).wf(),
            final(self).namespace.devices@[dev_idx as int].ops.vqs@[0].unseen_used() == 0,
            final(self).current == old(self).current,
            final(self).run_queue@ == old(self).run_queue@,
            final(self).wait_queue@ == old(self).wait_queue@,
            final(self).processes@.len() == old(self).processes@.len(),
            // the device keeps its listener list; other devices are untouched
            final(self).namespace.devices@.len() == old(self).namespace.devices@.len(),
            final(self).namespace.devices@[dev_idx as int].ops.notifier.listeners_spec() == old(
                self,
            ).namespace.devices@[dev_idx as int].ops.notifier.listeners_spec(),
            forall|dd: int|
                0 <= dd < old(self).namespace.devices@.len() && dd != dev_idx
                    ==> (#[trigger] final(self).namespace.devices@[dd])
                    == old(self).namespace.devices@[dd],
            // processes that listen to no device entry are untouched
            forall|i: int|
                0 <= i < old(self).processes@.len() && !queue_holds(
                    old(self).namespace.devices@[dev_idx as int].ops.notifier.listeners_spec(),
                    old(self).namespace.devices@[
                        dev_idx as int].ops.notifier.listeners_spec().len() as int,
                    i,
                ) ==> (#[trigger] final(self).processes@[i]) == old(self).processes@[i],
            // with a mapped receive buffer, distinct listeners and room in
            // their queues, every listener's queue gains the packet events
            ({
                let dev0 = old(self).namespace.devices@[dev_idx as int].ops;
                let listeners = dev0.notifier.listeners_spec();
                let vq = dev0.vqs@[0];
                let k = vq.unseen_used();
                (dev0.rx_buffer_addr is Some && (forall|l1: int, l2: int|
                    0 <= l1 < l2 < listeners.len() ==> listeners[l1] != listeners[l2]) && (forall|
                    li: int,
                |
                    0 <= li < listeners.len() ==> old(self).processes@[(#[trigger] listeners[
                        li]) as int].event_queue.view_spec().len() + k <= old(self).processes@[
                        listeners[li] as int].event_queue.ring_buffer.capacity_spec())) ==> (forall|
                    li: int,
                |
                    0 <= li < listeners.len() ==> final(self).processes@[(#[trigger] listeners[
                        li]) as int].event_queue.view_spec() == old(self).processes@[listeners[
                        li] as int].event_queue.view_spec() + Seq::new(
                        k as nat,
                        |j: int|
                            crate::event::raw_of_event(
                                crate::net::rx_event(
                                    dev0.rx_buffer_addr->Some_0 as int,
                                    vq.used.ring@[(vq.last_seen_used + j) % (
                                    vq.queue_size as int)].len as int,
                                ),
                            ),
                    ))
            }),
    {
        let ghost dev0 = old(self).namespace.devices@[dev_idx as int].ops;
        let ghost listeners = dev0.notifier.listeners_spec();
        let ghost k = dev0.vqs@[0].unseen_used();
        let ghost deliverable = dev0.rx_buffer_addr is Some && (forall|l1: int, l2: int|
            0 <= l1 < l2 < listeners.len() ==> listeners[l1] != listeners[l2]) && (forall|li: int|
            0 <= li < listeners.len() ==> old(self).processes@[(#[trigger] listeners[
                li]) as int].event_queue.view_spec().len() + k <= old(self).processes@[listeners[
                li] as int].event_queue.ring_buffer.capacity_spec());
        let ghost raws = Seq::new(
            k as nat,
            |j: int|
                crate::event::raw_of_event(
                    crate::net::rx_event(
                        dev0.rx_buffer_addr->Some_0 as int,
                        dev0.vqs@[0].used.ring@[(dev0.vqs@[0].last_seen_used + j) % (dev0.vqs@[
                        0].queue_size as int)].len as int,
                    ),
                ),
        );
        proof {
            // Expose the pieces of the delivery condition for instantiation.
            assert(deliverable ==> (forall|l1: int, l2: int|
                0 <= l1 < l2 < listeners.len() ==> listeners[l1] != listeners[l2]));
            assert(deliverable ==> (forall|li2: int|
                0 <= li2 < listeners.len() ==> old(self).processes@[(#[trigger] listeners[
                    li2]) as int].event_queue.view_spec().len() + k <= old(self).processes@[
                    listeners[li2] as int].event_queue.ring_buffer.capacity_spec()));
        }
        let mut dev = self.namespace.devices.remove(dev_idx);
        proof {
            assert forall|kk: int|
                0 <= kk < dev.ops.notifier.listeners_spec().len() implies (#[trigger]
            dev.ops.notifier.listeners_spec()[kk]) < self.processes@.len() by {
                assert(old(self).namespace.devices@[dev_idx as int].ops.notifier.listeners_spec()[
                    kk] < old(self).processes@.len());
            }
        }
        let events = dev.ops.recv();
        proof {
            if deliverable {
                assert(events@.map_values(|e: crate::event::Event| crate::event::raw_of_event(e))
                    =~= raws);
            }
        }
        // Deliver each event to each listening process's event queue.
        let nl = dev.ops.notifier.num_listeners();
        let mut li: usize = 0;
        while li < nl
            invariant
                self.pool.wf(),
                forall|i: int|
                    0 <= i < self.processes@.len() ==> (#[trigger] self.processes@[i]).wf(),
                forall|kk: int|
                    0 <= kk < self.run_queue@.len() ==> (#[trigger] self.run_queue@[kk])
                        < self.processes@.len(),
                forall|kk: int|
                    0 <= kk < self.wait_queue@.len() ==> (#[trigger] self.wait_queue@[kk])
                        < self.processes@.len(),
                (self.current matches Some(cp) ==> cp < self.processes@.len()),
                forall|dd: int|
                    0 <= dd < self.namespace.devices@.len()
                        ==> (#[trigger] self.namespace.devices@[dd]).ops.wf(),
                forall|dd: int, kk: int|
                    0 <= dd < self.namespace.devices@.len() && 0 <= kk < self.namespace.devices@[
                        dd].ops.notifier.listeners_spec().len()
                        ==> (#[trigger] self.namespace.devices@[dd].ops.notifier.listeners_spec()[
                    kk]) < self.processes@.len(),
                nl == listeners.len(),
                dev.ops.notifier.listeners_spec() == listeners,
                li <= nl,
                forall|kk: int|
                    0 <= kk < nl ==> (#[trigger] listeners[kk]) < self.processes@.len(),
                self.processes@.len() == old(self).processes@.len(),
                self.current == old(self).current,
                self.run_queue@ == old(self).run_queue@,
                self.wait_queue@ == old(self).wait_queue@,
                self.namespace.devices@ == old(self).namespace.devices@.remove(dev_idx as int),
                events@.map_values(|e: crate::event::Event| crate::event::raw_of_event(e))
                    == raws || !deliverable,
                deliverable ==> events@.len() == k,
                deliverable ==> (forall|l1: int, l2: int|
                    0 <= l1 < l2 < listeners.len() ==> listeners[l1] != listeners[l2]),
                deliverable ==> (forall|li2: int|
                    0 <= li2 < listeners.len() ==> old(self).processes@[(#[trigger] listeners[
                        li2]) as int].event_queue.view_spec().len() + k <= old(self).processes@[
                        listeners[li2] as int].event_queue.ring_buffer.capacity_spec()),
                // untouched processes keep their value; delivered listeners
                // have their queues extended
                forall|i: int|
                    0 <= i < self.processes@.len() && !queue_holds(listeners, li as int, i)
                        ==> (#[trigger] self.processes@[i]) == old(self).processes@[i],
                deliverable ==> (forall|l2: int|
                    0 <= l2 < li ==> self.processes@[(#[trigger] listeners[
                        l2]) as int].event_queue.view_spec() == old(self).processes@[listeners[
                        l2] as int].event_queue.view_spec() + raws),
            decreases nl - li,
        {
            let pid = dev.ops.notifier.listener_at(li);
            let ghost procs_pre = self.processes@;
            let mut pr = self.processes.remove(pid);
            let ghost pr0 = pr;
            let ne = events.len();
            let mut ei: usize = 0;
            while ei < ne
                invariant
                    ne == events@.len(),
                    ei <= ne,
                    pr.wf(),
                    pr == (Process { event_queue: pr.event_queue, ..pr0 }),
                    pr.event_queue.ring_buffer.capacity_spec()
                        == pr0.event_queue.ring_buffer.capacity_spec(),
                    pr0.event_queue.view_spec().len() + ne
                        <= pr0.event_queue.ring_buffer.capacity_spec()
                        ==> pr.event_queue.view_spec() == pr0.event_queue.view_spec()
                        + events@.map_values(
                        |e: crate::event::Event| crate::event::raw_of_event(e),
                    ).take(ei as int),
                decreases ne - ei,
            {
                let _ = pr.event_queue.emplace(events[ei]);
                ei += 1;
                proof {
                    if pr0.event_queue.view_spec().len() + ne
                        <= pr0.event_queue.ring_buffer.capacity_spec() {
                        assert(pr.event_queue.view_spec() =~= pr0.event_queue.view_spec()
                            + events@.map_values(
                            |e: crate::event::Event| crate::event::raw_of_event(e),
                        ).take(ei as int));
                    }
                }
            }
            self.processes.insert(pid, pr);
            li += 1;
            proof {
                assert(self.processes@ =~= procs_pre.update(pid as int, self.processes@[
                    pid as int]));
                assert forall|i: int|
                    0 <= i < self.processes@.len() && !queue_holds(
                        listeners,
                        li as int,
                        i,
                    ) implies (#[trigger] self.processes@[i]) == old(self).processes@[i] by {
                    assert(listeners[li - 1] == pid);
                    assert(i != pid as int);
                    assert(!queue_holds(listeners, li - 1, i));
                }
                if deliverable {
                    assert(pr0 == procs_pre[pid as int]);
                    assert(!queue_holds(listeners, li - 1, pid as int)) by {
                        if queue_holds(listeners, li - 1, pid as int) {
                            let j = choose|j: int|
                                0 <= j < li - 1 && (#[trigger] listeners[j]) == pid as int;
                            assert(listeners[j] != listeners[li - 1]);
                        }
                    }
                    assert(procs_pre[pid as int] == old(self).processes@[pid as int]);
                    assert(events@.map_values(
                        |e: crate::event::Event| crate::event::raw_of_event(e),
                    ).take(events@.len() as int) =~= raws);
                    assert forall|l2: int|
                        0 <= l2 < li implies self.processes@[(#[trigger] listeners[
                        l2]) as int].event_queue.view_spec() == old(self).processes@[listeners[
                        l2] as int].event_queue.view_spec() + raws by {
                        if l2 == li - 1 {
                            assert(pr0.event_queue.view_spec().len() + ne
                                <= pr0.event_queue.ring_buffer.capacity_spec());
                            assert(self.processes@[pid as int] == pr);
                            assert(pr.event_queue.view_spec() == pr0.event_queue.view_spec()
                                + events@.map_values(
                                |e: crate::event::Event| crate::event::raw_of_event(e),
                            ).take(ne as int));
                        } else {
                            assert(listeners[l2] != listeners[li - 1]);
                            assert(self.processes@[listeners[l2] as int] == procs_pre[listeners[
                                l2] as int]);
                        }
                    }
                }
            }
        }
        self.namespace.devices.insert(dev_idx, dev);
        proof {
            assert(self.namespace.devices@ =~= old(self).namespace.devices@.update(
                dev_idx as int,
                self.namespace.devices@[dev_idx as int],
            ));
        }
    }
}

} // verus!
