use manticore::errno::EINVAL;
use manticore::memory::MemoryPool;
use manticore::vm::{VMAddressSpace, VMProt, VM_ALLOC_BASE};
use manticore::{PAGE_SIZE_LARGE, PAGE_SIZE_SMALL};

fn pool_with_memory() -> MemoryPool {
    let mut pool = MemoryPool::new();
    pool.add_span(0x100000, 0x800000);
    pool
}

#[test]
fn allocate_fixed_rejects_overlap() {
    // allocate_fixed(0x10000, 0x11000, RW) then allocate_fixed(0x10800,
    // 0x11800, RW) must fail with EINVAL.
    let mut vm = VMAddressSpace::new(1);
    assert!(vm.allocate_fixed(0x10000, 0x11000, VMProt::prot_rw()).is_ok());
    let r = vm.allocate_fixed(0x10800, 0x11800, VMProt::prot_rw());
    assert_eq!(r.unwrap_err().errno(), EINVAL);
}

#[test]
fn allocate_fixed_rejects_misaligned_and_empty() {
    let mut vm = VMAddressSpace::new(1);
    assert_eq!(
        vm.allocate_fixed(0x10000, 0x10800, VMProt::prot_rw()).unwrap_err().errno(),
        EINVAL
    );
    assert_eq!(
        vm.allocate_fixed(0x11000, 0x10000, VMProt::prot_rw()).unwrap_err().errno(),
        EINVAL
    );
}

#[test]
fn populate_backs_region_with_zeroed_page() {
    let mut pool = pool_with_memory();
    let mut vm = VMAddressSpace::new(1);
    let start = 0x10000;
    let end = start + PAGE_SIZE_SMALL as usize;
    vm.allocate_fixed(start, end, VMProt::prot_rw()).unwrap();
    vm.populate(start, end, &mut pool).unwrap();
    assert_eq!(vm.read_byte(start), Some(0));
    assert_eq!(vm.read_byte(end - 1), Some(0));
    assert_eq!(vm.read_byte(end), None);
}

#[test]
fn populate_requires_exact_region() {
    let mut pool = pool_with_memory();
    let mut vm = VMAddressSpace::new(1);
    let start = 0x10000;
    let end = start + 2 * PAGE_SIZE_SMALL as usize;
    vm.allocate_fixed(start, end, VMProt::prot_rw()).unwrap();
    // Two small pages is neither one small nor one large page.
    assert_eq!(vm.populate(start, end, &mut pool).unwrap_err().errno(), EINVAL);
    // A region that was never allocated is invalid.
    assert_eq!(
        vm.populate(0x40000, 0x40000 + PAGE_SIZE_SMALL as usize, &mut pool)
            .unwrap_err()
            .errno(),
        EINVAL
    );
}

#[test]
fn populate_fails_without_memory() {
    let mut pool = MemoryPool::new();
    let mut vm = VMAddressSpace::new(1);
    let start = 0x10000;
    let end = start + PAGE_SIZE_SMALL as usize;
    vm.allocate_fixed(start, end, VMProt::prot_rw()).unwrap();
    let e = vm.populate(start, end, &mut pool).unwrap_err();
    assert_eq!(e.errno(), manticore::errno::ENOMEM);
}

#[test]
fn populate_from_reads_source_then_zeroes() {
    // After populate_from, a read at the region start sees the source bytes
    // followed by zeroes.
    let mut pool = pool_with_memory();
    let mut vm = VMAddressSpace::new(1);
    let start = 0x10000;
    let end = start + PAGE_SIZE_SMALL as usize;
    vm.allocate_fixed(start, end, VMProt::prot_rw()).unwrap();
    let src = vec![0xaa, 0xbb, 0xcc];
    vm.populate_from(start, end, &src, &mut pool).unwrap();
    assert_eq!(vm.read_byte(start), Some(0xaa));
    assert_eq!(vm.read_byte(start + 1), Some(0xbb));
    assert_eq!(vm.read_byte(start + 2), Some(0xcc));
    assert_eq!(vm.read_byte(start + 3), Some(0));
    assert_eq!(vm.read_byte(end - 1), Some(0));
}

#[test]
fn populate_from_rejects_oversized_source() {
    let mut pool = pool_with_memory();
    let mut vm = VMAddressSpace::new(1);
    let start = 0x10000;
    let end = start + PAGE_SIZE_SMALL as usize;
    vm.allocate_fixed(start, end, VMProt::prot_rw()).unwrap();
    let src = vec![0u8; PAGE_SIZE_SMALL as usize + 1];
    assert_eq!(vm.populate_from(start, end, &src, &mut pool).unwrap_err().errno(), EINVAL);
}

#[test]
fn deallocate_returns_backing_page() {
    // After deallocate, the region is gone and its page is back in the pool.
    let mut pool = pool_with_memory();
    let mut vm = VMAddressSpace::new(1);
    let start = 0x10000;
    let end = start + PAGE_SIZE_SMALL as usize;
    vm.allocate_fixed(start, end, VMProt::prot_rw()).unwrap();
    vm.populate(start, end, &mut pool).unwrap();
    let total_before: u64 = pool_total(&pool);
    vm.deallocate(start, end, &mut pool).unwrap();
    assert_eq!(vm.num_regions(), 0);
    assert_eq!(vm.read_byte(start), None);
    assert_eq!(pool_total(&pool), total_before + PAGE_SIZE_SMALL);
    // The region is unreachable now.
    assert_eq!(vm.deallocate(start, end, &mut pool).unwrap_err().errno(), EINVAL);
}

#[test]
fn deallocate_needs_exact_bounds() {
    let mut pool = pool_with_memory();
    let mut vm = VMAddressSpace::new(1);
    vm.allocate_fixed(0x10000, 0x12000, VMProt::prot_rw()).unwrap();
    assert_eq!(vm.deallocate(0x10000, 0x11000, &mut pool).unwrap_err().errno(), EINVAL);
    assert!(vm.deallocate(0x10000, 0x12000, &mut pool).is_ok());
}

#[test]
fn regions_never_overlap() {
    let mut vm = VMAddressSpace::new(1);
    vm.allocate_fixed(0x10000, 0x11000, VMProt::prot_rw()).unwrap();
    vm.allocate_fixed(0x12000, 0x13000, VMProt::prot_read()).unwrap();
    vm.allocate_fixed(0x11000, 0x12000, VMProt::prot_rx()).unwrap();
    for i in 0..vm.num_regions() {
        if i + 1 < vm.num_regions() {
            assert!(vm.region_at(i).end <= vm.region_at(i + 1).start);
        }
    }
}

#[test]
fn gap_allocator_avoids_regions() {
    let mut vm = VMAddressSpace::new(1);
    let (s1, e1) = vm.allocate(PAGE_SIZE_SMALL as usize, VMProt::prot_rw()).unwrap();
    assert_eq!(s1, VM_ALLOC_BASE);
    assert_eq!(e1, s1 + PAGE_SIZE_SMALL as usize);
    let (s2, _e2) = vm.allocate(PAGE_SIZE_SMALL as usize, VMProt::prot_rw()).unwrap();
    assert!(s2 >= e1);
    // A fixed region in the way pushes the next gap further.
    vm.allocate_fixed(
        s2 + PAGE_SIZE_SMALL as usize,
        s2 + 3 * PAGE_SIZE_SMALL as usize,
        VMProt::prot_rw(),
    )
    .unwrap();
    let (s3, _) = vm.allocate(PAGE_SIZE_LARGE as usize, VMProt::prot_rw()).unwrap();
    assert!(s3 >= s2 + 3 * PAGE_SIZE_SMALL as usize);
}

#[test]
fn map_installs_translation_for_foreign_page() {
    let mut vm = VMAddressSpace::new(7);
    let start = 0x10000;
    let end = start + PAGE_SIZE_SMALL as usize;
    vm.allocate_fixed(start, end, VMProt::prot_read()).unwrap();
    vm.map(start, end, 0x555000).unwrap();
    let maps = &vm.mmu_map.mappings;
    assert_eq!(maps.len(), 1);
    assert_eq!(maps[0].vaddr, start);
    assert_eq!(maps[0].paddr, 0x555000);
    assert_eq!(maps[0].prot, manticore::vm::MMU_PROT_READ);
    let mut loaded = 0u64;
    vm.switch_to(&mut loaded);
    assert_eq!(loaded, 7);
}

fn pool_total(pool: &MemoryPool) -> u64 {
    let mut sum = 0;
    for i in 0..pool.small.num_segments() {
        sum += pool.small.segment_at(i).size;
    }
    for i in 0..pool.large.num_segments() {
        sum += pool.large.segment_at(i).size;
    }
    sum
}
