use manticore::memory::{MemoryArena, MemoryPool, MemorySegment};
use manticore::{align_down, align_up, is_aligned, PAGE_SIZE_LARGE, PAGE_SIZE_SMALL};

#[test]
fn align_helpers() {
    assert!(is_aligned(0x2000, 0x1000));
    assert!(!is_aligned(0x2001, 0x1000));
    assert_eq!(align_down(0x2fff, 0x1000), 0x2000);
    assert_eq!(align_down(0x2000, 0x1000), 0x2000);
    assert_eq!(align_up(0x2001, 0x1000), 0x3000);
    assert_eq!(align_up(0x2000, 0x1000), 0x2000);
}

#[test]
fn arena_alloc_splits_head() {
    let mut arena = MemoryArena::new();
    arena.free(0x1000, 3 * PAGE_SIZE_SMALL);
    let p = arena.allocate(PAGE_SIZE_SMALL);
    assert_eq!(p, Some(0x1000));
    assert_eq!(arena.num_segments(), 1);
    let seg = arena.segment_at(0);
    assert_eq!(seg.base, 0x1000 + PAGE_SIZE_SMALL);
    assert_eq!(seg.size, 2 * PAGE_SIZE_SMALL);
}

#[test]
fn arena_alloc_exhausts() {
    let mut arena = MemoryArena::new();
    assert_eq!(arena.allocate(PAGE_SIZE_SMALL), None);
    arena.free(0x1000, PAGE_SIZE_SMALL);
    assert_eq!(arena.allocate(PAGE_SIZE_SMALL), Some(0x1000));
    assert_eq!(arena.num_segments(), 0);
    assert_eq!(arena.allocate(PAGE_SIZE_SMALL), None);
}

#[test]
fn arena_free_coalesces_both_sides() {
    let mut arena = MemoryArena::new();
    arena.free(0x1000, 0x1000);
    arena.free(0x3000, 0x1000);
    assert_eq!(arena.num_segments(), 2);
    // Freeing the hole in the middle must leave a single segment: the free
    // list never holds two adjacent segments.
    arena.free(0x2000, 0x1000);
    assert_eq!(arena.num_segments(), 1);
    let seg = arena.segment_at(0);
    assert_eq!(seg, MemorySegment { base: 0x1000, size: 0x3000 });
}

#[test]
fn arena_head_too_small_fails() {
    let mut arena = MemoryArena::new();
    arena.free(0x1000, 0x800);
    // The allocator serves from the head segment only.
    assert_eq!(arena.allocate(0x1000), None);
}

#[test]
fn add_span_splits_small_and_large() {
    let mut pool = MemoryPool::new();
    pool.add_span(0x100000, 0x400000);
    // The large-aligned middle goes to the large arena, the tails to the
    // small arena.
    assert_eq!(pool.small.num_segments(), 2);
    assert_eq!(pool.small.segment_at(0), MemorySegment { base: 0x100000, size: 0x100000 });
    assert_eq!(pool.small.segment_at(1), MemorySegment { base: 0x400000, size: 0x100000 });
    assert_eq!(pool.large.num_segments(), 1);
    assert_eq!(pool.large.segment_at(0), MemorySegment { base: 0x200000, size: 0x200000 });
}

#[test]
fn boot_arena_large_page_round_trip() {
    // Register one span, take one large page, give it back: the large arena
    // must coalesce back to its aligned middle and the small tails stay.
    let mut pool = MemoryPool::new();
    pool.add_span(0x100000, 0x400000);
    let p = pool.page_alloc_large();
    assert_eq!(p, Some(0x200000));
    pool.page_free_large(0x200000);
    assert_eq!(pool.large.num_segments(), 1);
    assert_eq!(pool.large.segment_at(0), MemorySegment { base: 0x200000, size: 0x200000 });
    assert_eq!(pool.small.num_segments(), 2);
    assert_eq!(pool.small.segment_at(0), MemorySegment { base: 0x100000, size: 0x100000 });
    assert_eq!(pool.small.segment_at(1), MemorySegment { base: 0x400000, size: 0x100000 });
}

#[test]
fn span_round_trip_is_lossless() {
    // The sum of free bytes equals the registered span minus what is still
    // allocated out.
    let mut pool = MemoryPool::new();
    pool.add_span(0x100000, 0x400000);
    let total = |pool: &MemoryPool| -> u64 {
        let mut sum = 0;
        for i in 0..pool.small.num_segments() {
            sum += pool.small.segment_at(i).size;
        }
        for i in 0..pool.large.num_segments() {
            sum += pool.large.segment_at(i).size;
        }
        sum
    };
    assert_eq!(total(&pool), 0x400000);
    let a = pool.page_alloc_small().unwrap();
    let b = pool.page_alloc_large().unwrap();
    assert_eq!(total(&pool), 0x400000 - PAGE_SIZE_SMALL - PAGE_SIZE_LARGE);
    pool.page_free_small(a);
    assert_eq!(total(&pool), 0x400000 - PAGE_SIZE_LARGE);
    pool.page_free_large(b);
    assert_eq!(total(&pool), 0x400000);
}

#[test]
fn no_adjacent_segments_after_mixed_ops() {
    let mut pool = MemoryPool::new();
    pool.add_span(0x100000, 0x400000);
    let a = pool.page_alloc_small().unwrap();
    let b = pool.page_alloc_small().unwrap();
    pool.page_free_small(a);
    pool.page_free_small(b);
    for i in 0..pool.small.num_segments() {
        if i + 1 < pool.small.num_segments() {
            let s = pool.small.segment_at(i);
            let t = pool.small.segment_at(i + 1);
            assert!(s.base + s.size < t.base);
        }
    }
}
