use arena::{
    empty_block, Allocation, AllocatorError, Arena, BlockHeader, ByteCopy, Grown, Layout, Platform,
    Unmap,
};
use std::mem::{align_of, size_of};

const BASE: usize = 0x10_0000;

fn platform() -> Platform {
    Platform::new(4096).unwrap()
}

fn layout(size: usize, align: usize) -> Layout {
    Layout::from_size_align(size, align).unwrap()
}

fn header_size() -> usize {
    size_of::<BlockHeader>()
}

/// An arena with one block of the given size at `BASE` and nothing in it.
fn arena_with_block(size: usize) -> Arena {
    let mut arena = Arena::new();
    let fits = size - header_size();
    assert_eq!(arena.growth_size(&platform(), fits, 1), Some(size));
    let ptr = arena.try_allocate_slow(&platform(), fits, 1, BASE).unwrap();
    assert_eq!(arena.shrink(ptr, layout(fits, 1), layout(0, 1)), ptr);
    arena
}

#[test]
fn errors_have_their_texts() {
    assert_eq!(
        AllocatorError::OutOfMemory.to_string(),
        "not enough memory available for allocation"
    );
    assert_eq!(AllocatorError::ZeroSizedType.to_string(), "cannot allocate a zero-sized type");
    assert_eq!(AllocatorError::AllocationFailed.to_string(), "memory allocation failed");
    assert_eq!(
        AllocatorError::Overflow.to_string(),
        "arithmetic overflow while calculating allocation size"
    );
}

#[test]
fn layouts_need_a_power_of_two_and_a_size_in_range() {
    assert!(Layout::from_size_align(8, 0).is_err());
    assert!(Layout::from_size_align(8, 3).is_err());
    assert!(Layout::from_size_align(8, 24).is_err());
    let top = isize::MAX as usize;
    for align in [1, 2, 4096, 1 << 62] {
        assert!(Layout::from_size_align(top + 1 - align, align).is_ok());
        assert!(Layout::from_size_align(top + 2 - align, align).is_err());
        assert_eq!(
            Layout::from_size_align(top + 2 - align, align).is_err(),
            std::alloc::Layout::from_size_align(top + 2 - align, align).is_err()
        );
    }
    assert!(Layout::from_size_align(0, 1 << 63).is_ok());
    assert!(Layout::from_size_align(1, 1 << 63).is_err());
    let made = layout(12, 4);
    assert_eq!((made.size(), made.align()), (12, 4));
    let of = Layout::new::<[u32; 5]>();
    assert_eq!((of.size(), of.align()), (20, 4));
}

#[test]
fn platforms_need_a_power_of_two() {
    assert!(Platform::new(0).is_none());
    assert!(Platform::new(4095).is_none());
    assert_eq!(Platform::new(16384).unwrap().get_page_size(), 16384);
}

#[test]
fn a_failed_mapping_reads_as_null() {
    assert_eq!(Platform::mapped_address(libc::MAP_FAILED as usize), 0);
    assert_eq!(Platform::mapped_address(usize::MAX), 0);
    assert_eq!(Platform::mapped_address(usize::MAX - 1), usize::MAX - 1);
    assert_eq!(Platform::mapped_address(BASE), BASE);
}

#[test]
fn rounding_up_is_exact_and_checked() {
    assert_eq!(Arena::align_up(0, 16), Some(0));
    assert_eq!(Arena::align_up(1, 16), Some(16));
    assert_eq!(Arena::align_up(16, 16), Some(16));
    assert_eq!(Arena::align_up(17, 16), Some(32));
    assert_eq!(Arena::align_up(5, 1), Some(5));
    assert_eq!(Arena::align_up(usize::MAX, 1), Some(usize::MAX));
    assert_eq!(Arena::align_up(usize::MAX - 15, 16), Some(usize::MAX - 15));
    assert_eq!(Arena::align_up(usize::MAX - 14, 16), None);
    assert_eq!(Arena::align_up_unchecked(100, 64), 128);
}

#[test]
fn the_sentinel_has_no_mapping() {
    assert_ne!(empty_block().get(), 0);
    assert_eq!(empty_block().get_ptr(), 0);
    assert_eq!(empty_block().get_size(), 0);
    assert_eq!(Arena::default().current_block, empty_block().get());
    assert!(Arena::default().double_allowed);
}

#[test]
fn headers_take_three_words() {
    assert_eq!(size_of::<BlockHeader>(), 3 * size_of::<usize>());
    assert_eq!(align_of::<BlockHeader>(), align_of::<usize>());
    let header = BlockHeader::new(1, 2, 3);
    assert_eq!((header.prev(), header.ptr(), header.size()), (1, 2, 3));
}

#[test]
fn the_first_request_names_its_block() {
    let mut arena = Arena::new();
    assert_eq!(arena.try_allocate(&platform(), layout(16, 8)), Ok(Allocation::NeedsBlock(4096)));
    assert_eq!(
        arena.try_allocate(&platform(), layout(4096, 8)),
        Ok(Allocation::NeedsBlock(8192))
    );
    assert!(arena.chain.is_empty());

    let ptr = arena.try_allocate_slow(&platform(), 16, 8, BASE).unwrap();
    assert_eq!(ptr, BASE + header_size());
    assert_eq!(arena.cursor, ptr + 16);
    assert_eq!(arena.end, BASE + 4096);
    assert_eq!(arena.try_allocate(&platform(), layout(1, 64)), Ok(Allocation::Served(BASE + 64)));
}

#[test]
fn a_block_holds_exactly_what_was_asked_for() {
    let mut arena = Arena::new();
    let most = 4096 - header_size();
    assert_eq!(arena.growth_size(&platform(), most, 1), Some(4096));
    assert_eq!(arena.growth_size(&platform(), most + 1, 1), Some(8192));
    assert_eq!(arena.try_allocate_slow(&platform(), most, 1, BASE), Ok(BASE + header_size()));
    assert_eq!(arena.cursor, arena.end);
    assert_eq!(arena.try_allocate_fast(1, 1), None);
    assert_eq!(arena.try_allocate_fast(0, 1), Some(BASE + 4096));
}

#[test]
fn growth_doubles_unless_it_just_was_reset() {
    let mut arena = arena_with_block(4 * 4096);
    assert_eq!(arena.growth_size(&platform(), 1, 1), Some(8 * 4096));
    assert_eq!(arena.growth_size(&platform(), 8 * 4096, 8), Some(9 * 4096));

    assert_eq!(arena.reset(), vec![]);
    assert!(!arena.double_allowed);
    assert_eq!(arena.growth_size(&platform(), 1, 1), Some(4096));
    assert_eq!(arena.growth_size(&platform(), 4096, 8), Some(2 * 4096));

    let ptr = arena.try_allocate_slow(&platform(), 1, 1, 2 * BASE).unwrap();
    assert_eq!(ptr, 2 * BASE + header_size());
    assert!(arena.double_allowed);
    assert_eq!(arena.growth_size(&platform(), 1, 1), Some(2 * 4096));
}

#[test]
fn a_failed_mapping_is_out_of_memory() {
    let mut arena = arena_with_block(4096);
    arena.reset();
    let (block, cursor, end) = (arena.current_block, arena.cursor, arena.end);

    assert_eq!(
        arena.try_allocate_slow(&platform(), 5000, 8, 0),
        Err(AllocatorError::OutOfMemory)
    );
    assert_eq!((arena.current_block, arena.cursor, arena.end), (block, cursor, end));
    assert_eq!(arena.chain.len(), 1);
    assert!(arena.double_allowed);
    assert_eq!(
        arena.grow_slow(&platform(), BASE + 64, layout(8, 8), layout(5000, 8), 0),
        Err(AllocatorError::OutOfMemory)
    );
}

#[test]
fn overflow_is_an_error() {
    let huge = Platform::new(1 << 63).unwrap();
    let mut arena = Arena::new();
    let most = layout(isize::MAX as usize, 1);
    assert_eq!(arena.growth_size(&huge, isize::MAX as usize, 1), None);
    assert_eq!(arena.try_allocate(&huge, most), Err(AllocatorError::Overflow));
    assert_eq!(
        arena.try_allocate_slow(&huge, isize::MAX as usize, 1, BASE),
        Err(AllocatorError::Overflow)
    );
    assert_eq!(arena.growth_size(&platform(), usize::MAX, 1), None);
    assert_eq!(arena.growth_size(&platform(), usize::MAX - header_size(), 2), None);
    assert_eq!(arena.current_block, empty_block().get());

    let high = usize::MAX - 8191;
    assert_eq!(arena.try_allocate_slow(&platform(), 64, 8, high), Ok(high + header_size()));
    assert_eq!(arena.try_allocate(&platform(), most), Err(AllocatorError::Overflow));
    assert_eq!(arena.try_allocate(&platform(), layout(1, 1 << 62)), Err(AllocatorError::Overflow));
    assert_eq!(
        arena.grow_error(&platform(), high + header_size(), layout(64, 8), most),
        Some(AllocatorError::Overflow)
    );
}

#[test]
fn an_address_range_can_be_a_block_once() {
    let arena = arena_with_block(4096);
    assert!(!arena.accepts(0, 4096));
    assert!(!arena.accepts(2 * BASE, 0));
    assert!(!arena.accepts(2 * BASE + 1, 4096));
    assert!(!arena.accepts(usize::MAX - 4095, 4096));
    assert!(!arena.accepts(empty_block().get(), 1));
    assert!(!arena.accepts(BASE, 4096));
    assert!(!arena.accepts(BASE + 4088, 4096));
    assert!(!arena.accepts(BASE - 4088, 4096));
    assert!(arena.accepts(BASE + 4096, 4096));
    assert!(arena.accepts(BASE - 4096, 4096));
}

#[test]
fn reset_and_clear_list_the_blocks_newest_first() {
    let mut arena = arena_with_block(4096);
    arena.try_allocate_slow(&platform(), 8000, 8, 2 * BASE).unwrap();
    arena.try_allocate_slow(&platform(), 8, 8, 3 * BASE).unwrap();
    let sizes: Vec<usize> = arena.chain.iter().map(|h| h.mmap_size).collect();
    assert_eq!(sizes, vec![4096, 8192, 16384]);
    let prevs: Vec<usize> = arena.chain.iter().map(|h| h.prev).collect();
    assert_eq!(prevs, vec![empty_block().get(), BASE, 2 * BASE]);

    assert_eq!(
        arena.reset(),
        vec![Unmap { addr: 2 * BASE, size: 8192 }, Unmap { addr: BASE, size: 4096 }]
    );
    assert_eq!(arena.current_block, 3 * BASE);
    assert_eq!(arena.end, 3 * BASE + 16384);
    assert_eq!(arena.cursor, 3 * BASE + header_size());
    assert_eq!(arena.reset(), vec![]);

    arena.try_allocate_slow(&platform(), 8, 8, BASE).unwrap();
    assert_eq!(
        arena.clear(),
        vec![Unmap { addr: BASE, size: 4096 }, Unmap { addr: 3 * BASE, size: 16384 }]
    );
    assert_eq!(arena.clear(), vec![]);
}

#[test]
fn clear_returns_to_the_empty_state() {
    let mut arena = arena_with_block(8192);
    assert_eq!(arena.clear(), vec![Unmap { addr: BASE, size: 8192 }]);
    assert_eq!(arena.current_block, empty_block().get());
    assert_eq!((arena.cursor, arena.end), (0, 0));
    assert!(arena.chain.is_empty());

    assert_eq!(arena.try_allocate(&platform(), layout(16, 8)), Ok(Allocation::NeedsBlock(4096)));
    arena.try_allocate_slow(&platform(), 16, 8, BASE).unwrap();
    assert_eq!(arena.chain[0].prev, empty_block().get());
    assert_eq!(arena.drop(), vec![Unmap { addr: BASE, size: 4096 }]);
}

#[test]
fn growing_in_place_ends_at_the_cursor() {
    let mut arena = arena_with_block(4096);
    let start = BASE + header_size();
    assert_eq!(arena.allocate(&platform(), layout(5, 8)), Allocation::Served(start));
    assert_eq!(
        arena.grow(&platform(), start, layout(5, 8), layout(10, 8)),
        Grown::InPlace(start)
    );
    assert_eq!(arena.cursor, start + 10);
    assert!(arena.is_last_allocation(start, 10));
    assert_eq!(
        arena.grow(&platform(), start, layout(10, 8), layout(10, 8)),
        Grown::InPlace(start)
    );
    assert_eq!(arena.cursor, start + 10);
}

#[test]
fn growing_in_place_reaches_the_end_of_the_block() {
    let mut arena = arena_with_block(4096);
    assert_eq!(arena.allocate(&platform(), layout(8, 8)), Allocation::Served(BASE + 24));
    let ptr = BASE + 32;
    assert_eq!(arena.allocate(&platform(), layout(4058, 8)), Allocation::Served(ptr));
    assert_eq!(
        arena.grow(&platform(), ptr, layout(4058, 8), layout(4064, 8)),
        Grown::InPlace(ptr)
    );
    assert_eq!(arena.current_block, BASE);
    assert_eq!(arena.cursor, arena.end);
    assert_eq!(
        arena.grow(&platform(), ptr, layout(4064, 8), layout(4065, 8)),
        Grown::NeedsBlock(8192)
    );
}

#[test]
fn growing_back_undoes_shrinking_to_an_unaligned_end() {
    let mut arena = arena_with_block(4096);
    let start = BASE + header_size();
    assert_eq!(arena.allocate(&platform(), layout(64, 8)), Allocation::Served(start));
    arena.shrink(start, layout(64, 8), layout(5, 8));
    assert_eq!(arena.cursor, start + 5);
    assert_eq!(
        arena.grow(&platform(), start, layout(5, 8), layout(64, 8)),
        Grown::InPlace(start)
    );
    assert_eq!(arena.cursor, start + 64);
}

#[test]
fn growing_away_describes_the_copy() {
    let mut arena = arena_with_block(4096);
    let start = BASE + header_size();
    assert_eq!(arena.allocate(&platform(), layout(16, 8)), Allocation::Served(start));
    assert_eq!(arena.allocate(&platform(), layout(8, 8)), Allocation::Served(start + 16));
    assert_eq!(
        arena.grow(&platform(), start, layout(16, 8), layout(32, 8)),
        Grown::Moved(ByteCopy { src: start, dst: start + 24, len: 16 })
    );
    assert_eq!(arena.cursor, start + 56);

    assert_eq!(
        arena.grow(&platform(), start, layout(16, 8), layout(5000, 8)),
        Grown::NeedsBlock(8192)
    );
    assert_eq!(
        arena.grow_slow(&platform(), start, layout(16, 8), layout(5000, 8), 2 * BASE),
        Ok(ByteCopy { src: start, dst: 2 * BASE + header_size(), len: 16 })
    );
    assert_eq!(arena.current_block, 2 * BASE);
    assert_eq!(arena.cursor, 2 * BASE + header_size() + 5000);
}

#[test]
fn growing_with_a_weaker_alignment_stays_and_a_stronger_one_moves() {
    let mut arena = arena_with_block(4096);
    let ptr = BASE + 64;
    assert_eq!(arena.allocate(&platform(), layout(64, 64)), Allocation::Served(ptr));
    assert_eq!(
        arena.grow(&platform(), ptr, layout(64, 64), layout(128, 8)),
        Grown::InPlace(ptr)
    );
    assert_eq!(
        arena.grow(&platform(), ptr, layout(128, 8), layout(256, 64)),
        Grown::Moved(ByteCopy { src: ptr, dst: BASE + 192, len: 128 })
    );
}

#[test]
fn growing_back_undoes_shrinking() {
    let mut arena = arena_with_block(4096);
    let start = BASE + header_size();
    assert_eq!(arena.allocate(&platform(), layout(64, 8)), Allocation::Served(start));
    let cursor = arena.cursor;
    assert_eq!(arena.shrink(start, layout(64, 8), layout(24, 8)), start);
    assert_eq!(arena.cursor, start + 24);
    assert_eq!(
        arena.grow(&platform(), start, layout(24, 8), layout(64, 8)),
        Grown::InPlace(start)
    );
    assert_eq!(arena.cursor, cursor);
}

#[test]
fn an_allocation_shrunk_to_nothing_grows_back() {
    let mut arena = arena_with_block(4096);
    let start = BASE + header_size();
    assert_eq!(arena.allocate(&platform(), layout(64, 8)), Allocation::Served(start));
    assert_eq!(arena.allocate(&platform(), layout(32, 8)), Allocation::Served(start + 64));
    arena.shrink(start + 64, layout(32, 8), layout(0, 8));
    assert_eq!(arena.cursor, start + 64);
    assert_eq!(
        arena.grow(&platform(), start + 64, layout(0, 8), layout(40, 8)),
        Grown::InPlace(start + 64)
    );
    assert_eq!(arena.cursor, start + 104);
}

#[test]
fn a_request_for_no_bytes_rounds_the_cursor() {
    let mut arena = arena_with_block(4096);
    assert_eq!(arena.try_allocate_fast(0, 64), Some(BASE + 64));
    assert_eq!(arena.cursor, BASE + 64);
    assert_eq!(arena.allocate(&platform(), layout(1, 1)), Allocation::Served(BASE + 64));
    assert_eq!(Arena::bump_end(BASE + 65, 8, 64), Some(BASE + 136));
    assert_eq!(Arena::bump_end(usize::MAX - 8, 16, 1), None);
}

#[test]
fn doubling_comes_back_after_a_failed_mapping() {
    let mut arena = arena_with_block(4 * 4096);
    arena.reset();
    assert_eq!(arena.growth_size(&platform(), 1, 1), Some(4096));
    assert_eq!(arena.try_allocate_slow(&platform(), 1, 1, 0), Err(AllocatorError::OutOfMemory));
    assert_eq!(arena.growth_size(&platform(), 1, 1), Some(8 * 4096));
}

#[test]
fn shrinking_to_a_larger_size_changes_nothing() {
    let mut arena = arena_with_block(4096);
    let start = BASE + header_size();
    assert_eq!(arena.allocate(&platform(), layout(64, 8)), Allocation::Served(start));
    assert_eq!(arena.shrink(start, layout(64, 8), layout(65, 8)), start);
    assert_eq!(arena.cursor, start + 64);
}

#[test]
fn a_value_travels_with_its_place() {
    let mut arena = arena_with_block(4096);
    let placed = arena.alloc_val(&platform(), [7_u64; 4]);
    assert_eq!(placed.at, Allocation::Served(BASE + header_size()));
    assert_eq!(placed.value, [7; 4]);
    assert_eq!(arena.cursor, BASE + header_size() + 32);
    assert_eq!(
        arena.request_error(&platform(), Layout::new::<()>()),
        Some(AllocatorError::ZeroSizedType)
    );
}
