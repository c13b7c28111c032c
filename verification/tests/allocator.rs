use mmap_allocator::allocator::{
    mapping_length, unmap_outcome, AllocError, MmapAllocator, Region, INVALID_ARGUMENT, PAGE_SIZE,
};

#[test]
fn page_size_is_4096() {
    assert_eq!(PAGE_SIZE, 4096);
}

#[test]
fn mapping_length_rounds_up_to_whole_pages() {
    assert_eq!(mapping_length(1), Some(4096));
    assert_eq!(mapping_length(100), Some(4096));
    assert_eq!(mapping_length(4095), Some(4096));
    assert_eq!(mapping_length(4096), Some(4096));
    assert_eq!(mapping_length(4097), Some(8192));
    assert_eq!(mapping_length(8192), Some(8192));
    assert_eq!(mapping_length(8193), Some(12288));
    assert_eq!(mapping_length(1_000_000), Some(1_003_520));
}

#[test]
fn mapping_length_of_zero_is_one_page() {
    assert_eq!(mapping_length(0), Some(4096));
}

#[test]
fn mapping_length_is_least_multiple_for_many_sizes() {
    let mut size: usize = 1;
    while size < 200_000 {
        let length = mapping_length(size).unwrap();
        assert_eq!(length % 4096, 0);
        assert!(length >= size);
        assert!(length - size < 4096);
        size += 37;
    }
}

#[test]
fn mapping_length_at_the_top_of_the_range() {
    let top = usize::MAX - 4095;
    assert_eq!(mapping_length(top), Some(top));
    assert_eq!(mapping_length(top - 1), Some(top));
    assert_eq!(mapping_length(top + 1), None);
    assert_eq!(mapping_length(usize::MAX), None);
}

#[test]
fn new_allocator_is_empty() {
    let allocator = MmapAllocator::new();
    assert_eq!(allocator.len(), 0);
    assert_eq!(allocator.list_allocations(), Vec::new());
    assert_eq!(allocator.region_at(0), None);
}

#[test]
fn allocate_records_the_rounded_size() {
    let mut allocator = MmapAllocator::new();
    let region = allocator.allocate(100, Ok(0x7000_0000)).unwrap();
    assert_eq!(region, Region { base_address: 0x7000_0000, size: 4096 });
    assert_eq!(allocator.len(), 1);
    assert_eq!(allocator.region_at(0), Some(region));
    assert_eq!(allocator.region_at(1), None);
}

#[test]
fn allocate_zero_gives_one_page_and_one_entry() {
    let mut allocator = MmapAllocator::new();
    let region = allocator.allocate(0, Ok(0x1000)).unwrap();
    assert_eq!(region.size, 4096);
    assert_eq!(allocator.list_allocations(), vec![(0, 0x1000, 4096)]);
}

#[test]
fn allocate_reports_the_refusal_and_keeps_the_table() {
    let mut allocator = MmapAllocator::new();
    allocator.allocate(10, Ok(0x1000)).unwrap();
    let refused = allocator.allocate(5000, Err(12));
    assert_eq!(refused, Err(AllocError::MappingFailed { code: 12 }));
    assert_eq!(allocator.list_allocations(), vec![(0, 0x1000, 4096)]);
}

#[test]
fn allocate_turns_down_a_size_that_cannot_be_rounded() {
    let mut allocator = MmapAllocator::new();
    let refused = allocator.allocate(usize::MAX, Ok(0x1000));
    assert_eq!(refused, Err(AllocError::MappingFailed { code: INVALID_ARGUMENT }));
    assert_eq!(INVALID_ARGUMENT, 22);
    assert_eq!(allocator.len(), 0);
}

#[test]
fn listing_shows_allocations_in_order() {
    let mut allocator = MmapAllocator::new();
    let mut expected = Vec::new();
    let mut index: usize = 0;
    while index < 25 {
        let address = 0x10_0000 + index * 0x4_0000;
        let size = index * 1000 + 1;
        let region = allocator.allocate(size, Ok(address)).unwrap();
        assert_eq!(region.base_address, address);
        expected.push((index, address, mapping_length(size).unwrap()));
        index += 1;
    }
    assert_eq!(allocator.len(), 25);
    assert_eq!(allocator.list_allocations(), expected);
    assert_eq!(allocator.list_allocations(), expected);
}

#[test]
fn deallocate_removes_exactly_one_entry() {
    let mut allocator = MmapAllocator::new();
    allocator.allocate(1, Ok(0x1000)).unwrap();
    allocator.allocate(5000, Ok(0x9000)).unwrap();
    allocator.allocate(1, Ok(0x5000)).unwrap();
    let released = allocator.deallocate(0x9000);
    assert_eq!(released, Ok(Region { base_address: 0x9000, size: 8192 }));
    assert_eq!(allocator.list_allocations(), vec![(0, 0x1000, 4096), (1, 0x5000, 4096)]);
}

#[test]
fn deallocate_twice_finds_nothing_the_second_time() {
    let mut allocator = MmapAllocator::new();
    allocator.allocate(1, Ok(0x1000)).unwrap();
    allocator.allocate(1, Ok(0x2000)).unwrap();
    assert!(allocator.deallocate(0x1000).is_ok());
    assert_eq!(allocator.deallocate(0x1000), Err(AllocError::NotFound));
    assert_eq!(allocator.list_allocations(), vec![(0, 0x2000, 4096)]);
}

#[test]
fn deallocate_of_an_unknown_handle_changes_nothing() {
    let mut allocator = MmapAllocator::new();
    assert_eq!(allocator.deallocate(0x1000), Err(AllocError::NotFound));
    allocator.allocate(1, Ok(0x1000)).unwrap();
    assert_eq!(allocator.deallocate(0x1001), Err(AllocError::NotFound));
    assert_eq!(allocator.list_allocations(), vec![(0, 0x1000, 4096)]);
}

#[test]
fn deallocate_shifts_later_positions() {
    let mut allocator = MmapAllocator::new();
    allocator.allocate(1, Ok(0x1000)).unwrap();
    allocator.allocate(1, Ok(0x2000)).unwrap();
    allocator.allocate(1, Ok(0x3000)).unwrap();
    allocator.deallocate(0x1000).unwrap();
    assert_eq!(allocator.region_at(0).unwrap().base_address, 0x2000);
    assert_eq!(allocator.region_at(1).unwrap().base_address, 0x3000);
    assert_eq!(allocator.region_at(2), None);
}

#[test]
fn deallocate_takes_the_first_of_equal_bases() {
    let mut allocator = MmapAllocator::new();
    allocator.allocate(1, Ok(0x1000)).unwrap();
    allocator.allocate(5000, Ok(0x1000)).unwrap();
    assert_eq!(allocator.deallocate(0x1000), Ok(Region { base_address: 0x1000, size: 4096 }));
    assert_eq!(allocator.list_allocations(), vec![(0, 0x1000, 8192)]);
}

#[test]
fn unmap_outcome_passes_success_on() {
    assert_eq!(unmap_outcome(Ok(())), Ok(()));
}

#[test]
fn unmap_outcome_reports_the_refusal() {
    assert_eq!(unmap_outcome(Err(22)), Err(AllocError::UnmapFailed { code: 22 }));
    assert_eq!(unmap_outcome(Err(12)), Err(AllocError::UnmapFailed { code: 12 }));
}

#[test]
fn teardown_hands_out_every_live_region() {
    let mut allocator = MmapAllocator::new();
    allocator.allocate(1, Ok(0x1000)).unwrap();
    allocator.allocate(9000, Ok(0x8000)).unwrap();
    allocator.deallocate(0x1000).unwrap();
    allocator.allocate(1, Ok(0x4000)).unwrap();
    let regions = allocator.teardown();
    assert_eq!(
        regions,
        vec![
            Region { base_address: 0x8000, size: 12288 },
            Region { base_address: 0x4000, size: 4096 },
        ]
    );
    assert_eq!(allocator.len(), 0);
    assert_eq!(allocator.teardown(), Vec::new());
}

#[test]
fn position_finds_the_first_region_at_a_base() {
    let mut allocator = MmapAllocator::new();
    assert_eq!(allocator.position(0x1000), None);
    allocator.allocate(1, Ok(0x1000)).unwrap();
    allocator.allocate(1, Ok(0x2000)).unwrap();
    allocator.allocate(1, Ok(0x2000)).unwrap();
    assert_eq!(allocator.position(0x1000), Some(0));
    assert_eq!(allocator.position(0x2000), Some(1));
    assert_eq!(allocator.position(0x3000), None);
    assert_eq!(allocator.position(0), None);
}
