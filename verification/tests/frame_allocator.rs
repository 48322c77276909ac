use uefi_dxe::frame_allocator::{
    align_check, align_up, DynamicFrameAllocator, DynamicFrameAllocatorError, FrameRegion, FRAME_SHIFT, FRAME_SIZE,
    MAX_FIXED_REGIONS,
};

#[test]
fn construct_empty_frame_region() {
    let fr = FrameRegion::empty();
    assert_eq!(fr.start_frame_address, 0);
    assert_eq!(fr.count, 0);
    assert_eq!(fr.next, 0);
}

#[test]
fn construct_frame_region_from_base_and_count() {
    let fr = FrameRegion::new_from_base_and_count(0x1000, 2).unwrap();
    assert_eq!(fr.start_frame_address, 0x1000);
    assert_eq!(fr.count, 2);
    assert_eq!(fr.next, 0);

    let fr = FrameRegion::new_from_base_and_count(0x1234, 0x1000);
    assert_eq!(fr, Err(DynamicFrameAllocatorError::InvalidAlignment));

    let fr = FrameRegion::new_from_base_and_count(0x1000, u64::MAX);
    assert_eq!(fr, Err(DynamicFrameAllocatorError::OutOfRange));

    let fr = FrameRegion::new_from_base_and_count(0x1000, u64::MAX >> FRAME_SHIFT);
    assert_eq!(fr, Err(DynamicFrameAllocatorError::OutOfRange));
}

#[test]
fn construct_frame_region_from_base_and_size() {
    let fr = FrameRegion::new_from_base_and_size(0x1000, 0x2000).unwrap();
    assert_eq!(fr.start_frame_address, 0x1000);
    assert_eq!(fr.count, 2);
    assert_eq!(fr.next, 0);

    let fr = FrameRegion::new_from_base_and_size(0x1000, 0x1234);
    assert_eq!(fr, Err(DynamicFrameAllocatorError::InvalidAlignment));

    let fr = FrameRegion::new_from_base_and_size(0x1234, 0x1000);
    assert_eq!(fr, Err(DynamicFrameAllocatorError::InvalidAlignment));

    let fr = FrameRegion::new_from_base_and_size(u64::MAX - 0xFFF, 0x2000);
    assert_eq!(fr, Err(DynamicFrameAllocatorError::OutOfRange));
}

#[test]
fn allocate_frames_by_count() {
    let mut fr = FrameRegion::new_from_base_and_count(0x1000, 10).unwrap();
    let range = fr.allocate_frames(2).unwrap();
    assert_eq!(range, 0x1000);
    assert_eq!(fr.next, 2);

    let mut fr = FrameRegion::new_from_base_and_count(0x1000, 10).unwrap();
    let range = fr.allocate_frames(20);
    assert_eq!(range, Err(DynamicFrameAllocatorError::OutOfFrames));
}

#[test]
fn free_frames() {
    let mut fr = FrameRegion::new_from_base_and_count(0x1000, 10).unwrap();
    fr.allocate_frames(2).unwrap();

    let free_frames = fr.free_frames();
    assert_eq!(free_frames, 8);
}

#[test]
fn construct_empty_dynamic_frame_allocator() {
    let fa = DynamicFrameAllocator::empty();
    assert_eq!(fa.fixed_regions, [FrameRegion::empty(); MAX_FIXED_REGIONS]);
    assert_eq!(fa.dyn_regions, None);
    assert_eq!(fa.region_count, 0);
}

#[test]
fn add_region_to_dynamic_frame_allocator() {
    let mut fa = DynamicFrameAllocator::empty();
    for i in 1..=MAX_FIXED_REGIONS {
        let test_val = i as u64;
        fa.add_physical_region(test_val * FRAME_SIZE, test_val * FRAME_SIZE).unwrap();
        for region_idx in 0..i {
            let test_val = (region_idx as u64) + 1;
            assert_eq!(
                fa.fixed_regions[region_idx],
                FrameRegion { start_frame_address: test_val * FRAME_SIZE, count: test_val, next: 0 }
            );
        }
        for region in &fa.fixed_regions[i..] {
            assert_eq!(region, &FrameRegion::empty());
        }
        assert_eq!(fa.dyn_regions, None);
        assert_eq!(fa.region_count, i);
    }

    let region_count = fa.region_count;
    fa.add_physical_region(5 * FRAME_SIZE, 5 * FRAME_SIZE).unwrap();
    assert_eq!(fa.region_count, region_count + 1);
    let dyn_regions = fa.dyn_regions.unwrap();
    let region = dyn_regions.get(0).unwrap();
    assert_eq!(region, &FrameRegion { start_frame_address: 5 * FRAME_SIZE, count: 5, next: 0 });
}

#[test]
fn dynamic_allocate_frames_by_count() {
    let mut fa = DynamicFrameAllocator::empty();
    for i in 1..=10 {
        let test_val = i as u64;
        fa.add_physical_region(test_val * FRAME_SIZE, test_val * FRAME_SIZE).unwrap();
    }

    let addr = fa.allocate_frames_from_count(3).unwrap();
    assert_eq!(fa.fixed_regions[2].start_frame_address, addr);
    assert_eq!(fa.fixed_regions[2].next, 3);
    assert_eq!(fa.fixed_regions[2].free_frames(), 0);

    let addr = fa.allocate_frames_from_count(3).unwrap();
    assert_eq!(fa.fixed_regions[3].start_frame_address, addr);
    assert_eq!(fa.fixed_regions[3].next, 3);
    assert_eq!(fa.fixed_regions[3].free_frames(), 1);

    let addr = fa.allocate_frames_from_count(1).unwrap();
    assert_eq!(fa.fixed_regions[0].start_frame_address, addr);
    assert_eq!(fa.fixed_regions[0].next, 1);
    assert_eq!(fa.fixed_regions[0].free_frames(), 0);

    let addr = fa.allocate_frames_from_count(2).unwrap();
    assert_eq!(fa.fixed_regions[1].start_frame_address, addr);
    assert_eq!(fa.fixed_regions[1].next, 2);
    assert_eq!(fa.fixed_regions[1].free_frames(), 0);

    let addr = fa.allocate_frames_from_count(1).unwrap();
    assert_eq!(fa.fixed_regions[3].start_frame_address + 3 * FRAME_SIZE, addr);
    assert_eq!(fa.fixed_regions[3].next, 4);
    assert_eq!(fa.fixed_regions[3].free_frames(), 0);

    let addr = fa.allocate_frames_from_count(7).unwrap();
    let dyn_regions = fa.dyn_regions.unwrap();
    assert_eq!(dyn_regions[7 - MAX_FIXED_REGIONS - 1].start_frame_address, addr);
    assert_eq!(dyn_regions[7 - MAX_FIXED_REGIONS - 1].next, 7);
    assert_eq!(dyn_regions[7 - MAX_FIXED_REGIONS - 1].free_frames(), 0);
}

#[test]
fn dynamic_allocate_frames_by_size() {
    let mut fa = DynamicFrameAllocator::empty();
    for i in 1..=10 {
        let test_val = i as u64;
        fa.add_physical_region(test_val * FRAME_SIZE, test_val * FRAME_SIZE).unwrap();
    }
    let (addr, size) = fa.allocate_frames_from_size(0x2123).unwrap();
    assert_eq!(size, 0x3000);
    assert_eq!(fa.fixed_regions[2].start_frame_address, addr);
    assert_eq!(fa.fixed_regions[2].next, size >> FRAME_SHIFT);
    assert_eq!(fa.fixed_regions[2].free_frames(), 0);

    let (addr, size) = fa.allocate_frames_from_size(0x3000).unwrap();
    assert_eq!(fa.fixed_regions[3].start_frame_address, addr);
    assert_eq!(size, 0x3000);
    assert_eq!(fa.fixed_regions[3].next, 3);
    assert_eq!(fa.fixed_regions[3].free_frames(), 1);

    let (addr, size) = fa.allocate_frames_from_size(0x1000).unwrap();
    assert_eq!(fa.fixed_regions[0].start_frame_address, addr);
    assert_eq!(size, 0x1000);
    assert_eq!(fa.fixed_regions[0].next, 1);
    assert_eq!(fa.fixed_regions[0].free_frames(), 0);

    let (addr, size) = fa.allocate_frames_from_size(0x2000).unwrap();
    assert_eq!(fa.fixed_regions[1].start_frame_address, addr);
    assert_eq!(size, 0x2000);
    assert_eq!(fa.fixed_regions[1].next, 2);
    assert_eq!(fa.fixed_regions[1].free_frames(), 0);

    let (addr, size) = fa.allocate_frames_from_size(0x1000).unwrap();
    assert_eq!(fa.fixed_regions[3].start_frame_address + 3 * FRAME_SIZE, addr);
    assert_eq!(size, 0x1000);
    assert_eq!(fa.fixed_regions[3].next, 4);
    assert_eq!(fa.fixed_regions[3].free_frames(), 0);

    let (addr, size) = fa.allocate_frames_from_size(0x7000).unwrap();
    let dyn_regions = fa.dyn_regions.unwrap();
    assert_eq!(dyn_regions[7 - MAX_FIXED_REGIONS - 1].start_frame_address, addr);
    assert_eq!(size, 0x7000);
    assert_eq!(dyn_regions[7 - MAX_FIXED_REGIONS - 1].next, 7);
    assert_eq!(dyn_regions[7 - MAX_FIXED_REGIONS - 1].free_frames(), 0);
}

#[test]
fn align_helpers_round_and_check() {
    assert_eq!(align_check(0x2000), Ok(()));
    assert_eq!(align_check(0x2001), Err(DynamicFrameAllocatorError::InvalidAlignment));
    assert_eq!(align_up(0x2001), Ok(0x3000));
    assert_eq!(align_up(0x3000), Ok(0x3000));
    assert_eq!(align_up(0), Ok(0));
    assert_eq!(align_up(u64::MAX - 0x10), Err(DynamicFrameAllocatorError::OutOfRange));
}

#[test]
fn allocations_from_one_region_do_not_overlap() {
    let mut fr = FrameRegion::new_from_base_and_count(0x10000, 8).unwrap();
    let a = fr.allocate_frames(3).unwrap();
    let b = fr.allocate_frames(2).unwrap();
    assert_eq!(a, 0x10000);
    assert_eq!(b, 0x13000);
    assert!(a + 3 * FRAME_SIZE <= b);
    assert_eq!(fr.free_frames(), 3);
}

#[test]
fn dynamic_allocator_reports_out_of_frames() {
    let mut fa = DynamicFrameAllocator::empty();
    assert_eq!(fa.allocate_frames_from_count(1), Err(DynamicFrameAllocatorError::OutOfFrames));
    fa.add_physical_region(0x1000, 0x2000).unwrap();
    assert_eq!(fa.allocate_frames_from_count(3), Err(DynamicFrameAllocatorError::OutOfFrames));
    assert_eq!(fa.add_physical_region(0x1001, 0x1000), Err(DynamicFrameAllocatorError::InvalidAlignment));
}

#[test]
fn construct_spin_locked_dynamic_allocator() {
    let mut fa = DynamicFrameAllocator::empty();
    for i in 1..=10 {
        let test_val = i as u64;
        fa.add_physical_region(test_val * FRAME_SIZE, test_val * FRAME_SIZE).unwrap();
    }
    // Allocate 3 frames: they come from the third fixed region added above.
    let addr = fa.allocate_frames_from_count(3).unwrap();
    assert_eq!(fa.fixed_regions[2].start_frame_address, addr);
    assert_eq!(fa.fixed_regions[2].next, 3);
    assert_eq!(fa.fixed_regions[2].free_frames(), 0);
}

#[test]
fn successive_allocations_never_overlap() {
    let mut region = FrameRegion::new_from_base_and_count(0x10_0000, 10).unwrap();
    let mut ranges: Vec<(u64, u64)> = Vec::new();
    for count in [3u64, 1, 4, 2] {
        let start = region.allocate_frames(count).unwrap();
        ranges.push((start, start + count * FRAME_SIZE));
    }
    for j in 0..ranges.len() {
        assert!(ranges[j].0 >= 0x10_0000 && ranges[j].1 <= 0x10_0000 + 10 * FRAME_SIZE);
        for k in j + 1..ranges.len() {
            assert!(ranges[j].1 <= ranges[k].0);
        }
    }
    assert!(region.allocate_frames(1).is_err());
}

#[test]
fn a_range_ending_at_two_to_the_sixty_four_is_out_of_range() {
    assert_eq!(FrameRegion::new_from_base_and_count(0, 1u64 << 52), Err(DynamicFrameAllocatorError::OutOfRange));
    assert_eq!(FrameRegion::new_from_base_and_count(0x1000, (1u64 << 52) - 1), Err(DynamicFrameAllocatorError::OutOfRange));
    let fr = FrameRegion::new_from_base_and_count(0, (1u64 << 52) - 1).unwrap();
    assert_eq!(fr.count, (1u64 << 52) - 1);
    assert_eq!(fr.free_frames(), (1u64 << 52) - 1);
}
