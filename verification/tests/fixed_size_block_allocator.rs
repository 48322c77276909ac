use uefi_dxe::fixed_size_block_allocator::{
    allocate_pages, block_size, expansion_size, free_pages, list_index, pool_layout, PageError, ALIGNMENT, MIN_EXPANSION,
};
use uefi_dxe::gcd::{AllocateType, GCD, MEMORY_BLOCK_SLICE_SIZE};
use uefi_dxe::memory_block::GcdMemoryType;

#[test]
fn test_list_index() {
    assert_eq!(list_index(8, 1), Some(0));
    assert_eq!(list_index(12, 8), Some(1));
    assert_eq!(list_index(8, 32), Some(2));
    assert_eq!(list_index(4096, 32), Some(9));
    assert_eq!(list_index(1, 4096), Some(9));
    assert_eq!(list_index(8192, 1), None);
}

#[test]
fn block_sizes_double_from_eight() {
    for i in 0..10 {
        assert_eq!(block_size(i), 8usize << i);
    }
}

#[test]
fn expansion_asks_for_whole_pages_and_at_least_the_minimum() {
    assert_eq!(expansion_size(0x10, 8, 64, 8), MIN_EXPANSION);
    assert_eq!(expansion_size(0x100000, 0x1000, 64, 8), 0x101000);
    assert_eq!(expansion_size(0x100001, 8, 64, 8), 0x101000);
    assert_eq!(expansion_size(0x100000 - 64, 8, 64, 8) % 0x1000, 0);
}

#[test]
fn pool_layout_puts_the_buffer_after_the_header() {
    assert_eq!(pool_layout(0x1000, 24, 8), (24 + 0x1000, 8, 24));
    assert_eq!(pool_layout(10, 20, 4), (24 + 10, 8, 24));
    assert_eq!(pool_layout(0, 32, 16), (32, 16, 32));
}

fn gcd_with_memory() -> GCD {
    let mut gcd = GCD::new(48);
    gcd.add_memory_space(GcdMemoryType::SystemMemory, 0x1000_0000, MEMORY_BLOCK_SLICE_SIZE, 0).unwrap();
    gcd.add_memory_space(GcdMemoryType::SystemMemory, 0x20_0000, 0x10_0000, 0).unwrap();
    gcd
}

#[test]
fn pages_are_allocated_and_freed_through_the_gcd() {
    let mut gcd = gcd_with_memory();
    let before = gcd.memory_blocks.clone();
    let address = allocate_pages(&mut gcd, 5, AllocateType::BottomUp(None), 4).unwrap();
    assert_eq!(address, 0x20_0000);
    assert_eq!(free_pages(&mut gcd, address, 4), Ok(()));
    assert_eq!(before, gcd.memory_blocks);
}

#[test]
fn page_requests_are_checked() {
    let mut gcd = gcd_with_memory();
    assert_eq!(allocate_pages(&mut gcd, 5, AllocateType::Address(0x20_0001), 1), Err(PageError::InvalidParameter));
    assert_eq!(allocate_pages(&mut gcd, 5, AllocateType::BottomUp(None), 0x1000), Err(PageError::NotFound));
    assert_eq!(allocate_pages(&mut gcd, 0, AllocateType::BottomUp(None), 1), Err(PageError::InvalidParameter));
    assert_eq!(free_pages(&mut gcd, 0x20_0001, 1), Err(PageError::InvalidParameter));
    assert_eq!(free_pages(&mut gcd, 0x20_0000, 1), Err(PageError::NotFound));
    let address = allocate_pages(&mut gcd, 5, AllocateType::Address(0x28_0000), 2).unwrap();
    assert_eq!(address, 0x28_0000);
}

/// A GCD with `size` bytes of system memory at a fixed base; returns the base.
fn init_gcd(gcd: &mut GCD, size: usize) -> u64 {
    let base: usize = 0x1000_0000;
    gcd.add_memory_space(GcdMemoryType::SystemMemory, base, size, 0).unwrap();
    base as u64
}

#[test]
fn test_allocate_pages() {
    let mut gcd = GCD::new(48);
    let address = init_gcd(&mut gcd, 0x1000000);

    let pages = 4;
    let allocation = allocate_pages(&mut gcd, 1, AllocateType::BottomUp(None), pages).unwrap();

    assert!(allocation as u64 >= address);
    assert!((allocation as u64) < address + 0x1000000);

    free_pages(&mut gcd, allocation, pages).unwrap();
}

#[test]
fn test_allocate_at_address() {
    let mut gcd = GCD::new(48);
    let address = init_gcd(&mut gcd, 0x1000000);

    let target_address = address + 0x400000 - 8 * (ALIGNMENT as u64);
    let pages = 4;

    let allocation = allocate_pages(&mut gcd, 1, AllocateType::Address(target_address as usize), pages).unwrap();

    assert_eq!(allocation as u64, target_address);

    free_pages(&mut gcd, allocation, pages).unwrap();
}

#[test]
fn test_allocate_below_address() {
    let mut gcd = GCD::new(48);
    let address = init_gcd(&mut gcd, 0x1000000);

    let target_address = address + 0x400000 - 8 * (ALIGNMENT as u64);
    let pages = 4;

    let allocation =
        allocate_pages(&mut gcd, 1, AllocateType::BottomUp(Some(target_address as usize)), pages).unwrap();
    assert!((allocation as u64) < target_address);

    free_pages(&mut gcd, allocation, pages).unwrap();
}

#[test]
fn test_allocate_above_address() {
    let mut gcd = GCD::new(48);
    let address = init_gcd(&mut gcd, 0x1000000);

    let target_address = address + 0x400000 - 8 * (ALIGNMENT as u64);
    let pages = 4;

    let allocation =
        allocate_pages(&mut gcd, 1, AllocateType::TopDown(Some(target_address as usize)), pages).unwrap();
    assert!((allocation as u64) > target_address);

    free_pages(&mut gcd, allocation, pages).unwrap();
}
