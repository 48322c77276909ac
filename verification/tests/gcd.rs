use uefi_dxe::gcd::{get_capabilities, AllocateType, Error, GCD, MEMORY_BLOCK_SLICE_SIZE};
use uefi_dxe::io_block::GcdIoType;
use uefi_dxe::io_gcd::IoGCD;
use uefi_dxe::memory_block::{GcdMemoryType, MemoryBlock};
use uefi_dxe::memory_map::MEMORY_BLOCK_SLICE_LEN;

/// Where the tests place the block list of the memory map.
const BLOCK_LIST_ADDRESS: usize = 0x1000_0000;

fn create_gcd() -> (GCD, usize) {
    let address = BLOCK_LIST_ADDRESS;
    let mut gcd = GCD::new(48);
    gcd.add_memory_space(GcdMemoryType::SystemMemory, address, MEMORY_BLOCK_SLICE_SIZE, 0).unwrap();
    (gcd, address)
}

fn copy_memory_block(gcd: &GCD) -> Vec<MemoryBlock> {
    match &gcd.memory_blocks {
        Some(blocks) => blocks.clone(),
        None => vec![],
    }
}

fn is_gcd_memory_slice_valid(gcd: &GCD) -> bool {
    if let Some(memory_blocks) = gcd.memory_blocks.as_ref() {
        match memory_blocks.first().map(|b| b.start()) {
            Some(0) => (),
            _ => return false,
        }
        let mut last_addr = 0;
        let mut w = memory_blocks.windows(2);
        while let Some([a, b]) = w.next() {
            if a.end() != b.start() || a.is_same_state(b) {
                return false;
            }
            last_addr = b.end();
        }
        if last_addr != gcd.maximum_address {
            return false;
        }
    }
    true
}

#[test]
fn test_gcd_initialization() {
    let gdc = GCD::new(48);
    assert_eq!(2_usize.pow(48), gdc.maximum_address);
    assert!(gdc.memory_blocks.is_none());
    assert_eq!(0, gdc.memory_descriptor_count())
}

#[test]
fn test_add_memory_space_before_memory_blocks_instantiated() {
    let address = BLOCK_LIST_ADDRESS;
    let mut gcd = GCD::new(48);

    assert_eq!(
        Err(Error::OutOfResources),
        gcd.add_memory_space(GcdMemoryType::Reserved, address, MEMORY_BLOCK_SLICE_SIZE, 0),
        "First add memory space should be a system memory."
    );
    assert_eq!(0, gcd.memory_descriptor_count());

    assert_eq!(
        Err(Error::OutOfResources),
        gcd.add_memory_space(GcdMemoryType::SystemMemory, address, MEMORY_BLOCK_SLICE_SIZE - 1, 0),
        "First add memory space with system memory should contain enough space to contain the block list."
    );
    assert_eq!(0, gcd.memory_descriptor_count());
}

#[test]
fn test_add_memory_space_with_all_memory_type() {
    let (mut gcd, _) = create_gcd();

    assert_eq!(Ok(0), gcd.add_memory_space(GcdMemoryType::Reserved, 0, 1, 0));
    assert_eq!(Ok(1), gcd.add_memory_space(GcdMemoryType::SystemMemory, 1, 1, 0));
    assert_eq!(Ok(2), gcd.add_memory_space(GcdMemoryType::Persistent, 2, 1, 0));
    assert_eq!(Ok(3), gcd.add_memory_space(GcdMemoryType::MoreReliable, 3, 1, 0));
    assert_eq!(Ok(4), gcd.add_memory_space(GcdMemoryType::Unaccepted, 4, 1, 0));
    assert_eq!(Ok(5), gcd.add_memory_space(GcdMemoryType::MemoryMappedIo, 5, 1, 0));

    let snapshot = copy_memory_block(&gcd);

    assert_eq!(
        Err(Error::InvalidParameter),
        gcd.add_memory_space(GcdMemoryType::NonExistent, 10, 1, 0),
        "Can't manually add NonExistent memory space manually."
    );

    assert!(is_gcd_memory_slice_valid(&gcd));
    assert_eq!(snapshot, copy_memory_block(&gcd));
}

#[test]
fn test_add_memory_space_with_0_len_block() {
    let (mut gcd, _) = create_gcd();
    let snapshot = copy_memory_block(&gcd);
    assert_eq!(Err(Error::InvalidParameter), gcd.add_memory_space(GcdMemoryType::SystemMemory, 0, 0, 0));
    assert_eq!(snapshot, copy_memory_block(&gcd));
}

#[test]
fn test_add_memory_space_when_memory_block_full() {
    let (mut gcd, address) = create_gcd();
    let addr = address + MEMORY_BLOCK_SLICE_SIZE;

    let mut n = 0;
    while gcd.memory_descriptor_count() < MEMORY_BLOCK_SLICE_LEN {
        assert!(gcd.add_memory_space(GcdMemoryType::SystemMemory, addr + n, 1, n as u64).is_ok());
        n += 1;
    }

    assert!(is_gcd_memory_slice_valid(&gcd));
    let memory_blocks_snapshot = copy_memory_block(&gcd);

    assert_eq!(
        Err(Error::OutOfResources),
        gcd.add_memory_space(GcdMemoryType::Reserved, 30_000, 1000, 0),
        "Should return out of memory if there is no space in memory blocks."
    );

    assert_eq!(memory_blocks_snapshot, copy_memory_block(&gcd),);
}

#[test]
fn test_add_memory_space_outside_processor_range() {
    let (mut gcd, _) = create_gcd();

    let snapshot = copy_memory_block(&gcd);

    let max = gcd.maximum_address;
    assert_eq!(Err(Error::Unsupported), gcd.add_memory_space(GcdMemoryType::SystemMemory, max + 1, 1, 0));
    assert_eq!(Err(Error::Unsupported), gcd.add_memory_space(GcdMemoryType::SystemMemory, max, 1, 0));
    assert_eq!(Err(Error::Unsupported), gcd.add_memory_space(GcdMemoryType::SystemMemory, max - 1, 2, 0));

    assert_eq!(snapshot, copy_memory_block(&gcd));
}

#[test]
fn test_add_memory_space_in_range_already_added() {
    let (mut gcd, _) = create_gcd();
    gcd.add_memory_space(GcdMemoryType::SystemMemory, 1000, 10, 0).unwrap();

    let snapshot = copy_memory_block(&gcd);

    assert_eq!(
        Err(Error::AccessDenied),
        gcd.add_memory_space(GcdMemoryType::Reserved, 1002, 5, 0),
        "Can't add inside a range previously added."
    );
    assert_eq!(
        Err(Error::AccessDenied),
        gcd.add_memory_space(GcdMemoryType::Reserved, 998, 5, 0),
        "Can't add partially inside a range previously added (Start)."
    );
    assert_eq!(
        Err(Error::AccessDenied),
        gcd.add_memory_space(GcdMemoryType::Reserved, 1009, 5, 0),
        "Can't add partially inside a range previously added (End)."
    );

    assert_eq!(snapshot, copy_memory_block(&gcd));
}

#[test]
fn test_add_memory_space_in_range_already_allocated() {
    let (mut gcd, address) = create_gcd();
    gcd.add_memory_space(GcdMemoryType::SystemMemory, address - 100, 100, 0).unwrap();

    let snapshot = copy_memory_block(&gcd);

    assert_eq!(
        Err(Error::AccessDenied),
        gcd.add_memory_space(GcdMemoryType::SystemMemory, address, 5, 0),
        "Can't add inside a range previously allocated."
    );
    assert_eq!(
        Err(Error::AccessDenied),
        gcd.add_memory_space(GcdMemoryType::Reserved, address - 100, 200, 0),
        "Can't add partially inside a range previously allocated."
    );

    assert_eq!(snapshot, copy_memory_block(&gcd));
}

#[test]
fn test_add_memory_space_block_merging() {
    let (mut gcd, _) = create_gcd();

    assert_eq!(Ok(1), gcd.add_memory_space(GcdMemoryType::SystemMemory, 1000, 10, 0));
    let block_count = gcd.memory_descriptor_count();

    match gcd.add_memory_space(GcdMemoryType::SystemMemory, 1010, 10, 0) {
        Ok(idx) => {
            let mb = gcd.memory_blocks.as_ref().unwrap()[idx];
            assert_eq!(1000, mb.as_ref().base_address);
            assert_eq!(20, mb.as_ref().length);
            assert_eq!(block_count, gcd.memory_descriptor_count());
        },
        Err(e) => assert!(false, "{e:?}"),
    }

    match gcd.add_memory_space(GcdMemoryType::SystemMemory, 990, 10, 0) {
        Ok(idx) => {
            let mb = gcd.memory_blocks.as_ref().unwrap()[idx];
            assert_eq!(990, mb.as_ref().base_address);
            assert_eq!(30, mb.as_ref().length);
            assert_eq!(block_count, gcd.memory_descriptor_count());
        },
        Err(e) => assert!(false, "{e:?}"),
    }

    assert!(
        gcd.add_memory_space(GcdMemoryType::Reserved, 1020, 10, 0).is_ok(),
        "A different memory type should note result in a merge."
    );
    assert_eq!(block_count + 1, gcd.memory_descriptor_count());
    assert!(
        gcd.add_memory_space(GcdMemoryType::Reserved, 1030, 10, 1).is_ok(),
        "A different capabilities should note result in a merge."
    );
    assert_eq!(block_count + 2, gcd.memory_descriptor_count());

    assert!(is_gcd_memory_slice_valid(&gcd));
}

#[test]
fn test_add_memory_space_state() {
    let (mut gcd, _) = create_gcd();
    match gcd.add_memory_space(GcdMemoryType::SystemMemory, 100, 10, 123) {
        Ok(idx) => {
            let mb = gcd.memory_blocks.as_ref().unwrap()[idx];
            match mb {
                MemoryBlock::Unallocated(md) => {
                    assert_eq!(100, md.base_address);
                    assert_eq!(10, md.length);
                    assert_eq!(123, md.capabilities);
                    assert_eq!(0, md.image_handle);
                    assert_eq!(0, md.device_handle);
                },
                MemoryBlock::Allocated(_) => assert!(false, "Add should keep the block unallocated"),
            }
        },
        Err(e) => assert!(false, "{e:?}"),
    }
}

#[test]
fn test_remove_memory_space_before_memory_blocks_instantiated() {
    let address = BLOCK_LIST_ADDRESS;
    let mut gcd = GCD::new(48);

    assert_eq!(Err(Error::NotFound), gcd.remove_memory_space(address, MEMORY_BLOCK_SLICE_SIZE));
}

#[test]
fn test_remove_memory_space_with_0_len_block() {
    let (mut gcd, _) = create_gcd();

    assert!(gcd.add_memory_space(GcdMemoryType::SystemMemory, 0, 10, 0).is_ok());

    let snapshot = copy_memory_block(&gcd);
    assert_eq!(Err(Error::InvalidParameter), gcd.remove_memory_space(5, 0));

    assert_eq!(
        Err(Error::InvalidParameter),
        gcd.remove_memory_space(10, 0),
        "If there is no allocate done first, 0 length invalid param should have priority."
    );

    assert_eq!(snapshot, copy_memory_block(&gcd));
}

#[test]
fn test_remove_memory_space_outside_processor_range() {
    let (mut gcd, _) = create_gcd();
    let max = gcd.maximum_address;
    assert!(gcd.add_memory_space(GcdMemoryType::SystemMemory, max - 10, 10, 0).is_ok());

    let snapshot = copy_memory_block(&gcd);

    assert_eq!(
        Err(Error::Unsupported),
        gcd.remove_memory_space(max - 10, 11),
        "An address outside the processor range support is invalid."
    );
    assert_eq!(
        Err(Error::Unsupported),
        gcd.remove_memory_space(max, 10),
        "An address outside the processor range support is invalid."
    );

    assert_eq!(snapshot, copy_memory_block(&gcd));
}

#[test]
fn test_remove_memory_space_in_range_not_added() {
    let (mut gcd, _) = create_gcd();
    assert!(gcd.add_memory_space(GcdMemoryType::SystemMemory, 100, 10, 0).is_ok());

    let snapshot = copy_memory_block(&gcd);

    assert_eq!(Err(Error::NotFound), gcd.remove_memory_space(95, 10), "Can't remove memory space partially added.");
    assert_eq!(Err(Error::NotFound), gcd.remove_memory_space(105, 10), "Can't remove memory space partially added.");
    assert_eq!(Err(Error::NotFound), gcd.remove_memory_space(10, 10), "Can't remove memory space not previously added.");

    assert_eq!(snapshot, copy_memory_block(&gcd));
}

#[test]
fn test_remove_memory_space_in_range_allocated() {
    let (mut gcd, address) = create_gcd();

    let snapshot = copy_memory_block(&gcd);

    assert_eq!(
        Err(Error::NotFound),
        gcd.remove_memory_space(address - 5, 10),
        "Can't remove memory space partially allocated."
    );
    assert_eq!(
        Err(Error::NotFound),
        gcd.remove_memory_space(address + MEMORY_BLOCK_SLICE_SIZE - 5, 10),
        "Can't remove memory space partially allocated."
    );

    assert_eq!(
        Err(Error::AccessDenied),
        gcd.remove_memory_space(address + 10, 10),
        "Can't remove memory space not previously allocated."
    );

    assert_eq!(snapshot, copy_memory_block(&gcd));
}

#[test]
fn test_remove_memory_space_when_memory_block_full() {
    let (mut gcd, address) = create_gcd();
    let addr = address + MEMORY_BLOCK_SLICE_SIZE;

    assert!(gcd.add_memory_space(GcdMemoryType::SystemMemory, addr, 10, 0 as u64).is_ok());
    let mut n = 1;
    while gcd.memory_descriptor_count() < MEMORY_BLOCK_SLICE_LEN {
        assert!(gcd.add_memory_space(GcdMemoryType::SystemMemory, addr + 10 + n, 1, n as u64).is_ok());
        n += 1;
    }

    assert!(is_gcd_memory_slice_valid(&gcd));
    let memory_blocks_snapshot = copy_memory_block(&gcd);

    assert_eq!(
        Err(Error::OutOfResources),
        gcd.remove_memory_space(addr, 5),
        "Should return out of memory if there is no space in memory blocks."
    );

    assert_eq!(memory_blocks_snapshot, copy_memory_block(&gcd),);
}

#[test]
fn test_remove_memory_space_block_merging() {
    let (mut gcd, address) = create_gcd();
    assert!(gcd.add_memory_space(GcdMemoryType::SystemMemory, 1, address - 2, 0).is_ok());

    let block_count = gcd.memory_descriptor_count();

    for i in 1..10 {
        assert!(gcd.remove_memory_space(address - 1 - i, 1).is_ok());
    }

    assert_eq!(address - 10, gcd.memory_blocks.as_ref().unwrap()[2].as_ref().base_address as usize);
    assert_eq!(10, gcd.memory_blocks.as_ref().unwrap()[2].as_ref().length as usize);
    assert_eq!(block_count, gcd.memory_descriptor_count());
    assert!(is_gcd_memory_slice_valid(&gcd));

    for i in 1..10 {
        assert!(gcd.remove_memory_space(0 + i, 1).is_ok());
    }
    assert_eq!(0, gcd.memory_blocks.as_ref().unwrap()[0].as_ref().base_address as usize);
    assert_eq!(10, gcd.memory_blocks.as_ref().unwrap()[0].as_ref().length as usize);
    assert_eq!(block_count, gcd.memory_descriptor_count());
    assert!(is_gcd_memory_slice_valid(&gcd));

    assert!(gcd.remove_memory_space(100, 1).is_ok());
    assert_eq!(block_count + 2, gcd.memory_descriptor_count());
    assert!(is_gcd_memory_slice_valid(&gcd));
}

#[test]
fn test_remove_memory_space_state() {
    let (mut gcd, address) = create_gcd();
    assert!(gcd.add_memory_space(GcdMemoryType::SystemMemory, 0, address, 123).is_ok());

    match gcd.remove_memory_space(0, 10) {
        Ok(_) => {
            let mb = gcd.memory_blocks.as_ref().unwrap()[0];
            match mb {
                MemoryBlock::Unallocated(md) => {
                    assert_eq!(0, md.base_address);
                    assert_eq!(10, md.length);
                    assert_eq!(0, md.capabilities);
                    assert_eq!(0, md.image_handle);
                    assert_eq!(0, md.device_handle);
                },
                MemoryBlock::Allocated(_) => assert!(false, "remove should keep the block unallocated"),
            }
        },
        Err(e) => assert!(false, "{e:?}"),
    }
}

#[test]
fn test_allocate_memory_space_before_memory_blocks_instantiated() {
    let mut gcd = GCD::new(48);
    assert_eq!(
        Err(Error::NotFound),
        gcd.allocate_memory_space(AllocateType::Address(0), GcdMemoryType::SystemMemory, 0, 10, 1, None)
    );
}

#[test]
fn test_allocate_memory_space_with_0_len_block() {
    let (mut gcd, _) = create_gcd();
    let snapshot = copy_memory_block(&gcd);
    assert_eq!(
        Err(Error::InvalidParameter),
        gcd.allocate_memory_space(AllocateType::BottomUp(None), GcdMemoryType::Reserved, 0, 0, 1, None),
    );
    assert_eq!(snapshot, copy_memory_block(&gcd));
}

#[test]
fn test_allocate_memory_space_with_null_image_handle() {
    let (mut gcd, _) = create_gcd();
    let snapshot = copy_memory_block(&gcd);
    assert_eq!(
        Err(Error::InvalidParameter),
        gcd.allocate_memory_space(AllocateType::BottomUp(None), GcdMemoryType::Reserved, 0, 10, 0, None),
    );
    assert_eq!(snapshot, copy_memory_block(&gcd));
}

#[test]
fn test_allocate_memory_space_with_address_outside_processor_range() {
    let (mut gcd, _) = create_gcd();
    let snapshot = copy_memory_block(&gcd);
    let max = gcd.maximum_address;

    assert_eq!(
        Err(Error::Unsupported),
        gcd.allocate_memory_space(AllocateType::Address(max - 100), GcdMemoryType::Reserved, 0, 1000, 1, None),
    );
    assert_eq!(
        Err(Error::Unsupported),
        gcd.allocate_memory_space(AllocateType::Address(max + 100), GcdMemoryType::Reserved, 0, 1000, 1, None),
    );

    assert_eq!(snapshot, copy_memory_block(&gcd));
}

#[test]
fn test_allocate_memory_space_with_all_memory_type() {
    let (mut gcd, _) = create_gcd();
    for (i, memory_type) in [
        GcdMemoryType::Reserved,
        GcdMemoryType::SystemMemory,
        GcdMemoryType::Persistent,
        GcdMemoryType::MemoryMappedIo,
        GcdMemoryType::MoreReliable,
        GcdMemoryType::Unaccepted,
    ]
    .into_iter()
    .enumerate()
    {
        gcd.add_memory_space(memory_type, i * 10, 10, 0).unwrap();
        let res = gcd.allocate_memory_space(AllocateType::Address(i * 10), memory_type, 0, 10, 1, None);
        match memory_type {
            GcdMemoryType::Unaccepted => assert_eq!(Err(Error::InvalidParameter), res),
            _ => assert!(res.is_ok()),
        }
    }
}

#[test]
fn test_allocate_memory_space_when_memory_blocks_full() {
    let (mut gcd, address) = create_gcd();
    gcd.add_memory_space(GcdMemoryType::SystemMemory, 0, address, 0).unwrap();

    let mut n = 1;
    while gcd.memory_descriptor_count() < MEMORY_BLOCK_SLICE_LEN {
        gcd.allocate_memory_space(AllocateType::BottomUp(None), GcdMemoryType::SystemMemory, 0, 1, n, None).unwrap();
        n += 1;
    }

    assert!(is_gcd_memory_slice_valid(&gcd));
    let memory_blocks_snapshot = copy_memory_block(&gcd);

    assert_eq!(
        Err(Error::OutOfResources),
        gcd.allocate_memory_space(AllocateType::BottomUp(None), GcdMemoryType::SystemMemory, 0, 1, 1, None)
    );

    assert_eq!(memory_blocks_snapshot, copy_memory_block(&gcd));
}

#[test]
fn test_allocate_memory_space_with_no_memory_space_available() {
    let (mut gcd, _) = create_gcd();

    let max = gcd.maximum_address;
    gcd.add_memory_space(GcdMemoryType::SystemMemory, 0, 100, 0).unwrap();
    gcd.add_memory_space(GcdMemoryType::SystemMemory, 1000, 100, 0).unwrap();
    gcd.add_memory_space(GcdMemoryType::SystemMemory, max - 100, 100, 0).unwrap();

    let memory_blocks_snapshot = copy_memory_block(&gcd);

    for allocate_type in [
        AllocateType::BottomUp(None),
        AllocateType::BottomUp(Some(10_000)),
        AllocateType::TopDown(None),
        AllocateType::TopDown(Some(10_000)),
        AllocateType::Address(10_000),
    ] {
        assert_eq!(
            Err(Error::NotFound),
            gcd.allocate_memory_space(allocate_type, GcdMemoryType::SystemMemory, 0, 1000, 1, None),
            "Assert fail with allocate type: {allocate_type:?}"
        );
    }

    assert_eq!(memory_blocks_snapshot, copy_memory_block(&gcd));
}

#[test]
fn test_allocate_memory_space_alignment() {
    let (mut gcd, _) = create_gcd();
    gcd.add_memory_space(GcdMemoryType::SystemMemory, 0, 0x1000, 0).unwrap();

    assert_eq!(
        Ok(0),
        gcd.allocate_memory_space(AllocateType::BottomUp(None), GcdMemoryType::SystemMemory, 0, 0x0f, 1, None),
        "Allocate bottom up without alignment"
    );
    assert_eq!(
        Ok(0x10),
        gcd.allocate_memory_space(AllocateType::BottomUp(None), GcdMemoryType::SystemMemory, 4, 0x10, 1, None),
        "Allocate bottom up with alignment of 4 bits (find first address that is aligned)"
    );
    assert_eq!(
        Ok(0x20),
        gcd.allocate_memory_space(AllocateType::BottomUp(None), GcdMemoryType::SystemMemory, 4, 100, 1, None),
        "Allocate bottom up with alignment of 4 bits (already aligned)"
    );
    assert_eq!(
        Ok(0xff1),
        gcd.allocate_memory_space(AllocateType::TopDown(None), GcdMemoryType::SystemMemory, 0, 0x0f, 1, None),
        "Allocate top down without alignment"
    );
    assert_eq!(
        Ok(0xfe0),
        gcd.allocate_memory_space(AllocateType::TopDown(None), GcdMemoryType::SystemMemory, 4, 0x0f, 1, None),
        "Allocate top down with alignment of 4 bits (find first address that is aligned)"
    );
    assert_eq!(
        Ok(0xf00),
        gcd.allocate_memory_space(AllocateType::TopDown(None), GcdMemoryType::SystemMemory, 4, 0xe0, 1, None),
        "Allocate top down with alignment of 4 bits (already aligned)"
    );
    assert_eq!(
        Ok(0xa00),
        gcd.allocate_memory_space(AllocateType::Address(0xa00), GcdMemoryType::SystemMemory, 4, 100, 1, None),
        "Allocate Address with alignment of 4 bits (already aligned)"
    );

    assert!(is_gcd_memory_slice_valid(&gcd));
    let memory_blocks_snapshot = copy_memory_block(&gcd);

    assert_eq!(
        Err(Error::NotFound),
        gcd.allocate_memory_space(AllocateType::Address(0xa0f), GcdMemoryType::SystemMemory, 4, 100, 1, None),
    );

    assert_eq!(memory_blocks_snapshot, copy_memory_block(&gcd));
}

#[test]
fn test_allocate_memory_space_block_merging() {
    let (mut gcd, _) = create_gcd();
    gcd.add_memory_space(GcdMemoryType::SystemMemory, 0x1000, 0x1000, 0).unwrap();

    for allocate_type in [AllocateType::BottomUp(None), AllocateType::TopDown(None)] {
        let block_count = gcd.memory_descriptor_count();
        assert!(
            gcd.allocate_memory_space(allocate_type, GcdMemoryType::SystemMemory, 0, 1, 1, None).is_ok(),
            "{allocate_type:?}"
        );
        assert_eq!(block_count + 1, gcd.memory_descriptor_count());
        assert!(
            gcd.allocate_memory_space(allocate_type, GcdMemoryType::SystemMemory, 0, 1, 1, None).is_ok(),
            "{allocate_type:?}"
        );
        assert_eq!(block_count + 1, gcd.memory_descriptor_count());
        assert!(
            gcd.allocate_memory_space(allocate_type, GcdMemoryType::SystemMemory, 0, 1, 2, None).is_ok(),
            "{allocate_type:?}: A different image handle should not result in a merge."
        );
        assert_eq!(block_count + 2, gcd.memory_descriptor_count());
        assert!(
            gcd.allocate_memory_space(allocate_type, GcdMemoryType::SystemMemory, 0, 1, 2, Some(1)).is_ok(),
            "{allocate_type:?}: A different device handle should not result in a merge."
        );
        assert_eq!(block_count + 3, gcd.memory_descriptor_count());
    }

    let block_count = gcd.memory_descriptor_count();
    assert_eq!(
        Ok(0x1000 + 4),
        gcd.allocate_memory_space(AllocateType::Address(0x1000 + 4), GcdMemoryType::SystemMemory, 0, 1, 2, Some(1)),
        "Merge should work with address allocation too."
    );
    assert_eq!(block_count, gcd.memory_descriptor_count());

    assert!(is_gcd_memory_slice_valid(&gcd));
}

#[test]
fn test_allocate_memory_space_with_address_not_added() {
    let (mut gcd, _) = create_gcd();

    gcd.add_memory_space(GcdMemoryType::SystemMemory, 0x100, 10, 0).unwrap();

    let snapshot = copy_memory_block(&gcd);

    assert_eq!(
        Err(Error::NotFound),
        gcd.allocate_memory_space(AllocateType::Address(0x100), GcdMemoryType::SystemMemory, 0, 11, 1, None),
    );
    assert_eq!(
        Err(Error::NotFound),
        gcd.allocate_memory_space(AllocateType::Address(0x95), GcdMemoryType::SystemMemory, 0, 10, 1, None),
    );
    assert_eq!(
        Err(Error::NotFound),
        gcd.allocate_memory_space(AllocateType::Address(110), GcdMemoryType::SystemMemory, 0, 5, 1, None),
    );
    assert_eq!(
        Err(Error::NotFound),
        gcd.allocate_memory_space(AllocateType::Address(0), GcdMemoryType::SystemMemory, 0, 5, 1, None),
    );

    assert_eq!(snapshot, copy_memory_block(&gcd));
}

#[test]
fn test_allocate_memory_space_with_address_allocated() {
    let (mut gcd, address) = create_gcd();
    assert_eq!(
        Err(Error::NotFound),
        gcd.allocate_memory_space(AllocateType::Address(address), GcdMemoryType::SystemMemory, 0, 5, 1, None),
    );
}

#[test]
fn test_free_memory_space_before_memory_blocks_instantiated() {
    let mut gcd = GCD::new(48);
    assert_eq!(Err(Error::NotFound), gcd.free_memory_space(0, 100));
}

#[test]
fn test_free_memory_space_when_0_len_block() {
    let (mut gcd, _) = create_gcd();
    let snapshot = copy_memory_block(&gcd);
    assert_eq!(Err(Error::InvalidParameter), gcd.remove_memory_space(0, 0));
    assert_eq!(snapshot, copy_memory_block(&gcd));
}

#[test]
fn test_free_memory_space_outside_processor_range() {
    let (mut gcd, _) = create_gcd();
    let max = gcd.maximum_address;

    gcd.add_memory_space(GcdMemoryType::SystemMemory, max - 100, 100, 0).unwrap();
    gcd.allocate_memory_space(AllocateType::Address(max - 100), GcdMemoryType::SystemMemory, 0, 100, 1, None).unwrap();

    let snapshot = copy_memory_block(&gcd);

    assert_eq!(Err(Error::Unsupported), gcd.free_memory_space(max, 10));
    assert_eq!(Err(Error::Unsupported), gcd.free_memory_space(max - 99, 100));
    assert_eq!(Err(Error::Unsupported), gcd.free_memory_space(max + 1, 100));

    assert_eq!(snapshot, copy_memory_block(&gcd));
}

#[test]
fn test_free_memory_space_in_range_not_allocated() {
    let (mut gcd, _) = create_gcd();
    gcd.add_memory_space(GcdMemoryType::SystemMemory, 1000, 100, 0).unwrap();
    gcd.allocate_memory_space(AllocateType::Address(1000), GcdMemoryType::SystemMemory, 0, 100, 1, None).unwrap();

    assert_eq!(Err(Error::NotFound), gcd.free_memory_space(1050, 100));
    assert_eq!(Err(Error::NotFound), gcd.free_memory_space(950, 100));
    assert_eq!(Err(Error::NotFound), gcd.free_memory_space(0, 100));
}

#[test]
fn test_free_memory_space_when_memory_block_full() {
    let (mut gcd, _) = create_gcd();

    gcd.add_memory_space(GcdMemoryType::SystemMemory, 0, 100, 0).unwrap();
    gcd.allocate_memory_space(AllocateType::Address(0), GcdMemoryType::SystemMemory, 0, 100, 1, None).unwrap();

    let mut n = 1;
    while gcd.memory_descriptor_count() < MEMORY_BLOCK_SLICE_LEN {
        gcd.add_memory_space(GcdMemoryType::SystemMemory, 1000 + n, 1, n as u64).unwrap();
        n += 1;
    }
    let memory_blocks_snapshot = copy_memory_block(&gcd);

    assert_eq!(Err(Error::OutOfResources), gcd.free_memory_space(0, 1));

    assert_eq!(memory_blocks_snapshot, copy_memory_block(&gcd),);
}

#[test]
fn test_free_memory_space_merging() {
    let (mut gcd, _) = create_gcd();

    gcd.add_memory_space(GcdMemoryType::SystemMemory, 0, 1000, 0).unwrap();
    gcd.allocate_memory_space(AllocateType::Address(0), GcdMemoryType::SystemMemory, 0, 1000, 1, None).unwrap();

    let block_count = gcd.memory_descriptor_count();
    assert_eq!(Ok(()), gcd.free_memory_space(0, 100), "Free beginning of a block.");
    assert_eq!(block_count + 1, gcd.memory_descriptor_count());
    assert_eq!(Ok(()), gcd.free_memory_space(500, 100), "Free in the middle of a block");
    assert_eq!(block_count + 3, gcd.memory_descriptor_count());
    assert_eq!(Ok(()), gcd.free_memory_space(900, 100), "Free at the end of a block");
    assert_eq!(block_count + 4, gcd.memory_descriptor_count());

    let block_count = gcd.memory_descriptor_count();
    assert_eq!(Ok(()), gcd.free_memory_space(100, 100));
    assert_eq!(block_count, gcd.memory_descriptor_count());
    let mb = gcd.memory_blocks.as_ref().unwrap()[0];
    assert_eq!(0, mb.as_ref().base_address);
    assert_eq!(200, mb.as_ref().length);

    assert_eq!(Ok(()), gcd.free_memory_space(600, 100));
    assert_eq!(block_count, gcd.memory_descriptor_count());
    let mb = gcd.memory_blocks.as_ref().unwrap()[2];
    assert_eq!(500, mb.as_ref().base_address);
    assert_eq!(200, mb.as_ref().length);

    assert_eq!(Ok(()), gcd.free_memory_space(800, 100));
    assert_eq!(block_count, gcd.memory_descriptor_count());
    let mb = gcd.memory_blocks.as_ref().unwrap()[4];
    assert_eq!(800, mb.as_ref().base_address);
    assert_eq!(200, mb.as_ref().length);

    assert_eq!(Ok(()), gcd.free_memory_space(750, 10));
    assert_eq!(block_count + 2, gcd.memory_descriptor_count());

    assert!(is_gcd_memory_slice_valid(&gcd));
}

#[test]
fn spin_locked_allocator_should_error_if_not_initialized() {
    let mut gcd = GCD { maximum_address: 0, memory_blocks: None };

    assert_eq!(gcd.maximum_address, 0);

    let add_result = gcd.add_memory_space(GcdMemoryType::SystemMemory, 0, 100, 0);
    assert_eq!(add_result, Err(Error::NotInitialized));

    let allocate_result =
        gcd.allocate_memory_space(AllocateType::Address(0), GcdMemoryType::SystemMemory, 0, 10, 1, None);
    assert_eq!(allocate_result, Err(Error::NotInitialized));

    let free_result = gcd.free_memory_space(0, 10);
    assert_eq!(free_result, Err(Error::NotInitialized));

    let remove_result = gcd.remove_memory_space(0, 10);
    assert_eq!(remove_result, Err(Error::NotInitialized));
}

#[test]
fn spin_locked_allocator_init_should_initialize() {
    let mut gcd = GCD { maximum_address: 0, memory_blocks: None };
    let mut io = IoGCD { maximum_address: 0, io_blocks: None };

    assert_eq!(gcd.maximum_address, 0);

    let address = BLOCK_LIST_ADDRESS;
    gcd.init(48);
    io.init(16);
    gcd.add_memory_space(GcdMemoryType::SystemMemory, address, MEMORY_BLOCK_SLICE_SIZE, 0).unwrap();
    assert_eq!(io.maximum_address, 1 << 16);
}

#[test]
fn free_after_allocate_restores_the_memory_map() {
    let (mut gcd, _) = create_gcd();
    gcd.add_memory_space(GcdMemoryType::SystemMemory, 0x10000, 0x10000, 0).unwrap();
    let before = copy_memory_block(&gcd);
    let addr =
        gcd.allocate_memory_space(AllocateType::BottomUp(None), GcdMemoryType::SystemMemory, 12, 0x3000, 7, None).unwrap();
    assert_eq!(addr, 0x10000);
    assert_ne!(before, copy_memory_block(&gcd));
    assert_eq!(Ok(()), gcd.free_memory_space(addr, 0x3000));
    assert_eq!(before, copy_memory_block(&gcd));
}

#[test]
fn remove_after_add_restores_the_memory_map() {
    let (mut gcd, _) = create_gcd();
    let before = copy_memory_block(&gcd);
    gcd.add_memory_space(GcdMemoryType::Reserved, 0x20000, 0x1000, 0).unwrap();
    assert_eq!(Ok(()), gcd.remove_memory_space(0x20000, 0x1000));
    assert_eq!(before, copy_memory_block(&gcd));
}

#[test]
fn memory_attributes_must_be_within_capabilities() {
    let (mut gcd, _) = create_gcd();
    gcd.add_memory_space(GcdMemoryType::SystemMemory, 0x20000, 0x1000, 0xf).unwrap();
    assert_eq!(Ok(()), gcd.set_memory_space_attributes(0x20000, 0x1000, 0x8));
    assert!(gcd.set_memory_space_attributes(0x20000, 0x1000, 0x10).is_err());
    assert!(gcd.set_memory_space_capabilities(0x20000, 0x1000, 0x1).is_err());
    assert_eq!(Ok(()), gcd.set_memory_space_capabilities(0x20000, 0x1000, 0x18));
}

#[test]
fn capabilities_follow_the_conversion_table() {
    // uncacheable and write-back cacheable resources, present, initialized and tested
    let attributes: u64 = 0x400 | 0x2000 | 0x1 | 0x2 | 0x4;
    assert_eq!(get_capabilities(GcdMemoryType::SystemMemory, attributes), 0x1 | 0x8);
    assert_eq!(
        get_capabilities(GcdMemoryType::Reserved, attributes),
        0x1 | 0x8 | 0x0100000000000000 | 0x0200000000000000 | 0x0400000000000000
    );
    assert_eq!(get_capabilities(GcdMemoryType::MoreReliable, 0x02000000), 0x10000);
    assert_eq!(get_capabilities(GcdMemoryType::SystemMemory, 0), 0);
}

#[test]
fn io_space_allocates_and_frees() {
    let mut io = IoGCD::new(16);
    assert_eq!(io.add_io_space(GcdIoType::Io, 0x100, 0x100).is_ok(), true);
    let before = io.io_blocks.clone();
    let addr = io.allocate_io_space(AllocateType::BottomUp(None), GcdIoType::Io, 0, 0x10, 3, None).unwrap();
    assert_eq!(addr, 0x100);
    assert_ne!(before, io.io_blocks);
    assert_eq!(Ok(()), io.free_io_space(addr, 0x10));
    assert_eq!(before, io.io_blocks);
    let mut descriptors = Vec::with_capacity(io.io_descriptor_count());
    assert_eq!(Ok(()), io.get_io_descriptors(&mut descriptors));
    assert_eq!(descriptors.len(), io.io_descriptor_count());
    assert_eq!(Err(Error::NotFound), io.free_io_space(0x100, 0x10));
}
