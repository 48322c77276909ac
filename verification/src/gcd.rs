//! The Global Coherency Domain (GCD) services: the memory and I/O resources
//! visible to the boot processor, kept as maps of blocks.
use vstd::prelude::*;
use crate::memory_block::{
    Error as MemoryBlockError, GcdMemoryType, MemoryBlock, MemoryBlockSplit, MemorySpaceDescriptor,
    StateTransition as MemoryStateTransition,
};
use crate::memory_map::{
    applied_state, block_index_of, contiguous, covers, lemma_block_below_end, lemma_covered, lemma_index_unique,
    lemma_merge, lemma_replace_applies, lemma_sorted, lemma_transitions_cancel, map_end, map_wf, normalized,
    outcome_at, pair_same, range_inside, state_at, transition_applied, RangeOutcome, MEMORY_BLOCK_SLICE_LEN,
};

verus! {

/// Bytes that the block list of the memory map occupies at the start of the
/// first system memory added (4096 blocks of 56 bytes).
pub const MEMORY_BLOCK_SLICE_SIZE: usize = 0x38000;

/// Errors of the GCD services.
#[derive(Debug, Clone, Copy, PartialEq, Eq, Structural)]
pub enum Error {
    /// The GCD has no address width yet.
    NotInitialized,
    /// A parameter is invalid.
    InvalidParameter,
    /// The block list is full.
    OutOfResources,
    /// The range lies outside the processor's address space.
    Unsupported,
    /// The range is in a state that forbids the request.
    AccessDenied,
    /// No suitable range was found.
    NotFound,
}

/// Errors of the block-list operations.
#[derive(Debug, Clone, Copy, PartialEq, Eq, Structural)]
pub enum InternalError {
    /// A memory block refused the split or the transition.
    MemoryBlockErr(MemoryBlockError),
    /// An I/O block refused the split or the transition.
    IoBlockErr(crate::io_block::Error),
    /// The block list has no room for more blocks.
    NotEnoughMemory,
}

/// Where an allocation is placed.
#[derive(Debug, Clone, Copy, PartialEq, Eq, Structural)]
pub enum AllocateType {
    /// From the lowest address up, optionally ending below a maximum address.
    BottomUp(Option<usize>),
    /// From the highest address down, optionally starting at or above a minimum address.
    TopDown(Option<usize>),
    /// At exactly this address.
    Address(usize),
}

/// The number of entries of the attribute conversion table.
pub const ATTRIBUTE_CONVERSION_COUNT: usize = 14;

/// Entry `i` of the table that converts resource attributes (of a resource
/// descriptor HOB) to memory capabilities: the attribute bit, the capability
/// bit, and whether the conversion applies to every memory type (else only
/// to types other than system and more-reliable memory).
pub open spec fn attribute_conversion(i: int) -> (u32, u64, bool) {
    if i == 0 {
        (0x00000400, 0x1, true)
    } else if i == 1 {
        (0x00020000, 0x10, true)
    } else if i == 2 {
        (0x00000800, 0x2, true)
    } else if i == 3 {
        (0x00001000, 0x4, true)
    } else if i == 4 {
        (0x00002000, 0x8, true)
    } else if i == 5 {
        (0x00100000, 0x2000, true)
    } else if i == 6 {
        (0x00200000, 0x1000, true)
    } else if i == 7 {
        (0x00400000, 0x4000, true)
    } else if i == 8 {
        (0x00080000, 0x20000, true)
    } else if i == 9 {
        (0x00000001, 0x0100000000000000, false)
    } else if i == 10 {
        (0x00000002, 0x0200000000000000, false)
    } else if i == 11 {
        (0x00000004, 0x0400000000000000, false)
    } else if i == 12 {
        (0x01000000, 0x8000, true)
    } else {
        (0x02000000, 0x10000, true)
    }
}

/// Entry `i` of the attribute conversion table.
fn attribute_conversion_entry(i: usize) -> (r: (u32, u64, bool))
    requires
        i < ATTRIBUTE_CONVERSION_COUNT,
    ensures
        r == attribute_conversion(i as int),
{
    if i == 0 {
        (0x00000400, 0x1, true)
    } else if i == 1 {
        (0x00020000, 0x10, true)
    } else if i == 2 {
        (0x00000800, 0x2, true)
    } else if i == 3 {
        (0x00001000, 0x4, true)
    } else if i == 4 {
        (0x00002000, 0x8, true)
    } else if i == 5 {
        (0x00100000, 0x2000, true)
    } else if i == 6 {
        (0x00200000, 0x1000, true)
    } else if i == 7 {
        (0x00400000, 0x4000, true)
    } else if i == 8 {
        (0x00080000, 0x20000, true)
    } else if i == 9 {
        (0x00000001, 0x0100000000000000, false)
    } else if i == 10 {
        (0x00000002, 0x0200000000000000, false)
    } else if i == 11 {
        (0x00000004, 0x0400000000000000, false)
    } else if i == 12 {
        (0x01000000, 0x8000, true)
    } else {
        (0x02000000, 0x10000, true)
    }
}

/// The capability that entry `i` of the table contributes.
pub open spec fn capability_from(i: int, memory_type: GcdMemoryType, attributes: u64) -> u64 {
    let (attribute, capability, memory) = attribute_conversion(i);
    if (memory || (memory_type != GcdMemoryType::SystemMemory && memory_type != GcdMemoryType::MoreReliable))
        && attributes & (attribute as u64) != 0 {
        capability
    } else {
        0
    }
}

/// The capabilities that the first `n` entries of the table contribute.
pub open spec fn capabilities_upto(n: int, memory_type: GcdMemoryType, attributes: u64) -> u64
    decreases n,
{
    if n <= 0 {
        0
    } else {
        capabilities_upto(n - 1, memory_type, attributes) | capability_from(n - 1, memory_type, attributes)
    }
}

/// The memory capabilities that resource attributes give memory of a type:
/// each attribute of the conversion table that is set gives its capability,
/// except that presence, initialization and testing count only for types
/// other than system and more-reliable memory.
pub fn get_capabilities(gcd_mem_type: GcdMemoryType, attributes: u64) -> (r: u64)
    ensures
        r == capabilities_upto(ATTRIBUTE_CONVERSION_COUNT as int, gcd_mem_type, attributes),
{
    let mut capabilities: u64 = 0;
    let mut i: usize = 0;
    while i < ATTRIBUTE_CONVERSION_COUNT
        invariant
            0 <= i <= ATTRIBUTE_CONVERSION_COUNT,
            capabilities == capabilities_upto(i as int, gcd_mem_type, attributes),
        decreases ATTRIBUTE_CONVERSION_COUNT - i,
    {
        let (attribute, capability, memory) = attribute_conversion_entry(i);
        let applies = memory || (!matches!(gcd_mem_type, GcdMemoryType::SystemMemory) && !matches!(
            gcd_mem_type,
            GcdMemoryType::MoreReliable
        ));
        if applies && attributes & (attribute as u64) != 0 {
            capabilities = capabilities | capability;
        } else {
            capabilities = capabilities | 0;
        }
        i = i + 1;
    }
    capabilities
}

/// `capability` where `attributes` has the bit `attribute`, else nothing.
pub open spec fn capability_if(attributes: u64, attribute: u64, capability: u64) -> u64 {
    if attributes & attribute != 0 {
        capability
    } else {
        0
    }
}

/// `capability` where `attributes` has the bit `attribute` and the memory is
/// neither system nor more-reliable memory, else nothing.
pub open spec fn device_capability_if(memory_type: GcdMemoryType, attributes: u64, attribute: u64, capability: u64) -> u64 {
    if memory_type != GcdMemoryType::SystemMemory && memory_type != GcdMemoryType::MoreReliable {
        capability_if(attributes, attribute, capability)
    } else {
        0
    }
}

/// What `get_capabilities` gives, bit by bit: each resource attribute gives
/// its UEFI memory capability. UNCACHEABLE (0x400) gives UC (0x1),
/// UNCACHED_EXPORTED (0x20000) gives UCE (0x10), WRITE_COMBINEABLE (0x800)
/// gives WC (0x2), WRITE_THROUGH_CACHEABLE (0x1000) gives WT (0x4),
/// WRITE_BACK_CACHEABLE (0x2000) gives WB (0x8), READ_PROTECTABLE (0x100000)
/// gives RP (0x2000), WRITE_PROTECTABLE (0x200000) gives WP (0x1000),
/// EXECUTION_PROTECTABLE (0x400000) gives XP (0x4000),
/// READ_ONLY_PROTECTABLE (0x80000) gives RO (0x20000), PERSISTABLE
/// (0x1000000) gives NV (0x8000) and MORE_RELIABLE (0x2000000) gives
/// MORE_RELIABLE (0x10000); PRESENT (0x1), INITIALIZED (0x2) and TESTED (0x4)
/// give the capabilities 0x0100000000000000, 0x0200000000000000 and
/// 0x0400000000000000, for memory other than system and more-reliable memory only.
pub proof fn lemma_capabilities_by_attribute(memory_type: GcdMemoryType, attributes: u64)
    ensures
        capabilities_upto(ATTRIBUTE_CONVERSION_COUNT as int, memory_type, attributes) == (capability_if(
            attributes,
            0x400,
            0x1,
        ) | capability_if(attributes, 0x20000, 0x10) | capability_if(attributes, 0x800, 0x2) | capability_if(
            attributes,
            0x1000,
            0x4,
        ) | capability_if(attributes, 0x2000, 0x8) | capability_if(attributes, 0x100000, 0x2000) | capability_if(
            attributes,
            0x200000,
            0x1000,
        ) | capability_if(attributes, 0x400000, 0x4000) | capability_if(attributes, 0x80000, 0x20000)
            | device_capability_if(memory_type, attributes, 0x1, 0x0100000000000000) | device_capability_if(
            memory_type,
            attributes,
            0x2,
            0x0200000000000000,
        ) | device_capability_if(memory_type, attributes, 0x4, 0x0400000000000000) | capability_if(
            attributes,
            0x1000000,
            0x8000,
        ) | capability_if(attributes, 0x2000000, 0x10000)),
{
    reveal_with_fuel(capabilities_upto, 15);
    let c0 = capability_if(attributes, 0x400, 0x1);
    assert(capability_from(0, memory_type, attributes) == c0);
    assert((0u64 | c0) == c0) by (bit_vector);
}

/// The Global Coherency Domain memory services.
#[derive(Debug)]
pub struct GCD {
    /// End of the processor's address space (0 until initialized).
    pub maximum_address: usize,
    /// The memory map, once the first system memory has been added.
    pub memory_blocks: Option<Vec<MemoryBlock>>,
}

/// `addr` rounded down to a multiple of `2^alignment`.
pub open spec fn align_down(addr: usize, alignment: u32) -> usize {
    addr & (usize::MAX << alignment)
}

/// `addr` rounded up to a multiple of `2^alignment`.
pub open spec fn align_up_to(addr: usize, alignment: u32) -> int {
    if align_down(addr, alignment) < addr {
        align_down(addr, alignment) + (1usize << alignment)
    } else {
        addr as int
    }
}

/// Largest end of address space that an address width below `usize::BITS` gives.
pub open spec fn max_address_limit() -> int {
    usize::MAX / 2 + 1
}

/// The pieces of a split block in address order, the first being the block itself.
pub open spec fn split_pieces(first: MemoryBlock, split: MemoryBlockSplit) -> Seq<MemoryBlock> {
    match split {
        MemoryBlockSplit::Same => seq![first],
        MemoryBlockSplit::Before(next) => seq![first, next],
        MemoryBlockSplit::After(next) => seq![first, next],
        MemoryBlockSplit::Middle(next, last) => seq![first, next, last],
    }
}

/// Position, among the pieces of a split, of the piece that holds the range.
pub open spec fn split_mid(split: MemoryBlockSplit) -> int {
    match split {
        MemoryBlockSplit::Same => 0,
        MemoryBlockSplit::Before(_) => 0,
        MemoryBlockSplit::After(_) => 1,
        MemoryBlockSplit::Middle(_, _) => 1,
    }
}

/// How a scan for a place to allocate ends.
#[derive(PartialEq, Eq, Structural)]
pub enum ScanResult {
    /// The range at this address, inside the block at this index, is allocated.
    Found(int, int),
    /// The block list has no room for the split.
    Full,
    /// No suitable place.
    NotFound,
}

/// Result of the bottom-up search from block `i` on.
pub open spec fn bottom_up_scan(
    s: Seq<MemoryBlock>,
    i: int,
    memory_type: GcdMemoryType,
    alignment: u32,
    len: usize,
    max_address: usize,
    t: MemoryStateTransition,
) -> ScanResult
    decreases s.len() - i,
{
    if i < 0 || i >= s.len() {
        ScanResult::NotFound
    } else {
        let mb = s[i];
        if mb.spec_len() < len {
            bottom_up_scan(s, i + 1, memory_type, alignment, len, max_address, t)
        } else {
            let addr = align_up_to(mb.spec_start() as usize, alignment);
            if addr + len > max_address {
                ScanResult::NotFound
            } else if mb.desc().memory_type != memory_type {
                bottom_up_scan(s, i + 1, memory_type, alignment, len, max_address, t)
            } else {
                match outcome_at(s, i, addr, len as int, t) {
                    RangeOutcome::Done => ScanResult::Found(i, addr),
                    RangeOutcome::Full => ScanResult::Full,
                    _ => bottom_up_scan(s, i + 1, memory_type, alignment, len, max_address, t),
                }
            }
        }
    }
}

/// Result of the top-down search from block `i` down.
pub open spec fn top_down_scan(
    s: Seq<MemoryBlock>,
    i: int,
    memory_type: GcdMemoryType,
    alignment: u32,
    len: usize,
    min_address: usize,
    t: MemoryStateTransition,
) -> ScanResult
    decreases i + 1,
{
    if i < 0 || i >= s.len() {
        ScanResult::NotFound
    } else {
        let mb = s[i];
        if mb.spec_len() < len {
            top_down_scan(s, i - 1, memory_type, alignment, len, min_address, t)
        } else if mb.spec_end() - len < mb.spec_start() {
            top_down_scan(s, i - 1, memory_type, alignment, len, min_address, t)
        } else {
            let addr = align_down((mb.spec_end() - len) as usize, alignment);
            if addr < min_address {
                ScanResult::NotFound
            } else if mb.desc().memory_type != memory_type {
                top_down_scan(s, i - 1, memory_type, alignment, len, min_address, t)
            } else {
                match outcome_at(s, i, addr as int, len as int, t) {
                    RangeOutcome::Done => ScanResult::Found(i, addr as int),
                    RangeOutcome::Full => ScanResult::Full,
                    _ => top_down_scan(s, i - 1, memory_type, alignment, len, min_address, t),
                }
            }
        }
    }
}

/// The error that applying `t` to the range inside the block holding `base`
/// ends in (`outside` when the range leaves the block, `refused` when the
/// block refuses), or `None` when the transition is applied.
pub open spec fn range_error(
    s: Seq<MemoryBlock>,
    base: int,
    len: int,
    t: MemoryStateTransition,
    outside: Error,
    refused: Error,
) -> Option<Error> {
    match outcome_at(s, block_index_of(s, base), base, len, t) {
        RangeOutcome::OutsideBlock => Some(outside),
        RangeOutcome::Refused => Some(refused),
        RangeOutcome::Full => Some(Error::OutOfResources),
        RangeOutcome::Done => None,
    }
}

/// The state of the memory right after the first system memory was added:
/// the block list's own range allocated to handle 1, the rest of the added
/// range free system memory, everything else non-existent.
pub open spec fn first_add_state(base: int, len: int, capabilities: u64, a: int) -> MemoryBlock {
    let d = MemorySpaceDescriptor {
        base_address: 0,
        length: 0,
        capabilities: 0,
        attributes: 0,
        memory_type: GcdMemoryType::NonExistent,
        image_handle: 0,
        device_handle: 0,
    };
    if base <= a < base + MEMORY_BLOCK_SLICE_SIZE {
        MemoryBlock::Allocated(
            MemorySpaceDescriptor { memory_type: GcdMemoryType::SystemMemory, capabilities, image_handle: 1, ..d },
        )
    } else if base + MEMORY_BLOCK_SLICE_SIZE <= a < base + len {
        MemoryBlock::Unallocated(MemorySpaceDescriptor { memory_type: GcdMemoryType::SystemMemory, capabilities, ..d })
    } else {
        MemoryBlock::Unallocated(d)
    }
}

pub(crate) proof fn lemma_align(x: usize, a: u32)
    requires
        a < usize::BITS,
    ensures
        align_down(x, a) <= x,
        x - align_down(x, a) < (1usize << a),
        (1usize << a) <= usize::MAX / 2 + 1,
        a == 0 ==> align_down(x, a) == x,
{
    let m: usize = usize::MAX;
    assert(m <= !0usize) by (bit_vector);
    assert(m == !0usize ==> (m >> 1u32) == m / 2) by (bit_vector);
    assert(a < usize::BITS ==> (x & (!0usize << a)) <= x && x - (x & (!0usize << a)) < (1usize << a)
        && (1usize << a) <= (!0usize >> 1u32) + 1) by (bit_vector);
    assert(a == 0 ==> (x & (!0usize << a)) == x) by (bit_vector);
}

/// Rounding down, and rounding up where the result fits, give multiples of
/// `2^a`: numbers whose lowest `a` bits are clear.
pub(crate) proof fn lemma_aligned(x: usize, a: u32)
    requires
        a < usize::BITS,
    ensures
        align_down(x, a) >> a << a == align_down(x, a),
        align_up_to(x, a) <= usize::MAX ==> (align_up_to(x, a) as usize) >> a << a == align_up_to(x, a),
{
    let m: usize = usize::MAX;
    assert(m <= !0usize) by (bit_vector);
    assert(a < usize::BITS ==> (x & (!0usize << a)) >> a << a == (x & (!0usize << a))) by (bit_vector);
    assert(a < usize::BITS && (x & (!0usize << a)) + (1usize << a) <= !0usize ==> (((x & (!0usize << a)) + (
    1usize << a)) as usize) >> a << a == (x & (!0usize << a)) + (1usize << a)) by (bit_vector);
    lemma_align(x, a);
}

/// A multiple of `2^a` at or above `x` is at or above `x` rounded up, and
/// one at or below `x` is at or below `x` rounded down.
pub(crate) proof fn lemma_aligned_bounds(x: usize, p: usize, a: u32)
    requires
        a < usize::BITS,
        p >> a << a == p,
    ensures
        x <= p ==> align_up_to(x, a) <= p,
        p <= x ==> p <= align_down(x, a),
{
    let m: usize = usize::MAX;
    assert(m <= !0usize) by (bit_vector);
    assert(a < usize::BITS && p >> a << a == p && p <= x ==> p <= (x & (!0usize << a))) by (bit_vector);
    assert(a < usize::BITS && p >> a << a == p && x <= p && (x & (!0usize << a)) < x ==> (x & (!0usize << a)) + (
    1usize << a) <= p) by (bit_vector);
}

/// Total number of elements the vector can hold without reallocating; at least its length.
#[verifier::external_body]
pub(crate) fn vec_capacity<T>(v: &Vec<T>) -> (r: usize)
    ensures
        r >= v.len(),
{
    v.capacity()
}

/// What `allocate` with the bottom-up strategy does to the GCD and returns.
pub open spec fn bottom_up_result(
    old: &GCD,
    new: &GCD,
    r: Result<usize, Error>,
    memory_type: GcdMemoryType,
    alignment: u32,
    len: usize,
    image_handle: usize,
    device_handle: Option<usize>,
    max_address: usize,
) -> bool {
    let t = MemoryStateTransition::Allocate(image_handle, device_handle);
    if len == 0 {
        r == Err::<usize, Error>(Error::InvalidParameter) && new.same_map(old)
    } else if old.memory_blocks is None {
        r == Err::<usize, Error>(Error::NotFound) && new.same_map(old)
    } else {
        match bottom_up_scan(old.blocks(), 0, memory_type, alignment, len, max_address, t) {
            ScanResult::Found(i, addr) => r == Ok::<usize, Error>(addr as usize) && new.updated(
                old,
                i,
                addr,
                len as int,
                t,
            ),
            ScanResult::Full => r == Err::<usize, Error>(Error::OutOfResources) && new.same_map(old),
            ScanResult::NotFound => r == Err::<usize, Error>(Error::NotFound) && new.same_map(old),
        }
    }
}

/// What `allocate` with the top-down strategy does to the GCD and returns.
pub open spec fn top_down_result(
    old: &GCD,
    new: &GCD,
    r: Result<usize, Error>,
    memory_type: GcdMemoryType,
    alignment: u32,
    len: usize,
    image_handle: usize,
    device_handle: Option<usize>,
    min_address: usize,
) -> bool {
    let t = MemoryStateTransition::Allocate(image_handle, device_handle);
    if len == 0 {
        r == Err::<usize, Error>(Error::InvalidParameter) && new.same_map(old)
    } else if old.memory_blocks is None {
        r == Err::<usize, Error>(Error::NotFound) && new.same_map(old)
    } else {
        match top_down_scan(old.blocks(), old.blocks().len() - 1, memory_type, alignment, len, min_address, t) {
            ScanResult::Found(i, addr) => r == Ok::<usize, Error>(addr as usize) && new.updated(
                old,
                i,
                addr,
                len as int,
                t,
            ),
            ScanResult::Full => r == Err::<usize, Error>(Error::OutOfResources) && new.same_map(old),
            ScanResult::NotFound => r == Err::<usize, Error>(Error::NotFound) && new.same_map(old),
        }
    }
}

/// What `allocate` at a given address does to the GCD and returns.
pub open spec fn address_result(
    old: &GCD,
    new: &GCD,
    r: Result<usize, Error>,
    memory_type: GcdMemoryType,
    alignment: u32,
    len: usize,
    image_handle: usize,
    device_handle: Option<usize>,
    address: usize,
) -> bool {
    let t = MemoryStateTransition::Allocate(image_handle, device_handle);
    let s = old.blocks();
    let i = block_index_of(s, address as int);
    if len == 0 {
        r == Err::<usize, Error>(Error::InvalidParameter) && new.same_map(old)
    } else if old.memory_blocks is None {
        r == Err::<usize, Error>(Error::NotFound) && new.same_map(old)
    } else if s[i].desc().memory_type != memory_type || address != align_down(address, alignment) {
        r == Err::<usize, Error>(Error::NotFound) && new.same_map(old)
    } else {
        match range_error(s, address as int, len as int, t, Error::NotFound, Error::NotFound) {
            Some(e) => r == Err::<usize, Error>(e) && new.same_map(old),
            None => r == Ok::<usize, Error>(address) && new.updated(old, i, address as int, len as int, t),
        }
    }
}

/// What a service that applies `t` to `len` bytes at `base` does to the GCD
/// and returns; `outside` and `refused` are its errors for a range that
/// leaves its block and for a block that refuses the transition.
pub open spec fn range_service_result(
    old: &GCD,
    new: &GCD,
    r: Result<(), Error>,
    base: usize,
    len: usize,
    t: MemoryStateTransition,
    outside: Error,
    refused: Error,
) -> bool {
    let s = old.blocks();
    if old.maximum_address == 0 {
        r == Err::<(), Error>(Error::NotInitialized) && new.same_map(old)
    } else if len == 0 {
        r == Err::<(), Error>(Error::InvalidParameter) && new.same_map(old)
    } else if base + len > old.maximum_address {
        r == Err::<(), Error>(Error::Unsupported) && new.same_map(old)
    } else if old.memory_blocks is None {
        r == Err::<(), Error>(Error::NotFound) && new.same_map(old)
    } else {
        match range_error(s, base as int, len as int, t, outside, refused) {
            Some(e) => r == Err::<(), Error>(e) && new.same_map(old),
            None => r is Ok && new.updated(old, block_index_of(s, base as int), base as int, len as int, t),
        }
    }
}

/// What adding memory space does: the result and the map afterwards; on
/// success, the index of a block that holds the range.
pub open spec fn add_result(
    g0: &GCD,
    g1: &GCD,
    r: Result<usize, Error>,
    memory_type: GcdMemoryType,
    base_address: usize,
    len: usize,
    capabilities: u64,
) -> bool {
    let s = g0.blocks();
    let max = g0.maximum_address;
    let t = MemoryStateTransition::Add(memory_type, capabilities);
    if max == 0 {
        r == Err::<usize, Error>(Error::NotInitialized) && g1.same_map(g0)
    } else if len == 0 {
        r == Err::<usize, Error>(Error::InvalidParameter) && g1.same_map(g0)
    } else if base_address + len > max {
        r == Err::<usize, Error>(Error::Unsupported) && g1.same_map(g0)
    } else if g0.memory_blocks is None {
        if memory_type != GcdMemoryType::SystemMemory || len < MEMORY_BLOCK_SLICE_SIZE {
            r == Err::<usize, Error>(Error::OutOfResources) && g1.same_map(g0)
        } else {
            &&& r == Ok::<usize, Error>(base_address)
            &&& g1.memory_blocks is Some
            &&& g1.maximum_address == max
            &&& forall|a: int|
                0 <= a < max ==> #[trigger] g1.state_at(a) == first_add_state(
                    base_address as int,
                    len as int,
                    capabilities,
                    a,
                )
        }
    } else if s[block_index_of(s, base_address as int)].desc().memory_type != GcdMemoryType::NonExistent {
        r == Err::<usize, Error>(Error::AccessDenied) && g1.same_map(g0)
    } else {
        match range_error(
            s,
            base_address as int,
            len as int,
            t,
            Error::AccessDenied,
            Error::InvalidParameter,
        ) {
            Some(e) => r == Err::<usize, Error>(e) && g1.same_map(g0),
            None => r matches Ok(f) && g1.updated(
                g0,
                block_index_of(s, base_address as int),
                base_address as int,
                len as int,
                t,
            ) && f < g1.blocks().len() && range_inside(
                g1.blocks()[f as int],
                base_address as int,
                len as int,
            ),
        }
    }
}

/// What allocating memory does: the result and the map afterwards, by strategy.
pub open spec fn allocation_result(
    old: &GCD,
    new: &GCD,
    r: Result<usize, Error>,
    allocate_type: AllocateType,
    memory_type: GcdMemoryType,
    alignment: u32,
    len: usize,
    image_handle: usize,
    device_handle: Option<usize>,
) -> bool {
    if old.maximum_address == 0 {
        r == Err::<usize, Error>(Error::NotInitialized) && new.same_map(old)
    } else if len == 0 || image_handle == 0 || memory_type == GcdMemoryType::Unaccepted {
        r == Err::<usize, Error>(Error::InvalidParameter) && new.same_map(old)
    } else {
        match allocate_type {
            AllocateType::BottomUp(max_address) => bottom_up_result(
                old,
                new,
                r,
                memory_type,
                alignment,
                len,
                image_handle,
                device_handle,
                match max_address {
                    Some(m) => m,
                    None => usize::MAX,
                },
            ),
            AllocateType::TopDown(min_address) => top_down_result(
                old,
                new,
                r,
                memory_type,
                alignment,
                len,
                image_handle,
                device_handle,
                match min_address {
                    Some(m) => m,
                    None => 0,
                },
            ),
            AllocateType::Address(address) => if address + len > old.maximum_address {
                r == Err::<usize, Error>(Error::Unsupported) && new.same_map(old)
            } else {
                address_result(
                    old,
                    new,
                    r,
                    memory_type,
                    alignment,
                    len,
                    image_handle,
                    device_handle,
                    address,
                )
            },
        }
    }
}


impl GCD {
    /// Two GCDs hold the same address space and the same memory map.
    pub open spec fn same_map(&self, other: &Self) -> bool {
        &&& self.maximum_address == other.maximum_address
        &&& self.blocks() == other.blocks()
        &&& (self.memory_blocks is Some <==> other.memory_blocks is Some)
    }

    /// `self` is `old` with `t` applied to `len` bytes at `base`, inside block `i`.
    pub open spec fn updated(&self, old: &Self, i: int, base: int, len: int, t: MemoryStateTransition) -> bool {
        &&& self.maximum_address == old.maximum_address
        &&& self.memory_blocks is Some
        &&& transition_applied(old.blocks(), self.blocks(), i, base, len, t)
    }

    /// The memory map as a sequence of blocks (empty before it exists).
    pub open spec fn blocks(&self) -> Seq<MemoryBlock> {
        match &self.memory_blocks {
            Some(v) => v@,
            None => Seq::empty(),
        }
    }

    /// The invariant: the address space is no larger than half the address
    /// range, and the memory map, once it exists, covers exactly the address
    /// space with no mergeable neighbours.
    pub open spec fn wf(&self) -> bool {
        &&& self.maximum_address <= max_address_limit()
        &&& self.memory_blocks matches Some(v) ==> map_wf(v@) && map_end(v@) == self.maximum_address
    }

    /// The state of the memory at address `a`.
    pub open spec fn state_at(&self, a: int) -> MemoryBlock {
        state_at(self.blocks(), a)
    }

    /// A GCD for an address space of `processor_address_bits` bits, with no memory yet.
    pub fn new(processor_address_bits: u32) -> (r: Self)
        requires
            0 < processor_address_bits < usize::BITS,
        ensures
            r.wf(),
            r.maximum_address == 1usize << processor_address_bits,
            r.memory_blocks is None,
    {
        proof {
            lemma_align(0, processor_address_bits);
        }
        GCD { memory_blocks: None, maximum_address: 1usize << processor_address_bits }
    }

    /// Sets the address space to `processor_address_bits` bits.
    pub fn init(&mut self, processor_address_bits: u32)
        requires
            old(self).memory_blocks is None,
            processor_address_bits < usize::BITS,
        ensures
            final(self).wf(),
            final(self).maximum_address == 1usize << processor_address_bits,
            final(self).memory_blocks is None,
    {
        proof {
            lemma_align(0, processor_address_bits);
        }
        self.maximum_address = 1usize << processor_address_bits;
    }

    /// Index of the block that covers `address`.
    fn find_block(memory_blocks: &Vec<MemoryBlock>, address: usize) -> (r: usize)
        requires
            map_wf(memory_blocks@),
            address < map_end(memory_blocks@),
        ensures
            r == block_index_of(memory_blocks@, address as int),
            r < memory_blocks@.len(),
            covers(memory_blocks@[r as int], address as int),
    {
        proof {
            lemma_covered(memory_blocks@, address as int);
        }
        let ghost target = block_index_of(memory_blocks@, address as int);
        let mut i: usize = 0;
        while i < memory_blocks.len()
            invariant
                0 <= i <= memory_blocks@.len(),
                map_wf(memory_blocks@),
                0 <= target < memory_blocks@.len(),
                covers(memory_blocks@[target], address as int),
                target == block_index_of(memory_blocks@, address as int),
                i <= target,
            decreases memory_blocks@.len() - i,
        {
            proof {
                lemma_block_below_end(memory_blocks@, i as int);
            }
            let b = memory_blocks[i];
            if b.start() <= address && address < b.end() {
                proof {
                    lemma_index_unique(memory_blocks@, i as int, address as int);
                }
                return i;
            }
            assert(i != target);
            i = i + 1;
        }
        i
    }

    /// Adds reserved memory, system memory or memory-mapped I/O to the
    /// address space. The first call, which creates the memory map, must add
    /// at least [`MEMORY_BLOCK_SLICE_SIZE`] bytes of system memory; the start
    /// of that range is allocated to hold the block list and its address is
    /// returned. Later calls return the index of the block that holds the range.
    pub fn add_memory_space(
        &mut self,
        memory_type: GcdMemoryType,
        base_address: usize,
        len: usize,
        capabilities: u64,
    ) -> (r: Result<usize, Error>)
        requires
            old(self).wf(),
            base_address + len <= usize::MAX,
        ensures
            final(self).wf(),
            add_result(old(self), final(self), r, memory_type, base_address, len, capabilities),
    {
        if self.maximum_address == 0 {
            return Err(Error::NotInitialized);
        }
        if len == 0 {
            return Err(Error::InvalidParameter);
        }
        if base_address + len > self.maximum_address {
            return Err(Error::Unsupported);
        }
        let mut memory_blocks = match self.memory_blocks.take() {
            Some(v) => v,
            None => return self.init_memory_blocks(memory_type, base_address, len, capabilities),
        };
        let idx = Self::find_block(&memory_blocks, base_address);
        if memory_blocks[idx].as_ref().memory_type != GcdMemoryType::NonExistent {
            self.memory_blocks = Some(memory_blocks);
            return Err(Error::AccessDenied);
        }
        let res = Self::split_state_transition_at_idx(
            &mut memory_blocks,
            idx,
            base_address,
            len,
            MemoryStateTransition::Add(memory_type, capabilities),
        );
        self.memory_blocks = Some(memory_blocks);
        match res {
            Ok(idx) => Ok(idx),
            Err(InternalError::MemoryBlockErr(MemoryBlockError::BlockOutsideRange)) => Err(Error::AccessDenied),
            Err(InternalError::MemoryBlockErr(MemoryBlockError::InvalidStateTransition)) => Err(
                Error::InvalidParameter,
            ),
            Err(InternalError::NotEnoughMemory) => Err(Error::OutOfResources),
            Err(InternalError::IoBlockErr(_)) => {
                assert(false);
                Err(Error::OutOfResources)
            },
        }
    }

    /// Creates the memory map with the first system memory added: the map
    /// starts as one block of non-existent memory, the range is added, and the
    /// start of the range is allocated for the block list.
    fn init_memory_blocks(&mut self, memory_type: GcdMemoryType, base_address: usize, len: usize, capabilities: u64) -> (r:
        Result<usize, Error>)
        requires
            old(self).wf(),
            old(self).memory_blocks is None,
            old(self).maximum_address > 0,
            len > 0,
            base_address + len <= old(self).maximum_address,
        ensures
            final(self).wf(),
            if memory_type != GcdMemoryType::SystemMemory || len < MEMORY_BLOCK_SLICE_SIZE {
                r == Err::<usize, Error>(Error::OutOfResources) && final(self).same_map(old(self))
            } else {
                &&& r == Ok::<usize, Error>(base_address)
                &&& final(self).memory_blocks is Some
                &&& final(self).maximum_address == old(self).maximum_address
                &&& forall|a: int|
                    0 <= a < old(self).maximum_address ==> #[trigger] final(self).state_at(a) == first_add_state(
                        base_address as int,
                        len as int,
                        capabilities,
                        a,
                    )
            },
    {
        if self.maximum_address == 0 {
            return Err(Error::NotInitialized);
        }
        if !(memory_type == GcdMemoryType::SystemMemory && len >= MEMORY_BLOCK_SLICE_SIZE) {
            return Err(Error::OutOfResources);
        }
        let d = MemorySpaceDescriptor {
            memory_type: GcdMemoryType::NonExistent,
            base_address: 0,
            length: self.maximum_address as u64,
            ..MemorySpaceDescriptor::empty()
        };
        let mut memory_blocks: Vec<MemoryBlock> = Vec::new();
        memory_blocks.push(MemoryBlock::Unallocated(d));
        let ghost s0 = memory_blocks@;
        let t = MemoryStateTransition::Add(memory_type, capabilities);
        assert(map_wf(s0));
        assert(outcome_at(s0, 0, base_address as int, len as int, t) == RangeOutcome::Done);
        let res = Self::split_state_transition_at_idx(&mut memory_blocks, 0, base_address, len, t);
        let f = match res {
            Ok(f) => f,
            Err(_) => {
                assert(false);
                0
            },
        };
        let ghost s1 = memory_blocks@;
        proof {
            lemma_index_unique(s1, f as int, base_address as int);
            assert(state_at(s1, base_address as int) == applied_state(s0, 0, base_address as int, len as int, t, base_address as int));
            assert(s1[f as int].state() == s0[0].transitioned(t)->0.state());
        }
        self.memory_blocks = Some(memory_blocks);
        let at = Self::allocate_address(
            self,
            GcdMemoryType::SystemMemory,
            0,
            MEMORY_BLOCK_SLICE_SIZE,
            1,
            None,
            base_address,
        );
        proof {
            lemma_align(base_address, 0);
            let ta = MemoryStateTransition::Allocate(1, None);
            assert(range_inside(s1[f as int], base_address as int, MEMORY_BLOCK_SLICE_SIZE as int));
            assert(s1[f as int] is Unallocated);
            assert(s1[f as int].desc().memory_type == GcdMemoryType::SystemMemory);
            assert(s1.len() <= 3);
            assert(outcome_at(s1, f as int, base_address as int, MEMORY_BLOCK_SLICE_SIZE as int, ta)
                == RangeOutcome::Done);
            assert forall|a: int| 0 <= a < old(self).maximum_address implies #[trigger] self.state_at(a)
                == first_add_state(base_address as int, len as int, capabilities, a) by {
                assert(self.state_at(a) == applied_state(s1, f as int, base_address as int, MEMORY_BLOCK_SLICE_SIZE as int, ta, a));
                if !(base_address <= a < base_address + MEMORY_BLOCK_SLICE_SIZE) {
                    assert(state_at(s1, a) == applied_state(s0, 0, base_address as int, len as int, t, a));
                    if !(base_address <= a < base_address + len) {
                        lemma_index_unique(s0, 0, a);
                    }
                }
            }
        }
        at
    }

    /// Removes reserved memory, system memory or memory-mapped I/O from the address space.
    pub fn remove_memory_space(&mut self, base_address: usize, len: usize) -> (r: Result<(), Error>)
        requires
            old(self).wf(),
            base_address + len <= usize::MAX,
        ensures
            final(self).wf(),
            ({
                let s = old(self).blocks();
                let refused = if s[block_index_of(s, base_address as int)] is Allocated {
                    Error::AccessDenied
                } else {
                    Error::NotFound
                };
                range_service_result(
                    old(self),
                    final(self),
                    r,
                    base_address,
                    len,
                    MemoryStateTransition::Remove,
                    Error::NotFound,
                    refused,
                )
            }),
    {
        if self.maximum_address == 0 {
            return Err(Error::NotInitialized);
        }
        if len == 0 {
            return Err(Error::InvalidParameter);
        }
        if base_address + len > self.maximum_address {
            return Err(Error::Unsupported);
        }
        let mut memory_blocks = match self.memory_blocks.take() {
            Some(v) => v,
            None => return Err(Error::NotFound),
        };
        let idx = Self::find_block(&memory_blocks, base_address);
        let res = Self::split_state_transition_at_idx(
            &mut memory_blocks,
            idx,
            base_address,
            len,
            MemoryStateTransition::Remove,
        );
        let r = match res {
            Ok(_) => Ok(()),
            Err(InternalError::MemoryBlockErr(MemoryBlockError::BlockOutsideRange)) => Err(Error::NotFound),
            Err(InternalError::MemoryBlockErr(MemoryBlockError::InvalidStateTransition)) => {
                match memory_blocks[idx] {
                    MemoryBlock::Unallocated(_) => Err(Error::NotFound),
                    MemoryBlock::Allocated(_) => Err(Error::AccessDenied),
                }
            },
            Err(InternalError::NotEnoughMemory) => Err(Error::OutOfResources),
            Err(InternalError::IoBlockErr(_)) => {
                assert(false);
                Err(Error::OutOfResources)
            },
        };
        self.memory_blocks = Some(memory_blocks);
        r
    }

    /// Allocates memory of `memory_type` from the address space: `len` bytes
    /// aligned to `2^alignment`, placed as `allocate_type` says, owned by
    /// `image_handle` (and `device_handle`). Returns the address.
    pub fn allocate_memory_space(
        &mut self,
        allocate_type: AllocateType,
        memory_type: GcdMemoryType,
        alignment: u32,
        len: usize,
        image_handle: usize,
        device_handle: Option<usize>,
    ) -> (r: Result<usize, Error>)
        requires
            old(self).wf(),
            alignment < usize::BITS,
            allocate_type matches AllocateType::Address(address) ==> address + len <= usize::MAX,
        ensures
            final(self).wf(),
            allocation_result(
                old(self),
                final(self),
                r,
                allocate_type,
                memory_type,
                alignment,
                len,
                image_handle,
                device_handle,
            ),
    {
        if self.maximum_address == 0 {
            return Err(Error::NotInitialized);
        }
        if !(len > 0 && image_handle > 0 && memory_type != GcdMemoryType::Unaccepted) {
            return Err(Error::InvalidParameter);
        }
        match allocate_type {
            AllocateType::BottomUp(max_address) => {
                let m = match max_address {
                    Some(m) => m,
                    None => usize::MAX,
                };
                self.allocate_bottom_up(memory_type, alignment, len, image_handle, device_handle, m)
            },
            AllocateType::TopDown(min_address) => {
                let m = match min_address {
                    Some(m) => m,
                    None => 0,
                };
                self.allocate_top_down(memory_type, alignment, len, image_handle, device_handle, m)
            },
            AllocateType::Address(address) => {
                if address + len > self.maximum_address {
                    return Err(Error::Unsupported);
                }
                self.allocate_address(memory_type, alignment, len, image_handle, device_handle, address)
            },
        }
    }

    fn allocate_bottom_up(
        &mut self,
        memory_type: GcdMemoryType,
        alignment: u32,
        len: usize,
        image_handle: usize,
        device_handle: Option<usize>,
        max_address: usize,
    ) -> (r: Result<usize, Error>)
        requires
            old(self).wf(),
            alignment < usize::BITS,
        ensures
            final(self).wf(),
            bottom_up_result(
                old(self),
                final(self),
                r,
                memory_type,
                alignment,
                len,
                image_handle,
                device_handle,
                max_address,
            ),
    {
        if len == 0 {
            return Err(Error::InvalidParameter);
        }
        let mut memory_blocks = match self.memory_blocks.take() {
            Some(v) => v,
            None => return Err(Error::NotFound),
        };
        let ghost s = memory_blocks@;
        let t = MemoryStateTransition::Allocate(image_handle, device_handle);
        let mut i: usize = 0;
        while i < memory_blocks.len()
            invariant
                memory_blocks@ == s,
                map_wf(s),
                map_end(s) == old(self).maximum_address,
                old(self).wf(),
                old(self).blocks() == s,
                old(self).memory_blocks is Some,
                self.memory_blocks is None,
                self.maximum_address == old(self).maximum_address,
                len > 0,
                alignment < usize::BITS,
                t == MemoryStateTransition::Allocate(image_handle, device_handle),
                0 <= i <= s.len(),
                bottom_up_scan(s, 0, memory_type, alignment, len, max_address, t) == bottom_up_scan(
                    s,
                    i as int,
                    memory_type,
                    alignment,
                    len,
                    max_address,
                    t,
                ),
            decreases s.len() - i,
        {
            proof {
                lemma_block_below_end(s, i as int);
            }
            let mb = memory_blocks[i];
            if mb.len() < len {
                i = i + 1;
                continue;
            }
            let address = mb.start();
            proof {
                lemma_align(address, alignment);
            }
            let mut addr = address & (usize::MAX << alignment);
            if addr < address {
                addr = addr + (1usize << alignment);
            }
            if addr + len > max_address {
                self.memory_blocks = Some(memory_blocks);
                return Err(Error::NotFound);
            }
            if mb.as_ref().memory_type != memory_type {
                i = i + 1;
                continue;
            }
            match Self::split_state_transition_at_idx(&mut memory_blocks, i, addr, len, t) {
                Ok(_) => {
                    self.memory_blocks = Some(memory_blocks);
                    return Ok(addr);
                },
                Err(InternalError::MemoryBlockErr(_)) => {
                    i = i + 1;
                    continue;
                },
                Err(InternalError::NotEnoughMemory) => {
                    self.memory_blocks = Some(memory_blocks);
                    return Err(Error::OutOfResources);
                },
                Err(InternalError::IoBlockErr(_)) => {
                    assert(false);
                    self.memory_blocks = Some(memory_blocks);
                    return Err(Error::OutOfResources);
                },
            }
        }
        self.memory_blocks = Some(memory_blocks);
        Err(Error::NotFound)
    }

    fn allocate_top_down(
        &mut self,
        memory_type: GcdMemoryType,
        alignment: u32,
        len: usize,
        image_handle: usize,
        device_handle: Option<usize>,
        min_address: usize,
    ) -> (r: Result<usize, Error>)
        requires
            old(self).wf(),
            alignment < usize::BITS,
        ensures
            final(self).wf(),
            top_down_result(
                old(self),
                final(self),
                r,
                memory_type,
                alignment,
                len,
                image_handle,
                device_handle,
                min_address,
            ),
    {
        if len == 0 {
            return Err(Error::InvalidParameter);
        }
        let mut memory_blocks = match self.memory_blocks.take() {
            Some(v) => v,
            None => return Err(Error::NotFound),
        };
        let ghost s = memory_blocks@;
        let t = MemoryStateTransition::Allocate(image_handle, device_handle);
        let mut i: usize = memory_blocks.len();
        while i > 0
            invariant
                memory_blocks@ == s,
                map_wf(s),
                map_end(s) == old(self).maximum_address,
                old(self).wf(),
                old(self).blocks() == s,
                old(self).memory_blocks is Some,
                self.memory_blocks is None,
                self.maximum_address == old(self).maximum_address,
                len > 0,
                alignment < usize::BITS,
                t == MemoryStateTransition::Allocate(image_handle, device_handle),
                0 <= i <= s.len(),
                top_down_scan(s, s.len() - 1, memory_type, alignment, len, min_address, t) == top_down_scan(
                    s,
                    i - 1,
                    memory_type,
                    alignment,
                    len,
                    min_address,
                    t,
                ),
            decreases i,
        {
            let j = i - 1;
            proof {
                lemma_block_below_end(s, j as int);
            }
            let mb = memory_blocks[j];
            if mb.len() < len {
                i = j;
                continue;
            }
            let mut addr = mb.end() - len;
            if addr < mb.start() {
                i = j;
                continue;
            }
            proof {
                lemma_align(addr, alignment);
            }
            addr = addr & (usize::MAX << alignment);
            if addr < min_address {
                self.memory_blocks = Some(memory_blocks);
                return Err(Error::NotFound);
            }
            if mb.as_ref().memory_type != memory_type {
                i = j;
                continue;
            }
            match Self::split_state_transition_at_idx(&mut memory_blocks, j, addr, len, t) {
                Ok(_) => {
                    self.memory_blocks = Some(memory_blocks);
                    return Ok(addr);
                },
                Err(InternalError::MemoryBlockErr(_)) => {
                    i = j;
                    continue;
                },
                Err(InternalError::NotEnoughMemory) => {
                    self.memory_blocks = Some(memory_blocks);
                    return Err(Error::OutOfResources);
                },
                Err(InternalError::IoBlockErr(_)) => {
                    assert(false);
                    self.memory_blocks = Some(memory_blocks);
                    return Err(Error::OutOfResources);
                },
            }
        }
        self.memory_blocks = Some(memory_blocks);
        Err(Error::NotFound)
    }

    fn allocate_address(
        &mut self,
        memory_type: GcdMemoryType,
        alignment: u32,
        len: usize,
        image_handle: usize,
        device_handle: Option<usize>,
        address: usize,
    ) -> (r: Result<usize, Error>)
        requires
            old(self).wf(),
            alignment < usize::BITS,
            address + len <= old(self).maximum_address,
        ensures
            final(self).wf(),
            address_result(
                old(self),
                final(self),
                r,
                memory_type,
                alignment,
                len,
                image_handle,
                device_handle,
                address,
            ),
    {
        if len == 0 {
            return Err(Error::InvalidParameter);
        }
        let mut memory_blocks = match self.memory_blocks.take() {
            Some(v) => v,
            None => return Err(Error::NotFound),
        };
        let idx = Self::find_block(&memory_blocks, address);
        if !(memory_blocks[idx].as_ref().memory_type == memory_type && address == address & (usize::MAX
            << alignment)) {
            self.memory_blocks = Some(memory_blocks);
            return Err(Error::NotFound);
        }
        let res = Self::split_state_transition_at_idx(
            &mut memory_blocks,
            idx,
            address,
            len,
            MemoryStateTransition::Allocate(image_handle, device_handle),
        );
        self.memory_blocks = Some(memory_blocks);
        match res {
            Ok(_) => Ok(address),
            Err(InternalError::MemoryBlockErr(_)) => Err(Error::NotFound),
            Err(InternalError::NotEnoughMemory) => Err(Error::OutOfResources),
            Err(InternalError::IoBlockErr(_)) => {
                assert(false);
                Err(Error::OutOfResources)
            },
        }
    }

    /// Frees memory allocated from the address space.
    pub fn free_memory_space(&mut self, base_address: usize, len: usize) -> (r: Result<(), Error>)
        requires
            old(self).wf(),
            base_address + len <= usize::MAX,
        ensures
            final(self).wf(),
            range_service_result(
                old(self),
                final(self),
                r,
                base_address,
                len,
                MemoryStateTransition::Free,
                Error::NotFound,
                Error::NotFound,
            ),
    {
        self.range_service(base_address, len, MemoryStateTransition::Free, Error::NotFound)
    }

    /// Sets the attributes of a range of memory; they must be among its capabilities.
    pub fn set_memory_space_attributes(&mut self, base_address: usize, len: usize, attributes: u64) -> (r: Result<
        (),
        Error,
    >)
        requires
            old(self).wf(),
            base_address + len <= usize::MAX,
        ensures
            final(self).wf(),
            range_service_result(
                old(self),
                final(self),
                r,
                base_address,
                len,
                MemoryStateTransition::SetAttributes(attributes),
                Error::Unsupported,
                Error::Unsupported,
            ),
    {
        self.range_service(base_address, len, MemoryStateTransition::SetAttributes(attributes), Error::Unsupported)
    }

    /// Sets the capabilities of a range of memory; they must cover its attributes.
    pub fn set_memory_space_capabilities(&mut self, base_address: usize, len: usize, capabilities: u64) -> (r:
        Result<(), Error>)
        requires
            old(self).wf(),
            base_address + len <= usize::MAX,
        ensures
            final(self).wf(),
            range_service_result(
                old(self),
                final(self),
                r,
                base_address,
                len,
                MemoryStateTransition::SetCapabilities(capabilities),
                Error::Unsupported,
                Error::Unsupported,
            ),
    {
        self.range_service(
            base_address,
            len,
            MemoryStateTransition::SetCapabilities(capabilities),
            Error::Unsupported,
        )
    }

    /// The checks and the update that free and the attribute services share;
    /// a refused split or transition ends in `block_error`.
    fn range_service(&mut self, base_address: usize, len: usize, t: MemoryStateTransition, block_error: Error) -> (r:
        Result<(), Error>)
        requires
            old(self).wf(),
            base_address + len <= usize::MAX,
        ensures
            final(self).wf(),
            range_service_result(old(self), final(self), r, base_address, len, t, block_error, block_error),
    {
        if self.maximum_address == 0 {
            return Err(Error::NotInitialized);
        }
        if len == 0 {
            return Err(Error::InvalidParameter);
        }
        if base_address + len > self.maximum_address {
            return Err(Error::Unsupported);
        }
        let mut memory_blocks = match self.memory_blocks.take() {
            Some(v) => v,
            None => return Err(Error::NotFound),
        };
        let idx = Self::find_block(&memory_blocks, base_address);
        let res = Self::split_state_transition_at_idx(&mut memory_blocks, idx, base_address, len, t);
        self.memory_blocks = Some(memory_blocks);
        match res {
            Ok(_) => Ok(()),
            Err(InternalError::MemoryBlockErr(_)) => Err(block_error),
            Err(InternalError::NotEnoughMemory) => Err(Error::OutOfResources),
            Err(InternalError::IoBlockErr(_)) => {
                assert(false);
                Err(Error::OutOfResources)
            },
        }
    }

    /// Copies the descriptors of all blocks, in address order, into `buffer`,
    /// which must be empty and able to hold them without growing.
    pub fn get_memory_descriptors(&mut self, buffer: &mut Vec<MemorySpaceDescriptor>) -> (r: Result<(), Error>)
        requires
            old(self).wf(),
        ensures
            final(self).same_map(old(self)),
            final(self).wf(),
            old(self).maximum_address == 0 ==> r == Err::<(), Error>(Error::NotInitialized) && final(buffer)@
                == old(buffer)@,
            old(self).maximum_address != 0 && old(buffer)@.len() != 0 ==> r == Err::<(), Error>(
                Error::InvalidParameter,
            ) && final(buffer)@ == old(buffer)@,
            old(self).maximum_address != 0 && old(buffer)@.len() == 0 && old(self).memory_blocks is None ==> r
                == Err::<(), Error>(Error::NotFound) && final(buffer)@ == old(buffer)@,
            old(self).maximum_address != 0 && old(buffer)@.len() == 0 && old(self).memory_blocks is Some ==> (r is Ok
                && final(buffer)@ == old(self).blocks().map_values(|b: MemoryBlock| b.desc())) || (r == Err::<
                (),
                Error,
            >(Error::InvalidParameter) && final(buffer)@ == old(buffer)@),
    {
        if self.maximum_address == 0 {
            return Err(Error::NotInitialized);
        }
        if vec_capacity(buffer) < self.memory_descriptor_count() {
            return Err(Error::InvalidParameter);
        }
        if buffer.len() != 0 {
            return Err(Error::InvalidParameter);
        }
        match &self.memory_blocks {
            Some(blocks) => {
                let mut i: usize = 0;
                while i < blocks.len()
                    invariant
                        0 <= i <= blocks@.len(),
                        buffer@ == blocks@.subrange(0, i as int).map_values(|b: MemoryBlock| b.desc()),
                    decreases blocks@.len() - i,
                {
                    buffer.push(*blocks[i].as_ref());
                    assert(blocks@.subrange(0, i + 1).map_values(|b: MemoryBlock| b.desc()) =~= blocks@.subrange(
                        0,
                        i as int,
                    ).map_values(|b: MemoryBlock| b.desc()).push(blocks@[i as int].desc()));
                    i = i + 1;
                }
                assert(blocks@.subrange(0, blocks@.len() as int) =~= blocks@);
                Ok(())
            },
            None => Err(Error::NotFound),
        }
    }

    /// Number of blocks in the memory map (0 before it exists).
    pub fn memory_descriptor_count(&self) -> (r: usize)
        ensures
            r == self.blocks().len(),
    {
        match &self.memory_blocks {
            Some(v) => v.len(),
            None => 0,
        }
    }

    /// Splits the block at `idx` at the range, applies `transition` to the
    /// range and merges the result with its neighbours where they are in the
    /// same state. Returns the index of the block that holds the range.
    fn split_state_transition_at_idx(
        memory_blocks: &mut Vec<MemoryBlock>,
        idx: usize,
        base_address: usize,
        len: usize,
        transition: MemoryStateTransition,
    ) -> (r: Result<usize, InternalError>)
        requires
            map_wf(old(memory_blocks)@),
            idx < old(memory_blocks)@.len(),
            base_address + len <= usize::MAX,
        ensures
            ({
                let s = old(memory_blocks)@;
                match outcome_at(s, idx as int, base_address as int, len as int, transition) {
                    RangeOutcome::OutsideBlock => r == Err::<usize, InternalError>(
                        InternalError::MemoryBlockErr(MemoryBlockError::BlockOutsideRange),
                    ) && final(memory_blocks)@ == s,
                    RangeOutcome::Refused => r == Err::<usize, InternalError>(
                        InternalError::MemoryBlockErr(MemoryBlockError::InvalidStateTransition),
                    ) && final(memory_blocks)@ == s,
                    RangeOutcome::Full => r == Err::<usize, InternalError>(InternalError::NotEnoughMemory)
                        && final(memory_blocks)@ == s,
                    RangeOutcome::Done => r matches Ok(f) && transition_applied(
                        s,
                        final(memory_blocks)@,
                        idx as int,
                        base_address as int,
                        len as int,
                        transition,
                    ) && f < final(memory_blocks)@.len() && range_inside(
                        final(memory_blocks)@[f as int],
                        base_address as int,
                        len as int,
                    ) && final(memory_blocks)@.len() <= s.len() + 2,
                }
            }),
    {
        let ghost s = memory_blocks@;
        let mut mb = memory_blocks[idx];
        proof {
            lemma_block_below_end(s, idx as int);
            mb.lemma_transition_keeps_range(transition);
        }
        let split = mb.split_state_transition(base_address, len, transition);
        let split = match split {
            Err(e) => return Err(InternalError::MemoryBlockErr(e)),
            Ok(split) => split,
        };
        let extra: usize = match split {
            MemoryBlockSplit::Same => 0,
            MemoryBlockSplit::Before(_) => 1,
            MemoryBlockSplit::After(_) => 1,
            MemoryBlockSplit::Middle(_, _) => 2,
        };
        if memory_blocks.len() + extra > MEMORY_BLOCK_SLICE_LEN {
            return Err(InternalError::NotEnoughMemory);
        }
        let ghost b = s[idx as int];
        let new_idx = Self::place_split(memory_blocks, idx, mb, split);
        proof {
            let p = split_pieces(mb, split);
            let k = split_mid(split);
            lemma_replace_applies(s, idx as int, p, k, base_address as int, len as int, transition);
            assert(memory_blocks@ =~= s.subrange(0, idx as int) + p + s.subrange(idx + 1, s.len() as int));
        }
        let ghost l = memory_blocks@;
        let f = Self::merge_neighbours(memory_blocks, new_idx);
        proof {
            assert forall|a: int| 0 <= a < map_end(s) implies #[trigger] state_at(memory_blocks@, a)
                == applied_state(s, idx as int, base_address as int, len as int, transition, a) by {
                assert(state_at(memory_blocks@, a) == state_at(l, a));
                assert(state_at(l, a) == applied_state(s, idx as int, base_address as int, len as int, transition, a));
            }
        }
        Ok(f)
    }

    /// Writes the first piece of a split block back at `idx` and inserts the
    /// other pieces after it; returns the index of the piece that holds the range.
    fn place_split(memory_blocks: &mut Vec<MemoryBlock>, idx: usize, first: MemoryBlock, split: MemoryBlockSplit) -> (r:
        usize)
        requires
            idx < old(memory_blocks)@.len(),
            old(memory_blocks)@.len() + split_pieces(first, split).len() - 1 <= MEMORY_BLOCK_SLICE_LEN,
        ensures
            final(memory_blocks)@ == old(memory_blocks)@.subrange(0, idx as int) + split_pieces(first, split)
                + old(memory_blocks)@.subrange(idx + 1, old(memory_blocks)@.len() as int),
            r == idx + split_mid(split),
    {
        let ghost s = memory_blocks@;
        memory_blocks.set(idx, first);
        match split {
            MemoryBlockSplit::Same => {
                assert(memory_blocks@ =~= s.subrange(0, idx as int) + split_pieces(first, split) + s.subrange(
                    idx + 1,
                    s.len() as int,
                ));
                idx
            },
            MemoryBlockSplit::Before(next) => {
                memory_blocks.insert(idx + 1, next);
                assert(memory_blocks@ =~= s.subrange(0, idx as int) + split_pieces(first, split) + s.subrange(
                    idx + 1,
                    s.len() as int,
                ));
                idx
            },
            MemoryBlockSplit::After(next) => {
                memory_blocks.insert(idx + 1, next);
                assert(memory_blocks@ =~= s.subrange(0, idx as int) + split_pieces(first, split) + s.subrange(
                    idx + 1,
                    s.len() as int,
                ));
                idx + 1
            },
            MemoryBlockSplit::Middle(next, last) => {
                memory_blocks.insert(idx + 1, next);
                memory_blocks.insert(idx + 2, last);
                assert(memory_blocks@ =~= s.subrange(0, idx as int) + split_pieces(first, split) + s.subrange(
                    idx + 1,
                    s.len() as int,
                ));
                idx + 1
            },
        }
    }

    /// Merges the block at `m` with its right and then its left neighbour
    /// where they are in the same state; returns the index of the block that
    /// now holds the range of block `m`.
    fn merge_neighbours(memory_blocks: &mut Vec<MemoryBlock>, m: usize) -> (r: usize)
        requires
            contiguous(old(memory_blocks)@),
            m < old(memory_blocks)@.len(),
            map_end(old(memory_blocks)@) <= usize::MAX,
            old(memory_blocks)@.len() <= MEMORY_BLOCK_SLICE_LEN,
            forall|i: int|
                0 <= i < old(memory_blocks)@.len() - 1 && i != m - 1 && i != m ==> !#[trigger] pair_same(
                    old(memory_blocks)@,
                    i,
                ),
        ensures
            map_wf(final(memory_blocks)@),
            map_end(final(memory_blocks)@) == map_end(old(memory_blocks)@),
            final(memory_blocks)@.len() <= old(memory_blocks)@.len(),
            r < final(memory_blocks)@.len(),
            final(memory_blocks)@[r as int].spec_start() <= old(memory_blocks)@[m as int].spec_start(),
            old(memory_blocks)@[m as int].spec_end() <= final(memory_blocks)@[r as int].spec_end(),
            forall|a: int|
                0 <= a < map_end(old(memory_blocks)@) ==> #[trigger] state_at(final(memory_blocks)@, a)
                    == state_at(old(memory_blocks)@, a),
    {
        let ghost l = memory_blocks@;
        let mut new_idx = m;
        if new_idx + 1 < memory_blocks.len() {
            let mut cur = memory_blocks[new_idx];
            let mut next = memory_blocks[new_idx + 1];
            proof {
                lemma_block_below_end(l, new_idx as int);
                lemma_block_below_end(l, new_idx + 1);
            }
            if cur.merge(&mut next) {
                proof {
                    lemma_merge(l, new_idx as int, cur);
                }
                memory_blocks.set(new_idx, cur);
                memory_blocks.remove(new_idx + 1);
            }
        }
        let ghost l2 = memory_blocks@;
        assert(forall|i: int| 0 <= i < l2.len() - 1 && i != m - 1 ==> !#[trigger] pair_same(l2, i));
        if new_idx > 0 {
            let mut prev = memory_blocks[new_idx - 1];
            let mut cur = memory_blocks[new_idx];
            proof {
                lemma_block_below_end(l2, new_idx - 1);
                lemma_block_below_end(l2, new_idx as int);
            }
            if prev.merge(&mut cur) {
                proof {
                    lemma_merge(l2, new_idx - 1, prev);
                }
                memory_blocks.set(new_idx - 1, prev);
                memory_blocks.remove(new_idx);
                new_idx = new_idx - 1;
            }
        }
        new_idx
    }
}

/// A bottom-up scan that finds a place finds it inside a block of the type
/// asked for, one whose state allows the transition.
proof fn lemma_bottom_up_found(
    s: Seq<MemoryBlock>,
    k: int,
    memory_type: GcdMemoryType,
    alignment: u32,
    len: usize,
    max_address: usize,
    t: MemoryStateTransition,
)
    ensures
        bottom_up_scan(s, k, memory_type, alignment, len, max_address, t) matches ScanResult::Found(i, addr) ==> 0
            <= i < s.len() && s[i].desc().memory_type == memory_type && outcome_at(s, i, addr, len as int, t)
            == RangeOutcome::Done && addr == align_up_to(s[i].spec_start() as usize, alignment) && addr + len
            <= max_address,
    decreases s.len() - k,
{
    if 0 <= k < s.len() {
        lemma_bottom_up_found(s, k + 1, memory_type, alignment, len, max_address, t);
    }
}

/// A top-down scan that finds a place finds it inside a block of the type
/// asked for, one whose state allows the transition.
proof fn lemma_top_down_found(
    s: Seq<MemoryBlock>,
    k: int,
    memory_type: GcdMemoryType,
    alignment: u32,
    len: usize,
    min_address: usize,
    t: MemoryStateTransition,
)
    ensures
        top_down_scan(s, k, memory_type, alignment, len, min_address, t) matches ScanResult::Found(i, addr) ==> 0
            <= i < s.len() && s[i].desc().memory_type == memory_type && outcome_at(s, i, addr, len as int, t)
            == RangeOutcome::Done && addr == align_down((s[i].spec_end() - len) as usize, alignment) && addr
            >= min_address,
    decreases k + 1,
{
    if 0 <= k < s.len() {
        lemma_top_down_found(s, k - 1, memory_type, alignment, len, min_address, t);
    }
}

/// Allocating `len` bytes at `addr` inside block `i` of the type asked for:
/// every address of the range is free memory of that type before, and
/// allocated to the image after.
proof fn lemma_allocated_range(
    s: Seq<MemoryBlock>,
    n: Seq<MemoryBlock>,
    i: int,
    addr: int,
    len: usize,
    memory_type: GcdMemoryType,
    image_handle: usize,
    device_handle: Option<usize>,
)
    requires
        map_wf(s),
        0 <= i < s.len(),
        s[i].desc().memory_type == memory_type,
        outcome_at(s, i, addr, len as int, MemoryStateTransition::Allocate(image_handle, device_handle))
            == RangeOutcome::Done,
        transition_applied(s, n, i, addr, len as int, MemoryStateTransition::Allocate(image_handle, device_handle)),
    ensures
        0 <= addr,
        addr + len <= map_end(s),
        forall|a: int|
            addr <= a < addr + len ==> (#[trigger] state_at(s, a)) is Unallocated && state_at(s, a).desc().memory_type
                == memory_type,
        forall|a: int|
            addr <= a < addr + len ==> (#[trigger] state_at(n, a)) is Allocated && state_at(n, a).desc().memory_type
                == memory_type && state_at(n, a).desc().image_handle == image_handle,
{
    lemma_block_below_end(s, i);
    assert forall|a: int| addr <= a < addr + len implies (#[trigger] state_at(s, a)) is Unallocated && state_at(
        s,
        a,
    ).desc().memory_type == memory_type by {
        assert(covers(s[i], a));
        lemma_index_unique(s, i, a);
    }
    assert forall|a: int| addr <= a < addr + len implies (#[trigger] state_at(n, a)) is Allocated && state_at(
        n,
        a,
    ).desc().memory_type == memory_type && state_at(n, a).desc().image_handle == image_handle by {
        assert(state_at(n, a) == applied_state(
            s,
            i,
            addr,
            len as int,
            MemoryStateTransition::Allocate(image_handle, device_handle),
            a,
        ));
    }
}

/// Allocating memory of a type, by any strategy, takes a range of free
/// memory of that type: every address of the range returned was unallocated
/// memory of the type asked for before the call, and is allocated to the
/// requesting image afterwards, still of that type. The range starts at a
/// multiple of `2^alignment` (its lowest `alignment` bits are clear), ends at or below the maximum address of a
/// bottom-up search, starts at or above the minimum address of a top-down
/// search, and starts at the address asked for by an allocation at an address.
pub proof fn lemma_allocation_takes_free_memory_of_type(
    g0: GCD,
    g1: GCD,
    r: Result<usize, Error>,
    allocate_type: AllocateType,
    memory_type: GcdMemoryType,
    alignment: u32,
    len: usize,
    image_handle: usize,
    device_handle: Option<usize>,
    addr: usize,
)
    requires
        g0.wf(),
        alignment < usize::BITS,
        allocation_result(&g0, &g1, r, allocate_type, memory_type, alignment, len, image_handle, device_handle),
        r == Ok::<usize, Error>(addr),
    ensures
        len > 0,
        addr + len <= g0.maximum_address,
        addr >> alignment << alignment == addr,
        allocate_type matches AllocateType::BottomUp(Some(m)) ==> addr + len <= m,
        allocate_type matches AllocateType::TopDown(Some(m)) ==> addr >= m,
        allocate_type matches AllocateType::Address(a) ==> addr == a,
        forall|a: int|
            addr <= a < addr + len ==> (#[trigger] g0.state_at(a)) is Unallocated && g0.state_at(a).desc().memory_type
                == memory_type,
        forall|a: int|
            addr <= a < addr + len ==> (#[trigger] g1.state_at(a)) is Allocated && g1.state_at(a).desc().memory_type
                == memory_type && g1.state_at(a).desc().image_handle == image_handle,
{
    let s = g0.blocks();
    let t = MemoryStateTransition::Allocate(image_handle, device_handle);
    match allocate_type {
        AllocateType::BottomUp(max_address) => {
            let m = match max_address {
                Some(m) => m,
                None => usize::MAX,
            };
            lemma_bottom_up_found(s, 0, memory_type, alignment, len, m, t);
            if let ScanResult::Found(i, a0) = bottom_up_scan(s, 0, memory_type, alignment, len, m, t) {
                lemma_aligned(s[i].spec_start() as usize, alignment);
                lemma_allocated_range(s, g1.blocks(), i, a0, len, memory_type, image_handle, device_handle);
            }
        },
        AllocateType::TopDown(min_address) => {
            let m = match min_address {
                Some(m) => m,
                None => 0,
            };
            lemma_top_down_found(s, s.len() - 1, memory_type, alignment, len, m, t);
            if let ScanResult::Found(i, a0) = top_down_scan(s, s.len() - 1, memory_type, alignment, len, m, t) {
                lemma_aligned((s[i].spec_end() - len) as usize, alignment);
                lemma_allocated_range(s, g1.blocks(), i, a0, len, memory_type, image_handle, device_handle);
            }
        },
        AllocateType::Address(address) => {
            lemma_aligned(address, alignment);
            lemma_covered(s, address as int);
            lemma_allocated_range(
                s,
                g1.blocks(),
                block_index_of(s, address as int),
                address as int,
                len,
                memory_type,
                image_handle,
                device_handle,
            );
        },
    }
}

/// Block `b` has room at `p` for an allocation of `len` bytes of memory of
/// `memory_type`: the range lies inside the block and starts at a multiple of
/// `2^alignment`, and the block is unallocated memory of that type, memory
/// that exists and was accepted.
pub open spec fn free_place(b: MemoryBlock, p: usize, len: usize, memory_type: GcdMemoryType, alignment: u32) -> bool {
    &&& range_inside(b, p as int, len as int)
    &&& p >> alignment << alignment == p
    &&& b is Unallocated
    &&& b.desc().memory_type == memory_type
    &&& memory_type != GcdMemoryType::NonExistent
    &&& memory_type != GcdMemoryType::Unaccepted
}

/// A bottom-up scan from block `k` that finds a place finds none lower in
/// the blocks it passed, nor in the block where it stops.
proof fn lemma_bottom_up_lowest(
    s: Seq<MemoryBlock>,
    k: int,
    memory_type: GcdMemoryType,
    alignment: u32,
    len: usize,
    max_address: usize,
    image_handle: usize,
    device_handle: Option<usize>,
)
    requires
        alignment < usize::BITS,
    ensures
        bottom_up_scan(
            s,
            k,
            memory_type,
            alignment,
            len,
            max_address,
            MemoryStateTransition::Allocate(image_handle, device_handle),
        ) matches ScanResult::Found(i, addr) ==> forall|j: int, p: usize|
            k <= j <= i && #[trigger] free_place(s[j], p, len, memory_type, alignment) ==> addr <= p,
    decreases s.len() - k,
{
    let t = MemoryStateTransition::Allocate(image_handle, device_handle);
    if 0 <= k < s.len() {
        lemma_bottom_up_lowest(s, k + 1, memory_type, alignment, len, max_address, image_handle, device_handle);
        if let ScanResult::Found(i, addr) = bottom_up_scan(s, k, memory_type, alignment, len, max_address, t) {
            assert forall|j: int, p: usize| k <= j <= i && #[trigger] free_place(s[j], p, len, memory_type, alignment)
                implies addr <= p by {
                if j == k {
                    let x = s[k].spec_start() as usize;
                    lemma_align(x, alignment);
                    lemma_aligned_bounds(x, p, alignment);
                }
            }
        }
    }
}

/// A top-down scan from block `k` that finds a place finds none higher in
/// the blocks it passed, nor in the block where it stops.
proof fn lemma_top_down_highest(
    s: Seq<MemoryBlock>,
    k: int,
    memory_type: GcdMemoryType,
    alignment: u32,
    len: usize,
    min_address: usize,
    image_handle: usize,
    device_handle: Option<usize>,
)
    requires
        map_wf(s),
        alignment < usize::BITS,
    ensures
        top_down_scan(
            s,
            k,
            memory_type,
            alignment,
            len,
            min_address,
            MemoryStateTransition::Allocate(image_handle, device_handle),
        ) matches ScanResult::Found(i, addr) ==> forall|j: int, p: usize|
            i <= j <= k && #[trigger] free_place(s[j], p, len, memory_type, alignment) ==> p <= addr,
    decreases k + 1,
{
    let t = MemoryStateTransition::Allocate(image_handle, device_handle);
    if 0 <= k < s.len() {
        lemma_top_down_highest(s, k - 1, memory_type, alignment, len, min_address, image_handle, device_handle);
        lemma_block_below_end(s, k);
        if let ScanResult::Found(i, addr) = top_down_scan(s, k, memory_type, alignment, len, min_address, t) {
            assert forall|j: int, p: usize| i <= j <= k && #[trigger] free_place(s[j], p, len, memory_type, alignment)
                implies p <= addr by {
                if j == k {
                    let x = (s[k].spec_end() - len) as usize;
                    lemma_align(x, alignment);
                    lemma_aligned_bounds(x, p, alignment);
                }
            }
        }
    }
}

/// A bottom-up allocation takes the lowest place there is: no block has
/// room at a lower address for the range as free memory of the type asked
/// for, starting at a multiple of `2^alignment`.
pub proof fn lemma_bottom_up_takes_lowest_place(
    g0: GCD,
    g1: GCD,
    r: Result<usize, Error>,
    max_address: Option<usize>,
    memory_type: GcdMemoryType,
    alignment: u32,
    len: usize,
    image_handle: usize,
    device_handle: Option<usize>,
    addr: usize,
)
    requires
        g0.wf(),
        alignment < usize::BITS,
        allocation_result(
            &g0,
            &g1,
            r,
            AllocateType::BottomUp(max_address),
            memory_type,
            alignment,
            len,
            image_handle,
            device_handle,
        ),
        r == Ok::<usize, Error>(addr),
    ensures
        forall|j: int, p: usize|
            0 <= j < g0.blocks().len() && #[trigger] free_place(g0.blocks()[j], p, len, memory_type, alignment) ==> addr
                <= p,
{
    let s = g0.blocks();
    let t = MemoryStateTransition::Allocate(image_handle, device_handle);
    let m = match max_address {
        Some(m) => m,
        None => usize::MAX,
    };
    lemma_bottom_up_found(s, 0, memory_type, alignment, len, m, t);
    lemma_bottom_up_lowest(s, 0, memory_type, alignment, len, m, image_handle, device_handle);
    if let ScanResult::Found(i, a0) = bottom_up_scan(s, 0, memory_type, alignment, len, m, t) {
        assert forall|j: int, p: usize|
            0 <= j < s.len() && #[trigger] free_place(s[j], p, len, memory_type, alignment) implies addr <= p by {
            if j > i {
                lemma_sorted(s, i, j);
            }
        }
    }
}

/// A top-down allocation takes the highest place there is: no block has
/// room at a higher address for the range as free memory of the type asked
/// for, starting at a multiple of `2^alignment`.
pub proof fn lemma_top_down_takes_highest_place(
    g0: GCD,
    g1: GCD,
    r: Result<usize, Error>,
    min_address: Option<usize>,
    memory_type: GcdMemoryType,
    alignment: u32,
    len: usize,
    image_handle: usize,
    device_handle: Option<usize>,
    addr: usize,
)
    requires
        g0.wf(),
        alignment < usize::BITS,
        allocation_result(
            &g0,
            &g1,
            r,
            AllocateType::TopDown(min_address),
            memory_type,
            alignment,
            len,
            image_handle,
            device_handle,
        ),
        r == Ok::<usize, Error>(addr),
    ensures
        forall|j: int, p: usize|
            0 <= j < g0.blocks().len() && #[trigger] free_place(g0.blocks()[j], p, len, memory_type, alignment) ==> p
                <= addr,
{
    let s = g0.blocks();
    let t = MemoryStateTransition::Allocate(image_handle, device_handle);
    let m = match min_address {
        Some(m) => m,
        None => 0,
    };
    lemma_top_down_found(s, s.len() - 1, memory_type, alignment, len, m, t);
    lemma_top_down_highest(s, s.len() - 1, memory_type, alignment, len, m, image_handle, device_handle);
    if let ScanResult::Found(i, a0) = top_down_scan(s, s.len() - 1, memory_type, alignment, len, m, t) {
        assert forall|j: int, p: usize|
            0 <= j < s.len() && #[trigger] free_place(s[j], p, len, memory_type, alignment) implies p <= addr by {
            if j < i {
                lemma_sorted(s, j, i);
            }
        }
    }
}

/// A service that applies `t` to a range and succeeds applies it to every
/// address of the range, each of whose states allowed it, and leaves every
/// other address alone.
proof fn lemma_range_service_applied(
    g0: GCD,
    g1: GCD,
    r: Result<(), Error>,
    base: usize,
    len: usize,
    t: MemoryStateTransition,
    outside: Error,
    refused: Error,
)
    requires
        g0.wf(),
        range_service_result(&g0, &g1, r, base, len, t, outside, refused),
        r is Ok,
    ensures
        0 < len,
        base + len <= g0.maximum_address,
        g1.maximum_address == g0.maximum_address,
        forall|a: int|
            base <= a < base + len ==> (#[trigger] g0.state_at(a)).transitioned(t) is Some && g1.state_at(a)
                == g0.state_at(a).transitioned(t)->0,
        forall|a: int|
            0 <= a < g0.maximum_address && !(base <= a < base + len) ==> #[trigger] g1.state_at(a) == g0.state_at(a),
{
    let s = g0.blocks();
    lemma_covered(s, base as int);
    let i = block_index_of(s, base as int);
    s[i].lemma_transition_keeps_range(t);
    assert forall|a: int| base <= a < base + len implies (#[trigger] g0.state_at(a)).transitioned(t) is Some
        && g1.state_at(a) == g0.state_at(a).transitioned(t)->0 by {
        assert(covers(s[i], a));
        lemma_index_unique(s, i, a);
        assert(state_at(g1.blocks(), a) == applied_state(s, i, base as int, len as int, t, a));
    }
    assert forall|a: int| 0 <= a < g0.maximum_address && !(base <= a < base + len) implies #[trigger] g1.state_at(a)
        == g0.state_at(a) by {
        assert(state_at(g1.blocks(), a) == applied_state(s, i, base as int, len as int, t, a));
    }
}

/// Freeing memory that succeeds frees memory that was allocated: each
/// address of the range was allocated before and is unallocated after, owned
/// by no image or device, and otherwise as it was; every other address is
/// left alone.
pub proof fn lemma_free_memory_space_effect(g0: GCD, g1: GCD, r: Result<(), Error>, base: usize, len: usize)
    requires
        g0.wf(),
        range_service_result(&g0, &g1, r, base, len, MemoryStateTransition::Free, Error::NotFound, Error::NotFound),
        r is Ok,
    ensures
        forall|a: int|
            base <= a < base + len ==> (#[trigger] g0.state_at(a)) is Allocated && g0.state_at(a).desc().memory_type
                != GcdMemoryType::NonExistent && g1.state_at(a) == MemoryBlock::Unallocated(
                MemorySpaceDescriptor { image_handle: 0, device_handle: 0, ..g0.state_at(a).desc() },
            ),
        forall|a: int|
            0 <= a < g0.maximum_address && !(base <= a < base + len) ==> #[trigger] g1.state_at(a) == g0.state_at(a),
{
    lemma_range_service_applied(g0, g1, r, base, len, MemoryStateTransition::Free, Error::NotFound, Error::NotFound);
}

/// Removing memory that succeeds removes memory that was present and free:
/// each address of the range was unallocated memory that existed before, and
/// is non-existent memory with no capabilities after, otherwise as it was;
/// every other address is left alone.
pub proof fn lemma_remove_memory_space_effect(
    g0: GCD,
    g1: GCD,
    r: Result<(), Error>,
    base: usize,
    len: usize,
    refused: Error,
)
    requires
        g0.wf(),
        range_service_result(&g0, &g1, r, base, len, MemoryStateTransition::Remove, Error::NotFound, refused),
        r is Ok,
    ensures
        forall|a: int|
            base <= a < base + len ==> (#[trigger] g0.state_at(a)) is Unallocated && g0.state_at(a).desc().memory_type
                != GcdMemoryType::NonExistent && g1.state_at(a) == MemoryBlock::Unallocated(
                MemorySpaceDescriptor {
                    memory_type: GcdMemoryType::NonExistent,
                    capabilities: 0,
                    ..g0.state_at(a).desc()
                },
            ),
        forall|a: int|
            0 <= a < g0.maximum_address && !(base <= a < base + len) ==> #[trigger] g1.state_at(a) == g0.state_at(a),
{
    lemma_range_service_applied(g0, g1, r, base, len, MemoryStateTransition::Remove, Error::NotFound, refused);
}

/// Setting attributes that succeeds sets attributes that the memory is
/// capable of: each address of the range is memory that exists, whose
/// capabilities hold every attribute asked for, and has exactly those
/// attributes after, otherwise as it was; every other address is left alone.
pub proof fn lemma_set_attributes_effect(
    g0: GCD,
    g1: GCD,
    r: Result<(), Error>,
    base: usize,
    len: usize,
    attributes: u64,
)
    requires
        g0.wf(),
        range_service_result(
            &g0,
            &g1,
            r,
            base,
            len,
            MemoryStateTransition::SetAttributes(attributes),
            Error::Unsupported,
            Error::Unsupported,
        ),
        r is Ok,
    ensures
        forall|a: int|
            base <= a < base + len ==> (#[trigger] g0.state_at(a)).desc().memory_type != GcdMemoryType::NonExistent
                && attributes & !g0.state_at(a).desc().capabilities == 0 && g1.state_at(a) == g0.state_at(a).with_desc(
                MemorySpaceDescriptor { attributes, ..g0.state_at(a).desc() },
            ),
        forall|a: int|
            0 <= a < g0.maximum_address && !(base <= a < base + len) ==> #[trigger] g1.state_at(a) == g0.state_at(a),
{
    lemma_range_service_applied(
        g0,
        g1,
        r,
        base,
        len,
        MemoryStateTransition::SetAttributes(attributes),
        Error::Unsupported,
        Error::Unsupported,
    );
    assert forall|c: u64| (c | attributes) == c implies attributes & !c == 0 by {
        assert((c | attributes) == c ==> attributes & !c == 0) by (bit_vector);
    }
}

/// Setting capabilities that succeeds keeps every attribute set among the
/// capabilities: each address of the range is memory that exists, whose
/// attributes are all among the capabilities asked for, and has exactly
/// those capabilities after, otherwise as it was; every other address is
/// left alone.
pub proof fn lemma_set_capabilities_effect(
    g0: GCD,
    g1: GCD,
    r: Result<(), Error>,
    base: usize,
    len: usize,
    capabilities: u64,
)
    requires
        g0.wf(),
        range_service_result(
            &g0,
            &g1,
            r,
            base,
            len,
            MemoryStateTransition::SetCapabilities(capabilities),
            Error::Unsupported,
            Error::Unsupported,
        ),
        r is Ok,
    ensures
        forall|a: int|
            base <= a < base + len ==> (#[trigger] g0.state_at(a)).desc().memory_type != GcdMemoryType::NonExistent
                && g0.state_at(a).desc().attributes & !capabilities == 0 && g1.state_at(a) == g0.state_at(a).with_desc(
                MemorySpaceDescriptor { capabilities, ..g0.state_at(a).desc() },
            ),
        forall|a: int|
            0 <= a < g0.maximum_address && !(base <= a < base + len) ==> #[trigger] g1.state_at(a) == g0.state_at(a),
{
    lemma_range_service_applied(
        g0,
        g1,
        r,
        base,
        len,
        MemoryStateTransition::SetCapabilities(capabilities),
        Error::Unsupported,
        Error::Unsupported,
    );
    assert forall|x: u64| (capabilities | x) == capabilities implies x & !capabilities == 0 by {
        assert((capabilities | x) == capabilities ==> x & !capabilities == 0) by (bit_vector);
    }
}

/// Adding memory space that succeeds adds it where no memory was. On an
/// existing map, each address of the range was unallocated non-existent
/// memory before, and is unallocated memory of the type added, with the
/// capabilities given, after, otherwise as it was; every other address is
/// left alone. The first memory added is system memory large enough to hold
/// the block list.
pub proof fn lemma_add_memory_space_effect(
    g0: GCD,
    g1: GCD,
    r: Result<usize, Error>,
    memory_type: GcdMemoryType,
    base: usize,
    len: usize,
    capabilities: u64,
)
    requires
        g0.wf(),
        add_result(&g0, &g1, r, memory_type, base, len, capabilities),
        r is Ok,
    ensures
        memory_type != GcdMemoryType::NonExistent,
        g0.memory_blocks is None ==> memory_type == GcdMemoryType::SystemMemory && len >= MEMORY_BLOCK_SLICE_SIZE,
        g0.memory_blocks is Some ==> forall|a: int|
            base <= a < base + len ==> (#[trigger] g0.state_at(a)) is Unallocated && g0.state_at(a).desc().memory_type
                == GcdMemoryType::NonExistent && g1.state_at(a) == MemoryBlock::Unallocated(
                MemorySpaceDescriptor { memory_type, capabilities, ..g0.state_at(a).desc() },
            ),
        g0.memory_blocks is Some ==> forall|a: int|
            0 <= a < g0.maximum_address && !(base <= a < base + len) ==> #[trigger] g1.state_at(a) == g0.state_at(a),
{
    if g0.memory_blocks is Some {
        let s = g0.blocks();
        let t = MemoryStateTransition::Add(memory_type, capabilities);
        lemma_covered(s, base as int);
        let i = block_index_of(s, base as int);
        s[i].lemma_transition_keeps_range(t);
        assert forall|a: int| base <= a < base + len implies (#[trigger] g0.state_at(a)) is Unallocated
            && g0.state_at(a).desc().memory_type == GcdMemoryType::NonExistent && g1.state_at(a)
            == MemoryBlock::Unallocated(MemorySpaceDescriptor { memory_type, capabilities, ..g0.state_at(a).desc() }) by {
            assert(covers(s[i], a));
            lemma_index_unique(s, i, a);
            assert(state_at(g1.blocks(), a) == applied_state(s, i, base as int, len as int, t, a));
        }
        assert forall|a: int| 0 <= a < g0.maximum_address && !(base <= a < base + len) implies #[trigger] g1.state_at(
            a,
        ) == g0.state_at(a) by {
            assert(state_at(g1.blocks(), a) == applied_state(s, i, base as int, len as int, t, a));
        }
    }
}

/// Freeing a range of memory right after allocating it gives the memory
/// map back as it was: every address is in the state it had before the
/// allocation (for memory that no image or device owned before).
pub proof fn lemma_free_undoes_allocate(
    g0: GCD,
    g1: GCD,
    g2: GCD,
    base: usize,
    len: usize,
    image_handle: usize,
    device_handle: Option<usize>,
)
    requires
        g0.wf(),
        g0.memory_blocks is Some,
        base + len <= g0.maximum_address,
        g0.state_at(base as int).desc().image_handle == 0,
        g0.state_at(base as int).desc().device_handle == 0,
        range_error(
            g0.blocks(),
            base as int,
            len as int,
            MemoryStateTransition::Allocate(image_handle, device_handle),
            Error::NotFound,
            Error::NotFound,
        ) is None,
        g1.updated(
            &g0,
            block_index_of(g0.blocks(), base as int),
            base as int,
            len as int,
            MemoryStateTransition::Allocate(image_handle, device_handle),
        ),
        range_error(g1.blocks(), base as int, len as int, MemoryStateTransition::Free, Error::NotFound, Error::NotFound)
            is None,
        g2.updated(&g1, block_index_of(g1.blocks(), base as int), base as int, len as int, MemoryStateTransition::Free),
    ensures
        g2.maximum_address == g0.maximum_address,
        forall|a: int| 0 <= a < g0.maximum_address ==> #[trigger] g2.state_at(a) == g0.state_at(a),
{
    let s0 = g0.blocks();
    let i = block_index_of(s0, base as int);
    let j = block_index_of(g1.blocks(), base as int);
    if len > 0 {
        lemma_covered(s0, base as int);
        lemma_covered(g1.blocks(), base as int);
    }
    lemma_transitions_cancel(
        s0,
        g1.blocks(),
        g2.blocks(),
        i,
        j,
        base as int,
        len as int,
        MemoryStateTransition::Allocate(image_handle, device_handle),
        MemoryStateTransition::Free,
    );
}

/// Removing a range of memory right after adding it gives the memory map
/// back as it was (for a range that had no capabilities before).
pub proof fn lemma_remove_undoes_add(
    g0: GCD,
    g1: GCD,
    g2: GCD,
    base: usize,
    len: usize,
    memory_type: GcdMemoryType,
    capabilities: u64,
)
    requires
        g0.wf(),
        g0.memory_blocks is Some,
        base + len <= g0.maximum_address,
        g0.state_at(base as int).desc().capabilities == 0,
        range_error(
            g0.blocks(),
            base as int,
            len as int,
            MemoryStateTransition::Add(memory_type, capabilities),
            Error::AccessDenied,
            Error::AccessDenied,
        ) is None,
        g1.updated(
            &g0,
            block_index_of(g0.blocks(), base as int),
            base as int,
            len as int,
            MemoryStateTransition::Add(memory_type, capabilities),
        ),
        range_error(g1.blocks(), base as int, len as int, MemoryStateTransition::Remove, Error::NotFound, Error::NotFound)
            is None,
        g2.updated(&g1, block_index_of(g1.blocks(), base as int), base as int, len as int, MemoryStateTransition::Remove),
    ensures
        g2.maximum_address == g0.maximum_address,
        forall|a: int| 0 <= a < g0.maximum_address ==> #[trigger] g2.state_at(a) == g0.state_at(a),
{
    let s0 = g0.blocks();
    let i = block_index_of(s0, base as int);
    let j = block_index_of(g1.blocks(), base as int);
    if len > 0 {
        lemma_covered(s0, base as int);
        lemma_covered(g1.blocks(), base as int);
    }
    lemma_transitions_cancel(
        s0,
        g1.blocks(),
        g2.blocks(),
        i,
        j,
        base as int,
        len as int,
        MemoryStateTransition::Add(memory_type, capabilities),
        MemoryStateTransition::Remove,
    );
}

} // verus!
