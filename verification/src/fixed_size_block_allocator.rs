//! The arithmetic and decisions of the fixed-size block allocator: which
//! block list serves a request, how much memory an expansion asks of the
//! GCD, the page services it offers on top of the GCD, and the layout of
//! a UEFI pool allocation.
use vstd::prelude::*;
use crate::gcd::{AllocateType, GCD, allocation_result, range_service_result};
use crate::memory_block::GcdMemoryType;
use crate::memory_block::StateTransition as MemoryStateTransition;

verus! {

/// Errors of the fixed-size block allocator.
#[derive(Debug, Clone, Copy, PartialEq, Eq, Structural)]
pub enum FixedSizeBlockAllocatorError {
    /// The request could not be met, and expanding failed.
    OutOfMemory,
}

/// Errors of the page services, as UEFI statuses.
#[derive(Debug, Clone, Copy, PartialEq, Eq, Structural)]
pub enum PageError {
    /// A parameter is invalid.
    InvalidParameter,
    /// The pages could not be found.
    NotFound,
    /// There is no memory for the request.
    OutOfResources,
}

/// The least memory an expansion asks of the GCD.
pub const MIN_EXPANSION: usize = 0x100000;
/// Expansions and pages are aligned to `2^ALIGNMENT_BITS`.
pub const ALIGNMENT_BITS: u32 = 12;
/// The page size.
pub const ALIGNMENT: usize = 0x1000;
/// The number of block lists.
pub const BLOCK_LIST_COUNT: usize = 10;
/// The alignment of UEFI pool allocations.
pub const UEFI_POOL_ALIGN: usize = 8;

/// The block size of each block list.
pub open spec fn block_sizes() -> Seq<usize> {
    seq![8, 16, 32, 64, 128, 256, 512, 1024, 2048, 4096]
}

/// The block size of list `index`.
pub fn block_size(index: usize) -> (r: usize)
    requires
        index < BLOCK_LIST_COUNT,
    ensures
        r == block_sizes()[index as int],
{
    let sizes: [usize; 10] = [8, 16, 32, 64, 128, 256, 512, 1024, 2048, 4096];
    sizes[index]
}

/// The block size a request needs: its size, or its alignment when larger.
pub open spec fn required_block_size(size: usize, align: usize) -> usize {
    if size >= align {
        size
    } else {
        align
    }
}

/// The list of the smallest blocks that fit a request of `size` bytes
/// aligned to `align`; `None` where no block is that large.
pub fn list_index(size: usize, align: usize) -> (r: Option<usize>)
    ensures
        match r {
            Some(i) => i < BLOCK_LIST_COUNT && block_sizes()[i as int] >= required_block_size(size, align)
                && forall|j: int| 0 <= j < i ==> block_sizes()[j] < required_block_size(size, align),
            None => forall|j: int| 0 <= j < BLOCK_LIST_COUNT ==> block_sizes()[j] < required_block_size(size, align),
        },
{
    let required = if size >= align {
        size
    } else {
        align
    };
    let mut i: usize = 0;
    while i < BLOCK_LIST_COUNT
        invariant
            0 <= i <= BLOCK_LIST_COUNT,
            required == required_block_size(size, align),
            forall|j: int| 0 <= j < i ==> block_sizes()[j] < required,
        decreases BLOCK_LIST_COUNT - i,
    {
        if block_size(i) >= required {
            return Some(i);
        }
        i = i + 1;
    }
    None
}

/// `size` rounded up to a multiple of `align`.
pub open spec fn round_up(size: int, align: int) -> int {
    (size + align - 1) / align * align
}

/// Rounds up with `linked_list_allocator::align_up_size`: the least multiple
/// of `align` (a power of two) that is at least `size`. The source panics
/// where `size + align - 1` overflows, which `requires` leaves out.
#[verifier::external_body]
fn align_up_size(size: usize, align: usize) -> (r: usize)
    requires
        align > 0,
        align & ((align - 1) as usize) == 0,
        size + align - 1 <= usize::MAX,
    ensures
        r == round_up(size as int, align as int),
{
    linked_list_allocator::align_up_size(size, align)
}

/// How much memory an expansion asks of the GCD for a request of `size`
/// bytes aligned to `align`, with a list node of `node_size` bytes aligned
/// to `node_align` kept in front: both padded to their alignment, at least
/// `MIN_EXPANSION`, rounded up to whole pages.
pub open spec fn expansion_size_spec(size: int, align: int, node_size: int, node_align: int) -> int {
    let wanted = round_up(size, align) + round_up(node_size, node_align);
    let at_least = if wanted >= MIN_EXPANSION {
        wanted
    } else {
        MIN_EXPANSION as int
    };
    round_up(at_least, ALIGNMENT as int)
}

/// How much memory an expansion asks of the GCD.
pub fn expansion_size(size: usize, align: usize, node_size: usize, node_align: usize) -> (r: usize)
    requires
        align > 0,
        node_align > 0,
        size + align - 1 <= usize::MAX,
        node_size + node_align - 1 <= usize::MAX,
        round_up(size as int, align as int) + round_up(node_size as int, node_align as int) + ALIGNMENT
            <= usize::MAX,
    ensures
        r == expansion_size_spec(size as int, align as int, node_size as int, node_align as int),
        r % ALIGNMENT == 0,
        r >= MIN_EXPANSION,
{
    proof {
        assert(0x1000usize & 0xfffusize == 0) by (bit_vector);
        lemma_round_up_bounds(size as int, align as int);
        lemma_round_up_bounds(node_size as int, node_align as int);
    }
    let x = size + (align - 1);
    let q = x / align;
    assert(q * align == round_up(size as int, align as int));
    let padded = q * align;
    let nx = node_size + (node_align - 1);
    let nq = nx / node_align;
    assert(nq * node_align == round_up(node_size as int, node_align as int));
    let node_padded = nq * node_align;
    let wanted = padded + node_padded;
    let at_least = if wanted >= MIN_EXPANSION {
        wanted
    } else {
        MIN_EXPANSION
    };
    let r = align_up_size(at_least, ALIGNMENT);
    proof {
        lemma_round_up_bounds(at_least as int, ALIGNMENT as int);
    }
    r
}

/// A rounded-up size is a multiple of the alignment, at least the size, and less than one alignment above it.
proof fn lemma_round_up_bounds(size: int, align: int)
    requires
        size >= 0,
        align > 0,
    ensures
        round_up(size, align) % align == 0,
        size <= round_up(size, align) < size + align,
{
    let x = size + (align - 1);
    vstd::arithmetic::div_mod::lemma_fundamental_div_mod(x, align);
    vstd::arithmetic::div_mod::lemma_mod_bound(x, align);
    vstd::arithmetic::div_mod::lemma_mod_multiples_basic(x / align, align);
    assert(align * (x / align) == (x / align) * align) by (nonlinear_arith);
}

/// The layout of a UEFI pool allocation of `size` bytes behind a header of
/// `header_size` bytes aligned to `header_align`: the total size, the
/// alignment, and where the caller's buffer starts.
pub open spec fn pool_layout_spec(size: int, header_size: int, header_align: int) -> (int, int, int) {
    let align = if header_align >= UEFI_POOL_ALIGN {
        header_align
    } else {
        UEFI_POOL_ALIGN as int
    };
    let offset = round_up(header_size, UEFI_POOL_ALIGN as int);
    (offset + size, align, offset)
}

/// The layout of a UEFI pool allocation: the header, then the caller's
/// buffer on the next 8-byte boundary; the total size, the alignment and
/// where the buffer starts. A layout is refused (and the allocation stops)
/// where a size rounded up to its alignment passes `isize::MAX`, which
/// `requires` leaves out.
pub fn pool_layout(size: usize, header_size: usize, header_align: usize) -> (r: (usize, usize, usize))
    requires
        header_align > 0,
        round_up(size as int, UEFI_POOL_ALIGN as int) <= isize::MAX,
        ({
            let (total, align, offset) = pool_layout_spec(size as int, header_size as int, header_align as int);
            round_up(total, align) <= isize::MAX
        }),
    ensures
        ({
            let (total, align, offset) = pool_layout_spec(size as int, header_size as int, header_align as int);
            r == (total as usize, align as usize, offset as usize)
        }),
{
    let align = if header_align >= UEFI_POOL_ALIGN {
        header_align
    } else {
        UEFI_POOL_ALIGN
    };
    proof {
        lemma_round_up_bounds(header_size as int, UEFI_POOL_ALIGN as int);
        let (total, al, offset) = pool_layout_spec(size as int, header_size as int, header_align as int);
        lemma_round_up_bounds(total, al);
    }
    let offset = (header_size + UEFI_POOL_ALIGN - 1) / UEFI_POOL_ALIGN * UEFI_POOL_ALIGN;
    (offset + size, align, offset)
}

/// What allocating pages does with the GCD: the pages are taken as system
/// memory aligned to a page, for `handle`; the GCD's errors become
/// `InvalidParameter`, `NotFound` or `OutOfResources`, and an allocation at
/// address zero is refused as `OutOfResources`.
pub open spec fn page_allocation_result(
    old: &GCD,
    new: &GCD,
    r: Result<usize, PageError>,
    handle: usize,
    strategy: AllocateType,
    pages: usize,
) -> bool {
    if strategy matches AllocateType::Address(a) && a % ALIGNMENT != 0 {
        r == Err::<usize, PageError>(PageError::InvalidParameter) && new.same_map(old)
    } else {
        exists|gr: Result<usize, crate::gcd::Error>|
            #![trigger allocation_result(old, new, gr, strategy, GcdMemoryType::SystemMemory, ALIGNMENT_BITS, (pages * ALIGNMENT) as usize, handle, None)]
            allocation_result(
                old,
                new,
                gr,
                strategy,
                GcdMemoryType::SystemMemory,
                ALIGNMENT_BITS,
                (pages * ALIGNMENT) as usize,
                handle,
                None,
            ) && r == match gr {
                Ok(a) => if a == 0 {
                    Err(PageError::OutOfResources)
                } else {
                    Ok(a)
                },
                Err(crate::gcd::Error::InvalidParameter) => Err(PageError::InvalidParameter),
                Err(crate::gcd::Error::NotFound) => Err(PageError::NotFound),
                Err(_) => Err(PageError::OutOfResources),
            }
    }
}

/// Allocates `pages` pages from the GCD as `strategy` says, for `handle`.
/// An address given with the strategy must be page aligned.
pub fn allocate_pages(gcd: &mut GCD, handle: usize, strategy: AllocateType, pages: usize) -> (r: Result<
    usize,
    PageError,
>)
    requires
        old(gcd).wf(),
        pages * ALIGNMENT <= usize::MAX,
        strategy matches AllocateType::Address(a) ==> a + pages * ALIGNMENT <= usize::MAX,
    ensures
        final(gcd).wf(),
        page_allocation_result(old(gcd), final(gcd), r, handle, strategy, pages),
{
    match strategy {
        AllocateType::Address(a) => {
            if a % ALIGNMENT != 0 {
                return Err(PageError::InvalidParameter);
            }
        },
        _ => {},
    }
    let gr = gcd.allocate_memory_space(
        strategy,
        GcdMemoryType::SystemMemory,
        ALIGNMENT_BITS,
        pages * ALIGNMENT,
        handle,
        None,
    );
    let r = match gr {
        Ok(a) => if a == 0 {
            Err(PageError::OutOfResources)
        } else {
            Ok(a)
        },
        Err(crate::gcd::Error::InvalidParameter) => Err(PageError::InvalidParameter),
        Err(crate::gcd::Error::NotFound) => Err(PageError::NotFound),
        Err(_) => Err(PageError::OutOfResources),
    };
    r
}

/// What freeing pages does with the GCD: the GCD's `NotFound` stays
/// `NotFound`, its other errors become `InvalidParameter`.
pub open spec fn page_free_result(old: &GCD, new: &GCD, r: Result<(), PageError>, address: usize, pages: usize) -> bool {
    if address % ALIGNMENT != 0 {
        r == Err::<(), PageError>(PageError::InvalidParameter) && new.same_map(old)
    } else {
        exists|gr: Result<(), crate::gcd::Error>|
            #![trigger range_service_result(old, new, gr, address, (pages * ALIGNMENT) as usize, MemoryStateTransition::Free, crate::gcd::Error::NotFound, crate::gcd::Error::NotFound)]
            range_service_result(
                old,
                new,
                gr,
                address,
                (pages * ALIGNMENT) as usize,
                MemoryStateTransition::Free,
                crate::gcd::Error::NotFound,
                crate::gcd::Error::NotFound,
            ) && r == match gr {
                Ok(()) => Ok(()),
                Err(crate::gcd::Error::NotFound) => Err(PageError::NotFound),
                Err(_) => Err(PageError::InvalidParameter),
            }
    }
}

/// Frees `pages` pages at `address` back to the GCD.
pub fn free_pages(gcd: &mut GCD, address: usize, pages: usize) -> (r: Result<(), PageError>)
    requires
        old(gcd).wf(),
        address + pages * ALIGNMENT <= usize::MAX,
    ensures
        final(gcd).wf(),
        page_free_result(old(gcd), final(gcd), r, address, pages),
{
    if address % ALIGNMENT != 0 {
        return Err(PageError::InvalidParameter);
    }
    let gr = gcd.free_memory_space(address, pages * ALIGNMENT);
    match gr {
        Ok(()) => Ok(()),
        Err(crate::gcd::Error::NotFound) => Err(PageError::NotFound),
        Err(_) => Err(PageError::InvalidParameter),
    }
}

} // verus!
