//! The I/O part of the Global Coherency Domain: the I/O resources visible
//! to the boot processor, kept as a map of blocks.
use vstd::prelude::*;
use crate::gcd::{
    align_down, align_up_to, lemma_align, lemma_aligned, lemma_aligned_bounds, max_address_limit, vec_capacity,
    AllocateType, Error, InternalError, ScanResult,
};
use crate::io_block::{
    Error as IoBlockError, GcdIoType, IoBlock, IoBlockSplit, IoSpaceDescriptor, StateTransition as IoStateTransition,
};
use crate::io_map::{
    applied_state, block_index_of, contiguous, covers, lemma_block_below_end, lemma_covered, lemma_index_unique,
    lemma_merge, lemma_replace_applies, lemma_sorted, lemma_transitions_cancel, map_end, map_wf, normalized,
    outcome_at, pair_same, range_inside, state_at, transition_applied, RangeOutcome, IO_BLOCK_SLICE_LEN,
};

verus! {

/// The Global Coherency Domain I/O services.
#[derive(Debug)]
pub struct IoGCD {
    /// End of the processor's I/O address space (0 until initialized).
    pub maximum_address: usize,
    /// The I/O map, once any I/O service has used it.
    pub io_blocks: Option<Vec<IoBlock>>,
}

/// The pieces of a split block in address order, the first being the block itself.
pub open spec fn io_split_pieces(first: IoBlock, split: IoBlockSplit) -> Seq<IoBlock> {
    match split {
        IoBlockSplit::Same => seq![first],
        IoBlockSplit::Before(next) => seq![first, next],
        IoBlockSplit::After(next) => seq![first, next],
        IoBlockSplit::Middle(next, last) => seq![first, next, last],
    }
}

/// Position, among the pieces of a split, of the piece that holds the range.
pub open spec fn io_split_mid(split: IoBlockSplit) -> int {
    match split {
        IoBlockSplit::Same => 0,
        IoBlockSplit::Before(_) => 0,
        IoBlockSplit::After(_) => 1,
        IoBlockSplit::Middle(_, _) => 1,
    }
}

/// Result of the bottom-up search from block `i` on.
pub open spec fn io_bottom_up_scan(
    s: Seq<IoBlock>,
    i: int,
    io_type: GcdIoType,
    alignment: u32,
    len: usize,
    max_address: usize,
    t: IoStateTransition,
) -> ScanResult
    decreases s.len() - i,
{
    if i < 0 || i >= s.len() {
        ScanResult::NotFound
    } else {
        let mb = s[i];
        if mb.spec_len() < len {
            io_bottom_up_scan(s, i + 1, io_type, alignment, len, max_address, t)
        } else {
            let addr = align_up_to(mb.spec_start() as usize, alignment);
            if addr + len > max_address {
                ScanResult::NotFound
            } else if mb.desc().io_type != io_type {
                io_bottom_up_scan(s, i + 1, io_type, alignment, len, max_address, t)
            } else {
                match outcome_at(s, i, addr, len as int, t) {
                    RangeOutcome::Done => ScanResult::Found(i, addr),
                    RangeOutcome::Full => ScanResult::Full,
                    _ => io_bottom_up_scan(s, i + 1, io_type, alignment, len, max_address, t),
                }
            }
        }
    }
}

/// Result of the top-down search from block `i` down.
pub open spec fn io_top_down_scan(
    s: Seq<IoBlock>,
    i: int,
    io_type: GcdIoType,
    alignment: u32,
    len: usize,
    min_address: usize,
    t: IoStateTransition,
) -> ScanResult
    decreases i + 1,
{
    if i < 0 || i >= s.len() {
        ScanResult::NotFound
    } else {
        let mb = s[i];
        if mb.spec_len() < len {
            io_top_down_scan(s, i - 1, io_type, alignment, len, min_address, t)
        } else if mb.spec_end() - len < mb.spec_start() {
            io_top_down_scan(s, i - 1, io_type, alignment, len, min_address, t)
        } else {
            let addr = align_down((mb.spec_end() - len) as usize, alignment);
            if addr < min_address {
                ScanResult::NotFound
            } else if mb.desc().io_type != io_type {
                io_top_down_scan(s, i - 1, io_type, alignment, len, min_address, t)
            } else {
                match outcome_at(s, i, addr as int, len as int, t) {
                    RangeOutcome::Done => ScanResult::Found(i, addr as int),
                    RangeOutcome::Full => ScanResult::Full,
                    _ => io_top_down_scan(s, i - 1, io_type, alignment, len, min_address, t),
                }
            }
        }
    }
}

/// The error that applying `t` to the range inside the block holding `base`
/// ends in (`outside` when the range leaves the block, `refused` when the
/// block refuses), or `None` when the transition is applied.
pub open spec fn io_range_error(
    s: Seq<IoBlock>,
    base: int,
    len: int,
    t: IoStateTransition,
    outside: Error,
    refused: Error,
) -> Option<Error> {
    match outcome_at(s, block_index_of(s, base), base, len, t) {
        RangeOutcome::OutsideBlock => Some(outside),
        RangeOutcome::Refused => Some(refused),
        RangeOutcome::Full => Some(Error::OutOfResources),
        RangeOutcome::Done => None,
    }
}

/// What `allocate` with the bottom-up strategy does to the IoGCD and returns.
pub open spec fn io_bottom_up_result(
    old: &IoGCD,
    new: &IoGCD,
    r: Result<usize, Error>,
    io_type: GcdIoType,
    alignment: u32,
    len: usize,
    image_handle: usize,
    device_handle: Option<usize>,
    max_address: usize,
) -> bool {
    let t = IoStateTransition::Allocate(image_handle, device_handle);
    if len == 0 {
        r == Err::<usize, Error>(Error::InvalidParameter) && new.same_map(old)
    } else {
        match io_bottom_up_scan(old.blocks(), 0, io_type, alignment, len, max_address, t) {
            ScanResult::Found(i, addr) => r == Ok::<usize, Error>(addr as usize) && new.updated(
                old,
                i,
                addr,
                len as int,
                t,
            ),
            ScanResult::Full => r == Err::<usize, Error>(Error::OutOfResources) && new.same_map_in_use(old),
            ScanResult::NotFound => r == Err::<usize, Error>(Error::NotFound) && new.same_map_in_use(old),
        }
    }
}

/// What `allocate` with the top-down strategy does to the IoGCD and returns.
pub open spec fn io_top_down_result(
    old: &IoGCD,
    new: &IoGCD,
    r: Result<usize, Error>,
    io_type: GcdIoType,
    alignment: u32,
    len: usize,
    image_handle: usize,
    device_handle: Option<usize>,
    min_address: usize,
) -> bool {
    let t = IoStateTransition::Allocate(image_handle, device_handle);
    if len == 0 {
        r == Err::<usize, Error>(Error::InvalidParameter) && new.same_map(old)
    } else {
        match io_top_down_scan(old.blocks(), old.blocks().len() - 1, io_type, alignment, len, min_address, t) {
            ScanResult::Found(i, addr) => r == Ok::<usize, Error>(addr as usize) && new.updated(
                old,
                i,
                addr,
                len as int,
                t,
            ),
            ScanResult::Full => r == Err::<usize, Error>(Error::OutOfResources) && new.same_map_in_use(old),
            ScanResult::NotFound => r == Err::<usize, Error>(Error::NotFound) && new.same_map_in_use(old),
        }
    }
}

/// What `allocate` at a given address does to the IoGCD and returns.
pub open spec fn io_address_result(
    old: &IoGCD,
    new: &IoGCD,
    r: Result<usize, Error>,
    io_type: GcdIoType,
    alignment: u32,
    len: usize,
    image_handle: usize,
    device_handle: Option<usize>,
    address: usize,
) -> bool {
    let t = IoStateTransition::Allocate(image_handle, device_handle);
    let s = old.blocks();
    let i = block_index_of(s, address as int);
    if len == 0 {
        r == Err::<usize, Error>(Error::InvalidParameter) && new.same_map(old)
    } else if s[i].desc().io_type != io_type || address != align_down(address, alignment) {
        r == Err::<usize, Error>(Error::NotFound) && new.same_map_in_use(old)
    } else {
        match io_range_error(s, address as int, len as int, t, Error::NotFound, Error::NotFound) {
            Some(e) => r == Err::<usize, Error>(e) && new.same_map_in_use(old),
            None => r == Ok::<usize, Error>(address) && new.updated(old, i, address as int, len as int, t),
        }
    }
}

/// What adding I/O space does: the result and the I/O map afterwards; on
/// success, the index of a block that holds the range.
pub open spec fn io_add_result(
    g0: &IoGCD,
    g1: &IoGCD,
    r: Result<usize, Error>,
    io_type: GcdIoType,
    base_address: usize,
    len: usize,
) -> bool {
    let s = g0.blocks();
    let max = g0.maximum_address;
    let t = IoStateTransition::Add(io_type);
    if max == 0 {
        r == Err::<usize, Error>(Error::NotInitialized) && g1.same_map(g0)
    } else if len == 0 {
        r == Err::<usize, Error>(Error::InvalidParameter) && g1.same_map(g0)
    } else if base_address + len > max {
        r == Err::<usize, Error>(Error::Unsupported) && g1.same_map(g0)
    } else if s[block_index_of(s, base_address as int)].desc().io_type != GcdIoType::NonExistent {
        r == Err::<usize, Error>(Error::AccessDenied) && g1.same_map_in_use(g0)
    } else {
        match io_range_error(
            s,
            base_address as int,
            len as int,
            t,
            Error::AccessDenied,
            Error::InvalidParameter,
        ) {
            Some(e) => r == Err::<usize, Error>(e) && g1.same_map_in_use(g0),
            None => r matches Ok(f) && g1.updated(
                g0,
                block_index_of(s, base_address as int),
                base_address as int,
                len as int,
                t,
            ) && f < g1.blocks().len() && range_inside(
                g1.blocks()[f as int],
                base_address as int,
                len as int,
            ),
        }
    }
}

/// What allocating I/O space does: the result and the I/O map afterwards, by strategy.
pub open spec fn io_allocation_result(
    g0: &IoGCD,
    g1: &IoGCD,
    r: Result<usize, Error>,
    allocate_type: AllocateType,
    io_type: GcdIoType,
    alignment: u32,
    len: usize,
    image_handle: usize,
    device_handle: Option<usize>,
) -> bool {
    if g0.maximum_address == 0 {
        r == Err::<usize, Error>(Error::NotInitialized) && g1.same_map(g0)
    } else if len == 0 || image_handle == 0 {
        r == Err::<usize, Error>(Error::InvalidParameter) && g1.same_map(g0)
    } else {
        match allocate_type {
            AllocateType::BottomUp(max_address) => io_bottom_up_result(
                g0,
                g1,
                r,
                io_type,
                alignment,
                len,
                image_handle,
                device_handle,
                match max_address {
                    Some(m) => m,
                    None => usize::MAX,
                },
            ),
            AllocateType::TopDown(min_address) => io_top_down_result(
                g0,
                g1,
                r,
                io_type,
                alignment,
                len,
                image_handle,
                device_handle,
                match min_address {
                    Some(m) => m,
                    None => 0,
                },
            ),
            AllocateType::Address(address) => if address + len > g0.maximum_address {
                r == Err::<usize, Error>(Error::Unsupported) && g1.same_map(g0)
            } else {
                io_address_result(
                    g0,
                    g1,
                    r,
                    io_type,
                    alignment,
                    len,
                    image_handle,
                    device_handle,
                    address,
                )
            },
        }
    }
}

/// What a service that applies `t` to `len` bytes at `base` does to the IoGCD
/// and returns; `outside` and `refused` are its errors for a range that
/// leaves its block and for a block that refuses the transition.
pub open spec fn io_range_service_result(
    old: &IoGCD,
    new: &IoGCD,
    r: Result<(), Error>,
    base: usize,
    len: usize,
    t: IoStateTransition,
    outside: Error,
    refused: Error,
) -> bool {
    let s = old.blocks();
    if old.maximum_address == 0 {
        r == Err::<(), Error>(Error::NotInitialized) && new.same_map(old)
    } else if len == 0 {
        r == Err::<(), Error>(Error::InvalidParameter) && new.same_map(old)
    } else if base + len > old.maximum_address {
        r == Err::<(), Error>(Error::Unsupported) && new.same_map(old)
    } else {
        match io_range_error(s, base as int, len as int, t, outside, refused) {
            Some(e) => r == Err::<(), Error>(e) && new.same_map_in_use(old),
            None => r is Ok && new.updated(old, block_index_of(s, base as int), base as int, len as int, t),
        }
    }
}

/// The I/O map before any block was added: one block of non-existent I/O
/// space over the whole address space.
pub open spec fn initial_io_block(max: usize) -> IoBlock {
    IoBlock::Unallocated(
        IoSpaceDescriptor {
            base_address: 0,
            length: max as u64,
            io_type: GcdIoType::NonExistent,
            image_handle: 0,
            device_handle: 0,
        },
    )
}

impl IoGCD {
    /// Two I/O GCDs hold the same address space and the same I/O map.
    pub open spec fn same_map(&self, other: &Self) -> bool {
        &&& self.maximum_address == other.maximum_address
        &&& self.blocks() == other.blocks()
    }

    /// The same I/O map as `other`, now held in a block list.
    pub open spec fn same_map_in_use(&self, other: &Self) -> bool {
        &&& self.same_map(other)
        &&& self.io_blocks is Some
    }

    /// `self` is `old` with `t` applied to `len` bytes at `base`, inside block `i`.
    pub open spec fn updated(&self, old: &Self, i: int, base: int, len: int, t: IoStateTransition) -> bool {
        &&& self.maximum_address == old.maximum_address
        &&& self.io_blocks is Some
        &&& transition_applied(old.blocks(), self.blocks(), i, base, len, t)
    }

    /// The I/O map; before the block list exists it is one non-existent block.
    pub open spec fn blocks(&self) -> Seq<IoBlock> {
        match &self.io_blocks {
            Some(v) => v@,
            None => seq![initial_io_block(self.maximum_address)],
        }
    }

    /// The invariant: the address space is no larger than half the address
    /// range; once initialized, the I/O map covers exactly the address space
    /// with no mergeable neighbours.
    pub open spec fn wf(&self) -> bool {
        &&& self.maximum_address <= max_address_limit()
        &&& self.io_blocks is Some ==> self.maximum_address > 0
        &&& self.maximum_address > 0 ==> map_wf(self.blocks()) && map_end(self.blocks()) == self.maximum_address
    }

    /// The state of the I/O space at address `a`.
    pub open spec fn state_at(&self, a: int) -> IoBlock {
        state_at(self.blocks(), a)
    }

    /// An I/O GCD for an address space of `io_address_bits` bits.
    pub fn new(io_address_bits: u32) -> (r: Self)
        requires
            0 < io_address_bits < usize::BITS,
        ensures
            r.wf(),
            r.maximum_address == 1usize << io_address_bits,
            r.io_blocks is None,
    {
        proof {
            lemma_align(0, io_address_bits);
        }
        IoGCD { io_blocks: None, maximum_address: 1usize << io_address_bits }
    }

    /// Sets the I/O address space to `io_address_bits` bits.
    pub fn init(&mut self, io_address_bits: u32)
        requires
            old(self).io_blocks is None,
            io_address_bits < usize::BITS,
        ensures
            final(self).wf(),
            final(self).maximum_address == 1usize << io_address_bits,
            final(self).io_blocks is None,
    {
        proof {
            lemma_align(0, io_address_bits);
            if io_address_bits > 0 {
                let s = seq![initial_io_block(1usize << io_address_bits)];
                assert(map_wf(s));
            }
        }
        self.maximum_address = 1usize << io_address_bits;
    }

    /// Creates the block list: one block of non-existent I/O space.
    fn init_io_blocks(&mut self) -> (r: Result<(), Error>)
        requires
            old(self).wf(),
            old(self).io_blocks is None,
        ensures
            final(self).wf(),
            final(self).maximum_address == old(self).maximum_address,
            final(self).blocks() == old(self).blocks(),
            old(self).maximum_address == 0 ==> r == Err::<(), Error>(Error::NotInitialized) && final(self).io_blocks is None,
            old(self).maximum_address > 0 ==> r is Ok && final(self).io_blocks is Some,
    {
        if self.maximum_address == 0 {
            return Err(Error::NotInitialized);
        }
        let mut io_blocks: Vec<IoBlock> = Vec::new();
        io_blocks.push(
            IoBlock::Unallocated(
                IoSpaceDescriptor {
                    io_type: GcdIoType::NonExistent,
                    base_address: 0,
                    length: self.maximum_address as u64,
                    ..IoSpaceDescriptor::empty()
                },
            ),
        );
        assert(io_blocks@ =~= old(self).blocks());
        self.io_blocks = Some(io_blocks);
        Ok(())
    }

    /// Takes the block list out, creating it first when needed.
    fn take_io_blocks(&mut self) -> (v: Vec<IoBlock>)
        requires
            old(self).wf(),
            old(self).maximum_address > 0,
        ensures
            v@ == old(self).blocks(),
            map_wf(v@),
            map_end(v@) == old(self).maximum_address,
            final(self).io_blocks is None,
            final(self).maximum_address == old(self).maximum_address,
    {
        if self.io_blocks.is_none() {
            let _ = self.init_io_blocks();
        }
        match self.io_blocks.take() {
            Some(v) => v,
            None => {
                assert(false);
                Vec::new()
            },
        }
    }

    /// Index of the block that covers `address`.
    fn find_block(io_blocks: &Vec<IoBlock>, address: usize) -> (r: usize)
        requires
            map_wf(io_blocks@),
            address < map_end(io_blocks@),
        ensures
            r == block_index_of(io_blocks@, address as int),
            r < io_blocks@.len(),
            covers(io_blocks@[r as int], address as int),
    {
        proof {
            lemma_covered(io_blocks@, address as int);
        }
        let ghost target = block_index_of(io_blocks@, address as int);
        let mut i: usize = 0;
        while i < io_blocks.len()
            invariant
                0 <= i <= io_blocks@.len(),
                map_wf(io_blocks@),
                0 <= target < io_blocks@.len(),
                covers(io_blocks@[target], address as int),
                target == block_index_of(io_blocks@, address as int),
                i <= target,
            decreases io_blocks@.len() - i,
        {
            proof {
                lemma_block_below_end(io_blocks@, i as int);
            }
            let b = io_blocks[i];
            if b.start() <= address && address < b.end() {
                proof {
                    lemma_index_unique(io_blocks@, i as int, address as int);
                }
                return i;
            }
            assert(i != target);
            i = i + 1;
        }
        i
    }

    /// Adds reserved or system I/O space to the address space; returns the
    /// index of the block that holds the range.
    pub fn add_io_space(&mut self, io_type: GcdIoType, base_address: usize, len: usize) -> (r: Result<usize, Error>)
        requires
            old(self).wf(),
            base_address + len <= usize::MAX,
        ensures
            final(self).wf(),
            io_add_result(old(self), final(self), r, io_type, base_address, len),
    {
        if self.maximum_address == 0 {
            return Err(Error::NotInitialized);
        }
        if len == 0 {
            return Err(Error::InvalidParameter);
        }
        if base_address + len > self.maximum_address {
            return Err(Error::Unsupported);
        }
        let mut io_blocks = self.take_io_blocks();
        let idx = Self::find_block(&io_blocks, base_address);
        if io_blocks[idx].as_ref().io_type != GcdIoType::NonExistent {
            self.io_blocks = Some(io_blocks);
            return Err(Error::AccessDenied);
        }
        let res = Self::split_state_transition_at_idx(&mut io_blocks, idx, base_address, len, IoStateTransition::Add(io_type));
        self.io_blocks = Some(io_blocks);
        match res {
            Ok(idx) => Ok(idx),
            Err(InternalError::IoBlockErr(IoBlockError::BlockOutsideRange)) => Err(Error::AccessDenied),
            Err(InternalError::IoBlockErr(IoBlockError::InvalidStateTransition)) => Err(Error::InvalidParameter),
            Err(InternalError::NotEnoughMemory) => Err(Error::OutOfResources),
            Err(InternalError::MemoryBlockErr(_)) => {
                assert(false);
                Err(Error::OutOfResources)
            },
        }
    }

    /// Removes reserved or system I/O space from the address space.
    pub fn remove_io_space(&mut self, base_address: usize, len: usize) -> (r: Result<(), Error>)
        requires
            old(self).wf(),
            base_address + len <= usize::MAX,
        ensures
            final(self).wf(),
            ({
                let s = old(self).blocks();
                let refused = if s[block_index_of(s, base_address as int)] is Allocated {
                    Error::AccessDenied
                } else {
                    Error::NotFound
                };
                io_range_service_result(
                    old(self),
                    final(self),
                    r,
                    base_address,
                    len,
                    IoStateTransition::Remove,
                    Error::NotFound,
                    refused,
                )
            }),
    {
        if self.maximum_address == 0 {
            return Err(Error::NotInitialized);
        }
        if len == 0 {
            return Err(Error::InvalidParameter);
        }
        if base_address + len > self.maximum_address {
            return Err(Error::Unsupported);
        }
        let mut io_blocks = self.take_io_blocks();
        let idx = Self::find_block(&io_blocks, base_address);
        let res = Self::split_state_transition_at_idx(&mut io_blocks, idx, base_address, len, IoStateTransition::Remove);
        let r = match res {
            Ok(_) => Ok(()),
            Err(InternalError::IoBlockErr(IoBlockError::BlockOutsideRange)) => Err(Error::NotFound),
            Err(InternalError::IoBlockErr(IoBlockError::InvalidStateTransition)) => {
                match io_blocks[idx] {
                    IoBlock::Unallocated(_) => Err(Error::NotFound),
                    IoBlock::Allocated(_) => Err(Error::AccessDenied),
                }
            },
            Err(InternalError::NotEnoughMemory) => Err(Error::OutOfResources),
            Err(InternalError::MemoryBlockErr(_)) => {
                assert(false);
                Err(Error::OutOfResources)
            },
        };
        self.io_blocks = Some(io_blocks);
        r
    }

    /// Allocates I/O space of `io_type`: `len` bytes aligned to
    /// `2^alignment`, placed as `allocate_type` says, owned by `image_handle`
    /// (and `device_handle`). Returns the address.
    pub fn allocate_io_space(
        &mut self,
        allocate_type: AllocateType,
        io_type: GcdIoType,
        alignment: u32,
        len: usize,
        image_handle: usize,
        device_handle: Option<usize>,
    ) -> (r: Result<usize, Error>)
        requires
            old(self).wf(),
            alignment < usize::BITS,
            allocate_type matches AllocateType::Address(address) ==> address + len <= usize::MAX,
        ensures
            final(self).wf(),
            io_allocation_result(
                old(self),
                final(self),
                r,
                allocate_type,
                io_type,
                alignment,
                len,
                image_handle,
                device_handle,
            ),
    {
        if self.maximum_address == 0 {
            return Err(Error::NotInitialized);
        }
        if !(len > 0 && image_handle > 0) {
            return Err(Error::InvalidParameter);
        }
        match allocate_type {
            AllocateType::BottomUp(max_address) => {
                let m = match max_address {
                    Some(m) => m,
                    None => usize::MAX,
                };
                self.allocate_bottom_up(io_type, alignment, len, image_handle, device_handle, m)
            },
            AllocateType::TopDown(min_address) => {
                let m = match min_address {
                    Some(m) => m,
                    None => 0,
                };
                self.allocate_top_down(io_type, alignment, len, image_handle, device_handle, m)
            },
            AllocateType::Address(address) => {
                if address + len > self.maximum_address {
                    return Err(Error::Unsupported);
                }
                self.allocate_address(io_type, alignment, len, image_handle, device_handle, address)
            },
        }
    }

    fn allocate_bottom_up(
        &mut self,
        io_type: GcdIoType,
        alignment: u32,
        len: usize,
        image_handle: usize,
        device_handle: Option<usize>,
        max_address: usize,
    ) -> (r: Result<usize, Error>)
        requires
            old(self).wf(),
            old(self).maximum_address > 0,
            alignment < usize::BITS,
        ensures
            final(self).wf(),
            len > 0 ==> final(self).io_blocks is Some,
            io_bottom_up_result(
                old(self),
                final(self),
                r,
                io_type,
                alignment,
                len,
                image_handle,
                device_handle,
                max_address,
            ),
    {
        if len == 0 {
            return Err(Error::InvalidParameter);
        }
        let mut io_blocks = self.take_io_blocks();
        let ghost s = io_blocks@;
        let t = IoStateTransition::Allocate(image_handle, device_handle);
        let mut i: usize = 0;
        while i < io_blocks.len()
            invariant
                io_blocks@ == s,
                map_wf(s),
                map_end(s) == old(self).maximum_address,
                old(self).wf(),
                old(self).blocks() == s,
                self.io_blocks is None,
                self.maximum_address == old(self).maximum_address,
                len > 0,
                alignment < usize::BITS,
                t == IoStateTransition::Allocate(image_handle, device_handle),
                0 <= i <= s.len(),
                io_bottom_up_scan(s, 0, io_type, alignment, len, max_address, t) == io_bottom_up_scan(
                    s,
                    i as int,
                    io_type,
                    alignment,
                    len,
                    max_address,
                    t,
                ),
            decreases s.len() - i,
        {
            proof {
                lemma_block_below_end(s, i as int);
            }
            let mb = io_blocks[i];
            if mb.len() < len {
                i = i + 1;
                continue;
            }
            let address = mb.start();
            proof {
                lemma_align(address, alignment);
            }
            let mut addr = address & (usize::MAX << alignment);
            if addr < address {
                addr = addr + (1usize << alignment);
            }
            if addr + len > max_address {
                self.io_blocks = Some(io_blocks);
                return Err(Error::NotFound);
            }
            if mb.as_ref().io_type != io_type {
                i = i + 1;
                continue;
            }
            match Self::split_state_transition_at_idx(&mut io_blocks, i, addr, len, t) {
                Ok(_) => {
                    self.io_blocks = Some(io_blocks);
                    return Ok(addr);
                },
                Err(InternalError::IoBlockErr(_)) => {
                    i = i + 1;
                    continue;
                },
                Err(InternalError::NotEnoughMemory) => {
                    self.io_blocks = Some(io_blocks);
                    return Err(Error::OutOfResources);
                },
                Err(InternalError::MemoryBlockErr(_)) => {
                    assert(false);
                    self.io_blocks = Some(io_blocks);
                    return Err(Error::OutOfResources);
                },
            }
        }
        self.io_blocks = Some(io_blocks);
        Err(Error::NotFound)
    }

    fn allocate_top_down(
        &mut self,
        io_type: GcdIoType,
        alignment: u32,
        len: usize,
        image_handle: usize,
        device_handle: Option<usize>,
        min_address: usize,
    ) -> (r: Result<usize, Error>)
        requires
            old(self).wf(),
            old(self).maximum_address > 0,
            alignment < usize::BITS,
        ensures
            final(self).wf(),
            len > 0 ==> final(self).io_blocks is Some,
            io_top_down_result(
                old(self),
                final(self),
                r,
                io_type,
                alignment,
                len,
                image_handle,
                device_handle,
                min_address,
            ),
    {
        if len == 0 {
            return Err(Error::InvalidParameter);
        }
        let mut io_blocks = self.take_io_blocks();
        let ghost s = io_blocks@;
        let t = IoStateTransition::Allocate(image_handle, device_handle);
        let mut i: usize = io_blocks.len();
        while i > 0
            invariant
                io_blocks@ == s,
                map_wf(s),
                map_end(s) == old(self).maximum_address,
                old(self).wf(),
                old(self).blocks() == s,
                self.io_blocks is None,
                self.maximum_address == old(self).maximum_address,
                len > 0,
                alignment < usize::BITS,
                t == IoStateTransition::Allocate(image_handle, device_handle),
                0 <= i <= s.len(),
                io_top_down_scan(s, s.len() - 1, io_type, alignment, len, min_address, t) == io_top_down_scan(
                    s,
                    i - 1,
                    io_type,
                    alignment,
                    len,
                    min_address,
                    t,
                ),
            decreases i,
        {
            let j = i - 1;
            proof {
                lemma_block_below_end(s, j as int);
            }
            let mb = io_blocks[j];
            if mb.len() < len {
                i = j;
                continue;
            }
            let mut addr = mb.end() - len;
            if addr < mb.start() {
                i = j;
                continue;
            }
            proof {
                lemma_align(addr, alignment);
            }
            addr = addr & (usize::MAX << alignment);
            if addr < min_address {
                self.io_blocks = Some(io_blocks);
                return Err(Error::NotFound);
            }
            if mb.as_ref().io_type != io_type {
                i = j;
                continue;
            }
            match Self::split_state_transition_at_idx(&mut io_blocks, j, addr, len, t) {
                Ok(_) => {
                    self.io_blocks = Some(io_blocks);
                    return Ok(addr);
                },
                Err(InternalError::IoBlockErr(_)) => {
                    i = j;
                    continue;
                },
                Err(InternalError::NotEnoughMemory) => {
                    self.io_blocks = Some(io_blocks);
                    return Err(Error::OutOfResources);
                },
                Err(InternalError::MemoryBlockErr(_)) => {
                    assert(false);
                    self.io_blocks = Some(io_blocks);
                    return Err(Error::OutOfResources);
                },
            }
        }
        self.io_blocks = Some(io_blocks);
        Err(Error::NotFound)
    }

    fn allocate_address(
        &mut self,
        io_type: GcdIoType,
        alignment: u32,
        len: usize,
        image_handle: usize,
        device_handle: Option<usize>,
        address: usize,
    ) -> (r: Result<usize, Error>)
        requires
            old(self).wf(),
            alignment < usize::BITS,
            address + len <= old(self).maximum_address,
        ensures
            final(self).wf(),
            len > 0 ==> final(self).io_blocks is Some,
            io_address_result(
                old(self),
                final(self),
                r,
                io_type,
                alignment,
                len,
                image_handle,
                device_handle,
                address,
            ),
    {
        if len == 0 {
            return Err(Error::InvalidParameter);
        }
        let mut io_blocks = self.take_io_blocks();
        let idx = Self::find_block(&io_blocks, address);
        if !(io_blocks[idx].as_ref().io_type == io_type && address == address & (usize::MAX
            << alignment)) {
            self.io_blocks = Some(io_blocks);
            return Err(Error::NotFound);
        }
        let res = Self::split_state_transition_at_idx(
            &mut io_blocks,
            idx,
            address,
            len,
            IoStateTransition::Allocate(image_handle, device_handle),
        );
        self.io_blocks = Some(io_blocks);
        match res {
            Ok(_) => Ok(address),
            Err(InternalError::IoBlockErr(_)) => Err(Error::NotFound),
            Err(InternalError::NotEnoughMemory) => Err(Error::OutOfResources),
            Err(InternalError::MemoryBlockErr(_)) => {
                assert(false);
                Err(Error::OutOfResources)
            },
        }
    }

    /// Frees I/O space allocated from the address space.
    pub fn free_io_space(&mut self, base_address: usize, len: usize) -> (r: Result<(), Error>)
        requires
            old(self).wf(),
            base_address + len <= usize::MAX,
        ensures
            final(self).wf(),
            io_range_service_result(
                old(self),
                final(self),
                r,
                base_address,
                len,
                IoStateTransition::Free,
                Error::NotFound,
                Error::NotFound,
            ),
    {
        if self.maximum_address == 0 {
            return Err(Error::NotInitialized);
        }
        if len == 0 {
            return Err(Error::InvalidParameter);
        }
        if base_address + len > self.maximum_address {
            return Err(Error::Unsupported);
        }
        let mut io_blocks = self.take_io_blocks();
        let idx = Self::find_block(&io_blocks, base_address);
        let res = Self::split_state_transition_at_idx(&mut io_blocks, idx, base_address, len, IoStateTransition::Free);
        self.io_blocks = Some(io_blocks);
        match res {
            Ok(_) => Ok(()),
            Err(InternalError::IoBlockErr(_)) => Err(Error::NotFound),
            Err(InternalError::NotEnoughMemory) => Err(Error::OutOfResources),
            Err(InternalError::MemoryBlockErr(_)) => {
                assert(false);
                Err(Error::OutOfResources)
            },
        }
    }

    /// Copies the descriptors of all blocks, in address order, into `buffer`,
    /// which must be empty and able to hold them without growing.
    pub fn get_io_descriptors(&mut self, buffer: &mut Vec<IoSpaceDescriptor>) -> (r: Result<(), Error>)
        requires
            old(self).wf(),
        ensures
            final(self).same_map(old(self)),
            final(self).io_blocks is Some <==> old(self).io_blocks is Some,
            final(self).wf(),
            old(self).maximum_address == 0 ==> r == Err::<(), Error>(Error::NotInitialized) && final(buffer)@
                == old(buffer)@,
            old(self).maximum_address != 0 && old(buffer)@.len() != 0 ==> r == Err::<(), Error>(
                Error::InvalidParameter,
            ) && final(buffer)@ == old(buffer)@,
            old(self).maximum_address != 0 && old(buffer)@.len() == 0 && old(self).io_blocks is None ==> r == Err::<
                (),
                Error,
            >(Error::NotFound) && final(buffer)@ == old(buffer)@,
            old(self).maximum_address != 0 && old(buffer)@.len() == 0 && old(self).io_blocks is Some ==> (r is Ok
                && final(buffer)@ == old(self).blocks().map_values(|b: IoBlock| b.desc())) || (r == Err::<(), Error>(
                Error::InvalidParameter,
            ) && final(buffer)@ == old(buffer)@),
    {
        if self.maximum_address == 0 {
            return Err(Error::NotInitialized);
        }
        if vec_capacity(buffer) < self.io_descriptor_count() {
            return Err(Error::InvalidParameter);
        }
        if buffer.len() != 0 {
            return Err(Error::InvalidParameter);
        }
        match &self.io_blocks {
            Some(blocks) => {
                let mut i: usize = 0;
                while i < blocks.len()
                    invariant
                        0 <= i <= blocks@.len(),
                        buffer@ == blocks@.subrange(0, i as int).map_values(|b: IoBlock| b.desc()),
                    decreases blocks@.len() - i,
                {
                    buffer.push(*blocks[i].as_ref());
                    assert(blocks@.subrange(0, i + 1).map_values(|b: IoBlock| b.desc()) =~= blocks@.subrange(
                        0,
                        i as int,
                    ).map_values(|b: IoBlock| b.desc()).push(blocks@[i as int].desc()));
                    i = i + 1;
                }
                assert(blocks@.subrange(0, blocks@.len() as int) =~= blocks@);
                Ok(())
            },
            None => Err(Error::NotFound),
        }
    }

    /// Number of blocks in the block list (0 before it exists).
    pub fn io_descriptor_count(&self) -> (r: usize)
        ensures
            r == (if self.io_blocks is Some { self.blocks().len() } else { 0 }),
    {
        match &self.io_blocks {
            Some(v) => v.len(),
            None => 0,
        }
    }

    /// Splits the block at `idx` at the range, applies `transition` to the
    /// range and merges the result with its neighbours where they are in the
    /// same state. Returns the index of the block that holds the range.
    fn split_state_transition_at_idx(
        io_blocks: &mut Vec<IoBlock>,
        idx: usize,
        base_address: usize,
        len: usize,
        transition: IoStateTransition,
    ) -> (r: Result<usize, InternalError>)
        requires
            map_wf(old(io_blocks)@),
            idx < old(io_blocks)@.len(),
            base_address + len <= usize::MAX,
        ensures
            ({
                let s = old(io_blocks)@;
                match outcome_at(s, idx as int, base_address as int, len as int, transition) {
                    RangeOutcome::OutsideBlock => r == Err::<usize, InternalError>(
                        InternalError::IoBlockErr(IoBlockError::BlockOutsideRange),
                    ) && final(io_blocks)@ == s,
                    RangeOutcome::Refused => r == Err::<usize, InternalError>(
                        InternalError::IoBlockErr(IoBlockError::InvalidStateTransition),
                    ) && final(io_blocks)@ == s,
                    RangeOutcome::Full => r == Err::<usize, InternalError>(InternalError::NotEnoughMemory)
                        && final(io_blocks)@ == s,
                    RangeOutcome::Done => r matches Ok(f) && transition_applied(
                        s,
                        final(io_blocks)@,
                        idx as int,
                        base_address as int,
                        len as int,
                        transition,
                    ) && f < final(io_blocks)@.len() && range_inside(
                        final(io_blocks)@[f as int],
                        base_address as int,
                        len as int,
                    ) && final(io_blocks)@.len() <= s.len() + 2,
                }
            }),
    {
        let ghost s = io_blocks@;
        let mut mb = io_blocks[idx];
        proof {
            lemma_block_below_end(s, idx as int);
            mb.lemma_transition_keeps_range(transition);
        }
        let split = mb.split_state_transition(base_address, len, transition);
        let split = match split {
            Err(e) => return Err(InternalError::IoBlockErr(e)),
            Ok(split) => split,
        };
        let extra: usize = match split {
            IoBlockSplit::Same => 0,
            IoBlockSplit::Before(_) => 1,
            IoBlockSplit::After(_) => 1,
            IoBlockSplit::Middle(_, _) => 2,
        };
        if io_blocks.len() + extra > IO_BLOCK_SLICE_LEN {
            return Err(InternalError::NotEnoughMemory);
        }
        let ghost b = s[idx as int];
        let new_idx = Self::place_split(io_blocks, idx, mb, split);
        proof {
            let p = io_split_pieces(mb, split);
            let k = io_split_mid(split);
            lemma_replace_applies(s, idx as int, p, k, base_address as int, len as int, transition);
            assert(io_blocks@ =~= s.subrange(0, idx as int) + p + s.subrange(idx + 1, s.len() as int));
        }
        let ghost l = io_blocks@;
        let f = Self::merge_neighbours(io_blocks, new_idx);
        proof {
            assert forall|a: int| 0 <= a < map_end(s) implies #[trigger] state_at(io_blocks@, a)
                == applied_state(s, idx as int, base_address as int, len as int, transition, a) by {
                assert(state_at(io_blocks@, a) == state_at(l, a));
                assert(state_at(l, a) == applied_state(s, idx as int, base_address as int, len as int, transition, a));
            }
        }
        Ok(f)
    }

    /// Writes the first piece of a split block back at `idx` and inserts the
    /// other pieces after it; returns the index of the piece that holds the range.
    fn place_split(io_blocks: &mut Vec<IoBlock>, idx: usize, first: IoBlock, split: IoBlockSplit) -> (r:
        usize)
        requires
            idx < old(io_blocks)@.len(),
            old(io_blocks)@.len() + io_split_pieces(first, split).len() - 1 <= IO_BLOCK_SLICE_LEN,
        ensures
            final(io_blocks)@ == old(io_blocks)@.subrange(0, idx as int) + io_split_pieces(first, split)
                + old(io_blocks)@.subrange(idx + 1, old(io_blocks)@.len() as int),
            r == idx + io_split_mid(split),
    {
        let ghost s = io_blocks@;
        io_blocks.set(idx, first);
        match split {
            IoBlockSplit::Same => {
                assert(io_blocks@ =~= s.subrange(0, idx as int) + io_split_pieces(first, split) + s.subrange(
                    idx + 1,
                    s.len() as int,
                ));
                idx
            },
            IoBlockSplit::Before(next) => {
                io_blocks.insert(idx + 1, next);
                assert(io_blocks@ =~= s.subrange(0, idx as int) + io_split_pieces(first, split) + s.subrange(
                    idx + 1,
                    s.len() as int,
                ));
                idx
            },
            IoBlockSplit::After(next) => {
                io_blocks.insert(idx + 1, next);
                assert(io_blocks@ =~= s.subrange(0, idx as int) + io_split_pieces(first, split) + s.subrange(
                    idx + 1,
                    s.len() as int,
                ));
                idx + 1
            },
            IoBlockSplit::Middle(next, last) => {
                io_blocks.insert(idx + 1, next);
                io_blocks.insert(idx + 2, last);
                assert(io_blocks@ =~= s.subrange(0, idx as int) + io_split_pieces(first, split) + s.subrange(
                    idx + 1,
                    s.len() as int,
                ));
                idx + 1
            },
        }
    }

    /// Merges the block at `m` with its right and then its left neighbour
    /// where they are in the same state; returns the index of the block that
    /// now holds the range of block `m`.
    fn merge_neighbours(io_blocks: &mut Vec<IoBlock>, m: usize) -> (r: usize)
        requires
            contiguous(old(io_blocks)@),
            m < old(io_blocks)@.len(),
            map_end(old(io_blocks)@) <= usize::MAX,
            old(io_blocks)@.len() <= IO_BLOCK_SLICE_LEN,
            forall|i: int|
                0 <= i < old(io_blocks)@.len() - 1 && i != m - 1 && i != m ==> !#[trigger] pair_same(
                    old(io_blocks)@,
                    i,
                ),
        ensures
            map_wf(final(io_blocks)@),
            map_end(final(io_blocks)@) == map_end(old(io_blocks)@),
            final(io_blocks)@.len() <= old(io_blocks)@.len(),
            r < final(io_blocks)@.len(),
            final(io_blocks)@[r as int].spec_start() <= old(io_blocks)@[m as int].spec_start(),
            old(io_blocks)@[m as int].spec_end() <= final(io_blocks)@[r as int].spec_end(),
            forall|a: int|
                0 <= a < map_end(old(io_blocks)@) ==> #[trigger] state_at(final(io_blocks)@, a)
                    == state_at(old(io_blocks)@, a),
    {
        let ghost l = io_blocks@;
        let mut new_idx = m;
        if new_idx + 1 < io_blocks.len() {
            let mut cur = io_blocks[new_idx];
            let mut next = io_blocks[new_idx + 1];
            proof {
                lemma_block_below_end(l, new_idx as int);
                lemma_block_below_end(l, new_idx + 1);
            }
            if cur.merge(&mut next) {
                proof {
                    lemma_merge(l, new_idx as int, cur);
                }
                io_blocks.set(new_idx, cur);
                io_blocks.remove(new_idx + 1);
            }
        }
        let ghost l2 = io_blocks@;
        assert(forall|i: int| 0 <= i < l2.len() - 1 && i != m - 1 ==> !#[trigger] pair_same(l2, i));
        if new_idx > 0 {
            let mut prev = io_blocks[new_idx - 1];
            let mut cur = io_blocks[new_idx];
            proof {
                lemma_block_below_end(l2, new_idx - 1);
                lemma_block_below_end(l2, new_idx as int);
            }
            if prev.merge(&mut cur) {
                proof {
                    lemma_merge(l2, new_idx - 1, prev);
                }
                io_blocks.set(new_idx - 1, prev);
                io_blocks.remove(new_idx);
                new_idx = new_idx - 1;
            }
        }
        new_idx
    }
}

/// A bottom-up scan that finds a place finds it inside a block of the type
/// asked for, one whose state allows the transition.
proof fn lemma_io_bottom_up_found(
    s: Seq<IoBlock>,
    k: int,
    io_type: GcdIoType,
    alignment: u32,
    len: usize,
    max_address: usize,
    t: IoStateTransition,
)
    ensures
        io_bottom_up_scan(s, k, io_type, alignment, len, max_address, t) matches ScanResult::Found(i, addr) ==> 0
            <= i < s.len() && s[i].desc().io_type == io_type && outcome_at(s, i, addr, len as int, t)
            == RangeOutcome::Done && addr == align_up_to(s[i].spec_start() as usize, alignment) && addr + len
            <= max_address,
    decreases s.len() - k,
{
    if 0 <= k < s.len() {
        lemma_io_bottom_up_found(s, k + 1, io_type, alignment, len, max_address, t);
    }
}

/// A top-down scan that finds a place finds it inside a block of the type
/// asked for, one whose state allows the transition.
proof fn lemma_io_top_down_found(
    s: Seq<IoBlock>,
    k: int,
    io_type: GcdIoType,
    alignment: u32,
    len: usize,
    min_address: usize,
    t: IoStateTransition,
)
    ensures
        io_top_down_scan(s, k, io_type, alignment, len, min_address, t) matches ScanResult::Found(i, addr) ==> 0
            <= i < s.len() && s[i].desc().io_type == io_type && outcome_at(s, i, addr, len as int, t)
            == RangeOutcome::Done && addr == align_down((s[i].spec_end() - len) as usize, alignment) && addr
            >= min_address,
    decreases k + 1,
{
    if 0 <= k < s.len() {
        lemma_io_top_down_found(s, k - 1, io_type, alignment, len, min_address, t);
    }
}

/// Allocating `len` bytes at `addr` inside block `i` of the type asked for:
/// every address of the range is free I/O space of that type before, and
/// allocated to the image after.
proof fn lemma_io_allocated_range(
    s: Seq<IoBlock>,
    n: Seq<IoBlock>,
    i: int,
    addr: int,
    len: usize,
    io_type: GcdIoType,
    image_handle: usize,
    device_handle: Option<usize>,
)
    requires
        map_wf(s),
        0 <= i < s.len(),
        s[i].desc().io_type == io_type,
        outcome_at(s, i, addr, len as int, IoStateTransition::Allocate(image_handle, device_handle))
            == RangeOutcome::Done,
        transition_applied(s, n, i, addr, len as int, IoStateTransition::Allocate(image_handle, device_handle)),
    ensures
        0 <= addr,
        addr + len <= map_end(s),
        forall|a: int|
            addr <= a < addr + len ==> (#[trigger] state_at(s, a)) is Unallocated && state_at(s, a).desc().io_type
                == io_type,
        forall|a: int|
            addr <= a < addr + len ==> (#[trigger] state_at(n, a)) is Allocated && state_at(n, a).desc().io_type
                == io_type && state_at(n, a).desc().image_handle == image_handle,
{
    lemma_block_below_end(s, i);
    assert forall|a: int| addr <= a < addr + len implies (#[trigger] state_at(s, a)) is Unallocated && state_at(
        s,
        a,
    ).desc().io_type == io_type by {
        assert(covers(s[i], a));
        lemma_index_unique(s, i, a);
    }
    assert forall|a: int| addr <= a < addr + len implies (#[trigger] state_at(n, a)) is Allocated && state_at(
        n,
        a,
    ).desc().io_type == io_type && state_at(n, a).desc().image_handle == image_handle by {
        assert(state_at(n, a) == applied_state(
            s,
            i,
            addr,
            len as int,
            IoStateTransition::Allocate(image_handle, device_handle),
            a,
        ));
    }
}

/// Allocating I/O space of a type, by any strategy, takes a range of free
/// I/O space of that type: every address of the range returned was
/// unallocated I/O space of the type asked for before the call, and is
/// allocated to the requesting image afterwards, still of that type. The
/// range starts at a multiple of `2^alignment` (its lowest `alignment` bits
/// are clear), ends at or below the maximum address of a bottom-up search,
/// starts at or above the minimum address of a top-down search, and starts
/// at the address asked for by an allocation at an address.
pub proof fn lemma_io_allocation_takes_free_space_of_type(
    g0: IoGCD,
    g1: IoGCD,
    r: Result<usize, Error>,
    allocate_type: AllocateType,
    io_type: GcdIoType,
    alignment: u32,
    len: usize,
    image_handle: usize,
    device_handle: Option<usize>,
    addr: usize,
)
    requires
        g0.wf(),
        alignment < usize::BITS,
        io_allocation_result(&g0, &g1, r, allocate_type, io_type, alignment, len, image_handle, device_handle),
        r == Ok::<usize, Error>(addr),
    ensures
        len > 0,
        addr + len <= g0.maximum_address,
        addr >> alignment << alignment == addr,
        allocate_type matches AllocateType::BottomUp(Some(m)) ==> addr + len <= m,
        allocate_type matches AllocateType::TopDown(Some(m)) ==> addr >= m,
        allocate_type matches AllocateType::Address(a) ==> addr == a,
        forall|a: int|
            addr <= a < addr + len ==> (#[trigger] g0.state_at(a)) is Unallocated && g0.state_at(a).desc().io_type
                == io_type,
        forall|a: int|
            addr <= a < addr + len ==> (#[trigger] g1.state_at(a)) is Allocated && g1.state_at(a).desc().io_type
                == io_type && g1.state_at(a).desc().image_handle == image_handle,
{
    let s = g0.blocks();
    let t = IoStateTransition::Allocate(image_handle, device_handle);
    match allocate_type {
        AllocateType::BottomUp(max_address) => {
            let m = match max_address {
                Some(m) => m,
                None => usize::MAX,
            };
            lemma_io_bottom_up_found(s, 0, io_type, alignment, len, m, t);
            if let ScanResult::Found(i, a0) = io_bottom_up_scan(s, 0, io_type, alignment, len, m, t) {
                lemma_aligned(s[i].spec_start() as usize, alignment);
                lemma_io_allocated_range(s, g1.blocks(), i, a0, len, io_type, image_handle, device_handle);
            }
        },
        AllocateType::TopDown(min_address) => {
            let m = match min_address {
                Some(m) => m,
                None => 0,
            };
            lemma_io_top_down_found(s, s.len() - 1, io_type, alignment, len, m, t);
            if let ScanResult::Found(i, a0) = io_top_down_scan(s, s.len() - 1, io_type, alignment, len, m, t) {
                lemma_aligned((s[i].spec_end() - len) as usize, alignment);
                lemma_io_allocated_range(s, g1.blocks(), i, a0, len, io_type, image_handle, device_handle);
            }
        },
        AllocateType::Address(address) => {
            lemma_aligned(address, alignment);
            lemma_covered(s, address as int);
            lemma_io_allocated_range(
                s,
                g1.blocks(),
                block_index_of(s, address as int),
                address as int,
                len,
                io_type,
                image_handle,
                device_handle,
            );
        },
    }
}

/// Block `b` has room at `p` for an allocation of `len` bytes of I/O space
/// of `io_type`: the range lies inside the block and starts at a multiple of
/// `2^alignment`, and the block is unallocated I/O space of that type, space
/// that exists.
pub open spec fn free_io_place(b: IoBlock, p: usize, len: usize, io_type: GcdIoType, alignment: u32) -> bool {
    &&& range_inside(b, p as int, len as int)
    &&& p >> alignment << alignment == p
    &&& b is Unallocated
    &&& b.desc().io_type == io_type
    &&& io_type != GcdIoType::NonExistent
}

/// A bottom-up scan from block `k` that finds a place finds none lower in
/// the blocks it passed, nor in the block where it stops.
proof fn lemma_io_bottom_up_lowest(
    s: Seq<IoBlock>,
    k: int,
    io_type: GcdIoType,
    alignment: u32,
    len: usize,
    max_address: usize,
    image_handle: usize,
    device_handle: Option<usize>,
)
    requires
        alignment < usize::BITS,
    ensures
        io_bottom_up_scan(
            s,
            k,
            io_type,
            alignment,
            len,
            max_address,
            IoStateTransition::Allocate(image_handle, device_handle),
        ) matches ScanResult::Found(i, addr) ==> forall|j: int, p: usize|
            k <= j <= i && #[trigger] free_io_place(s[j], p, len, io_type, alignment) ==> addr <= p,
    decreases s.len() - k,
{
    let t = IoStateTransition::Allocate(image_handle, device_handle);
    if 0 <= k < s.len() {
        lemma_io_bottom_up_lowest(s, k + 1, io_type, alignment, len, max_address, image_handle, device_handle);
        if let ScanResult::Found(i, addr) = io_bottom_up_scan(s, k, io_type, alignment, len, max_address, t) {
            assert forall|j: int, p: usize| k <= j <= i && #[trigger] free_io_place(s[j], p, len, io_type, alignment)
                implies addr <= p by {
                if j == k {
                    let x = s[k].spec_start() as usize;
                    lemma_align(x, alignment);
                    lemma_aligned_bounds(x, p, alignment);
                }
            }
        }
    }
}

/// A top-down scan from block `k` that finds a place finds none higher in
/// the blocks it passed, nor in the block where it stops.
proof fn lemma_io_top_down_highest(
    s: Seq<IoBlock>,
    k: int,
    io_type: GcdIoType,
    alignment: u32,
    len: usize,
    min_address: usize,
    image_handle: usize,
    device_handle: Option<usize>,
)
    requires
        map_wf(s),
        alignment < usize::BITS,
    ensures
        io_top_down_scan(
            s,
            k,
            io_type,
            alignment,
            len,
            min_address,
            IoStateTransition::Allocate(image_handle, device_handle),
        ) matches ScanResult::Found(i, addr) ==> forall|j: int, p: usize|
            i <= j <= k && #[trigger] free_io_place(s[j], p, len, io_type, alignment) ==> p <= addr,
    decreases k + 1,
{
    let t = IoStateTransition::Allocate(image_handle, device_handle);
    if 0 <= k < s.len() {
        lemma_io_top_down_highest(s, k - 1, io_type, alignment, len, min_address, image_handle, device_handle);
        lemma_block_below_end(s, k);
        if let ScanResult::Found(i, addr) = io_top_down_scan(s, k, io_type, alignment, len, min_address, t) {
            assert forall|j: int, p: usize| i <= j <= k && #[trigger] free_io_place(s[j], p, len, io_type, alignment)
                implies p <= addr by {
                if j == k {
                    let x = (s[k].spec_end() - len) as usize;
                    lemma_align(x, alignment);
                    lemma_aligned_bounds(x, p, alignment);
                }
            }
        }
    }
}

/// A bottom-up allocation of I/O space takes the lowest place there is: no
/// block has room at a lower address for the range as free I/O space of the
/// type asked for, starting at a multiple of `2^alignment`.
pub proof fn lemma_io_bottom_up_takes_lowest_place(
    g0: IoGCD,
    g1: IoGCD,
    r: Result<usize, Error>,
    max_address: Option<usize>,
    io_type: GcdIoType,
    alignment: u32,
    len: usize,
    image_handle: usize,
    device_handle: Option<usize>,
    addr: usize,
)
    requires
        g0.wf(),
        alignment < usize::BITS,
        io_allocation_result(
            &g0,
            &g1,
            r,
            AllocateType::BottomUp(max_address),
            io_type,
            alignment,
            len,
            image_handle,
            device_handle,
        ),
        r == Ok::<usize, Error>(addr),
    ensures
        forall|j: int, p: usize|
            0 <= j < g0.blocks().len() && #[trigger] free_io_place(g0.blocks()[j], p, len, io_type, alignment) ==> addr
                <= p,
{
    let s = g0.blocks();
    let t = IoStateTransition::Allocate(image_handle, device_handle);
    let m = match max_address {
        Some(m) => m,
        None => usize::MAX,
    };
    lemma_io_bottom_up_found(s, 0, io_type, alignment, len, m, t);
    lemma_io_bottom_up_lowest(s, 0, io_type, alignment, len, m, image_handle, device_handle);
    if let ScanResult::Found(i, a0) = io_bottom_up_scan(s, 0, io_type, alignment, len, m, t) {
        assert forall|j: int, p: usize|
            0 <= j < s.len() && #[trigger] free_io_place(s[j], p, len, io_type, alignment) implies addr <= p by {
            if j > i {
                lemma_sorted(s, i, j);
            }
        }
    }
}

/// A top-down allocation of I/O space takes the highest place there is: no
/// block has room at a higher address for the range as free I/O space of
/// the type asked for, starting at a multiple of `2^alignment`.
pub proof fn lemma_io_top_down_takes_highest_place(
    g0: IoGCD,
    g1: IoGCD,
    r: Result<usize, Error>,
    min_address: Option<usize>,
    io_type: GcdIoType,
    alignment: u32,
    len: usize,
    image_handle: usize,
    device_handle: Option<usize>,
    addr: usize,
)
    requires
        g0.wf(),
        alignment < usize::BITS,
        io_allocation_result(
            &g0,
            &g1,
            r,
            AllocateType::TopDown(min_address),
            io_type,
            alignment,
            len,
            image_handle,
            device_handle,
        ),
        r == Ok::<usize, Error>(addr),
    ensures
        forall|j: int, p: usize|
            0 <= j < g0.blocks().len() && #[trigger] free_io_place(g0.blocks()[j], p, len, io_type, alignment) ==> p
                <= addr,
{
    let s = g0.blocks();
    let t = IoStateTransition::Allocate(image_handle, device_handle);
    let m = match min_address {
        Some(m) => m,
        None => 0,
    };
    lemma_io_top_down_found(s, s.len() - 1, io_type, alignment, len, m, t);
    lemma_io_top_down_highest(s, s.len() - 1, io_type, alignment, len, m, image_handle, device_handle);
    if let ScanResult::Found(i, a0) = io_top_down_scan(s, s.len() - 1, io_type, alignment, len, m, t) {
        assert forall|j: int, p: usize|
            0 <= j < s.len() && #[trigger] free_io_place(s[j], p, len, io_type, alignment) implies p <= addr by {
            if j < i {
                lemma_sorted(s, j, i);
            }
        }
    }
}

/// A service that applies `t` to a range of I/O space and succeeds applies
/// it to every address of the range, each of whose states allowed it, and
/// leaves every other address alone.
proof fn lemma_io_range_service_applied(
    g0: IoGCD,
    g1: IoGCD,
    r: Result<(), Error>,
    base: usize,
    len: usize,
    t: IoStateTransition,
    outside: Error,
    refused: Error,
)
    requires
        g0.wf(),
        io_range_service_result(&g0, &g1, r, base, len, t, outside, refused),
        r is Ok,
    ensures
        0 < len,
        base + len <= g0.maximum_address,
        g1.maximum_address == g0.maximum_address,
        forall|a: int|
            base <= a < base + len ==> (#[trigger] g0.state_at(a)).transitioned(t) is Some && g1.state_at(a)
                == g0.state_at(a).transitioned(t)->0,
        forall|a: int|
            0 <= a < g0.maximum_address && !(base <= a < base + len) ==> #[trigger] g1.state_at(a) == g0.state_at(a),
{
    let s = g0.blocks();
    lemma_covered(s, base as int);
    let i = block_index_of(s, base as int);
    s[i].lemma_transition_keeps_range(t);
    assert forall|a: int| base <= a < base + len implies (#[trigger] g0.state_at(a)).transitioned(t) is Some
        && g1.state_at(a) == g0.state_at(a).transitioned(t)->0 by {
        assert(covers(s[i], a));
        lemma_index_unique(s, i, a);
        assert(state_at(g1.blocks(), a) == applied_state(s, i, base as int, len as int, t, a));
    }
    assert forall|a: int| 0 <= a < g0.maximum_address && !(base <= a < base + len) implies #[trigger] g1.state_at(a)
        == g0.state_at(a) by {
        assert(state_at(g1.blocks(), a) == applied_state(s, i, base as int, len as int, t, a));
    }
}

/// Freeing I/O space that succeeds frees space that was allocated: each
/// address of the range was allocated before and is unallocated after, owned
/// by no image or device, and otherwise as it was; every other address is
/// left alone.
pub proof fn lemma_free_io_space_effect(g0: IoGCD, g1: IoGCD, r: Result<(), Error>, base: usize, len: usize)
    requires
        g0.wf(),
        io_range_service_result(&g0, &g1, r, base, len, IoStateTransition::Free, Error::NotFound, Error::NotFound),
        r is Ok,
    ensures
        forall|a: int|
            base <= a < base + len ==> (#[trigger] g0.state_at(a)) is Allocated && g0.state_at(a).desc().io_type
                != GcdIoType::NonExistent && g1.state_at(a) == IoBlock::Unallocated(
                IoSpaceDescriptor { image_handle: 0, device_handle: 0, ..g0.state_at(a).desc() },
            ),
        forall|a: int|
            0 <= a < g0.maximum_address && !(base <= a < base + len) ==> #[trigger] g1.state_at(a) == g0.state_at(a),
{
    lemma_io_range_service_applied(g0, g1, r, base, len, IoStateTransition::Free, Error::NotFound, Error::NotFound);
}

/// Removing I/O space that succeeds removes space that was present and
/// free: each address of the range was unallocated space that existed
/// before, and is non-existent space after, otherwise as it was; every other
/// address is left alone.
pub proof fn lemma_remove_io_space_effect(
    g0: IoGCD,
    g1: IoGCD,
    r: Result<(), Error>,
    base: usize,
    len: usize,
    refused: Error,
)
    requires
        g0.wf(),
        io_range_service_result(&g0, &g1, r, base, len, IoStateTransition::Remove, Error::NotFound, refused),
        r is Ok,
    ensures
        forall|a: int|
            base <= a < base + len ==> (#[trigger] g0.state_at(a)) is Unallocated && g0.state_at(a).desc().io_type
                != GcdIoType::NonExistent && g1.state_at(a) == IoBlock::Unallocated(
                IoSpaceDescriptor { io_type: GcdIoType::NonExistent, ..g0.state_at(a).desc() },
            ),
        forall|a: int|
            0 <= a < g0.maximum_address && !(base <= a < base + len) ==> #[trigger] g1.state_at(a) == g0.state_at(a),
{
    lemma_io_range_service_applied(g0, g1, r, base, len, IoStateTransition::Remove, Error::NotFound, refused);
}

/// Adding I/O space that succeeds adds it where no I/O space was: each
/// address of the range was unallocated non-existent space before, and is
/// unallocated space of the type added after, otherwise as it was; every
/// other address is left alone.
pub proof fn lemma_add_io_space_effect(
    g0: IoGCD,
    g1: IoGCD,
    r: Result<usize, Error>,
    io_type: GcdIoType,
    base: usize,
    len: usize,
)
    requires
        g0.wf(),
        io_add_result(&g0, &g1, r, io_type, base, len),
        r is Ok,
    ensures
        io_type != GcdIoType::NonExistent,
        forall|a: int|
            base <= a < base + len ==> (#[trigger] g0.state_at(a)) is Unallocated && g0.state_at(a).desc().io_type
                == GcdIoType::NonExistent && g1.state_at(a) == IoBlock::Unallocated(
                IoSpaceDescriptor { io_type, ..g0.state_at(a).desc() },
            ),
        forall|a: int|
            0 <= a < g0.maximum_address && !(base <= a < base + len) ==> #[trigger] g1.state_at(a) == g0.state_at(a),
{
    let s = g0.blocks();
    let t = IoStateTransition::Add(io_type);
    lemma_covered(s, base as int);
    let i = block_index_of(s, base as int);
    s[i].lemma_transition_keeps_range(t);
    assert forall|a: int| base <= a < base + len implies (#[trigger] g0.state_at(a)) is Unallocated
        && g0.state_at(a).desc().io_type == GcdIoType::NonExistent && g1.state_at(a) == IoBlock::Unallocated(
        IoSpaceDescriptor { io_type, ..g0.state_at(a).desc() },
    ) by {
        assert(covers(s[i], a));
        lemma_index_unique(s, i, a);
        assert(state_at(g1.blocks(), a) == applied_state(s, i, base as int, len as int, t, a));
    }
    assert forall|a: int| 0 <= a < g0.maximum_address && !(base <= a < base + len) implies #[trigger] g1.state_at(a)
        == g0.state_at(a) by {
        assert(state_at(g1.blocks(), a) == applied_state(s, i, base as int, len as int, t, a));
    }
}

/// Freeing a range of I/O space right after allocating it gives the I/O
/// map back as it was (for space that no image or device owned before).
pub proof fn lemma_free_io_undoes_allocate_io(
    g0: IoGCD,
    g1: IoGCD,
    g2: IoGCD,
    base: usize,
    len: usize,
    image_handle: usize,
    device_handle: Option<usize>,
)
    requires
        g0.wf(),
        g0.maximum_address > 0,
        base + len <= g0.maximum_address,
        g0.state_at(base as int).desc().image_handle == 0,
        g0.state_at(base as int).desc().device_handle == 0,
        io_range_error(
            g0.blocks(),
            base as int,
            len as int,
            IoStateTransition::Allocate(image_handle, device_handle),
            Error::NotFound,
            Error::NotFound,
        ) is None,
        g1.updated(
            &g0,
            block_index_of(g0.blocks(), base as int),
            base as int,
            len as int,
            IoStateTransition::Allocate(image_handle, device_handle),
        ),
        io_range_error(g1.blocks(), base as int, len as int, IoStateTransition::Free, Error::NotFound, Error::NotFound)
            is None,
        g2.updated(&g1, block_index_of(g1.blocks(), base as int), base as int, len as int, IoStateTransition::Free),
    ensures
        g2.maximum_address == g0.maximum_address,
        forall|a: int| 0 <= a < g0.maximum_address ==> #[trigger] g2.state_at(a) == g0.state_at(a),
{
    if len > 0 {
        lemma_covered(g0.blocks(), base as int);
        lemma_covered(g1.blocks(), base as int);
    }
    lemma_transitions_cancel(
        g0.blocks(),
        g1.blocks(),
        g2.blocks(),
        block_index_of(g0.blocks(), base as int),
        block_index_of(g1.blocks(), base as int),
        base as int,
        len as int,
        IoStateTransition::Allocate(image_handle, device_handle),
        IoStateTransition::Free,
    );
}

/// Removing a range of I/O space right after adding it gives the I/O map
/// back as it was.
pub proof fn lemma_remove_io_undoes_add_io(
    g0: IoGCD,
    g1: IoGCD,
    g2: IoGCD,
    base: usize,
    len: usize,
    io_type: GcdIoType,
)
    requires
        g0.wf(),
        g0.maximum_address > 0,
        base + len <= g0.maximum_address,
        io_range_error(
            g0.blocks(),
            base as int,
            len as int,
            IoStateTransition::Add(io_type),
            Error::AccessDenied,
            Error::AccessDenied,
        ) is None,
        g1.updated(&g0, block_index_of(g0.blocks(), base as int), base as int, len as int, IoStateTransition::Add(io_type)),
        io_range_error(g1.blocks(), base as int, len as int, IoStateTransition::Remove, Error::NotFound, Error::NotFound)
            is None,
        g2.updated(&g1, block_index_of(g1.blocks(), base as int), base as int, len as int, IoStateTransition::Remove),
    ensures
        g2.maximum_address == g0.maximum_address,
        forall|a: int| 0 <= a < g0.maximum_address ==> #[trigger] g2.state_at(a) == g0.state_at(a),
{
    if len > 0 {
        lemma_covered(g0.blocks(), base as int);
        lemma_covered(g1.blocks(), base as int);
    }
    lemma_transitions_cancel(
        g0.blocks(),
        g1.blocks(),
        g2.blocks(),
        block_index_of(g0.blocks(), base as int),
        block_index_of(g1.blocks(), base as int),
        base as int,
        len as int,
        IoStateTransition::Add(io_type),
        IoStateTransition::Remove,
    );
}

} // verus!
