//! Blocks of the GCD memory map and the state transitions that the memory
//! space services apply to them.
use vstd::prelude::*;

verus! {

/// Kinds of memory that the GCD tracks.
#[derive(Debug, Clone, Copy, PartialEq, Eq, Structural)]
pub enum GcdMemoryType {
    /// No memory is present at this range.
    NonExistent,
    /// Memory that is present but reserved.
    Reserved,
    /// Ordinary system memory.
    SystemMemory,
    /// Memory-mapped I/O.
    MemoryMappedIo,
    /// Persistent memory.
    Persistent,
    /// Memory with higher reliability.
    MoreReliable,
    /// Memory that has not been accepted yet.
    Unaccepted,
}

/// Description of a range of memory space.
#[derive(Debug, Clone, Copy, PartialEq, Eq, Structural)]
pub struct MemorySpaceDescriptor {
    /// First address of the range.
    pub base_address: u64,
    /// Length of the range in bytes.
    pub length: u64,
    /// Attributes the range supports.
    pub capabilities: u64,
    /// Attributes currently set on the range.
    pub attributes: u64,
    /// Kind of memory in the range.
    pub memory_type: GcdMemoryType,
    /// Image that allocated the range (0 when none).
    pub image_handle: usize,
    /// Device that the range was allocated for (0 when none).
    pub device_handle: usize,
}

impl MemorySpaceDescriptor {
    /// A descriptor of non-existent memory with all other fields zero.
    pub fn empty() -> (r: Self)
        ensures
            r == (MemorySpaceDescriptor {
                base_address: 0,
                length: 0,
                capabilities: 0,
                attributes: 0,
                memory_type: GcdMemoryType::NonExistent,
                image_handle: 0,
                device_handle: 0,
            }),
    {
        MemorySpaceDescriptor {
            base_address: 0,
            length: 0,
            capabilities: 0,
            attributes: 0,
            memory_type: GcdMemoryType::NonExistent,
            image_handle: 0,
            device_handle: 0,
        }
    }
}

/// Errors of block operations.
#[derive(Debug, Clone, Copy, PartialEq, Eq, Structural)]
pub enum Error {
    /// The transition is not allowed from the block's state.
    InvalidStateTransition,
    /// The requested range does not lie inside the block.
    BlockOutsideRange,
}

/// A range of the memory map, allocated or not.
#[derive(Debug, Clone, Copy, PartialEq, Eq, Structural)]
pub enum MemoryBlock {
    /// A range that no image owns.
    Unallocated(MemorySpaceDescriptor),
    /// A range that an image owns.
    Allocated(MemorySpaceDescriptor),
}

/// A change to the state of a block.
#[derive(Debug, Clone, Copy, PartialEq, Eq, Structural)]
pub enum StateTransition {
    /// Adds memory of the given type and capabilities.
    Add(GcdMemoryType, u64),
    /// Removes memory.
    Remove,
    /// Allocates to an image (and optionally a device).
    Allocate(usize, Option<usize>),
    /// Frees an allocation.
    Free,
    /// Sets the attributes.
    SetAttributes(u64),
    /// Sets the capabilities.
    SetCapabilities(u64),
}

/// The outcome of splitting a block at a range. The block that was split
/// always keeps the first part; the other parts follow in address order.
#[derive(Debug, Clone, Copy, PartialEq, Eq, Structural)]
pub enum MemoryBlockSplit {
    /// The range was the whole block.
    Same,
    /// The range was at the start; the rest of the block follows.
    Before(MemoryBlock),
    /// The range was at the end; it follows the rest of the block.
    After(MemoryBlock),
    /// The range was in the middle; it and the rest of the block follow.
    Middle(MemoryBlock, MemoryBlock),
}

impl MemoryBlock {
    /// The descriptor of the block.
    pub open spec fn desc(self) -> MemorySpaceDescriptor {
        match self {
            MemoryBlock::Unallocated(d) => d,
            MemoryBlock::Allocated(d) => d,
        }
    }

    /// The same kind of block with another descriptor.
    pub open spec fn with_desc(self, d: MemorySpaceDescriptor) -> MemoryBlock {
        match self {
            MemoryBlock::Unallocated(_) => MemoryBlock::Unallocated(d),
            MemoryBlock::Allocated(_) => MemoryBlock::Allocated(d),
        }
    }

    /// First address of the block.
    pub open spec fn spec_start(self) -> int {
        self.desc().base_address as int
    }

    /// Address just past the block.
    pub open spec fn spec_end(self) -> int {
        self.desc().base_address + self.desc().length
    }

    /// Length of the block.
    pub open spec fn spec_len(self) -> int {
        self.desc().length as int
    }

    /// The block moved to cover `len` bytes from `base`, in the same state.
    pub open spec fn with_range(self, base: int, len: int) -> MemoryBlock {
        self.with_desc(MemorySpaceDescriptor { base_address: base as u64, length: len as u64, ..self.desc() })
    }

    /// Everything about the block but where it lies.
    pub open spec fn state(self) -> MemoryBlock {
        self.with_range(0, 0)
    }

    /// The block after a transition, or `None` when the transition is not allowed.
    pub open spec fn transitioned(self, t: StateTransition) -> Option<MemoryBlock> {
        let md = self.desc();
        match t {
            StateTransition::Add(memory_type, capabilities) => {
                if self is Unallocated && md.memory_type == GcdMemoryType::NonExistent && memory_type
                    != GcdMemoryType::NonExistent {
                    Some(
                        MemoryBlock::Unallocated(
                            MemorySpaceDescriptor { memory_type, capabilities, ..md },
                        ),
                    )
                } else {
                    None
                }
            },
            StateTransition::Remove => {
                if self is Unallocated && md.memory_type != GcdMemoryType::NonExistent {
                    Some(
                        MemoryBlock::Unallocated(
                            MemorySpaceDescriptor {
                                memory_type: GcdMemoryType::NonExistent,
                                capabilities: 0,
                                ..md
                            },
                        ),
                    )
                } else {
                    None
                }
            },
            StateTransition::Allocate(image_handle, device_handle) => {
                if self is Unallocated && md.memory_type != GcdMemoryType::NonExistent
                    && md.memory_type != GcdMemoryType::Unaccepted {
                    Some(
                        MemoryBlock::Allocated(
                            MemorySpaceDescriptor {
                                image_handle,
                                device_handle: match device_handle {
                                    Some(d) => d,
                                    None => md.device_handle,
                                },
                                ..md
                            },
                        ),
                    )
                } else {
                    None
                }
            },
            StateTransition::Free => {
                if self is Allocated && md.memory_type != GcdMemoryType::NonExistent {
                    Some(
                        MemoryBlock::Unallocated(
                            MemorySpaceDescriptor { image_handle: 0, device_handle: 0, ..md },
                        ),
                    )
                } else {
                    None
                }
            },
            StateTransition::SetAttributes(attributes) => {
                if md.memory_type != GcdMemoryType::NonExistent && (md.capabilities | attributes)
                    == md.capabilities {
                    Some(self.with_desc(MemorySpaceDescriptor { attributes, ..md }))
                } else {
                    None
                }
            },
            StateTransition::SetCapabilities(capabilities) => {
                if md.memory_type != GcdMemoryType::NonExistent && (capabilities | md.attributes)
                    == capabilities {
                    Some(self.with_desc(MemorySpaceDescriptor { capabilities, ..md }))
                } else {
                    None
                }
            },
        }
    }

    /// A transition leaves the range of a block alone and depends only on its state.
    pub proof fn lemma_transition_keeps_range(self, t: StateTransition)
        ensures
            self.transitioned(t) matches Some(nb) ==> nb.spec_start() == self.spec_start()
                && nb.spec_len() == self.spec_len() && nb.state() == self.state().transitioned(t)->0,
            self.transitioned(t) is Some <==> self.state().transitioned(t) is Some,
    {
    }

    /// The descriptor of the block.
    pub fn as_ref(&self) -> (r: &MemorySpaceDescriptor)
        ensures
            *r == self.desc(),
    {
        match self {
            MemoryBlock::Unallocated(d) => d,
            MemoryBlock::Allocated(d) => d,
        }
    }

    /// Merges `other` into `self` when both are in the same state and `other`
    /// starts where `self` ends; `other` is left with length 0.
    pub fn merge(&mut self, other: &mut MemoryBlock) -> (r: bool)
        requires
            old(self).spec_end() <= usize::MAX,
            old(other).spec_end() <= usize::MAX,
        ensures
            r == (old(self).state() == old(other).state() && old(self).spec_end() == old(other).spec_start()),
            r ==> *final(self) == old(self).with_range(old(self).spec_start(), old(self).spec_len() + old(other).spec_len())
                && *final(other) == old(other).with_range(old(other).spec_start(), 0),
            !r ==> *final(self) == *old(self) && *final(other) == *old(other),
    {
        if self.is_same_state(other) && self.end() == other.start() {
            let d = *self.as_ref();
            let od = *other.as_ref();
            let nd = MemorySpaceDescriptor { length: d.length + od.length, ..d };
            let ond = MemorySpaceDescriptor { length: 0, ..od };
            *self = match *self {
                MemoryBlock::Unallocated(_) => MemoryBlock::Unallocated(nd),
                MemoryBlock::Allocated(_) => MemoryBlock::Allocated(nd),
            };
            *other = match *other {
                MemoryBlock::Unallocated(_) => MemoryBlock::Unallocated(ond),
                MemoryBlock::Allocated(_) => MemoryBlock::Allocated(ond),
            };
            true
        } else {
            false
        }
    }

    /// Splits the block so that `len` bytes at `base_address` form a block of their own.
    pub fn split(&mut self, base_address: usize, len: usize) -> (r: Result<MemoryBlockSplit, Error>)
        requires
            base_address + len <= usize::MAX,
            old(self).spec_end() <= usize::MAX,
        ensures
            ({
                let b = *old(self);
                let start = base_address as int;
                let end = base_address + len;
                if !(b.spec_start() <= start && start < end && end <= b.spec_end()) {
                    r == Err::<MemoryBlockSplit, Error>(Error::BlockOutsideRange) && *final(self) == b
                } else if b.spec_start() == start && end == b.spec_end() {
                    r == Ok::<MemoryBlockSplit, Error>(MemoryBlockSplit::Same) && *final(self) == b
                } else if b.spec_start() == start {
                    r == Ok::<MemoryBlockSplit, Error>(MemoryBlockSplit::Before(b.with_range(end, b.spec_end() - end)))
                        && *final(self) == b.with_range(start, len as int)
                } else if end == b.spec_end() {
                    r == Ok::<MemoryBlockSplit, Error>(MemoryBlockSplit::After(b.with_range(start, len as int)))
                        && *final(self) == b.with_range(b.spec_start(), start - b.spec_start())
                } else {
                    r == Ok::<MemoryBlockSplit, Error>(MemoryBlockSplit::Middle(
                        b.with_range(start, len as int),
                        b.with_range(end, b.spec_end() - end),
                    )) && *final(self) == b.with_range(b.spec_start(), start - b.spec_start())
                }
            }),
    {
        let start = base_address;
        let end = base_address + len;
        let s = self.start();
        let e = self.end();
        if !(s <= start && start < end && end <= e) {
            return Err(Error::BlockOutsideRange);
        }
        if s == start && end == e {
            return Ok(MemoryBlockSplit::Same);
        }
        let d = *self.as_ref();
        if s == start {
            let first = MemorySpaceDescriptor { base_address: base_address as u64, length: len as u64, ..d };
            let rest = MemorySpaceDescriptor { base_address: end as u64, length: d.length - len as u64, ..d };
            let (a, b) = match *self {
                MemoryBlock::Unallocated(_) => (MemoryBlock::Unallocated(first), MemoryBlock::Unallocated(rest)),
                MemoryBlock::Allocated(_) => (MemoryBlock::Allocated(first), MemoryBlock::Allocated(rest)),
            };
            *self = a;
            return Ok(MemoryBlockSplit::Before(b));
        }
        if end == e {
            let first = MemorySpaceDescriptor { length: d.length - len as u64, ..d };
            let last = MemorySpaceDescriptor { base_address: base_address as u64, length: len as u64, ..d };
            let (a, b) = match *self {
                MemoryBlock::Unallocated(_) => (MemoryBlock::Unallocated(first), MemoryBlock::Unallocated(last)),
                MemoryBlock::Allocated(_) => (MemoryBlock::Allocated(first), MemoryBlock::Allocated(last)),
            };
            *self = a;
            return Ok(MemoryBlockSplit::After(b));
        }
        let first = MemorySpaceDescriptor { length: (start - s) as u64, ..d };
        let mid = MemorySpaceDescriptor { base_address: base_address as u64, length: len as u64, ..d };
        let last = MemorySpaceDescriptor { base_address: end as u64, length: (e - end) as u64, ..d };
        let (a, b, c) = match *self {
            MemoryBlock::Unallocated(_) => (
                MemoryBlock::Unallocated(first),
                MemoryBlock::Unallocated(mid),
                MemoryBlock::Unallocated(last),
            ),
            MemoryBlock::Allocated(_) => (
                MemoryBlock::Allocated(first),
                MemoryBlock::Allocated(mid),
                MemoryBlock::Allocated(last),
            ),
        };
        *self = a;
        Ok(MemoryBlockSplit::Middle(b, c))
    }

    /// Splits the block at the range and applies `transition` to the part
    /// that covers the range. When the transition is refused, the block is
    /// left as it was.
    pub fn split_state_transition(&mut self, base_address: usize, len: usize, transition: StateTransition) -> (r:
        Result<MemoryBlockSplit, Error>)
        requires
            base_address + len <= usize::MAX,
            old(self).spec_end() <= usize::MAX,
        ensures
            ({
                let b = *old(self);
                let start = base_address as int;
                let end = base_address + len;
                if !(b.spec_start() <= start && start < end && end <= b.spec_end()) {
                    r == Err::<MemoryBlockSplit, Error>(Error::BlockOutsideRange) && *final(self) == b
                } else if b.transitioned(transition) is None {
                    r == Err::<MemoryBlockSplit, Error>(Error::InvalidStateTransition) && *final(self) == b
                } else {
                    let nb = b.transitioned(transition)->0;
                    if b.spec_start() == start && end == b.spec_end() {
                        r == Ok::<MemoryBlockSplit, Error>(MemoryBlockSplit::Same) && *final(self) == nb
                    } else if b.spec_start() == start {
                        r == Ok::<MemoryBlockSplit, Error>(
                            MemoryBlockSplit::Before(b.with_range(end, b.spec_end() - end)),
                        ) && *final(self) == nb.with_range(start, len as int)
                    } else if end == b.spec_end() {
                        r == Ok::<MemoryBlockSplit, Error>(
                            MemoryBlockSplit::After(nb.with_range(start, len as int)),
                        ) && *final(self) == b.with_range(b.spec_start(), start - b.spec_start())
                    } else {
                        r == Ok::<MemoryBlockSplit, Error>(
                            MemoryBlockSplit::Middle(
                                nb.with_range(start, len as int),
                                b.with_range(end, b.spec_end() - end),
                            ),
                        ) && *final(self) == b.with_range(b.spec_start(), start - b.spec_start())
                    }
                }
            }),
    {
        let ghost b = *self;
        let split = self.split(base_address, len);
        match split {
            Err(e) => Err(e),
            Ok(MemoryBlockSplit::Same) => {
                match self.state_transition(transition) {
                    Ok(()) => Ok(MemoryBlockSplit::Same),
                    Err(e) => Err(e),
                }
            },
            Ok(MemoryBlockSplit::Before(next)) => {
                proof {
                    b.lemma_transition_keeps_range(transition);
                    self.lemma_transition_keeps_range(transition);
                }
                match self.state_transition(transition) {
                    Ok(()) => Ok(MemoryBlockSplit::Before(next)),
                    Err(e) => {
                        let mut next = next;
                        self.merge(&mut next);
                        assert(*self == b);
                        Err(e)
                    },
                }
            },
            Ok(MemoryBlockSplit::After(mb)) => {
                let mut mb = mb;
                proof {
                    b.lemma_transition_keeps_range(transition);
                    mb.lemma_transition_keeps_range(transition);
                }
                match mb.state_transition(transition) {
                    Ok(()) => Ok(MemoryBlockSplit::After(mb)),
                    Err(e) => {
                        self.merge(&mut mb);
                        assert(*self == b);
                        Err(e)
                    },
                }
            },
            Ok(MemoryBlockSplit::Middle(mb, next)) => {
                let mut mb = mb;
                let mut next = next;
                proof {
                    b.lemma_transition_keeps_range(transition);
                    mb.lemma_transition_keeps_range(transition);
                }
                match mb.state_transition(transition) {
                    Ok(()) => Ok(MemoryBlockSplit::Middle(mb, next)),
                    Err(e) => {
                        mb.merge(&mut next);
                        self.merge(&mut mb);
                        assert(*self == b);
                        Err(e)
                    },
                }
            },
        }
    }

    /// Whether two blocks are in the same state (ignoring where they lie).
    pub fn is_same_state(&self, other: &MemoryBlock) -> (r: bool)
        ensures
            r == (self.state() == other.state()),
    {
        match (*self, *other) {
            (MemoryBlock::Unallocated(a), MemoryBlock::Unallocated(b)) | (
                MemoryBlock::Allocated(a),
                MemoryBlock::Allocated(b),
            ) => {
                a.memory_type == b.memory_type && a.attributes == b.attributes && a.capabilities
                    == b.capabilities && a.device_handle == b.device_handle && a.image_handle
                    == b.image_handle
            },
            _ => false,
        }
    }

    /// Applies a transition to the block.
    pub fn state_transition(&mut self, transition: StateTransition) -> (r: Result<(), Error>)
        ensures
            old(self).transitioned(transition) matches Some(nb) ==> r is Ok && *final(self) == nb,
            old(self).transitioned(transition) is None ==> r == Err::<(), Error>(Error::InvalidStateTransition)
                && *final(self) == *old(self),
    {
        match transition {
            StateTransition::Add(memory_type, capabilities) => self.add_transition(memory_type, capabilities),
            StateTransition::Remove => self.remove_transition(),
            StateTransition::Allocate(image_handle, device_handle) => self.allocate_transition(
                image_handle,
                device_handle,
            ),
            StateTransition::Free => self.free_transition(),
            StateTransition::SetAttributes(attributes) => self.attribute_transition(attributes),
            StateTransition::SetCapabilities(capabilities) => self.capabilities_transition(capabilities),
        }
    }

    /// Adds memory of `memory_type` to a non-existent, unallocated block.
    pub fn add_transition(&mut self, memory_type: GcdMemoryType, capabilities: u64) -> (r: Result<(), Error>)
        ensures
            old(self).transitioned(StateTransition::Add(memory_type, capabilities)) matches Some(nb) ==> r is Ok
                && *final(self) == nb,
            old(self).transitioned(StateTransition::Add(memory_type, capabilities)) is None ==> r == Err::<
                (),
                Error,
            >(Error::InvalidStateTransition) && *final(self) == *old(self),
    {
        match *self {
            MemoryBlock::Unallocated(md) => {
                if md.memory_type == GcdMemoryType::NonExistent && memory_type != GcdMemoryType::NonExistent {
                    *self = MemoryBlock::Unallocated(MemorySpaceDescriptor { memory_type, capabilities, ..md });
                    Ok(())
                } else {
                    Err(Error::InvalidStateTransition)
                }
            },
            _ => Err(Error::InvalidStateTransition),
        }
    }

    /// Removes the memory of an unallocated block.
    pub fn remove_transition(&mut self) -> (r: Result<(), Error>)
        ensures
            old(self).transitioned(StateTransition::Remove) matches Some(nb) ==> r is Ok && *final(self) == nb,
            old(self).transitioned(StateTransition::Remove) is None ==> r == Err::<(), Error>(
                Error::InvalidStateTransition,
            ) && *final(self) == *old(self),
    {
        match *self {
            MemoryBlock::Unallocated(md) => {
                if md.memory_type != GcdMemoryType::NonExistent {
                    *self = MemoryBlock::Unallocated(
                        MemorySpaceDescriptor { memory_type: GcdMemoryType::NonExistent, capabilities: 0, ..md },
                    );
                    Ok(())
                } else {
                    Err(Error::InvalidStateTransition)
                }
            },
            _ => Err(Error::InvalidStateTransition),
        }
    }

    /// Allocates an unallocated block of existing, accepted memory.
    pub fn allocate_transition(&mut self, image_handle: usize, device_handle: Option<usize>) -> (r: Result<
        (),
        Error,
    >)
        ensures
            old(self).transitioned(StateTransition::Allocate(image_handle, device_handle)) matches Some(nb) ==> r is Ok
                && *final(self) == nb,
            old(self).transitioned(StateTransition::Allocate(image_handle, device_handle)) is None ==> r == Err::<
                (),
                Error,
            >(Error::InvalidStateTransition) && *final(self) == *old(self),
    {
        match *self {
            MemoryBlock::Unallocated(md) => {
                if md.memory_type != GcdMemoryType::NonExistent && md.memory_type != GcdMemoryType::Unaccepted {
                    let dh = match device_handle {
                        Some(d) => d,
                        None => md.device_handle,
                    };
                    *self = MemoryBlock::Allocated(
                        MemorySpaceDescriptor { image_handle, device_handle: dh, ..md },
                    );
                    Ok(())
                } else {
                    Err(Error::InvalidStateTransition)
                }
            },
            _ => Err(Error::InvalidStateTransition),
        }
    }

    /// Frees an allocated block.
    pub fn free_transition(&mut self) -> (r: Result<(), Error>)
        ensures
            old(self).transitioned(StateTransition::Free) matches Some(nb) ==> r is Ok && *final(self) == nb,
            old(self).transitioned(StateTransition::Free) is None ==> r == Err::<(), Error>(
                Error::InvalidStateTransition,
            ) && *final(self) == *old(self),
    {
        match *self {
            MemoryBlock::Allocated(md) => {
                if md.memory_type != GcdMemoryType::NonExistent {
                    *self = MemoryBlock::Unallocated(
                        MemorySpaceDescriptor { image_handle: 0, device_handle: 0, ..md },
                    );
                    Ok(())
                } else {
                    Err(Error::InvalidStateTransition)
                }
            },
            _ => Err(Error::InvalidStateTransition),
        }
    }

    /// Sets the attributes of a block of existing memory; they must be among its capabilities.
    pub fn attribute_transition(&mut self, attributes: u64) -> (r: Result<(), Error>)
        ensures
            old(self).transitioned(StateTransition::SetAttributes(attributes)) matches Some(nb) ==> r is Ok
                && *final(self) == nb,
            old(self).transitioned(StateTransition::SetAttributes(attributes)) is None ==> r == Err::<
                (),
                Error,
            >(Error::InvalidStateTransition) && *final(self) == *old(self),
    {
        let md = *self.as_ref();
        if md.memory_type != GcdMemoryType::NonExistent {
            if (md.capabilities | attributes) != md.capabilities {
                Err(Error::InvalidStateTransition)
            } else {
                let nd = MemorySpaceDescriptor { attributes, ..md };
                *self = match *self {
                    MemoryBlock::Unallocated(_) => MemoryBlock::Unallocated(nd),
                    MemoryBlock::Allocated(_) => MemoryBlock::Allocated(nd),
                };
                Ok(())
            }
        } else {
            Err(Error::InvalidStateTransition)
        }
    }

    /// Sets the capabilities of a block of existing memory; they must cover its attributes.
    pub fn capabilities_transition(&mut self, capabilities: u64) -> (r: Result<(), Error>)
        ensures
            old(self).transitioned(StateTransition::SetCapabilities(capabilities)) matches Some(nb) ==> r is Ok
                && *final(self) == nb,
            old(self).transitioned(StateTransition::SetCapabilities(capabilities)) is None ==> r == Err::<
                (),
                Error,
            >(Error::InvalidStateTransition) && *final(self) == *old(self),
    {
        let md = *self.as_ref();
        if md.memory_type != GcdMemoryType::NonExistent {
            if (capabilities | md.attributes) != capabilities {
                Err(Error::InvalidStateTransition)
            } else {
                let nd = MemorySpaceDescriptor { capabilities, ..md };
                *self = match *self {
                    MemoryBlock::Unallocated(_) => MemoryBlock::Unallocated(nd),
                    MemoryBlock::Allocated(_) => MemoryBlock::Allocated(nd),
                };
                Ok(())
            }
        } else {
            Err(Error::InvalidStateTransition)
        }
    }

    /// First address of the block.
    pub fn start(&self) -> (r: usize)
        requires
            self.spec_start() <= usize::MAX,
        ensures
            r == self.spec_start(),
    {
        self.as_ref().base_address as usize
    }

    /// Address just past the block.
    pub fn end(&self) -> (r: usize)
        requires
            self.spec_end() <= usize::MAX,
        ensures
            r == self.spec_end(),
    {
        (self.as_ref().base_address + self.as_ref().length) as usize
    }

    /// Length of the block.
    pub fn len(&self) -> (r: usize)
        requires
            self.spec_len() <= usize::MAX,
        ensures
            r == self.spec_len(),
    {
        self.as_ref().length as usize
    }
}

} // verus!
