//! Blocks of the GCD I/O map and the state transitions that the I/O space
//! services apply to them.
use vstd::prelude::*;

verus! {

/// Kinds of I/O space that the GCD tracks.
#[derive(Debug, Clone, Copy, PartialEq, Eq, Structural)]
pub enum GcdIoType {
    /// No I/O space is present at this range.
    NonExistent,
    /// I/O space that is present but reserved.
    Reserved,
    /// Ordinary I/O space.
    Io,
}

/// Description of a range of I/O space.
#[derive(Debug, Clone, Copy, PartialEq, Eq, Structural)]
pub struct IoSpaceDescriptor {
    /// First address of the range.
    pub base_address: u64,
    /// Length of the range in bytes.
    pub length: u64,
    /// Kind of I/O space in the range.
    pub io_type: GcdIoType,
    /// Image that allocated the range (0 when none).
    pub image_handle: usize,
    /// Device that the range was allocated for (0 when none).
    pub device_handle: usize,
}

impl IoSpaceDescriptor {
    /// A descriptor of non-existent I/O space with all other fields zero.
    pub fn empty() -> (r: Self)
        ensures
            r == (IoSpaceDescriptor {
                base_address: 0,
                length: 0,
                io_type: GcdIoType::NonExistent,
                image_handle: 0,
                device_handle: 0,
            }),
    {
        IoSpaceDescriptor { base_address: 0, length: 0, io_type: GcdIoType::NonExistent, image_handle: 0, device_handle: 0 }
    }
}

/// Errors of block operations.
#[derive(Debug, Clone, Copy, PartialEq, Eq, Structural)]
pub enum Error {
    /// The transition is not allowed from the block's state.
    InvalidStateTransition,
    /// The requested range does not lie inside the block.
    BlockOutsideRange,
}

/// A range of the I/O map, allocated or not.
#[derive(Debug, Clone, Copy, PartialEq, Eq, Structural)]
pub enum IoBlock {
    /// A range that no image owns.
    Unallocated(IoSpaceDescriptor),
    /// A range that an image owns.
    Allocated(IoSpaceDescriptor),
}

/// A change to the state of a block.
#[derive(Debug, Clone, Copy, PartialEq, Eq, Structural)]
pub enum StateTransition {
    /// Adds I/O space of the given type.
    Add(GcdIoType),
    /// Removes I/O space.
    Remove,
    /// Allocates to an image (and optionally a device).
    Allocate(usize, Option<usize>),
    /// Frees an allocation.
    Free,
}

/// The outcome of splitting a block at a range. The block that was split
/// always keeps the first part; the other parts follow in address order.
#[derive(Debug, Clone, Copy, PartialEq, Eq, Structural)]
pub enum IoBlockSplit {
    /// The range was the whole block.
    Same,
    /// The range was at the start; the rest of the block follows.
    Before(IoBlock),
    /// The range was at the end; it follows the rest of the block.
    After(IoBlock),
    /// The range was in the middle; it and the rest of the block follow.
    Middle(IoBlock, IoBlock),
}

impl IoBlock {
    /// The descriptor of the block.
    pub open spec fn desc(self) -> IoSpaceDescriptor {
        match self {
            IoBlock::Unallocated(d) => d,
            IoBlock::Allocated(d) => d,
        }
    }

    /// The same kind of block with another descriptor.
    pub open spec fn with_desc(self, d: IoSpaceDescriptor) -> IoBlock {
        match self {
            IoBlock::Unallocated(_) => IoBlock::Unallocated(d),
            IoBlock::Allocated(_) => IoBlock::Allocated(d),
        }
    }

    /// First address of the block.
    pub open spec fn spec_start(self) -> int {
        self.desc().base_address as int
    }

    /// Address just past the block.
    pub open spec fn spec_end(self) -> int {
        self.desc().base_address + self.desc().length
    }

    /// Length of the block.
    pub open spec fn spec_len(self) -> int {
        self.desc().length as int
    }

    /// The block moved to cover `len` bytes from `base`, in the same state.
    pub open spec fn with_range(self, base: int, len: int) -> IoBlock {
        self.with_desc(IoSpaceDescriptor { base_address: base as u64, length: len as u64, ..self.desc() })
    }

    /// Everything about the block but where it lies.
    pub open spec fn state(self) -> IoBlock {
        self.with_range(0, 0)
    }

    /// The block after a transition, or `None` when the transition is not allowed.
    pub open spec fn transitioned(self, t: StateTransition) -> Option<IoBlock> {
        let id = self.desc();
        match t {
            StateTransition::Add(io_type) => {
                if self is Unallocated && id.io_type == GcdIoType::NonExistent && io_type != GcdIoType::NonExistent {
                    Some(IoBlock::Unallocated(IoSpaceDescriptor { io_type, ..id }))
                } else {
                    None
                }
            },
            StateTransition::Remove => {
                if self is Unallocated && id.io_type != GcdIoType::NonExistent {
                    Some(IoBlock::Unallocated(IoSpaceDescriptor { io_type: GcdIoType::NonExistent, ..id }))
                } else {
                    None
                }
            },
            StateTransition::Allocate(image_handle, device_handle) => {
                if self is Unallocated && id.io_type != GcdIoType::NonExistent {
                    Some(
                        IoBlock::Allocated(
                            IoSpaceDescriptor {
                                image_handle,
                                device_handle: match device_handle {
                                    Some(d) => d,
                                    None => id.device_handle,
                                },
                                ..id
                            },
                        ),
                    )
                } else {
                    None
                }
            },
            StateTransition::Free => {
                if self is Allocated && id.io_type != GcdIoType::NonExistent {
                    Some(IoBlock::Unallocated(IoSpaceDescriptor { image_handle: 0, device_handle: 0, ..id }))
                } else {
                    None
                }
            },
        }
    }

    /// A transition leaves the range of a block alone and depends only on its state.
    pub proof fn lemma_transition_keeps_range(self, t: StateTransition)
        ensures
            self.transitioned(t) matches Some(nb) ==> nb.spec_start() == self.spec_start()
                && nb.spec_len() == self.spec_len() && nb.state() == self.state().transitioned(t)->0,
            self.transitioned(t) is Some <==> self.state().transitioned(t) is Some,
    {
    }

    /// The descriptor of the block.
    pub fn as_ref(&self) -> (r: &IoSpaceDescriptor)
        ensures
            *r == self.desc(),
    {
        match self {
            IoBlock::Unallocated(d) => d,
            IoBlock::Allocated(d) => d,
        }
    }

    /// Merges `other` into `self` when both are in the same state and `other`
    /// starts where `self` ends; `other` is left with length 0.
    pub fn merge(&mut self, other: &mut IoBlock) -> (r: bool)
        requires
            old(self).spec_end() <= usize::MAX,
            old(other).spec_end() <= usize::MAX,
        ensures
            r == (old(self).state() == old(other).state() && old(self).spec_end() == old(other).spec_start()),
            r ==> *final(self) == old(self).with_range(old(self).spec_start(), old(self).spec_len() + old(other).spec_len())
                && *final(other) == old(other).with_range(old(other).spec_start(), 0),
            !r ==> *final(self) == *old(self) && *final(other) == *old(other),
    {
        if self.is_same_state(other) && self.end() == other.start() {
            let d = *self.as_ref();
            let od = *other.as_ref();
            let nd = IoSpaceDescriptor { length: d.length + od.length, ..d };
            let ond = IoSpaceDescriptor { length: 0, ..od };
            *self = match *self {
                IoBlock::Unallocated(_) => IoBlock::Unallocated(nd),
                IoBlock::Allocated(_) => IoBlock::Allocated(nd),
            };
            *other = match *other {
                IoBlock::Unallocated(_) => IoBlock::Unallocated(ond),
                IoBlock::Allocated(_) => IoBlock::Allocated(ond),
            };
            true
        } else {
            false
        }
    }

    /// Splits the block so that `len` bytes at `base_address` form a block of their own.
    pub fn split(&mut self, base_address: usize, len: usize) -> (r: Result<IoBlockSplit, Error>)
        requires
            base_address + len <= usize::MAX,
            old(self).spec_end() <= usize::MAX,
        ensures
            ({
                let b = *old(self);
                let start = base_address as int;
                let end = base_address + len;
                if !(b.spec_start() <= start && start < end && end <= b.spec_end()) {
                    r == Err::<IoBlockSplit, Error>(Error::BlockOutsideRange) && *final(self) == b
                } else if b.spec_start() == start && end == b.spec_end() {
                    r == Ok::<IoBlockSplit, Error>(IoBlockSplit::Same) && *final(self) == b
                } else if b.spec_start() == start {
                    r == Ok::<IoBlockSplit, Error>(IoBlockSplit::Before(b.with_range(end, b.spec_end() - end)))
                        && *final(self) == b.with_range(start, len as int)
                } else if end == b.spec_end() {
                    r == Ok::<IoBlockSplit, Error>(IoBlockSplit::After(b.with_range(start, len as int)))
                        && *final(self) == b.with_range(b.spec_start(), start - b.spec_start())
                } else {
                    r == Ok::<IoBlockSplit, Error>(IoBlockSplit::Middle(
                        b.with_range(start, len as int),
                        b.with_range(end, b.spec_end() - end),
                    )) && *final(self) == b.with_range(b.spec_start(), start - b.spec_start())
                }
            }),
    {
        let start = base_address;
        let end = base_address + len;
        let s = self.start();
        let e = self.end();
        if !(s <= start && start < end && end <= e) {
            return Err(Error::BlockOutsideRange);
        }
        if s == start && end == e {
            return Ok(IoBlockSplit::Same);
        }
        let d = *self.as_ref();
        if s == start {
            let first = IoSpaceDescriptor { base_address: base_address as u64, length: len as u64, ..d };
            let rest = IoSpaceDescriptor { base_address: end as u64, length: d.length - len as u64, ..d };
            let (a, b) = match *self {
                IoBlock::Unallocated(_) => (IoBlock::Unallocated(first), IoBlock::Unallocated(rest)),
                IoBlock::Allocated(_) => (IoBlock::Allocated(first), IoBlock::Allocated(rest)),
            };
            *self = a;
            return Ok(IoBlockSplit::Before(b));
        }
        if end == e {
            let first = IoSpaceDescriptor { length: d.length - len as u64, ..d };
            let last = IoSpaceDescriptor { base_address: base_address as u64, length: len as u64, ..d };
            let (a, b) = match *self {
                IoBlock::Unallocated(_) => (IoBlock::Unallocated(first), IoBlock::Unallocated(last)),
                IoBlock::Allocated(_) => (IoBlock::Allocated(first), IoBlock::Allocated(last)),
            };
            *self = a;
            return Ok(IoBlockSplit::After(b));
        }
        let first = IoSpaceDescriptor { length: (start - s) as u64, ..d };
        let mid = IoSpaceDescriptor { base_address: base_address as u64, length: len as u64, ..d };
        let last = IoSpaceDescriptor { base_address: end as u64, length: (e - end) as u64, ..d };
        let (a, b, c) = match *self {
            IoBlock::Unallocated(_) => (
                IoBlock::Unallocated(first),
                IoBlock::Unallocated(mid),
                IoBlock::Unallocated(last),
            ),
            IoBlock::Allocated(_) => (
                IoBlock::Allocated(first),
                IoBlock::Allocated(mid),
                IoBlock::Allocated(last),
            ),
        };
        *self = a;
        Ok(IoBlockSplit::Middle(b, c))
    }

    /// Splits the block at the range and applies `transition` to the part
    /// that covers the range. When the transition is refused, the block is
    /// left as it was.
    pub fn split_state_transition(&mut self, base_address: usize, len: usize, transition: StateTransition) -> (r:
        Result<IoBlockSplit, Error>)
        requires
            base_address + len <= usize::MAX,
            old(self).spec_end() <= usize::MAX,
        ensures
            ({
                let b = *old(self);
                let start = base_address as int;
                let end = base_address + len;
                if !(b.spec_start() <= start && start < end && end <= b.spec_end()) {
                    r == Err::<IoBlockSplit, Error>(Error::BlockOutsideRange) && *final(self) == b
                } else if b.transitioned(transition) is None {
                    r == Err::<IoBlockSplit, Error>(Error::InvalidStateTransition) && *final(self) == b
                } else {
                    let nb = b.transitioned(transition)->0;
                    if b.spec_start() == start && end == b.spec_end() {
                        r == Ok::<IoBlockSplit, Error>(IoBlockSplit::Same) && *final(self) == nb
                    } else if b.spec_start() == start {
                        r == Ok::<IoBlockSplit, Error>(
                            IoBlockSplit::Before(b.with_range(end, b.spec_end() - end)),
                        ) && *final(self) == nb.with_range(start, len as int)
                    } else if end == b.spec_end() {
                        r == Ok::<IoBlockSplit, Error>(
                            IoBlockSplit::After(nb.with_range(start, len as int)),
                        ) && *final(self) == b.with_range(b.spec_start(), start - b.spec_start())
                    } else {
                        r == Ok::<IoBlockSplit, Error>(
                            IoBlockSplit::Middle(
                                nb.with_range(start, len as int),
                                b.with_range(end, b.spec_end() - end),
                            ),
                        ) && *final(self) == b.with_range(b.spec_start(), start - b.spec_start())
                    }
                }
            }),
    {
        let ghost b = *self;
        let split = self.split(base_address, len);
        match split {
            Err(e) => Err(e),
            Ok(IoBlockSplit::Same) => {
                match self.state_transition(transition) {
                    Ok(()) => Ok(IoBlockSplit::Same),
                    Err(e) => Err(e),
                }
            },
            Ok(IoBlockSplit::Before(next)) => {
                proof {
                    b.lemma_transition_keeps_range(transition);
                    self.lemma_transition_keeps_range(transition);
                }
                match self.state_transition(transition) {
                    Ok(()) => Ok(IoBlockSplit::Before(next)),
                    Err(e) => {
                        let mut next = next;
                        self.merge(&mut next);
                        assert(*self == b);
                        Err(e)
                    },
                }
            },
            Ok(IoBlockSplit::After(mb)) => {
                let mut mb = mb;
                proof {
                    b.lemma_transition_keeps_range(transition);
                    mb.lemma_transition_keeps_range(transition);
                }
                match mb.state_transition(transition) {
                    Ok(()) => Ok(IoBlockSplit::After(mb)),
                    Err(e) => {
                        self.merge(&mut mb);
                        assert(*self == b);
                        Err(e)
                    },
                }
            },
            Ok(IoBlockSplit::Middle(mb, next)) => {
                let mut mb = mb;
                let mut next = next;
                proof {
                    b.lemma_transition_keeps_range(transition);
                    mb.lemma_transition_keeps_range(transition);
                }
                match mb.state_transition(transition) {
                    Ok(()) => Ok(IoBlockSplit::Middle(mb, next)),
                    Err(e) => {
                        mb.merge(&mut next);
                        self.merge(&mut mb);
                        assert(*self == b);
                        Err(e)
                    },
                }
            },
        }
    }

    /// Whether two blocks are in the same state (ignoring where they lie).
    pub fn is_same_state(&self, other: &IoBlock) -> (r: bool)
        ensures
            r == (self.state() == other.state()),
    {
        match (*self, *other) {
            (IoBlock::Unallocated(a), IoBlock::Unallocated(b)) | (
                IoBlock::Allocated(a),
                IoBlock::Allocated(b),
            ) => {
                a.io_type == b.io_type && a.device_handle == b.device_handle && a.image_handle
                    == b.image_handle
            },
            _ => false,
        }
    }

    /// Applies a transition to the block.
    pub fn state_transition(&mut self, transition: StateTransition) -> (r: Result<(), Error>)
        ensures
            old(self).transitioned(transition) matches Some(nb) ==> r is Ok && *final(self) == nb,
            old(self).transitioned(transition) is None ==> r == Err::<(), Error>(Error::InvalidStateTransition)
                && *final(self) == *old(self),
    {
        match transition {
            StateTransition::Add(io_type) => self.add_transition(io_type),
            StateTransition::Remove => self.remove_transition(),
            StateTransition::Allocate(image_handle, device_handle) => self.allocate_transition(
                image_handle,
                device_handle,
            ),
            StateTransition::Free => self.free_transition(),
        }
    }

    /// Adds I/O space of `io_type` to a non-existent, unallocated block.
    pub fn add_transition(&mut self, io_type: GcdIoType) -> (r: Result<(), Error>)
        ensures
            old(self).transitioned(StateTransition::Add(io_type)) matches Some(nb) ==> r is Ok && *final(self) == nb,
            old(self).transitioned(StateTransition::Add(io_type)) is None ==> r == Err::<(), Error>(
                Error::InvalidStateTransition,
            ) && *final(self) == *old(self),
    {
        match *self {
            IoBlock::Unallocated(id) => {
                if id.io_type == GcdIoType::NonExistent && io_type != GcdIoType::NonExistent {
                    *self = IoBlock::Unallocated(IoSpaceDescriptor { io_type, ..id });
                    Ok(())
                } else {
                    Err(Error::InvalidStateTransition)
                }
            },
            _ => Err(Error::InvalidStateTransition),
        }
    }

    /// Removes the I/O space of an unallocated block.
    pub fn remove_transition(&mut self) -> (r: Result<(), Error>)
        ensures
            old(self).transitioned(StateTransition::Remove) matches Some(nb) ==> r is Ok && *final(self) == nb,
            old(self).transitioned(StateTransition::Remove) is None ==> r == Err::<(), Error>(
                Error::InvalidStateTransition,
            ) && *final(self) == *old(self),
    {
        match *self {
            IoBlock::Unallocated(id) => {
                if id.io_type != GcdIoType::NonExistent {
                    *self = IoBlock::Unallocated(IoSpaceDescriptor { io_type: GcdIoType::NonExistent, ..id });
                    Ok(())
                } else {
                    Err(Error::InvalidStateTransition)
                }
            },
            _ => Err(Error::InvalidStateTransition),
        }
    }

    /// Allocates an unallocated block of existing I/O space.
    pub fn allocate_transition(&mut self, image_handle: usize, device_handle: Option<usize>) -> (r: Result<
        (),
        Error,
    >)
        ensures
            old(self).transitioned(StateTransition::Allocate(image_handle, device_handle)) matches Some(nb) ==> r is Ok
                && *final(self) == nb,
            old(self).transitioned(StateTransition::Allocate(image_handle, device_handle)) is None ==> r == Err::<
                (),
                Error,
            >(Error::InvalidStateTransition) && *final(self) == *old(self),
    {
        match *self {
            IoBlock::Unallocated(id) => {
                if id.io_type != GcdIoType::NonExistent {
                    let dh = match device_handle {
                        Some(d) => d,
                        None => id.device_handle,
                    };
                    *self = IoBlock::Allocated(IoSpaceDescriptor { image_handle, device_handle: dh, ..id });
                    Ok(())
                } else {
                    Err(Error::InvalidStateTransition)
                }
            },
            _ => Err(Error::InvalidStateTransition),
        }
    }

    /// Frees an allocated block.
    pub fn free_transition(&mut self) -> (r: Result<(), Error>)
        ensures
            old(self).transitioned(StateTransition::Free) matches Some(nb) ==> r is Ok && *final(self) == nb,
            old(self).transitioned(StateTransition::Free) is None ==> r == Err::<(), Error>(
                Error::InvalidStateTransition,
            ) && *final(self) == *old(self),
    {
        match *self {
            IoBlock::Allocated(id) => {
                if id.io_type != GcdIoType::NonExistent {
                    *self = IoBlock::Unallocated(IoSpaceDescriptor { image_handle: 0, device_handle: 0, ..id });
                    Ok(())
                } else {
                    Err(Error::InvalidStateTransition)
                }
            },
            _ => Err(Error::InvalidStateTransition),
        }
    }

    /// First address of the block.
    pub fn start(&self) -> (r: usize)
        requires
            self.spec_start() <= usize::MAX,
        ensures
            r == self.spec_start(),
    {
        self.as_ref().base_address as usize
    }

    /// Address just past the block.
    pub fn end(&self) -> (r: usize)
        requires
            self.spec_end() <= usize::MAX,
        ensures
            r == self.spec_end(),
    {
        (self.as_ref().base_address + self.as_ref().length) as usize
    }

    /// Length of the block.
    pub fn len(&self) -> (r: usize)
        requires
            self.spec_len() <= usize::MAX,
        ensures
            r == self.spec_len(),
    {
        self.as_ref().length as usize
    }

    /// Whether the block has length 0.
    pub fn is_empty(&self) -> (r: bool)
        requires
            self.spec_len() <= usize::MAX,
        ensures
            r == (self.spec_len() == 0),
    {
        self.len() == 0
    }
}

} // verus!
