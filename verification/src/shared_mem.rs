//! The shared-memory region that the host hands to the runtime, described by
//! its address and length, and where the protocol's fields lie inside it.
use crate::protocol::{
    OFFSET_COMMAND_COUNT, OFFSET_COMMAND_QUEUE, OFFSET_SNAPSHOT_READY, OFFSET_WORLD_SNAPSHOT,
    CQ_TAIL_OFFSET,
};
use vstd::prelude::*;

verus! {

/// Why a region was refused.
#[derive(Clone, Copy, Debug, PartialEq, Eq, Structural)]
pub enum RegionError {
    NullPointer,
    TooSmall,
    Misaligned,
}

impl RegionError {
    /// The message that the host is shown.
    pub fn message(&self) -> (m: &'static str)
        ensures
            m@ == match self {
                RegionError::NullPointer => "SharedRegion: null pointer"@,
                RegionError::TooSmall => "SharedRegion: buffer too small"@,
                RegionError::Misaligned => "SharedRegion: pointer must be 8-byte aligned"@,
            },
    {
        match self {
            RegionError::NullPointer => "SharedRegion: null pointer",
            RegionError::TooSmall => "SharedRegion: buffer too small",
            RegionError::Misaligned => "SharedRegion: pointer must be 8-byte aligned",
        }
    }
}

/// The reason a region is refused, if it is: a null address first, then an
/// empty length, then an address that is not a multiple of 8.
pub open spec fn region_check(addr: int, len: int) -> Option<RegionError> {
    if addr == 0 {
        Some(RegionError::NullPointer)
    } else if len == 0 {
        Some(RegionError::TooSmall)
    } else if addr % 8 != 0 {
        Some(RegionError::Misaligned)
    } else {
        None
    }
}

/// A region of shared memory: its first byte's address and its length.
pub struct SharedRegion {
    addr: usize,
    len: usize,
}

impl SharedRegion {
    /// The region's address.
    pub closed spec fn base(self) -> int {
        self.addr as int
    }

    /// The region's length in bytes.
    pub closed spec fn size(self) -> int {
        self.len as int
    }

    /// Every region lies inside the address space.
    #[verifier::type_invariant]
    spec fn in_address_space(self) -> bool {
        self.addr + self.len <= usize::MAX
    }

    /// Accepts the region at `addr` of `len` bytes unless the address is null,
    /// the length is 0 or the address is not 8-byte aligned.  The region must
    /// lie inside the address space.
    pub fn try_from_raw(addr: usize, len: usize) -> (r: Result<SharedRegion, RegionError>)
        requires
            addr + len <= usize::MAX,
        ensures
            match region_check(addr as int, len as int) {
                Some(e) => r == Err::<SharedRegion, RegionError>(e),
                None => r is Ok && r->Ok_0.base() == addr && r->Ok_0.size() == len,
            },
    {
        if addr == 0 {
            return Err(RegionError::NullPointer);
        }
        if len == 0 {
            return Err(RegionError::TooSmall);
        }
        if addr % 8 != 0 {
            return Err(RegionError::Misaligned);
        }
        Ok(SharedRegion { addr, len })
    }

    pub fn addr(&self) -> (a: usize)
        ensures
            a == self.base(),
    {
        self.addr
    }

    pub fn len(&self) -> (n: usize)
        ensures
            n == self.size(),
    {
        self.len
    }

    /// Address of the flag by which the host marks a fresh snapshot.
    pub fn snapshot_ready_addr(&self) -> (a: usize)
        requires
            OFFSET_SNAPSHOT_READY + 4 <= self.size(),
        ensures
            a == self.base() + OFFSET_SNAPSHOT_READY,
    {
        proof {
            use_type_invariant(self);
        }
        self.addr + OFFSET_SNAPSHOT_READY
    }

    /// Address of the count of command bytes written during the last tick.
    pub fn command_count_addr(&self) -> (a: usize)
        requires
            OFFSET_COMMAND_COUNT + 4 <= self.size(),
        ensures
            a == self.base() + OFFSET_COMMAND_COUNT,
    {
        proof {
            use_type_invariant(self);
        }
        self.addr + OFFSET_COMMAND_COUNT
    }

    /// Address of the world snapshot.
    pub fn world_snapshot_ptr(&self) -> (a: usize)
        requires
            OFFSET_WORLD_SNAPSHOT < self.size(),
        ensures
            a == self.base() + OFFSET_WORLD_SNAPSHOT,
    {
        proof {
            use_type_invariant(self);
        }
        self.addr + OFFSET_WORLD_SNAPSHOT
    }

    /// Address of the command-queue region.
    pub fn command_queue_ptr(&self) -> (a: usize)
        requires
            OFFSET_COMMAND_QUEUE < self.size(),
        ensures
            a == self.base() + OFFSET_COMMAND_QUEUE,
    {
        proof {
            use_type_invariant(self);
        }
        self.addr + OFFSET_COMMAND_QUEUE
    }

    /// Address of the command-queue region, for writing.
    pub fn command_queue_ptr_mut(&self) -> (a: usize)
        requires
            OFFSET_COMMAND_QUEUE < self.size(),
        ensures
            a == self.base() + OFFSET_COMMAND_QUEUE,
    {
        self.command_queue_ptr()
    }

    /// Address of the command queue's producer position.
    pub fn command_queue_tail_addr(&self) -> (a: usize)
        requires
            OFFSET_COMMAND_QUEUE + CQ_TAIL_OFFSET + 4 <= self.size(),
        ensures
            a == self.base() + OFFSET_COMMAND_QUEUE + CQ_TAIL_OFFSET,
    {
        proof {
            use_type_invariant(self);
        }
        self.addr + OFFSET_COMMAND_QUEUE + CQ_TAIL_OFFSET
    }
}

/// Why the runtime refused to start.
#[derive(Clone, Copy, Debug, PartialEq, Eq, Structural)]
pub enum InitError {
    /// The state region cannot hold the command queue's header.
    StateTooSmall,
    /// The state region was refused.
    State(RegionError),
    /// The event-ring region was refused.
    EventRing(RegionError),
}

impl InitError {
    /// The message that the host is shown.
    pub fn message(&self) -> (m: &'static str)
        ensures
            m@ == match self {
                InitError::StateTooSmall => "state buffer too small"@,
                InitError::State(e) => match e {
                    RegionError::NullPointer => "SharedRegion: null pointer"@,
                    RegionError::TooSmall => "SharedRegion: buffer too small"@,
                    RegionError::Misaligned => "SharedRegion: pointer must be 8-byte aligned"@,
                },
                InitError::EventRing(e) => match e {
                    RegionError::NullPointer => "SharedRegion: null pointer"@,
                    RegionError::TooSmall => "SharedRegion: buffer too small"@,
                    RegionError::Misaligned => "SharedRegion: pointer must be 8-byte aligned"@,
                },
            },
    {
        match self {
            InitError::StateTooSmall => "state buffer too small",
            InitError::State(e) => e.message(),
            InitError::EventRing(e) => e.message(),
        }
    }
}

/// The regions the runtime starts with, or why it refuses: the state region
/// must hold at least the command queue's first 32 bytes, then both regions
/// must pass `try_from_raw`, the state region first.
pub fn prepare_init(state_addr: usize, state_size: usize, ring_addr: usize, ring_size: usize) -> (r:
    Result<(SharedRegion, SharedRegion), InitError>)
    requires
        state_addr + state_size <= usize::MAX,
        ring_addr + ring_size <= usize::MAX,
    ensures
        state_size < OFFSET_COMMAND_QUEUE + 32 ==> r == Err::<(SharedRegion, SharedRegion), InitError>(
            InitError::StateTooSmall,
        ),
        state_size >= OFFSET_COMMAND_QUEUE + 32 ==> match region_check(state_addr as int, state_size as int) {
            Some(e) => r == Err::<(SharedRegion, SharedRegion), InitError>(InitError::State(e)),
            None => match region_check(ring_addr as int, ring_size as int) {
                Some(e) => r == Err::<(SharedRegion, SharedRegion), InitError>(InitError::EventRing(e)),
                None => r is Ok && r->Ok_0.0.base() == state_addr && r->Ok_0.0.size() == state_size
                    && r->Ok_0.1.base() == ring_addr && r->Ok_0.1.size() == ring_size,
            },
        },
{
    if state_size < OFFSET_COMMAND_QUEUE + 32 {
        return Err(InitError::StateTooSmall);
    }
    let state = match SharedRegion::try_from_raw(state_addr, state_size) {
        Ok(s) => s,
        Err(e) => return Err(InitError::State(e)),
    };
    let ring = match SharedRegion::try_from_raw(ring_addr, ring_size) {
        Ok(s) => s,
        Err(e) => return Err(InitError::EventRing(e)),
    };
    Ok((state, ring))
}

/// Law: a region accepted for the runtime's state holds every field that the
/// runtime reads or writes in it.
pub proof fn lemma_init_region_holds_fields(state_size: int)
    requires
        state_size >= OFFSET_COMMAND_QUEUE + 32,
    ensures
        OFFSET_SNAPSHOT_READY + 4 <= state_size,
        OFFSET_COMMAND_COUNT + 4 <= state_size,
        OFFSET_WORLD_SNAPSHOT < state_size,
        OFFSET_COMMAND_QUEUE < state_size,
        OFFSET_COMMAND_QUEUE + CQ_TAIL_OFFSET + 4 <= state_size,
{
}

} // verus!
