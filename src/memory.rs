use vstd::prelude::*;

verus! {

/// Bytes in a physical frame.
pub const FRAME_SIZE: u64 = 4096;

/// One past the highest frame number that a 52-bit physical address can reach.
pub const FRAME_LIMIT: u64 = 0x100_0000_0000;

/// What a region of the firmware's memory map holds.
#[derive(Debug, Clone, Copy, PartialEq, Eq, Structural)]
pub enum MemoryRegionType {
    Usable,
    InUse,
    Reserved,
    AcpiReclaimable,
    AcpiNvs,
    BadMemory,
    Kernel,
    KernelStack,
    PageTable,
    Bootloader,
    FrameZero,
    Empty,
    BootInfo,
    Package,
    Unknown,
}

/// A region of the memory map: the frames numbered `start_frame_number` up to, and
/// not including, `end_frame_number`.
#[derive(Debug, Clone, Copy, PartialEq, Eq, Structural)]
pub struct MemoryRegion {
    pub start_frame_number: u64,
    pub end_frame_number: u64,
    pub region_type: MemoryRegionType,
}

/// A 4 KiB physical frame, by number.
#[derive(Debug, Clone, Copy, PartialEq, Eq, Structural)]
pub struct PhysFrame {
    pub number: u64,
}

impl PhysFrame {
    /// The physical address where the frame starts.
    pub fn start_address(&self) -> (r: u64)
        requires
            self.number < FRAME_LIMIT,
        ensures
            r == self.number * FRAME_SIZE,
            r % FRAME_SIZE == 0,
    {
        self.number * FRAME_SIZE
    }
}

/// Every region lies below the 52-bit physical limit.
pub open spec fn map_wf(m: Seq<MemoryRegion>) -> bool {
    forall|i: int| 0 <= i < m.len() ==> #[trigger] m[i].end_frame_number <= FRAME_LIMIT
}

/// Frame `n` lies in region `r` and `r` is usable.
pub open spec fn usable_in(r: MemoryRegion, n: int) -> bool {
    r.region_type == MemoryRegionType::Usable && r.start_frame_number <= n < r.end_frame_number
}

/// Frame `n` lies in a usable region of the map.
pub open spec fn is_usable_frame(m: Seq<MemoryRegion>, n: int) -> bool {
    exists|i: int| 0 <= i < m.len() && usable_in(#[trigger] m[i], n)
}

/// `r` is what an allocator over map `m` that has handed out every usable frame below
/// `next` returns: the lowest usable frame from `next` on, or none if there is none.
pub open spec fn allocation(m: Seq<MemoryRegion>, next: int, r: Option<PhysFrame>) -> bool {
    match r {
        Some(f) => {
            &&& next <= f.number
            &&& is_usable_frame(m, f.number as int)
            &&& forall|k: int| next <= k < f.number ==> !is_usable_frame(m, k)
        },
        None => forall|k: int| next <= k ==> !is_usable_frame(m, k),
    }
}

/// Hands out the usable frames of a memory map, lowest first, each once.
pub struct BootInfoFrameAllocator {
    regions: Vec<MemoryRegion>,
    next: u64,
}

impl BootInfoFrameAllocator {
    /// The memory map the allocator draws from.
    pub closed spec fn regions(&self) -> Seq<MemoryRegion> {
        self.regions@
    }

    /// Every usable frame below this number has been handed out; none from it on.
    pub closed spec fn next(&self) -> int {
        self.next as int
    }

    pub closed spec fn wf(&self) -> bool {
        map_wf(self.regions@) && self.next <= FRAME_LIMIT
    }

    /// The lowest usable frame not handed out yet, or `None` when none is left.
    pub fn allocate_frame(&mut self) -> (r: Option<PhysFrame>)
        requires
            old(self).wf(),
        ensures
            final(self).wf(),
            final(self).regions() == old(self).regions(),
            allocation(old(self).regions(), old(self).next(), r),
            match r {
                Some(f) => final(self).next() == f.number + 1 && f.number < FRAME_LIMIT,
                None => final(self).next() == old(self).next(),
            },
    {
        let ghost m = self.regions@;
        let next = self.next;
        let mut best: Option<u64> = None;
        let ghost mut witness: int = 0;
        let mut i: usize = 0;
        while i < self.regions.len()
            invariant
                m == self.regions@,
                map_wf(m),
                next == self.next,
                next <= FRAME_LIMIT,
                i <= m.len(),
                match best {
                    Some(b) => {
                        &&& next <= b < FRAME_LIMIT
                        &&& 0 <= witness < i
                        &&& usable_in(m[witness], b as int)
                        &&& forall|j: int, k: int|
                            0 <= j < i && next <= k < b ==> !#[trigger] usable_in(m[j], k)
                    },
                    None => forall|j: int, k: int| 0 <= j < i && next <= k ==> !#[trigger] usable_in(m[j], k),
                },
            decreases m.len() - i,
        {
            let r = self.regions[i];
            if r.region_type == MemoryRegionType::Usable {
                let cand = if next < r.start_frame_number { r.start_frame_number } else { next };
                if cand < r.end_frame_number {
                    let take = match best {
                        Some(b) => cand < b,
                        None => true,
                    };
                    if take {
                        best = Some(cand);
                        proof {
                            witness = i as int;
                        }
                    }
                }
            }
            i += 1;
        }
        match best {
            Some(b) => {
                self.next = b + 1;
                proof {
                    assert(is_usable_frame(m, b as int)) by {
                        assert(usable_in(m[witness], b as int));
                    }
                    assert forall|k: int| next <= k < b implies !is_usable_frame(m, k) by {
                        if is_usable_frame(m, k) {
                            let j = choose|j: int| 0 <= j < m.len() && usable_in(#[trigger] m[j], k);
                            assert(!usable_in(m[j], k));
                        }
                    }
                }
                Some(PhysFrame { number: b })
            },
            None => {
                proof {
                    assert forall|k: int| next <= k implies !is_usable_frame(m, k) by {
                        if is_usable_frame(m, k) {
                            let j = choose|j: int| 0 <= j < m.len() && usable_in(#[trigger] m[j], k);
                            assert(!usable_in(m[j], k));
                        }
                    }
                }
                None
            },
        }
    }
}

/// An allocator over `memory_map` that has handed out nothing yet.
pub fn init_frame_allocator(memory_map: Vec<MemoryRegion>) -> (r: BootInfoFrameAllocator)
    requires
        map_wf(memory_map@),
    ensures
        r.wf(),
        r.regions() == memory_map@,
        r.next() == 0,
{
    BootInfoFrameAllocator { regions: memory_map, next: 0 }
}

/// Two frames handed out one after the other are usable, 4 KiB aligned, and strictly
/// ascending, so no frame is handed out twice.
pub proof fn lemma_allocations_ascend(m: Seq<MemoryRegion>, next: int, a: PhysFrame, b: PhysFrame)
    requires
        allocation(m, next, Some(a)),
        allocation(m, a.number + 1, Some(b)),
    ensures
        is_usable_frame(m, a.number as int),
        is_usable_frame(m, b.number as int),
        (a.number * FRAME_SIZE) % (FRAME_SIZE as int) == 0,
        (b.number * FRAME_SIZE) % (FRAME_SIZE as int) == 0,
        a.number < b.number,
        a.number * FRAME_SIZE < b.number * FRAME_SIZE,
{
    assert((a.number * FRAME_SIZE) % (FRAME_SIZE as int) == 0) by (nonlinear_arith);
    assert((b.number * FRAME_SIZE) % (FRAME_SIZE as int) == 0) by (nonlinear_arith);
    assert(a.number * FRAME_SIZE < b.number * FRAME_SIZE) by (nonlinear_arith)
        requires
            a.number < b.number,
    ;
}

/// Once an allocator reports no frame left, it reports none again.
pub proof fn lemma_exhaustion_stays(m: Seq<MemoryRegion>, next: int, later: int)
    requires
        allocation(m, next, None),
        next <= later,
    ensures
        allocation(m, later, None),
{
}

} // verus!
