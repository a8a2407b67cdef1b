use vstd::prelude::*;

verus! {

/// Size of one physical page covered by a single PRP entry.
pub const PAGE_SIZE: usize = 4096;

/// Size of the huge pages that back DMA regions.
pub const HUGE_PAGE_SIZE: usize = 2 * 1024 * 1024;

/// A physically contiguous, pinned DMA region: `bytes.len()` bytes of host
/// memory whose physical base address is `phys`. The external allocator hands
/// out such regions backed by huge pages; this type carries the two facts the
/// core reasons about, the contents and the physical base.
pub struct Dma {
    pub phys: u64,
    pub bytes: Vec<u8>,
}

/// A borrowed window into a DMA region: `len` bytes starting at physical
/// address `phys`. Because the region is physically contiguous, the window is
/// fully described by these two values.
#[derive(Clone, Copy, Debug, PartialEq, Eq, Structural)]
pub struct DmaSlice {
    pub phys: u64,
    pub len: usize,
}

impl Dma {
    /// The region is aligned to whole pages and does not wrap the physical
    /// address space.
    pub open spec fn wf(self) -> bool {
        &&& self.phys % (PAGE_SIZE as u64) == 0
        &&& self.bytes.len() % PAGE_SIZE == 0
        &&& self.phys + self.bytes.len() <= u64::MAX
    }

    /// Wraps a region that the external allocator pinned at physical address
    /// `phys`, zero-filled.
    pub fn allocate(phys: u64, size: usize) -> (r: Dma)
        requires
            phys % (PAGE_SIZE as u64) == 0,
            size % PAGE_SIZE == 0,
            phys + size <= u64::MAX,
        ensures
            r.wf(),
            r.phys == phys,
            r.bytes.len() == size,
            forall|i: int| 0 <= i < size ==> r.bytes[i] == 0u8,
    {
        let bytes: Vec<u8> = vec![0u8; size];
        Dma { phys, bytes }
    }

    /// A window of `len` bytes starting `offset` bytes into the region.
    pub fn slice(&self, offset: usize, len: usize) -> (r: DmaSlice)
        requires
            offset + len <= self.bytes.len(),
            self.wf(),
        ensures
            r.phys == self.phys + offset,
            r.len == len,
    {
        DmaSlice { phys: self.phys + offset as u64, len }
    }

    /// The region cut into aligned windows of `n` bytes each; the last one
    /// may be shorter.
    #[verifier::loop_isolation(false)]
    pub fn chunks(&self, n: usize) -> (r: Vec<DmaSlice>)
        requires
            n >= 1,
            self.wf(),
            self.bytes.len() + n <= usize::MAX,
        ensures
            r.len() == (self.bytes.len() + n - 1) / (n as int),
            forall|i: int|
                0 <= i < r.len() ==> (#[trigger] r[i]).phys == self.phys + i * n && r[i].len == (
                if self.bytes.len() - i * n < n {
                    self.bytes.len() - i * n
                } else {
                    n as int
                }),
    {
        proof {
            crate::prp::lemma_ceil_div(self.bytes.len() as int, n as int);
        }
        let count: usize = (self.bytes.len() + (n - 1)) / n;
        let mut r: Vec<DmaSlice> = Vec::new();
        let mut k: usize = 0;
        while k < count
            invariant
                k <= count,
                r.len() == k,
                forall|i: int|
                    0 <= i < k ==> (#[trigger] r[i]).phys == self.phys + i * n && r[i].len == (
                    if self.bytes.len() - i * n < n {
                        self.bytes.len() - i * n
                    } else {
                        n as int
                    }),
            decreases count - k,
        {
            proof {
                assert(k * n <= (count - 1) * n) by (nonlinear_arith)
                    requires
                        k <= count - 1,
                        n >= 1,
                ;
            }
            let off: usize = k * n;
            let rest = self.bytes.len() - off;
            let len = if rest < n {
                rest
            } else {
                n
            };
            r.push(DmaSlice { phys: self.phys + off as u64, len });
            k = k + 1;
        }
        r
    }

    /// Copies `src` into the region starting at `offset`.
    pub fn write_bytes(&mut self, offset: usize, src: &[u8])
        requires
            offset + src@.len() <= old(self).bytes.len(),
        ensures
            final(self).phys == old(self).phys,
            final(self).bytes.len() == old(self).bytes.len(),
            forall|i: int|
                0 <= i < src@.len() ==> final(self).bytes[offset + i] == src@[i],
            forall|i: int|
                0 <= i < old(self).bytes.len() && !(offset <= i < offset + src@.len())
                    ==> final(self).bytes[i] == old(self).bytes[i],
    {
        let mut i: usize = 0;
        while i < src.len()
            invariant
                i <= src@.len(),
                offset + src@.len() <= self.bytes.len(),
                self.phys == old(self).phys,
                self.bytes.len() == old(self).bytes.len(),
                forall|j: int| 0 <= j < i ==> self.bytes[offset + j] == src@[j],
                forall|j: int|
                    0 <= j < old(self).bytes.len() && !(offset <= j < offset + src@.len())
                        ==> self.bytes[j] == old(self).bytes[j],
            decreases src@.len() - i,
        {
            let b = src[i];
            self.bytes[offset + i] = b;
            i = i + 1;
        }
    }

    /// Reads `len` bytes starting at `offset`.
    pub fn read_bytes(&self, offset: usize, len: usize) -> (r: Vec<u8>)
        requires
            offset + len <= self.bytes.len(),
        ensures
            r.len() == len,
            forall|i: int| 0 <= i < len ==> r[i] == self.bytes[offset + i],
    {
        let mut r: Vec<u8> = Vec::new();
        let mut i: usize = 0;
        while i < len
            invariant
                i <= len,
                offset + len <= self.bytes.len(),
                r.len() == i,
                forall|j: int| 0 <= j < i ==> r[j] == self.bytes[offset + j],
            decreases len - i,
        {
            let b = self.bytes[offset + i];
            r.push(b);
            i = i + 1;
        }
        r
    }

    /// The byte the device sees at physical address `addr`.
    pub fn byte_at_phys(&self, addr: u64) -> (r: u8)
        requires
            self.phys <= addr < self.phys + self.bytes.len(),
        ensures
            r == self.bytes[addr - self.phys],
    {
        self.bytes[(addr - self.phys) as usize]
    }

    /// Stores `b` at physical address `addr`, as the device does when it
    /// executes a read command.
    pub fn set_byte_at_phys(&mut self, addr: u64, b: u8)
        requires
            old(self).phys <= addr < old(self).phys + old(self).bytes.len(),
        ensures
            final(self).phys == old(self).phys,
            final(self).bytes@ == old(self).bytes@.update(addr - old(self).phys, b),
    {
        self.bytes[(addr - self.phys) as usize] = b;
    }
}

} // verus!
