use vstd::prelude::*;

verus! {

/// An address in the kernel's virtual address space.
#[derive(Debug, Clone, Copy, PartialEq, Eq, Structural, PartialOrd, Ord)]
pub struct VirtAddr(pub u64);

/// An address in physical memory.
#[derive(Debug, Clone, Copy, PartialEq, Eq, Structural, PartialOrd, Ord)]
pub struct PhysAddr(pub u64);

impl Default for VirtAddr {
    fn default() -> (r: VirtAddr)
        ensures
            r.0 == 0,
    {
        VirtAddr(0)
    }
}

impl Default for PhysAddr {
    fn default() -> (r: PhysAddr)
        ensures
            r.0 == 0,
    {
        PhysAddr(0)
    }
}

impl VirtAddr {
    #[inline]
    pub fn new(addr: u64) -> (r: VirtAddr)
        ensures
            r.0 == addr,
    {
        VirtAddr(addr)
    }

    #[inline]
    pub fn as_u64(self) -> (r: u64)
        ensures
            r == self.0,
    {
        self.0
    }

    /// The address as a machine word, for reading through it.
    #[inline]
    pub fn as_ptr(self) -> (r: usize)
        ensures
            r == self.0 as usize,
            self.0 <= usize::MAX ==> r == self.0,
    {
        self.0 as usize
    }

    /// The address as a machine word, for writing through it.
    #[inline]
    pub fn as_mut_ptr(self) -> (r: usize)
        ensures
            r == self.0 as usize,
            self.0 <= usize::MAX ==> r == self.0,
    {
        self.0 as usize
    }

    /// The physical address that the direct map at `hhdm` shows at this
    /// virtual address.
    pub open spec fn spec_as_phys_hhdm(self, hhdm: u64) -> PhysAddr {
        PhysAddr((self.0 - hhdm) as u64)
    }

    /// The physical address that the direct map at `hhdm` shows at this
    /// virtual address.
    #[inline]
    pub fn as_phys_hhdm(self, hhdm: u64) -> (r: PhysAddr)
        requires
            hhdm <= self.0,
        ensures
            r == self.spec_as_phys_hhdm(hhdm),
    {
        PhysAddr(self.as_u64() - hhdm)
    }
}

impl PhysAddr {
    #[inline]
    pub fn new(addr: u64) -> (r: PhysAddr)
        ensures
            r.0 == addr,
    {
        PhysAddr(addr)
    }

    #[inline]
    pub fn as_u64(self) -> (r: u64)
        ensures
            r == self.0,
    {
        self.0
    }

    /// The virtual address at which the direct map at `hhdm` shows this
    /// physical address.
    pub open spec fn spec_as_hhdm(self, hhdm: u64) -> VirtAddr {
        VirtAddr((self.0 + hhdm) as u64)
    }

    /// The virtual address at which the direct map at `hhdm` shows this
    /// physical address.
    #[inline]
    pub fn as_hhdm(self, hhdm: u64) -> (r: VirtAddr)
        requires
            self.0 + hhdm <= u64::MAX,
        ensures
            r == self.spec_as_hhdm(hhdm),
    {
        VirtAddr(self.as_u64() + hhdm)
    }
}

/// Translating a physical address through the direct map and back gives the
/// address again, whatever the offset, as long as the virtual address exists.
pub proof fn lemma_direct_map_round_trip(p: PhysAddr, hhdm: u64)
    requires
        p.0 + hhdm <= u64::MAX,
    ensures
        p.spec_as_hhdm(hhdm).0 == p.0 + hhdm,
        p.spec_as_hhdm(hhdm).spec_as_phys_hhdm(hhdm) == p,
{
}

} // verus!
