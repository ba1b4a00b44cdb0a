use vstd::prelude::*;

pub mod addr;
pub mod heap;
pub mod pmm;
pub mod slab;

pub use addr::{PhysAddr, VirtAddr};

verus! {

/// The size of a frame of physical memory, in bytes.
pub const PAGE_SIZE: u64 = 4096;

/// Why a request for memory was not served.
#[derive(Debug, Clone, Copy, PartialEq, Eq, Structural)]
pub enum AllocError {
    /// No run of free frames of the length asked for exists.
    OutOfMemory,
    /// The pointer, size and alignment are not those of a live allocation.
    InvalidPointer,
}

/// A power of two: exactly one bit is set.
pub open spec fn is_power_of_two(x: u64) -> bool {
    x != 0 && x & ((x - 1) as u64) == 0
}

/// `addr` with the bits below `align` cleared.
pub open spec fn align_down_spec(addr: u64, align: u64) -> u64 {
    addr & !((align - 1) as u64)
}

/// `addr + align - 1` with the bits below `align` cleared.
pub open spec fn align_up_spec(addr: u64, align: u64) -> u64 {
    ((addr + align - 1) as u64) & !((align - 1) as u64)
}

/// For a power of two, clearing the low bits gives the nearest multiple
/// below: it takes away less than `align` and leaves no low bit.
pub proof fn lemma_align_down(addr: u64, align: u64)
    by (bit_vector)
    requires
        align != 0 && align & ((align - 1) as u64) == 0,
    ensures
        addr & !((align - 1) as u64) <= addr,
        addr - (addr & !((align - 1) as u64)) < align,
        (addr & !((align - 1) as u64)) & ((align - 1) as u64) == 0,
{
}

/// For the frame size, clearing the low bits is rounding down to a whole
/// number of frames.
pub proof fn lemma_align_down_page(addr: u64)
    by (bit_vector)
    ensures
        addr & !((4096u64 - 1) as u64) == (addr / 4096) * 4096,
{
}

/// Rounds `addr` down to a multiple of `align`, a power of two.
#[inline]
pub fn align_down(addr: u64, align: u64) -> (r: u64)
    requires
        align > 0,
    ensures
        r == align_down_spec(addr, align),
        is_power_of_two(align) ==> r <= addr && addr - r < align && r & ((align - 1) as u64) == 0,
        align == PAGE_SIZE ==> r == (addr / PAGE_SIZE) * PAGE_SIZE,
{
    proof {
        if is_power_of_two(align) {
            lemma_align_down(addr, align);
        }
        if align == PAGE_SIZE {
            lemma_align_down_page(addr);
        }
    }
    addr & !(align - 1)
}

/// Rounds `addr` up to a multiple of `align`, a power of two.
#[inline]
pub fn align_up(addr: u64, align: u64) -> (r: u64)
    requires
        align > 0,
        addr + align <= u64::MAX,
    ensures
        r == align_up_spec(addr, align),
        is_power_of_two(align) ==> addr <= r && r - addr < align && r & ((align - 1) as u64) == 0,
        align == PAGE_SIZE ==> r == ((addr + PAGE_SIZE - 1) / (PAGE_SIZE as int)) * PAGE_SIZE,
{
    proof {
        if is_power_of_two(align) {
            lemma_align_down((addr + align - 1) as u64, align);
        }
        if align == PAGE_SIZE {
            lemma_align_down_page((addr + align - 1) as u64);
        }
    }
    (addr + align - 1) & !(align - 1)
}

/// Sets up memory management, once, at boot: the direct map at `hhdm` over
/// `memory`, and the frame allocator over the boot loader's memory map, with
/// `storage` for its bitmap.
pub fn init<'a>(
    memmap: &mut [pmm::MemoryRegion],
    storage: &'a mut [u8],
    memory: &'a mut [u8],
    hhdm: u64,
) -> (r: Result<pmm::FrameAllocator<'a>, pmm::InitError>)
    ensures
        pmm::init_result(
            old(memmap)@,
            old(storage)@.len() as int,
            old(memory)@,
            hhdm,
            final(memmap)@,
            r,
        ),
{
    pmm::init(memmap, storage, memory, hhdm)
}

} // verus!
