use vstd::prelude::*;

verus! {

/// The selectors of the segments of the global descriptor table.
#[derive(Debug, Clone, Copy, PartialEq, Eq, Structural)]
pub enum SegmentSelector {
    KernelCode,
    KernelData,
    UserNull,
    UserData,
    UserCode64,
    Tss,
}

impl SegmentSelector {
    /// The selector's value: the byte offset of its descriptor in the table.
    pub open spec fn spec_value(self) -> u16 {
        match self {
            SegmentSelector::KernelCode => 0x08,
            SegmentSelector::KernelData => 0x10,
            SegmentSelector::UserNull => 0x18,
            SegmentSelector::UserData => 0x20,
            SegmentSelector::UserCode64 => 0x28,
            SegmentSelector::Tss => 0x30,
        }
    }

    /// The selector's value: the byte offset of its descriptor in the table.
    pub fn value(self) -> (r: u16)
        ensures
            r == self.spec_value(),
            r % 8 == 0,
            8 <= r < 64,
    {
        match self {
            SegmentSelector::KernelCode => 0x08,
            SegmentSelector::KernelData => 0x10,
            SegmentSelector::UserNull => 0x18,
            SegmentSelector::UserData => 0x20,
            SegmentSelector::UserCode64 => 0x28,
            SegmentSelector::Tss => 0x30,
        }
    }
}

/// The size of a task state segment in memory, in bytes.
pub const TSS_SIZE: u64 = 104;

/// The limit that the table's descriptor is loaded with: the size of the
/// eight entries, less one.
pub const GDT_LIMIT: u16 = 63;

/// The lower half of the descriptor of a task state segment at `base`: an
/// available 64-bit TSS, present, with the segment's limit in the low bits,
/// the low 24 bits of the base from bit 16 and bits 24 to 31 of the base from
/// bit 56.
pub open spec fn tss_low(base: u64) -> u64 {
    0x890000000000u64 | (((base >> 24) & 0xff) << 56) | ((base & 0xffffff) << 16) | 103u64
}

/// The upper half of the descriptor: the upper 32 bits of the base.
pub open spec fn tss_high(base: u64) -> u64 {
    base >> 32
}

/// The base address that a task state segment descriptor holds.
pub open spec fn descriptor_base(low: u64, high: u64) -> u64 {
    ((low >> 16) & 0xffffff) | (((low >> 56) & 0xff) << 24) | (high << 32)
}

/// The descriptor of a task state segment gives back the base that it was
/// made for, and its limit and type.
pub proof fn lemma_tss_descriptor(base: u64)
    by (bit_vector)
    ensures
        (((0x890000000000u64 | (((base >> 24) & 0xff) << 56) | ((base & 0xffffff) << 16) | 103u64)
            >> 16) & 0xffffff) | ((((0x890000000000u64 | (((base >> 24) & 0xff) << 56) | ((base
            & 0xffffff) << 16) | 103u64) >> 56) & 0xff) << 24) | ((base >> 32) << 32) == base,
        (0x890000000000u64 | (((base >> 24) & 0xff) << 56) | ((base & 0xffffff) << 16) | 103u64)
            & 0xffff == 103,
        ((0x890000000000u64 | (((base >> 24) & 0xff) << 56) | ((base & 0xffffff) << 16) | 103u64)
            >> 40) & 0xff == 0x89,
{
}

/// The eight entries of the global descriptor table for a task state segment
/// at `tss_base`: the null entry, kernel code and data, a second null entry,
/// the two user segments, and the two halves of the TSS descriptor.
pub fn table(tss_base: u64) -> (gdt: [u64; 8])
    ensures
        gdt[0] == 0,
        gdt[1] == 0x00209a0000000000,
        gdt[2] == 0x0000920000000000,
        gdt[3] == 0,
        gdt[4] == 0x0020fb0000000000,
        gdt[5] == 0x0000f30000000000,
        gdt[6] == tss_low(tss_base),
        gdt[7] == tss_high(tss_base),
        descriptor_base(gdt[6], gdt[7]) == tss_base,
{
    proof {
        lemma_tss_descriptor(tss_base);
    }
    let low: u64 = 0x890000000000 | (((tss_base >> 24) & 0xff) << 56) | ((tss_base & 0xffffff)
        << 16) | (TSS_SIZE - 1);
    let high: u64 = tss_base >> 32;
    [
        0,
        0x00209a0000000000,  // 0x08 kernel code
        0x0000920000000000,  // 0x10 kernel data
        0,
        0x0020fb0000000000,
        0x0000f30000000000,
        low,
        high,
    ]
}

} // verus!
