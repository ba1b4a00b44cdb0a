use vstd::prelude::*;

verus! {

/// The model-specific register that holds the base of the `gs` segment.
pub const IA32_GS_BASE: u32 = 0xc0000101;

/// The 64-bit value whose upper half is `high` and whose lower half is `low`.
pub open spec fn joined(high: u32, low: u32) -> u64 {
    (high as u64 * 0x1_0000_0000 + low as u64) as u64
}

proof fn lemma_halves(value: u64)
    by (bit_vector)
    ensures
        value & 0xffff_ffff == value % 0x1_0000_0000,
        value >> 32 == value / 0x1_0000_0000,
        value & 0xffff_ffff <= 0xffff_ffff,
        value >> 32 <= 0xffff_ffff,
{
}

proof fn lemma_joined(high: u64, low: u64)
    by (bit_vector)
    requires
        high <= 0xffff_ffff,
        low <= 0xffff_ffff,
    ensures
        (high << 32) | low == high * 0x1_0000_0000 + low,
{
}

/// The halves in which a 64-bit value is written to a model-specific
/// register: the lower for `eax`, then the upper for `edx`.
pub fn split(value: u64) -> (r: (u32, u32))
    ensures
        r.0 == value % 0x1_0000_0000,
        r.1 == value / 0x1_0000_0000,
        joined(r.1, r.0) == value,
{
    proof {
        lemma_halves(value);
    }
    let low: u32 = (value & 0xffff_ffff) as u32;
    let high: u32 = (value >> 32) as u32;
    (low, high)
}

/// The 64-bit value that a model-specific register or the time stamp
/// counter hands out in two halves, `edx` and `eax`.
pub fn join(high: u32, low: u32) -> (r: u64)
    ensures
        r == joined(high, low),
{
    proof {
        lemma_joined(high as u64, low as u64);
    }
    ((high as u64) << 32) | (low as u64)
}

/// Splitting what was joined gives the two halves again.
pub proof fn lemma_split_join(high: u32, low: u32)
    ensures
        joined(high, low) % 0x1_0000_0000 == low,
        joined(high, low) / 0x1_0000_0000 == high,
{
}

} // verus!
