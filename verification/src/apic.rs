use crate::mm::addr::VirtAddr;
use vstd::prelude::*;

verus! {

/// The x2APIC enable bit of the `IA32_APIC_BASE` register.
pub const IA32_APIC_BASE_EXTD: u64 = 0x400;

/// The global enable bit of the `IA32_APIC_BASE` register.
pub const IA32_APIC_BASE_EN: u64 = 0x800;

/// The number of the `IA32_APIC_BASE` register.
pub const IA32_APIC_BASE: u32 = 0x1b;

/// The model-specific register through which inter-processor interrupts are
/// sent in x2APIC mode.
pub const X2APIC_ICR: u32 = 0x830;

/// The registers of the local APIC that the kernel uses.
#[derive(Clone, Copy, Debug, PartialEq, Eq, Structural)]
pub enum Register {
    EndOfInterrupt,
    SpuriousInterruptVector,
    ICRHigh,
    ICRLow,
    LvtTimer,
    InitialCount,
    CurrentCount,
    DivideConfiguration,
}

impl Register {
    /// The register's offset in the APIC's page.
    pub open spec fn spec_offset(self) -> usize {
        match self {
            Register::EndOfInterrupt => 0xb0,
            Register::SpuriousInterruptVector => 0xf0,
            Register::ICRHigh => 0x310,
            Register::ICRLow => 0x300,
            Register::LvtTimer => 0x320,
            Register::InitialCount => 0x380,
            Register::CurrentCount => 0x390,
            Register::DivideConfiguration => 0x3e0,
        }
    }

    /// The register's offset in the APIC's page.
    pub fn offset(self) -> (r: usize)
        ensures
            r == self.spec_offset(),
            r % 16 == 0,
            r < 0x400,
    {
        match self {
            Register::EndOfInterrupt => 0xb0,
            Register::SpuriousInterruptVector => 0xf0,
            Register::ICRHigh => 0x310,
            Register::ICRLow => 0x300,
            Register::LvtTimer => 0x320,
            Register::InitialCount => 0x380,
            Register::CurrentCount => 0x390,
            Register::DivideConfiguration => 0x3e0,
        }
    }
}

/// How the local APIC's registers are reached.
#[derive(Clone, Copy, Debug, PartialEq, Eq, Structural)]
pub enum ApicMode {
    /// Through memory, in the page at this address.
    XApic(VirtAddr),
    /// Through model-specific registers.
    X2Apic,
}

/// Where a register of the local APIC is read or written.
#[derive(Clone, Copy, Debug, PartialEq, Eq, Structural)]
pub enum Access {
    /// The 32-bit word at this address.
    Memory(VirtAddr),
    /// The model-specific register with this number.
    Msr(u32),
}

/// The local APIC of one core.
#[derive(Clone, Copy, Debug)]
pub struct Apic {
    pub mode: ApicMode,
    /// The timer's ticks in a millisecond; 0 until the timer is measured.
    pub timer_freq: usize,
}

proof fn lemma_shift_offset(offset: u32)
    by (bit_vector)
    requires
        offset < 0x400,
    ensures
        offset >> 4 == offset / 16,
        offset >> 4 < 0x40,
{
}

proof fn lemma_enable_bits(base: u64)
    by (bit_vector)
    ensures
        (base | 0x800 | 0x400) & 0x800 == 0x800,
        (base | 0x800 | 0x400) & 0x400 == 0x400,
        (base | 0x800 | 0x400) & !0xC00u64 == base & !0xC00u64,
{
}

impl Apic {
    /// The local APIC in x2APIC mode, its timer not yet measured.
    pub fn new() -> (r: Apic)
        ensures
            r.mode == ApicMode::X2Apic,
            r.timer_freq == 0,
    {
        Apic { mode: ApicMode::X2Apic, timer_freq: 0 }
    }

    /// The value to write to `IA32_APIC_BASE`, which now holds `base`, to
    /// switch the local APIC on in x2APIC mode: both enable bits set, every
    /// other bit as it was.
    pub fn enable_value(base: u64) -> (r: u64)
        ensures
            r == base | IA32_APIC_BASE_EN | IA32_APIC_BASE_EXTD,
            r & IA32_APIC_BASE_EN == IA32_APIC_BASE_EN,
            r & IA32_APIC_BASE_EXTD == IA32_APIC_BASE_EXTD,
            r & !0xC00u64 == base & !0xC00u64,
    {
        proof {
            lemma_enable_bits(base);
        }
        base | IA32_APIC_BASE_EN | IA32_APIC_BASE_EXTD
    }

    /// Where `register` is reached: in xAPIC mode at its offset in the
    /// APIC's page, in x2APIC mode in the model-specific register `0x800`
    /// plus a sixteenth of its offset.
    pub fn access(&self, register: Register) -> (r: Access)
        requires
            self.mode matches ApicMode::XApic(base) ==> base.0 + register.spec_offset()
                <= u64::MAX,
        ensures
            r == match self.mode {
                ApicMode::XApic(base) => Access::Memory(
                    VirtAddr((base.0 + register.spec_offset()) as u64),
                ),
                ApicMode::X2Apic => Access::Msr((0x800 + register.spec_offset() / 16) as u32),
            },
    {
        let offset: usize = register.offset();
        match self.mode {
            ApicMode::XApic(base) => Access::Memory(VirtAddr::new(base.as_u64() + offset as u64)),
            ApicMode::X2Apic => {
                proof {
                    lemma_shift_offset(offset as u32);
                }
                Access::Msr(0x800u32 + ((offset as u32) >> 4))
            },
        }
    }

    /// The value to write to the interrupt command register to send
    /// interrupt `ipi` to the core whose APIC has the id `dest_apic_id`: the
    /// destination in the upper half, the command in the lower.
    pub fn ipi(&self, dest_apic_id: u32, ipi: u32) -> (r: u64)
        requires
            self.mode == ApicMode::X2Apic,
        ensures
            r == crate::cpu::joined(dest_apic_id, ipi),
    {
        crate::cpu::join(dest_apic_id, ipi)
    }

    /// The ticks that the timer has counted down from its highest start
    /// value when its counter reads `current`.
    pub fn elapsed(current: u32) -> (r: u32)
        ensures
            r == 0xFFFF_FFFF - current,
    {
        0xFFFF_FFFF - current
    }

    /// Records the timer's frequency from the sum of the ticks counted in
    /// the sixteen measurements: their mean.
    pub fn set_ticks(&mut self, ticks: u32)
        ensures
            final(self).mode == old(self).mode,
            final(self).timer_freq == ticks / 16,
    {
        self.timer_freq = (ticks / 16) as usize;
    }
}

} // verus!
