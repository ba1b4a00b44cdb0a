use vstd::prelude::*;

verus! {

/// The task state segment: the stack pointers that the processor loads on a
/// change of privilege level or for an interrupt with its own stack.
#[derive(Clone, Copy, Debug)]
pub struct Tss {
    pub reserved: u32,
    /// The stack pointers for privilege levels 0 to 2.
    pub rsp: [u64; 3],
    pub reserved2: u64,
    /// The pointers of the interrupt stack table.
    pub ist: [u64; 7],
    pub reserved3: u64,
    pub reserved4: u16,
    /// The offset of the I/O permission bit map from the segment's base.
    pub iomap_base: u16,
}

impl Tss {
    /// A task state segment whose three privilege stacks all end at `kstack`
    /// and whose interrupt stacks end at `ists`.
    pub fn new(kstack: u64, ists: [u64; 7]) -> (r: Tss)
        ensures
            r.rsp@ == seq![kstack, kstack, kstack],
            r.ist == ists,
            r.iomap_base == 0,
            r.reserved == 0 && r.reserved2 == 0 && r.reserved3 == 0 && r.reserved4 == 0,
    {
        let rsp: [u64; 3] = [kstack, kstack, kstack];
        assert(rsp@ =~= seq![kstack, kstack, kstack]);
        Tss {
            reserved: 0,
            rsp,
            reserved2: 0,
            ist: ists,
            reserved3: 0,
            reserved4: 0,
            iomap_base: 0,
        }
    }
}

/// The kind of an entry of the interrupt descriptor table, with the privilege
/// level that may call it.
#[derive(Clone, Copy, Debug, PartialEq, Eq, Structural)]
pub enum ISTType {
    NotPresent,
    KernelModeIntGate,
    Ring1IntGate,
    Ring2ModeIntGate,
    UserModeIntGate,
}

impl ISTType {
    /// The type and attribute byte of the entry: a 64-bit interrupt entry,
    /// present but for `NotPresent`, with the privilege level in bits 5 and 6.
    pub open spec fn spec_bits(self) -> u8 {
        match self {
            ISTType::NotPresent => 0b0000_1110,
            ISTType::KernelModeIntGate => 0b1000_1110,
            ISTType::Ring1IntGate => 0b1010_1110,
            ISTType::Ring2ModeIntGate => 0b1100_1110,
            ISTType::UserModeIntGate => 0b1110_1110,
        }
    }

    /// The type and attribute byte of the entry.
    pub fn bits(self) -> (r: u8)
        ensures
            r == self.spec_bits(),
    {
        match self {
            ISTType::NotPresent => 0b0000_1110,
            ISTType::KernelModeIntGate => 0b1000_1110,
            ISTType::Ring1IntGate => 0b1010_1110,
            ISTType::Ring2ModeIntGate => 0b1100_1110,
            ISTType::UserModeIntGate => 0b1110_1110,
        }
    }
}

/// One entry of the interrupt descriptor table.
#[derive(Clone, Copy, Debug, PartialEq, Eq, Structural)]
pub struct IDTDescriptor {
    pub base_low: u16,
    pub code_selector: u16,
    pub ist: u8,
    pub type_attributes: u8,
    pub base_mid: u16,
    pub base_high: u32,
    pub reserved: u32,
}

proof fn lemma_address_parts(a: u64)
    by (bit_vector)
    ensures
        a & 0xffff == a % 0x1_0000,
        (a >> 16) & 0xffff == (a / 0x1_0000) % 0x1_0000,
        a >> 32 == a / 0x1_0000_0000,
        a & 0xffff <= 0xffff,
        (a >> 16) & 0xffff <= 0xffff,
        a >> 32 <= 0xffff_ffff,
{
}

impl Default for IDTDescriptor {
    fn default() -> (r: IDTDescriptor)
        ensures
            r == IDTDescriptor::empty(),
    {
        IDTDescriptor {
            base_low: 0,
            code_selector: 0,
            ist: 0,
            type_attributes: 0,
            base_mid: 0,
            base_high: 0,
            reserved: 0,
        }
    }
}

impl IDTDescriptor {
    /// The entry that is not present: every field is 0.
    pub open spec fn empty() -> IDTDescriptor {
        IDTDescriptor {
            base_low: 0,
            code_selector: 0,
            ist: 0,
            type_attributes: 0,
            base_mid: 0,
            base_high: 0,
            reserved: 0,
        }
    }

    /// The address of the handler that the entry leads to.
    pub open spec fn handler(&self) -> int {
        self.base_low + self.base_mid * 0x1_0000 + self.base_high * 0x1_0000_0000
    }

    /// The entry for the handler at address `handler`, of type `typ`, that
    /// runs in the code segment `gdt_selector` on interrupt stack `ist`. The
    /// address is cut into its low 16 bits, the next 16 bits and the upper
    /// 32 bits.
    pub fn new(ist: u8, typ: ISTType, gdt_selector: u16, handler: u64) -> (r: Self)
        ensures
            r.code_selector == gdt_selector,
            r.ist == ist,
            r.type_attributes == typ.spec_bits(),
            r.reserved == 0,
            r.base_low == handler % 0x1_0000,
            r.base_mid == (handler / 0x1_0000) % 0x1_0000,
            r.base_high == handler / 0x1_0000_0000,
            r.handler() == handler,
    {
        proof {
            lemma_address_parts(handler);
        }
        Self {
            code_selector: gdt_selector,
            base_low: (handler & 0xffff) as u16,
            base_mid: ((handler >> 16) & 0xffff) as u16,
            base_high: (handler >> 32) as u32,
            ist,
            type_attributes: typ.bits(),
            reserved: 0,
        }
    }
}

/// The number of entries of the interrupt descriptor table.
pub const IDT_ENTRIES: usize = 256;

/// The size in bytes of the interrupt descriptor table, as its descriptor
/// holds it.
pub const IDT_SIZE: u16 = 4096;

/// The interrupt descriptor table for the handlers at the addresses
/// `handlers`, vector by vector: kernel-mode interrupt entries in the kernel's
/// code segment, without a stack of their own. Vectors without a handler get
/// an entry that is not present.
pub fn init(handlers: &[u64]) -> (idt: Vec<IDTDescriptor>)
    requires
        handlers@.len() <= IDT_ENTRIES,
    ensures
        idt@.len() == IDT_ENTRIES,
        forall|i: int|
            0 <= i < handlers@.len() ==> {
                &&& (#[trigger] idt@[i]).handler() == handlers@[i]
                &&& idt@[i].code_selector == 0x08
                &&& idt@[i].ist == 0
                &&& idt@[i].type_attributes == ISTType::KernelModeIntGate.spec_bits()
                &&& idt@[i].reserved == 0
            },
        forall|i: int| handlers@.len() <= i < IDT_ENTRIES ==> idt@[i] == IDTDescriptor::empty(),
{
    let mut idt: Vec<IDTDescriptor> = Vec::new();
    let mut i: usize = 0;
    while i < IDT_ENTRIES
        invariant
            i <= IDT_ENTRIES,
            handlers@.len() <= IDT_ENTRIES,
            idt@.len() == i,
            forall|j: int|
                0 <= j < handlers@.len() && j < i ==> {
                    &&& (#[trigger] idt@[j]).handler() == handlers@[j]
                    &&& idt@[j].code_selector == 0x08
                    &&& idt@[j].ist == 0
                    &&& idt@[j].type_attributes == ISTType::KernelModeIntGate.spec_bits()
                    &&& idt@[j].reserved == 0
                },
            forall|j: int| handlers@.len() <= j < i ==> idt@[j] == IDTDescriptor::empty(),
        decreases IDT_ENTRIES - i,
    {
        if i < handlers.len() {
            idt.push(IDTDescriptor::new(0, ISTType::KernelModeIntGate, 0x08, handlers[i]));
        } else {
            idt.push(IDTDescriptor::default());
        }
        i += 1;
    }
    idt
}

/// The registers that an interrupt's entry code saves on the stack, in the
/// order in which they lie there.
#[derive(Clone, Copy, Debug)]
pub struct InterruptStack {
    pub code: u64,
    pub r15: u64,
    pub r14: u64,
    pub r13: u64,
    pub r12: u64,
    pub rbp: u64,
    pub rbx: u64,
    pub r11: u64,
    pub r10: u64,
    pub r9: u64,
    pub r8: u64,
    pub rsi: u64,
    pub rdi: u64,
    pub rdx: u64,
    pub rcx: u64,
    pub rax: u64,
    pub rip: u64,
    pub cs: u64,
    pub rflags: u64,
    pub rsp: u64,
    pub ss: u64,
}

/// Where a page fault came from.
#[derive(Clone, Copy, Debug, PartialEq, Eq, Structural)]
pub enum PageFault {
    /// The faulting code ran at privilege level 3.
    UserMode,
    /// The faulting code ran in the kernel.
    KernelMode,
}

/// The vector of the page fault exception.
pub const PAGE_FAULT: usize = 0xE;

proof fn lemma_privilege(cs: u64)
    by (bit_vector)
    ensures
        (cs & 3 == 3) == (cs % 4 == 3),
{
}

/// Whether interrupt `ist`, taken with code segment `cs`, is a page fault,
/// and from which mode: the low two bits of `cs` are the privilege level.
pub fn page_fault(ist: usize, cs: u64) -> (r: Option<PageFault>)
    ensures
        r == if ist != PAGE_FAULT {
            None
        } else if cs % 4 == 3 {
            Some(PageFault::UserMode)
        } else {
            Some(PageFault::KernelMode)
        },
{
    proof {
        lemma_privilege(cs);
    }
    if ist == 0xE && cs & 3 == 3 {
        Some(PageFault::UserMode)
    } else if ist == 0xE {
        Some(PageFault::KernelMode)
    } else {
        None
    }
}

/// The handlers that the kernel's parts have registered, one slot for each
/// vector.
pub struct HandlerTable<H> {
    pub handlers: Vec<Option<H>>,
}

impl<H> HandlerTable<H> {
    /// The slots, vector by vector.
    pub open spec fn view(&self) -> Seq<Option<H>> {
        self.handlers@
    }

    /// The table has a slot for each of the 256 vectors.
    pub open spec fn wf(&self) -> bool {
        self@.len() == IDT_ENTRIES
    }

    /// A table in which no vector has a handler.
    pub fn new() -> (r: Self)
        ensures
            r.wf(),
            forall|i: int| 0 <= i < IDT_ENTRIES ==> r@[i] is None,
    {
        let mut handlers: Vec<Option<H>> = Vec::new();
        let mut i: usize = 0;
        while i < IDT_ENTRIES
            invariant
                i <= IDT_ENTRIES,
                handlers@.len() == i,
                forall|j: int| 0 <= j < i ==> handlers@[j] is None,
            decreases IDT_ENTRIES - i,
        {
            handlers.push(None);
            i += 1;
        }
        HandlerTable { handlers }
    }

    /// The handler registered for vector `ist`, if there is one.
    pub fn handler(&self, ist: usize) -> (r: Option<&H>)
        requires
            self.wf(),
            ist < IDT_ENTRIES,
        ensures
            match r {
                Some(h) => self@[ist as int] == Some(*h),
                None => self@[ist as int] is None,
            },
    {
        self.handlers[ist].as_ref()
    }
}

/// Registers `handler` for vector `ist`, in place of any earlier one.
pub fn register_handler<H>(table: &mut HandlerTable<H>, ist: usize, handler: H)
    requires
        old(table).wf(),
        ist < IDT_ENTRIES,
    ensures
        final(table).wf(),
        final(table)@ == old(table)@.update(ist as int, Some(handler)),
{
    table.handlers[ist] = Some(handler);
}

} // verus!
