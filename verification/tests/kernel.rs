use beryl::acpi::rsdp::Rsdp;
use beryl::acpi::sdt::{Fadt, SdtHeader, Xsdt};
use beryl::acpi::{get_table, same_signature};
use beryl::apic::{Access, Apic, ApicMode, Register};
use beryl::backtrace::{find_symbol, symbol_name, Symbol};
use beryl::cpu::{join, split};
use beryl::gdt::{table, SegmentSelector};
use beryl::hpet::{deadline, expired, registers_address};
use beryl::interrupts::{
    init, page_fault, register_handler, HandlerTable, IDTDescriptor, ISTType, PageFault, Tss,
};
use beryl::logging::{enabled, level_tag, on_screen, prefix_color, reset_color, Level};
use beryl::mm::addr::{PhysAddr, VirtAddr};
use beryl::utils::bytes::{read_u32, read_u64};

#[test]
fn msr_halves() {
    assert_eq!(split(0x1122_3344_5566_7788), (0x5566_7788, 0x1122_3344));
    assert_eq!(split(0), (0, 0));
    assert_eq!(split(u64::MAX), (u32::MAX, u32::MAX));
    assert_eq!(join(0x1122_3344, 0x5566_7788), 0x1122_3344_5566_7788);
    assert_eq!(join(0, 1), 1);
    assert_eq!(join(1, 0), 0x1_0000_0000);
    let (low, high) = split(0xdead_beef_0bad_f00d);
    assert_eq!(join(high, low), 0xdead_beef_0bad_f00d);
}

#[test]
fn segment_selectors() {
    assert_eq!(SegmentSelector::KernelCode.value(), 0x08);
    assert_eq!(SegmentSelector::KernelData.value(), 0x10);
    assert_eq!(SegmentSelector::UserNull.value(), 0x18);
    assert_eq!(SegmentSelector::UserData.value(), 0x20);
    assert_eq!(SegmentSelector::UserCode64.value(), 0x28);
    assert_eq!(SegmentSelector::Tss.value(), 0x30);
}

#[test]
fn descriptor_table() {
    let gdt = table(0xffff_8000_1234_5678);
    assert_eq!(gdt[0], 0);
    assert_eq!(gdt[1], 0x00209a0000000000);
    assert_eq!(gdt[2], 0x0000920000000000);
    assert_eq!(gdt[3], 0);
    assert_eq!(gdt[4], 0x0020fb0000000000);
    assert_eq!(gdt[5], 0x0000f30000000000);
    // Limit 103, base 0x345678 from bit 16, type 0x89, base 0x12 from bit 56.
    assert_eq!(gdt[6], 0x1200_8934_5678_0067);
    assert_eq!(gdt[7], 0xffff_8000);
    assert_eq!(table(0)[6], 0x0000_8900_0000_0067);
    assert_eq!(table(0)[7], 0);
}

#[test]
fn interrupt_gates() {
    let d = IDTDescriptor::new(3, ISTType::KernelModeIntGate, 0x08, 0xffff_ffff_8012_3456);
    assert_eq!(d.base_low, 0x3456);
    assert_eq!(d.base_mid, 0x8012);
    assert_eq!(d.base_high, 0xffff_ffff);
    assert_eq!(d.code_selector, 0x08);
    assert_eq!(d.ist, 3);
    assert_eq!(d.type_attributes, 0b1000_1110);
    assert_eq!(d.reserved, 0);
    assert_eq!(ISTType::NotPresent.bits(), 0b0000_1110);
    assert_eq!(ISTType::Ring1IntGate.bits(), 0b1010_1110);
    assert_eq!(ISTType::Ring2ModeIntGate.bits(), 0b1100_1110);
    assert_eq!(ISTType::UserModeIntGate.bits(), 0b1110_1110);
    let empty = IDTDescriptor::default();
    assert_eq!((empty.base_low, empty.base_mid, empty.base_high, empty.type_attributes), (0, 0, 0, 0));
}

#[test]
fn interrupt_table() {
    let handlers: Vec<u64> = (0..200u64).map(|i| 0xffff_8000_0000_0000 + i * 16).collect();
    let idt = init(&handlers);
    assert_eq!(idt.len(), 256);
    for (i, d) in idt.iter().enumerate() {
        if i < 200 {
            assert_eq!(*d, IDTDescriptor::new(0, ISTType::KernelModeIntGate, 0x08, handlers[i]));
            assert_eq!(d.base_low as u64, (i as u64) * 16);
        } else {
            assert_eq!(*d, IDTDescriptor::default());
        }
    }
    assert_eq!(init(&[]).len(), 256);
}

#[test]
fn task_state_segment() {
    let tss = Tss::new(0x1000, [1, 2, 3, 4, 5, 6, 7]);
    assert_eq!(tss.rsp, [0x1000; 3]);
    assert_eq!(tss.ist, [1, 2, 3, 4, 5, 6, 7]);
    assert_eq!(tss.iomap_base, 0);
    assert_eq!((tss.reserved, tss.reserved2, tss.reserved3, tss.reserved4), (0, 0, 0, 0));
}

#[test]
fn page_faults() {
    assert_eq!(page_fault(0xE, 0x2b), Some(PageFault::UserMode));
    assert_eq!(page_fault(0xE, 0x08), Some(PageFault::KernelMode));
    assert_eq!(page_fault(0xE, 0x0a), Some(PageFault::KernelMode));
    assert_eq!(page_fault(0xD, 0x2b), None);
    assert_eq!(page_fault(0, 3), None);
}

#[test]
fn handler_table() {
    let mut t: HandlerTable<u32> = HandlerTable::new();
    assert_eq!(t.handlers.len(), 256);
    assert_eq!(t.handler(0x20), None);
    register_handler(&mut t, 0x20, 7);
    register_handler(&mut t, 255, 9);
    assert_eq!(t.handler(0x20), Some(&7));
    assert_eq!(t.handler(255), Some(&9));
    assert_eq!(t.handler(0x21), None);
    register_handler(&mut t, 0x20, 8);
    assert_eq!(t.handler(0x20), Some(&8));
}

#[test]
fn apic_registers() {
    let offsets = [
        (Register::EndOfInterrupt, 0xb0usize),
        (Register::SpuriousInterruptVector, 0xf0),
        (Register::ICRHigh, 0x310),
        (Register::ICRLow, 0x300),
        (Register::LvtTimer, 0x320),
        (Register::InitialCount, 0x380),
        (Register::CurrentCount, 0x390),
        (Register::DivideConfiguration, 0x3e0),
    ];
    let x2 = Apic::new();
    assert_eq!(x2.mode, ApicMode::X2Apic);
    assert_eq!(x2.timer_freq, 0);
    let x = Apic { mode: ApicMode::XApic(VirtAddr::new(0xffff_8000_fee0_0000)), timer_freq: 0 };
    for (r, o) in offsets {
        assert_eq!(r.offset(), o);
        assert_eq!(x2.access(r), Access::Msr(0x800 + (o as u32 >> 4)));
        assert_eq!(x.access(r), Access::Memory(VirtAddr::new(0xffff_8000_fee0_0000 + o as u64)));
    }
    assert_eq!(x2.access(Register::LvtTimer), Access::Msr(0x832));
    assert_eq!(x2.access(Register::EndOfInterrupt), Access::Msr(0x80b));
}

#[test]
fn apic_values() {
    assert_eq!(Apic::enable_value(0xfee0_0100), 0xfee0_0d00);
    assert_eq!(Apic::enable_value(0xc00), 0xc00);
    assert_eq!(Apic::enable_value(0), 0xc00);
    let mut apic = Apic::new();
    assert_eq!(apic.ipi(3, 0x4500), 0x3_0000_4500);
    assert_eq!(Apic::elapsed(0xFFFF_FFFF), 0);
    assert_eq!(Apic::elapsed(0xFFFF_0000), 0xFFFF);
    apic.set_ticks(1600 + 15);
    assert_eq!(apic.timer_freq, 100);
    assert_eq!(apic.mode, ApicMode::X2Apic);
}

#[test]
fn timer_deadlines() {
    // A period of 10 ns, in femtoseconds.
    assert_eq!(deadline(1000, 50, 10_000_000), 1005);
    assert_eq!(deadline(0, 10_000_000, 69_841_279), 143_181);
    assert_eq!(deadline(7, 0, 1), 7);
    assert!(expired(10, 10));
    assert!(expired(11, 10));
    assert!(!expired(9, 10));
    let mut data = vec![0u8; 20];
    data[8..16].copy_from_slice(&0xfed0_0000u64.to_le_bytes());
    assert_eq!(registers_address(&data), Some(0xfed0_0000));
    assert_eq!(registers_address(&data[..16]), Some(0xfed0_0000));
    assert_eq!(registers_address(&data[..15]), None);
}

#[test]
fn little_endian_numbers() {
    let bytes = [0x78u8, 0x56, 0x34, 0x12, 0xf0, 0xde, 0xbc, 0x9a, 0xff];
    assert_eq!(read_u32(&bytes, 0), 0x1234_5678);
    assert_eq!(read_u32(&bytes, 4), 0x9abc_def0);
    assert_eq!(read_u32(&bytes, 5), 0xff9a_bcde);
    assert_eq!(read_u64(&bytes, 0), 0x9abc_def0_1234_5678);
    assert_eq!(read_u64(&bytes, 1), 0xff9a_bcde_f012_3456);
    assert_eq!(read_u32(&[0xff; 4], 0), u32::MAX);
    assert_eq!(read_u64(&[0xff; 8], 0), u64::MAX);
}

fn header(signature: &[u8; 4], length: u32) -> Vec<u8> {
    let mut h = Vec::new();
    h.extend_from_slice(signature);
    h.extend_from_slice(&length.to_le_bytes());
    h.extend_from_slice(&[2, 0x5a]);
    h.extend_from_slice(b"OEMID ");
    h.extend_from_slice(b"TABLE ID");
    h.extend_from_slice(&7u32.to_le_bytes());
    h.extend_from_slice(b"CRTR");
    h.extend_from_slice(&9u32.to_le_bytes());
    h
}

#[test]
fn root_pointer() {
    let mut bytes = Vec::new();
    bytes.extend_from_slice(b"RSD PTR ");
    bytes.push(0x11);
    bytes.extend_from_slice(b"BOCHS ");
    bytes.push(2);
    bytes.extend_from_slice(&0x7fe_0000u32.to_le_bytes());
    bytes.extend_from_slice(&36u32.to_le_bytes());
    bytes.extend_from_slice(&0x1_7fe_1000u64.to_le_bytes());
    bytes.extend_from_slice(&[0x22, 0, 0, 0]);
    assert_eq!(bytes.len(), 36);
    let rsdp = Rsdp::from_bytes(&bytes).unwrap();
    assert_eq!(&rsdp.signature, b"RSD PTR ");
    assert_eq!(rsdp.checksum, 0x11);
    assert_eq!(&rsdp.oemid, b"BOCHS ");
    assert_eq!(rsdp.revision(), 2);
    assert_eq!(rsdp.rsdt_address, 0x7fe_0000);
    assert_eq!(rsdp.lenght, 36);
    assert_eq!(rsdp.xsdt_address, 0x1_7fe_1000);
    assert_eq!(rsdp.ext_checksum, 0x22);
    assert_eq!(rsdp.get_xsdt(), PhysAddr::new(0x1_7fe_1000));
    assert!(Rsdp::from_bytes(&bytes[..35]).is_none());
}

#[test]
fn table_headers() {
    let bytes = header(b"HPET", 56);
    assert_eq!(bytes.len(), 36);
    let h = SdtHeader::from_bytes(&bytes).unwrap();
    assert_eq!(&h.signature(), b"HPET");
    assert_eq!(h.lenght, 56);
    assert_eq!(h.revision, 2);
    assert_eq!(h.checksum, 0x5a);
    assert_eq!(&h.oemid, b"OEMID ");
    assert_eq!(&h.oem_table_id, b"TABLE ID");
    assert_eq!(h.oem_revision, 7);
    assert_eq!(&h.creator_id, b"CRTR");
    assert_eq!(h.creator_revision, 9);
    assert_eq!(h.data_len(), 20);
    assert_eq!(h.data(), 36);
    assert!(SdtHeader::from_bytes(&bytes[..35]).is_none());
    assert_eq!(SdtHeader::from_bytes(&header(b"XSDT", 36)).unwrap().data_len(), 0);
}

#[test]
fn extended_table() {
    let mut bytes = header(b"XSDT", 36 + 3 * 8 + 5);
    for a in [0x1000u64, 0xffff_ffff_0000_2000, 0x3000] {
        bytes.extend_from_slice(&a.to_le_bytes());
    }
    // The five bytes that are left over hold no address.
    assert!(Xsdt::from_bytes(&bytes).is_some());
    bytes.extend_from_slice(&[0xee; 5]);
    let x = Xsdt::from_bytes(&bytes).unwrap();
    assert_eq!(x.len(), 3);
    assert_eq!(x.tables(), &[0x1000, 0xffff_ffff_0000_2000, 0x3000]);
    assert_eq!(&x.hdr.signature, b"XSDT");
    assert!(Xsdt::from_bytes(&bytes[..36 + 23]).is_none());
    assert!(Xsdt::from_bytes(&header(b"XSDT", 35)).is_none());
    assert!(Xsdt::from_bytes(&bytes[..20]).is_none());
    let empty = Xsdt::from_bytes(&header(b"XSDT", 36)).unwrap();
    assert_eq!(empty.len(), 0);
    assert!(empty.tables().is_empty());
}

#[test]
fn fixed_table() {
    let mut data = Vec::new();
    data.extend_from_slice(&0x1111_0000u32.to_le_bytes());
    data.extend_from_slice(&0x2222_0000u32.to_le_bytes());
    data.push(1);
    let f = Fadt::from_bytes(&data).unwrap();
    assert_eq!(f.firmware_ctrl, 0x1111_0000);
    assert_eq!(f.dsdt, 0x2222_0000);
    assert!(Fadt::from_bytes(&data[..7]).is_none());
}

#[test]
fn tables_by_signature() {
    let tables = [*b"FACP", *b"APIC", *b"SSDT", *b"HPET", *b"SSDT", *b"SSDT", *b"HPET"];
    assert!(same_signature(b"HPET", b"HPET"));
    assert!(!same_signature(b"HPET", b"HPEX"));
    assert!(!same_signature(b"XPET", b"HPET"));
    assert_eq!(get_table(&tables, b"FACP", 0), Some(0));
    assert_eq!(get_table(&tables, b"FACP", 1), None);
    assert_eq!(get_table(&tables, b"SSDT", 0), Some(2));
    assert_eq!(get_table(&tables, b"SSDT", 1), Some(4));
    assert_eq!(get_table(&tables, b"SSDT", 2), Some(5));
    assert_eq!(get_table(&tables, b"SSDT", 3), None);
    assert_eq!(get_table(&tables, b"DSDT", 0), None);
    assert_eq!(get_table(&[], b"FACP", 0), None);
    assert_eq!(get_table(&tables, b"HPET", 1), Some(6));
}

#[test]
fn symbols_by_address() {
    let symbols = [
        Symbol { value: 0x1000, size: 0x100 },
        Symbol { value: 0x2000, size: 0x10 },
        Symbol { value: 0x1080, size: 0x100 },
        Symbol { value: 0x3000, size: 0 },
        Symbol { value: u64::MAX - 1, size: 8 },
    ];
    assert_eq!(find_symbol(&symbols, 0x1000), Some(0));
    assert_eq!(find_symbol(&symbols, 0x107f), Some(0));
    // Two symbols hold the address: the later one wins.
    assert_eq!(find_symbol(&symbols, 0x1080), Some(2));
    assert_eq!(find_symbol(&symbols, 0x10ff), Some(2));
    assert_eq!(find_symbol(&symbols, 0x117f), Some(2));
    assert_eq!(find_symbol(&symbols, 0x1180), None);
    assert_eq!(find_symbol(&symbols, 0x200f), Some(1));
    assert_eq!(find_symbol(&symbols, 0x2010), None);
    assert_eq!(find_symbol(&symbols, 0x3000), None);
    assert_eq!(find_symbol(&symbols, 0xfff), None);
    assert_eq!(find_symbol(&symbols, u64::MAX), Some(4));
    assert_eq!(find_symbol(&[], 0), None);
}

#[test]
fn symbol_names_are_demangled() {
    let symbols = [Symbol { value: 0x1000, size: 0x100 }, Symbol { value: 0x2000, size: 0x10 }];
    let names = ["_ZN3foo3barE".to_string(), "plain".to_string()];
    assert_eq!(symbol_name(&symbols, &names, 0x1010), Some("foo::bar".to_string()));
    assert_eq!(symbol_name(&symbols, &names, 0x2000), Some("plain".to_string()));
    assert_eq!(symbol_name(&symbols, &names, 0x3000), None);
}

#[test]
fn log_levels() {
    for level in [Level::Error, Level::Warn, Level::Info, Level::Debug, Level::Trace] {
        assert!(enabled(level));
    }
    assert!(on_screen(Level::Error));
    assert!(on_screen(Level::Warn));
    assert!(on_screen(Level::Info));
    assert!(!on_screen(Level::Debug));
    assert!(!on_screen(Level::Trace));
    assert_eq!(level_tag(Level::Info), "\x1b[32;1minfo ");
    assert_eq!(level_tag(Level::Warn), "\x1b[33;1mwarn ");
    assert_eq!(level_tag(Level::Error), "\x1b[31;1merror ");
    assert_eq!(level_tag(Level::Debug), "\x1b[35;1mdebug ");
    assert_eq!(level_tag(Level::Trace), "\x1b[34;1mtrace ");
    assert_eq!(prefix_color(), "\x1b[37;1m");
    assert_eq!(reset_color(), "\x1b[0m");
}
