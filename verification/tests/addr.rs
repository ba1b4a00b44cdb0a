use beryl::mm::addr::{PhysAddr, VirtAddr};
use beryl::mm::{align_down, align_up};

#[test]
fn align_down_to_powers_of_two() {
    assert_eq!(align_down(0x1234, 0x1000), 0x1000);
    assert_eq!(align_down(0x1000, 0x1000), 0x1000);
    assert_eq!(align_down(0xFFF, 0x1000), 0);
    assert_eq!(align_down(17, 8), 16);
    assert_eq!(align_down(u64::MAX, 4096), u64::MAX - 4095);
    assert_eq!(align_down(77, 1), 77);
}

#[test]
fn align_up_to_powers_of_two() {
    assert_eq!(align_up(0x1234, 0x1000), 0x2000);
    assert_eq!(align_up(0x1000, 0x1000), 0x1000);
    assert_eq!(align_up(1, 0x1000), 0x1000);
    assert_eq!(align_up(0, 0x1000), 0);
    assert_eq!(align_up(17, 8), 24);
    assert_eq!(align_up(8, 16), 16);
}

#[test]
fn align_up_masks_whatever_the_alignment() {
    // Not powers of two: the mask leaves the largest power of two that
    // divides the alignment.
    assert_eq!(align_up(8, 24), 8);
    assert_eq!(align_up(8, 48), 16);
}

#[test]
fn addresses_round_trip_through_the_direct_map() {
    let hhdm = 0xffff_8000_0000_0000u64;
    let p = PhysAddr::new(0x1234_5000);
    let v = p.as_hhdm(hhdm);
    assert_eq!(v.as_u64(), 0xffff_8000_1234_5000);
    assert_eq!(v.as_phys_hhdm(hhdm), p);
    assert_eq!(v.as_phys_hhdm(hhdm).as_u64(), 0x1234_5000);
}

#[test]
fn address_accessors() {
    let v = VirtAddr::new(0xdead_b000);
    assert_eq!(v.as_u64(), 0xdead_b000);
    assert_eq!(v.as_ptr(), 0xdead_b000usize);
    assert_eq!(v.as_mut_ptr(), 0xdead_b000usize);
    assert_eq!(VirtAddr::default().as_u64(), 0);
    assert_eq!(PhysAddr::default().as_u64(), 0);
    assert!(VirtAddr::new(1) < VirtAddr::new(2));
    assert_eq!(PhysAddr::new(5), PhysAddr::new(5));
}
