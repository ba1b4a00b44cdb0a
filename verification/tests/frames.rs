use beryl::mm::addr::{PhysAddr, VirtAddr};
use beryl::mm::pmm::{self, FrameAllocator, InitError, MemoryRegion, RegionKind};
use beryl::mm::AllocError;
use beryl::utils::Bitmap;

const HHDM: u64 = 0xffff_8000_0000_0000;

fn used_frames(a: &FrameAllocator) -> Vec<usize> {
    (0..a.bitmap.len()).filter(|&i| a.bitmap.test(i)).collect()
}

#[test]
fn exhaustion_scenario() {
    // 16 frames, frames 0..=3 used.
    let mut storage = vec![0x0Fu8, 0x00u8];
    let mut memory = vec![0u8; 16 * 4096];
    let mut a = FrameAllocator::new(Bitmap::new(&mut storage), &mut memory, HHDM).unwrap();
    assert_eq!(pmm::alloc_zeroed(&mut a, 2), Ok(PhysAddr::new(4 * 4096)));
    assert_eq!(used_frames(&a), vec![0, 1, 2, 3, 4, 5]);
    pmm::free(&mut a, PhysAddr::new(4 * 4096), 2);
    assert_eq!(used_frames(&a), vec![0, 1, 2, 3]);
    assert_eq!(pmm::alloc_zeroed(&mut a, 16), Err(AllocError::OutOfMemory));
    assert_eq!(used_frames(&a), vec![0, 1, 2, 3]);
    // The twelve free frames can still be had.
    assert_eq!(pmm::alloc_zeroed(&mut a, 12), Ok(PhysAddr::new(4 * 4096)));
    assert_eq!(pmm::alloc_zeroed(&mut a, 1), Err(AllocError::OutOfMemory));
}

#[test]
fn search_is_next_fit() {
    let mut storage = vec![0u8; 2];
    let mut memory = vec![0u8; 16 * 4096];
    let mut a = FrameAllocator::new(Bitmap::new(&mut storage), &mut memory, HHDM).unwrap();
    assert_eq!(pmm::alloc_nozero(&mut a, 3), Ok(PhysAddr::new(0)));
    assert_eq!(a.cursor, 3);
    assert_eq!(pmm::alloc_nozero(&mut a, 2), Ok(PhysAddr::new(3 * 4096)));
    assert_eq!(a.cursor, 5);
    // Freeing points the cursor at the freed run, which is then used again.
    pmm::free(&mut a, PhysAddr::new(0), 3);
    assert_eq!(a.cursor, 0);
    assert_eq!(pmm::alloc_nozero(&mut a, 1), Ok(PhysAddr::new(0)));
    // The cursor does not go back by itself: frame 1 and 2 are free, the
    // search for four frames starts at 1 and finds 5..9.
    assert_eq!(pmm::alloc_nozero(&mut a, 4), Ok(PhysAddr::new(5 * 4096)));
    assert_eq!(a.cursor, 9);
}

#[test]
fn search_wraps_around_once() {
    let mut storage = vec![0u8; 1];
    let mut memory = vec![0u8; 8 * 4096];
    let mut a = FrameAllocator::new(Bitmap::new(&mut storage), &mut memory, HHDM).unwrap();
    assert_eq!(pmm::alloc_nozero(&mut a, 6), Ok(PhysAddr::new(0)));
    pmm::free(&mut a, PhysAddr::new(0), 4);
    a.cursor = 6;
    // From the cursor on only frames 6 and 7 are free: the first scan fails.
    assert_eq!(pmm::alloc_inner(&mut a, 3), None);
    assert_eq!(a.cursor, 8);
    a.cursor = 6;
    assert_eq!(pmm::alloc_nozero(&mut a, 3), Ok(PhysAddr::new(0)));
    assert_eq!(a.cursor, 3);
    assert_eq!(used_frames(&a), vec![0, 1, 2, 4, 5]);
}

#[test]
fn search_skips_runs_that_are_too_short() {
    // Frames 1, 4 and 5 used: free runs 0..1, 2..4, 6..8.
    let mut storage = vec![0b0011_0010u8];
    let mut memory = vec![0u8; 8 * 4096];
    let mut a = FrameAllocator::new(Bitmap::new(&mut storage), &mut memory, HHDM).unwrap();
    assert_eq!(pmm::alloc_inner(&mut a, 2), Some(PhysAddr::new(2 * 4096)));
    assert_eq!(a.cursor, 4);
    assert_eq!(pmm::alloc_inner(&mut a, 2), Some(PhysAddr::new(6 * 4096)));
    assert_eq!(pmm::alloc_inner(&mut a, 1), None);
    assert_eq!(pmm::alloc_nozero(&mut a, 1), Ok(PhysAddr::new(0)));
    assert_eq!(pmm::alloc_nozero(&mut a, 1), Err(AllocError::OutOfMemory));
}

#[test]
fn empty_request_is_never_served() {
    let mut storage = vec![0u8; 1];
    let mut memory = vec![0u8; 8 * 4096];
    let mut a = FrameAllocator::new(Bitmap::new(&mut storage), &mut memory, HHDM).unwrap();
    assert_eq!(pmm::alloc_nozero(&mut a, 0), Err(AllocError::OutOfMemory));
    assert_eq!(used_frames(&a), Vec::<usize>::new());
    assert_eq!(a.cursor, 8);
}

#[test]
fn alloc_clears_the_frames_and_nozero_does_not() {
    let mut storage = vec![0u8; 1];
    let mut memory = vec![0xAAu8; 8 * 4096];
    let mut a = FrameAllocator::new(Bitmap::new(&mut storage), &mut memory, HHDM).unwrap();
    let p = pmm::alloc_nozero(&mut a, 1).unwrap();
    assert_eq!(p, PhysAddr::new(0));
    assert_eq!(a.read(p.as_hhdm(HHDM)), 0xAA);
    let q = pmm::alloc_zeroed(&mut a, 2).unwrap();
    assert_eq!(q, PhysAddr::new(4096));
    for i in 0..(2 * 4096u64) {
        assert_eq!(a.read(VirtAddr::new(q.as_hhdm(HHDM).as_u64() + i)), 0);
    }
    // The bytes on both sides are untouched.
    assert_eq!(a.read(VirtAddr::new(HHDM + 4095)), 0xAA);
    assert_eq!(a.read(VirtAddr::new(HHDM + 3 * 4096)), 0xAA);
}

#[test]
fn free_then_alloc_restores_the_bitmap() {
    let mut storage = vec![0b0000_0101u8, 0u8];
    let mut memory = vec![0u8; 16 * 4096];
    let mut a = FrameAllocator::new(Bitmap::new(&mut storage), &mut memory, HHDM).unwrap();
    let before = used_frames(&a);
    let p = pmm::alloc_zeroed(&mut a, 5).unwrap();
    assert_eq!(p, PhysAddr::new(3 * 4096));
    assert_ne!(used_frames(&a), before);
    pmm::free(&mut a, p, 5);
    assert_eq!(used_frames(&a), before);
}

#[test]
fn frames_without_memory_are_used() {
    // The bitmap covers 16 frames, memory only 10.
    let mut storage = vec![0u8; 2];
    let mut memory = vec![0u8; 10 * 4096 + 100];
    let mut a = FrameAllocator::new(Bitmap::new(&mut storage), &mut memory, HHDM).unwrap();
    assert_eq!(used_frames(&a), vec![10, 11, 12, 13, 14, 15]);
    assert_eq!(pmm::alloc_zeroed(&mut a, 11), Err(AllocError::OutOfMemory));
    assert_eq!(pmm::alloc_zeroed(&mut a, 10), Ok(PhysAddr::new(0)));
}

#[test]
fn new_refuses_a_bad_offset() {
    let mut storage = vec![0u8; 2];
    let mut memory = vec![0u8; 4096];
    assert!(FrameAllocator::new(Bitmap::new(&mut storage), &mut memory, 0).is_none());
    let mut storage = vec![0u8; 2];
    let mut memory = vec![0u8; 4096];
    assert!(FrameAllocator::new(Bitmap::new(&mut storage), &mut memory, 0x1001).is_none());
    let mut storage = vec![0u8; 2];
    let mut memory = vec![0u8; 8192];
    assert!(FrameAllocator::new(Bitmap::new(&mut storage), &mut memory, u64::MAX - 4095).is_none());
    let mut storage = vec![0u8; 2];
    let mut memory = vec![0u8; 4095];
    assert!(FrameAllocator::new(Bitmap::new(&mut storage), &mut memory, u64::MAX - 4095).is_some());
}

#[test]
fn memory_access_through_the_direct_map() {
    let mut storage = vec![0u8; 1];
    let mut memory = vec![0u8; 8 * 4096];
    let mut a = FrameAllocator::new(Bitmap::new(&mut storage), &mut memory, HHDM).unwrap();
    a.write(VirtAddr::new(HHDM + 5), 7);
    assert_eq!(a.read(VirtAddr::new(HHDM + 5)), 7);
    a.write_bytes(VirtAddr::new(HHDM + 10), 0x5A, 4);
    a.copy_nonoverlapping(VirtAddr::new(HHDM + 9), VirtAddr::new(HHDM + 100), 6);
    let got: Vec<u8> = (99..107).map(|i| a.read(VirtAddr::new(HHDM + i))).collect();
    assert_eq!(got, vec![0, 0, 0x5A, 0x5A, 0x5A, 0x5A, 0, 0]);
    drop(a);
    assert_eq!(memory[5], 7);
    assert_eq!(&memory[10..14], &[0x5A; 4]);
}

fn region(base: u64, len: u64, kind: RegionKind) -> MemoryRegion {
    MemoryRegion { base, len, kind }
}

#[test]
fn bitmap_size_covers_every_frame() {
    assert_eq!(pmm::bitmap_size(0), 0);
    assert_eq!(pmm::bitmap_size(1), 4096);
    assert_eq!(pmm::bitmap_size(0x20_0000), 4096);
    // 32768 frames fill 4096 bytes exactly; one more needs another frame.
    assert_eq!(pmm::bitmap_size(32768 * 4096), 4096);
    assert_eq!(pmm::bitmap_size(32768 * 4096 + 1), 8192);
    assert_eq!(pmm::bitmap_size(u64::MAX), 0x2_0000_0000_0000);
}

#[test]
fn highest_usable_address() {
    let map = vec![
        region(0, 0x1000, RegionKind::Reserved),
        region(0x1000, 0x9000, RegionKind::Usable),
        region(0x10_0000, 0x4000, RegionKind::Usable),
        region(0x20_0000, 0x4000, RegionKind::Framebuffer),
    ];
    assert_eq!(pmm::highest_usable_addr(&map), Some(0x10_4000));
    assert_eq!(pmm::highest_usable_addr(&[]), Some(0));
    let bad = vec![region(u64::MAX, 1, RegionKind::Reserved), region(u64::MAX - 1, 2, RegionKind::Usable)];
    assert_eq!(pmm::highest_usable_addr(&bad), None);
    let edge = vec![region(u64::MAX - 1, 1, RegionKind::Usable)];
    assert_eq!(pmm::highest_usable_addr(&edge), Some(u64::MAX));
}

#[test]
fn bitmap_goes_to_the_first_region_that_fits() {
    let map = vec![
        region(0, 0x2000, RegionKind::Usable),
        region(0x10000, 0x1000, RegionKind::Reserved),
        region(0x20000, 0x1000, RegionKind::Usable),
        region(0x30000, 0x8000, RegionKind::Usable),
    ];
    assert_eq!(pmm::find_bitmap_region(&map, 0x1000), Some(0));
    assert_eq!(pmm::find_bitmap_region(&map, 0x2001), Some(3));
    assert_eq!(pmm::find_bitmap_region(&map, 0x8001), None);
    assert_eq!(pmm::find_bitmap_region(&map, 0), Some(0));
}

#[test]
fn init_frees_exactly_the_usable_regions() {
    let mut map = vec![
        region(0, 0x1000, RegionKind::Reserved),
        region(0x1000, 0x1000, RegionKind::Usable),
        region(0x4000, 0x4000, RegionKind::Usable),
        region(0x8000, 0x2000, RegionKind::KernelAndModules),
        region(0xA000, 0x3000, RegionKind::Usable),
    ];
    let mut storage = vec![0u8; 4096];
    let mut memory = vec![0u8; 16 * 4096];
    let a = beryl::mm::init(&mut map, &mut storage, &mut memory, HHDM).unwrap();
    assert_eq!(a.bitmap.len(), 32768);
    assert_eq!(a.cursor, 0);
    assert_eq!(a.hhdm, HHDM);
    let free: Vec<usize> = (0..a.bitmap.len()).filter(|&i| !a.bitmap.test(i)).collect();
    // The bitmap took the first frame of the first usable region of at least
    // 4096 bytes, which left that region empty.
    assert_eq!(free, vec![4, 5, 6, 7, 10, 11, 12]);
    drop(a);
    assert_eq!(map[1], region(0x2000, 0, RegionKind::Usable));
    assert_eq!(map[2], region(0x4000, 0x4000, RegionKind::Usable));
    assert_eq!(map[4], region(0xA000, 0x3000, RegionKind::Usable));
}

#[test]
fn init_walks_unaligned_regions_in_steps_of_a_frame() {
    let mut map = vec![
        region(0x10000, 0x1000, RegionKind::Usable),
        region(0x2800, 0x1001, RegionKind::Usable),
    ];
    let mut storage = vec![0u8; 4096];
    let mut memory = vec![0u8; 32 * 4096];
    let a = beryl::mm::init(&mut map, &mut storage, &mut memory, HHDM).unwrap();
    let free: Vec<usize> = (0..a.bitmap.len()).filter(|&i| !a.bitmap.test(i)).collect();
    // The second region starts in frame 2 and is walked at offsets 0 and
    // 4096: frames 2 and 3.
    assert_eq!(free, vec![2, 3]);
}

#[test]
fn init_errors() {
    let usable = vec![region(0x1000, 0x8000, RegionKind::Usable)];

    let mut map = usable.clone();
    let mut storage = vec![0u8; 4096];
    let mut memory = vec![0u8; 16 * 4096];
    assert_eq!(beryl::mm::init(&mut map, &mut storage, &mut memory, 0).err(), Some(InitError::BadOffset));
    assert_eq!(pmm::init(&mut map, &mut storage, &mut memory, HHDM + 8).err(), Some(InitError::BadOffset));
    assert_eq!(map, usable);

    let mut map = vec![region(u64::MAX, 2, RegionKind::Usable)];
    assert_eq!(beryl::mm::init(&mut map, &mut storage, &mut memory, HHDM).err(), Some(InitError::BadRegion));

    let mut map = usable.clone();
    let mut short = vec![0u8; 4095];
    assert_eq!(beryl::mm::init(&mut map, &mut short, &mut memory, HHDM).err(), Some(InitError::BadStorage));

    let mut small = vec![0u8; 8 * 4096];
    assert_eq!(
        beryl::mm::init(&mut map, &mut storage, &mut small, HHDM).err(),
        Some(InitError::MemoryTooSmall)
    );

    let mut map = vec![region(0x1000, 0x800, RegionKind::Usable), region(0x2000, 0x8000, RegionKind::Reserved)];
    assert_eq!(
        beryl::mm::init(&mut map, &mut storage, &mut memory, HHDM).err(),
        Some(InitError::NoBitmapRegion)
    );
    assert_eq!(map[0], region(0x1000, 0x800, RegionKind::Usable));

    let mut map: Vec<MemoryRegion> = Vec::new();
    let mut none: Vec<u8> = Vec::new();
    assert_eq!(
        beryl::mm::init(&mut map, &mut none, &mut memory, HHDM).err(),
        Some(InitError::NoBitmapRegion)
    );
}

#[test]
fn init_fills_the_storage_before_freeing() {
    let mut map = vec![region(0, 0x3000, RegionKind::Usable)];
    let mut storage = vec![0u8; 4096];
    let mut memory = vec![0u8; 4 * 4096];
    let a = beryl::mm::init(&mut map, &mut storage, &mut memory, HHDM).unwrap();
    drop(a);
    // Frame 0 went to the bitmap; frames 1 and 2 are free.
    assert_eq!(storage[0], 0b1111_1001);
    assert!(storage[1..].iter().all(|&b| b == 0xFF));
    assert_eq!(map[0], region(0x1000, 0x2000, RegionKind::Usable));
}

#[test]
fn the_cursor_is_only_a_hint() {
    // Frames 2 and 5 used: the longest free run is 2 frames long.
    for cursor in [0usize, 1, 3, 6, 7, 8, 9, 1000, usize::MAX] {
        for (pages, served) in [(1usize, true), (2, true), (3, false), (8, false)] {
            let mut storage = vec![0b0010_0100u8];
            let mut memory = vec![0u8; 8 * 4096];
            let mut a = FrameAllocator::new(Bitmap::new(&mut storage), &mut memory, HHDM).unwrap();
            a.cursor = cursor;
            let r = pmm::alloc_nozero(&mut a, pages);
            assert_eq!(r.is_ok(), served);
            if let Ok(p) = r {
                let first = (p.as_u64() / 4096) as usize;
                assert_eq!(a.cursor, first + pages);
                assert_eq!(used_frames(&a).len(), 2 + pages);
            } else {
                assert_eq!(r, Err(AllocError::OutOfMemory));
                assert_eq!(a.cursor, 8);
                assert_eq!(used_frames(&a), vec![2, 5]);
            }
        }
    }
}

#[test]
fn a_scan_past_the_end_leaves_the_cursor() {
    let mut storage = vec![0u8];
    let mut memory = vec![0u8; 8 * 4096];
    let mut a = FrameAllocator::new(Bitmap::new(&mut storage), &mut memory, HHDM).unwrap();
    a.cursor = 20;
    assert_eq!(pmm::alloc_inner(&mut a, 1), None);
    assert_eq!(a.cursor, 20);
    a.cursor = 8;
    assert_eq!(pmm::alloc_inner(&mut a, 1), None);
    assert_eq!(a.cursor, 8);
    a.cursor = 7;
    assert_eq!(pmm::alloc_inner(&mut a, 1), Some(PhysAddr::new(7 * 4096)));
    assert_eq!(a.cursor, 8);
}
