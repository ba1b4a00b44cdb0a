use super::addr::{PhysAddr, VirtAddr};
use super::AllocError;
use crate::utils::Bitmap;
use vstd::prelude::*;

verus! {

/// The size of a frame, as an index type.
pub const FRAME_SIZE: usize = 4096;

/// A run of `pages` frames starting at frame `start`, all of them free
/// (their bits clear). A run is never empty.
pub open spec fn free_run(bits: Seq<bool>, start: int, pages: int) -> bool {
    &&& pages > 0
    &&& 0 <= start
    &&& start + pages <= bits.len()
    &&& forall|i: int| start <= i < start + pages ==> !#[trigger] bits[i]
}

/// `bits` with the `pages` bits from `start` on set to `used`.
pub open spec fn mark_run(bits: Seq<bool>, start: int, pages: int, used: bool) -> Seq<bool> {
    Seq::new(
        bits.len(),
        |i: int|
            if start <= i < start + pages {
                used
            } else {
                bits[i]
            },
    )
}

/// `s` is the lowest start, not below `from`, of a free run of `pages` frames.
pub open spec fn is_first_free_run(bits: Seq<bool>, from: int, pages: int, s: int) -> bool {
    &&& from <= s
    &&& free_run(bits, s, pages)
    &&& forall|t: int| from <= t < s ==> !#[trigger] free_run(bits, t, pages)
}

/// No free run of `pages` frames starts at or after `from`.
pub open spec fn no_free_run(bits: Seq<bool>, from: int, pages: int) -> bool {
    forall|t: int| from <= t ==> !#[trigger] free_run(bits, t, pages)
}

/// `mem` with the `len` bytes from `start` on set to `value`.
pub open spec fn fill_range(mem: Seq<u8>, start: int, len: int, value: u8) -> Seq<u8> {
    Seq::new(
        mem.len(),
        |i: int|
            if start <= i < start + len {
                value
            } else {
                mem[i]
            },
    )
}

/// `mem` with the `len` bytes from `dst` on replaced by those from `src` on.
pub open spec fn copy_range(mem: Seq<u8>, src: int, dst: int, len: int) -> Seq<u8> {
    Seq::new(
        mem.len(),
        |i: int|
            if dst <= i < dst + len {
                mem[i - dst + src]
            } else {
                mem[i]
            },
    )
}

/// The physical frame allocator: one bit per frame says whether the frame is
/// in use, a cursor remembers where the last search stopped, and the direct
/// map gives access to the frames themselves.
pub struct FrameAllocator<'a> {
    /// One bit per frame; a set bit is a frame in use.
    pub bitmap: Bitmap<'a>,
    /// Physical memory as the direct map shows it: byte `p` is physical
    /// address `p`.
    pub memory: &'a mut [u8],
    /// Where the next search starts. A hint only.
    pub cursor: usize,
    /// The virtual address at which the direct map shows physical address 0.
    pub hhdm: u64,
}

/// An offset at which a window of `window` bytes can be mapped: not null,
/// frame-aligned, and with the whole window below the top of the address
/// space.
pub open spec fn valid_offset(hhdm: u64, window: int) -> bool {
    &&& hhdm > 0
    &&& hhdm % 4096 == 0
    &&& hhdm + window <= u64::MAX
}

impl<'a> FrameAllocator<'a> {
    /// The bitmap: `true` is a frame in use.
    pub open spec fn bits(&self) -> Seq<bool> {
        self.bitmap@
    }

    /// The bytes of physical memory.
    pub open spec fn mem(&self) -> Seq<u8> {
        self.memory@
    }

    /// The number of frames that the allocator manages: those that the bitmap
    /// covers and memory backs.
    pub open spec fn frames(&self) -> int {
        if self.bits().len() <= self.mem().len() / 4096 {
            self.bits().len() as int
        } else {
            self.mem().len() as int / 4096
        }
    }

    /// Frames without memory behind them are marked used for good, and the
    /// direct map offset is valid.
    pub open spec fn wf(&self) -> bool {
        &&& valid_offset(self.hhdm, self.mem().len() as int)
        &&& forall|f: int| self.frames() <= f < self.bits().len() ==> #[trigger] self.bits()[f]
    }

    /// The `len` bytes at `addr` lie in the direct map window.
    pub open spec fn in_window(&self, addr: VirtAddr, len: int) -> bool {
        &&& self.hhdm <= addr.0
        &&& len >= 0
        &&& addr.0 - self.hhdm + len <= self.mem().len()
    }

    /// The index in memory of the byte at virtual address `addr`.
    pub open spec fn offset_of(&self, addr: VirtAddr) -> int {
        addr.0 - self.hhdm
    }

    /// A frame allocator over `bitmap` and the direct map window `memory`
    /// mapped at `hhdm`. Frames that the bitmap covers but memory does not
    /// back are marked used.
    pub fn new(bitmap: Bitmap<'a>, memory: &'a mut [u8], hhdm: u64) -> (r: Option<
        FrameAllocator<'a>,
    >)
        ensures
            r is Some <==> valid_offset(hhdm, old(memory)@.len() as int),
            r matches Some(a) ==> {
                &&& a.wf()
                &&& a.hhdm == hhdm
                &&& a.cursor == 0
                &&& a.mem() == old(memory)@
                &&& a.bits().len() == bitmap@.len()
                &&& forall|f: int|
                    0 <= f < bitmap@.len() ==> a.bits()[f] == (bitmap@[f] || f >= a.frames())
            },
    {
        if hhdm == 0 || hhdm % 4096 != 0 || memory.len() as u64 > u64::MAX - hhdm {
            return None;
        }
        let mut a = FrameAllocator { bitmap, memory, cursor: 0, hhdm };
        let n: usize = a.bitmap.len();
        let backed: usize = a.memory.len() / FRAME_SIZE;
        let mut f: usize = backed;
        while f < n
            invariant
                backed <= f,
                n == a.bits().len(),
                n == bitmap@.len(),
                backed == a.mem().len() / 4096,
                a.mem() == old(memory)@,
                a.hhdm == hhdm,
                a.cursor == 0,
                forall|g: int|
                    0 <= g < n ==> a.bits()[g] == (bitmap@[g] || (backed <= g < f)),
            decreases n - f,
        {
            a.bitmap.set(f);
            f += 1;
        }
        Some(a)
    }

    /// The byte at `addr`.
    pub fn read(&self, addr: VirtAddr) -> (r: u8)
        requires
            self.in_window(addr, 1),
        ensures
            r == self.mem()[self.offset_of(addr)],
    {
        let n: usize = self.memory.len();
        let i: usize = (addr.as_u64() - self.hhdm) as usize;
        self.memory[i]
    }

    /// Stores `value` at `addr`.
    pub fn write(&mut self, addr: VirtAddr, value: u8)
        requires
            old(self).in_window(addr, 1),
        ensures
            final(self).mem() == old(self).mem().update(old(self).offset_of(addr), value),
            final(self).bitmap == old(self).bitmap,
            final(self).cursor == old(self).cursor,
            final(self).hhdm == old(self).hhdm,
    {
        let n: usize = self.memory.len();
        let n: usize = self.memory.len();
        let i: usize = (addr.as_u64() - self.hhdm) as usize;
        self.memory[i] = value;
    }

    /// Sets the `len` bytes at `addr` to `value`.
    pub fn write_bytes(&mut self, addr: VirtAddr, value: u8, len: usize)
        requires
            old(self).in_window(addr, len as int),
        ensures
            final(self).mem() == fill_range(
                old(self).mem(),
                old(self).offset_of(addr),
                len as int,
                value,
            ),
            final(self).bitmap == old(self).bitmap,
            final(self).cursor == old(self).cursor,
            final(self).hhdm == old(self).hhdm,
    {
        let n: usize = self.memory.len();
        let start: usize = (addr.as_u64() - self.hhdm) as usize;
        let mut i: usize = 0;
        while i < len
            invariant
                i <= len,
                start + len <= self.mem().len(),
                self.mem().len() == n,
                self.mem().len() == old(self).mem().len(),
                self.bitmap == old(self).bitmap,
                self.cursor == old(self).cursor,
                self.hhdm == old(self).hhdm,
                self.mem() == fill_range(old(self).mem(), start as int, i as int, value),
            decreases len - i,
        {
            self.memory[start + i] = value;
            i += 1;
            assert(self.mem() =~= fill_range(old(self).mem(), start as int, i as int, value));
        }
        assert(self.mem() =~= fill_range(old(self).mem(), start as int, len as int, value));
    }

    /// Copies the `len` bytes at `src` to `dst`. The two ranges do not
    /// overlap.
    pub fn copy_nonoverlapping(&mut self, src: VirtAddr, dst: VirtAddr, len: usize)
        requires
            old(self).in_window(src, len as int),
            old(self).in_window(dst, len as int),
            src.0 + len <= dst.0 || dst.0 + len <= src.0,
        ensures
            final(self).mem() == copy_range(
                old(self).mem(),
                old(self).offset_of(src),
                old(self).offset_of(dst),
                len as int,
            ),
            final(self).bitmap == old(self).bitmap,
            final(self).cursor == old(self).cursor,
            final(self).hhdm == old(self).hhdm,
    {
        let n: usize = self.memory.len();
        let s: usize = (src.as_u64() - self.hhdm) as usize;
        let d: usize = (dst.as_u64() - self.hhdm) as usize;
        let mut i: usize = 0;
        while i < len
            invariant
                i <= len,
                s + len <= self.mem().len(),
                d + len <= self.mem().len(),
                self.mem().len() == n,
                s + len <= d || d + len <= s,
                self.mem().len() == old(self).mem().len(),
                self.bitmap == old(self).bitmap,
                self.cursor == old(self).cursor,
                self.hhdm == old(self).hhdm,
                self.mem() == copy_range(old(self).mem(), s as int, d as int, i as int),
            decreases len - i,
        {
            let b: u8 = self.memory[s + i];
            self.memory[d + i] = b;
            i += 1;
            assert(self.mem() =~= copy_range(old(self).mem(), s as int, d as int, i as int));
        }
        assert(self.mem() =~= copy_range(old(self).mem(), s as int, d as int, len as int));
    }
}

/// What a search for `pages` free frames from the cursor on does to the
/// allocator: it either claims the first free run it meets, or finds none at
/// or after the cursor and stops at the end of the bitmap.
pub open spec fn search_result(
    pre: &FrameAllocator,
    pages: int,
    post: &FrameAllocator,
    r: Option<PhysAddr>,
) -> bool {
    &&& post.hhdm == pre.hhdm
    &&& post.mem() == pre.mem()
    &&& match r {
        Some(p) => {
            let s = p.0 as int / 4096;
            &&& p.0 == s * 4096
            &&& is_first_free_run(pre.bits(), pre.cursor as int, pages, s)
            &&& post.bits() == mark_run(pre.bits(), s, pages, true)
            &&& post.cursor == s + pages
        },
        None => {
            &&& no_free_run(pre.bits(), pre.cursor as int, pages)
            &&& post.bits() == pre.bits()
            &&& post.cursor == if pre.cursor as int <= pre.bits().len() {
                pre.bits().len() as int
            } else {
                pre.cursor as int
            }
        },
    }
}

/// What an allocation of `pages` frames does to the bitmap and the cursor:
/// next fit with one wraparound. The run claimed is the first at or after the
/// cursor, or else the first of all; the request fails exactly when the bitmap
/// holds no free run of that length.
pub open spec fn claim_result(
    pre: &FrameAllocator,
    pages: int,
    post: &FrameAllocator,
    r: Result<PhysAddr, AllocError>,
) -> bool {
    &&& post.hhdm == pre.hhdm
    &&& match r {
        Ok(p) => {
            let s = p.0 as int / 4096;
            &&& p.0 == s * 4096
            &&& free_run(pre.bits(), s, pages)
            &&& s + pages <= pre.frames()
            &&& is_first_free_run(pre.bits(), pre.cursor as int, pages, s) || (no_free_run(
                pre.bits(),
                pre.cursor as int,
                pages,
            ) && is_first_free_run(pre.bits(), 0, pages, s))
            &&& post.bits() == mark_run(pre.bits(), s, pages, true)
            &&& post.cursor == s + pages
        },
        Err(e) => {
            &&& e == AllocError::OutOfMemory
            &&& no_free_run(pre.bits(), 0, pages)
            &&& post.bits() == pre.bits()
            &&& post.cursor == pre.bits().len()
        },
    }
}

/// A free run lies within the frames that the allocator manages.
pub proof fn lemma_free_run_managed(a: &FrameAllocator, s: int, pages: int)
    requires
        a.wf(),
        free_run(a.bits(), s, pages),
    ensures
        s + pages <= a.frames(),
        (s + pages) * 4096 <= a.mem().len(),
{
    let last = s + pages - 1;
    assert(!a.bits()[last]);
    assert(last < a.frames());
    assert((a.mem().len() as int / 4096) * 4096 <= a.mem().len());
    assert((s + pages) * 4096 <= (a.mem().len() as int / 4096) * 4096) by (nonlinear_arith)
        requires
            s + pages <= a.mem().len() as int / 4096,
    ;
}

/// Marking a run used keeps the allocator well formed.
pub proof fn lemma_mark_used_wf(pre: &FrameAllocator, post: &FrameAllocator, s: int, pages: int)
    requires
        pre.wf(),
        post.hhdm == pre.hhdm,
        post.mem().len() == pre.mem().len(),
        post.bits() == mark_run(pre.bits(), s, pages, true),
    ensures
        post.wf(),
{
    assert forall|f: int| post.frames() <= f < post.bits().len() implies #[trigger] post.bits()[f] by {
        assert(pre.bits()[f]);
    }
}

/// Scans from the cursor to the end of the bitmap for `pages` consecutive
/// free frames and claims the first such run.
pub fn alloc_inner(ctx: &mut FrameAllocator, pages: usize) -> (r: Option<PhysAddr>)
    requires
        old(ctx).wf(),
    ensures
        final(ctx).wf(),
        search_result(old(ctx), pages as int, final(ctx), r),
{
    let n: usize = ctx.bitmap.len();
    let m: usize = ctx.memory.len();
    let ghost bits = ctx.bits();
    let ghost from = ctx.cursor as int;
    let mut p: usize = 0;
    while ctx.cursor < n
        invariant
            ctx.bits() == bits,
            bits == old(ctx).bits(),
            n == bits.len(),
            from == old(ctx).cursor,
            m == old(ctx).mem().len(),
            ctx.mem() == old(ctx).mem(),
            ctx.hhdm == old(ctx).hhdm,
            ctx.wf(),
            from <= ctx.cursor - p,
            p <= ctx.cursor - from,
            from <= n ==> ctx.cursor <= n,
            from > n ==> ctx.cursor == from,
            pages > 0 ==> p < pages,
            forall|i: int| ctx.cursor - p <= i < ctx.cursor ==> !#[trigger] bits[i],
            ctx.cursor - p == from || bits[ctx.cursor - p - 1],
            forall|t: int| from <= t < ctx.cursor - p ==> !#[trigger] free_run(bits, t, pages as int),
        decreases n - ctx.cursor,
    {
        let idx: usize = ctx.cursor;
        ctx.cursor = idx + 1;
        if ctx.bitmap.test(idx) == false {
            p += 1;
            if p == pages {
                let page: usize = ctx.cursor - pages;
                proof {
                    assert(free_run(bits, page as int, pages as int));
                    lemma_free_run_managed(old(ctx), page as int, pages as int);
                }
                let mut i: usize = page;
                while i < ctx.cursor
                    invariant
                        page <= i <= ctx.cursor,
                        ctx.cursor == page + pages,
                        ctx.cursor <= n,
                        n == bits.len(),
                        ctx.bits().len() == n,
                        ctx.mem() == old(ctx).mem(),
                        ctx.hhdm == old(ctx).hhdm,
                        ctx.bits() == mark_run(bits, page as int, i - page, true),
                    decreases ctx.cursor - i,
                {
                    ctx.bitmap.set(i);
                    i += 1;
                    assert(ctx.bits() =~= mark_run(bits, page as int, i - page, true));
                }
                proof {
                    lemma_mark_used_wf(old(ctx), ctx, page as int, pages as int);
                }
                assert(page * 4096 <= usize::MAX) by (nonlinear_arith)
                    requires
                        (page + pages) * 4096 <= usize::MAX,
                        pages >= 0,
                ;
                return Some(PhysAddr::new((page * 0x1000) as u64));
            }
        } else {
            p = 0;
            proof {
                assert forall|t: int| from <= t < ctx.cursor implies !#[trigger] free_run(
                    bits,
                    t,
                    pages as int,
                ) by {
                    if free_run(bits, t, pages as int) && t + pages > idx {
                        assert(!bits[idx as int]);
                    }
                }
            }
        }
    }
    proof {
        assert forall|t: int| from <= t implies !#[trigger] free_run(bits, t, pages as int) by {
        }
    }
    None
}

/// Claims `pages` consecutive free frames without clearing them: searches
/// from the cursor on and, if that finds nothing, once more from the start of
/// the bitmap.
pub fn alloc_nozero(ctx: &mut FrameAllocator, pages: usize) -> (r: Result<PhysAddr, AllocError>)
    requires
        old(ctx).wf(),
    ensures
        final(ctx).wf(),
        final(ctx).mem() == old(ctx).mem(),
        claim_result(old(ctx), pages as int, final(ctx), r),
{
    match alloc_inner(ctx, pages) {
        Some(p) => {
            proof {
                lemma_free_run_managed(old(ctx), p.0 as int / 4096, pages as int);
            }
            Ok(p)
        },
        None => {
            ctx.cursor = 0;
            match alloc_inner(ctx, pages) {
                Some(p) => {
                    proof {
                        lemma_free_run_managed(old(ctx), p.0 as int / 4096, pages as int);
                    }
                    Ok(p)
                },
                None => Err(AllocError::OutOfMemory),
            }
        },
    }
}

/// Claims `pages` consecutive free frames and clears them through the direct
/// map.
pub fn alloc_zeroed(ctx: &mut FrameAllocator, pages: usize) -> (r: Result<PhysAddr, AllocError>)
    requires
        old(ctx).wf(),
    ensures
        final(ctx).wf(),
        claim_result(old(ctx), pages as int, final(ctx), r),
        match r {
            Ok(p) => final(ctx).mem() == fill_range(
                old(ctx).mem(),
                p.0 as int,
                pages * 4096,
                0,
            ),
            Err(_) => final(ctx).mem() == old(ctx).mem(),
        },
{
    let ret = alloc_nozero(ctx, pages)?;
    proof {
        lemma_free_run_managed(old(ctx), ret.0 as int / 4096, pages as int);
        assert(pages * 4096 <= (ret.0 as int / 4096 + pages) * 4096) by (nonlinear_arith)
            requires
                ret.0 as int / 4096 >= 0,
        ;
    }
    let m: usize = ctx.memory.len();
    ctx.write_bytes(ret.as_hhdm(ctx.hhdm), 0, pages * 0x1000);
    proof {
        lemma_mark_used_wf(old(ctx), ctx, ret.0 as int / 4096, pages as int);
    }
    Ok(ret)
}

/// Marks the `pages` frames from the one that holds `phys` on free again, and
/// points the cursor at the first of them.
pub fn free(ctx: &mut FrameAllocator, phys: PhysAddr, pages: usize)
    requires
        old(ctx).wf(),
        phys.0 / 4096 + pages <= old(ctx).frames(),
    ensures
        final(ctx).wf(),
        final(ctx).hhdm == old(ctx).hhdm,
        final(ctx).mem() == old(ctx).mem(),
        final(ctx).bits() == mark_run(old(ctx).bits(), phys.0 as int / 4096, pages as int, false),
        final(ctx).cursor == phys.0 / 4096,
{
    let n: usize = ctx.bitmap.len();
    let page: usize = (phys.as_u64() / 0x1000) as usize;
    ctx.cursor = page;
    let mut i: usize = page;
    while i < page + pages
        invariant
            page <= i <= page + pages,
            page + pages <= n,
            n == old(ctx).bits().len(),
            ctx.bits().len() == n,
            ctx.mem() == old(ctx).mem(),
            ctx.hhdm == old(ctx).hhdm,
            ctx.cursor == page,
            ctx.bits() == mark_run(old(ctx).bits(), page as int, i - page, false),
        decreases page + pages - i,
    {
        ctx.bitmap.unset(i);
        i += 1;
        assert(ctx.bits() =~= mark_run(old(ctx).bits(), page as int, i - page, false));
    }
    proof {
        assert forall|f: int| ctx.frames() <= f < ctx.bits().len() implies #[trigger] ctx.bits()[f] by {
            assert(old(ctx).bits()[f]);
        }
    }
}

/// What the boot loader says a region of physical memory holds.
#[derive(Debug, Clone, Copy, PartialEq, Eq, Structural)]
pub enum RegionKind {
    Usable,
    Reserved,
    AcpiReclaimable,
    AcpiNvs,
    BadMemory,
    BootloaderReclaimable,
    KernelAndModules,
    Framebuffer,
}

/// One entry of the boot loader's physical memory map.
#[derive(Debug, Clone, Copy, PartialEq, Eq, Structural)]
pub struct MemoryRegion {
    pub base: u64,
    pub len: u64,
    pub kind: RegionKind,
}

/// Why the frame allocator could not be set up.
#[derive(Debug, Clone, Copy, PartialEq, Eq, Structural)]
pub enum InitError {
    /// The direct map offset is null, not frame-aligned, or leaves no room
    /// for the window below the top of the address space.
    BadOffset,
    /// A usable region ends beyond the top of the physical address space.
    BadRegion,
    /// The bitmap's storage has not the size that the memory map asks for.
    BadStorage,
    /// The direct map window ends before the highest usable address.
    MemoryTooSmall,
    /// No usable region is large enough to hold the bitmap.
    NoBitmapRegion,
}

impl MemoryRegion {
    pub open spec fn usable(&self) -> bool {
        self.kind == RegionKind::Usable
    }

    /// The first address after the region.
    pub open spec fn end(&self) -> int {
        self.base + self.len
    }

    /// The frame that holds the region's first byte.
    pub open spec fn first_frame(&self) -> int {
        self.base as int / 4096
    }

    /// The number of frames that the region is walked in: one for each
    /// started 4096 bytes of its length.
    pub open spec fn frame_count(&self) -> int {
        (self.len + 4095) / 4096
    }

    /// Frame `f` is one of those that a usable region frees.
    pub open spec fn covers(&self, f: int) -> bool {
        self.usable() && self.first_frame() <= f < self.first_frame() + self.frame_count()
    }

    /// Large enough, and usable, to hold a bitmap of `size` bytes.
    pub open spec fn fits(&self, size: int) -> bool {
        self.usable() && self.len >= size
    }

    /// The region without its first `size` bytes.
    pub open spec fn carved(&self, size: int) -> MemoryRegion {
        MemoryRegion {
            base: (self.base + size) as u64,
            len: (self.len - size) as u64,
            kind: self.kind,
        }
    }
}

/// The highest address that ends a usable region, 0 where there is none.
pub open spec fn highest_usable(map: Seq<MemoryRegion>) -> int
    decreases map.len(),
{
    if map.len() == 0 {
        0
    } else {
        let rest = highest_usable(map.drop_last());
        let r = map.last();
        if r.usable() && r.end() > rest {
            r.end()
        } else {
            rest
        }
    }
}

/// Every usable region ends within the 64-bit physical address space.
pub open spec fn regions_in_range(map: Seq<MemoryRegion>) -> bool {
    forall|i: int| 0 <= i < map.len() && (#[trigger] map[i]).usable() ==> map[i].end() <= u64::MAX
}

/// The number of frames needed to cover the addresses below `addr`.
pub open spec fn frames_up_to(addr: int) -> int {
    (addr + 4095) / 4096
}

/// The size in bytes of a bitmap with one bit for every frame below
/// `highest`, rounded up to whole frames.
pub open spec fn bitmap_bytes(highest: int) -> int {
    (((frames_up_to(highest) + 7) / 8 + 4095) / 4096) * 4096
}

/// Some region of the first `upto` frees frame `f`.
pub open spec fn covered_upto(map: Seq<MemoryRegion>, upto: int, f: int) -> bool {
    exists|j: int| 0 <= j < upto && j < map.len() && (#[trigger] map[j]).covers(f)
}

/// Some usable region of the map frees frame `f`.
pub open spec fn covered(map: Seq<MemoryRegion>, f: int) -> bool {
    covered_upto(map, map.len() as int, f)
}

/// `i` is the first region of the map that can hold a bitmap of `size` bytes.
pub open spec fn is_first_fit(map: Seq<MemoryRegion>, size: int, i: int) -> bool {
    &&& 0 <= i < map.len()
    &&& map[i].fits(size)
    &&& forall|j: int| 0 <= j < i ==> !(#[trigger] map[j]).fits(size)
}

/// No region of the map can hold a bitmap of `size` bytes.
pub open spec fn no_fit(map: Seq<MemoryRegion>, size: int) -> bool {
    forall|j: int| 0 <= j < map.len() ==> !(#[trigger] map[j]).fits(size)
}

/// A usable region ends at or below the highest usable address.
pub proof fn lemma_highest_bounds(map: Seq<MemoryRegion>, i: int)
    requires
        0 <= i < map.len(),
        map[i].usable(),
    ensures
        map[i].end() <= highest_usable(map),
    decreases map.len(),
{
    if i < map.len() - 1 {
        lemma_highest_bounds(map.drop_last(), i);
    }
}

/// The highest address that ends a usable region of the map; `None` where a
/// usable region ends beyond the top of the address space.
pub fn highest_usable_addr(memmap: &[MemoryRegion]) -> (r: Option<u64>)
    ensures
        r is Some <==> regions_in_range(memmap@),
        r matches Some(h) ==> h == highest_usable(memmap@),
{
    let mut highest: u64 = 0;
    let mut i: usize = 0;
    while i < memmap.len()
        invariant
            i <= memmap@.len(),
            regions_in_range(memmap@.subrange(0, i as int)),
            highest == highest_usable(memmap@.subrange(0, i as int)),
        decreases memmap@.len() - i,
    {
        let entry = memmap[i];
        let ghost prefix = memmap@.subrange(0, i + 1);
        assert(prefix.drop_last() =~= memmap@.subrange(0, i as int));
        assert(prefix.last() == entry);
        if entry.kind == RegionKind::Usable {
            if entry.len > u64::MAX - entry.base {
                assert(!regions_in_range(memmap@)) by {
                    assert(memmap@[i as int].usable());
                }
                return None;
            }
            let end: u64 = entry.base + entry.len;
            if end > highest {
                highest = end;
            }
        }
        i += 1;
        assert(regions_in_range(prefix)) by {
            assert forall|j: int| 0 <= j < prefix.len() && (#[trigger] prefix[j]).usable() implies prefix[j].end()
                <= u64::MAX by {
                if j < i - 1 {
                    assert(prefix[j] == memmap@.subrange(0, i - 1)[j]);
                }
            }
        }
    }
    assert(memmap@.subrange(0, i as int) =~= memmap@);
    Some(highest)
}

/// The size in bytes of the bitmap that covers every frame below `highest`.
pub fn bitmap_size(highest: u64) -> (r: u64)
    ensures
        r == bitmap_bytes(highest as int),
        r * 8 >= frames_up_to(highest as int),
        r % 4096 == 0,
{
    let frames: u64 = highest / 4096 + if highest % 4096 != 0 {
        1u64
    } else {
        0u64
    };
    let bytes: u64 = frames / 8 + if frames % 8 != 0 {
        1u64
    } else {
        0u64
    };
    super::align_up(bytes, super::PAGE_SIZE)
}

/// The first usable region of the map that is at least `size` bytes long.
pub fn find_bitmap_region(memmap: &[MemoryRegion], size: u64) -> (r: Option<usize>)
    ensures
        match r {
            Some(i) => is_first_fit(memmap@, size as int, i as int),
            None => no_fit(memmap@, size as int),
        },
{
    let mut i: usize = 0;
    while i < memmap.len()
        invariant
            i <= memmap@.len(),
            forall|j: int| 0 <= j < i ==> !(#[trigger] memmap@[j]).fits(size as int),
        decreases memmap@.len() - i,
    {
        let entry = memmap[i];
        if entry.kind == RegionKind::Usable && entry.len >= size {
            return Some(i);
        }
        i += 1;
    }
    None
}

/// The frames that a usable region frees lie below the frame count of the
/// highest usable address.
pub proof fn lemma_region_frames(map: Seq<MemoryRegion>, i: int)
    requires
        0 <= i < map.len(),
        map[i].usable(),
    ensures
        map[i].first_frame() + map[i].frame_count() <= frames_up_to(highest_usable(map)),
{
    lemma_highest_bounds(map, i);
    let b = map[i].base as int;
    let l = map[i].len as int;
    let h = highest_usable(map);
    assert(b / 4096 + (l + 4095) / 4096 <= (h + 4095) / 4096) by (nonlinear_arith)
        requires
            0 <= b,
            0 <= l,
            b + l <= h,
    ;
}

/// What setting up does to the memory map: the first usable region that can
/// hold the bitmap loses that many bytes at its start.
pub open spec fn carved_map(pre: Seq<MemoryRegion>, post: Seq<MemoryRegion>, size: int) -> bool {
    &&& post.len() == pre.len()
    &&& exists|i: int|
        {
            &&& #[trigger] is_first_fit(pre, size, i)
            &&& post[i] == pre[i].carved(size)
            &&& forall|j: int| 0 <= j < pre.len() && j != i ==> post[j] == pre[j]
        }
}

/// Why, if at all, setting up fails on these inputs. The checks are made in
/// this order.
pub open spec fn init_error(
    map: Seq<MemoryRegion>,
    storage_len: int,
    window: int,
    hhdm: u64,
) -> Option<InitError> {
    let size = bitmap_bytes(highest_usable(map));
    if !valid_offset(hhdm, window) {
        Some(InitError::BadOffset)
    } else if !regions_in_range(map) {
        Some(InitError::BadRegion)
    } else if storage_len != size || storage_len * 8 > usize::MAX {
        Some(InitError::BadStorage)
    } else if frames_up_to(highest_usable(map)) > window / 4096 {
        Some(InitError::MemoryTooSmall)
    } else if no_fit(map, size) {
        Some(InitError::NoBitmapRegion)
    } else {
        None
    }
}

/// What setting up gives: a well-formed allocator over the bitmap and the
/// window, with the cursor at the start, in which exactly the frames of the
/// usable regions, as the carved map has them, are free.
pub open spec fn init_result(
    pre_map: Seq<MemoryRegion>,
    storage_len: int,
    memory: Seq<u8>,
    hhdm: u64,
    post_map: Seq<MemoryRegion>,
    r: Result<FrameAllocator, InitError>,
) -> bool {
    match r {
        Ok(a) => {
            &&& init_error(pre_map, storage_len, memory.len() as int, hhdm) is None
            &&& carved_map(pre_map, post_map, storage_len)
            &&& a.wf()
            &&& a.hhdm == hhdm
            &&& a.cursor == 0
            &&& a.mem() == memory
            &&& a.bits().len() == storage_len * 8
            &&& forall|f: int| 0 <= f < a.bits().len() ==> a.bits()[f] == !covered(post_map, f)
        },
        Err(e) => {
            &&& init_error(pre_map, storage_len, memory.len() as int, hhdm) == Some(e)
            &&& post_map == pre_map
        },
    }
}

/// Sets up the frame allocator from the boot loader's memory map. `storage`
/// becomes the bitmap and `memory` the direct map window at `hhdm`. The first
/// usable region large enough gives up the bitmap's size at its start; every
/// frame starts out used, and then exactly the frames of the usable regions
/// are freed.
pub fn init<'a>(
    memmap: &mut [MemoryRegion],
    storage: &'a mut [u8],
    memory: &'a mut [u8],
    hhdm: u64,
) -> (r: Result<FrameAllocator<'a>, InitError>)
    ensures
        init_result(
            old(memmap)@,
            old(storage)@.len() as int,
            old(memory)@,
            hhdm,
            final(memmap)@,
            r,
        ),
{
    let window: usize = memory.len();
    if hhdm == 0 || hhdm % 4096 != 0 || window as u64 > u64::MAX - hhdm {
        return Err(InitError::BadOffset);
    }
    let highest: u64 = match highest_usable_addr(memmap) {
        Some(h) => h,
        None => {
            return Err(InitError::BadRegion);
        },
    };
    let size: u64 = bitmap_size(highest);
    let storage_len: usize = storage.len();
    if storage_len as u64 != size || storage_len > usize::MAX / 8 {
        return Err(InitError::BadStorage);
    }
    let frames: u64 = highest / 4096 + if highest % 4096 != 0 {
        1u64
    } else {
        0u64
    };
    if frames > (window / FRAME_SIZE) as u64 {
        return Err(InitError::MemoryTooSmall);
    }
    let at: usize = match find_bitmap_region(memmap, size) {
        Some(i) => i,
        None => {
            return Err(InitError::NoBitmapRegion);
        },
    };
    let mut i: usize = 0;
    while i < storage_len
        invariant
            i <= storage_len,
            storage_len == storage@.len(),
            forall|j: int| 0 <= j < i ==> storage@[j] == 0xFF,
        decreases storage_len - i,
    {
        storage[i] = 0xFF;
        i += 1;
    }
    let mut bitmap = Bitmap::new(storage);
    let nbits: usize = bitmap.len();
    proof {
        bitmap.lemma_view();
        assert forall|f: int| 0 <= f < nbits implies #[trigger] bitmap@[f] by {
            crate::utils::bitmap::lemma_bit_of_full((f % 8) as u8);
        }
    }
    let entry = memmap[at];
    memmap[at] = MemoryRegion { base: entry.base + size, len: entry.len - size, kind: entry.kind };
    let ghost map = memmap@;
    proof {
        assert(is_first_fit(old(memmap)@, size as int, at as int));
        assert(map[at as int] == old(memmap)@[at as int].carved(size as int));
        assert forall|j: int| 0 <= j < map.len() && (#[trigger] map[j]).usable() implies map[j].first_frame()
            + map[j].frame_count() <= frames by {
            lemma_region_frames(old(memmap)@, j);
            if j == at {
                let b = entry.base as int;
                let l = entry.len as int;
                let h = highest as int;
                let z = size as int;
                lemma_highest_bounds(old(memmap)@, j);
                assert((b + z) / 4096 + (l - z + 4095) / 4096 <= (h + 4095) / 4096)
                    by (nonlinear_arith)
                    requires
                        0 <= b,
                        0 <= z <= l,
                        b + l <= h,
                ;
            }
        }
    }
    let mut i: usize = 0;
    let n: usize = memmap.len();
    while i < n
        invariant
            i <= n,
            n == map.len(),
            memmap@ == map,
            nbits == bitmap@.len(),
            frames <= nbits,
            forall|j: int|
                0 <= j < map.len() && (#[trigger] map[j]).usable() ==> map[j].first_frame()
                    + map[j].frame_count() <= frames,
            forall|f: int| 0 <= f < nbits ==> bitmap@[f] == !covered_upto(map, i as int, f),
        decreases n - i,
    {
        let entry = memmap[i];
        if entry.kind == RegionKind::Usable {
            let first: u64 = entry.base / 4096;
            let count: u64 = entry.len / 4096 + if entry.len % 4096 != 0 {
                1u64
            } else {
                0u64
            };
            assert(first == map[i as int].first_frame());
            assert(count == map[i as int].frame_count());
            let mut k: u64 = 0;
            while k < count
                invariant
                    k <= count,
                    i < n,
                    n == map.len(),
                    memmap@ == map,
                    nbits == bitmap@.len(),
                    first + count <= nbits,
                    first == map[i as int].first_frame(),
                    count == map[i as int].frame_count(),
                    map[i as int].usable(),
                    forall|f: int|
                        0 <= f < nbits ==> bitmap@[f] == !(covered_upto(map, i as int, f) || (first
                            <= f < first + k)),
                decreases count - k,
            {
                bitmap.unset((first + k) as usize);
                k += 1;
            }
            proof {
                assert forall|f: int| 0 <= f < nbits implies bitmap@[f] == !covered_upto(
                    map,
                    i + 1,
                    f,
                ) by {
                    if covered_upto(map, i + 1, f) {
                        let j = choose|j: int|
                            0 <= j < i + 1 && j < map.len() && (#[trigger] map[j]).covers(f);
                        if j < i {
                            assert(covered_upto(map, i as int, f));
                        }
                    }
                    if first <= f < first + count {
                        assert(map[i as int].covers(f));
                    }
                }
            }
        } else {
            proof {
                assert forall|f: int| 0 <= f < nbits implies bitmap@[f] == !covered_upto(
                    map,
                    i + 1,
                    f,
                ) by {
                    if covered_upto(map, i + 1, f) {
                        let j = choose|j: int|
                            0 <= j < i + 1 && j < map.len() && (#[trigger] map[j]).covers(f);
                        assert(j < i);
                        assert(covered_upto(map, i as int, f));
                    }
                }
            }
        }
        i += 1;
    }
    match FrameAllocator::new(bitmap, memory, hhdm) {
        Some(a) => {
            proof {
                assert forall|f: int| 0 <= f < a.bits().len() implies a.bits()[f] == !covered(
                    map,
                    f,
                ) by {
                    if f >= a.frames() && covered(map, f) {
                        let j = choose|j: int|
                            0 <= j < map.len() && j < map.len() && (#[trigger] map[j]).covers(f);
                        assert(f < frames);
                    }
                }
            }
            Ok(a)
        },
        None => Err(InitError::BadOffset),
    }
}

/// The frames that an allocation claims were free before it: none of them
/// belongs to anything that was in use.
pub proof fn lemma_claim_disjoint(
    pre: &FrameAllocator,
    pages: int,
    post: &FrameAllocator,
    p: PhysAddr,
    f: int,
)
    requires
        claim_result(pre, pages, post, Ok(p)),
        0 <= f < pre.bits().len(),
        pre.bits()[f],
    ensures
        !(p.0 / 4096 <= f < p.0 / 4096 + pages),
        post.bits()[f],
{
}

/// Freeing the frames that an allocation claimed gives back the bitmap as it
/// was before the allocation.
pub proof fn lemma_claim_free_round_trip(
    pre: &FrameAllocator,
    pages: int,
    mid: &FrameAllocator,
    p: PhysAddr,
    post: &FrameAllocator,
)
    requires
        claim_result(pre, pages, mid, Ok(p)),
        post.bits() == mark_run(mid.bits(), p.0 as int / 4096, pages, false),
    ensures
        post.bits() == pre.bits(),
{
    assert(post.bits() =~= pre.bits());
}

/// The cursor is a hint only: whether a request is served depends on the
/// bitmap alone. It is served exactly when the bitmap holds a free run of the
/// length asked for, wherever the cursor stands.
pub proof fn lemma_cursor_is_a_hint(
    a: &FrameAllocator,
    b: &FrameAllocator,
    pages: int,
    post_a: &FrameAllocator,
    post_b: &FrameAllocator,
    ra: Result<PhysAddr, AllocError>,
    rb: Result<PhysAddr, AllocError>,
)
    requires
        a.bits() == b.bits(),
        claim_result(a, pages, post_a, ra),
        claim_result(b, pages, post_b, rb),
    ensures
        ra is Ok <==> rb is Ok,
        ra is Ok <==> exists|s: int| 0 <= s && #[trigger] free_run(a.bits(), s, pages),
{
    if ra is Ok {
        let s = ra->Ok_0.0 as int / 4096;
        assert(free_run(a.bits(), s, pages));
    }
    if rb is Ok {
        let s = rb->Ok_0.0 as int / 4096;
        assert(free_run(b.bits(), s, pages));
    }
}

} // verus!
