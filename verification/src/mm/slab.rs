use super::addr::{PhysAddr, VirtAddr};
use super::pmm::{claim_result, fill_range, FrameAllocator};
use super::{align_up, align_up_spec, pmm, AllocError};
use vstd::prelude::*;

verus! {

/// The block sizes that the heap keeps a slab for.
pub open spec fn is_class_size(size: int) -> bool {
    size == 8 || size == 16 || size == 24 || size == 32 || size == 48 || size == 64 || size == 128
        || size == 256 || size == 512 || size == 1024
}

/// The offset within its page of the first block of a slab: the page's first
/// bytes are left to the slab's header, up to the class's natural alignment.
pub open spec fn first_block(size: int) -> int {
    align_up_spec(8, size as u64) as int
}

/// The number of blocks that one page of a slab holds.
pub open spec fn blocks_per_page(size: int) -> int {
    (4096 - first_block(size)) / size
}

/// The frame that holds virtual address `addr` under the direct map at `hhdm`.
pub open spec fn page_of(hhdm: u64, addr: u64) -> int {
    (addr - hhdm) / 4096
}

/// `addr` is where a block of a slab of `size`-byte blocks starts: past the
/// header, a whole number of blocks into its page, and with the block's end
/// still inside the page.
pub open spec fn is_block(hhdm: u64, addr: u64, size: int) -> bool {
    let off = (addr - hhdm) % 4096;
    &&& addr >= hhdm
    &&& off >= first_block(size)
    &&& (off - first_block(size)) % size == 0
    &&& off + size <= 4096
}

/// The blocks of the slab page at virtual address `base`, the highest first:
/// pushed in this order, the lowest block ends up at the head of the list.
pub open spec fn page_blocks(base: int, size: int) -> Seq<u64> {
    Seq::new(
        blocks_per_page(size) as nat,
        |j: int| (base + first_block(size) + (blocks_per_page(size) - 1 - j) * size) as u64,
    )
}

proof fn lemma_first_block_values()
    by (bit_vector)
    ensures
        ((8u64 + 8u64 - 1) as u64) & !((8u64 - 1) as u64) == 8,
        ((8u64 + 16u64 - 1) as u64) & !((16u64 - 1) as u64) == 16,
        ((8u64 + 24u64 - 1) as u64) & !((24u64 - 1) as u64) == 8,
        ((8u64 + 32u64 - 1) as u64) & !((32u64 - 1) as u64) == 32,
        ((8u64 + 48u64 - 1) as u64) & !((48u64 - 1) as u64) == 16,
        ((8u64 + 64u64 - 1) as u64) & !((64u64 - 1) as u64) == 64,
        ((8u64 + 128u64 - 1) as u64) & !((128u64 - 1) as u64) == 128,
        ((8u64 + 256u64 - 1) as u64) & !((256u64 - 1) as u64) == 256,
        ((8u64 + 512u64 - 1) as u64) & !((512u64 - 1) as u64) == 512,
        ((8u64 + 1024u64 - 1) as u64) & !((1024u64 - 1) as u64) == 1024,
{
}

/// Where the first block of each class starts and how many blocks a page
/// holds: the header takes 8 bytes, or more where the class's alignment asks
/// for it, and the first block's offset divides both the block size and the
/// page size.
pub proof fn lemma_class_layout(size: int)
    requires
        is_class_size(size),
    ensures
        first_block(size) == if size == 24 {
            8int
        } else if size == 48 {
            16int
        } else {
            size
        },
        8 <= first_block(size) <= size,
        size % first_block(size) == 0,
        4096int % first_block(size) == 0,
        blocks_per_page(size) >= 1,
        first_block(size) + blocks_per_page(size) * size <= 4096,
{
    lemma_first_block_values();
    if size == 8 {
        assert(first_block(size) == 8);
        assert(8int % 8 == 0 && 4096int % 8 == 0);
        assert((4096int - 8) / 8 == 511);
    } else if size == 16 {
        assert(first_block(size) == 16);
        assert(16int % 16 == 0 && 4096int % 16 == 0);
        assert((4096int - 16) / 16 == 255);
    } else if size == 24 {
        assert(first_block(size) == 8);
        assert(24int % 8 == 0 && 4096int % 8 == 0);
        assert((4096int - 8) / 24 == 170);
    } else if size == 32 {
        assert(first_block(size) == 32);
        assert(32int % 32 == 0 && 4096int % 32 == 0);
        assert((4096int - 32) / 32 == 127);
    } else if size == 48 {
        assert(first_block(size) == 16);
        assert(48int % 16 == 0 && 4096int % 16 == 0);
        assert((4096int - 16) / 48 == 85);
    } else if size == 64 {
        assert(first_block(size) == 64);
        assert(64int % 64 == 0 && 4096int % 64 == 0);
        assert((4096int - 64) / 64 == 63);
    } else if size == 128 {
        assert(first_block(size) == 128);
        assert(128int % 128 == 0 && 4096int % 128 == 0);
        assert((4096int - 128) / 128 == 31);
    } else if size == 256 {
        assert(first_block(size) == 256);
        assert(256int % 256 == 0 && 4096int % 256 == 0);
        assert((4096int - 256) / 256 == 15);
    } else if size == 512 {
        assert(first_block(size) == 512);
        assert(512int % 512 == 0 && 4096int % 512 == 0);
        assert((4096int - 512) / 512 == 7);
    } else {
        assert(first_block(size) == 1024);
        assert(1024int % 1024 == 0 && 4096int % 1024 == 0);
        assert((4096int - 1024) / 1024 == 3);
    }
}

/// An address that is a whole number of blocks past the first block of a
/// frame-aligned page is aligned as the class is.
proof fn lemma_block_aligned(base: int, size: int, k: int)
    requires
        is_class_size(size),
        base % 4096 == 0,
        base >= 0,
        k >= 0,
    ensures
        (base + first_block(size) + k * size) % first_block(size) == 0,
{
    lemma_class_layout(size);
    let f = first_block(size);
    let q = base / 4096;
    assert(base == q * 4096);
    if size == 8 {
        assert(f == 8);
        assert(k * size == k * 8);
        assert((q * 4096 + 8 + k * 8) % 8 == 0);
    } else if size == 16 {
        assert(f == 16);
        assert(k * size == k * 16);
        assert((q * 4096 + 16 + k * 16) % 16 == 0);
    } else if size == 24 {
        assert(f == 8);
        assert(k * size == k * 24);
        assert((q * 4096 + 8 + k * 24) % 8 == 0);
    } else if size == 32 {
        assert(f == 32);
        assert(k * size == k * 32);
        assert((q * 4096 + 32 + k * 32) % 32 == 0);
    } else if size == 48 {
        assert(f == 16);
        assert(k * size == k * 48);
        assert((q * 4096 + 16 + k * 48) % 16 == 0);
    } else if size == 64 {
        assert(f == 64);
        assert(k * size == k * 64);
        assert((q * 4096 + 64 + k * 64) % 64 == 0);
    } else if size == 128 {
        assert(f == 128);
        assert(k * size == k * 128);
        assert((q * 4096 + 128 + k * 128) % 128 == 0);
    } else if size == 256 {
        assert(f == 256);
        assert(k * size == k * 256);
        assert((q * 4096 + 256 + k * 256) % 256 == 0);
    } else if size == 512 {
        assert(f == 512);
        assert(k * size == k * 512);
        assert((q * 4096 + 512 + k * 512) % 512 == 0);
    } else {
        assert(f == 1024);
        assert(k * size == k * 1024);
        assert((q * 4096 + 1024 + k * 1024) % 1024 == 0);
    }
}

/// The block with index `k` of a page is a block, lies in that page, and is
/// aligned as its class is.
pub proof fn lemma_block_at(hhdm: u64, base: int, size: int, k: int)
    requires
        is_class_size(size),
        hhdm % 4096 == 0,
        base % 4096 == 0,
        hhdm <= base,
        base + 4096 <= u64::MAX,
        0 <= k < blocks_per_page(size),
    ensures
        ({
            let b = base + first_block(size) + k * size;
            &&& base + 8 <= b
            &&& b + size <= base + 4096
            &&& is_block(hhdm, b as u64, size)
            &&& page_of(hhdm, b as u64) == (base - hhdm) / 4096
            &&& (b - hhdm) % 4096 == first_block(size) + k * size
            &&& b % first_block(size) == 0
        }),
{
    lemma_class_layout(size);
    let f = first_block(size);
    let n = blocks_per_page(size);
    let o = f + k * size;
    assert(0 <= k * size && k * size + size <= n * size) by (nonlinear_arith)
        requires
            0 <= k < n,
            size > 0,
    ;
    assert((o - f) % size == 0) by (nonlinear_arith)
        requires
            o - f == k * size,
            size > 0,
    ;
    let d = base - hhdm;
    assert(d % 4096 == 0);
    assert((d + o) % 4096 == o && (d + o) / 4096 == d / 4096) by (nonlinear_arith)
        requires
            d % 4096 == 0,
            0 <= o < 4096,
            d >= 0,
    ;
    lemma_block_aligned(base, size, k);
}

/// A block is aligned as its class is, and never starts at a frame boundary.
pub proof fn lemma_block_alignment(hhdm: u64, b: u64, size: int)
    requires
        is_class_size(size),
        hhdm % 4096 == 0,
        is_block(hhdm, b, size),
    ensures
        b % (first_block(size) as u64) == 0,
        b % 4096 != 0,
{
    lemma_class_layout(size);
    let f = first_block(size);
    let d = b - hhdm;
    let off = d % 4096;
    let k = (off - f) / size;
    let base = b - off;
    assert(d == (d / 4096) * 4096 + off);
    assert(off - f == k * size) by (nonlinear_arith)
        requires
            (off - f) % size == 0,
            k == (off - f) / size,
            size > 0,
    ;
    assert(0 <= k) by (nonlinear_arith)
        requires
            off - f == k * size,
            off - f >= 0,
            size > 0,
    ;
    assert(base % 4096 == 0);
    lemma_block_aligned(base, size, k);
    assert(b == base + f + k * size);
}

/// Two different blocks of one class never share a byte.
pub proof fn lemma_blocks_disjoint(hhdm: u64, a: u64, b: u64, size: int)
    requires
        size > 0,
        is_block(hhdm, a, size),
        is_block(hhdm, b, size),
        a != b,
    ensures
        a + size <= b || b + size <= a,
{
    let f = first_block(size);
    let pa = (a - hhdm) / 4096;
    let pb = (b - hhdm) / 4096;
    let oa = (a - hhdm) % 4096;
    let ob = (b - hhdm) % 4096;
    assert(a - hhdm == pa * 4096 + oa);
    assert(b - hhdm == pb * 4096 + ob);
    if pa == pb {
        let qa = (oa - f) / size;
        let qb = (ob - f) / size;
        assert(oa - f == qa * size && ob - f == qb * size) by (nonlinear_arith)
            requires
                (oa - f) % size == 0,
                (ob - f) % size == 0,
                qa == (oa - f) / size,
                qb == (ob - f) / size,
                size > 0,
        ;
        assert(qa != qb);
        assert(qa * size + size <= qb * size || qb * size + size <= qa * size)
            by (nonlinear_arith)
            requires
                qa != qb,
                size > 0,
        ;
    }
}

/// One size class of the heap: the blocks of its pages that are free, as a
/// stack.
pub struct Slab {
    /// The size of each block, in bytes.
    pub size: usize,
    /// The addresses of the free blocks. The last one is the head of the
    /// list: the next to be handed out.
    pub free: Vec<u64>,
}

impl Slab {
    /// The free list, its head last.
    pub open spec fn free_list(&self) -> Seq<u64> {
        self.free@
    }

    /// The slab's size is one of the classes, no block is listed twice, and
    /// every listed block lies in a frame that the frame allocator manages
    /// and has marked used.
    pub open spec fn wf(&self, pmm: &FrameAllocator) -> bool {
        &&& is_class_size(self.size as int)
        &&& self.free@.no_duplicates()
        &&& forall|j: int|
            0 <= j < self.free@.len() ==> {
                &&& is_block(pmm.hhdm, #[trigger] self.free@[j], self.size as int)
                &&& page_of(pmm.hhdm, self.free@[j]) < pmm.frames()
                &&& pmm.bits()[page_of(pmm.hhdm, self.free@[j])]
            }
    }

    /// A slab of `size`-byte blocks with no page behind it yet.
    pub fn new(size: usize) -> (r: Slab)
        ensures
            r.size == size,
            r.free_list().len() == 0,
    {
        Slab { size, free: Vec::new() }
    }

    /// Draws a fresh frame and lists its blocks, the lowest at the head.
    fn init(&mut self, pmm: &mut FrameAllocator) -> (r: Result<PhysAddr, AllocError>)
        requires
            old(pmm).wf(),
            old(self).wf(old(pmm)),
            old(self).free_list().len() == 0,
        ensures
            final(pmm).wf(),
            final(self).size == old(self).size,
            claim_result(old(pmm), 1, final(pmm), r),
            match r {
                Ok(p) => {
                    &&& final(pmm).mem() == fill_range(old(pmm).mem(), p.0 as int, 4096, 0)
                    &&& final(self).free_list() == page_blocks(
                        p.0 + old(pmm).hhdm,
                        old(self).size as int,
                    )
                    &&& final(self).wf(final(pmm))
                },
                Err(_) => {
                    &&& final(pmm).mem() == old(pmm).mem()
                    &&& final(self).free_list() == old(self).free_list()
                },
            },
    {
        let page = pmm::alloc_zeroed(pmm, 1)?;
        proof {
            lemma_class_layout(self.size as int);
            pmm::lemma_free_run_managed(old(pmm), page.0 as int / 4096, 1);
        }
        let base: u64 = page.as_hhdm(pmm.hhdm).as_u64();
        let hdr_offset: usize = align_up(8, self.size as u64) as usize;
        let avl: usize = 0x1000 - hdr_offset;
        let count: usize = avl / self.size;
        let ghost size = self.size as int;
        let mut k: usize = count;
        while k > 0
            invariant
                k <= count,
                count == blocks_per_page(size),
                hdr_offset == first_block(size),
                self.size == size,
                is_class_size(size),
                base == page.0 + pmm.hhdm,
                base % 4096 == 0,
                pmm.hhdm % 4096 == 0,
                pmm.hhdm <= base,
                base + 4096 <= u64::MAX,
                self.free@.len() == count - k,
                forall|j: int|
                    0 <= j < count - k ==> self.free@[j] == base + hdr_offset + (count - 1 - j)
                        * size,
            decreases k,
        {
            k -= 1;
            proof {
                lemma_block_at(pmm.hhdm, base as int, size, k as int);
            }
            self.free.push(base + hdr_offset as u64 + (k * self.size) as u64);
        }
        proof {
            assert(self.free@ =~= page_blocks(base as int, size));
            let hhdm = pmm.hhdm;
            assert forall|j: int| 0 <= j < self.free@.len() implies {
                &&& is_block(hhdm, #[trigger] self.free@[j], size)
                &&& page_of(hhdm, self.free@[j]) < pmm.frames()
                &&& pmm.bits()[page_of(hhdm, self.free@[j])]
            } by {
                lemma_block_at(hhdm, base as int, size, count - 1 - j);
                assert(page.0 as int / 4096 * 4096 == page.0);
            }
            assert forall|i: int, j: int|
                0 <= i < self.free@.len() && 0 <= j < self.free@.len() && i != j implies self.free@[i]
                != self.free@[j] by {
                assert((count - 1 - i) * size != (count - 1 - j) * size) by (nonlinear_arith)
                    requires
                        i != j,
                        size > 0,
                ;
            }
        }
        Ok(page)
    }

    /// Hands out the block at the head of the free list, cleared; draws a
    /// fresh page first where the list is empty.
    pub fn allocate(&mut self, pmm: &mut FrameAllocator) -> (r: Result<VirtAddr, AllocError>)
        requires
            old(pmm).wf(),
            old(self).wf(old(pmm)),
        ensures
            final(pmm).wf(),
            final(self).wf(final(pmm)),
            slab_alloc_result(old(self), old(pmm), final(self), final(pmm), r),
    {
        if self.free.len() == 0 {
            // Initialize or add a page to the slab
            self.init(pmm)?;
        }
        proof {
            lemma_class_layout(self.size as int);
        }
        let ghost list = self.free@;
        let block: u64 = self.free.pop().unwrap();
        let ret = VirtAddr::new(block);
        proof {
            assert(list[list.len() - 1] == block);
            assert(is_block(pmm.hhdm, block, self.size as int));
            let d = block - pmm.hhdm;
            let pg = page_of(pmm.hhdm, block);
            assert(d == pg * 4096 + d % 4096);
            assert((pg + 1) * 4096 <= pmm.mem().len()) by (nonlinear_arith)
                requires
                    pg + 1 <= pmm.mem().len() as int / 4096,
            ;
        }
        pmm.write_bytes(ret, 0, self.size);
        proof {
            assert(self.free@ =~= list.drop_last());
            if old(self).free_list().len() == 0 {
                let p = ((block - pmm.hhdm) / 4096 * 4096) as int;
                lemma_block_at(
                    pmm.hhdm,
                    p + pmm.hhdm,
                    self.size as int,
                    0,
                );
                assert(pmm.mem() =~= fill_range(old(pmm).mem(), p, 4096, 0));
            }
        }
        Ok(ret)
    }

    /// Puts the block at `ptr` back at the head of the free list.
    pub fn free(&mut self, ptr: VirtAddr)
        ensures
            final(self).size == old(self).size,
            final(self).free_list() == old(self).free_list().push(ptr.0),
    {
        self.free.push(ptr.as_u64());
    }
}

/// What an allocation from a slab does. With a block on the list, the head is
/// handed out and cleared, and nothing else changes. With an empty list a
/// frame is claimed as the frame allocator claims it, cleared and cut into
/// blocks; the lowest is handed out and the others are listed. Without a free
/// frame the request fails and the slab stays as it was.
pub open spec fn slab_alloc_result(
    pre: &Slab,
    pre_pmm: &FrameAllocator,
    post: &Slab,
    post_pmm: &FrameAllocator,
    r: Result<VirtAddr, AllocError>,
) -> bool {
    let size = pre.size as int;
    &&& post.size == pre.size
    &&& post_pmm.hhdm == pre_pmm.hhdm
    &&& if pre.free_list().len() > 0 {
        &&& r == Ok::<VirtAddr, AllocError>(VirtAddr(pre.free_list().last()))
        &&& post.free_list() == pre.free_list().drop_last()
        &&& post_pmm.bits() == pre_pmm.bits()
        &&& post_pmm.cursor == pre_pmm.cursor
        &&& post_pmm.mem() == fill_range(
            pre_pmm.mem(),
            pre.free_list().last() - pre_pmm.hhdm,
            size,
            0,
        )
    } else {
        match r {
            Ok(b) => {
                let page = PhysAddr(((b.0 - pre_pmm.hhdm) / 4096 * 4096) as u64);
                &&& claim_result(pre_pmm, 1, post_pmm, Ok(page))
                &&& b.0 == page.0 + pre_pmm.hhdm + first_block(size)
                &&& post.free_list() == page_blocks(page.0 + pre_pmm.hhdm, size).drop_last()
                &&& post_pmm.mem() == fill_range(pre_pmm.mem(), page.0 as int, 4096, 0)
            },
            Err(e) => {
                &&& claim_result(pre_pmm, 1, post_pmm, Err(e))
                &&& post.free_list() == pre.free_list()
                &&& post_pmm.mem() == pre_pmm.mem()
            },
        }
    }
}

} // verus!
