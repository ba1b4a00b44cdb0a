use super::addr::{PhysAddr, VirtAddr};
use super::pmm::{claim_result, copy_range, fill_range, mark_run, FrameAllocator};
use super::slab::{
    blocks_per_page, first_block, is_block, is_class_size, lemma_block_alignment, lemma_block_at,
    lemma_blocks_disjoint, lemma_class_layout, page_blocks, page_of, slab_alloc_result, Slab,
};
use super::{pmm, AllocError};
use std::collections::HashMap;
use vstd::prelude::*;

verus! {

/// The block size of class `c`.
pub open spec fn class_size(c: int) -> int {
    if c == 0 {
        8
    } else if c == 1 {
        16
    } else if c == 2 {
        24
    } else if c == 3 {
        32
    } else if c == 4 {
        48
    } else if c == 5 {
        64
    } else if c == 6 {
        128
    } else if c == 7 {
        256
    } else if c == 8 {
        512
    } else {
        1024
    }
}

/// The class that serves a request of `size` bytes: the smallest whose blocks
/// are large enough. `None` for a request that no class can hold; it is
/// served in whole frames.
pub open spec fn class_for(size: int) -> Option<int> {
    if size <= 8 {
        Some(0)
    } else if size <= 16 {
        Some(1)
    } else if size <= 24 {
        Some(2)
    } else if size <= 32 {
        Some(3)
    } else if size <= 48 {
        Some(4)
    } else if size <= 64 {
        Some(5)
    } else if size <= 128 {
        Some(6)
    } else if size <= 256 {
        Some(7)
    } else if size <= 512 {
        Some(8)
    } else if size <= 1024 {
        Some(9)
    } else {
        None
    }
}

/// The number of frames that hold `size` bytes.
pub open spec fn pages_for(size: int) -> int {
    (size + 4095) / 4096
}

/// The class chosen for a request is the smallest that is large enough, and a
/// request is served in frames only where the largest class is too small.
pub proof fn lemma_class_for(size: int)
    ensures
        match class_for(size) {
            Some(c) => {
                &&& 0 <= c < 10
                &&& size <= class_size(c)
                &&& is_class_size(class_size(c))
                &&& forall|d: int| 0 <= d < c ==> class_size(d) < size
            },
            None => forall|d: int| 0 <= d < 10 ==> class_size(d) < size,
        },
{
}

/// The ten block sizes.
pub proof fn lemma_class_sizes()
    ensures
        class_size(0) == 8,
        class_size(1) == 16,
        class_size(2) == 24,
        class_size(3) == 32,
        class_size(4) == 48,
        class_size(5) == 64,
        class_size(6) == 128,
        class_size(7) == 256,
        class_size(8) == 512,
        class_size(9) == 1024,
        forall|c: int| is_class_size(#[trigger] class_size(c)),
{
}

/// The sum of the sizes asked for in the allocations that `m` records.
pub open spec fn total(m: Map<u64, (usize, usize)>) -> nat
    decreases m.dom().len(),
    when m.dom().finite()
{
    if m.dom().len() == 0 {
        0
    } else {
        let k = m.dom().choose();
        m[k].0 as nat + total(m.remove(k))
    }
}

/// Taking one allocation out of the record takes its size out of the sum.
pub proof fn lemma_total_remove(m: Map<u64, (usize, usize)>, k: u64)
    requires
        m.dom().finite(),
        m.contains_key(k),
    ensures
        total(m) == m[k].0 + total(m.remove(k)),
    decreases m.dom().len(),
{
    let c = m.dom().choose();
    if c != k {
        lemma_total_remove(m.remove(c), k);
        lemma_total_remove(m.remove(k), c);
        assert(m.remove(c).remove(k) =~= m.remove(k).remove(c));
    }
}

/// Recording one more allocation adds its size to the sum.
pub proof fn lemma_total_insert(m: Map<u64, (usize, usize)>, k: u64, v: (usize, usize))
    requires
        m.dom().finite(),
        !m.contains_key(k),
    ensures
        total(m.insert(k, v)) == total(m) + v.0,
{
    lemma_total_remove(m.insert(k, v), k);
    assert(m.insert(k, v).remove(k) =~= m);
}

/// Changing the size recorded for an allocation changes the sum by the
/// difference.
pub proof fn lemma_total_update(m: Map<u64, (usize, usize)>, k: u64, v: (usize, usize))
    requires
        m.dom().finite(),
        m.contains_key(k),
    ensures
        total(m.insert(k, v)) == total(m) - m[k].0 + v.0,
{
    lemma_total_remove(m.insert(k, v), k);
    lemma_total_remove(m, k);
    assert(m.insert(k, v).remove(k) =~= m.remove(k));
}

/// The number of frames that hold `size` bytes.
pub fn page_count(size: usize) -> (r: usize)
    ensures
        r == pages_for(size as int),
{
    size / 4096 + if size % 4096 != 0 {
        1usize
    } else {
        0usize
    }
}

/// The heap dispatcher: ten slabs, a record of which frame belongs to which
/// slab, a record of the live allocations, and the number of bytes asked for
/// in them.
pub struct Alloc {
    /// One slab for each size class, smallest first.
    pub slabs: Vec<Slab>,
    /// The bytes asked for in the live allocations.
    pub mem_used: usize,
    /// For each frame that a slab has drawn, the class of that slab.
    pub owners: HashMap<u64, usize>,
    /// For each live allocation, the size and alignment asked for.
    pub live: HashMap<u64, (usize, usize)>,
}

impl Alloc {
    /// The live allocations: address to size and alignment asked for.
    pub open spec fn live(&self) -> Map<u64, (usize, usize)> {
        self.live@
    }

    /// The frames that slabs have drawn: frame to class.
    pub open spec fn owners(&self) -> Map<u64, usize> {
        self.owners@
    }

    /// The free list of class `c`, its head last.
    pub open spec fn free_list(&self, c: int) -> Seq<u64> {
        self.slabs@[c].free_list()
    }

    /// `ptr` is a live allocation that was asked for with this size and
    /// alignment.
    pub open spec fn is_live(&self, ptr: VirtAddr, size: usize, align: usize) -> bool {
        self.live().contains_key(ptr.0) && self.live()[ptr.0] == (size, align)
    }

    /// There is one slab for each class, each is well formed, and every block
    /// on a free list lies in a frame of its class and is not live.
    pub open spec fn slabs_ok(&self, pmm: &FrameAllocator) -> bool {
        &&& self.slabs@.len() == 10
        &&& forall|c: int|
            0 <= c < 10 ==> (#[trigger] self.slabs@[c]).size == class_size(c) && self.slabs@[c].wf(
                pmm,
            )
        &&& forall|c: int, j: int|
            0 <= c < 10 && 0 <= j < self.slabs@[c].free@.len() ==> {
                let b = #[trigger] self.slabs@[c].free@[j];
                &&& self.owners().contains_key(page_of(pmm.hhdm, b) as u64)
                &&& self.owners()[page_of(pmm.hhdm, b) as u64] == c
                &&& !self.live().contains_key(b)
            }
    }

    /// Every frame that a slab has drawn is a managed frame marked used.
    pub open spec fn owners_ok(&self, pmm: &FrameAllocator) -> bool {
        forall|p: u64| #[trigger]
            self.owners().contains_key(p) ==> p < pmm.frames() && pmm.bits()[p as int]
                && self.owners()[p] < 10
    }

    /// The live allocation at `a` is what its address says: at a frame
    /// boundary, a run of used frames that no slab owns, as long as its size
    /// asks for; elsewhere, a block of the slab that owns the frame, large
    /// enough for its size.
    pub open spec fn live_entry_ok(&self, pmm: &FrameAllocator, a: u64) -> bool {
        let size = self.live()[a].0 as int;
        &&& a >= pmm.hhdm
        &&& if a % 4096 == 0 {
            let f = page_of(pmm.hhdm, a);
            let n = pages_for(size);
            &&& n >= 1
            &&& f + n <= pmm.frames()
            &&& forall|g: int|
                f <= g < f + n ==> #[trigger] pmm.bits()[g] && !self.owners().contains_key(g as u64)
        } else {
            let p = page_of(pmm.hhdm, a) as u64;
            &&& self.owners().contains_key(p)
            &&& is_block(pmm.hhdm, a, class_size(self.owners()[p] as int))
            &&& size <= class_size(self.owners()[p] as int)
        }
    }

    /// Every live allocation is what its address says, and no two
    /// frame-granular ones share a frame.
    pub open spec fn live_ok(&self, pmm: &FrameAllocator) -> bool {
        &&& forall|a: u64| #[trigger] self.live().contains_key(a) ==> self.live_entry_ok(pmm, a)
        &&& forall|a: u64, b: u64|
            #[trigger] self.live().contains_key(a) && #[trigger] self.live().contains_key(b) && a
                != b && a % 4096 == 0 && b % 4096 == 0 ==> {
                ||| page_of(pmm.hhdm, a) + pages_for(self.live()[a].0 as int) <= page_of(
                    pmm.hhdm,
                    b,
                )
                ||| page_of(pmm.hhdm, b) + pages_for(self.live()[b].0 as int) <= page_of(
                    pmm.hhdm,
                    a,
                )
            }
    }

    /// The heap and the frame allocator under it are consistent.
    pub open spec fn wf(&self, pmm: &FrameAllocator) -> bool {
        &&& pmm.wf()
        &&& self.slabs_ok(pmm)
        &&& self.owners_ok(pmm)
        &&& self.live_ok(pmm)
        &&& self.live().dom().finite()
        &&& self.mem_used == total(self.live())
    }

    /// A heap with nothing allocated and no slab backed by a page.
    pub fn new() -> (r: Alloc)
        ensures
            r.slabs@.len() == 10,
            forall|c: int| 0 <= c < 10 ==> r.free_list(c).len() == 0,
            forall|c: int| 0 <= c < 10 ==> (#[trigger] r.slabs@[c]).size == class_size(c),
            r.live() == Map::<u64, (usize, usize)>::empty(),
            r.owners() == Map::<u64, usize>::empty(),
            r.mem_used == 0,
            forall|pmm: &FrameAllocator| pmm.wf() ==> #[trigger] r.wf(pmm),
    {
        let mut slabs: Vec<Slab> = Vec::new();
        slabs.push(Slab::new(8));
        slabs.push(Slab::new(16));
        slabs.push(Slab::new(24));
        slabs.push(Slab::new(32));
        slabs.push(Slab::new(48));
        slabs.push(Slab::new(64));
        slabs.push(Slab::new(128));
        slabs.push(Slab::new(256));
        slabs.push(Slab::new(512));
        slabs.push(Slab::new(1024));
        let r = Alloc { slabs, mem_used: 0, owners: HashMap::new(), live: HashMap::new() };
        proof {
            assert(r.live().dom() =~= Set::<u64>::empty());
            assert(total(r.live()) == 0);
        }
        r
    }

    /// The index of the class that serves a request of `size` bytes.
    pub fn class_index(&self, size: usize) -> (r: Option<usize>)
        requires
            self.slabs@.len() == 10,
            forall|c: int| 0 <= c < 10 ==> (#[trigger] self.slabs@[c]).size == class_size(c),
        ensures
            match r {
                Some(i) => class_for(size as int) == Some(i as int),
                None => class_for(size as int) is None,
            },
    {
        let mut i: usize = 0;
        while i < self.slabs.len()
            invariant
                i <= 10,
                self.slabs@.len() == 10,
                forall|c: int| 0 <= c < 10 ==> (#[trigger] self.slabs@[c]).size == class_size(c),
                forall|d: int| 0 <= d < i ==> class_size(d) < size,
            decreases 10 - i,
        {
            if self.slabs[i].size >= size {
                proof {
                    lemma_class_sizes();
                }
                return Some(i);
            }
            i += 1;
        }
        proof {
            lemma_class_sizes();
        }
        None
    }
}

/// The bytes asked for in the live allocations of `heap`.
pub fn used(heap: &Alloc) -> (r: usize)
    ensures
        r == heap.mem_used,
{
    heap.mem_used
}

/// The bytes in use are the sum of the sizes that the live allocations were
/// asked with, not of the sizes they were given.
pub proof fn lemma_used_is_requested(heap: &Alloc, pmm: &FrameAllocator)
    requires
        heap.wf(pmm),
    ensures
        heap.mem_used == total(heap.live()),
        forall|a: u64| #[trigger]
            heap.live().contains_key(a) ==> heap.live()[a].0 <= heap.mem_used,
{
    assert forall|a: u64| #[trigger] heap.live().contains_key(a) implies heap.live()[a].0
        <= heap.mem_used by {
        lemma_total_remove(heap.live(), a);
    }
}

/// What an allocation of `size` bytes does. A size that a class can hold is
/// served by the smallest such class, as a slab serves it; the frame of the
/// block is recorded as that class's. A larger size is served in whole frames,
/// as many as hold it, as the frame allocator claims and clears them. Either
/// way the allocation is recorded as live and its size is added to the bytes
/// in use. A request fails, and changes nothing but the search cursor, exactly
/// when the frame allocator has no run of free frames for it.
pub open spec fn alloc_result(
    pre: &Alloc,
    pre_pmm: &FrameAllocator,
    size: usize,
    align: usize,
    post: &Alloc,
    post_pmm: &FrameAllocator,
    r: Result<VirtAddr, AllocError>,
) -> bool {
    &&& post.slabs@.len() == pre.slabs@.len()
    &&& match r {
        Ok(b) => {
            &&& post.live() == pre.live().insert(b.0, (size, align))
            &&& post.mem_used == pre.mem_used + size
        },
        Err(e) => {
            &&& e == AllocError::OutOfMemory
            &&& post.live() == pre.live()
            &&& post.mem_used == pre.mem_used
            &&& post.owners() == pre.owners()
        },
    }
    &&& match class_for(size as int) {
        Some(c) => {
            &&& slab_alloc_result(&pre.slabs@[c], pre_pmm, &post.slabs@[c], post_pmm, r)
            &&& forall|d: int| 0 <= d < 10 && d != c ==> post.slabs@[d] == pre.slabs@[d]
            &&& r matches Ok(b) ==> post.owners() == pre.owners().insert(
                page_of(pre_pmm.hhdm, b.0) as u64,
                c as usize,
            )
        },
        None => {
            &&& post.slabs@ == pre.slabs@
            &&& post.owners() == pre.owners()
            &&& match r {
                Ok(b) => {
                    let p = PhysAddr((b.0 - pre_pmm.hhdm) as u64);
                    &&& b.0 == p.0 + pre_pmm.hhdm
                    &&& claim_result(pre_pmm, pages_for(size as int), post_pmm, Ok(p))
                    &&& post_pmm.mem() == fill_range(
                        pre_pmm.mem(),
                        p.0 as int,
                        pages_for(size as int) * 4096,
                        0,
                    )
                },
                Err(e) => {
                    &&& claim_result(pre_pmm, pages_for(size as int), post_pmm, Err(e))
                    &&& post_pmm.mem() == pre_pmm.mem()
                },
            }
        },
    }
}

/// The heap's consistency depends on the frame allocator only through its
/// bitmap, its offset and the size of its window.
pub proof fn lemma_wf_same_frames(
    pre: &Alloc,
    pre_pmm: &FrameAllocator,
    post: &Alloc,
    post_pmm: &FrameAllocator,
)
    requires
        pre.wf(pre_pmm),
        post.slabs@.len() == pre.slabs@.len(),
        forall|c: int|
            0 <= c < 10 ==> (#[trigger] post.slabs@[c]).size == pre.slabs@[c].size
                && post.slabs@[c].free@ == pre.slabs@[c].free@,
        post.owners() == pre.owners(),
        post.live() == pre.live(),
        post.mem_used == pre.mem_used,
        post_pmm.hhdm == pre_pmm.hhdm,
        post_pmm.bits() == pre_pmm.bits(),
        post_pmm.mem().len() == pre_pmm.mem().len(),
    ensures
        post.wf(post_pmm),
{
    assert(post_pmm.frames() == pre_pmm.frames());
    assert(post.slabs_ok(post_pmm)) by {
        assert forall|c: int| 0 <= c < 10 implies (#[trigger] post.slabs@[c]).size == class_size(c)
            && post.slabs@[c].wf(post_pmm) by {
            assert(pre.slabs@[c].wf(pre_pmm));
        }
    }
    assert(post.live_ok(post_pmm)) by {
        assert forall|a: u64| #[trigger] post.live().contains_key(a) implies post.live_entry_ok(
            post_pmm,
            a,
        ) by {
            assert(pre.live_entry_ok(pre_pmm, a));
        }
    }
}

/// A frame-granular allocation keeps the heap consistent: the run claimed
/// was free, so no slab owned a frame of it and no live allocation held one.
pub proof fn lemma_frame_alloc_wf(
    pre: &Alloc,
    pre_pmm: &FrameAllocator,
    size: usize,
    align: usize,
    post: &Alloc,
    post_pmm: &FrameAllocator,
    b: VirtAddr,
)
    requires
        pre.wf(pre_pmm),
        post_pmm.wf(),
        post_pmm.mem().len() == pre_pmm.mem().len(),
        class_for(size as int) is None,
        alloc_result(pre, pre_pmm, size, align, post, post_pmm, Ok(b)),
    ensures
        post.wf(post_pmm),
        !pre.live().contains_key(b.0),
        b.0 % 4096 == 0,
        b.0 != 0,
{
    let hhdm = pre_pmm.hhdm;
    let n = pages_for(size as int);
    let s = (b.0 - hhdm) / 4096;
    let bits = pre_pmm.bits();
    assert(post_pmm.frames() == pre_pmm.frames());
    assert(b.0 - hhdm == s * 4096);
    assert(!bits[s]);
    if pre.live().contains_key(b.0) {
        assert(pre.live_entry_ok(pre_pmm, b.0));
        assert(bits[page_of(hhdm, b.0)]);
    }
    assert(post.slabs_ok(post_pmm)) by {
        assert forall|c: int| 0 <= c < 10 implies (#[trigger] post.slabs@[c]).size == class_size(c)
            && post.slabs@[c].wf(post_pmm) by {
            assert(pre.slabs@[c].wf(pre_pmm));
        }
        assert forall|c: int, j: int| 0 <= c < 10 && 0 <= j < post.slabs@[c].free@.len() implies {
            let x = #[trigger] post.slabs@[c].free@[j];
            &&& post.owners().contains_key(page_of(hhdm, x) as u64)
            &&& post.owners()[page_of(hhdm, x) as u64] == c
            &&& !post.live().contains_key(x)
        } by {
            let x = pre.slabs@[c].free@[j];
            assert(pre.slabs@[c].wf(pre_pmm));
            assert(bits[page_of(hhdm, x)]);
            assert(is_block(hhdm, x, class_size(c)));
            lemma_class_layout(class_size(c));
        }
    }
    assert(post.owners_ok(post_pmm));
    assert(post.live_ok(post_pmm)) by {
        assert forall|a: u64| #[trigger] post.live().contains_key(a) implies post.live_entry_ok(
            post_pmm,
            a,
        ) by {
            if a == b.0 {
                assert forall|g: int| s <= g < s + n implies #[trigger] post_pmm.bits()[g]
                    && !post.owners().contains_key(g as u64) by {
                    assert(!bits[g]);
                }
            } else {
                assert(pre.live_entry_ok(pre_pmm, a));
            }
        }
        assert forall|a: u64, c: u64|
            #[trigger] post.live().contains_key(a) && #[trigger] post.live().contains_key(c) && a
                != c && a % 4096 == 0 && c % 4096 == 0 implies {
            ||| page_of(hhdm, a) + pages_for(post.live()[a].0 as int) <= page_of(hhdm, c)
            ||| page_of(hhdm, c) + pages_for(post.live()[c].0 as int) <= page_of(hhdm, a)
        } by {
            if a == b.0 {
                lemma_run_apart(pre, pre_pmm, c, s, n);
            } else if c == b.0 {
                lemma_run_apart(pre, pre_pmm, a, s, n);
            }
        }
    }
    lemma_total_insert(pre.live(), b.0, (size, align));
}

/// A live frame-granular allocation shares no frame with a free run.
pub proof fn lemma_run_apart(heap: &Alloc, pmm: &FrameAllocator, a: u64, s: int, n: int)
    requires
        heap.wf(pmm),
        heap.live().contains_key(a),
        a % 4096 == 0,
        pmm::free_run(pmm.bits(), s, n),
    ensures
        page_of(pmm.hhdm, a) + pages_for(heap.live()[a].0 as int) <= s || s + n <= page_of(
            pmm.hhdm,
            a,
        ),
{
    assert(heap.live_entry_ok(pmm, a));
    let f = page_of(pmm.hhdm, a);
    let m = pages_for(heap.live()[a].0 as int);
    if !(f + m <= s || s + n <= f) {
        let g = if f >= s {
            f
        } else {
            s
        };
        assert(pmm.bits()[g]);
        assert(!pmm.bits()[g]);
    }
}

/// A slab-granular allocation keeps the heap consistent: the block handed
/// out was on its class's free list, or in a frame that was free, so it was
/// not live; its address is no frame boundary.
pub proof fn lemma_slab_alloc_wf(
    pre: &Alloc,
    pre_pmm: &FrameAllocator,
    size: usize,
    align: usize,
    post: &Alloc,
    post_pmm: &FrameAllocator,
    b: VirtAddr,
)
    requires
        pre.wf(pre_pmm),
        post_pmm.wf(),
        post_pmm.mem().len() == pre_pmm.mem().len(),
        class_for(size as int) is Some,
        alloc_result(pre, pre_pmm, size, align, post, post_pmm, Ok(b)),
    ensures
        post.wf(post_pmm),
        !pre.live().contains_key(b.0),
        b.0 % 4096 != 0,
        b.0 >= pre_pmm.hhdm,
        is_block(pre_pmm.hhdm, b.0, class_size(class_for(size as int).unwrap())),
        post.owners().contains_key(page_of(pre_pmm.hhdm, b.0) as u64),
        page_of(pre_pmm.hhdm, b.0) < pre_pmm.frames(),
{
    let hhdm = pre_pmm.hhdm;
    let c = class_for(size as int).unwrap();
    let cs = class_size(c);
    let bits = pre_pmm.bits();
    let pg = page_of(hhdm, b.0);
    lemma_class_for(size as int);
    lemma_class_layout(cs);
    assert(post_pmm.frames() == pre_pmm.frames());
    assert(pre.slabs@[c].wf(pre_pmm));
    let old_list = pre.slabs@[c].free@;
    let new_list = post.slabs@[c].free@;
    let drawn = old_list.len() == 0;
    if drawn {
        let base = pg * 4096 + hhdm;
        assert(pmm::free_run(bits, pg, 1));
        assert(!bits[pg]);
        pmm::lemma_free_run_managed(pre_pmm, pg, 1);
        lemma_block_at(hhdm, base, cs, 0);
        assert(b.0 == base + first_block(cs) + 0 * cs);
        assert(!pre.owners().contains_key(pg as u64));
        if pre.live().contains_key(b.0) {
            assert(pre.live_entry_ok(pre_pmm, b.0));
        }
        assert forall|j: int| 0 <= j < new_list.len() implies {
            &&& is_block(hhdm, #[trigger] new_list[j], cs)
            &&& page_of(hhdm, new_list[j]) == pg
            &&& new_list[j] != b.0
            &&& !pre.live().contains_key(new_list[j])
        } by {
            let k = blocks_per_page(cs) - 1 - j;
            lemma_block_at(hhdm, base, cs, k);
            assert(new_list[j] == page_blocks(base, cs)[j]);
            assert(k * cs != 0 * cs) by (nonlinear_arith)
                requires
                    k > 0,
                    cs > 0,
            ;
            if pre.live().contains_key(new_list[j]) {
                assert(pre.live_entry_ok(pre_pmm, new_list[j]));
            }
        }
        assert(new_list.no_duplicates()) by {
            assert forall|i: int, j: int|
                0 <= i < new_list.len() && 0 <= j < new_list.len() && i != j implies new_list[i]
                != new_list[j] by {
                let ki = blocks_per_page(cs) - 1 - i;
                let kj = blocks_per_page(cs) - 1 - j;
                assert(new_list[i] == page_blocks(base, cs)[i]);
                assert(new_list[j] == page_blocks(base, cs)[j]);
                lemma_block_at(hhdm, base, cs, ki);
                lemma_block_at(hhdm, base, cs, kj);
                assert(ki * cs != kj * cs) by (nonlinear_arith)
                    requires
                        ki != kj,
                        cs > 0,
                ;
            }
        }
    } else {
        assert(b.0 == old_list[old_list.len() - 1]);
        assert(is_block(hhdm, b.0, cs));
        assert forall|j: int| 0 <= j < new_list.len() implies {
            &&& is_block(hhdm, #[trigger] new_list[j], cs)
            &&& new_list[j] != b.0
            &&& !pre.live().contains_key(new_list[j])
        } by {
            assert(new_list[j] == old_list[j]);
        }
    }
    assert(post_pmm.bits()[pg]);
    assert(post.slabs@[c].wf(post_pmm)) by {
        assert forall|j: int| 0 <= j < new_list.len() implies {
            &&& is_block(hhdm, #[trigger] new_list[j], cs)
            &&& page_of(hhdm, new_list[j]) < post_pmm.frames()
            &&& post_pmm.bits()[page_of(hhdm, new_list[j])]
        } by {
            if !drawn {
                assert(new_list[j] == old_list[j]);
            }
        }
    }
    assert(post.slabs_ok(post_pmm)) by {
        assert forall|d: int| 0 <= d < 10 implies (#[trigger] post.slabs@[d]).size == class_size(d)
            && post.slabs@[d].wf(post_pmm) by {
            assert(pre.slabs@[d].wf(pre_pmm));
        }
        assert forall|d: int, j: int| 0 <= d < 10 && 0 <= j < post.slabs@[d].free@.len() implies {
            let x = #[trigger] post.slabs@[d].free@[j];
            &&& post.owners().contains_key(page_of(hhdm, x) as u64)
            &&& post.owners()[page_of(hhdm, x) as u64] == d
            &&& !post.live().contains_key(x)
        } by {
            let x = post.slabs@[d].free@[j];
            if d == c {
                assert(new_list[j] == x);
                if !drawn {
                    assert(old_list[j] == x);
                }
            } else {
                assert(pre.slabs@[d].wf(pre_pmm));
                assert(pre.slabs@[d].free@[j] == x);
                assert(bits[page_of(hhdm, x)]);
                assert(x != b.0);
            }
        }
    }
    assert(post.owners_ok(post_pmm)) by {
        assert forall|p: u64| #[trigger] post.owners().contains_key(p) implies p
            < post_pmm.frames() && post_pmm.bits()[p as int] && post.owners()[p] < 10 by {
            if p != pg as u64 {
                assert(pre.owners().contains_key(p));
            }
        }
    }
    assert(b.0 % 4096 != 0) by {
        assert((b.0 - hhdm) % 4096 >= 8);
    }
    if pre.live().contains_key(b.0) {
        assert(pre.live_entry_ok(pre_pmm, b.0));
    }
    assert(post.live_ok(post_pmm)) by {
        assert forall|a: u64| #[trigger] post.live().contains_key(a) implies post.live_entry_ok(
            post_pmm,
            a,
        ) by {
            if a != b.0 {
                assert(pre.live_entry_ok(pre_pmm, a));
                if a % 4096 == 0 {
                    let f = page_of(hhdm, a);
                    let n = pages_for(pre.live()[a].0 as int);
                    assert forall|g: int| f <= g < f + n implies #[trigger] post_pmm.bits()[g]
                        && !post.owners().contains_key(g as u64) by {
                        assert(bits[g]);
                    }
                }
            }
        }
    }
    lemma_total_insert(pre.live(), b.0, (size, align));
}

/// The number of bytes that a request of `size` bytes is given: the block
/// size of its class, or whole frames.
pub open spec fn granted_for(size: int) -> int {
    match class_for(size) {
        Some(c) => class_size(c),
        None => pages_for(size) * 4096,
    }
}

/// The alignment that a request of `size` bytes is given: that of its class,
/// the largest power of two that divides the block size, or that of a frame.
pub open spec fn natural_align(size: int) -> int {
    match class_for(size) {
        Some(c) => first_block(class_size(c)),
        None => 4096,
    }
}

impl Alloc {
    /// Serves a request for `size` bytes: from the smallest class that holds
    /// them, or in whole frames where none does. The memory handed out is
    /// cleared.
    pub fn allocate(&mut self, pmm: &mut FrameAllocator, size: usize, align: usize) -> (r: Result<
        VirtAddr,
        AllocError,
    >)
        requires
            old(self).wf(old(pmm)),
            old(self).mem_used + size <= usize::MAX,
        ensures
            final(self).wf(final(pmm)),
            alloc_result(old(self), old(pmm), size, align, final(self), final(pmm), r),
            r is Err <==> pmm::no_free_run(
                old(pmm).bits(),
                0,
                if class_for(size as int) is None {
                    pages_for(size as int)
                } else {
                    1
                },
            ) && (class_for(size as int) matches Some(c) ==> old(self).free_list(c).len() == 0),
            r matches Ok(b) ==> {
                &&& b.0 != 0
                &&& !old(self).live().contains_key(b.0)
                &&& final(pmm).in_window(b, granted_for(size as int))
                &&& size <= granted_for(size as int)
                &&& (b.0 % 4096 == 0 <==> class_for(size as int) is None)
                &&& b.0 % (natural_align(size as int) as u64) == 0
                &&& forall|i: int|
                    0 <= i < granted_for(size as int) ==> #[trigger] final(pmm).mem()[b.0
                        - old(pmm).hhdm + i] == 0
                &&& forall|i: int|
                    0 <= i < old(pmm).mem().len() && i / 4096 < old(pmm).bits().len() && old(
                        pmm,
                    ).bits()[i / 4096] && !(b.0 - old(pmm).hhdm <= i < b.0 - old(pmm).hhdm
                        + granted_for(size as int))
                        ==> #[trigger] final(pmm).mem()[i] == old(pmm).mem()[i]
            },
    {
        proof {
            lemma_class_for(size as int);
        }
        let m: usize = pmm.memory.len();
        match self.class_index(size) {
            Some(i) => {
                proof {
                    assert(old(self).slabs@[i as int].wf(old(pmm)));
                    lemma_class_layout(class_size(i as int));
                }
                match self.slabs[i].allocate(pmm) {
                    Ok(b) => {
                        let page: u64 = (b.as_u64() - pmm.hhdm) / 4096;
                        self.owners.insert(page, i);
                        self.live.insert(b.as_u64(), (size, align));
                        self.mem_used += size;
                        proof {
                            assert(forall|d: int|
                                0 <= d < 10 && d != i ==> self.slabs@[d] == old(self).slabs@[d]);
                            lemma_slab_alloc_wf(old(self), old(pmm), size, align, self, pmm, b);
                            lemma_block_alignment(pmm.hhdm, b.0, class_size(i as int));
                            let hhdm = pmm.hhdm;
                            let cs = class_size(i as int);
                            let pg = page_of(hhdm, b.0);
                            let d = b.0 - hhdm;
                            assert(d == pg * 4096 + d % 4096);
                            assert((pg + 1) * 4096 <= pmm.mem().len()) by (nonlinear_arith)
                                requires
                                    pg + 1 <= pmm.mem().len() as int / 4096,
                            ;
                            if old(self).free_list(i as int).len() == 0 {
                                assert(!old(pmm).bits()[pg]);
                            }
                        }
                        Ok(b)
                    },
                    Err(e) => {
                        proof {
                            lemma_wf_same_frames(old(self), old(pmm), self, pmm);
                        }
                        Err(e)
                    },
                }
            },
            None => {
                let pages: usize = page_count(size);
                match pmm::alloc_zeroed(pmm, pages) {
                    Ok(p) => {
                        proof {
                            pmm::lemma_free_run_managed(old(pmm), p.0 as int / 4096, pages as int);
                        }
                        let b = p.as_hhdm(pmm.hhdm);
                        self.live.insert(b.as_u64(), (size, align));
                        self.mem_used += size;
                        proof {
                            lemma_frame_alloc_wf(old(self), old(pmm), size, align, self, pmm, b);
                            let s = p.0 as int / 4096;
                            assert forall|i: int|
                                0 <= i < old(pmm).mem().len() && i / 4096 < old(pmm).bits().len()
                                    && old(pmm).bits()[i / 4096] && !(p.0 <= i < p.0 + pages
                                    * 4096) implies #[trigger] pmm.mem()[i]
                                == old(pmm).mem()[i] by {}
                        }
                        Ok(b)
                    },
                    Err(e) => {
                        proof {
                            lemma_wf_same_frames(old(self), old(pmm), self, pmm);
                        }
                        Err(e)
                    },
                }
            },
        }
    }
}

/// What giving back the live allocation at `ptr` does. An address at a frame
/// boundary is frame-granular: its frames, as many as hold the size it was
/// last asked with, are marked free, and no slab is touched. Any other
/// address is slab-granular: the block goes to the head of the free list of
/// the class that owns its frame, and the bitmap stays as it is. Either way
/// the allocation leaves the record and its size leaves the bytes in use.
pub open spec fn release_result(
    pre: &Alloc,
    pre_pmm: &FrameAllocator,
    ptr: VirtAddr,
    post: &Alloc,
    post_pmm: &FrameAllocator,
) -> bool {
    let size = pre.live()[ptr.0].0;
    let page = page_of(pre_pmm.hhdm, ptr.0);
    &&& post.slabs@.len() == pre.slabs@.len()
    &&& post.live() == pre.live().remove(ptr.0)
    &&& post.mem_used == pre.mem_used - size
    &&& post.owners() == pre.owners()
    &&& post_pmm.hhdm == pre_pmm.hhdm
    &&& if ptr.0 % 4096 == 0 {
        &&& post.slabs@ == pre.slabs@
        &&& post_pmm.bits() == mark_run(pre_pmm.bits(), page, pages_for(size as int), false)
        &&& post_pmm.cursor == page
    } else {
        let c = pre.owners()[page as u64] as int;
        &&& post.slabs@[c].size == pre.slabs@[c].size
        &&& post.free_list(c) == pre.free_list(c).push(ptr.0)
        &&& forall|d: int| 0 <= d < 10 && d != c ==> post.slabs@[d] == pre.slabs@[d]
        &&& post_pmm.bits() == pre_pmm.bits()
        &&& post_pmm.cursor == pre_pmm.cursor
    }
}

/// Nothing of the heap or of the frame allocator has changed.
pub open spec fn unchanged(
    pre: &Alloc,
    pre_pmm: &FrameAllocator,
    post: &Alloc,
    post_pmm: &FrameAllocator,
) -> bool {
    &&& post.slabs@ == pre.slabs@
    &&& post.live() == pre.live()
    &&& post.owners() == pre.owners()
    &&& post.mem_used == pre.mem_used
    &&& post_pmm.hhdm == pre_pmm.hhdm
    &&& post_pmm.bits() == pre_pmm.bits()
    &&& post_pmm.cursor == pre_pmm.cursor
    &&& post_pmm.mem() == pre_pmm.mem()
}

/// What `free` does: a pointer, size and alignment that are not those of a
/// live allocation are refused and nothing changes; a live allocation is
/// given back, and memory is left as it is.
pub open spec fn free_result(
    pre: &Alloc,
    pre_pmm: &FrameAllocator,
    ptr: VirtAddr,
    size: usize,
    align: usize,
    post: &Alloc,
    post_pmm: &FrameAllocator,
    r: Result<(), AllocError>,
) -> bool {
    if pre.is_live(ptr, size, align) {
        &&& r is Ok
        &&& release_result(pre, pre_pmm, ptr, post, post_pmm)
        &&& post_pmm.mem() == pre_pmm.mem()
    } else {
        &&& r == Err::<(), AllocError>(AllocError::InvalidPointer)
        &&& unchanged(pre, pre_pmm, post, post_pmm)
    }
}

/// The low twelve bits of an address are clear exactly at a frame boundary.
pub proof fn lemma_low_bits(a: u64)
    by (bit_vector)
    ensures
        (a & 0xFFF == 0) == (a % 4096 == 0),
{
}

/// Giving back a live allocation keeps the heap consistent.
pub proof fn lemma_release_wf(
    pre: &Alloc,
    pre_pmm: &FrameAllocator,
    ptr: VirtAddr,
    post: &Alloc,
    post_pmm: &FrameAllocator,
)
    requires
        pre.wf(pre_pmm),
        pre.live().contains_key(ptr.0),
        release_result(pre, pre_pmm, ptr, post, post_pmm),
        post_pmm.mem().len() == pre_pmm.mem().len(),
    ensures
        post.wf(post_pmm),
{
    let hhdm = pre_pmm.hhdm;
    let bits = pre_pmm.bits();
    let size = pre.live()[ptr.0].0 as int;
    let pg = page_of(hhdm, ptr.0);
    assert(pre.live_entry_ok(pre_pmm, ptr.0));
    assert(post_pmm.frames() == pre_pmm.frames());
    lemma_total_remove(pre.live(), ptr.0);
    if ptr.0 % 4096 == 0 {
        let n = pages_for(size);
        assert(post_pmm.wf()) by {
            assert forall|f: int| post_pmm.frames() <= f < post_pmm.bits().len() implies #[trigger] post_pmm.bits()[f] by {
                assert(bits[f]);
            }
        }
        assert(post.owners_ok(post_pmm)) by {
            assert forall|p: u64| #[trigger] post.owners().contains_key(p) implies p
                < post_pmm.frames() && post_pmm.bits()[p as int] && post.owners()[p] < 10 by {
                if pg <= p < pg + n {
                    assert(bits[p as int]);
                }
            }
        }
        assert(post.slabs_ok(post_pmm)) by {
            assert forall|c: int| 0 <= c < 10 implies (#[trigger] post.slabs@[c]).size
                == class_size(c) && post.slabs@[c].wf(post_pmm) by {
                assert(pre.slabs@[c].wf(pre_pmm));
                let list = pre.slabs@[c].free@;
                assert forall|j: int| 0 <= j < list.len() implies post_pmm.bits()[page_of(
                    hhdm,
                    #[trigger] list[j],
                )] by {
                    let x = pre.slabs@[c].free@[j];
                    assert(pre.owners().contains_key(page_of(hhdm, x) as u64));
                    assert(post.owners().contains_key(page_of(hhdm, x) as u64));
                }
            }
        }
        assert(post.live_ok(post_pmm)) by {
            assert forall|a: u64| #[trigger] post.live().contains_key(a) implies post.live_entry_ok(
                post_pmm,
                a,
            ) by {
                assert(pre.live().contains_key(a));
                assert(pre.live_entry_ok(pre_pmm, a));
                if a % 4096 == 0 {
                    let f = page_of(hhdm, a);
                    let m = pages_for(pre.live()[a].0 as int);
                    assert forall|g: int| f <= g < f + m implies #[trigger] post_pmm.bits()[g]
                        && !post.owners().contains_key(g as u64) by {
                        assert(bits[g]);
                    }
                }
            }
        }
    } else {
        let c = pre.owners()[pg as u64] as int;
        let old_list = pre.slabs@[c].free@;
        let new_list = post.slabs@[c].free@;
        assert(pre.owners().contains_key(pg as u64));
        assert(pre.slabs@[c].wf(pre_pmm));
        assert(new_list.no_duplicates()) by {
            assert forall|i: int, j: int|
                0 <= i < new_list.len() && 0 <= j < new_list.len() && i != j implies new_list[i]
                != new_list[j] by {
                if i < old_list.len() {
                    assert(!pre.live().contains_key(pre.slabs@[c].free@[i]));
                }
                if j < old_list.len() {
                    assert(!pre.live().contains_key(pre.slabs@[c].free@[j]));
                }
            }
        }
        assert(post.slabs_ok(post_pmm)) by {
            assert forall|d: int| 0 <= d < 10 implies (#[trigger] post.slabs@[d]).size
                == class_size(d) && post.slabs@[d].wf(post_pmm) by {
                assert(pre.slabs@[d].wf(pre_pmm));
                if d == c {
                    assert forall|j: int| 0 <= j < new_list.len() implies {
                        &&& is_block(hhdm, #[trigger] new_list[j], class_size(c))
                        &&& page_of(hhdm, new_list[j]) < post_pmm.frames()
                        &&& post_pmm.bits()[page_of(hhdm, new_list[j])]
                    } by {
                        if j < old_list.len() {
                            assert(new_list[j] == old_list[j]);
                        }
                    }
                }
            }
            assert forall|d: int, j: int| 0 <= d < 10 && 0 <= j < post.slabs@[d].free@.len() implies {
                let x = #[trigger] post.slabs@[d].free@[j];
                &&& post.owners().contains_key(page_of(hhdm, x) as u64)
                &&& post.owners()[page_of(hhdm, x) as u64] == d
                &&& !post.live().contains_key(x)
            } by {
                if d == c {
                    if j < old_list.len() {
                        assert(new_list[j] == pre.slabs@[c].free@[j]);
                    }
                } else {
                    assert(post.slabs@[d].free@[j] == pre.slabs@[d].free@[j]);
                }
            }
        }
        assert(post.live_ok(post_pmm)) by {
            assert forall|a: u64| #[trigger] post.live().contains_key(a) implies post.live_entry_ok(
                post_pmm,
                a,
            ) by {
                assert(pre.live().contains_key(a));
                assert(pre.live_entry_ok(pre_pmm, a));
            }
        }
    }
}

impl Alloc {
    /// Gives back the allocation at `ptr`, made with this size and
    /// alignment. Anything else is refused.
    pub fn free(&mut self, pmm: &mut FrameAllocator, ptr: VirtAddr, size: usize, align: usize) -> (r:
        Result<(), AllocError>)
        requires
            old(self).wf(old(pmm)),
        ensures
            final(self).wf(final(pmm)),
            free_result(old(self), old(pmm), ptr, size, align, final(self), final(pmm), r),
    {
        let key: u64 = ptr.as_u64();
        let known: bool = match self.live.get(&key) {
            Some(l) => l.0 == size && l.1 == align,
            None => false,
        };
        if !known {
            return Err(AllocError::InvalidPointer);
        }
        proof {
            lemma_total_remove(self.live(), key);
            lemma_low_bits(key);
            assert(self.live_entry_ok(pmm, key));
        }
        self.live.remove(&key);
        self.mem_used -= size;
        if key & 0xFFF == 0 {
            let pages: usize = page_count(size);
            pmm::free(pmm, ptr.as_phys_hhdm(pmm.hhdm), pages);
        } else {
            let page: u64 = (key - pmm.hhdm) / 4096;
            let c: usize = match self.owners.get(&page) {
                Some(c) => *c,
                None => 0,
            };
            self.slabs[c].free(ptr);
        }
        proof {
            lemma_release_wf(old(self), old(pmm), ptr, self, pmm);
        }
        Ok(())
    }
}

impl Alloc {
    /// The number of bytes that the live allocation at `a` owns: its whole
    /// frames, or its block.
    pub open spec fn extent(&self, pmm: &FrameAllocator, a: u64) -> int {
        if a % 4096 == 0 {
            pages_for(self.live()[a].0 as int) * 4096
        } else {
            class_size(self.owners()[page_of(pmm.hhdm, a) as u64] as int)
        }
    }
}

/// A live allocation lies in the direct map window, is at least as large as
/// was asked for, and every frame it touches is marked used.
pub proof fn lemma_live_in_window(heap: &Alloc, pmm: &FrameAllocator, a: u64)
    requires
        heap.wf(pmm),
        heap.live().contains_key(a),
    ensures
        a != 0,
        pmm.in_window(VirtAddr(a), heap.extent(pmm, a)),
        heap.live()[a].0 <= heap.extent(pmm, a),
        forall|i: int|
            a - pmm.hhdm <= i < a - pmm.hhdm + heap.extent(pmm, a) ==> 0 <= i / 4096
                < pmm.bits().len() && #[trigger] pmm.bits()[i / 4096],
{
    let hhdm = pmm.hhdm;
    let d = a - hhdm;
    let pg = page_of(hhdm, a);
    let size = heap.live()[a].0 as int;
    assert(heap.live_entry_ok(pmm, a));
    assert(d == pg * 4096 + d % 4096);
    if a % 4096 == 0 {
        let n = pages_for(size);
        assert((pg + n) * 4096 <= pmm.mem().len()) by (nonlinear_arith)
            requires
                pg + n <= pmm.mem().len() as int / 4096,
        ;
        assert forall|i: int| d <= i < d + n * 4096 implies 0 <= i / 4096 < pmm.bits().len()
            && #[trigger] pmm.bits()[i / 4096] by {
            let g = i / 4096;
            assert(pg <= g < pg + n);
            assert(pmm.bits()[g]);
        }
    } else {
        let c = heap.owners()[pg as u64] as int;
        assert(heap.owners().contains_key(pg as u64));
        lemma_class_sizes();
        lemma_class_layout(class_size(c));
        assert((pg + 1) * 4096 <= pmm.mem().len()) by (nonlinear_arith)
            requires
                pg + 1 <= pmm.mem().len() as int / 4096,
        ;
        assert forall|i: int| d <= i < d + class_size(c) implies 0 <= i / 4096 < pmm.bits().len()
            && #[trigger] pmm.bits()[i / 4096] by {
            assert(i / 4096 == pg);
        }
    }
}

/// No two live allocations share a byte.
pub proof fn lemma_live_disjoint(heap: &Alloc, pmm: &FrameAllocator, a: u64, b: u64)
    requires
        heap.wf(pmm),
        heap.live().contains_key(a),
        heap.live().contains_key(b),
        a != b,
    ensures
        a + heap.extent(pmm, a) <= b || b + heap.extent(pmm, b) <= a,
{
    let hhdm = pmm.hhdm;
    let da = a - hhdm;
    let db = b - hhdm;
    let pa = page_of(hhdm, a);
    let pb = page_of(hhdm, b);
    assert(heap.live_entry_ok(pmm, a));
    assert(heap.live_entry_ok(pmm, b));
    assert(da == pa * 4096 + da % 4096);
    assert(db == pb * 4096 + db % 4096);
    lemma_class_sizes();
    if a % 4096 == 0 && b % 4096 == 0 {
    } else if a % 4096 == 0 {
        lemma_frame_block_apart(heap, pmm, a, b);
    } else if b % 4096 == 0 {
        lemma_frame_block_apart(heap, pmm, b, a);
    } else {
        let ca = heap.owners()[pa as u64] as int;
        let cb = heap.owners()[pb as u64] as int;
        assert(heap.owners().contains_key(pa as u64));
        assert(heap.owners().contains_key(pb as u64));
        lemma_class_layout(class_size(ca));
        lemma_class_layout(class_size(cb));
        if pa == pb {
            lemma_blocks_disjoint(hhdm, a, b, class_size(ca));
        }
    }
}

/// A live frame-granular allocation and a live block share no byte: no slab
/// owns a frame of the first, and one owns the frame of the second.
proof fn lemma_frame_block_apart(heap: &Alloc, pmm: &FrameAllocator, a: u64, b: u64)
    requires
        heap.wf(pmm),
        heap.live().contains_key(a),
        heap.live().contains_key(b),
        a % 4096 == 0,
        b % 4096 != 0,
    ensures
        a + heap.extent(pmm, a) <= b || b + heap.extent(pmm, b) <= a,
{
    let hhdm = pmm.hhdm;
    let da = a - hhdm;
    let db = b - hhdm;
    let pa = page_of(hhdm, a);
    let pb = page_of(hhdm, b);
    let n = pages_for(heap.live()[a].0 as int);
    assert(heap.live_entry_ok(pmm, a));
    assert(heap.live_entry_ok(pmm, b));
    assert(da == pa * 4096);
    assert(db == pb * 4096 + db % 4096);
    let cb = heap.owners()[pb as u64] as int;
    assert(heap.owners().contains_key(pb as u64));
    lemma_class_sizes();
    lemma_class_layout(class_size(cb));
    if pa <= pb < pa + n {
        assert(pmm.bits()[pb]);
        assert(!heap.owners().contains_key(pb as u64));
    }
}

/// Whether the live allocation at `ptr` can hold `new_size` bytes where it
/// is: a frame-granular one when it needs as many frames as before, a
/// slab-granular one when its block is large enough.
pub open spec fn stays_in_place(
    pre: &Alloc,
    pre_pmm: &FrameAllocator,
    ptr: VirtAddr,
    new_size: usize,
) -> bool {
    if ptr.0 % 4096 == 0 {
        pages_for(pre.live()[ptr.0].0 as int) == pages_for(new_size as int)
    } else {
        new_size <= class_size(pre.owners()[page_of(pre_pmm.hhdm, ptr.0) as u64] as int)
    }
}

/// The number of bytes that move with an allocation: of a frame-granular one
/// the smaller of the old and the new size, of a slab-granular one the whole
/// block.
pub open spec fn moved_len(
    pre: &Alloc,
    pre_pmm: &FrameAllocator,
    ptr: VirtAddr,
    new_size: usize,
) -> int {
    let size = pre.live()[ptr.0].0;
    if ptr.0 % 4096 == 0 {
        if size < new_size {
            size as int
        } else {
            new_size as int
        }
    } else {
        class_size(pre.owners()[page_of(pre_pmm.hhdm, ptr.0) as u64] as int)
    }
}

/// An allocation that moves: the new region is allocated as any other, the
/// bytes are copied into it, and then the old region is given back.
pub open spec fn moved(
    pre: &Alloc,
    pre_pmm: &FrameAllocator,
    ptr: VirtAddr,
    align: usize,
    new_size: usize,
    mid: &Alloc,
    mid_pmm: &FrameAllocator,
    post: &Alloc,
    post_pmm: &FrameAllocator,
    n: VirtAddr,
) -> bool {
    &&& mid.wf(mid_pmm)
    &&& alloc_result(pre, pre_pmm, new_size, align, mid, mid_pmm, Ok(n))
    &&& release_result(mid, mid_pmm, ptr, post, post_pmm)
    &&& post_pmm.mem() == copy_range(
        mid_pmm.mem(),
        ptr.0 - pre_pmm.hhdm,
        n.0 - pre_pmm.hhdm,
        moved_len(pre, pre_pmm, ptr, new_size),
    )
}

/// What `realloc` does. A null pointer makes it an allocation of `new_size`
/// bytes. A pointer, size and alignment that are not those of a live
/// allocation are refused. An allocation that can hold the new size where it
/// is keeps its address and only has its recorded size changed. Any other
/// moves; where no memory is left for the new region, the old one stays as it
/// is.
pub open spec fn realloc_result(
    pre: &Alloc,
    pre_pmm: &FrameAllocator,
    ptr: VirtAddr,
    size: usize,
    align: usize,
    new_size: usize,
    post: &Alloc,
    post_pmm: &FrameAllocator,
    r: Result<VirtAddr, AllocError>,
) -> bool {
    if ptr.0 == 0 {
        alloc_result(pre, pre_pmm, new_size, align, post, post_pmm, r)
    } else if !pre.is_live(ptr, size, align) {
        &&& r == Err::<VirtAddr, AllocError>(AllocError::InvalidPointer)
        &&& unchanged(pre, pre_pmm, post, post_pmm)
    } else if stays_in_place(pre, pre_pmm, ptr, new_size) {
        &&& r == Ok::<VirtAddr, AllocError>(ptr)
        &&& post.live() == pre.live().insert(ptr.0, (new_size, align))
        &&& post.mem_used == pre.mem_used - size + new_size
        &&& post.slabs@ == pre.slabs@
        &&& post.owners() == pre.owners()
        &&& post_pmm.hhdm == pre_pmm.hhdm
        &&& post_pmm.bits() == pre_pmm.bits()
        &&& post_pmm.cursor == pre_pmm.cursor
        &&& post_pmm.mem() == pre_pmm.mem()
    } else {
        match r {
            Ok(n) => exists|mid: Alloc, mid_pmm: FrameAllocator| #[trigger]
                moved(pre, pre_pmm, ptr, align, new_size, &mid, &mid_pmm, post, post_pmm, n),
            Err(e) => alloc_result(pre, pre_pmm, new_size, align, post, post_pmm, Err(e)),
        }
    }
}

/// Changing the size recorded for a live allocation that can hold the new
/// size where it is keeps the heap consistent.
pub proof fn lemma_resize_wf(
    pre: &Alloc,
    pmm: &FrameAllocator,
    ptr: VirtAddr,
    new_size: usize,
    post: &Alloc,
)
    requires
        pre.wf(pmm),
        pre.live().contains_key(ptr.0),
        stays_in_place(pre, pmm, ptr, new_size),
        post.live() == pre.live().insert(ptr.0, (new_size, pre.live()[ptr.0].1)),
        post.mem_used == pre.mem_used - pre.live()[ptr.0].0 + new_size,
        post.slabs@ == pre.slabs@,
        post.owners() == pre.owners(),
    ensures
        post.wf(pmm),
{
    assert(pre.live_entry_ok(pmm, ptr.0));
    lemma_total_update(pre.live(), ptr.0, (new_size, pre.live()[ptr.0].1));
    assert(post.slabs_ok(pmm)) by {
        assert forall|c: int, j: int| 0 <= c < 10 && 0 <= j < post.slabs@[c].free@.len() implies {
            let x = #[trigger] post.slabs@[c].free@[j];
            &&& post.owners().contains_key(page_of(pmm.hhdm, x) as u64)
            &&& post.owners()[page_of(pmm.hhdm, x) as u64] == c
            &&& !post.live().contains_key(x)
        } by {
            assert(!pre.live().contains_key(pre.slabs@[c].free@[j]));
        }
    }
    assert(post.live_ok(pmm)) by {
        assert forall|a: u64| #[trigger] post.live().contains_key(a) implies post.live_entry_ok(
            pmm,
            a,
        ) by {
            assert(pre.live().contains_key(a));
            assert(pre.live_entry_ok(pmm, a));
        }
        assert forall|a: u64, c: u64|
            #[trigger] post.live().contains_key(a) && #[trigger] post.live().contains_key(c) && a
                != c && a % 4096 == 0 && c % 4096 == 0 implies {
            ||| page_of(pmm.hhdm, a) + pages_for(post.live()[a].0 as int) <= page_of(pmm.hhdm, c)
            ||| page_of(pmm.hhdm, c) + pages_for(post.live()[c].0 as int) <= page_of(pmm.hhdm, a)
        } by {
            assert(pre.live().contains_key(a) && pre.live().contains_key(c));
        }
    }
}

/// What moving the live allocation at `ptr` to a region of `new_size` bytes
/// does: it moves, or no memory is left for the new region and nothing but
/// the search cursor changes.
pub open spec fn relocate_result(
    pre: &Alloc,
    pre_pmm: &FrameAllocator,
    ptr: VirtAddr,
    align: usize,
    new_size: usize,
    post: &Alloc,
    post_pmm: &FrameAllocator,
    r: Result<VirtAddr, AllocError>,
) -> bool {
    match r {
        Ok(n) => exists|mid: Alloc, mid_pmm: FrameAllocator| #[trigger]
            moved(pre, pre_pmm, ptr, align, new_size, &mid, &mid_pmm, post, post_pmm, n),
        Err(e) => alloc_result(pre, pre_pmm, new_size, align, post, post_pmm, Err(e)),
    }
}

/// The bytes of a live allocation are still where they were after another
/// allocation has been made and they have been copied into it.
pub proof fn lemma_moved_bytes(
    pre: &Alloc,
    pre_pmm: &FrameAllocator,
    ptr: VirtAddr,
    new_size: usize,
    mid_pmm: &FrameAllocator,
    post_pmm: &FrameAllocator,
    n: VirtAddr,
    count: int,
)
    requires
        pre.wf(pre_pmm),
        pre.live().contains_key(ptr.0),
        0 <= count <= pre.extent(pre_pmm, ptr.0),
        mid_pmm.mem().len() == pre_pmm.mem().len(),
        n.0 >= pre_pmm.hhdm,
        n.0 - pre_pmm.hhdm + count <= pre_pmm.mem().len(),
        n.0 + granted_for(new_size as int) <= ptr.0 || ptr.0 + pre.extent(pre_pmm, ptr.0) <= n.0,
        forall|i: int|
            0 <= i < pre_pmm.mem().len() && i / 4096 < pre_pmm.bits().len() && pre_pmm.bits()[i
                / 4096] && !(n.0 - pre_pmm.hhdm <= i < n.0 - pre_pmm.hhdm + granted_for(
                new_size as int,
            )) ==> #[trigger] mid_pmm.mem()[i] == pre_pmm.mem()[i],
        post_pmm.mem() == copy_range(
            mid_pmm.mem(),
            ptr.0 - pre_pmm.hhdm,
            n.0 - pre_pmm.hhdm,
            count,
        ),
    ensures
        forall|i: int|
            0 <= i < count ==> #[trigger] post_pmm.mem()[n.0 - pre_pmm.hhdm + i]
                == pre_pmm.mem()[ptr.0 - pre_pmm.hhdm + i],
{
    let hhdm = pre_pmm.hhdm;
    lemma_live_in_window(pre, pre_pmm, ptr.0);
    assert forall|i: int| 0 <= i < count implies #[trigger] post_pmm.mem()[n.0 - hhdm + i]
        == pre_pmm.mem()[ptr.0 - hhdm + i] by {
        let src = ptr.0 - hhdm + i;
        assert(pre_pmm.bits()[src / 4096]);
        assert(mid_pmm.mem()[src] == pre_pmm.mem()[src]);
    }
}

impl Alloc {
    /// Records `new_size` for the live allocation at `ptr`, which stays
    /// where it is.
    fn resize(&mut self, pmm: &FrameAllocator, ptr: VirtAddr, size: usize, align: usize, new_size: usize)
        requires
            old(self).wf(pmm),
            old(self).is_live(ptr, size, align),
            stays_in_place(old(self), pmm, ptr, new_size),
            old(self).mem_used + new_size <= usize::MAX,
        ensures
            final(self).wf(pmm),
            final(self).live() == old(self).live().insert(ptr.0, (new_size, align)),
            final(self).mem_used == old(self).mem_used - size + new_size,
            final(self).slabs@ == old(self).slabs@,
            final(self).owners() == old(self).owners(),
    {
        proof {
            lemma_total_remove(self.live(), ptr.0);
        }
        self.live.insert(ptr.as_u64(), (new_size, align));
        self.mem_used = self.mem_used - size + new_size;
        proof {
            lemma_resize_wf(old(self), pmm, ptr, new_size, self);
        }
    }

    /// Moves the live allocation at `ptr` to a new region of `new_size`
    /// bytes: allocates the region, copies `count` bytes into it and gives
    /// the old region back.
    fn relocate(
        &mut self,
        pmm: &mut FrameAllocator,
        ptr: VirtAddr,
        size: usize,
        align: usize,
        new_size: usize,
        count: usize,
    ) -> (r: Result<VirtAddr, AllocError>)
        requires
            old(self).wf(old(pmm)),
            old(self).is_live(ptr, size, align),
            old(self).mem_used + new_size <= usize::MAX,
            count == moved_len(old(self), old(pmm), ptr, new_size),
            count <= new_size,
        ensures
            final(self).wf(final(pmm)),
            relocate_result(old(self), old(pmm), ptr, align, new_size, final(self), final(pmm), r),
            r matches Ok(n) ==> final(self).is_live(n, new_size, align),
            r matches Ok(n) ==> forall|i: int|
                0 <= i < count ==> #[trigger] final(pmm).mem()[n.0 - old(pmm).hhdm + i] == old(
                    pmm,
                ).mem()[ptr.0 - old(pmm).hhdm + i],
    {
        let key: u64 = ptr.as_u64();
        let new_ptr = match self.allocate(pmm, new_size, align) {
            Ok(n) => n,
            Err(e) => {
                return Err(e);
            },
        };
        let ghost mid = *self;
        let ghost mid_pmm = *pmm;
        proof {
            lemma_class_sizes();
            lemma_class_for(new_size as int);
            lemma_live_in_window(old(self), old(pmm), key);
            lemma_live_in_window(&mid, &mid_pmm, key);
            lemma_live_disjoint(&mid, &mid_pmm, key, new_ptr.0);
            assert(mid.extent(&mid_pmm, key) == old(self).extent(old(pmm), key));
            assert(mid.extent(&mid_pmm, new_ptr.0) == granted_for(new_size as int));
        }
        pmm.copy_nonoverlapping(ptr, new_ptr, count);
        proof {
            lemma_wf_same_frames(&mid, &mid_pmm, self, pmm);
            lemma_moved_bytes(
                old(self),
                old(pmm),
                ptr,
                new_size,
                &mid_pmm,
                pmm,
                new_ptr,
                count as int,
            );
        }
        let ghost copied = pmm.mem();
        let freed = self.free(pmm, ptr, size, align);
        proof {
            assert(pmm.mem() == copied);
            assert(moved(
                old(self),
                old(pmm),
                ptr,
                align,
                new_size,
                &mid,
                &mid_pmm,
                self,
                pmm,
                new_ptr,
            ));
        }
        Ok(new_ptr)
    }

    /// Changes the size of the allocation at `ptr`, made with `size` and
    /// `align`, to `new_size` bytes, moving it where it cannot stay. The
    /// bytes that the old and the new size share are kept.
    pub fn realloc(
        &mut self,
        pmm: &mut FrameAllocator,
        ptr: VirtAddr,
        size: usize,
        align: usize,
        new_size: usize,
    ) -> (r: Result<VirtAddr, AllocError>)
        requires
            old(self).wf(old(pmm)),
            old(self).mem_used + new_size <= usize::MAX,
        ensures
            final(self).wf(final(pmm)),
            realloc_result(
                old(self),
                old(pmm),
                ptr,
                size,
                align,
                new_size,
                final(self),
                final(pmm),
                r,
            ),
            r matches Ok(n) ==> final(self).is_live(n, new_size, align),
            ptr.0 != 0 && r is Ok ==> old(self).is_live(ptr, size, align),
            ptr.0 != 0 ==> (r matches Ok(n) ==> forall|i: int|
                0 <= i < size && i < new_size ==> #[trigger] final(pmm).mem()[n.0 - old(pmm).hhdm
                    + i] == old(pmm).mem()[ptr.0 - old(pmm).hhdm + i]),
    {
        if ptr.as_u64() == 0 {
            return self.allocate(pmm, new_size, align);
        }
        let key: u64 = ptr.as_u64();
        let known: bool = match self.live.get(&key) {
            Some(l) => l.0 == size && l.1 == align,
            None => false,
        };
        if !known {
            return Err(AllocError::InvalidPointer);
        }
        proof {
            lemma_low_bits(key);
            lemma_class_sizes();
            assert(self.live_entry_ok(pmm, key));
        }
        if key & 0xFFF == 0 {
            if page_count(size) == page_count(new_size) {
                self.resize(pmm, ptr, size, align, new_size);
                return Ok(ptr);
            }
            let count: usize = if size > new_size {
                new_size
            } else {
                size
            };
            self.relocate(pmm, ptr, size, align, new_size, count)
        } else {
            let page: u64 = (key - pmm.hhdm) / 4096;
            let c: usize = match self.owners.get(&page) {
                Some(c) => *c,
                None => 0,
            };
            let block: usize = self.slabs[c].size;
            if new_size <= block {
                self.resize(pmm, ptr, size, align, new_size);
                return Ok(ptr);
            }
            self.relocate(pmm, ptr, size, align, new_size, block)
        }
    }
}

/// Whether the live allocation at `a` was served in whole frames or from a
/// slab can be read off its address: it starts at a frame boundary exactly
/// when no slab owns its frame. A frame-granular allocation is a run of used
/// frames, none of them a slab's; a slab-granular one is a block of the class
/// that owns its frame.
pub proof fn lemma_classification(heap: &Alloc, pmm: &FrameAllocator, a: u64)
    requires
        heap.wf(pmm),
        heap.live().contains_key(a),
    ensures
        a >= pmm.hhdm,
        (a & 0xFFF == 0) <==> !heap.owners().contains_key(page_of(pmm.hhdm, a) as u64),
        a & 0xFFF == 0 ==> forall|g: int|
            page_of(pmm.hhdm, a) <= g < page_of(pmm.hhdm, a) + pages_for(heap.live()[a].0 as int)
                ==> #[trigger] pmm.bits()[g] && !heap.owners().contains_key(g as u64),
        a & 0xFFF != 0 ==> is_block(
            pmm.hhdm,
            a,
            class_size(heap.owners()[page_of(pmm.hhdm, a) as u64] as int),
        ),
{
    lemma_low_bits(a);
    assert(heap.live_entry_ok(pmm, a));
    if a % 4096 == 0 {
        assert(pmm.bits()[page_of(pmm.hhdm, a)]);
    }
}

/// Freeing an allocation with the size and alignment it was made with gives
/// back the state from before it was made: the record of live allocations,
/// the bytes in use, the bitmap, the record of the slabs' frames and every
/// free list. This holds of every allocation that did not make its slab draw
/// a fresh frame; such a frame stays with the slab.
pub proof fn lemma_alloc_free_round_trip(
    pre: &Alloc,
    pre_pmm: &FrameAllocator,
    size: usize,
    align: usize,
    mid: &Alloc,
    mid_pmm: &FrameAllocator,
    p: VirtAddr,
    post: &Alloc,
    post_pmm: &FrameAllocator,
    r: Result<(), AllocError>,
)
    requires
        pre.wf(pre_pmm),
        mid.wf(mid_pmm),
        alloc_result(pre, pre_pmm, size, align, mid, mid_pmm, Ok(p)),
        free_result(mid, mid_pmm, p, size, align, post, post_pmm, r),
        class_for(size as int) matches Some(c) ==> pre.free_list(c).len() > 0,
    ensures
        r is Ok,
        post.live() == pre.live(),
        post.mem_used == pre.mem_used,
        post.owners() == pre.owners(),
        post_pmm.bits() == pre_pmm.bits(),
        forall|c: int| 0 <= c < 10 ==> #[trigger] post.free_list(c) == pre.free_list(c),
{
    let hhdm = pre_pmm.hhdm;
    lemma_class_for(size as int);
    assert(mid_pmm.mem().len() == pre_pmm.mem().len());
    match class_for(size as int) {
        Some(c) => {
            lemma_slab_alloc_wf(pre, pre_pmm, size, align, mid, mid_pmm, p);
            let list = pre.slabs@[c].free@;
            assert(p.0 == list[list.len() - 1]);
            assert(pre.owners().contains_key(page_of(hhdm, p.0) as u64));
            assert(mid.owners() =~= pre.owners());
            assert(post.free_list(c) =~= pre.free_list(c));
            assert forall|d: int| 0 <= d < 10 implies #[trigger] post.free_list(d) == pre.free_list(
                d,
            ) by {
                if d != c {
                    assert(post.slabs@[d] == mid.slabs@[d]);
                    assert(mid.slabs@[d] == pre.slabs@[d]);
                }
            }
        },
        None => {
            lemma_frame_alloc_wf(pre, pre_pmm, size, align, mid, mid_pmm, p);
            assert(post_pmm.bits() =~= pre_pmm.bits());
        },
    }
    assert(post.live() =~= pre.live());
}

/// Freeing a slab-granular allocation puts its block at the head of the free
/// list of its class, whether or not the allocation drew a fresh frame, and
/// leaves the rest of the list as the allocation left it.
pub proof fn lemma_freed_block_is_head(
    pre: &Alloc,
    pre_pmm: &FrameAllocator,
    size: usize,
    align: usize,
    mid: &Alloc,
    mid_pmm: &FrameAllocator,
    p: VirtAddr,
    post: &Alloc,
    post_pmm: &FrameAllocator,
    r: Result<(), AllocError>,
)
    requires
        pre.wf(pre_pmm),
        mid.wf(mid_pmm),
        class_for(size as int) is Some,
        alloc_result(pre, pre_pmm, size, align, mid, mid_pmm, Ok(p)),
        free_result(mid, mid_pmm, p, size, align, post, post_pmm, r),
    ensures
        r is Ok,
        post.free_list(class_for(size as int).unwrap()) == mid.free_list(
            class_for(size as int).unwrap(),
        ).push(p.0),
        post_pmm.bits() == mid_pmm.bits(),
{
    lemma_class_for(size as int);
    assert(mid_pmm.mem().len() == pre_pmm.mem().len());
    lemma_slab_alloc_wf(pre, pre_pmm, size, align, mid, mid_pmm, p);
}

/// The memory that an allocation hands out shares no byte with any
/// allocation that was live before it and still is.
pub proof fn lemma_alloc_apart(
    pre: &Alloc,
    pre_pmm: &FrameAllocator,
    size: usize,
    align: usize,
    post: &Alloc,
    post_pmm: &FrameAllocator,
    b: VirtAddr,
    a: u64,
)
    requires
        pre.wf(pre_pmm),
        post.wf(post_pmm),
        alloc_result(pre, pre_pmm, size, align, post, post_pmm, Ok(b)),
        pre.live().contains_key(a),
    ensures
        a != b.0,
        post.live().contains_key(a),
        post.extent(post_pmm, a) == pre.extent(pre_pmm, a),
        post.extent(post_pmm, b.0) == granted_for(size as int),
        a + pre.extent(pre_pmm, a) <= b.0 || b.0 + granted_for(size as int) <= a,
{
    let hhdm = pre_pmm.hhdm;
    lemma_class_for(size as int);
    lemma_class_sizes();
    assert(post_pmm.mem().len() == pre_pmm.mem().len());
    assert(pre.live_entry_ok(pre_pmm, a));
    assert(post.live().contains_key(b.0));
    assert(post.live_entry_ok(post_pmm, b.0));
    match class_for(size as int) {
        Some(c) => {
            lemma_slab_alloc_wf(pre, pre_pmm, size, align, post, post_pmm, b);
            if a % 4096 != 0 && page_of(hhdm, a) == page_of(hhdm, b.0) {
                let list = pre.slabs@[c].free@;
                if list.len() > 0 {
                    let x = pre.slabs@[c].free@[list.len() - 1];
                    assert(pre.owners()[page_of(hhdm, x) as u64] == c);
                } else {
                    assert(pre.owners().contains_key(page_of(hhdm, a) as u64));
                    assert(pre_pmm.bits()[page_of(hhdm, a)]);
                }
            }
        },
        None => {
            lemma_frame_alloc_wf(pre, pre_pmm, size, align, post, post_pmm, b);
        },
    }
    lemma_live_disjoint(post, post_pmm, a, b.0);
}

} // verus!
