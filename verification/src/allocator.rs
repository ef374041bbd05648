//! The first-fit heap of the FAE Rust runtime, on the device's 32-bit
//! addresses: a fixed heap, a free list kept in address order, blocks split
//! on allocation and merged with their neighbours when freed. Each
//! allocation is preceded by a header giving the size taken from the heap
//! and the distance back to the block's start; here the free list is an
//! ordered vector and the headers are records of the live allocations.

use vstd::prelude::*;

use crate::rt0::{addr32, round_up, spec_round_up};

use vstd::arithmetic::power2::pow2;

verus! {

/// The size of the heap.
pub const HEAP_SIZE: u32 = 1024;
/// The size of an allocation header (two words).
pub const HEADER_SIZE: u32 = 8;
/// The alignment of an allocation header.
pub const HEADER_ALIGN: u32 = 4;
/// The smallest block worth keeping on the free list (two words).
pub const MIN_BLOCK_SIZE: u32 = 8;

/// A free block: where it starts and how many bytes it holds.
#[derive(Debug, Clone, Copy, PartialEq, Eq)]
pub struct FreeBlock {
    pub start: u32,
    pub size: u32,
}

/// The header of a live allocation: the address handed out, the bytes taken
/// from the heap, and the distance from the block's start to that address.
#[derive(Debug, Clone, Copy, PartialEq, Eq)]
pub struct AllocationHeader {
    pub user: u32,
    pub total_size: u32,
    pub user_offset: u32,
}

pub open spec fn header_block(h: AllocationHeader) -> int {
    h.user - h.user_offset
}

/// Two byte ranges do not overlap.
pub open spec fn apart(a: int, alen: int, b: int, blen: int) -> bool {
    a + alen <= b || b + blen <= a
}

/// The address handed out from block `b`: after room for a header, rounded
/// up to `align`.
pub open spec fn user_start(b: FreeBlock, align: u32) -> u32 {
    spec_round_up((b.start + HEADER_SIZE) as u32, align)
}

/// The bytes an allocation of `size` at `align` takes from block `b`, from
/// its start to the end of the user bytes, where that can be computed.
pub open spec fn needed(b: FreeBlock, size: u32, align: u32) -> Option<u32> {
    let u = user_start(b, align);
    if u + size > u32::MAX || u + size < b.start {
        None
    } else {
        Some((u + size - b.start) as u32)
    }
}

/// Block `b` can serve the allocation.
pub open spec fn fits(b: FreeBlock, size: u32, align: u32) -> bool {
    needed(b, size, align) matches Some(t) && t <= b.size
}

/// The first block from `i` on that can serve the allocation.
pub open spec fn first_fit(free: Seq<FreeBlock>, size: u32, align: u32, i: int) -> Option<int>
    decreases free.len() - i,
{
    if i < 0 || i >= free.len() {
        None
    } else if fits(free[i], size, align) {
        Some(i)
    } else {
        first_fit(free, size, align, i + 1)
    }
}

/// The free list after block `i` serves `t` bytes: the rest stays as a
/// block when it is big enough, otherwise the whole block goes.
pub open spec fn free_after_alloc(free: Seq<FreeBlock>, i: int, t: u32) -> Seq<FreeBlock> {
    let b = free[i];
    if b.size - t >= MIN_BLOCK_SIZE {
        free.update(i, FreeBlock { start: (b.start + t) as u32, size: (b.size - t) as u32 })
    } else {
        free.remove(i)
    }
}

/// The bytes taken from block `i` serving `t` bytes.
pub open spec fn consumed(b: FreeBlock, t: u32) -> u32 {
    if b.size - t >= MIN_BLOCK_SIZE {
        t
    } else {
        b.size
    }
}

/// Where a freed block goes in the address-ordered list: before the first
/// block that does not start below it.
pub open spec fn insert_position(free: Seq<FreeBlock>, start: u32, i: int) -> int
    decreases free.len() - i,
{
    if i < 0 || i >= free.len() || free[i].start >= start {
        i
    } else {
        insert_position(free, start, i + 1)
    }
}

/// Block `i` absorbs block `i + 1` when it ends where that one starts.
pub open spec fn coalesce_at(free: Seq<FreeBlock>, i: int) -> Seq<FreeBlock> {
    if 0 <= i && i + 1 < free.len() && free[i].start + free[i].size == free[i + 1].start {
        free.update(i, FreeBlock { start: free[i].start, size: (free[i].size + free[i + 1].size) as u32 }).remove(i + 1)
    } else {
        free
    }
}

/// The free list after block `b` is freed: inserted in address order, then
/// merged with the next block and with the previous one.
pub open spec fn free_after_dealloc(free: Seq<FreeBlock>, b: FreeBlock) -> Seq<FreeBlock> {
    let p = insert_position(free, b.start, 0);
    let inserted = free.insert(p, b);
    let merged = coalesce_at(inserted, p);
    if p > 0 {
        coalesce_at(merged, p - 1)
    } else {
        merged
    }
}


// ---------------------------------------------------------------------------
// The heap
// ---------------------------------------------------------------------------
/// A free block lies in the heap and is big enough to be listed.
pub open spec fn block_ok(b: FreeBlock, base: u32) -> bool {
    &&& b.size >= MIN_BLOCK_SIZE
    &&& base <= b.start
    &&& b.start + b.size <= base + HEAP_SIZE
}

/// A live allocation's block lies in the heap, with its header before the
/// address handed out and that address inside the block.
pub open spec fn live_ok(h: AllocationHeader, base: u32) -> bool {
    &&& base <= header_block(h)
    &&& header_block(h) + h.total_size <= base + HEAP_SIZE
    &&& HEADER_SIZE <= h.user_offset < h.total_size
}

/// A live allocation's block and a free block do not overlap.
pub open spec fn live_free_apart(h: AllocationHeader, b: FreeBlock) -> bool {
    apart(header_block(h), h.total_size as int, b.start as int, b.size as int)
}

/// Two live allocations' blocks do not overlap.
pub open spec fn live_apart(h: AllocationHeader, g: AllocationHeader) -> bool {
    apart(header_block(h), h.total_size as int, header_block(g), g.total_size as int)
}

/// The heap's invariant: every free block and every live allocation lie in
/// the heap, none overlaps another, and the free list is in address order.
pub open spec fn heap_ok(base: u32, free: Seq<FreeBlock>, live: Seq<AllocationHeader>) -> bool {
    &&& base + HEAP_SIZE + HEAP_SIZE <= u32::MAX
    &&& forall|i: int| 0 <= i < free.len() ==> block_ok(#[trigger] free[i], base)
    &&& forall|i: int, j: int|
        0 <= i < j < free.len() ==> #[trigger] free[i].start + free[i].size <= #[trigger] free[j].start
    &&& forall|k: int| 0 <= k < live.len() ==> live_ok(#[trigger] live[k], base)
    &&& forall|k: int, i: int|
        0 <= k < live.len() && 0 <= i < free.len() ==> live_free_apart(#[trigger] live[k], #[trigger] free[i])
    &&& forall|k: int, m: int| 0 <= k < m < live.len() ==> live_apart(#[trigger] live[k], #[trigger] live[m])
}

/// The heap at `base`, whether it has been set up, its free list and the
/// headers of its live allocations.
pub struct FirstFitAllocator {
    base: u32,
    initialized: bool,
    free: Vec<FreeBlock>,
    live: Vec<AllocationHeader>,
}

impl FirstFitAllocator {
    pub closed spec fn heap_base(&self) -> u32 {
        self.base
    }

    pub closed spec fn is_initialized(&self) -> bool {
        self.initialized
    }

    /// The free list, in address order.
    pub closed spec fn free_list(&self) -> Seq<FreeBlock> {
        self.free@
    }

    /// The headers of the live allocations, oldest first.
    pub closed spec fn live(&self) -> Seq<AllocationHeader> {
        self.live@
    }

    /// The heap's invariant: every free block and every live allocation lie
    /// in the heap, none overlaps another, and the free list is in address
    /// order. Before set-up there is neither; after it, the free blocks and
    /// the live allocations together account for every byte of the heap.
    pub open spec fn wf(&self) -> bool {
        &&& heap_ok(self.heap_base(), self.free_list(), self.live())
        &&& !self.is_initialized() ==> self.free_list().len() == 0 && self.live().len() == 0
        &&& self.is_initialized() ==> free_bytes(self.free_list()) + live_bytes(self.live()) == HEAP_SIZE
    }

    /// A heap at `base`, not yet set up.
    pub fn new(base: u32) -> (r: Self)
        requires
            base + HEAP_SIZE + HEAP_SIZE <= u32::MAX,
        ensures
            r.wf(),
            r.heap_base() == base,
            !r.is_initialized(),
            r.free_list() == Seq::<FreeBlock>::empty(),
            r.live() == Seq::<AllocationHeader>::empty(),
    {
        FirstFitAllocator { base, initialized: false, free: Vec::new(), live: Vec::new() }
    }

    /// Sets the heap up once: the whole heap becomes one free block.
    pub fn init(&mut self)
        requires
            old(self).wf(),
        ensures
            final(self).wf(),
            final(self).heap_base() == old(self).heap_base(),
            final(self).is_initialized(),
            old(self).is_initialized() ==> final(self).free_list() == old(self).free_list() && final(self).live()
                == old(self).live(),
            !old(self).is_initialized() ==> final(self).free_list() == seq![
                FreeBlock { start: old(self).heap_base(), size: HEAP_SIZE },
            ] && final(self).live() == Seq::<AllocationHeader>::empty(),
    {
        if self.initialized {
            return;
        }
        self.free = vec![FreeBlock { start: self.base, size: HEAP_SIZE }];
        self.initialized = true;
        assert(self.free@ =~= seq![FreeBlock { start: self.base, size: HEAP_SIZE }]);
        proof {
            let sizes = self.free@.map_values(|b: FreeBlock| b.size as int);
            assert(sizes.drop_last() =~= Seq::<int>::empty());
            assert(self.live@.map_values(|h: AllocationHeader| h.total_size as int) =~= Seq::<int>::empty());
        }
    }
}



/// An alignment: a power of two.
pub open spec fn is_alignment(a: u32) -> bool {
    a > 0 && a & ((a - 1) as u32) == 0
}

/// The size and alignment an allocation is made with: at least one byte,
/// at least the header's alignment.
pub open spec fn effective_size(size: u32) -> u32 {
    if size < 1 {
        1
    } else {
        size
    }
}

pub open spec fn effective_align(align: u32) -> u32 {
    if align < HEADER_ALIGN {
        HEADER_ALIGN
    } else {
        align
    }
}

proof fn lemma_round_up_aligned(v: u32, a: u32)
    requires
        is_alignment(a),
        v + a - 1 <= u32::MAX,
    ensures
        spec_round_up(v, a) % a == 0,
        v <= spec_round_up(v, a) <= v + a - 1,
{
    let x = (v + a - 1) as u32;
    let m = (a - 1) as u32;
    assert(addr32(v + a - 1) == x);
    assert((x & !m) % a == 0 && x - m <= (x & !m) && (x & !m) <= x) by (bit_vector)
        requires
            a > 0,
            a & m == 0,
            m == a - 1,
            m <= x,
    ;
}

proof fn lemma_alignment_at_least_header(a: u32)
    requires
        is_alignment(a),
    ensures
        is_alignment(effective_align(a)),
{
    assert(4u32 & 3u32 == 0) by (bit_vector);
}

/// Facts about a block that serves an allocation: the address lies past
/// room for a header, is aligned, and the user bytes end inside the bytes
/// taken.
proof fn lemma_fit_facts(b: FreeBlock, base: u32, sz: u32, al: u32)
    requires
        block_ok(b, base),
        base + HEAP_SIZE + HEAP_SIZE <= u32::MAX,
        sz >= 1,
        is_alignment(al),
        sz + al <= 0x8000_0004,
        fits(b, sz, al),
    ensures
        user_start(b, al) % al == 0,
        b.start + HEADER_SIZE <= user_start(b, al),
        user_start(b, al) + sz == b.start + needed(b, sz, al)->Some_0,
        needed(b, sz, al)->Some_0 <= b.size,
{
    let v = (b.start + HEADER_SIZE) as u32;
    if v + al - 1 <= u32::MAX {
        lemma_round_up_aligned(v, al);
    } else {
        let x = (v + al - 1 - 0x1_0000_0000) as u32;
        let m = (al - 1) as u32;
        assert(addr32(v + al - 1) == x);
        assert((x & !m) <= x) by (bit_vector);
        assert(false);
    }
}

impl FirstFitAllocator {
    /// Allocates `size` bytes aligned to `align`, as `GlobalAlloc::alloc`
    /// does with a layout: the address handed out, 0 where the heap is not
    /// set up or no free block can serve it. The first block in address
    /// order that fits serves it: the allocation takes from its start up to
    /// the end of the user bytes (after room for a header, aligned), and the
    /// rest stays free as a block where it is big enough, else is taken too.
    pub fn allocate(&mut self, size: u32, align: u32) -> (r: u32)
        requires
            old(self).wf(),
            is_alignment(align),
            size + align <= 0x8000_0000,
        ensures
            final(self).wf(),
            final(self).heap_base() == old(self).heap_base(),
            final(self).is_initialized() == old(self).is_initialized(),
            ({
                let sz = effective_size(size);
                let al = effective_align(align);
                let free = old(self).free_list();
                if !old(self).is_initialized() || first_fit(free, sz, al, 0) is None {
                    r == 0 && final(self).free_list() == free && final(self).live() == old(self).live()
                } else {
                    let i = first_fit(free, sz, al, 0)->Some_0;
                    let b = free[i];
                    let t = needed(b, sz, al)->Some_0;
                    let u = user_start(b, al);
                    &&& r == u
                    &&& r % al == 0
                    &&& b.start + HEADER_SIZE <= r
                    &&& r + sz <= b.start + consumed(b, t)
                    &&& final(self).free_list() == free_after_alloc(free, i, t)
                    &&& final(self).live() == old(self).live().push(
                        AllocationHeader { user: u, total_size: consumed(b, t), user_offset: (u - b.start) as u32 },
                    )
                }
            }),
    {
        let sz = if size < 1 {
            1
        } else {
            size
        };
        let al = if align < HEADER_ALIGN {
            HEADER_ALIGN
        } else {
            align
        };
        proof {
            lemma_alignment_at_least_header(align);
        }
        if !self.initialized {
            return 0;
        }
        let ghost free0 = self.free@;
        let mut i: usize = 0;
        while i < self.free.len()
            invariant
                i <= self.free@.len(),
                self.free@ == free0,
                free0 == old(self).free@,
                self.live@ == old(self).live@,
                self.base == old(self).base,
                self.initialized,
                old(self).wf(),
                sz == effective_size(size),
                al == effective_align(align),
                is_alignment(al),
                sz >= 1,
                sz + al <= 0x8000_0004,
                heap_ok(self.base, free0, self.live@),
                first_fit(free0, sz, al, 0) == first_fit(free0, sz, al, i as int),
            decreases self.free@.len() - i,
        {
            let b = self.free[i];
            let v = b.start + HEADER_SIZE;
            assert(block_ok(free0[i as int], self.base));
            let u = round_up(v, al);
            let fit = match u.checked_add(sz) {
                None => None,
                Some(end) => if end < b.start {
                    None
                } else {
                    Some(end - b.start)
                },
            };
            assert(fit == needed(b, sz, al));
            match fit {
                Some(t) => {
                    if t <= b.size {
                        proof {
                            lemma_fit_facts(b, self.base, sz, al);
                            lemma_alloc_heap_ok(self.base, free0, self.live@, i as int, sz, al);
                            lemma_alloc_bytes(
                                free0,
                                self.live@,
                                i as int,
                                t,
                                AllocationHeader {
                                    user: u,
                                    total_size: consumed(b, t),
                                    user_offset: (u - b.start) as u32,
                                },
                            );
                        }
                        let total = if b.size - t >= MIN_BLOCK_SIZE {
                            self.free.set(i, FreeBlock { start: b.start + t, size: b.size - t });
                            t
                        } else {
                            self.free.remove(i);
                            b.size
                        };
                        self.live.push(AllocationHeader { user: u, total_size: total, user_offset: u - b.start });
                        return u;
                    }
                },
                None => {},
            }
            i = i + 1;
        }
        0
    }
}

proof fn lemma_alloc_heap_ok(base: u32, free: Seq<FreeBlock>, live: Seq<AllocationHeader>, i: int, sz: u32, al: u32)
    requires
        heap_ok(base, free, live),
        0 <= i < free.len(),
        sz >= 1,
        is_alignment(al),
        sz + al <= 0x8000_0004,
        fits(free[i], sz, al),
    ensures
        ({
            let b = free[i];
            let t = needed(b, sz, al)->Some_0;
            let u = user_start(b, al);
            heap_ok(
                base,
                free_after_alloc(free, i, t),
                live.push(AllocationHeader { user: u, total_size: consumed(b, t), user_offset: (u - b.start) as u32 }),
            )
        }),
{
    let b = free[i];
    assert(block_ok(b, base));
    lemma_fit_facts(b, base, sz, al);
    let t = needed(b, sz, al)->Some_0;
    let u = user_start(b, al);
    let h = AllocationHeader { user: u, total_size: consumed(b, t), user_offset: (u - b.start) as u32 };
    let nf = free_after_alloc(free, i, t);
    let nl = live.push(h);
    assert(header_block(h) == b.start);
    assert(live_ok(h, base));
    if b.size - t >= MIN_BLOCK_SIZE {
        let nb = FreeBlock { start: (b.start + t) as u32, size: (b.size - t) as u32 };
        assert(nf == free.update(i, nb));
        assert forall|x: int| 0 <= x < nf.len() implies block_ok(#[trigger] nf[x], base) by {
            if x != i {
                assert(nf[x] == free[x]);
            }
        }
        assert forall|x: int, y: int| 0 <= x < y < nf.len() implies #[trigger] nf[x].start + nf[x].size
            <= #[trigger] nf[y].start by {
            assert(free[x].start + free[x].size <= free[y].start);
        }
        assert forall|k: int, x: int| 0 <= k < nl.len() && 0 <= x < nf.len() implies live_free_apart(
            #[trigger] nl[k],
            #[trigger] nf[x],
        ) by {
            if k < live.len() {
                assert(nl[k] == live[k]);
                assert(live_free_apart(live[k], free[x]));
                assert(live_free_apart(live[k], free[i]));
            } else if x != i {
                if x < i {
                    assert(free[x].start + free[x].size <= free[i].start);
                } else {
                    assert(free[i].start + free[i].size <= free[x].start);
                }
            }
        }
        assert forall|k: int, m: int| 0 <= k < m < nl.len() implies live_apart(#[trigger] nl[k], #[trigger] nl[m]) by {
            if m < live.len() {
                assert(nl[k] == live[k] && nl[m] == live[m]);
            } else {
                assert(live_free_apart(live[k], free[i]));
            }
        }
        assert forall|k: int| 0 <= k < nl.len() implies live_ok(#[trigger] nl[k], base) by {
            if k < live.len() {
                assert(nl[k] == live[k]);
            }
        }
    } else {
        assert(nf == free.remove(i));
        assert forall|x: int| 0 <= x < nf.len() implies block_ok(#[trigger] nf[x], base) by {
            if x < i {
                assert(nf[x] == free[x]);
            } else {
                assert(nf[x] == free[x + 1]);
            }
        }
        assert forall|x: int, y: int| 0 <= x < y < nf.len() implies #[trigger] nf[x].start + nf[x].size
            <= #[trigger] nf[y].start by {
            let xx = if x < i { x } else { x + 1 };
            let yy = if y < i { y } else { y + 1 };
            assert(nf[x] == free[xx] && nf[y] == free[yy]);
            assert(free[xx].start + free[xx].size <= free[yy].start);
        }
        assert forall|k: int, x: int| 0 <= k < nl.len() && 0 <= x < nf.len() implies live_free_apart(
            #[trigger] nl[k],
            #[trigger] nf[x],
        ) by {
            let xx = if x < i { x } else { x + 1 };
            assert(nf[x] == free[xx]);
            if k < live.len() {
                assert(nl[k] == live[k]);
                assert(live_free_apart(live[k], free[xx]));
            } else {
                if xx < i {
                    assert(free[xx].start + free[xx].size <= free[i].start);
                } else {
                    assert(free[i].start + free[i].size <= free[xx].start);
                }
            }
        }
        assert forall|k: int, m: int| 0 <= k < m < nl.len() implies live_apart(#[trigger] nl[k], #[trigger] nl[m]) by {
            if m < live.len() {
                assert(nl[k] == live[k] && nl[m] == live[m]);
            } else {
                assert(live_free_apart(live[k], free[i]));
            }
        }
        assert forall|k: int| 0 <= k < nl.len() implies live_ok(#[trigger] nl[k], base) by {
            if k < live.len() {
                assert(nl[k] == live[k]);
            }
        }
    }
}


// ---------------------------------------------------------------------------
// Freeing
// ---------------------------------------------------------------------------
/// The live allocation handed out at `user`.
pub open spec fn live_index(live: Seq<AllocationHeader>, user: u32) -> int {
    choose|k: int| 0 <= k < live.len() && live[k].user == user
}

/// `user` is the address of a live allocation.
pub open spec fn is_live(live: Seq<AllocationHeader>, user: u32) -> bool {
    exists|k: int| 0 <= k < live.len() && live[k].user == user
}

/// The block a live allocation gives back.
pub open spec fn freed_block(h: AllocationHeader) -> FreeBlock {
    FreeBlock { start: header_block(h) as u32, size: h.total_size }
}

proof fn lemma_users_distinct(base: u32, free: Seq<FreeBlock>, live: Seq<AllocationHeader>, k: int, m: int)
    requires
        heap_ok(base, free, live),
        0 <= k < live.len(),
        0 <= m < live.len(),
        live[k].user == live[m].user,
    ensures
        k == m,
{
    if k < m {
        assert(live_apart(live[k], live[m]));
        assert(live_ok(live[k], base) && live_ok(live[m], base));
    } else if m < k {
        assert(live_apart(live[m], live[k]));
        assert(live_ok(live[k], base) && live_ok(live[m], base));
    }
}

proof fn lemma_insert_position(free: Seq<FreeBlock>, start: u32, i: int)
    requires
        0 <= i <= free.len(),
        forall|x: int| 0 <= x < i ==> #[trigger] free[x].start < start,
    ensures
        i <= insert_position(free, start, i) <= free.len(),
        forall|x: int| 0 <= x < insert_position(free, start, i) ==> #[trigger] free[x].start < start,
        insert_position(free, start, i) < free.len() ==> free[insert_position(free, start, i)].start >= start,
    decreases free.len() - i,
{
    if i < free.len() && free[i].start < start {
        lemma_insert_position(free, start, i + 1);
    }
}

proof fn lemma_insert_heap_ok(base: u32, free: Seq<FreeBlock>, live: Seq<AllocationHeader>, k: int)
    requires
        heap_ok(base, free, live),
        0 <= k < live.len(),
    ensures
        ({
            let nb = freed_block(live[k]);
            let p = insert_position(free, nb.start, 0);
            &&& 0 <= p <= free.len()
            &&& heap_ok(base, free.insert(p, nb), live.remove(k))
        }),
{
    let h = live[k];
    let nb = freed_block(h);
    assert(live_ok(h, base));
    lemma_insert_position(free, nb.start, 0);
    let p = insert_position(free, nb.start, 0);
    let nf = free.insert(p, nb);
    let nl = live.remove(k);
    assert(block_ok(nb, base));
    assert forall|x: int| 0 <= x < free.len() implies #[trigger] free[x].start + free[x].size <= nb.start || nb.start
        + nb.size <= free[x].start by {
        assert(live_free_apart(h, free[x]));
    }
    assert forall|x: int| 0 <= x < nf.len() implies block_ok(#[trigger] nf[x], base) by {
        if x < p {
            assert(nf[x] == free[x]);
        } else if x > p {
            assert(nf[x] == free[x - 1]);
        }
    }
    assert forall|x: int, y: int| 0 <= x < y < nf.len() implies #[trigger] nf[x].start + nf[x].size
        <= #[trigger] nf[y].start by {
        if y < p {
            assert(nf[x] == free[x] && nf[y] == free[y]);
        } else if y == p {
            assert(nf[x] == free[x]);
            assert(free[x].start < nb.start);
            assert(block_ok(free[x], base));
        } else if x == p {
            assert(nf[y] == free[y - 1]);
            assert(free[y - 1].start >= free[p].start) by {
                if y - 1 > p {
                    assert(free[p].start + free[p].size <= free[y - 1].start);
                }
            }
            assert(free[p].start >= nb.start);
            assert(block_ok(free[y - 1], base));
        } else if x < p {
            assert(nf[x] == free[x] && nf[y] == free[y - 1]);
            assert(free[x].start + free[x].size <= free[y - 1].start);
        } else {
            assert(nf[x] == free[x - 1] && nf[y] == free[y - 1]);
            assert(free[x - 1].start + free[x - 1].size <= free[y - 1].start);
        }
    }
    assert forall|j: int| 0 <= j < nl.len() implies live_ok(#[trigger] nl[j], base) by {
        let jj = if j < k { j } else { j + 1 };
        assert(nl[j] == live[jj]);
    }
    assert forall|j: int, x: int| 0 <= j < nl.len() && 0 <= x < nf.len() implies live_free_apart(
        #[trigger] nl[j],
        #[trigger] nf[x],
    ) by {
        let jj = if j < k { j } else { j + 1 };
        assert(nl[j] == live[jj]);
        if x < p {
            assert(nf[x] == free[x]);
            assert(live_free_apart(live[jj], free[x]));
        } else if x > p {
            assert(nf[x] == free[x - 1]);
            assert(live_free_apart(live[jj], free[x - 1]));
        } else {
            if jj < k {
                assert(live_apart(live[jj], live[k]));
            } else {
                assert(live_apart(live[k], live[jj]));
            }
        }
    }
    assert forall|j: int, m: int| 0 <= j < m < nl.len() implies live_apart(#[trigger] nl[j], #[trigger] nl[m]) by {
        let jj = if j < k { j } else { j + 1 };
        let mm = if m < k { m } else { m + 1 };
        assert(nl[j] == live[jj] && nl[m] == live[mm]);
        assert(live_apart(live[jj], live[mm]));
    }
}

proof fn lemma_coalesce_heap_ok(base: u32, free: Seq<FreeBlock>, live: Seq<AllocationHeader>, i: int)
    requires
        heap_ok(base, free, live),
    ensures
        heap_ok(base, coalesce_at(free, i), live),
{
    if 0 <= i && i + 1 < free.len() && free[i].start + free[i].size == free[i + 1].start {
        let a = free[i];
        let b = free[i + 1];
        assert(block_ok(a, base) && block_ok(b, base));
        let m = FreeBlock { start: a.start, size: (a.size + b.size) as u32 };
        let u = free.update(i, m);
        let nf = u.remove(i + 1);
        assert(coalesce_at(free, i) == nf);
        assert forall|x: int| 0 <= x < nf.len() implies #[trigger] nf[x] == if x < i {
            free[x]
        } else if x == i {
            m
        } else {
            free[x + 1]
        } by {
            if x < i + 1 {
                assert(nf[x] == u[x]);
            } else {
                assert(nf[x] == u[x + 1]);
            }
        }
        assert forall|x: int| 0 <= x < nf.len() implies block_ok(#[trigger] nf[x], base) by {
            if x > i {
                assert(nf[x] == free[x + 1]);
            } else if x < i {
                assert(nf[x] == free[x]);
            }
        }
        assert forall|x: int, y: int| 0 <= x < y < nf.len() implies #[trigger] nf[x].start + nf[x].size
            <= #[trigger] nf[y].start by {
            let xx = if x <= i { x } else { x + 1 };
            let yy = if y <= i { y } else { y + 1 };
            if x == i {
                assert(nf[y] == free[yy]);
                assert(free[i + 1].start + free[i + 1].size <= free[yy].start || yy == i + 1);
                if yy > i + 1 {
                    assert(free[i + 1].start + free[i + 1].size <= free[yy].start);
                }
            } else if y == i {
                assert(nf[x] == free[x]);
                assert(free[x].start + free[x].size <= free[i].start);
            } else {
                assert(nf[x] == free[xx] && nf[y] == free[yy]);
                assert(free[xx].start + free[xx].size <= free[yy].start);
            }
        }
        assert forall|k: int, x: int| 0 <= k < live.len() && 0 <= x < nf.len() implies live_free_apart(
            #[trigger] live[k],
            #[trigger] nf[x],
        ) by {
            if x < i {
                assert(nf[x] == free[x]);
                assert(live_free_apart(live[k], free[x]));
            } else if x > i {
                assert(nf[x] == free[x + 1]);
                assert(live_free_apart(live[k], free[x + 1]));
            } else {
                assert(live_free_apart(live[k], free[i]));
                assert(live_free_apart(live[k], free[i + 1]));
            }
        }
    }
}

proof fn lemma_dealloc_heap_ok(base: u32, free: Seq<FreeBlock>, live: Seq<AllocationHeader>, k: int)
    requires
        heap_ok(base, free, live),
        0 <= k < live.len(),
    ensures
        heap_ok(base, free_after_dealloc(free, freed_block(live[k])), live.remove(k)),
{
    let nb = freed_block(live[k]);
    lemma_insert_heap_ok(base, free, live, k);
    let p = insert_position(free, nb.start, 0);
    let inserted = free.insert(p, nb);
    lemma_coalesce_heap_ok(base, inserted, live.remove(k), p);
    if p > 0 {
        lemma_coalesce_heap_ok(base, coalesce_at(inserted, p), live.remove(k), p - 1);
    }
}

fn coalesce(free: &mut Vec<FreeBlock>, i: usize, Ghost(base): Ghost<u32>, Ghost(live): Ghost<Seq<AllocationHeader>>)
    requires
        heap_ok(base, old(free)@, live),
    ensures
        final(free)@ == coalesce_at(old(free)@, i as int),
{
    let n = free.len();
    if n >= 2 && i < n - 1 {
        let a = free[i];
        let b = free[i + 1];
        proof {
            assert(block_ok(old(free)@[i as int], base) && block_ok(old(free)@[i + 1], base));
        }
        if a.start + a.size == b.start {
            free.set(i, FreeBlock { start: a.start, size: a.size + b.size });
            free.remove(i + 1);
        }
    }
}

impl FirstFitAllocator {
    /// Frees the allocation handed out at `ptr`, as `GlobalAlloc::dealloc`
    /// does: nothing for a null pointer or before set-up; otherwise its block
    /// goes back on the free list in address order and is merged with the
    /// free block right after it, and then with the one right before it,
    /// where they touch.
    pub fn deallocate(&mut self, ptr: u32)
        requires
            old(self).wf(),
            ptr == 0 || is_live(old(self).live(), ptr),
        ensures
            final(self).wf(),
            final(self).heap_base() == old(self).heap_base(),
            final(self).is_initialized() == old(self).is_initialized(),
            (ptr == 0 || !old(self).is_initialized()) ==> final(self).free_list() == old(self).free_list()
                && final(self).live() == old(self).live(),
            (ptr != 0 && old(self).is_initialized()) ==> ({
                let k = live_index(old(self).live(), ptr);
                &&& final(self).live() == old(self).live().remove(k)
                &&& final(self).free_list() == free_after_dealloc(
                    old(self).free_list(),
                    freed_block(old(self).live()[k]),
                )
            }),
    {
        if ptr == 0 || !self.initialized {
            return;
        }
        let ghost live0 = self.live@;
        let ghost free0 = self.free@;
        let mut k: usize = 0;
        while k < self.live.len() && self.live[k].user != ptr
            invariant
                k <= self.live@.len(),
                self.live@ == live0,
                is_live(live0, ptr),
                forall|j: int| 0 <= j < k ==> live0[j].user != ptr,
            decreases self.live@.len() - k,
        {
            k = k + 1;
        }
        proof {
            let w = choose|j: int| 0 <= j < live0.len() && live0[j].user == ptr;
            assert(w >= k);
            assert(k < live0.len());
            let c = live_index(live0, ptr);
            lemma_users_distinct(self.base, free0, live0, c, k as int);
            lemma_dealloc_heap_ok(self.base, free0, live0, k as int);
            lemma_insert_heap_ok(self.base, free0, live0, k as int);
            lemma_dealloc_bytes(self.base, free0, live0, k as int);
        }
        let h = self.live[k];
        let nb = FreeBlock { start: h.user - h.user_offset, size: h.total_size };
        assert(nb == freed_block(live0[k as int]));
        let mut p: usize = 0;
        proof {
            lemma_insert_position(free0, nb.start, 0);
        }
        while p < self.free.len() && self.free[p].start < nb.start
            invariant
                p <= self.free@.len(),
                self.free@ == free0,
                insert_position(free0, nb.start, 0) == insert_position(free0, nb.start, p as int),
            decreases self.free@.len() - p,
        {
            p = p + 1;
        }
        self.live.remove(k);
        self.free.insert(p, nb);
        let ghost inserted = self.free@;
        let ghost nl = self.live@;
        coalesce(&mut self.free, p, Ghost(self.base), Ghost(nl));
        if p > 0 {
            proof {
                lemma_coalesce_heap_ok(self.base, inserted, nl, p as int);
            }
            coalesce(&mut self.free, p - 1, Ghost(self.base), Ghost(nl));
        }
    }
}


// ---------------------------------------------------------------------------
// Counting the heap's bytes
// ---------------------------------------------------------------------------
/// The sum of a sequence of sizes.
pub open spec fn size_sum(s: Seq<int>) -> int
    decreases s.len(),
{
    if s.len() == 0 {
        0
    } else {
        size_sum(s.drop_last()) + s.last()
    }
}

/// The bytes of the free blocks.
pub open spec fn free_bytes(free: Seq<FreeBlock>) -> int {
    size_sum(free.map_values(|b: FreeBlock| b.size as int))
}

/// The bytes taken by the live allocations.
pub open spec fn live_bytes(live: Seq<AllocationHeader>) -> int {
    size_sum(live.map_values(|h: AllocationHeader| h.total_size as int))
}

proof fn lemma_size_sum_concat(a: Seq<int>, b: Seq<int>)
    ensures
        size_sum(a + b) == size_sum(a) + size_sum(b),
    decreases b.len(),
{
    if b.len() == 0 {
        assert(a + b =~= a);
    } else {
        lemma_size_sum_concat(a, b.drop_last());
        assert((a + b).drop_last() =~= a + b.drop_last());
    }
}

proof fn lemma_size_sum_single(x: int)
    ensures
        size_sum(seq![x]) == x,
{
    reveal_with_fuel(size_sum, 2);
    assert(seq![x].drop_last() =~= Seq::<int>::empty());
}

proof fn lemma_size_sum_push(s: Seq<int>, x: int)
    ensures
        size_sum(s.push(x)) == size_sum(s) + x,
{
    assert(s.push(x).drop_last() =~= s);
}

proof fn lemma_size_sum_update(s: Seq<int>, i: int, x: int)
    requires
        0 <= i < s.len(),
    ensures
        size_sum(s.update(i, x)) == size_sum(s) - s[i] + x,
{
    let pre = s.subrange(0, i);
    let post = s.subrange(i + 1, s.len() as int);
    assert(s =~= pre + seq![s[i]] + post);
    assert(s.update(i, x) =~= pre + seq![x] + post);
    lemma_size_sum_concat(pre + seq![s[i]], post);
    lemma_size_sum_concat(pre, seq![s[i]]);
    lemma_size_sum_concat(pre + seq![x], post);
    lemma_size_sum_concat(pre, seq![x]);
    lemma_size_sum_single(x);
    lemma_size_sum_single(s[i]);
}

proof fn lemma_size_sum_remove(s: Seq<int>, i: int)
    requires
        0 <= i < s.len(),
    ensures
        size_sum(s.remove(i)) == size_sum(s) - s[i],
{
    let pre = s.subrange(0, i);
    let post = s.subrange(i + 1, s.len() as int);
    assert(s =~= pre + seq![s[i]] + post);
    assert(s.remove(i) =~= pre + post);
    lemma_size_sum_concat(pre + seq![s[i]], post);
    lemma_size_sum_concat(pre, seq![s[i]]);
    lemma_size_sum_concat(pre, post);
    lemma_size_sum_single(s[i]);
}

proof fn lemma_size_sum_insert(s: Seq<int>, i: int, x: int)
    requires
        0 <= i <= s.len(),
    ensures
        size_sum(s.insert(i, x)) == size_sum(s) + x,
{
    let pre = s.subrange(0, i);
    let post = s.subrange(i, s.len() as int);
    assert(s =~= pre + post);
    assert(s.insert(i, x) =~= pre + seq![x] + post);
    lemma_size_sum_concat(pre + seq![x], post);
    lemma_size_sum_concat(pre, seq![x]);
    lemma_size_sum_concat(pre, post);
    lemma_size_sum_single(x);
}

proof fn lemma_alloc_bytes(free: Seq<FreeBlock>, live: Seq<AllocationHeader>, i: int, t: u32, h: AllocationHeader)
    requires
        0 <= i < free.len(),
        t <= free[i].size,
        h.total_size == consumed(free[i], t),
    ensures
        free_bytes(free_after_alloc(free, i, t)) + live_bytes(live.push(h)) == free_bytes(free) + live_bytes(live),
{
    let sizes = free.map_values(|b: FreeBlock| b.size as int);
    let b = free[i];
    let ls = live.map_values(|g: AllocationHeader| g.total_size as int);
    assert(live.push(h).map_values(|g: AllocationHeader| g.total_size as int) =~= ls.push(h.total_size as int));
    lemma_size_sum_push(ls, h.total_size as int);
    if b.size - t >= MIN_BLOCK_SIZE {
        let nb = FreeBlock { start: (b.start + t) as u32, size: (b.size - t) as u32 };
        assert(free.update(i, nb).map_values(|x: FreeBlock| x.size as int) =~= sizes.update(i, nb.size as int));
        lemma_size_sum_update(sizes, i, nb.size as int);
    } else {
        assert(free.remove(i).map_values(|x: FreeBlock| x.size as int) =~= sizes.remove(i));
        lemma_size_sum_remove(sizes, i);
    }
}

proof fn lemma_coalesce_bytes(free: Seq<FreeBlock>, i: int)
    ensures
        (coalesce_at(free, i) == free) || (0 <= i && i + 1 < free.len() && free[i].size + free[i + 1].size
            <= u32::MAX ==> free_bytes(coalesce_at(free, i)) == free_bytes(free)),
{
    if 0 <= i && i + 1 < free.len() && free[i].start + free[i].size == free[i + 1].start && free[i].size
        + free[i + 1].size <= u32::MAX {
        let sizes = free.map_values(|b: FreeBlock| b.size as int);
        let m = FreeBlock { start: free[i].start, size: (free[i].size + free[i + 1].size) as u32 };
        let u = free.update(i, m);
        assert(u.map_values(|b: FreeBlock| b.size as int) =~= sizes.update(i, m.size as int));
        lemma_size_sum_update(sizes, i, m.size as int);
        let us = sizes.update(i, m.size as int);
        assert(u.remove(i + 1).map_values(|b: FreeBlock| b.size as int) =~= us.remove(i + 1));
        lemma_size_sum_remove(us, i + 1);
    }
}

proof fn lemma_dealloc_bytes(base: u32, free: Seq<FreeBlock>, live: Seq<AllocationHeader>, k: int)
    requires
        heap_ok(base, free, live),
        0 <= k < live.len(),
    ensures
        free_bytes(free_after_dealloc(free, freed_block(live[k]))) + live_bytes(live.remove(k)) == free_bytes(
            free,
        ) + live_bytes(live),
{
    let nb = freed_block(live[k]);
    lemma_insert_heap_ok(base, free, live, k);
    let p = insert_position(free, nb.start, 0);
    let inserted = free.insert(p, nb);
    let ls = live.map_values(|g: AllocationHeader| g.total_size as int);
    assert(live.remove(k).map_values(|g: AllocationHeader| g.total_size as int) =~= ls.remove(k));
    lemma_size_sum_remove(ls, k);
    let fs = free.map_values(|b: FreeBlock| b.size as int);
    assert(inserted.map_values(|b: FreeBlock| b.size as int) =~= fs.insert(p, nb.size as int));
    lemma_size_sum_insert(fs, p, nb.size as int);
    let nl = live.remove(k);
    assert(heap_ok(base, inserted, nl));
    if p + 1 < inserted.len() {
        assert(block_ok(inserted[p], base) && block_ok(inserted[p + 1], base));
    }
    lemma_coalesce_bytes(inserted, p);
    lemma_coalesce_heap_ok(base, inserted, nl, p);
    let merged = coalesce_at(inserted, p);
    if p > 0 {
        assert(block_ok(merged[p - 1], base));
        if p < merged.len() {
            assert(block_ok(merged[p as int], base));
        }
        lemma_coalesce_bytes(merged, p - 1);
    }
}

} // verus!
