//! Bookkeeping of the segregated-free-list allocator: size classes, the
//! per-class free lists, and the bump region carved out of mapped arenas.
//!
//! Addresses are plain integers here; mapping and unmapping memory is done
//! by the caller, which hands the mapped address back in.
use vstd::prelude::*;

verus! {

/// The page size; large blocks are mapped in whole pages.
pub const PAGE: usize = 4096;
/// Size of a bump arena.
pub const ARENA: usize = 0x100000;
/// Number of size classes.
pub const NUM_BUCKETS: usize = 13;
/// Largest size class.
pub const MAX_BUCKET: usize = 65536;
/// Upper bound on the addresses an arena may reach.
pub const ADDR_LIMIT: usize = usize::MAX - 0x20000;

/// The size of class `i`: 16, 32, ..., 65536.
pub open spec fn bucket_spec(i: int) -> int
    decreases i,
{
    if i <= 0 {
        16
    } else {
        2 * bucket_spec(i - 1)
    }
}

/// Class sizes grow with the index.
pub proof fn lemma_bucket_mono(i: int, j: int)
    requires
        0 <= i <= j,
    ensures
        bucket_spec(i) <= bucket_spec(j),
        bucket_spec(i) >= 16,
    decreases j,
{
    lemma_bucket_min(i);
    if j > i {
        lemma_bucket_mono(i, j - 1);
        lemma_bucket_min(j - 1);
    }
}

/// Every class holds at least 16 bytes.
pub proof fn lemma_bucket_min(i: int)
    requires
        0 <= i,
    ensures
        bucket_spec(i) >= 16,
    decreases i,
{
    if i > 0 {
        lemma_bucket_min(i - 1);
    }
}

/// The size of class `i`.
pub fn bucket_size(i: usize) -> (s: usize)
    requires
        i < NUM_BUCKETS,
    ensures
        s == bucket_spec(i as int),
        16 <= s <= MAX_BUCKET,
{
    proof { reveal_with_fuel(bucket_spec, 14); }
    match i {
        0 => 16,
        1 => 32,
        2 => 64,
        3 => 128,
        4 => 256,
        5 => 512,
        6 => 1024,
        7 => 2048,
        8 => 4096,
        9 => 8192,
        10 => 16384,
        11 => 32768,
        _ => 65536,
    }
}

/// `x` rounded up to a multiple of `to`.
pub open spec fn round_up_spec(x: int, to: int) -> int {
    (x + to - 1) / to * to
}

/// Round `x` up to a multiple of `to`.
pub fn round_up(x: usize, to: usize) -> (r: usize)
    requires
        to > 0,
        x + to - 1 <= usize::MAX,
    ensures
        r == round_up_spec(x as int, to as int),
        r % to == 0,
        x <= r < x + to,
{
    let q = (x + (to - 1)) / to;
    proof {
        let y: int = x + to - 1;
        let t: int = to as int;
        let qq: int = q as int;
        assert(qq == y / t);
        assert(qq * t <= y) by (nonlinear_arith)
            requires qq == y / t, t > 0, y >= 0;
        assert(qq * t > y - t) by (nonlinear_arith)
            requires qq == y / t, t > 0, y >= 0;
        assert((qq * t) % t == 0) by (nonlinear_arith)
            requires t > 0, qq >= 0;
    }
    q * to
}

/// The index of the smallest class of at least `need` bytes.
pub open spec fn bucket_index_spec(need: int) -> int

{
    choose|i: int| 0 <= i < 13 && #[trigger] bucket_spec(i) >= need && (i == 0 || bucket_spec(i - 1) < need)
}

/// Find the smallest class holding `need` bytes.
pub fn bucket_index(need: usize) -> (i: usize)
    requires
        need <= MAX_BUCKET,
    ensures
        i < NUM_BUCKETS,
        bucket_spec(i as int) >= need,
        i == 0 || bucket_spec(i - 1) < need,
{
    proof { reveal_with_fuel(bucket_spec, 14); }
    let mut i: usize = 0;
    while bucket_size(i) < need
        invariant
            i < NUM_BUCKETS,
            need <= MAX_BUCKET,
            i == 0 || bucket_spec(i - 1) < need,
        decreases NUM_BUCKETS - i,
    {
        proof { reveal_with_fuel(bucket_spec, 14); }
        i += 1;
    }
    i
}

/// How much to map for an arena that must hold at least `min` bytes.
pub fn arena_size(min: usize) -> (s: usize)
    requires
        min + PAGE - 1 <= usize::MAX,
    ensures
        s == if ARENA >= min { ARENA as int } else { round_up_spec(min as int, PAGE as int) },
        s >= min,
{
    if ARENA >= min {
        ARENA
    } else {
        round_up(min, PAGE)
    }
}

/// The abstract state: a free list (a stack of addresses) per class, and
/// the bump region `[cur, end)`; `cur == 0` means there is no region.
pub struct AllocModel {
    pub free: Seq<Seq<usize>>,
    pub cur: usize,
    pub end: usize,
}

/// The allocator's bookkeeping.
pub struct Inner {
    pub free: Vec<Vec<usize>>,
    pub cur: usize,
    pub end: usize,
}

/// What the caller must do to finish an allocation.
#[derive(Clone, Copy, PartialEq, Eq, Debug, Structural)]
pub enum AllocStep {
    /// The allocation is this address (`0` when it failed).
    Ready(usize),
    /// Map a fresh region of this many bytes and use it as the allocation.
    MapLarge(usize),
    /// Map an arena of `arena_size(bucket_size(b))` bytes, install it, then
    /// carve a block of class `b`.
    NeedArena(usize),
}

/// What the caller must do to finish a deallocation.
#[derive(Clone, Copy, PartialEq, Eq, Debug, Structural)]
pub enum DeallocStep {
    /// Nothing more (zero-size, or the block went onto a free list).
    Done,
    /// Unmap this many bytes at the block's address.
    Unmap(usize),
}

/// Whether a request of `size` bytes aligned to `align` is served from the
/// size classes.
pub open spec fn is_small(size: int, align: int) -> bool {
    let need = if size > align { size } else { align };
    need <= MAX_BUCKET && align <= PAGE
}

/// The class a small request is served from.
pub open spec fn class_of(size: int, align: int) -> int {
    bucket_index_spec(if size > align { size } else { align })
}

/// Whether `r` and `m2` are the outcome of asking `m` for `size` bytes
/// aligned to `align`.
pub open spec fn alloc_spec(m: AllocModel, size: int, align: int, r: AllocStep, m2: AllocModel) -> bool {
    if size == 0 {
        r == AllocStep::Ready(align as usize) && m2 == m
    } else if !is_small(size, align) {
        r == AllocStep::MapLarge(round_up_spec(size, PAGE as int) as usize) && m2 == m
    } else {
        let b = class_of(size, align);
        let bs = bucket_spec(b);
        if m.free[b].len() > 0 {
            r == AllocStep::Ready(m.free[b].last()) && m2 == AllocModel {
                free: m.free.update(b, m.free[b].drop_last()),
                ..m
            }
        } else {
            let aligned = round_up_spec(m.cur as int, bs);
            if m.cur == 0 || aligned + bs > m.end {
                r == AllocStep::NeedArena(b as usize) && m2 == m
            } else {
                r == AllocStep::Ready(aligned as usize) && m2 == AllocModel { cur: (aligned + bs) as usize, ..m }
            }
        }
    }
}

/// Whether `p` and `m2` are the outcome of carving a block of class `b`
/// from the bump region of `m`: the next class-aligned block when it fits,
/// otherwise `0` and no change.
pub open spec fn carve_spec(m: AllocModel, b: int, p: usize, m2: AllocModel) -> bool {
    let bs = bucket_spec(b);
    let aligned = round_up_spec(m.cur as int, bs);
    if m.cur == 0 || aligned + bs > m.end {
        p == 0 && m2 == m
    } else {
        p == aligned && m.cur <= p && m2 == (AllocModel { cur: (aligned + bs) as usize, ..m })
    }
}

/// Whether `r` and `m2` are the outcome of giving block `p` of `size`
/// bytes aligned to `align` back to `m`.
pub open spec fn dealloc_spec(m: AllocModel, p: usize, size: int, align: int, r: DeallocStep, m2: AllocModel) -> bool {
    if size == 0 {
        r == DeallocStep::Done && m2 == m
    } else if !is_small(size, align) {
        r == DeallocStep::Unmap(round_up_spec(size, PAGE as int) as usize) && m2 == m
    } else {
        let b = class_of(size, align);
        r == DeallocStep::Done && m2 == AllocModel { free: m.free.update(b, m.free[b].push(p)), ..m }
    }
}

proof fn lemma_bucket_index_spec(need: int, i: int)
    requires
        0 <= i < 13,
        bucket_spec(i) >= need,
        i == 0 || bucket_spec(i - 1) < need,
    ensures
        bucket_index_spec(need) == i,
{
    let c = choose|c: int| 0 <= c < 13 && #[trigger] bucket_spec(c) >= need && (c == 0 || bucket_spec(c - 1) < need);
    assert(0 <= c < 13 && bucket_spec(c) >= need && (c == 0 || bucket_spec(c - 1) < need));
    if c < i {
        lemma_bucket_mono(c, i - 1);
    } else if c > i {
        lemma_bucket_mono(i, c - 1);
    }
}

impl Inner {
    pub open spec fn view(&self) -> AllocModel {
        AllocModel { free: Seq::new(self.free@.len(), |i: int| self.free@[i]@), cur: self.cur, end: self.end }
    }

    /// The bookkeeping invariant: one free list per class, every listed
    /// block aligned to its class, and a bump region below the address limit.
    pub open spec fn wf(&self) -> bool {
        &&& self.free@.len() == NUM_BUCKETS
        &&& forall|i: int, j: int| 0 <= i < 13 && 0 <= j < self.free@[i]@.len()
            ==> #[trigger] self.free@[i]@[j] as int % bucket_spec(i) == 0
        &&& self.cur <= self.end <= ADDR_LIMIT
    }

    /// Empty free lists and no bump region.
    pub fn new() -> (s: Inner)
        ensures
            s.wf(),
            s.cur == 0 && s.end == 0,
            forall|i: int| 0 <= i < 13 ==> (#[trigger] s.free@[i])@.len() == 0,
    {
        let mut free: Vec<Vec<usize>> = Vec::new();
        let mut i: usize = 0;
        while i < NUM_BUCKETS
            invariant
                i <= NUM_BUCKETS,
                free@.len() == i,
                forall|k: int| 0 <= k < i ==> (#[trigger] free@[k])@.len() == 0,
            decreases NUM_BUCKETS - i,
        {
            free.push(Vec::new());
            i += 1;
        }
        Inner { free, cur: 0, end: 0 }
    }

    /// Start an allocation of `size` bytes aligned to `align`: a zero-size
    /// request gets the (non-null, never read) address `align`; a large one
    /// is its own mapping; a small one reuses the most recently freed block
    /// of its class, or carves the next class-aligned block from the bump
    /// region, or asks for a fresh arena.
    pub fn alloc_step(&mut self, size: usize, align: usize) -> (r: AllocStep)
        requires
            old(self).wf(),
            size <= isize::MAX,
            align > 0,
            align <= isize::MAX,
        ensures
            final(self).wf(),
            alloc_spec(old(self)@, size as int, align as int, r, final(self)@),
            (r matches AllocStep::Ready(p) && size > 0 && is_small(size as int, align as int)) ==> r->Ready_0 as int % bucket_spec(class_of(size as int, align as int)) == 0,
    {
        if size == 0 {
            return AllocStep::Ready(align);
        }
        let need = if size > align { size } else { align };
        if need > MAX_BUCKET || align > PAGE {
            return AllocStep::MapLarge(round_up(size, PAGE));
        }
        let b = bucket_index(need);
        proof { lemma_bucket_index_spec(need as int, b as int); }
        let bsize = bucket_size(b);
        let ghost m = self@;
        if self.free[b].len() > 0 {
            let mut list: Vec<usize> = Vec::new();
            std::mem::swap(&mut list, &mut self.free[b]);
            let p = list.pop().unwrap();
            self.free[b] = list;
            proof {
                assert(self@.free =~= m.free.update(b as int, m.free[b as int].drop_last()));
                assert forall|i: int, j: int| 0 <= i < 13 && 0 <= j < self.free@[i]@.len()
                    implies #[trigger] self.free@[i]@[j] as int % bucket_spec(i) == 0 by {
                    if i == b {
                        assert(self.free@[i]@[j] == old(self).free@[i]@[j]);
                    }
                }
                assert(old(self).free@[b as int]@[old(self).free@[b as int]@.len() - 1] as int % bucket_spec(b as int) == 0);
            }
            return AllocStep::Ready(p);
        }
        if self.cur == 0 {
            return AllocStep::NeedArena(b);
        }
        let aligned = round_up(self.cur, bsize);
        if aligned + bsize > self.end {
            return AllocStep::NeedArena(b);
        }
        self.cur = aligned + bsize;
        proof {
            assert(self@ =~= AllocModel { cur: (aligned + bsize) as usize, ..m });
        }
        AllocStep::Ready(aligned)
    }

    /// Install a freshly mapped arena `[base, base + len)` as the bump region.
    pub fn install_arena(&mut self, base: usize, len: usize)
        requires
            old(self).wf(),
            base > 0,
            base + len <= ADDR_LIMIT,
        ensures
            final(self).wf(),
            final(self)@ == (AllocModel { cur: base, end: (base + len) as usize, ..old(self)@ }),
    {
        self.cur = base;
        self.end = base + len;
    }

    /// Carve a block of class `b` from the bump region, or return `0` if the
    /// region cannot hold one.
    pub fn carve(&mut self, b: usize) -> (p: usize)
        requires
            old(self).wf(),
            b < NUM_BUCKETS,
        ensures
            final(self).wf(),
            carve_spec(old(self)@, b as int, p, final(self)@),
            p != 0 ==> p as int % bucket_spec(b as int) == 0,
    {
        let bsize = bucket_size(b);
        if self.cur == 0 {
            return 0;
        }
        let aligned = round_up(self.cur, bsize);
        if aligned + bsize > self.end {
            return 0;
        }
        self.cur = aligned + bsize;
        aligned
    }

    /// Give back block `p` of `size` bytes aligned to `align`: zero-size
    /// blocks are ignored, large ones are unmapped by the caller, small ones
    /// go on top of their class's free list.
    pub fn dealloc_step(&mut self, p: usize, size: usize, align: usize) -> (r: DeallocStep)
        requires
            old(self).wf(),
            size <= isize::MAX,
            align > 0,
            align <= isize::MAX,
            size > 0 && is_small(size as int, align as int) ==> p as int % bucket_spec(class_of(size as int, align as int)) == 0,
        ensures
            final(self).wf(),
            dealloc_spec(old(self)@, p, size as int, align as int, r, final(self)@),
    {
        if size == 0 {
            return DeallocStep::Done;
        }
        let need = if size > align { size } else { align };
        if need > MAX_BUCKET || align > PAGE {
            return DeallocStep::Unmap(round_up(size, PAGE));
        }
        let b = bucket_index(need);
        proof { lemma_bucket_index_spec(need as int, b as int); }
        let ghost m = self@;
        let mut list: Vec<usize> = Vec::new();
        std::mem::swap(&mut list, &mut self.free[b]);
        list.push(p);
        self.free[b] = list;
        proof {
            assert(self@.free =~= m.free.update(b as int, m.free[b as int].push(p)));
            assert forall|i: int, j: int| 0 <= i < 13 && 0 <= j < self.free@[i]@.len()
                implies #[trigger] self.free@[i]@[j] as int % bucket_spec(i) == 0 by {
                if i == b && j < old(self).free@[i]@.len() {
                    assert(self.free@[i]@[j] == old(self).free@[i]@[j]);
                }
            }
        }
        DeallocStep::Done
    }
}

/// Freeing a small block and then asking again for the same layout hands the
/// same block back.
pub proof fn lemma_free_then_alloc_reuses(m: AllocModel, p: usize, size: int, align: int,
    r1: DeallocStep, m1: AllocModel, r2: AllocStep, m2: AllocModel)
    requires
        size > 0,
        is_small(size, align),
        0 <= class_of(size, align) < m.free.len(),
        dealloc_spec(m, p, size, align, r1, m1),
        alloc_spec(m1, size, align, r2, m2),
    ensures
        r2 == AllocStep::Ready(p),
        m2 =~= m,
{
    let b = class_of(size, align);
    assert(m1.free[b] == m.free[b].push(p));
    assert(m1.free[b].drop_last() =~= m.free[b]);
    assert(m2.free =~= m.free);
}

/// A block carved from the bump region lies wholly inside the old region
/// and the region shrinks past it, so later carved blocks cannot overlap it.
pub proof fn lemma_carved_blocks_disjoint(m: AllocModel, size: int, align: int, r: AllocStep, m2: AllocModel)
    requires
        size > 0,
        is_small(size, align),
        0 <= class_of(size, align) < m.free.len(),
        m.free[class_of(size, align)].len() == 0,
        alloc_spec(m, size, align, r, m2),
        r is Ready,
    ensures
        m.cur <= r->Ready_0,
        r->Ready_0 + bucket_spec(class_of(size, align)) == m2.cur,
        m2.cur <= m.end,
        m2.end == m.end,
{
    let b = class_of(size, align);
    let bs = bucket_spec(b);
    let y: int = m.cur + bs - 1;
    assert(bs >= 16) by { lemma_bucket_mono(0, b); }
    assert(y / bs * bs > y - bs) by (nonlinear_arith)
        requires bs > 0, y >= 0;
}

} // verus!
